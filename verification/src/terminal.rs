//! What the TUI makes of the output of a plugin's terminal command.

use vstd::prelude::*;
use crate::contribution::{strings_view, PluginTerminalCommandResult};
use crate::normalize::at_most;
use crate::text::{
    chars_of, has_crlf, join, lemma_lines_have_no_newline, lemma_lines_join, lemma_trim_idempotent, lemma_trim_within,
    line_ranges, lines, string_of, trim, trim_range, trimmed_chars,
};

verus! {

pub const MAX_PLUGIN_TERMINAL_TEXT_OUTPUT_LEN: usize = 16384;

#[derive(Debug, PartialEq, Eq)]
pub enum PluginTerminalCommandOutcome {
    NoOutput,
    /// The lines of text to show.
    Text(Vec<String>),
    /// The thread to resume.
    ResumeThread(String),
}

pub enum OutcomeModel {
    NoOutput,
    Text(Seq<Seq<char>>),
    ResumeThread(Seq<char>),
}

impl View for PluginTerminalCommandOutcome {
    type V = OutcomeModel;

    open spec fn view(&self) -> OutcomeModel {
        match self {
            PluginTerminalCommandOutcome::NoOutput => OutcomeModel::NoOutput,
            PluginTerminalCommandOutcome::Text(v) => OutcomeModel::Text(strings_view(v@)),
            PluginTerminalCommandOutcome::ResumeThread(s) => OutcomeModel::ResumeThread(s@),
        }
    }
}

/// The first line that is not blank, trimmed.
pub open spec fn first_nonblank_line(ls: Seq<Seq<char>>) -> Option<Seq<char>>
    decreases ls.len(),
{
    if ls.len() == 0 {
        None
    } else if trim(ls[0]).len() > 0 {
        Some(trim(ls[0]))
    } else {
        first_nonblank_line(ls.drop_first())
    }
}

/// Plain output shows the trimmed text, cut to 16384 characters, line by line;
/// a resumed thread is named by the first non-blank line. Blank output gives nothing.
pub open spec fn terminal_outcome(result: PluginTerminalCommandResult, stdout: Seq<char>) -> OutcomeModel {
    match result {
        PluginTerminalCommandResult::Plain => {
            let t = trim(stdout);
            if t.len() == 0 {
                OutcomeModel::NoOutput
            } else {
                OutcomeModel::Text(lines(at_most(t, MAX_PLUGIN_TERMINAL_TEXT_OUTPUT_LEN as nat)))
            }
        },
        PluginTerminalCommandResult::ResumeThread => match first_nonblank_line(lines(stdout)) {
            Some(thread) => OutcomeModel::ResumeThread(thread),
            None => OutcomeModel::NoOutput,
        },
    }
}

proof fn lemma_first_nonblank_line(ls: Seq<Seq<char>>, i: int)
    requires
        0 <= i <= ls.len(),
        forall|k: int| 0 <= k < i ==> trim(#[trigger] ls[k]).len() == 0,
    ensures
        i < ls.len() && trim(ls[i]).len() > 0 ==> first_nonblank_line(ls) == Some(trim(ls[i])),
        i == ls.len() ==> first_nonblank_line(ls) is None,
    decreases i,
{
    if i > 0 {
        assert(trim(ls[0]).len() == 0);
        assert forall|k: int| 0 <= k < i - 1 implies trim(#[trigger] ls.drop_first()[k]).len()
            == 0 by {
            assert(ls.drop_first()[k] == ls[k + 1]);
        }
        lemma_first_nonblank_line(ls.drop_first(), i - 1);
    }
}

pub fn interpret_plugin_terminal_stdout(result: PluginTerminalCommandResult, stdout: &str) -> (r:
    PluginTerminalCommandOutcome)
    ensures
        r@ == terminal_outcome(result, stdout@),
{
    match result {
        PluginTerminalCommandResult::Plain => {
            let mut v = trimmed_chars(stdout);
            if v.len() == 0 {
                return PluginTerminalCommandOutcome::NoOutput;
            }
            let ghost t = v@;
            v.truncate(MAX_PLUGIN_TERMINAL_TEXT_OUTPUT_LEN);
            assert(v@ =~= at_most(t, MAX_PLUGIN_TERMINAL_TEXT_OUTPUT_LEN as nat));
            let ranges = line_ranges(&v);
            let mut out: Vec<String> = Vec::new();
            let mut i: usize = 0;
            while i < ranges.len()
                invariant
                    i <= ranges.len(),
                    ranges.len() == lines(v@).len(),
                    forall|k: int|
                        #![trigger ranges[k]]
                        0 <= k < ranges.len() ==> {
                            &&& ranges[k].0 <= ranges[k].1 <= v.len()
                            &&& v@.subrange(ranges[k].0 as int, ranges[k].1 as int) == lines(
                                v@,
                            )[k]
                        },
                    strings_view(out@) == lines(v@).take(i as int),
                decreases ranges.len() - i,
            {
                let (lo, hi) = ranges[i];
                let ghost old_out = out@;
                let line = string_of(&v, lo, hi);
                out.push(line);
                assert(strings_view(out@) =~= strings_view(old_out).push(line@));
                assert(lines(v@).take(i + 1) =~= lines(v@).take(i as int).push(lines(v@)[i as int]));
                i += 1;
            }
            assert(lines(v@).take(ranges.len() as int) =~= lines(v@));
            PluginTerminalCommandOutcome::Text(out)
        },
        PluginTerminalCommandResult::ResumeThread => {
            let v = chars_of(stdout);
            let ranges = line_ranges(&v);
            let ghost ls = lines(v@);
            let mut i: usize = 0;
            while i < ranges.len()
                invariant
                    i <= ranges.len(),
                    ranges.len() == ls.len(),
                    ls == lines(v@),
                    v@ == stdout@,
                    result == PluginTerminalCommandResult::ResumeThread,
                    forall|k: int|
                        #![trigger ranges[k]]
                        0 <= k < ranges.len() ==> {
                            &&& ranges[k].0 <= ranges[k].1 <= v.len()
                            &&& v@.subrange(ranges[k].0 as int, ranges[k].1 as int) == ls[k]
                        },
                    forall|k: int| 0 <= k < i ==> trim(#[trigger] ls[k]).len() == 0,
                decreases ranges.len() - i,
            {
                let (lo, hi) = ranges[i];
                assert(v@.subrange(lo as int, hi as int) == ls[i as int]);
                let (a, b) = trim_range(&v, lo, hi);
                assert(v@.subrange(a as int, b as int) == trim(ls[i as int]));
                if a < b {
                    assert(trim(ls[i as int]).len() > 0);
                    proof {
                        lemma_first_nonblank_line(ls, i as int);
                    }
                    let thread = string_of(&v, a, b);
                    return PluginTerminalCommandOutcome::ResumeThread(thread);
                }
                assert(trim(ls[i as int]).len() == 0);
                i += 1;
            }
            proof {
                lemma_first_nonblank_line(ls, ls.len() as int);
            }
            PluginTerminalCommandOutcome::NoOutput
        },
    }
}

} // verus!

verus! {

/// A resumed thread is named by one whole line: non-empty, trimmed, without a
/// line feed.
pub proof fn lemma_resume_thread_is_one_trimmed_line(stdout: Seq<char>)
    ensures
        terminal_outcome(PluginTerminalCommandResult::ResumeThread, stdout) matches OutcomeModel::ResumeThread(t)
            ==> t.len() > 0 && trim(t) == t && !t.contains('\n'),
{
    let ls = lines(stdout);
    lemma_lines_have_no_newline(stdout);
    lemma_first_nonblank_line_member(ls);
    if let Some(t) = first_nonblank_line(ls) {
        let k = choose|k: int| 0 <= k < ls.len() && t == trim(ls[k]);
        lemma_trim_within(ls[k], '\n');
        lemma_trim_idempotent(ls[k]);
    }
}

proof fn lemma_first_nonblank_line_member(ls: Seq<Seq<char>>)
    ensures
        first_nonblank_line(ls) matches Some(t) ==> t.len() > 0 && exists|k: int|
            0 <= k < ls.len() && t == trim(#[trigger] ls[k]),
    decreases ls.len(),
{
    if ls.len() > 0 && trim(ls[0]).len() == 0 {
        lemma_first_nonblank_line_member(ls.drop_first());
        if let Some(t) = first_nonblank_line(ls.drop_first()) {
            let k = choose|k: int|
                0 <= k < ls.drop_first().len() && t == trim(#[trigger] ls.drop_first()[k]);
            assert(ls[k + 1] == ls.drop_first()[k]);
        }
    } else if ls.len() > 0 {
        assert(trim(ls[0]) == trim(ls[0]));
    }
}

/// Text output holds no line feed within a line, and no more than 16384
/// characters over all.
pub proof fn lemma_text_lines_have_no_newline(stdout: Seq<char>)
    ensures
        terminal_outcome(PluginTerminalCommandResult::Plain, stdout) matches OutcomeModel::Text(ls)
            ==> forall|i: int| 0 <= i < ls.len() ==> !(#[trigger] ls[i]).contains('\n'),
{
    let t = trim(stdout);
    lemma_lines_have_no_newline(at_most(t, MAX_PLUGIN_TERMINAL_TEXT_OUTPUT_LEN as nat));
}

/// Plain output gives nothing exactly when it is blank. Otherwise it gives its
/// lines, which joined by line feeds give back its trimmed text cut to 16384
/// characters (but for a final line feed, where the cut falls right after one),
/// wherever no carriage return stands before a line feed; text without a line
/// feed gives that one trimmed line.
pub proof fn lemma_plain_output_lines(stdout: Seq<char>)
    ensures
        (terminal_outcome(PluginTerminalCommandResult::Plain, stdout) is NoOutput) <==> trim(stdout).len()
            == 0,
        trim(stdout).len() > 0 ==> terminal_outcome(PluginTerminalCommandResult::Plain, stdout) is Text,
        terminal_outcome(PluginTerminalCommandResult::Plain, stdout) matches OutcomeModel::Text(ls) ==> {
            let t = at_most(trim(stdout), MAX_PLUGIN_TERMINAL_TEXT_OUTPUT_LEN as nat);
            !has_crlf(t) ==> join(ls, seq!['\n']) + (if t.last() == '\n' {
                seq!['\n']
            } else {
                Seq::<char>::empty()
            }) == t
        },
        trim(stdout).len() > 0 && !at_most(trim(stdout), MAX_PLUGIN_TERMINAL_TEXT_OUTPUT_LEN as nat).contains('\n')
            ==> terminal_outcome(PluginTerminalCommandResult::Plain, stdout) == OutcomeModel::Text(
            seq![at_most(trim(stdout), MAX_PLUGIN_TERMINAL_TEXT_OUTPUT_LEN as nat)],
        ),
        0 < trim(stdout).len() <= MAX_PLUGIN_TERMINAL_TEXT_OUTPUT_LEN && !trim(stdout).contains('\n')
            ==> terminal_outcome(PluginTerminalCommandResult::Plain, stdout) == OutcomeModel::Text(
            seq![trim(stdout)],
        ),
{
    let t = at_most(trim(stdout), MAX_PLUGIN_TERMINAL_TEXT_OUTPUT_LEN as nat);
    if trim(stdout).len() > 0 {
        assert(t.len() > 0);
        if !has_crlf(t) {
            lemma_lines_join(t);
        }
        if !t.contains('\n') {
            assert(!has_crlf(t)) by {
                if has_crlf(t) {
                    let i = choose|i: int| 0 <= i < t.len() - 1 && #[trigger] t[i] == '\r' && t[i + 1] == '\n';
                    assert(t.contains(t[i + 1]));
                }
            }
            lemma_lines_join(t);
        }
        if trim(stdout).len() <= MAX_PLUGIN_TERMINAL_TEXT_OUTPUT_LEN {
            assert(t == trim(stdout));
        }
    }
}

proof fn lemma_first_nonblank_line_none(ls: Seq<Seq<char>>)
    ensures
        first_nonblank_line(ls) is None ==> forall|k: int| 0 <= k < ls.len() ==> trim(#[trigger] ls[k]).len() == 0,
    decreases ls.len(),
{
    if ls.len() > 0 && trim(ls[0]).len() == 0 {
        lemma_first_nonblank_line_none(ls.drop_first());
        if first_nonblank_line(ls) is None {
            assert forall|k: int| 0 <= k < ls.len() implies trim(#[trigger] ls[k]).len() == 0 by {
                if k > 0 {
                    assert(ls[k] == ls.drop_first()[k - 1]);
                }
            }
        }
    }
}

/// A resumed thread is named by the first line of the output that is not
/// blank, trimmed; output of blank lines only resumes nothing.
pub proof fn lemma_resume_thread_is_first_nonblank_line(stdout: Seq<char>)
    ensures
        (terminal_outcome(PluginTerminalCommandResult::ResumeThread, stdout) is NoOutput) <==> forall|k: int|
            0 <= k < lines(stdout).len() ==> trim(#[trigger] lines(stdout)[k]).len() == 0,
        forall|k: int|
            0 <= k < lines(stdout).len() && trim(#[trigger] lines(stdout)[k]).len() > 0 && (forall|j: int|
                0 <= j < k ==> trim(lines(stdout)[j]).len() == 0) ==> terminal_outcome(
                PluginTerminalCommandResult::ResumeThread,
                stdout,
            ) == OutcomeModel::ResumeThread(trim(lines(stdout)[k])),
{
    let ls = lines(stdout);
    lemma_first_nonblank_line_none(ls);
    lemma_first_nonblank_line_member(ls);
    if forall|k: int| 0 <= k < ls.len() ==> trim(#[trigger] ls[k]).len() == 0 {
        lemma_first_nonblank_line(ls, ls.len() as int);
    }
    assert forall|k: int|
        0 <= k < ls.len() && trim(#[trigger] ls[k]).len() > 0 && (forall|j: int|
            0 <= j < k ==> trim(ls[j]).len() == 0) implies terminal_outcome(
        PluginTerminalCommandResult::ResumeThread,
        stdout,
    ) == OutcomeModel::ResumeThread(trim(ls[k])) by {
        lemma_first_nonblank_line(ls, k);
    }
}

} // verus!
