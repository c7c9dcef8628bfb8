//! Turning a plugin's declared TUI contribution into the settings, slash
//! commands and key bindings that the TUI accepts.
//!
//! Every field is validated on its own: an invalid entry is dropped and the
//! rest of the contribution still applies.

use vstd::prelude::*;
use crate::contribution::{
    bindings_view, commands_view, copy_strings, PluginKeyBinding, PluginSlashCommand, TuiContributionSet, opt_string_view, opt_theme_view, strings_view, ActionModel,
    ChangeUiContribution, ContributionSetModel, FooterLayoutPreset, KeyBinding, KeyBindingModel,
    LastChangedFileDiffVisibility, PluginSlashCommandAction, PluginTerminalCommand,
    PluginTerminalCommandResult, PluginThemeContribution, PluginThemeSource, SlashCommandModel,
    StartupElementVisibility, StartupUiContribution, TerminalCommandModel, ThemeModel,
    DEFAULT_GHOSTTY_SYNC_THEME_NAME,
};
use crate::text::{
    chars_of, collapse_whitespace, copy_str, is_ascii_digit, is_ascii_lowercase, is_digit,
    is_lower, join, lower, lowercase_string, push_range, push_str, split, split_ranges, string_of,
    string_push, trim, trim_end, trim_start, trimmed_chars, words, lemma_trim_idempotent, lemma_words_are_words, lemma_words_of_join,
};
use vstd::string::StrSliceExecFns;

verus! {

broadcast use vstd::string::group_string_axioms;

pub const MAX_STATUS_LINE_ITEMS: usize = 32;
pub const MAX_STATUS_LINE_ITEM_LEN: usize = 64;
pub const MAX_PLUGIN_SLASH_COMMANDS: usize = 64;
pub const MAX_PLUGIN_SLASH_COMMAND_NAME_LEN: usize = 40;
pub const MAX_PLUGIN_SLASH_COMMAND_DESCRIPTION_LEN: usize = 160;
pub const MAX_PLUGIN_SLASH_COMMAND_PROMPT_LEN: usize = 4000;
pub const MAX_PLUGIN_KEY_BINDINGS: usize = 64;
pub const MAX_PLUGIN_KEY_BINDING_SPEC_LEN: usize = 80;
pub const MAX_PLUGIN_TERMINAL_COMMAND_LEN: usize = 512;
pub const MAX_PLUGIN_TERMINAL_COMMAND_ARGS: usize = 32;
pub const MAX_PLUGIN_TERMINAL_COMMAND_ARG_LEN: usize = 512;
pub const MAX_THEME_NAME_LEN: usize = 80;

// ---------------------------------------------------------------------
// The declared contribution, as read from the plugin's file
// ---------------------------------------------------------------------

#[derive(Clone, Copy, Debug, Default, PartialEq, Eq, Structural)]
pub struct RawTuiLayout {
    pub footer: Option<FooterLayoutPreset>,
}

#[derive(Clone, Debug, Default, PartialEq, Eq)]
pub struct RawTuiThemeContribution {
    pub source: Option<PluginThemeSource>,
    pub name: Option<String>,
}

#[derive(Clone, Copy, Debug, Default, PartialEq, Eq, Structural)]
pub struct RawChangeUiContribution {
    pub last_changed_file_diff: Option<LastChangedFileDiffVisibility>,
}

#[derive(Clone, Copy, Debug, Default, PartialEq, Eq, Structural)]
pub struct RawStartupUiContribution {
    pub splash_banner: Option<StartupElementVisibility>,
    pub announcement_tip: Option<StartupElementVisibility>,
}

#[derive(Clone, Debug, Default, PartialEq, Eq)]
pub struct RawPluginTerminalCommand {
    pub command: Option<String>,
    pub args: Vec<String>,
    pub result: PluginTerminalCommandResult,
}

#[derive(Clone, Debug, Default, PartialEq, Eq)]
pub struct RawTuiSlashCommand {
    pub name: String,
    pub description: Option<String>,
    pub submit_prompt: Option<String>,
    pub terminal_command: Option<RawPluginTerminalCommand>,
}

#[derive(Clone, Debug, Default, PartialEq, Eq)]
pub struct RawPluginKeyBinding {
    pub key: String,
    pub command: String,
}

#[derive(Clone, Debug, Default, PartialEq, Eq)]
pub struct RawTuiContribution {
    pub status_line: Option<Vec<String>>,
    pub layout: Option<RawTuiLayout>,
    pub theme: Option<RawTuiThemeContribution>,
    pub changes: Option<RawChangeUiContribution>,
    pub startup: Option<RawStartupUiContribution>,
    pub slash_commands: Vec<RawTuiSlashCommand>,
    pub key_bindings: Vec<RawPluginKeyBinding>,
}

// ---------------------------------------------------------------------
// What each field becomes
// ---------------------------------------------------------------------

/// The first `n` elements of `s`, or all of them where there are fewer.
pub open spec fn at_most<A>(s: Seq<A>, n: nat) -> Seq<A> {
    if n < s.len() {
        s.subrange(0, n as int)
    } else {
        s
    }
}

pub open spec fn opt_str_view(o: Option<&str>) -> Option<Seq<char>> {
    match o {
        Some(s) => Some(s@),
        None => None,
    }
}

/// The characters allowed in slash command and theme names.
pub open spec fn is_name_char(c: char) -> bool {
    is_lower(c) || is_digit(c) || c == '-' || c == '_'
}

pub open spec fn all_name_chars(s: Seq<char>) -> bool {
    forall|i: int| 0 <= i < s.len() ==> is_name_char(#[trigger] s[i])
}

/// A theme name: trimmed, 1 to 80 characters, lower-case ASCII letters,
/// digits, `-` and `_` only.
pub open spec fn theme_name(name: Seq<char>) -> Option<Seq<char>> {
    let t = trim(name);
    if t.len() == 0 || t.len() > MAX_THEME_NAME_LEN {
        None
    } else if all_name_chars(t) {
        Some(t)
    } else {
        None
    }
}

/// A theme contribution needs a source; its name falls back to the default one.
pub open spec fn theme_contribution(raw: RawTuiThemeContribution) -> Option<ThemeModel> {
    match raw.source {
        None => None,
        Some(source) => Some(
            ThemeModel {
                source,
                name: match raw.name {
                    Some(n) => match theme_name(n@) {
                        Some(t) => t,
                        None => DEFAULT_GHOSTTY_SYNC_THEME_NAME@,
                    },
                    None => DEFAULT_GHOSTTY_SYNC_THEME_NAME@,
                },
            },
        ),
    }
}

/// A status line item: trimmed, 1 to 64 characters.
pub open spec fn status_item(item: Seq<char>) -> Option<Seq<char>> {
    let t = trim(item);
    if t.len() > 0 && t.len() <= MAX_STATUS_LINE_ITEM_LEN {
        Some(t)
    } else {
        None
    }
}

/// The valid items, trimmed, in order.
pub open spec fn status_items(items: Seq<Seq<char>>) -> Seq<Seq<char>>
    decreases items.len(),
{
    if items.len() == 0 {
        seq![]
    } else {
        let p = status_items(items.drop_last());
        match status_item(items.last()) {
            Some(t) => p.push(t),
            None => p,
        }
    }
}

/// The first 32 valid items.
pub open spec fn status_line(items: Seq<Seq<char>>) -> Seq<Seq<char>> {
    at_most(status_items(items), MAX_STATUS_LINE_ITEMS as nat)
}

pub open spec fn strip_slash(t: Seq<char>) -> Seq<char> {
    if t.len() > 0 && t[0] == '/' {
        t.drop_first()
    } else {
        t
    }
}

/// A slash command name: trimmed, without one leading `/`, 1 to 40
/// characters, lower-cased, and then only of the name characters.
pub open spec fn slash_command_name(name: Seq<char>) -> Option<Seq<char>> {
    let t = strip_slash(trim(name));
    if t.len() == 0 || t.len() > MAX_PLUGIN_SLASH_COMMAND_NAME_LEN {
        None
    } else if all_name_chars(lower(t)) {
        Some(lower(t))
    } else {
        None
    }
}

/// A description: its words joined by single spaces, 1 to 160 characters.
pub open spec fn description(d: Seq<char>) -> Option<Seq<char>> {
    let c = join(words(d), seq![' ']);
    if c.len() > 0 && c.len() <= MAX_PLUGIN_SLASH_COMMAND_DESCRIPTION_LEN {
        Some(c)
    } else {
        None
    }
}

/// A prompt: trimmed, 1 to 4000 characters, and not a `!` shell escape.
pub open spec fn submit_prompt(prompt: Option<Seq<char>>) -> Option<Seq<char>> {
    match prompt {
        None => None,
        Some(p) => {
            let t = trim(p);
            if t.len() == 0 || t[0] == '!' || t.len() > MAX_PLUGIN_SLASH_COMMAND_PROMPT_LEN {
                None
            } else {
                Some(t)
            }
        },
    }
}

pub open spec fn is_relative(p: Seq<char>) -> bool {
    !(p.len() > 0 && p[0] == '/')
}

pub open spec fn is_normal_segment(seg: Seq<char>) -> bool {
    seg.len() > 0 && seg != seq!['.']
}

pub open spec fn count_normal(segs: Seq<Seq<char>>) -> nat
    decreases segs.len(),
{
    if segs.len() == 0 {
        0
    } else {
        count_normal(segs.drop_last()) + if is_normal_segment(segs.last()) {
            1nat
        } else {
            0nat
        }
    }
}

/// `Path::components().count()` for a relative path: a leading `.` counts,
/// as does every non-empty segment between `/` that is not `.`.
pub open spec fn relative_component_count(p: Seq<char>) -> nat {
    let segs = split(p, '/');
    (if segs[0] == seq!['.'] {
        1nat
    } else {
        0nat
    }) + count_normal(segs)
}

/// `Path::join` of a relative path.
pub open spec fn join_path(root: Seq<char>, rel: Seq<char>) -> Seq<char> {
    if root.len() == 0 {
        rel
    } else if root.last() == '/' {
        root + rel
    } else {
        root + seq!['/'] + rel
    }
}

/// A relative command with more than one component lives in the plugin's root;
/// any other command is found as written.
pub open spec fn command_path(root: Seq<char>, cmd: Seq<char>) -> Seq<char> {
    if is_relative(cmd) && relative_component_count(cmd) > 1 {
        join_path(root, cmd)
    } else {
        cmd
    }
}

pub open spec fn arg_ok(a: Seq<char>) -> bool {
    !a.contains('\0') && a.len() <= MAX_PLUGIN_TERMINAL_COMMAND_ARG_LEN
}

pub open spec fn filter_args(args: Seq<Seq<char>>) -> Seq<Seq<char>>
    decreases args.len(),
{
    if args.len() == 0 {
        seq![]
    } else {
        let p = filter_args(args.drop_last());
        if arg_ok(args.last()) {
            p.push(args.last())
        } else {
            p
        }
    }
}

/// Of the first 32 arguments, those without NUL and of at most 512 characters.
pub open spec fn terminal_args(args: Seq<Seq<char>>) -> Seq<Seq<char>> {
    filter_args(at_most(args, MAX_PLUGIN_TERMINAL_COMMAND_ARGS as nat))
}

/// A terminal command: its command trimmed, 1 to 512 characters, without NUL.
pub open spec fn terminal_command(
    plugin_id: Seq<char>,
    root: Seq<char>,
    raw: RawPluginTerminalCommand,
) -> Option<TerminalCommandModel> {
    match raw.command {
        None => None,
        Some(c) => {
            let t = trim(c@);
            if t.len() == 0 || t.len() > MAX_PLUGIN_TERMINAL_COMMAND_LEN || t.contains('\0') {
                None
            } else {
                Some(
                    TerminalCommandModel {
                        plugin_id,
                        command: command_path(root, t),
                        args: terminal_args(strings_view(raw.args@)),
                        result: raw.result,
                    },
                )
            }
        },
    }
}

/// A prompt, where one is given, decides the action alone; otherwise the
/// terminal command does.
pub open spec fn slash_command_action(
    plugin_id: Seq<char>,
    root: Seq<char>,
    prompt: Option<Seq<char>>,
    terminal: Option<RawPluginTerminalCommand>,
) -> Option<ActionModel> {
    match prompt {
        Some(p) => match submit_prompt(Some(p)) {
            Some(t) => Some(ActionModel::SubmitPrompt(t)),
            None => None,
        },
        None => match terminal {
            Some(raw) => match terminal_command(plugin_id, root, raw) {
                Some(c) => Some(ActionModel::TerminalCommand(c)),
                None => None,
            },
            None => None,
        },
    }
}

pub open spec fn default_description(display_name: Seq<char>) -> Seq<char> {
    "Run a "@ + display_name + " plugin prompt"@
}

pub open spec fn command_description(d: Option<String>, display_name: Seq<char>) -> Seq<char> {
    match d {
        Some(d) => match description(d@) {
            Some(x) => x,
            None => default_description(display_name),
        },
        None => default_description(display_name),
    }
}

/// One declared slash command, given the commands accepted so far and the
/// names seen so far. A valid name that is not built in and not seen is seen
/// from then on, whether or not its action is valid.
pub open spec fn slash_command_step(
    plugin_id: Seq<char>,
    display_name: Seq<char>,
    root: Seq<char>,
    builtins: Seq<Seq<char>>,
    state: (Seq<SlashCommandModel>, Seq<Seq<char>>),
    raw: RawTuiSlashCommand,
) -> (Seq<SlashCommandModel>, Seq<Seq<char>>) {
    let (out, seen) = state;
    match slash_command_name(raw.name@) {
        None => state,
        Some(name) => if builtins.contains(name) || seen.contains(name) {
            state
        } else {
            let seen2 = seen.push(name);
            match slash_command_action(
                plugin_id,
                root,
                opt_string_view(raw.submit_prompt),
                raw.terminal_command,
            ) {
                None => (out, seen2),
                Some(action) => (
                    out.push(
                        SlashCommandModel {
                            plugin_id,
                            name,
                            description: command_description(raw.description, display_name),
                            action,
                        },
                    ),
                    seen2,
                ),
            }
        },
    }
}

/// The first `n` declared slash commands, processed in order.
pub open spec fn slash_commands_upto(
    plugin_id: Seq<char>,
    display_name: Seq<char>,
    root: Seq<char>,
    builtins: Seq<Seq<char>>,
    raws: Seq<RawTuiSlashCommand>,
    n: nat,
) -> (Seq<SlashCommandModel>, Seq<Seq<char>>)
    decreases n,
{
    if n == 0 {
        (seq![], seq![])
    } else {
        slash_command_step(
            plugin_id,
            display_name,
            root,
            builtins,
            slash_commands_upto(plugin_id, display_name, root, builtins, raws, (n - 1) as nat),
            raws[n - 1],
        )
    }
}

/// The slash commands of a contribution: of the first 64 declared, those that
/// survive validation, in order.
pub open spec fn slash_commands(
    plugin_id: Seq<char>,
    display_name: Seq<char>,
    root: Seq<char>,
    builtins: Seq<Seq<char>>,
    raws: Seq<RawTuiSlashCommand>,
) -> Seq<SlashCommandModel> {
    let r = at_most(raws, MAX_PLUGIN_SLASH_COMMANDS as nat);
    slash_commands_upto(plugin_id, display_name, root, builtins, r, r.len()).0
}

/// The key spec handed to the key-binding parser: trimmed, 1 to 80
/// characters, lower-cased.
pub open spec fn key_spec(key: Seq<char>) -> Option<Seq<char>> {
    let t = trim(key);
    if t.len() == 0 || t.len() > MAX_PLUGIN_KEY_BINDING_SPEC_LEN {
        None
    } else {
        Some(lower(t))
    }
}

/// The first command named `name`.
pub open spec fn find_command(cmds: Seq<SlashCommandModel>, name: Seq<char>) -> Option<
    SlashCommandModel,
>
    decreases cmds.len(),
{
    if cmds.len() == 0 {
        None
    } else if cmds[0].name == name {
        Some(cmds[0])
    } else {
        find_command(cmds.drop_first(), name)
    }
}

/// One declared key binding, given what its key parsed to. A parsed key that
/// is not seen yet is seen from then on, whether or not its command is found.
pub open spec fn key_binding_step(
    plugin_id: Seq<char>,
    cmds: Seq<SlashCommandModel>,
    state: (Seq<KeyBindingModel>, Seq<KeyBinding>),
    raw: RawPluginKeyBinding,
    parsed: Option<KeyBinding>,
) -> (Seq<KeyBindingModel>, Seq<KeyBinding>) {
    let (out, seen) = state;
    if key_spec(raw.key@) is None {
        state
    } else {
        match parsed {
            None => state,
            Some(key) => if seen.contains(key) {
                state
            } else {
                let seen2 = seen.push(key);
                match slash_command_name(raw.command@) {
                    None => (out, seen2),
                    Some(name) => match find_command(cmds, name) {
                        None => (out, seen2),
                        Some(c) => (
                            out.push(KeyBindingModel { plugin_id, key, command: c }),
                            seen2,
                        ),
                    },
                }
            },
        }
    }
}

pub open spec fn key_bindings_upto(
    plugin_id: Seq<char>,
    cmds: Seq<SlashCommandModel>,
    raws: Seq<RawPluginKeyBinding>,
    parsed: Seq<Option<KeyBinding>>,
    n: nat,
) -> (Seq<KeyBindingModel>, Seq<KeyBinding>)
    decreases n,
{
    if n == 0 {
        (seq![], seq![])
    } else {
        key_binding_step(
            plugin_id,
            cmds,
            key_bindings_upto(plugin_id, cmds, raws, parsed, (n - 1) as nat),
            raws[n - 1],
            parsed[n - 1],
        )
    }
}

/// The key bindings of a contribution: of the first 64 declared, those that
/// survive validation, in order. `parsed[i]` is what the key of `raws[i]` parsed to.
pub open spec fn key_bindings(
    plugin_id: Seq<char>,
    cmds: Seq<SlashCommandModel>,
    raws: Seq<RawPluginKeyBinding>,
    parsed: Seq<Option<KeyBinding>>,
) -> Seq<KeyBindingModel> {
    let r = at_most(raws, MAX_PLUGIN_KEY_BINDINGS as nat);
    key_bindings_upto(plugin_id, cmds, r, parsed, r.len()).0
}

/// A whole contribution.
pub open spec fn tui_contribution(
    plugin_id: Seq<char>,
    display_name: Seq<char>,
    root: Seq<char>,
    builtins: Seq<Seq<char>>,
    raw: RawTuiContribution,
    parsed: Seq<Option<KeyBinding>>,
) -> ContributionSetModel {
    let cmds = slash_commands(plugin_id, display_name, root, builtins, raw.slash_commands@);
    ContributionSetModel {
        status_line: match raw.status_line {
            Some(v) => Some(status_line(strings_view(v@))),
            None => None,
        },
        footer_layout: match raw.layout {
            Some(l) => l.footer,
            None => None,
        },
        theme: match raw.theme {
            Some(t) => theme_contribution(t),
            None => None,
        },
        changes: ChangeUiContribution {
            last_changed_file_diff: match raw.changes {
                Some(c) => c.last_changed_file_diff,
                None => None,
            },
        },
        startup: match raw.startup {
            Some(s) => StartupUiContribution {
                splash_banner: s.splash_banner,
                announcement_tip: s.announcement_tip,
            },
            None => StartupUiContribution { splash_banner: None, announcement_tip: None },
        },
        slash_commands: cmds,
        key_bindings: key_bindings(plugin_id, cmds, raw.key_bindings@, parsed),
    }
}

} // verus!

verus! {

pub open spec fn opt_terminal_view(o: Option<PluginTerminalCommand>) -> Option<TerminalCommandModel> {
    match o {
        Some(c) => Some(c@),
        None => None,
    }
}

pub open spec fn opt_action_view(o: Option<PluginSlashCommandAction>) -> Option<ActionModel> {
    match o {
        Some(a) => Some(a@),
        None => None,
    }
}

fn all_name_chars_vec(v: &Vec<char>) -> (r: bool)
    ensures
        r == all_name_chars(v@),
{
    let mut i: usize = 0;
    while i < v.len()
        invariant
            i <= v.len(),
            forall|k: int| 0 <= k < i ==> is_name_char(#[trigger] v@[k]),
        decreases v.len() - i,
    {
        let c = v[i];
        if !(is_ascii_lowercase(c) || is_ascii_digit(c) || c == '-' || c == '_') {
            return false;
        }
        i += 1;
    }
    true
}

fn contains_nul(v: &Vec<char>) -> (r: bool)
    ensures
        r == v@.contains('\0'),
{
    let mut i: usize = 0;
    while i < v.len()
        invariant
            i <= v.len(),
            forall|k: int| 0 <= k < i ==> v@[k] != '\0',
        decreases v.len() - i,
    {
        if v[i] == '\0' {
            assert(v@[i as int] == '\0');
            return true;
        }
        i += 1;
    }
    false
}

/// Whether `s` is one of the strings in `v`.
pub fn contains_string(v: &Vec<String>, s: &String) -> (r: bool)
    ensures
        r == strings_view(v@).contains(s@),
{
    let mut i: usize = 0;
    while i < v.len()
        invariant
            i <= v.len(),
            forall|k: int| 0 <= k < i ==> strings_view(v@)[k] != s@,
        decreases v.len() - i,
    {
        if v[i] == *s {
            assert(strings_view(v@)[i as int] == s@);
            return true;
        }
        i += 1;
    }
    false
}

pub fn normalize_theme_name(name: &str) -> (r: Option<String>)
    ensures
        opt_string_view(r) == theme_name(name@),
{
    let v = trimmed_chars(name);
    if v.len() == 0 || v.len() > MAX_THEME_NAME_LEN {
        return None;
    }
    if all_name_chars_vec(&v) {
        let s = string_of(&v, 0, v.len());
        assert(v@.subrange(0, v@.len() as int) =~= v@);
        Some(s)
    } else {
        None
    }
}

pub fn normalize_theme_contribution(raw: RawTuiThemeContribution) -> (r: Option<
    PluginThemeContribution,
>)
    ensures
        opt_theme_view(r) == theme_contribution(raw),
{
    let source = match raw.source {
        Some(s) => s,
        None => return None,
    };
    let normalized = match &raw.name {
        Some(n) => normalize_theme_name(n.as_str()),
        None => None,
    };
    let name = match normalized {
        Some(n) => n,
        None => copy_str(DEFAULT_GHOSTTY_SYNC_THEME_NAME),
    };
    Some(PluginThemeContribution { source, name })
}

pub fn normalize_change_ui(raw: RawChangeUiContribution) -> (r: ChangeUiContribution)
    ensures
        r.last_changed_file_diff == raw.last_changed_file_diff,
{
    ChangeUiContribution { last_changed_file_diff: raw.last_changed_file_diff }
}

pub fn normalize_startup_ui(raw: RawStartupUiContribution) -> (r: StartupUiContribution)
    ensures
        r.splash_banner == raw.splash_banner,
        r.announcement_tip == raw.announcement_tip,
{
    StartupUiContribution {
        splash_banner: raw.splash_banner,
        announcement_tip: raw.announcement_tip,
    }
}

pub fn normalize_status_line(items: Vec<String>) -> (r: Vec<String>)
    ensures
        strings_view(r@) == status_line(strings_view(items@)),
        r.len() <= MAX_STATUS_LINE_ITEMS,
{
    let ghost sv = strings_view(items@);
    let mut out: Vec<String> = Vec::new();
    let mut i: usize = 0;
    while i < items.len()
        invariant
            i <= items.len(),
            sv == strings_view(items@),
            strings_view(out@) == status_line(sv.take(i as int)),
        decreases items.len() - i,
    {
        let v = trimmed_chars(items[i].as_str());
        let ghost p = status_items(sv.take(i as int));
        assert(sv.take(i + 1).drop_last() =~= sv.take(i as int));
        assert(sv.take(i + 1).last() == items@[i as int]@);
        if v.len() > 0 && v.len() <= MAX_STATUS_LINE_ITEM_LEN {
            assert(status_items(sv.take(i + 1)) == p.push(v@));
            if out.len() < MAX_STATUS_LINE_ITEMS {
                let ghost old_out = out@;
                let s = string_of(&v, 0, v.len());
                assert(v@.subrange(0, v@.len() as int) =~= v@);
                out.push(s);
                assert(strings_view(out@) =~= strings_view(old_out).push(v@));
                assert(strings_view(out@) =~= at_most(p.push(v@), MAX_STATUS_LINE_ITEMS as nat));
            } else {
                assert(at_most(p.push(v@), MAX_STATUS_LINE_ITEMS as nat) =~= at_most(
                    p,
                    MAX_STATUS_LINE_ITEMS as nat,
                ));
            }
        } else {
            assert(status_items(sv.take(i + 1)) == p);
        }
        i += 1;
    }
    assert(sv.take(items.len() as int) =~= sv);
    out
}

pub fn normalize_plugin_slash_command_name(name: &str) -> (r: Option<String>)
    ensures
        opt_string_view(r) == slash_command_name(name@),
{
    let v = trimmed_chars(name);
    let lo: usize = if v.len() > 0 && v[0] == '/' {
        1
    } else {
        0
    };
    assert(v@.subrange(lo as int, v@.len() as int) =~= strip_slash(v@));
    let n = v.len() - lo;
    if n == 0 || n > MAX_PLUGIN_SLASH_COMMAND_NAME_LEN {
        return None;
    }
    let l = lowercase_string(&v, lo, v.len());
    let lv = chars_of(l.as_str());
    if all_name_chars_vec(&lv) {
        Some(l)
    } else {
        None
    }
}

pub fn normalize_plugin_slash_command_description(description: &str) -> (r: Option<String>)
    ensures
        opt_string_view(r) == crate::normalize::description(description@),
{
    let c = collapse_whitespace(description);
    let n = c.as_str().unicode_len();
    if n > 0 && n <= MAX_PLUGIN_SLASH_COMMAND_DESCRIPTION_LEN {
        Some(c)
    } else {
        None
    }
}

pub fn normalize_submit_prompt(prompt: Option<&str>) -> (r: Option<String>)
    ensures
        opt_string_view(r) == submit_prompt(opt_str_view(prompt)),
{
    let p = match prompt {
        Some(p) => p,
        None => return None,
    };
    let v = trimmed_chars(p);
    if v.len() == 0 || v[0] == '!' || v.len() > MAX_PLUGIN_SLASH_COMMAND_PROMPT_LEN {
        return None;
    }
    assert(v@.subrange(0, v@.len() as int) =~= v@);
    Some(string_of(&v, 0, v.len()))
}

/// `relative_component_count` of `v`.
fn relative_component_count_of(v: &Vec<char>) -> (r: usize)
    ensures
        r == relative_component_count(v@),
{
    let segs = split_ranges(v, '/');
    let ghost pieces = split(v@, '/');
    let mut count: usize = 0;
    let mut i: usize = 0;
    while i < segs.len()
        invariant
            i <= segs.len(),
            segs.len() == pieces.len(),
            pieces == split(v@, '/'),
            forall|k: int|
                #![trigger segs[k]]
                0 <= k < segs.len() ==> {
                    &&& segs[k].0 <= segs[k].1 <= v.len()
                    &&& v@.subrange(segs[k].0 as int, segs[k].1 as int) == pieces[k]
                },
            count == count_normal(pieces.take(i as int)),
            count + (if i > 0 && pieces[0] == seq!['.'] {
                1int
            } else {
                0int
            }) <= i,
        decreases segs.len() - i,
    {
        let (lo, hi) = segs[i];
        let ghost seg = pieces[i as int];
        assert(seg == v@.subrange(lo as int, hi as int));
        assert(pieces.take(i + 1).drop_last() =~= pieces.take(i as int));
        assert(pieces.take(i + 1).last() == seg);
        let dot = hi - lo == 1 && v[lo] == '.';
        if dot {
            assert(seg =~= seq!['.']);
        } else if hi - lo == 1 {
            assert(seg[0] != '.');
        }
        if hi > lo && !dot {
            count += 1;
        }
        i += 1;
    }
    assert(pieces.take(segs.len() as int) =~= pieces);
    assert(count == count_normal(pieces));
    let (lo0, hi0) = segs[0];
    assert(pieces[0] == v@.subrange(lo0 as int, hi0 as int));
    let first_dot = hi0 - lo0 == 1 && v[lo0] == '.';
    if first_dot {
        assert(pieces[0] =~= seq!['.']);
    } else if hi0 - lo0 == 1 {
        assert(pieces[0][0] != '.');
        assert(pieces[0] != seq!['.']);
    } else {
        assert(pieces[0].len() != 1);
        assert(pieces[0] != seq!['.']);
    }
    if first_dot {
        count + 1
    } else {
        count
    }
}

fn filtered_args(args: Vec<String>) -> (r: Vec<String>)
    ensures
        strings_view(r@) == terminal_args(strings_view(args@)),
{
    let mut args = args;
    let ghost full = strings_view(args@);
    args.truncate(MAX_PLUGIN_TERMINAL_COMMAND_ARGS);
    let ghost sv = strings_view(args@);
    assert(sv =~= at_most(full, MAX_PLUGIN_TERMINAL_COMMAND_ARGS as nat));
    let mut out: Vec<String> = Vec::new();
    let mut i: usize = 0;
    while i < args.len()
        invariant
            i <= args.len(),
            sv == strings_view(args@),
            strings_view(out@) == filter_args(sv.take(i as int)),
        decreases args.len() - i,
    {
        let av = chars_of(args[i].as_str());
        assert(sv.take(i + 1).drop_last() =~= sv.take(i as int));
        assert(sv.take(i + 1).last() == av@);
        if !contains_nul(&av) && av.len() <= MAX_PLUGIN_TERMINAL_COMMAND_ARG_LEN {
            let ghost old_out = out@;
            let a = args[i].clone();
            out.push(a);
            assert(strings_view(out@) =~= strings_view(old_out).push(av@));
        }
        i += 1;
    }
    assert(sv.take(args.len() as int) =~= sv);
    out
}

pub fn normalize_terminal_command(
    plugin_id: &str,
    plugin_root: &str,
    raw: RawPluginTerminalCommand,
) -> (r: Option<PluginTerminalCommand>)
    ensures
        opt_terminal_view(r) == terminal_command(plugin_id@, plugin_root@, raw),
{
    let RawPluginTerminalCommand { command, args, result } = raw;
    let command = match command {
        Some(c) => c,
        None => return None,
    };
    let v = trimmed_chars(command.as_str());
    if v.len() == 0 || v.len() > MAX_PLUGIN_TERMINAL_COMMAND_LEN || contains_nul(&v) {
        return None;
    }
    assert(v@.subrange(0, v@.len() as int) =~= v@);
    let relative = !(v.len() > 0 && v[0] == '/');
    assert(relative == is_relative(v@));
    let path = if relative && relative_component_count_of(&v) > 1 {
        let root = chars_of(plugin_root);
        if root.len() == 0 {
            string_of(&v, 0, v.len())
        } else {
            let mut s = string_of(&root, 0, root.len());
            assert(root@.subrange(0, root@.len() as int) =~= root@);
            if root[root.len() - 1] != '/' {
                string_push(&mut s, '/');
            }
            push_range(&mut s, &v, 0, v.len());
            assert(s@ =~= join_path(plugin_root@, v@));
            s
        }
    } else {
        string_of(&v, 0, v.len())
    };
    let args = filtered_args(args);
    Some(
        PluginTerminalCommand {
            plugin_id: copy_str(plugin_id),
            command: path,
            args,
            result,
        },
    )
}

pub fn normalize_plugin_slash_command_action(
    plugin_id: &str,
    plugin_root: &str,
    submit_prompt: Option<&str>,
    terminal_command: Option<RawPluginTerminalCommand>,
) -> (r: Option<PluginSlashCommandAction>)
    ensures
        opt_action_view(r) == slash_command_action(
            plugin_id@,
            plugin_root@,
            opt_str_view(submit_prompt),
            terminal_command,
        ),
{
    if let Some(p) = submit_prompt {
        return match normalize_submit_prompt(Some(p)) {
            Some(t) => Some(PluginSlashCommandAction::SubmitPrompt(t)),
            None => None,
        };
    }
    match terminal_command {
        Some(raw) => match normalize_terminal_command(plugin_id, plugin_root, raw) {
            Some(c) => Some(PluginSlashCommandAction::TerminalCommand(c)),
            None => None,
        },
        None => None,
    }
}

} // verus!

verus! {

/// A copy of a declared terminal command, with the same contents.
fn duplicate_terminal(t: &Option<RawPluginTerminalCommand>) -> (r: Option<RawPluginTerminalCommand>)
    ensures
        r is Some <==> t is Some,
        r matches Some(a) ==> ({
            let b = t->0;
            &&& opt_string_view(a.command) == opt_string_view(b.command)
            &&& strings_view(a.args@) == strings_view(b.args@)
            &&& a.result == b.result
        }),
{
    match t {
        Some(raw) => {
            let command = match &raw.command {
                Some(c) => Some(c.clone()),
                None => None,
            };
            Some(RawPluginTerminalCommand { command, args: copy_strings(&raw.args), result: raw.result })
        },
        None => None,
    }
}

/// The description of a command, or the plugin's default one.
fn command_description_of(d: &Option<String>, plugin_display_name: &str) -> (r: String)
    ensures
        r@ == command_description(*d, plugin_display_name@),
{
    let normalized = match d {
        Some(d) => normalize_plugin_slash_command_description(d.as_str()),
        None => None,
    };
    match normalized {
        Some(x) => x,
        None => {
            let mut s = copy_str("Run a ");
            push_str(&mut s, plugin_display_name);
            push_str(&mut s, " plugin prompt");
            s
        },
    }
}

pub fn normalize_plugin_slash_commands(
    plugin_id: &str,
    plugin_display_name: &str,
    plugin_root: &str,
    commands: Vec<RawTuiSlashCommand>,
    builtin_commands: &Vec<String>,
) -> (r: Vec<PluginSlashCommand>)
    ensures
        commands_view(r@) == slash_commands(
            plugin_id@,
            plugin_display_name@,
            plugin_root@,
            strings_view(builtin_commands@),
            commands@,
        ),
{
    let ghost builtins = strings_view(builtin_commands@);
    let mut commands = commands;
    let ghost all = commands@;
    commands.truncate(MAX_PLUGIN_SLASH_COMMANDS);
    let ghost raws = commands@;
    assert(raws =~= at_most(all, MAX_PLUGIN_SLASH_COMMANDS as nat));
    let mut normalized: Vec<PluginSlashCommand> = Vec::new();
    let mut seen_names: Vec<String> = Vec::new();
    let mut i: usize = 0;
    while i < commands.len()
        invariant
            i <= commands.len(),
            raws == commands@,
            builtins == strings_view(builtin_commands@),
            (commands_view(normalized@), strings_view(seen_names@)) == slash_commands_upto(
                plugin_id@,
                plugin_display_name@,
                plugin_root@,
                builtins,
                raws,
                i as nat,
            ),
        decreases commands.len() - i,
    {
        let raw = &commands[i];
        let ghost out0 = commands_view(normalized@);
        let ghost seen0 = strings_view(seen_names@);
        let name = match normalize_plugin_slash_command_name(raw.name.as_str()) {
            Some(n) => n,
            None => {
                i += 1;
                continue;
            },
        };
        if contains_string(builtin_commands, &name) || contains_string(&seen_names, &name) {
            i += 1;
            continue;
        }
        seen_names.push(name.clone());
        assert(strings_view(seen_names@) =~= seen0.push(name@));
        let submit = match &raw.submit_prompt {
            Some(p) => Some(p.as_str()),
            None => None,
        };
        assert(opt_str_view(submit) == opt_string_view(raw.submit_prompt));
        let terminal = duplicate_terminal(&raw.terminal_command);
        assert(slash_command_action(plugin_id@, plugin_root@, opt_str_view(submit), terminal)
            == slash_command_action(
            plugin_id@,
            plugin_root@,
            opt_str_view(submit),
            raw.terminal_command,
        ));
        let action = match normalize_plugin_slash_command_action(
            plugin_id,
            plugin_root,
            submit,
            terminal,
        ) {
            Some(a) => a,
            None => {
                i += 1;
                continue;
            },
        };
        let description = command_description_of(&raw.description, plugin_display_name);
        let command = PluginSlashCommand {
            plugin_id: copy_str(plugin_id),
            name,
            description,
            action,
        };
        normalized.push(command);
        assert(commands_view(normalized@) =~= out0.push(command@));
        i += 1;
    }
    normalized
}

/// The key spec that the key-binding parser is given for a declared key, if
/// the key is acceptable at all.
pub fn normalize_key_binding_spec(key: &str) -> (r: Option<String>)
    ensures
        opt_string_view(r) == key_spec(key@),
{
    let v = trimmed_chars(key);
    if v.len() == 0 || v.len() > MAX_PLUGIN_KEY_BINDING_SPEC_LEN {
        return None;
    }
    let l = lowercase_string(&v, 0, v.len());
    assert(v@.subrange(0, v@.len() as int) =~= v@);
    Some(l)
}

/// Whether `k` is one of `keys`.
pub fn contains_key(keys: &Vec<KeyBinding>, k: KeyBinding) -> (r: bool)
    ensures
        r == keys@.contains(k),
{
    let mut i: usize = 0;
    while i < keys.len()
        invariant
            i <= keys.len(),
            forall|j: int| 0 <= j < i ==> keys@[j] != k,
        decreases keys.len() - i,
    {
        if keys[i] == k {
            assert(keys@[i as int] == k);
            return true;
        }
        i += 1;
    }
    false
}

pub proof fn lemma_find_command(cmds: Seq<SlashCommandModel>, name: Seq<char>, i: int)
    requires
        0 <= i <= cmds.len(),
        forall|k: int| 0 <= k < i ==> cmds[k].name != name,
    ensures
        i < cmds.len() && cmds[i].name == name ==> find_command(cmds, name) == Some(cmds[i]),
        i == cmds.len() ==> find_command(cmds, name) is None,
    decreases i,
{
    if i > 0 {
        lemma_find_command(cmds.drop_first(), name, i - 1);
    }
}

/// The position of the first command named `name`.
fn find_command_index(cmds: &[PluginSlashCommand], name: &String) -> (r: Option<usize>)
    ensures
        match find_command(commands_view(cmds@), name@) {
            Some(c) => r matches Some(i) && i < cmds@.len() && cmds@[i as int]@ == c,
            None => r is None,
        },
{
    let ghost cv = commands_view(cmds@);
    let mut i: usize = 0;
    while i < cmds.len()
        invariant
            i <= cmds.len(),
            cv == commands_view(cmds@),
            forall|k: int| 0 <= k < i ==> cv[k].name != name@,
        decreases cmds.len() - i,
    {
        if cmds[i].name == *name {
            proof {
                lemma_find_command(cv, name@, i as int);
            }
            return Some(i);
        }
        i += 1;
    }
    proof {
        lemma_find_command(cv, name@, cv.len() as int);
    }
    None
}

pub fn normalize_plugin_key_bindings(
    plugin_id: &str,
    bindings: Vec<RawPluginKeyBinding>,
    parsed_keys: &Vec<Option<KeyBinding>>,
    slash_commands: &[PluginSlashCommand],
) -> (r: Vec<PluginKeyBinding>)
    requires
        parsed_keys.len() == bindings.len(),
    ensures
        bindings_view(r@) == key_bindings(
            plugin_id@,
            commands_view(slash_commands@),
            bindings@,
            parsed_keys@,
        ),
{
    let ghost cmds = commands_view(slash_commands@);
    let mut bindings = bindings;
    let ghost all = bindings@;
    bindings.truncate(MAX_PLUGIN_KEY_BINDINGS);
    let ghost raws = bindings@;
    assert(raws =~= at_most(all, MAX_PLUGIN_KEY_BINDINGS as nat));
    let mut normalized: Vec<PluginKeyBinding> = Vec::new();
    let mut seen_keys: Vec<KeyBinding> = Vec::new();
    let mut i: usize = 0;
    while i < bindings.len()
        invariant
            i <= bindings.len() <= parsed_keys.len(),
            raws == bindings@,
            cmds == commands_view(slash_commands@),
            (bindings_view(normalized@), seen_keys@) == key_bindings_upto(
                plugin_id@,
                cmds,
                raws,
                parsed_keys@,
                i as nat,
            ),
        decreases bindings.len() - i,
    {
        let raw = &bindings[i];
        let ghost out0 = bindings_view(normalized@);
        let ghost seen0 = seen_keys@;
        if normalize_key_binding_spec(raw.key.as_str()).is_none() {
            i += 1;
            continue;
        }
        let key = match parsed_keys[i] {
            Some(k) => k,
            None => {
                i += 1;
                continue;
            },
        };
        if contains_key(&seen_keys, key) {
            i += 1;
            continue;
        }
        seen_keys.push(key);
        let command_name = match normalize_plugin_slash_command_name(raw.command.as_str()) {
            Some(n) => n,
            None => {
                i += 1;
                continue;
            },
        };
        let index = match find_command_index(slash_commands, &command_name) {
            Some(index) => index,
            None => {
                i += 1;
                continue;
            },
        };
        let binding = PluginKeyBinding {
            plugin_id: copy_str(plugin_id),
            key,
            command: slash_commands[index].duplicate(),
        };
        normalized.push(binding);
        assert(bindings_view(normalized@) =~= out0.push(binding@));
        i += 1;
    }
    normalized
}

/// A whole contribution, given the names of the built-in slash commands and,
/// for each declared key binding in order, what its key spec parsed to.
pub fn normalize_tui_contribution(
    plugin_id: &str,
    plugin_display_name: &str,
    plugin_root: &str,
    raw: RawTuiContribution,
    builtin_commands: &Vec<String>,
    parsed_keys: &Vec<Option<KeyBinding>>,
) -> (r: TuiContributionSet)
    requires
        parsed_keys.len() == raw.key_bindings.len(),
    ensures
        r@ == tui_contribution(
            plugin_id@,
            plugin_display_name@,
            plugin_root@,
            strings_view(builtin_commands@),
            raw,
            parsed_keys@,
        ),
        r.startup.splash_banner == (if raw.startup is Some {
            raw.startup->0.splash_banner
        } else {
            None
        }),
        r.startup.announcement_tip == (if raw.startup is Some {
            raw.startup->0.announcement_tip
        } else {
            None
        }),
        r.changes.last_changed_file_diff == (if raw.changes is Some {
            raw.changes->0.last_changed_file_diff
        } else {
            None
        }),
        r.footer_layout == (if raw.layout is Some {
            raw.layout->0.footer
        } else {
            None
        }),
        r.status_line is Some <==> raw.status_line is Some,
{
    let RawTuiContribution {
        status_line,
        layout,
        theme,
        changes,
        startup,
        slash_commands,
        key_bindings,
    } = raw;
    let status_line = match status_line {
        Some(items) => Some(normalize_status_line(items)),
        None => None,
    };
    let footer_layout = match layout {
        Some(l) => l.footer,
        None => None,
    };
    let theme = match theme {
        Some(t) => normalize_theme_contribution(t),
        None => None,
    };
    let changes = match changes {
        Some(c) => normalize_change_ui(c),
        None => ChangeUiContribution { last_changed_file_diff: None },
    };
    let startup = match startup {
        Some(s) => normalize_startup_ui(s),
        None => StartupUiContribution { splash_banner: None, announcement_tip: None },
    };
    let slash_commands = normalize_plugin_slash_commands(
        plugin_id,
        plugin_display_name,
        plugin_root,
        slash_commands,
        builtin_commands,
    );
    let key_bindings = normalize_plugin_key_bindings(
        plugin_id,
        key_bindings,
        parsed_keys,
        slash_commands.as_slice(),
    );
    TuiContributionSet {
        status_line,
        footer_layout,
        theme,
        changes,
        startup,
        slash_commands,
        key_bindings,
    }
}

} // verus!

verus! {

// ---------------------------------------------------------------------
// Laws
// ---------------------------------------------------------------------

proof fn lemma_name_chars_fixed(x: Seq<char>)
    requires
        all_name_chars(x),
    ensures
        trim(x) == x,
        strip_slash(x) == x,
        lower(x) == x,
{
    if x.len() > 0 {
        assert(is_name_char(x[0]));
        assert(is_name_char(x.last()));
        assert(trim_start(x) == x);
        assert(trim_end(x) == x);
    }
    assert forall|i: int| 0 <= i < x.len() implies lower(x)[i] == x[i] by {
        assert(is_name_char(x[i]));
    }
    assert(lower(x) =~= x);
}

/// A normalized slash command name normalizes to itself.
pub proof fn lemma_slash_command_name_idempotent(name: Seq<char>)
    ensures
        slash_command_name(name) matches Some(x) ==> slash_command_name(x) == Some(x),
{
    if let Some(x) = slash_command_name(name) {
        lemma_name_chars_fixed(x);
    }
}

/// A normalized theme name normalizes to itself.
pub proof fn lemma_theme_name_idempotent(name: Seq<char>)
    ensures
        theme_name(name) matches Some(x) ==> theme_name(x) == Some(x),
{
    if let Some(x) = theme_name(name) {
        lemma_name_chars_fixed(x);
    }
}

/// A normalized prompt normalizes to itself.
pub proof fn lemma_submit_prompt_idempotent(prompt: Seq<char>)
    ensures
        submit_prompt(Some(prompt)) matches Some(x) ==> submit_prompt(Some(x)) == Some(x),
{
    lemma_trim_idempotent(prompt);
}

proof fn lemma_status_items_trimmed(items: Seq<Seq<char>>)
    ensures
        forall|i: int|
            0 <= i < status_items(items).len() ==> status_item(#[trigger] status_items(items)[i])
                == Some(status_items(items)[i]),
    decreases items.len(),
{
    if items.len() > 0 {
        lemma_status_items_trimmed(items.drop_last());
        lemma_trim_idempotent(items.last());
    }
}

proof fn lemma_status_items_of_valid(items: Seq<Seq<char>>)
    requires
        forall|i: int| 0 <= i < items.len() ==> status_item(#[trigger] items[i]) == Some(items[i]),
    ensures
        status_items(items) == items,
    decreases items.len(),
{
    if items.len() > 0 {
        lemma_status_items_of_valid(items.drop_last());
        assert(status_item(items[items.len() - 1]) == Some(items.last()));
        assert(items.drop_last().push(items.last()) =~= items);
    }
}

/// A normalized status line normalizes to itself: at most 32 items, each
/// trimmed and of 1 to 64 characters.
pub proof fn lemma_status_line_idempotent(items: Seq<Seq<char>>)
    ensures
        status_line(status_line(items)) == status_line(items),
        status_line(items).len() <= MAX_STATUS_LINE_ITEMS,
        forall|i: int|
            0 <= i < status_line(items).len() ==> {
                let t = #[trigger] status_line(items)[i];
                &&& trim(t) == t
                &&& 0 < t.len() <= MAX_STATUS_LINE_ITEM_LEN
            },
{
    lemma_status_items_trimmed(items);
    let s = status_line(items);
    let p = status_items(items);
    assert forall|i: int| 0 <= i < s.len() implies status_item(#[trigger] s[i]) == Some(s[i]) by {
        assert(s[i] == p[i]);
    }
    lemma_status_items_of_valid(s);
    assert forall|i: int| 0 <= i < s.len() implies {
        let t = #[trigger] s[i];
        &&& trim(t) == t
        &&& 0 < t.len() <= MAX_STATUS_LINE_ITEM_LEN
    } by {
        assert(status_item(s[i]) == Some(s[i]));
    }
}

/// What a contribution's slash command promises: its name is a normalized
/// name that is not built in, it belongs to the plugin, and a prompt it
/// submits is trimmed, non-empty, within 4000 characters and no `!` escape.
pub open spec fn valid_command(
    plugin_id: Seq<char>,
    builtins: Seq<Seq<char>>,
    c: SlashCommandModel,
) -> bool {
    &&& slash_command_name(c.name) == Some(c.name)
    &&& !builtins.contains(c.name)
    &&& c.plugin_id == plugin_id
    &&& c.action matches ActionModel::SubmitPrompt(p) ==> {
        &&& trim(p) == p
        &&& 0 < p.len() <= MAX_PLUGIN_SLASH_COMMAND_PROMPT_LEN
        &&& p[0] != '!'
    }
}

proof fn lemma_slash_commands_upto(
    plugin_id: Seq<char>,
    display_name: Seq<char>,
    root: Seq<char>,
    builtins: Seq<Seq<char>>,
    raws: Seq<RawTuiSlashCommand>,
    n: nat,
)
    requires
        n <= raws.len(),
    ensures
        ({
            let (out, seen) = slash_commands_upto(plugin_id, display_name, root, builtins, raws, n);
            &&& out.len() <= n
            &&& forall|i: int| 0 <= i < out.len() ==> valid_command(plugin_id, builtins, #[trigger] out[i])
            &&& forall|i: int| 0 <= i < out.len() ==> seen.contains(#[trigger] out[i].name)
            &&& forall|i: int, j: int| 0 <= i < j < out.len() ==> out[i].name != out[j].name
        }),
    decreases n,
{
    if n > 0 {
        lemma_slash_commands_upto(plugin_id, display_name, root, builtins, raws, (n - 1) as nat);
        let (out, seen) = slash_commands_upto(
            plugin_id,
            display_name,
            root,
            builtins,
            raws,
            (n - 1) as nat,
        );
        let raw = raws[n - 1];
        lemma_slash_command_name_idempotent(raw.name@);
        lemma_trim_idempotent(raw.submit_prompt->0@);
        if let Some(name) = slash_command_name(raw.name@) {
            if !(builtins.contains(name) || seen.contains(name)) {
                let seen2 = seen.push(name);
                assert forall|i: int| 0 <= i < out.len() implies seen2.contains(
                    #[trigger] out[i].name,
                ) by {
                    let w = choose|w: int| 0 <= w < seen.len() && seen[w] == out[i].name;
                    assert(seen2[w] == out[i].name);
                }
                assert(seen2[seen.len() as int] == name);
                if let Some(action) = slash_command_action(
                    plugin_id,
                    root,
                    opt_string_view(raw.submit_prompt),
                    raw.terminal_command,
                ) {
                    let c = SlashCommandModel {
                        plugin_id,
                        name,
                        description: command_description(raw.description, display_name),
                        action,
                    };
                    let out2 = out.push(c);
                    assert forall|i: int, j: int| 0 <= i < j < out2.len() implies out2[i].name
                        != out2[j].name by {
                        if j == out.len() {
                            assert(seen.contains(out[i].name));
                        }
                    }
                    assert forall|i: int| 0 <= i < out2.len() implies seen2.contains(
                        #[trigger] out2[i].name,
                    ) by {
                        if i < out.len() {
                            assert(seen2.contains(out[i].name));
                        }
                    }
                }
            }
        }
    }
}

/// The slash commands of a contribution: at most 64, names pairwise distinct,
/// and each a valid command (see `valid_command`).
pub proof fn lemma_slash_commands_valid(
    plugin_id: Seq<char>,
    display_name: Seq<char>,
    root: Seq<char>,
    builtins: Seq<Seq<char>>,
    raws: Seq<RawTuiSlashCommand>,
)
    ensures
        ({
            let cmds = slash_commands(plugin_id, display_name, root, builtins, raws);
            &&& cmds.len() <= MAX_PLUGIN_SLASH_COMMANDS
            &&& forall|i: int| 0 <= i < cmds.len() ==> valid_command(plugin_id, builtins, #[trigger] cmds[i])
            &&& forall|i: int, j: int| 0 <= i < j < cmds.len() ==> cmds[i].name != cmds[j].name
        }),
{
    let r = at_most(raws, MAX_PLUGIN_SLASH_COMMANDS as nat);
    lemma_slash_commands_upto(plugin_id, display_name, root, builtins, r, r.len());
}

proof fn lemma_find_command_member(cmds: Seq<SlashCommandModel>, name: Seq<char>)
    ensures
        find_command(cmds, name) matches Some(c) ==> cmds.contains(c) && c.name == name,
    decreases cmds.len(),
{
    if cmds.len() > 0 && cmds[0].name != name {
        lemma_find_command_member(cmds.drop_first(), name);
        if let Some(c) = find_command(cmds.drop_first(), name) {
            let w = choose|w: int| 0 <= w < cmds.drop_first().len() && cmds.drop_first()[w] == c;
            assert(cmds[w + 1] == c);
        }
    } else if cmds.len() > 0 {
        assert(cmds[0] == cmds[0]);
    }
}

proof fn lemma_key_bindings_upto(
    plugin_id: Seq<char>,
    cmds: Seq<SlashCommandModel>,
    raws: Seq<RawPluginKeyBinding>,
    parsed: Seq<Option<KeyBinding>>,
    n: nat,
)
    requires
        n <= raws.len(),
        n <= parsed.len(),
    ensures
        ({
            let (out, seen) = key_bindings_upto(plugin_id, cmds, raws, parsed, n);
            &&& out.len() <= n
            &&& forall|i: int|
                0 <= i < out.len() ==> cmds.contains(#[trigger] out[i].command)
                    && out[i].plugin_id == plugin_id
            &&& forall|i: int| 0 <= i < out.len() ==> seen.contains(#[trigger] out[i].key)
            &&& forall|i: int, j: int| 0 <= i < j < out.len() ==> out[i].key != out[j].key
        }),
    decreases n,
{
    if n > 0 {
        lemma_key_bindings_upto(plugin_id, cmds, raws, parsed, (n - 1) as nat);
        let (out, seen) = key_bindings_upto(plugin_id, cmds, raws, parsed, (n - 1) as nat);
        let raw = raws[n - 1];
        if key_spec(raw.key@) is Some {
            if let Some(key) = parsed[n - 1] {
                if !seen.contains(key) {
                    let seen2 = seen.push(key);
                    assert forall|i: int| 0 <= i < out.len() implies seen2.contains(
                        #[trigger] out[i].key,
                    ) by {
                        let w = choose|w: int| 0 <= w < seen.len() && seen[w] == out[i].key;
                        assert(seen2[w] == out[i].key);
                    }
                    assert(seen2[seen.len() as int] == key);
                    if let Some(name) = slash_command_name(raw.command@) {
                        lemma_find_command_member(cmds, name);
                        if let Some(c) = find_command(cmds, name) {
                            let out2 = out.push(KeyBindingModel { plugin_id, key, command: c });
                            assert forall|i: int, j: int| 0 <= i < j < out2.len() implies out2[i].key
                                != out2[j].key by {
                                if j == out.len() {
                                    assert(seen.contains(out[i].key));
                                }
                            }
                            assert forall|i: int| 0 <= i < out2.len() implies seen2.contains(
                                #[trigger] out2[i].key,
                            ) by {
                                if i < out.len() {
                                    assert(seen2.contains(out[i].key));
                                }
                            }
                        }
                    }
                }
            }
        }
    }
}

/// The key bindings of a contribution: at most 64, keys pairwise distinct,
/// each bound to one of the given slash commands and belonging to the plugin.
pub proof fn lemma_key_bindings_valid(
    plugin_id: Seq<char>,
    cmds: Seq<SlashCommandModel>,
    raws: Seq<RawPluginKeyBinding>,
    parsed: Seq<Option<KeyBinding>>,
)
    requires
        parsed.len() == raws.len(),
    ensures
        ({
            let bs = key_bindings(plugin_id, cmds, raws, parsed);
            &&& bs.len() <= MAX_PLUGIN_KEY_BINDINGS
            &&& forall|i: int|
                0 <= i < bs.len() ==> cmds.contains(#[trigger] bs[i].command) && bs[i].plugin_id
                    == plugin_id
            &&& forall|i: int, j: int| 0 <= i < j < bs.len() ==> bs[i].key != bs[j].key
        }),
{
    let r = at_most(raws, MAX_PLUGIN_KEY_BINDINGS as nat);
    lemma_key_bindings_upto(plugin_id, cmds, r, parsed, r.len());
}

} // verus!

verus! {

/// A normalized description normalizes to itself.
pub proof fn lemma_description_idempotent(d: Seq<char>)
    ensures
        description(d) matches Some(x) ==> description(x) == Some(x),
{
    lemma_words_are_words(d);
    lemma_words_of_join(words(d));
}

} // verus!

verus! {

/// Each declared setting lands on its own element: the splash banner and the
/// announcement tip take the visibility declared for each, the diff switch the
/// one declared for it, the footer the declared layout; an undeclared group
/// leaves all of its elements unset; a status line is kept exactly when one
/// is declared; and a theme exactly when a source is declared.
pub proof fn lemma_contribution_settings_follow_declaration(
    plugin_id: Seq<char>,
    display_name: Seq<char>,
    root: Seq<char>,
    builtins: Seq<Seq<char>>,
    raw: RawTuiContribution,
    parsed: Seq<Option<KeyBinding>>,
)
    ensures
        ({
            let c = tui_contribution(plugin_id, display_name, root, builtins, raw, parsed);
            &&& raw.startup matches Some(st) ==> c.startup.splash_banner == st.splash_banner
                && c.startup.announcement_tip == st.announcement_tip
            &&& raw.startup is None ==> c.startup.splash_banner is None
                && c.startup.announcement_tip is None
            &&& raw.changes matches Some(ch) ==> c.changes.last_changed_file_diff
                == ch.last_changed_file_diff
            &&& raw.changes is None ==> c.changes.last_changed_file_diff is None
            &&& raw.layout matches Some(l) ==> c.footer_layout == l.footer
            &&& raw.layout is None ==> c.footer_layout is None
            &&& (c.status_line is Some <==> raw.status_line is Some)
            &&& (c.theme is Some <==> (raw.theme is Some && raw.theme->0.source is Some))
            &&& c.theme matches Some(t) ==> t.source == raw.theme->0.source->0
        }),
{
}

/// A status line of at most 32 items, each trimmed and of 1 to 64
/// characters, is kept as declared.
pub proof fn lemma_valid_status_line_kept(items: Seq<Seq<char>>)
    requires
        items.len() <= MAX_STATUS_LINE_ITEMS,
        forall|i: int|
            0 <= i < items.len() ==> trim(#[trigger] items[i]) == items[i] && 0 < items[i].len()
                <= MAX_STATUS_LINE_ITEM_LEN,
    ensures
        status_line(items) == items,
{
    assert forall|i: int| 0 <= i < items.len() implies status_item(#[trigger] items[i]) == Some(
        items[i],
    ) by {}
    lemma_status_items_of_valid(items);
}

proof fn lemma_name_not_seen(
    plugin_id: Seq<char>,
    display_name: Seq<char>,
    root: Seq<char>,
    builtins: Seq<Seq<char>>,
    raws: Seq<RawTuiSlashCommand>,
    n: nat,
    x: Seq<char>,
)
    requires
        n <= raws.len(),
        forall|j: int| 0 <= j < n ==> slash_command_name(#[trigger] raws[j].name@) != Some(x),
    ensures
        !slash_commands_upto(plugin_id, display_name, root, builtins, raws, n).1.contains(x),
    decreases n,
{
    if n > 0 {
        lemma_name_not_seen(plugin_id, display_name, root, builtins, raws, (n - 1) as nat, x);
        let seen = slash_commands_upto(plugin_id, display_name, root, builtins, raws, (n - 1) as nat).1;
        assert(slash_command_name(raws[n - 1].name@) != Some(x));
        if let Some(name) = slash_command_name(raws[n - 1].name@) {
            let seen2 = seen.push(name);
            assert forall|k: int| 0 <= k < seen2.len() implies seen2[k] != x by {
                if k < seen.len() {
                    assert(seen2[k] == seen[k]);
                }
            }
        }
    }
}

proof fn lemma_commands_grow(
    plugin_id: Seq<char>,
    display_name: Seq<char>,
    root: Seq<char>,
    builtins: Seq<Seq<char>>,
    raws: Seq<RawTuiSlashCommand>,
    m: nat,
    n: nat,
)
    requires
        m <= n <= raws.len(),
    ensures
        ({
            let a = slash_commands_upto(plugin_id, display_name, root, builtins, raws, m).0;
            let b = slash_commands_upto(plugin_id, display_name, root, builtins, raws, n).0;
            &&& a.len() <= b.len()
            &&& forall|k: int| 0 <= k < a.len() ==> #[trigger] b[k] == a[k]
        }),
    decreases n,
{
    if m < n {
        lemma_commands_grow(plugin_id, display_name, root, builtins, raws, m, (n - 1) as nat);
        let a = slash_commands_upto(plugin_id, display_name, root, builtins, raws, m).0;
        let p = slash_commands_upto(plugin_id, display_name, root, builtins, raws, (n - 1) as nat).0;
        let b = slash_commands_upto(plugin_id, display_name, root, builtins, raws, n).0;
        assert(b == p || (b.len() == p.len() + 1 && b.drop_last() == p));
        assert forall|k: int| 0 <= k < a.len() implies #[trigger] b[k] == a[k] by {
            assert(p[k] == a[k]);
            if b != p {
                assert(b.drop_last()[k] == b[k]);
            }
        }
    }
}

/// A declared slash command among the first 64 is kept as declared when its
/// name is valid and not built in, no command declared before it has the same
/// name, and its action is valid.
pub proof fn lemma_declared_command_kept(
    plugin_id: Seq<char>,
    display_name: Seq<char>,
    root: Seq<char>,
    builtins: Seq<Seq<char>>,
    raws: Seq<RawTuiSlashCommand>,
    i: int,
)
    requires
        0 <= i < raws.len(),
        i < MAX_PLUGIN_SLASH_COMMANDS,
        slash_command_name(raws[i].name@) is Some,
        !builtins.contains(slash_command_name(raws[i].name@)->0),
        forall|j: int|
            0 <= j < i ==> slash_command_name(#[trigger] raws[j].name@) != slash_command_name(
                raws[i].name@,
            ),
        slash_command_action(
            plugin_id,
            root,
            opt_string_view(raws[i].submit_prompt),
            raws[i].terminal_command,
        ) is Some,
    ensures
        slash_commands(plugin_id, display_name, root, builtins, raws).contains(
            SlashCommandModel {
                plugin_id,
                name: slash_command_name(raws[i].name@)->0,
                description: command_description(raws[i].description, display_name),
                action: slash_command_action(
                    plugin_id,
                    root,
                    opt_string_view(raws[i].submit_prompt),
                    raws[i].terminal_command,
                )->0,
            },
        ),
{
    let r = at_most(raws, MAX_PLUGIN_SLASH_COMMANDS as nat);
    let x = slash_command_name(raws[i].name@)->0;
    assert(r[i] == raws[i]);
    assert forall|j: int| 0 <= j < i implies slash_command_name(#[trigger] r[j].name@) != Some(x) by {
        assert(r[j] == raws[j]);
        assert(slash_command_name(raws[j].name@) != slash_command_name(raws[i].name@));
    }
    lemma_name_not_seen(plugin_id, display_name, root, builtins, r, i as nat, x);
    let before = slash_commands_upto(plugin_id, display_name, root, builtins, r, i as nat).0;
    let after = slash_commands_upto(plugin_id, display_name, root, builtins, r, (i + 1) as nat).0;
    let c = SlashCommandModel {
        plugin_id,
        name: x,
        description: command_description(raws[i].description, display_name),
        action: slash_command_action(
            plugin_id,
            root,
            opt_string_view(raws[i].submit_prompt),
            raws[i].terminal_command,
        )->0,
    };
    assert(after == before.push(c));
    lemma_commands_grow(plugin_id, display_name, root, builtins, r, (i + 1) as nat, r.len());
    let all = slash_commands(plugin_id, display_name, root, builtins, raws);
    assert(all[before.len() as int] == after[before.len() as int]);
    assert(all[before.len() as int] == c);
}

proof fn lemma_key_not_seen(
    plugin_id: Seq<char>,
    cmds: Seq<SlashCommandModel>,
    raws: Seq<RawPluginKeyBinding>,
    parsed: Seq<Option<KeyBinding>>,
    n: nat,
    k: KeyBinding,
)
    requires
        n <= raws.len(),
        n <= parsed.len(),
        forall|j: int|
            0 <= j < n ==> key_spec(#[trigger] raws[j].key@) is Some ==> parsed[j] != Some(k),
    ensures
        !key_bindings_upto(plugin_id, cmds, raws, parsed, n).1.contains(k),
    decreases n,
{
    if n > 0 {
        lemma_key_not_seen(plugin_id, cmds, raws, parsed, (n - 1) as nat, k);
        let seen = key_bindings_upto(plugin_id, cmds, raws, parsed, (n - 1) as nat).1;
        assert(key_spec(raws[n - 1].key@) is Some ==> parsed[n - 1] != Some(k));
        if key_spec(raws[n - 1].key@) is Some {
            if let Some(key) = parsed[n - 1] {
                let seen2 = seen.push(key);
                assert forall|w: int| 0 <= w < seen2.len() implies seen2[w] != k by {
                    if w < seen.len() {
                        assert(seen2[w] == seen[w]);
                    }
                }
            }
        }
    }
}

proof fn lemma_bindings_grow(
    plugin_id: Seq<char>,
    cmds: Seq<SlashCommandModel>,
    raws: Seq<RawPluginKeyBinding>,
    parsed: Seq<Option<KeyBinding>>,
    m: nat,
    n: nat,
)
    requires
        m <= n <= raws.len(),
    ensures
        ({
            let a = key_bindings_upto(plugin_id, cmds, raws, parsed, m).0;
            let b = key_bindings_upto(plugin_id, cmds, raws, parsed, n).0;
            &&& a.len() <= b.len()
            &&& forall|w: int| 0 <= w < a.len() ==> #[trigger] b[w] == a[w]
        }),
    decreases n,
{
    if m < n {
        lemma_bindings_grow(plugin_id, cmds, raws, parsed, m, (n - 1) as nat);
        let a = key_bindings_upto(plugin_id, cmds, raws, parsed, m).0;
        let p = key_bindings_upto(plugin_id, cmds, raws, parsed, (n - 1) as nat).0;
        let b = key_bindings_upto(plugin_id, cmds, raws, parsed, n).0;
        assert(b == p || (b.len() == p.len() + 1 && b.drop_last() == p));
        assert forall|w: int| 0 <= w < a.len() implies #[trigger] b[w] == a[w] by {
            assert(p[w] == a[w]);
            if b != p {
                assert(b.drop_last()[w] == b[w]);
            }
        }
    }
}

/// A declared key binding among the first 64 is kept when its key is valid
/// and parses to a key that no valid binding before it parsed to, and its
/// command names one of the plugin's slash commands: it binds that key to the
/// first command of that name.
pub proof fn lemma_declared_binding_kept(
    plugin_id: Seq<char>,
    cmds: Seq<SlashCommandModel>,
    raws: Seq<RawPluginKeyBinding>,
    parsed: Seq<Option<KeyBinding>>,
    i: int,
)
    requires
        parsed.len() == raws.len(),
        0 <= i < raws.len(),
        i < MAX_PLUGIN_KEY_BINDINGS,
        key_spec(raws[i].key@) is Some,
        parsed[i] is Some,
        forall|j: int|
            0 <= j < i ==> key_spec(#[trigger] raws[j].key@) is Some ==> parsed[j] != parsed[i],
        slash_command_name(raws[i].command@) is Some,
        find_command(cmds, slash_command_name(raws[i].command@)->0) is Some,
    ensures
        key_bindings(plugin_id, cmds, raws, parsed).contains(
            KeyBindingModel {
                plugin_id,
                key: parsed[i]->0,
                command: find_command(cmds, slash_command_name(raws[i].command@)->0)->0,
            },
        ),
{
    let r = at_most(raws, MAX_PLUGIN_KEY_BINDINGS as nat);
    let k = parsed[i]->0;
    assert(r[i] == raws[i]);
    assert forall|j: int| 0 <= j < i implies key_spec(#[trigger] r[j].key@) is Some ==> parsed[j]
        != Some(k) by {
        assert(r[j] == raws[j]);
    }
    lemma_key_not_seen(plugin_id, cmds, r, parsed, i as nat, k);
    let before = key_bindings_upto(plugin_id, cmds, r, parsed, i as nat).0;
    let after = key_bindings_upto(plugin_id, cmds, r, parsed, (i + 1) as nat).0;
    let b = KeyBindingModel {
        plugin_id,
        key: k,
        command: find_command(cmds, slash_command_name(raws[i].command@)->0)->0,
    };
    assert(after == before.push(b));
    lemma_bindings_grow(plugin_id, cmds, r, parsed, (i + 1) as nat, r.len());
    let all = key_bindings(plugin_id, cmds, raws, parsed);
    assert(all[before.len() as int] == after[before.len() as int]);
    assert(all[before.len() as int] == b);
}

} // verus!
