//! Combining the contributions of all enabled plugins into one set.
//!
//! Singleton settings (status line, footer layout, theme and the visibility
//! switches) go to the last plugin that sets them. Slash commands go to the
//! first plugin that declares a name, and key bindings to the first plugin
//! that binds a key, among the bindings whose command that same plugin
//! contributed.

use vstd::prelude::*;
use crate::contribution::{
    bindings_view, commands_view, strings_view, ChangeUiContribution, ContributionSetModel,
    KeyBinding, KeyBindingModel, PluginKeyBinding, SlashCommandModel, StartupUiContribution, TuiContributionSet,
};
use crate::normalize::{contains_key, contains_string};

verus! {

/// Adds the first `n` of `cmds` to `out`, skipping names already seen.
/// Returns the names seen afterwards, the commands, and the names accepted here.
pub open spec fn merge_commands(
    seen: Seq<Seq<char>>,
    out: Seq<SlashCommandModel>,
    cmds: Seq<SlashCommandModel>,
    n: nat,
) -> (Seq<Seq<char>>, Seq<SlashCommandModel>, Seq<Seq<char>>)
    decreases n,
{
    if n == 0 {
        (seen, out, seq![])
    } else {
        let (s, o, a) = merge_commands(seen, out, cmds, (n - 1) as nat);
        let c = cmds[n - 1];
        if s.contains(c.name) {
            (s, o, a)
        } else {
            (s.push(c.name), o.push(c), a.push(c.name))
        }
    }
}

/// Adds the first `n` of `bindings` to `out`: a binding whose command was
/// accepted, and whose key is not seen yet.
pub open spec fn merge_bindings(
    seen_keys: Seq<KeyBinding>,
    out: Seq<KeyBindingModel>,
    accepted: Seq<Seq<char>>,
    bindings: Seq<KeyBindingModel>,
    n: nat,
) -> (Seq<KeyBinding>, Seq<KeyBindingModel>)
    decreases n,
{
    if n == 0 {
        (seen_keys, out)
    } else {
        let (s, o) = merge_bindings(seen_keys, out, accepted, bindings, (n - 1) as nat);
        let b = bindings[n - 1];
        if !accepted.contains(b.command.name) || s.contains(b.key) {
            (s, o)
        } else {
            (s.push(b.key), o.push(b))
        }
    }
}

pub open spec fn later<A>(old: Option<A>, new: Option<A>) -> Option<A> {
    if new is Some {
        new
    } else {
        old
    }
}

/// The set after one more plugin's contribution, with the slash command
/// names and the keys seen so far across plugins.
pub open spec fn merged(
    set: ContributionSetModel,
    seen: Seq<Seq<char>>,
    seen_keys: Seq<KeyBinding>,
    c: ContributionSetModel,
) -> (ContributionSetModel, Seq<Seq<char>>, Seq<KeyBinding>) {
    let (seen2, cmds, accepted) = merge_commands(
        seen,
        set.slash_commands,
        c.slash_commands,
        c.slash_commands.len(),
    );
    let (keys2, bindings) = merge_bindings(
        seen_keys,
        set.key_bindings,
        accepted,
        c.key_bindings,
        c.key_bindings.len(),
    );
    (
        ContributionSetModel {
            status_line: later(set.status_line, c.status_line),
            footer_layout: later(set.footer_layout, c.footer_layout),
            theme: later(set.theme, c.theme),
            changes: ChangeUiContribution {
                last_changed_file_diff: later(
                    set.changes.last_changed_file_diff,
                    c.changes.last_changed_file_diff,
                ),
            },
            startup: StartupUiContribution {
                splash_banner: later(set.startup.splash_banner, c.startup.splash_banner),
                announcement_tip: later(set.startup.announcement_tip, c.startup.announcement_tip),
            },
            slash_commands: cmds,
            key_bindings: bindings,
        },
        seen2,
        keys2,
    )
}

impl TuiContributionSet {
    /// Adds one plugin's contribution; `seen_slash_commands` and
    /// `seen_key_bindings` record the names and keys taken across plugins.
    pub fn merge_from_plugin(
        &mut self,
        contribution: TuiContributionSet,
        seen_slash_commands: &mut Vec<String>,
        seen_key_bindings: &mut Vec<KeyBinding>,
    )
        ensures
            (final(self)@, strings_view(final(seen_slash_commands)@), final(seen_key_bindings)@)
                == merged(
                old(self)@,
                strings_view(old(seen_slash_commands)@),
                old(seen_key_bindings)@,
                contribution@,
            ),
            final(self).changes.last_changed_file_diff == (if contribution.changes.last_changed_file_diff is Some {
                contribution.changes.last_changed_file_diff
            } else {
                old(self).changes.last_changed_file_diff
            }),
            final(self).startup.splash_banner == (if contribution.startup.splash_banner is Some {
                contribution.startup.splash_banner
            } else {
                old(self).startup.splash_banner
            }),
            final(self).startup.announcement_tip == (if contribution.startup.announcement_tip is Some {
                contribution.startup.announcement_tip
            } else {
                old(self).startup.announcement_tip
            }),
            final(self).footer_layout == (if contribution.footer_layout is Some {
                contribution.footer_layout
            } else {
                old(self).footer_layout
            }),
            final(self)@.status_line == (if contribution.status_line is Some {
                contribution@.status_line
            } else {
                old(self)@.status_line
            }),
            final(self)@.theme == (if contribution.theme is Some {
                contribution@.theme
            } else {
                old(self)@.theme
            }),
    {
        let ghost c = contribution@;
        let ghost seen0 = strings_view(seen_slash_commands@);
        let ghost keys0 = seen_key_bindings@;
        let ghost out0 = commands_view(self.slash_commands@);
        let ghost bout0 = bindings_view(self.key_bindings@);
        let TuiContributionSet {
            status_line,
            footer_layout,
            theme,
            changes,
            startup,
            slash_commands,
            key_bindings,
        } = contribution;
        if status_line.is_some() {
            self.status_line = status_line;
        }
        if footer_layout.is_some() {
            self.footer_layout = footer_layout;
        }
        if theme.is_some() {
            self.theme = theme;
        }
        self.changes.merge_from(changes);
        self.startup.merge_from(startup);
        let ghost mid = self@;
        let mut accepted: Vec<String> = Vec::new();
        let mut i: usize = 0;
        while i < slash_commands.len()
            invariant
                i <= slash_commands.len(),
                c.slash_commands == commands_view(slash_commands@),
                bindings_view(self.key_bindings@) == bout0,
                seen_key_bindings@ == keys0,
                self@.status_line == mid.status_line,
                self@.footer_layout == mid.footer_layout,
                self@.theme == mid.theme,
                self@.changes == mid.changes,
                self@.startup == mid.startup,
                (strings_view(seen_slash_commands@), commands_view(self.slash_commands@), strings_view(accepted@))
                    == merge_commands(seen0, out0, c.slash_commands, i as nat),
            decreases slash_commands.len() - i,
        {
            let command = &slash_commands[i];
            if !contains_string(seen_slash_commands, &command.name) {
                let ghost s0 = strings_view(seen_slash_commands@);
                let ghost o0 = commands_view(self.slash_commands@);
                let ghost a0 = strings_view(accepted@);
                seen_slash_commands.push(command.name.clone());
                accepted.push(command.name.clone());
                let copy = command.duplicate();
                self.slash_commands.push(copy);
                assert(strings_view(seen_slash_commands@) =~= s0.push(command.name@));
                assert(strings_view(accepted@) =~= a0.push(command.name@));
                assert(commands_view(self.slash_commands@) =~= o0.push(command@));
            }
            i += 1;
        }
        let ghost acc = strings_view(accepted@);
        let ghost seen1 = strings_view(seen_slash_commands@);
        let ghost cmds1 = commands_view(self.slash_commands@);
        let mut j: usize = 0;
        while j < key_bindings.len()
            invariant
                j <= key_bindings.len(),
                c.key_bindings == bindings_view(key_bindings@),
                acc == strings_view(accepted@),
                strings_view(seen_slash_commands@) == seen1,
                commands_view(self.slash_commands@) == cmds1,
                self@.status_line == mid.status_line,
                self@.footer_layout == mid.footer_layout,
                self@.theme == mid.theme,
                self@.changes == mid.changes,
                self@.startup == mid.startup,
                (seen_key_bindings@, bindings_view(self.key_bindings@)) == merge_bindings(
                    keys0,
                    bout0,
                    acc,
                    c.key_bindings,
                    j as nat,
                ),
            decreases key_bindings.len() - j,
        {
            let binding = &key_bindings[j];
            if contains_string(&accepted, &binding.command.name) && !contains_key(
                seen_key_bindings,
                binding.key,
            ) {
                let ghost b0 = bindings_view(self.key_bindings@);
                seen_key_bindings.push(binding.key);
                let copy = PluginKeyBinding {
                    plugin_id: binding.plugin_id.clone(),
                    key: binding.key,
                    command: binding.command.duplicate(),
                };
                self.key_bindings.push(copy);
                assert(bindings_view(self.key_bindings@) =~= b0.push(binding@));
            }
            j += 1;
        }
    }
}

} // verus!

verus! {

pub open spec fn names_unique(cmds: Seq<SlashCommandModel>) -> bool {
    forall|i: int, j: int| 0 <= i < j < cmds.len() ==> cmds[i].name != cmds[j].name
}

pub open spec fn keys_unique(bindings: Seq<KeyBindingModel>) -> bool {
    forall|i: int, j: int| 0 <= i < j < bindings.len() ==> bindings[i].key != bindings[j].key
}

/// No two commands share a name and no two bindings share a key, and every
/// name and key in use is recorded as seen.
pub open spec fn consistent(
    set: ContributionSetModel,
    seen: Seq<Seq<char>>,
    seen_keys: Seq<KeyBinding>,
) -> bool {
    &&& names_unique(set.slash_commands)
    &&& forall|i: int|
        0 <= i < set.slash_commands.len() ==> seen.contains(#[trigger] set.slash_commands[i].name)
    &&& keys_unique(set.key_bindings)
    &&& forall|i: int|
        0 <= i < set.key_bindings.len() ==> seen_keys.contains(#[trigger] set.key_bindings[i].key)
}

proof fn lemma_merge_commands(
    seen: Seq<Seq<char>>,
    out: Seq<SlashCommandModel>,
    cmds: Seq<SlashCommandModel>,
    n: nat,
)
    requires
        n <= cmds.len(),
        names_unique(out),
        forall|i: int| 0 <= i < out.len() ==> seen.contains(#[trigger] out[i].name),
    ensures
        ({
            let (s, o, a) = merge_commands(seen, out, cmds, n);
            &&& o.len() == out.len() + a.len()
            &&& o.subrange(0, out.len() as int) == out
            &&& forall|k: int| 0 <= k < a.len() ==> #[trigger] a[k] == o[out.len() + k].name
            &&& names_unique(o)
            &&& forall|i: int| 0 <= i < o.len() ==> s.contains(#[trigger] o[i].name)
            &&& forall|k: int| 0 <= k < a.len() ==> !seen.contains(#[trigger] a[k])
            &&& s == seen + a
        }),
    decreases n,
{
    if n > 0 {
        lemma_merge_commands(seen, out, cmds, (n - 1) as nat);
        let (s, o, a) = merge_commands(seen, out, cmds, (n - 1) as nat);
        let c = cmds[n - 1];
        if !s.contains(c.name) {
            let o2 = o.push(c);
            let a2 = a.push(c.name);
            assert(o2.subrange(0, out.len() as int) =~= o.subrange(0, out.len() as int));
            assert forall|i: int, j: int| 0 <= i < j < o2.len() implies o2[i].name != o2[j].name by {
                if j == o.len() {
                    assert(s.contains(o[i].name));
                }
            }
            assert forall|k: int| 0 <= k < a2.len() implies !seen.contains(#[trigger] a2[k]) by {
                if k == a.len() {
                    if seen.contains(c.name) {
                        let w = choose|w: int| 0 <= w < seen.len() && seen[w] == c.name;
                        assert(s[w] == c.name);
                    }
                }
            }
            assert(s.push(c.name) =~= seen + a2);
            assert forall|i: int| 0 <= i < o2.len() implies s.push(c.name).contains(
                #[trigger] o2[i].name,
            ) by {
                if i < o.len() {
                    let w = choose|w: int| 0 <= w < s.len() && s[w] == o[i].name;
                    assert(s.push(c.name)[w] == o[i].name);
                } else {
                    assert(s.push(c.name)[s.len() as int] == c.name);
                }
            }
        }
    }
}

proof fn lemma_merge_bindings(
    seen_keys: Seq<KeyBinding>,
    out: Seq<KeyBindingModel>,
    accepted: Seq<Seq<char>>,
    bindings: Seq<KeyBindingModel>,
    n: nat,
)
    requires
        n <= bindings.len(),
        keys_unique(out),
        forall|i: int| 0 <= i < out.len() ==> seen_keys.contains(#[trigger] out[i].key),
    ensures
        ({
            let (s, o) = merge_bindings(seen_keys, out, accepted, bindings, n);
            &&& o.len() >= out.len()
            &&& o.subrange(0, out.len() as int) == out
            &&& keys_unique(o)
            &&& forall|i: int| 0 <= i < o.len() ==> s.contains(#[trigger] o[i].key)
            &&& forall|k: int|
                out.len() <= k < o.len() ==> accepted.contains(#[trigger] o[k].command.name)
                    && !seen_keys.contains(o[k].key)
            &&& forall|x: KeyBinding| seen_keys.contains(x) ==> #[trigger] s.contains(x)
        }),
    decreases n,
{
    if n > 0 {
        lemma_merge_bindings(seen_keys, out, accepted, bindings, (n - 1) as nat);
        let (s, o) = merge_bindings(seen_keys, out, accepted, bindings, (n - 1) as nat);
        let b = bindings[n - 1];
        if accepted.contains(b.command.name) && !s.contains(b.key) {
            let o2 = o.push(b);
            let s2 = s.push(b.key);
            assert(o2.subrange(0, out.len() as int) =~= o.subrange(0, out.len() as int));
            assert forall|i: int, j: int| 0 <= i < j < o2.len() implies o2[i].key != o2[j].key by {
                if j == o.len() {
                    assert(s.contains(o[i].key));
                }
            }
            assert forall|i: int| 0 <= i < o2.len() implies s2.contains(#[trigger] o2[i].key) by {
                if i < o.len() {
                    let w = choose|w: int| 0 <= w < s.len() && s[w] == o[i].key;
                    assert(s2[w] == o[i].key);
                } else {
                    assert(s2[s.len() as int] == b.key);
                }
            }
            assert forall|x: KeyBinding| seen_keys.contains(x) implies #[trigger] s2.contains(x) by {
                assert(s.contains(x));
                let w = choose|w: int| 0 <= w < s.len() && s[w] == x;
                assert(s2[w] == x);
            }
        }
    }
}

/// Merging keeps a consistent set consistent: starting from an empty set with
/// nothing seen, however many plugins are merged, no two slash commands share a
/// name and no two key bindings share a key.
pub proof fn lemma_merge_keeps_names_and_keys_unique(
    set: ContributionSetModel,
    seen: Seq<Seq<char>>,
    seen_keys: Seq<KeyBinding>,
    c: ContributionSetModel,
)
    requires
        consistent(set, seen, seen_keys),
    ensures
        ({
            let (set2, seen2, keys2) = merged(set, seen, seen_keys, c);
            consistent(set2, seen2, keys2)
        }),
{
    lemma_merge_commands(seen, set.slash_commands, c.slash_commands, c.slash_commands.len());
    let (s1, cmds, acc) = merge_commands(
        seen,
        set.slash_commands,
        c.slash_commands,
        c.slash_commands.len(),
    );
    lemma_merge_bindings(seen_keys, set.key_bindings, acc, c.key_bindings, c.key_bindings.len());
}

/// What an earlier plugin contributed stays: merging another plugin only
/// appends, never replaces or removes, slash commands and key bindings; and a
/// command it appends has a name that no earlier plugin took.
pub proof fn lemma_merge_first_contribution_wins(
    set: ContributionSetModel,
    seen: Seq<Seq<char>>,
    seen_keys: Seq<KeyBinding>,
    c: ContributionSetModel,
)
    requires
        consistent(set, seen, seen_keys),
    ensures
        ({
            let (set2, seen2, keys2) = merged(set, seen, seen_keys, c);
            &&& set2.slash_commands.len() >= set.slash_commands.len()
            &&& set2.slash_commands.subrange(0, set.slash_commands.len() as int)
                == set.slash_commands
            &&& set2.key_bindings.len() >= set.key_bindings.len()
            &&& set2.key_bindings.subrange(0, set.key_bindings.len() as int) == set.key_bindings
            &&& forall|k: int|
                set.slash_commands.len() <= k < set2.slash_commands.len() ==> !seen.contains(
                    #[trigger] set2.slash_commands[k].name,
                )
            &&& forall|k: int|
                set.key_bindings.len() <= k < set2.key_bindings.len() ==> !seen_keys.contains(
                    #[trigger] set2.key_bindings[k].key,
                )
        }),
{
    lemma_merge_commands(seen, set.slash_commands, c.slash_commands, c.slash_commands.len());
    let (s1, cmds, acc) = merge_commands(
        seen,
        set.slash_commands,
        c.slash_commands,
        c.slash_commands.len(),
    );
    lemma_merge_bindings(seen_keys, set.key_bindings, acc, c.key_bindings, c.key_bindings.len());
    let (k2, binds) = merge_bindings(
        seen_keys,
        set.key_bindings,
        acc,
        c.key_bindings,
        c.key_bindings.len(),
    );
    let set2 = merged(set, seen, seen_keys, c).0;
    assert(set2.slash_commands == cmds);
    assert(set2.key_bindings == binds);
    assert forall|k: int|
        set.key_bindings.len() <= k < binds.len() implies !seen_keys.contains(
        #[trigger] binds[k].key,
    ) by {
        assert(acc.contains(binds[k].command.name));
    }
    assert forall|k: int|
        set.slash_commands.len() <= k < cmds.len() implies !seen.contains(
        #[trigger] cmds[k].name,
    ) by {
        let m = k - set.slash_commands.len();
        assert(acc[m] == cmds[set.slash_commands.len() + m].name);
    }
}

/// A key binding that a plugin adds points at a slash command that the same
/// plugin added in the same merge.
pub proof fn lemma_merge_bindings_use_own_commands(
    set: ContributionSetModel,
    seen: Seq<Seq<char>>,
    seen_keys: Seq<KeyBinding>,
    c: ContributionSetModel,
)
    requires
        consistent(set, seen, seen_keys),
    ensures
        ({
            let (set2, seen2, keys2) = merged(set, seen, seen_keys, c);
            forall|k: int|
                set.key_bindings.len() <= k < set2.key_bindings.len() ==> exists|j: int|
                    set.slash_commands.len() <= j < set2.slash_commands.len()
                        && #[trigger] set2.slash_commands[j].name
                        == (#[trigger] set2.key_bindings[k]).command.name
        }),
{
    lemma_merge_commands(seen, set.slash_commands, c.slash_commands, c.slash_commands.len());
    let (s1, cmds, acc) = merge_commands(
        seen,
        set.slash_commands,
        c.slash_commands,
        c.slash_commands.len(),
    );
    lemma_merge_bindings(seen_keys, set.key_bindings, acc, c.key_bindings, c.key_bindings.len());
    let (k2, binds) = merge_bindings(
        seen_keys,
        set.key_bindings,
        acc,
        c.key_bindings,
        c.key_bindings.len(),
    );
    let set2 = merged(set, seen, seen_keys, c).0;
    assert(set2.slash_commands == cmds);
    assert(set2.key_bindings == binds);
    assert forall|k: int| set.key_bindings.len() <= k < binds.len() implies exists|j: int|
        set.slash_commands.len() <= j < cmds.len() && #[trigger] cmds[j].name
            == (#[trigger] binds[k]).command.name by {
        let name = binds[k].command.name;
        assert(acc.contains(name));
        let m = choose|m: int| 0 <= m < acc.len() && acc[m] == name;
        assert(acc[m] == cmds[set.slash_commands.len() + m].name);
    }
}

} // verus!

verus! {

/// A later plugin wins every singleton setting that it makes (status line,
/// footer layout, theme, diff switch, splash banner, announcement tip); a
/// setting that it leaves unset keeps its earlier value.
pub proof fn lemma_merge_later_plugin_wins_singletons(
    set: ContributionSetModel,
    seen: Seq<Seq<char>>,
    seen_keys: Seq<KeyBinding>,
    c: ContributionSetModel,
)
    ensures
        ({
            let m = merged(set, seen, seen_keys, c).0;
            &&& m.changes.last_changed_file_diff == (if c.changes.last_changed_file_diff is Some {
                c.changes.last_changed_file_diff
            } else {
                set.changes.last_changed_file_diff
            })
            &&& m.startup.splash_banner == (if c.startup.splash_banner is Some {
                c.startup.splash_banner
            } else {
                set.startup.splash_banner
            })
            &&& m.startup.announcement_tip == (if c.startup.announcement_tip is Some {
                c.startup.announcement_tip
            } else {
                set.startup.announcement_tip
            })
            &&& m.footer_layout == (if c.footer_layout is Some {
                c.footer_layout
            } else {
                set.footer_layout
            })
            &&& m.status_line == (if c.status_line is Some {
                c.status_line
            } else {
                set.status_line
            })
            &&& m.theme == (if c.theme is Some {
                c.theme
            } else {
                set.theme
            })
        }),
{
}

proof fn lemma_merge_name_not_seen(
    seen: Seq<Seq<char>>,
    out: Seq<SlashCommandModel>,
    cmds: Seq<SlashCommandModel>,
    n: nat,
    x: Seq<char>,
)
    requires
        n <= cmds.len(),
        !seen.contains(x),
        forall|j: int| 0 <= j < n ==> (#[trigger] cmds[j]).name != x,
    ensures
        !merge_commands(seen, out, cmds, n).0.contains(x),
    decreases n,
{
    if n > 0 {
        lemma_merge_name_not_seen(seen, out, cmds, (n - 1) as nat, x);
        let s = merge_commands(seen, out, cmds, (n - 1) as nat).0;
        let c = cmds[n - 1];
        if !s.contains(c.name) {
            assert forall|k: int| 0 <= k < s.push(c.name).len() implies s.push(c.name)[k] != x by {
                if k < s.len() {
                    assert(s.push(c.name)[k] == s[k]);
                }
            }
        }
    }
}

proof fn lemma_merge_commands_grow(
    seen: Seq<Seq<char>>,
    out: Seq<SlashCommandModel>,
    cmds: Seq<SlashCommandModel>,
    m: nat,
    n: nat,
)
    requires
        m <= n <= cmds.len(),
    ensures
        ({
            let a = merge_commands(seen, out, cmds, m).1;
            let b = merge_commands(seen, out, cmds, n).1;
            &&& a.len() <= b.len()
            &&& forall|k: int| 0 <= k < a.len() ==> #[trigger] b[k] == a[k]
        }),
    decreases n,
{
    if m < n {
        lemma_merge_commands_grow(seen, out, cmds, m, (n - 1) as nat);
        let a = merge_commands(seen, out, cmds, m).1;
        let p = merge_commands(seen, out, cmds, (n - 1) as nat).1;
        let b = merge_commands(seen, out, cmds, n).1;
        assert forall|k: int| 0 <= k < a.len() implies #[trigger] b[k] == a[k] by {
            assert(p[k] == a[k]);
            if b != p {
                assert(b == p.push(cmds[n - 1]));
                assert(b[k] == p[k]);
            }
        }
    }
}

/// A slash command of a later plugin is added when no earlier plugin took its
/// name and no command before it in the same contribution has that name.
pub proof fn lemma_merge_adds_untaken_command(
    set: ContributionSetModel,
    seen: Seq<Seq<char>>,
    seen_keys: Seq<KeyBinding>,
    c: ContributionSetModel,
    i: int,
)
    requires
        0 <= i < c.slash_commands.len(),
        !seen.contains(c.slash_commands[i].name),
        forall|j: int| 0 <= j < i ==> (#[trigger] c.slash_commands[j]).name != c.slash_commands[i].name,
    ensures
        merged(set, seen, seen_keys, c).0.slash_commands.contains(c.slash_commands[i]),
{
    let cmds = c.slash_commands;
    let x = cmds[i].name;
    lemma_merge_name_not_seen(seen, set.slash_commands, cmds, i as nat, x);
    let before = merge_commands(seen, set.slash_commands, cmds, i as nat).1;
    let after = merge_commands(seen, set.slash_commands, cmds, (i + 1) as nat).1;
    assert(after == before.push(cmds[i]));
    lemma_merge_commands_grow(seen, set.slash_commands, cmds, (i + 1) as nat, cmds.len());
    let all = merged(set, seen, seen_keys, c).0.slash_commands;
    assert(all == merge_commands(seen, set.slash_commands, cmds, cmds.len()).1);
    assert(all[before.len() as int] == after[before.len() as int]);
    assert(all[before.len() as int] == cmds[i]);
}

/// Whether `after` adds to `before` a command named `name`.
pub open spec fn adds_command_named(
    before: Seq<SlashCommandModel>,
    after: Seq<SlashCommandModel>,
    name: Seq<char>,
) -> bool {
    exists|k: int| before.len() <= k < after.len() && (#[trigger] after[k]).name == name
}

proof fn lemma_merge_key_not_seen(
    seen_keys: Seq<KeyBinding>,
    out: Seq<KeyBindingModel>,
    accepted: Seq<Seq<char>>,
    bindings: Seq<KeyBindingModel>,
    n: nat,
    x: KeyBinding,
)
    requires
        n <= bindings.len(),
        !seen_keys.contains(x),
        forall|j: int|
            0 <= j < n ==> (#[trigger] bindings[j]).key == x ==> !accepted.contains(
                bindings[j].command.name,
            ),
    ensures
        !merge_bindings(seen_keys, out, accepted, bindings, n).0.contains(x),
    decreases n,
{
    if n > 0 {
        lemma_merge_key_not_seen(seen_keys, out, accepted, bindings, (n - 1) as nat, x);
        let s = merge_bindings(seen_keys, out, accepted, bindings, (n - 1) as nat).0;
        let b = bindings[n - 1];
        if accepted.contains(b.command.name) && !s.contains(b.key) {
            assert(b.key != x);
            assert forall|k: int| 0 <= k < s.push(b.key).len() implies s.push(b.key)[k] != x by {
                if k < s.len() {
                    assert(s.push(b.key)[k] == s[k]);
                }
            }
        }
    }
}

proof fn lemma_merge_bindings_grow(
    seen_keys: Seq<KeyBinding>,
    out: Seq<KeyBindingModel>,
    accepted: Seq<Seq<char>>,
    bindings: Seq<KeyBindingModel>,
    m: nat,
    n: nat,
)
    requires
        m <= n <= bindings.len(),
    ensures
        ({
            let a = merge_bindings(seen_keys, out, accepted, bindings, m).1;
            let b = merge_bindings(seen_keys, out, accepted, bindings, n).1;
            &&& a.len() <= b.len()
            &&& forall|k: int| 0 <= k < a.len() ==> #[trigger] b[k] == a[k]
        }),
    decreases n,
{
    if m < n {
        lemma_merge_bindings_grow(seen_keys, out, accepted, bindings, m, (n - 1) as nat);
        let a = merge_bindings(seen_keys, out, accepted, bindings, m).1;
        let p = merge_bindings(seen_keys, out, accepted, bindings, (n - 1) as nat).1;
        let b = merge_bindings(seen_keys, out, accepted, bindings, n).1;
        assert forall|k: int| 0 <= k < a.len() implies #[trigger] b[k] == a[k] by {
            assert(p[k] == a[k]);
            if b != p {
                assert(b == p.push(bindings[n - 1]));
                assert(b[k] == p[k]);
            }
        }
    }
}

/// A key binding of a later plugin is added when its command is one that the
/// same merge added, no earlier plugin took its key, and no binding before it
/// in the same contribution took that key for a command that the merge added.
pub proof fn lemma_merge_adds_untaken_binding(
    set: ContributionSetModel,
    seen: Seq<Seq<char>>,
    seen_keys: Seq<KeyBinding>,
    c: ContributionSetModel,
    i: int,
)
    requires
        consistent(set, seen, seen_keys),
        0 <= i < c.key_bindings.len(),
        adds_command_named(
            set.slash_commands,
            merged(set, seen, seen_keys, c).0.slash_commands,
            c.key_bindings[i].command.name,
        ),
        !seen_keys.contains(c.key_bindings[i].key),
        forall|j: int|
            0 <= j < i ==> (#[trigger] c.key_bindings[j]).key == c.key_bindings[i].key
                ==> !adds_command_named(
                set.slash_commands,
                merged(set, seen, seen_keys, c).0.slash_commands,
                c.key_bindings[j].command.name,
            ),
    ensures
        merged(set, seen, seen_keys, c).0.key_bindings.contains(c.key_bindings[i]),
{
    lemma_merge_commands(seen, set.slash_commands, c.slash_commands, c.slash_commands.len());
    let (s1, cmds, acc) = merge_commands(
        seen,
        set.slash_commands,
        c.slash_commands,
        c.slash_commands.len(),
    );
    let n0 = set.slash_commands.len() as int;
    assert(merged(set, seen, seen_keys, c).0.slash_commands == cmds);
    assert forall|name: Seq<char>| adds_command_named(set.slash_commands, cmds, name) <==> acc.contains(
        name,
    ) by {
        if adds_command_named(set.slash_commands, cmds, name) {
            let k = choose|k: int| n0 <= k < cmds.len() && (#[trigger] cmds[k]).name == name;
            assert(acc[k - n0] == cmds[n0 + (k - n0)].name);
        }
        if acc.contains(name) {
            let m = choose|m: int| 0 <= m < acc.len() && acc[m] == name;
            assert(acc[m] == cmds[n0 + m].name);
        }
    }
    let bs = c.key_bindings;
    let b = bs[i];
    assert(acc.contains(b.command.name));
    assert forall|j: int| 0 <= j < i implies (#[trigger] bs[j]).key == b.key ==> !acc.contains(
        bs[j].command.name,
    ) by {
        if bs[j].key == b.key {
            assert(!adds_command_named(set.slash_commands, cmds, bs[j].command.name));
        }
    }
    lemma_merge_key_not_seen(seen_keys, set.key_bindings, acc, bs, i as nat, b.key);
    let before = merge_bindings(seen_keys, set.key_bindings, acc, bs, i as nat).1;
    let after = merge_bindings(seen_keys, set.key_bindings, acc, bs, (i + 1) as nat).1;
    assert(after == before.push(b));
    lemma_merge_bindings_grow(seen_keys, set.key_bindings, acc, bs, (i + 1) as nat, bs.len());
    let all = merged(set, seen, seen_keys, c).0.key_bindings;
    assert(all == merge_bindings(seen_keys, set.key_bindings, acc, bs, bs.len()).1);
    assert(all[before.len() as int] == after[before.len() as int]);
    assert(all[before.len() as int] == b);
}

} // verus!
