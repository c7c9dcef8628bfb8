//! The values that plugins contribute to the TUI, their models, and the small
//! queries and updates on them.

use vstd::prelude::*;

verus! {

/// The name of the generated syntax theme when a plugin asks for Ghostty colors
/// without naming the theme.
pub const DEFAULT_GHOSTTY_SYNC_THEME_NAME: &'static str = "ghostty-sync";

#[derive(Clone, Copy, Debug, PartialEq, Eq, Structural)]
pub enum FooterLayoutPreset {
    Default,
    Minimal,
}

impl Default for FooterLayoutPreset {
    fn default() -> (r: Self)
        ensures
            r == FooterLayoutPreset::Default,
    {
        FooterLayoutPreset::Default
    }
}

#[derive(Clone, Copy, Debug, PartialEq, Eq, Structural)]
pub enum StartupElementVisibility {
    Visible,
    Hidden,
}

impl StartupElementVisibility {
    pub fn is_visible(self) -> (r: bool)
        ensures
            r == (self == StartupElementVisibility::Visible),
    {
        match self {
            StartupElementVisibility::Visible => true,
            StartupElementVisibility::Hidden => false,
        }
    }
}

#[derive(Clone, Copy, Debug, PartialEq, Eq, Structural)]
pub enum LastChangedFileDiffVisibility {
    Visible,
    Hidden,
}

impl LastChangedFileDiffVisibility {
    pub fn is_visible(self) -> (r: bool)
        ensures
            r == (self == LastChangedFileDiffVisibility::Visible),
    {
        match self {
            LastChangedFileDiffVisibility::Visible => true,
            LastChangedFileDiffVisibility::Hidden => false,
        }
    }
}

#[derive(Clone, Copy, Debug, PartialEq, Eq, Structural)]
pub enum PluginTerminalCommandResult {
    /// Show what the command printed.
    Plain,
    ResumeThread,
}

impl Default for PluginTerminalCommandResult {
    fn default() -> (r: Self)
        ensures
            r == PluginTerminalCommandResult::Plain,
    {
        PluginTerminalCommandResult::Plain
    }
}

#[derive(Clone, Copy, Debug, PartialEq, Eq, Structural)]
pub enum PluginThemeSource {
    Ghostty,
}

/// A key chord, identified by plain values: the key and its modifier bits.
/// Two bindings are the same key exactly when both fields agree.
#[derive(Clone, Copy, Debug, PartialEq, Eq, Hash, Structural)]
pub struct KeyBinding {
    pub key: u32,
    pub modifiers: u8,
}

#[derive(Clone, Debug, PartialEq, Eq)]
pub struct PluginTerminalCommand {
    pub plugin_id: String,
    /// The program to run: as the plugin wrote it, or joined to the plugin's root.
    pub command: String,
    pub args: Vec<String>,
    pub result: PluginTerminalCommandResult,
}

#[derive(Clone, Debug, PartialEq, Eq)]
pub enum PluginSlashCommandAction {
    SubmitPrompt(String),
    TerminalCommand(PluginTerminalCommand),
}

#[derive(Clone, Debug, PartialEq, Eq)]
pub struct PluginSlashCommand {
    pub plugin_id: String,
    pub name: String,
    pub description: String,
    pub action: PluginSlashCommandAction,
}

#[derive(Clone, Debug, PartialEq, Eq)]
pub struct PluginKeyBinding {
    pub plugin_id: String,
    pub key: KeyBinding,
    pub command: PluginSlashCommand,
}

#[derive(Clone, Debug, PartialEq, Eq)]
pub struct PluginThemeContribution {
    pub source: PluginThemeSource,
    pub name: String,
}

#[derive(Clone, Copy, Debug, Default, PartialEq, Eq, Structural)]
pub struct ChangeUiContribution {
    pub last_changed_file_diff: Option<LastChangedFileDiffVisibility>,
}

#[derive(Clone, Copy, Debug, Default, PartialEq, Eq, Structural)]
pub struct StartupUiContribution {
    pub splash_banner: Option<StartupElementVisibility>,
    pub announcement_tip: Option<StartupElementVisibility>,
}

#[derive(Clone, Debug, Default, PartialEq, Eq)]
pub struct TuiContributionSet {
    pub status_line: Option<Vec<String>>,
    pub footer_layout: Option<FooterLayoutPreset>,
    pub theme: Option<PluginThemeContribution>,
    pub changes: ChangeUiContribution,
    pub startup: StartupUiContribution,
    pub slash_commands: Vec<PluginSlashCommand>,
    pub key_bindings: Vec<PluginKeyBinding>,
}

/// The settings of the TUI's configuration that plugin contributions change.
#[derive(Clone, Debug, Default, PartialEq, Eq)]
pub struct TuiConfig {
    pub tui_status_line: Option<Vec<String>>,
    pub tui_theme: Option<String>,
}

// ---------------------------------------------------------------------
// Models
// ---------------------------------------------------------------------

pub open spec fn strings_view(v: Seq<String>) -> Seq<Seq<char>> {
    v.map_values(|s: String| s@)
}

pub open spec fn opt_string_view(o: Option<String>) -> Option<Seq<char>> {
    match o {
        Some(s) => Some(s@),
        None => None,
    }
}

pub struct TerminalCommandModel {
    pub plugin_id: Seq<char>,
    pub command: Seq<char>,
    pub args: Seq<Seq<char>>,
    pub result: PluginTerminalCommandResult,
}

pub enum ActionModel {
    SubmitPrompt(Seq<char>),
    TerminalCommand(TerminalCommandModel),
}

pub struct SlashCommandModel {
    pub plugin_id: Seq<char>,
    pub name: Seq<char>,
    pub description: Seq<char>,
    pub action: ActionModel,
}

pub struct KeyBindingModel {
    pub plugin_id: Seq<char>,
    pub key: KeyBinding,
    pub command: SlashCommandModel,
}

pub struct ThemeModel {
    pub source: PluginThemeSource,
    pub name: Seq<char>,
}

pub struct ContributionSetModel {
    pub status_line: Option<Seq<Seq<char>>>,
    pub footer_layout: Option<FooterLayoutPreset>,
    pub theme: Option<ThemeModel>,
    pub changes: ChangeUiContribution,
    pub startup: StartupUiContribution,
    pub slash_commands: Seq<SlashCommandModel>,
    pub key_bindings: Seq<KeyBindingModel>,
}

pub struct TuiConfigModel {
    pub tui_status_line: Option<Seq<Seq<char>>>,
    pub tui_theme: Option<Seq<char>>,
}

impl View for PluginTerminalCommand {
    type V = TerminalCommandModel;

    open spec fn view(&self) -> TerminalCommandModel {
        TerminalCommandModel {
            plugin_id: self.plugin_id@,
            command: self.command@,
            args: strings_view(self.args@),
            result: self.result,
        }
    }
}

impl View for PluginSlashCommandAction {
    type V = ActionModel;

    open spec fn view(&self) -> ActionModel {
        match self {
            PluginSlashCommandAction::SubmitPrompt(p) => ActionModel::SubmitPrompt(p@),
            PluginSlashCommandAction::TerminalCommand(t) => ActionModel::TerminalCommand(t@),
        }
    }
}

impl View for PluginSlashCommand {
    type V = SlashCommandModel;

    open spec fn view(&self) -> SlashCommandModel {
        SlashCommandModel {
            plugin_id: self.plugin_id@,
            name: self.name@,
            description: self.description@,
            action: self.action@,
        }
    }
}

impl View for PluginKeyBinding {
    type V = KeyBindingModel;

    open spec fn view(&self) -> KeyBindingModel {
        KeyBindingModel { plugin_id: self.plugin_id@, key: self.key, command: self.command@ }
    }
}

impl View for PluginThemeContribution {
    type V = ThemeModel;

    open spec fn view(&self) -> ThemeModel {
        ThemeModel { source: self.source, name: self.name@ }
    }
}

pub open spec fn commands_view(v: Seq<PluginSlashCommand>) -> Seq<SlashCommandModel> {
    v.map_values(|c: PluginSlashCommand| c@)
}

pub open spec fn bindings_view(v: Seq<PluginKeyBinding>) -> Seq<KeyBindingModel> {
    v.map_values(|b: PluginKeyBinding| b@)
}

pub open spec fn opt_strings_view(o: Option<Vec<String>>) -> Option<Seq<Seq<char>>> {
    match o {
        Some(v) => Some(strings_view(v@)),
        None => None,
    }
}

pub open spec fn opt_theme_view(o: Option<PluginThemeContribution>) -> Option<ThemeModel> {
    match o {
        Some(t) => Some(t@),
        None => None,
    }
}

impl View for TuiContributionSet {
    type V = ContributionSetModel;

    open spec fn view(&self) -> ContributionSetModel {
        ContributionSetModel {
            status_line: opt_strings_view(self.status_line),
            footer_layout: self.footer_layout,
            theme: opt_theme_view(self.theme),
            changes: self.changes,
            startup: self.startup,
            slash_commands: commands_view(self.slash_commands@),
            key_bindings: bindings_view(self.key_bindings@),
        }
    }
}

impl View for TuiConfig {
    type V = TuiConfigModel;

    open spec fn view(&self) -> TuiConfigModel {
        TuiConfigModel {
            tui_status_line: opt_strings_view(self.tui_status_line),
            tui_theme: opt_string_view(self.tui_theme),
        }
    }
}

// ---------------------------------------------------------------------
// Copies with their contents stated
// ---------------------------------------------------------------------

/// A copy of `v`, string by string.
pub fn copy_strings(v: &Vec<String>) -> (r: Vec<String>)
    ensures
        strings_view(r@) == strings_view(v@),
{
    let mut r: Vec<String> = Vec::new();
    let mut i: usize = 0;
    while i < v.len()
        invariant
            i <= v.len(),
            strings_view(r@) == strings_view(v@).take(i as int),
        decreases v.len() - i,
    {
        let ghost old_r = r@;
        let c = v[i].clone();
        r.push(c);
        assert(strings_view(r@) =~= strings_view(old_r).push(c@));
        assert(strings_view(v@).take(i + 1) =~= strings_view(v@).take(i as int).push(v@[i as int]@));
        i += 1;
    }
    assert(strings_view(v@).take(v.len() as int) =~= strings_view(v@));
    r
}

impl PluginTerminalCommand {
    pub fn duplicate(&self) -> (r: Self)
        ensures
            r@ == self@,
    {
        PluginTerminalCommand {
            plugin_id: self.plugin_id.clone(),
            command: self.command.clone(),
            args: copy_strings(&self.args),
            result: self.result,
        }
    }
}

impl PluginSlashCommandAction {
    pub fn duplicate(&self) -> (r: Self)
        ensures
            r@ == self@,
    {
        match self {
            PluginSlashCommandAction::SubmitPrompt(p) => PluginSlashCommandAction::SubmitPrompt(
                p.clone(),
            ),
            PluginSlashCommandAction::TerminalCommand(t) => PluginSlashCommandAction::TerminalCommand(
                t.duplicate(),
            ),
        }
    }
}

impl PluginSlashCommand {
    pub fn duplicate(&self) -> (r: Self)
        ensures
            r@ == self@,
    {
        PluginSlashCommand {
            plugin_id: self.plugin_id.clone(),
            name: self.name.clone(),
            description: self.description.clone(),
            action: self.action.duplicate(),
        }
    }
}

// ---------------------------------------------------------------------
// Queries and updates
// ---------------------------------------------------------------------

impl ChangeUiContribution {
    /// A setting that `contribution` makes replaces this one; one it leaves unset does not.
    pub fn merge_from(&mut self, contribution: Self)
        ensures
            final(self).last_changed_file_diff == (if contribution.last_changed_file_diff is Some {
                contribution.last_changed_file_diff
            } else {
                old(self).last_changed_file_diff
            }),
    {
        if contribution.last_changed_file_diff.is_some() {
            self.last_changed_file_diff = contribution.last_changed_file_diff;
        }
    }
}

impl StartupUiContribution {
    /// A setting that `contribution` makes replaces this one; one it leaves unset does not.
    pub fn merge_from(&mut self, contribution: Self)
        ensures
            final(self).splash_banner == (if contribution.splash_banner is Some {
                contribution.splash_banner
            } else {
                old(self).splash_banner
            }),
            final(self).announcement_tip == (if contribution.announcement_tip is Some {
                contribution.announcement_tip
            } else {
                old(self).announcement_tip
            }),
    {
        if contribution.splash_banner.is_some() {
            self.splash_banner = contribution.splash_banner;
        }
        if contribution.announcement_tip.is_some() {
            self.announcement_tip = contribution.announcement_tip;
        }
    }
}

impl TuiContributionSet {
    /// A contributed status line replaces the configured one; without one the
    /// configuration is left as it was.
    pub fn apply_to_config(&self, config: &mut TuiConfig)
        ensures
            final(config)@.tui_status_line == (if self.status_line is Some {
                opt_strings_view(self.status_line)
            } else {
                old(config)@.tui_status_line
            }),
            final(config).tui_theme == old(config).tui_theme,
    {
        if let Some(status_line) = &self.status_line {
            config.tui_status_line = Some(copy_strings(status_line));
        }
    }

    /// The splash banner shows unless a plugin hid it.
    pub fn show_splash_banner(&self) -> (r: bool)
        ensures
            r == (self.startup.splash_banner != Some(StartupElementVisibility::Hidden)),
    {
        match self.startup.splash_banner {
            None => true,
            Some(v) => v.is_visible(),
        }
    }

    /// The announcement tip shows unless a plugin hid it.
    pub fn show_announcement_tip(&self) -> (r: bool)
        ensures
            r == (self.startup.announcement_tip != Some(StartupElementVisibility::Hidden)),
    {
        match self.startup.announcement_tip {
            None => true,
            Some(v) => v.is_visible(),
        }
    }

    /// The last changed file's diff shows only when a plugin asked for it.
    pub fn show_last_changed_file_diff(&self) -> (r: bool)
        ensures
            r == (self.changes.last_changed_file_diff == Some(
                LastChangedFileDiffVisibility::Visible,
            )),
    {
        match self.changes.last_changed_file_diff {
            None => false,
            Some(v) => v.is_visible(),
        }
    }
}

} // verus!
