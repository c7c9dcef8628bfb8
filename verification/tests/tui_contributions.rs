use codex_tui::contribution::{
    ChangeUiContribution, FooterLayoutPreset, KeyBinding, LastChangedFileDiffVisibility,
    PluginKeyBinding, PluginSlashCommand, PluginSlashCommandAction, PluginTerminalCommandResult,
    PluginThemeContribution, PluginThemeSource, StartupElementVisibility, StartupUiContribution,
    TuiConfig, TuiContributionSet, DEFAULT_GHOSTTY_SYNC_THEME_NAME,
};
use codex_tui::normalize::{
    normalize_key_binding_spec, normalize_plugin_key_bindings,
    normalize_plugin_slash_command_description, normalize_plugin_slash_command_name,
    normalize_status_line, normalize_submit_prompt, normalize_terminal_command,
    normalize_theme_name, normalize_tui_contribution, RawPluginKeyBinding,
    RawPluginTerminalCommand, RawStartupUiContribution, RawTuiContribution, RawTuiLayout,
    RawTuiSlashCommand, RawTuiThemeContribution,
};

fn builtins() -> Vec<String> {
    ["model", "approvals", "review", "new", "init", "compact", "diff", "status", "mcp", "quit"]
        .iter()
        .map(|s| s.to_string())
        .collect()
}

fn prompt_command(plugin_id: &str, name: &str, description: &str, prompt: &str) -> PluginSlashCommand {
    PluginSlashCommand {
        plugin_id: plugin_id.to_string(),
        name: name.to_string(),
        description: description.to_string(),
        action: PluginSlashCommandAction::SubmitPrompt(prompt.to_string()),
    }
}

fn raw_prompt(name: &str, description: Option<&str>, prompt: &str) -> RawTuiSlashCommand {
    RawTuiSlashCommand {
        name: name.to_string(),
        description: description.map(str::to_string),
        submit_prompt: Some(prompt.to_string()),
        terminal_command: None,
    }
}

fn parse(raw: RawTuiContribution) -> TuiContributionSet {
    let keys = vec![None; raw.key_bindings.len()];
    normalize_tui_contribution("demo@test", "Demo", "/plugins/demo", raw, &builtins(), &keys)
}

#[test]
fn parses_status_line_layout_and_prompt_commands() {
    let contribution = parse(RawTuiContribution {
        status_line: Some(vec![
            " model-with-reasoning ".to_string(),
            "".to_string(),
            "current-dir".to_string(),
        ]),
        layout: Some(RawTuiLayout { footer: Some(FooterLayoutPreset::Minimal) }),
        theme: Some(RawTuiThemeContribution { source: Some(PluginThemeSource::Ghostty), name: None }),
        startup: Some(RawStartupUiContribution {
            splash_banner: Some(StartupElementVisibility::Hidden),
            announcement_tip: Some(StartupElementVisibility::Hidden),
        }),
        slash_commands: vec![raw_prompt(
            "/PiPlan",
            Some("  Plan   with project context  "),
            "Make a plan before editing.",
        )],
        ..Default::default()
    });

    assert_eq!(
        contribution,
        TuiContributionSet {
            status_line: Some(vec![
                "model-with-reasoning".to_string(),
                "current-dir".to_string(),
            ]),
            footer_layout: Some(FooterLayoutPreset::Minimal),
            theme: Some(PluginThemeContribution {
                source: PluginThemeSource::Ghostty,
                name: DEFAULT_GHOSTTY_SYNC_THEME_NAME.to_string(),
            }),
            changes: ChangeUiContribution::default(),
            startup: StartupUiContribution {
                splash_banner: Some(StartupElementVisibility::Hidden),
                announcement_tip: Some(StartupElementVisibility::Hidden),
            },
            slash_commands: vec![prompt_command(
                "demo@test",
                "piplan",
                "Plan with project context",
                "Make a plan before editing.",
            )],
            key_bindings: vec![],
        }
    );
}

#[test]
fn ignores_commands_that_conflict_or_would_run_shell() {
    let contribution = parse(RawTuiContribution {
        slash_commands: vec![
            raw_prompt("model", None, "This conflicts with a built-in."),
            raw_prompt("local", None, "!rm -rf target"),
            raw_prompt("ok", None, "Explain the current diff."),
        ],
        ..Default::default()
    });

    assert_eq!(
        contribution.slash_commands,
        vec![prompt_command("demo@test", "ok", "Run a Demo plugin prompt", "Explain the current diff.")]
    );
}

#[test]
fn parses_custom_theme_name() {
    let contribution = parse(RawTuiContribution {
        theme: Some(RawTuiThemeContribution {
            source: Some(PluginThemeSource::Ghostty),
            name: Some("my-ghostty-sync".to_string()),
        }),
        ..Default::default()
    });

    assert_eq!(
        contribution.theme,
        Some(PluginThemeContribution {
            source: PluginThemeSource::Ghostty,
            name: "my-ghostty-sync".to_string(),
        })
    );
}

#[test]
fn merge_keeps_first_duplicate_command_and_last_singleton_layout_and_theme() {
    let first = TuiContributionSet {
        status_line: Some(vec!["model-name".to_string()]),
        footer_layout: None,
        theme: Some(PluginThemeContribution {
            source: PluginThemeSource::Ghostty,
            name: "first-theme".to_string(),
        }),
        startup: StartupUiContribution {
            splash_banner: Some(StartupElementVisibility::Hidden),
            announcement_tip: None,
        },
        slash_commands: vec![prompt_command("alpha@test", "plan-extra", "First", "First prompt")],
        ..Default::default()
    };
    let second = TuiContributionSet {
        status_line: Some(vec!["current-dir".to_string()]),
        footer_layout: Some(FooterLayoutPreset::Minimal),
        theme: Some(PluginThemeContribution {
            source: PluginThemeSource::Ghostty,
            name: "second-theme".to_string(),
        }),
        startup: StartupUiContribution {
            splash_banner: Some(StartupElementVisibility::Visible),
            announcement_tip: Some(StartupElementVisibility::Hidden),
        },
        slash_commands: vec![prompt_command("beta@test", "plan-extra", "Second", "Second prompt")],
        ..Default::default()
    };

    let mut merged = TuiContributionSet::default();
    let mut seen = Vec::new();
    let mut seen_keys = Vec::new();
    merged.merge_from_plugin(first, &mut seen, &mut seen_keys);
    merged.merge_from_plugin(second, &mut seen, &mut seen_keys);

    assert_eq!(
        merged,
        TuiContributionSet {
            status_line: Some(vec!["current-dir".to_string()]),
            footer_layout: Some(FooterLayoutPreset::Minimal),
            theme: Some(PluginThemeContribution {
                source: PluginThemeSource::Ghostty,
                name: "second-theme".to_string(),
            }),
            startup: StartupUiContribution {
                splash_banner: Some(StartupElementVisibility::Visible),
                announcement_tip: Some(StartupElementVisibility::Hidden),
            },
            slash_commands: vec![prompt_command("alpha@test", "plan-extra", "First", "First prompt")],
            ..Default::default()
        }
    );
}

#[test]
fn merge_keeps_first_key_binding_and_drops_bindings_of_refused_commands() {
    let ctrl_p = KeyBinding { key: 'p' as u32, modifiers: 2 };
    let ctrl_q = KeyBinding { key: 'q' as u32, modifiers: 2 };
    let first_cmd = prompt_command("alpha@test", "plan", "First", "First prompt");
    let first = TuiContributionSet {
        slash_commands: vec![first_cmd.clone()],
        key_bindings: vec![PluginKeyBinding {
            plugin_id: "alpha@test".to_string(),
            key: ctrl_p,
            command: first_cmd.clone(),
        }],
        ..Default::default()
    };
    let second_plan = prompt_command("beta@test", "plan", "Second", "Second prompt");
    let second_other = prompt_command("beta@test", "other", "Other", "Other prompt");
    let second = TuiContributionSet {
        slash_commands: vec![second_plan.clone(), second_other.clone()],
        key_bindings: vec![
            // Its command lost to the first plugin's `plan`.
            PluginKeyBinding { plugin_id: "beta@test".to_string(), key: ctrl_q, command: second_plan },
            // Its key is taken already.
            PluginKeyBinding {
                plugin_id: "beta@test".to_string(),
                key: ctrl_p,
                command: second_other.clone(),
            },
            PluginKeyBinding {
                plugin_id: "beta@test".to_string(),
                key: ctrl_q,
                command: second_other.clone(),
            },
        ],
        ..Default::default()
    };
    let mut merged = TuiContributionSet::default();
    let mut seen = Vec::new();
    let mut seen_keys = Vec::new();
    merged.merge_from_plugin(first, &mut seen, &mut seen_keys);
    merged.merge_from_plugin(second, &mut seen, &mut seen_keys);

    assert_eq!(merged.slash_commands, vec![first_cmd.clone(), second_other.clone()]);
    assert_eq!(
        merged.key_bindings,
        vec![
            PluginKeyBinding { plugin_id: "alpha@test".to_string(), key: ctrl_p, command: first_cmd },
            PluginKeyBinding { plugin_id: "beta@test".to_string(), key: ctrl_q, command: second_other },
        ]
    );
    assert_eq!(seen, vec!["plan".to_string(), "other".to_string()]);
    assert_eq!(seen_keys, vec![ctrl_p, ctrl_q]);
}

#[test]
fn startup_and_diff_visibility_defaults() {
    let mut set = TuiContributionSet::default();
    assert!(set.show_splash_banner());
    assert!(set.show_announcement_tip());
    assert!(!set.show_last_changed_file_diff());
    set.startup.splash_banner = Some(StartupElementVisibility::Hidden);
    set.startup.announcement_tip = Some(StartupElementVisibility::Visible);
    set.changes.last_changed_file_diff = Some(LastChangedFileDiffVisibility::Visible);
    assert!(!set.show_splash_banner());
    assert!(set.show_announcement_tip());
    assert!(set.show_last_changed_file_diff());
    set.changes.last_changed_file_diff = Some(LastChangedFileDiffVisibility::Hidden);
    assert!(!set.show_last_changed_file_diff());
}

#[test]
fn apply_to_config_sets_only_a_contributed_status_line() {
    let mut config = TuiConfig {
        tui_status_line: Some(vec!["model-name".to_string()]),
        tui_theme: Some("dark".to_string()),
    };
    TuiContributionSet::default().apply_to_config(&mut config);
    assert_eq!(config.tui_status_line, Some(vec!["model-name".to_string()]));
    let set = TuiContributionSet {
        status_line: Some(vec!["current-dir".to_string()]),
        ..Default::default()
    };
    set.apply_to_config(&mut config);
    assert_eq!(config.tui_status_line, Some(vec!["current-dir".to_string()]));
    assert_eq!(config.tui_theme, Some("dark".to_string()));
}

#[test]
fn slash_command_names_are_trimmed_unslashed_and_lower_cased() {
    assert_eq!(normalize_plugin_slash_command_name("  /Plan_Extra-2 "), Some("plan_extra-2".to_string()));
    assert_eq!(normalize_plugin_slash_command_name("/"), None);
    assert_eq!(normalize_plugin_slash_command_name("//plan"), None);
    assert_eq!(normalize_plugin_slash_command_name("plan now"), None);
    assert_eq!(normalize_plugin_slash_command_name(&"a".repeat(40)), Some("a".repeat(40)));
    assert_eq!(normalize_plugin_slash_command_name(&"a".repeat(41)), None);
    assert_eq!(normalize_plugin_slash_command_name("plän"), None);
}

#[test]
fn theme_names_keep_case_and_length_rules() {
    assert_eq!(normalize_theme_name(" my_theme-1 "), Some("my_theme-1".to_string()));
    assert_eq!(normalize_theme_name("MyTheme"), None);
    assert_eq!(normalize_theme_name("   "), None);
    assert_eq!(normalize_theme_name(&"t".repeat(80)), Some("t".repeat(80)));
    assert_eq!(normalize_theme_name(&"t".repeat(81)), None);
}

#[test]
fn invalid_theme_name_falls_back_to_default_and_missing_source_drops_theme() {
    let with_bad_name = parse(RawTuiContribution {
        theme: Some(RawTuiThemeContribution {
            source: Some(PluginThemeSource::Ghostty),
            name: Some("Bad Name".to_string()),
        }),
        ..Default::default()
    });
    assert_eq!(with_bad_name.theme.map(|t| t.name), Some("ghostty-sync".to_string()));
    let without_source = parse(RawTuiContribution {
        theme: Some(RawTuiThemeContribution { source: None, name: Some("x".to_string()) }),
        ..Default::default()
    });
    assert_eq!(without_source.theme, None);
}

#[test]
fn status_line_keeps_at_most_32_valid_items() {
    let mut items: Vec<String> = (0..40).map(|i| format!(" item-{i} ")).collect();
    items.insert(0, "x".repeat(65));
    items.insert(1, "   ".to_string());
    let normalized = normalize_status_line(items);
    assert_eq!(normalized.len(), 32);
    assert_eq!(normalized[0], "item-0");
    assert_eq!(normalized[31], "item-31");
    assert_eq!(normalize_status_line(vec!["y".repeat(64)]), vec!["y".repeat(64)]);
}

#[test]
fn descriptions_collapse_whitespace_and_respect_length() {
    assert_eq!(
        normalize_plugin_slash_command_description("\t a \n\n b\u{3000}c "),
        Some("a b c".to_string())
    );
    assert_eq!(normalize_plugin_slash_command_description(" \n "), None);
    assert_eq!(normalize_plugin_slash_command_description(&"d".repeat(160)), Some("d".repeat(160)));
    assert_eq!(normalize_plugin_slash_command_description(&"d".repeat(161)), None);
}

#[test]
fn prompts_are_trimmed_and_refuse_shell_escapes() {
    assert_eq!(normalize_submit_prompt(Some("  hello  ")), Some("hello".to_string()));
    assert_eq!(normalize_submit_prompt(Some("  !ls")), None);
    assert_eq!(normalize_submit_prompt(Some("   ")), None);
    assert_eq!(normalize_submit_prompt(None), None);
    assert_eq!(normalize_submit_prompt(Some(&"p".repeat(4000))), Some("p".repeat(4000)));
    assert_eq!(normalize_submit_prompt(Some(&"p".repeat(4001))), None);
}

fn terminal(command: &str, args: Vec<&str>) -> RawPluginTerminalCommand {
    RawPluginTerminalCommand {
        command: Some(command.to_string()),
        args: args.into_iter().map(str::to_string).collect(),
        result: PluginTerminalCommandResult::ResumeThread,
    }
}

#[test]
fn terminal_commands_resolve_relative_paths_inside_the_plugin() {
    let cmd = |c: &str| {
        normalize_terminal_command("demo@test", "/plugins/demo", terminal(c, vec![]))
            .map(|t| t.command)
    };
    assert_eq!(cmd(" ./bin/run "), Some("/plugins/demo/./bin/run".to_string()));
    assert_eq!(cmd("bin/run"), Some("/plugins/demo/bin/run".to_string()));
    assert_eq!(cmd("./run"), Some("/plugins/demo/./run".to_string()));
    assert_eq!(cmd("run"), Some("run".to_string()));
    assert_eq!(cmd("run/"), Some("run/".to_string()));
    assert_eq!(cmd("/usr/bin/run"), Some("/usr/bin/run".to_string()));
    assert_eq!(cmd(""), None);
    assert_eq!(cmd("a\0b"), None);
    assert_eq!(
        normalize_terminal_command("demo@test", "/plugins/demo/", terminal("bin/x", vec![]))
            .map(|t| t.command),
        Some("/plugins/demo/bin/x".to_string())
    );
}

#[test]
fn terminal_command_arguments_are_capped_and_filtered() {
    let long = "a".repeat(513);
    let mut args: Vec<&str> = vec!["ok", "bad\0arg", &long];
    let many: Vec<String> = (0..40).map(|i| i.to_string()).collect();
    args.extend(many.iter().map(String::as_str));
    let command = normalize_terminal_command("demo@test", "/p", terminal("run", args)).unwrap();
    // Of the first 32 arguments, the two invalid ones are left out.
    assert_eq!(command.args.len(), 30);
    assert_eq!(command.args[0], "ok");
    assert_eq!(command.args[1], "0");
    assert_eq!(command.args[29], "28");
    assert_eq!(command.plugin_id, "demo@test");
    assert_eq!(command.result, PluginTerminalCommandResult::ResumeThread);
}

#[test]
fn key_bindings_need_a_valid_key_and_a_known_command() {
    assert_eq!(normalize_key_binding_spec("  Ctrl-P "), Some("ctrl-p".to_string()));
    assert_eq!(normalize_key_binding_spec("   "), None);
    assert_eq!(normalize_key_binding_spec(&"k".repeat(81)), None);

    let plan = prompt_command("demo@test", "plan", "Plan", "Make a plan.");
    let ctrl_p = KeyBinding { key: 'p' as u32, modifiers: 2 };
    let ctrl_o = KeyBinding { key: 'o' as u32, modifiers: 2 };
    let raw = |key: &str, command: &str| RawPluginKeyBinding {
        key: key.to_string(),
        command: command.to_string(),
    };
    let bindings = vec![
        raw("ctrl-p", "/Plan"),
        raw("ctrl-p", "plan"),
        raw("   ", "plan"),
        raw("ctrl-o", "missing"),
        raw("ctrl-x", "plan"),
    ];
    let parsed = vec![Some(ctrl_p), Some(ctrl_p), Some(ctrl_o), Some(ctrl_o), None];
    let normalized = normalize_plugin_key_bindings("demo@test", bindings, &parsed, &[plan.clone()]);
    assert_eq!(
        normalized,
        vec![PluginKeyBinding { plugin_id: "demo@test".to_string(), key: ctrl_p, command: plan }]
    );
}

#[test]
fn duplicate_names_are_seen_even_when_their_action_is_invalid() {
    let contribution = parse(RawTuiContribution {
        slash_commands: vec![
            raw_prompt("twice", None, "!shell"),
            raw_prompt("twice", None, "A fine prompt"),
            RawTuiSlashCommand {
                name: "term".to_string(),
                description: Some("Run it".to_string()),
                submit_prompt: None,
                terminal_command: Some(terminal("bin/go", vec!["x"])),
            },
        ],
        ..Default::default()
    });
    assert_eq!(contribution.slash_commands.len(), 1);
    assert_eq!(contribution.slash_commands[0].name, "term");
    match &contribution.slash_commands[0].action {
        PluginSlashCommandAction::TerminalCommand(t) => {
            assert_eq!(t.command, "/plugins/demo/bin/go");
            assert_eq!(t.args, vec!["x".to_string()]);
        }
        other => panic!("unexpected action {other:?}"),
    }
}

#[test]
fn normalizing_twice_changes_nothing() {
    let name = normalize_plugin_slash_command_name("  /Deploy_Now ").unwrap();
    assert_eq!(normalize_plugin_slash_command_name(&name), Some(name.clone()));
    let theme = normalize_theme_name(" night-owl ").unwrap();
    assert_eq!(normalize_theme_name(&theme), Some(theme.clone()));
    let description = normalize_plugin_slash_command_description(" Ship \t it\n now ").unwrap();
    assert_eq!(description, "Ship it now");
    assert_eq!(normalize_plugin_slash_command_description(&description), Some(description.clone()));
    let prompt = normalize_submit_prompt(Some("\n Summarize. \n")).unwrap();
    assert_eq!(normalize_submit_prompt(Some(&prompt)), Some(prompt.clone()));
    let status = normalize_status_line(vec![" a ".to_string(), "".to_string(), "b".to_string()]);
    assert_eq!(normalize_status_line(status.clone()), status);
}
