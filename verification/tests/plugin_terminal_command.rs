use codex_tui::contribution::PluginTerminalCommandResult;
use codex_tui::terminal::{interpret_plugin_terminal_stdout, PluginTerminalCommandOutcome};

#[test]
fn resume_thread_result_uses_first_non_empty_stdout_line() {
    assert_eq!(
        interpret_plugin_terminal_stdout(
            PluginTerminalCommandResult::ResumeThread,
            "\n  thread-123  \nignored\n",
        ),
        PluginTerminalCommandOutcome::ResumeThread("thread-123".to_string())
    );
}

#[test]
fn text_result_splits_non_empty_stdout_lines() {
    assert_eq!(
        interpret_plugin_terminal_stdout(PluginTerminalCommandResult::Plain, "hello\nworld\n"),
        PluginTerminalCommandOutcome::Text(vec!["hello".to_string(), "world".to_string()])
    );
}

#[test]
fn blank_output_gives_nothing() {
    assert_eq!(
        interpret_plugin_terminal_stdout(PluginTerminalCommandResult::Plain, " \n\t\n"),
        PluginTerminalCommandOutcome::NoOutput
    );
    assert_eq!(
        interpret_plugin_terminal_stdout(PluginTerminalCommandResult::ResumeThread, "\n \r\n"),
        PluginTerminalCommandOutcome::NoOutput
    );
}

#[test]
fn text_lines_keep_inner_blank_lines_and_drop_crlf() {
    assert_eq!(
        interpret_plugin_terminal_stdout(PluginTerminalCommandResult::Plain, "\r\n a\r\n\r\nb \r"),
        PluginTerminalCommandOutcome::Text(vec![
            "a".to_string(),
            "".to_string(),
            "b".to_string()
        ])
    );
}

#[test]
fn text_output_is_cut_to_16384_characters() {
    let out = format!("{}\n{}", "x".repeat(16380), "y".repeat(100));
    match interpret_plugin_terminal_stdout(PluginTerminalCommandResult::Plain, &out) {
        PluginTerminalCommandOutcome::Text(lines) => {
            assert_eq!(lines.len(), 2);
            assert_eq!(lines[0].len(), 16380);
            assert_eq!(lines[1], "yyy");
        }
        other => panic!("unexpected outcome {other:?}"),
    }
}
