use dify_agent_runtime::tmux::{
    build_pipe_command, has_session, is_tmux_target_missing, pipe_active_from, session_names,
    shell_join, shell_quote, text_contains, tmux_command_error, tmux_input_error,
    tmux_query_failure, PipePaths,
};

#[test]
fn target_missing_texts() {
    assert!(is_tmux_target_missing("can't find pane: %3"));
    assert!(is_tmux_target_missing("No Server Running on /tmp/tmux.sock"));
    assert!(is_tmux_target_missing("error connecting: FAILED TO CONNECT"));
    assert!(!is_tmux_target_missing("unknown option -- z"));
    assert!(text_contains("abcdef", "cde"));
    assert!(!text_contains("abc", "abcd"));
    assert!(text_contains("abc", ""));
}

#[test]
fn quoting() {
    assert_eq!(shell_quote("plain"), "'plain'");
    assert_eq!(shell_quote("it's"), "'it'\\''s'");
    assert_eq!(shell_quote(""), "''");
    assert_eq!(shell_join(&["a b", "c"]), "'a b' 'c'");
    assert_eq!(shell_join(&[]), "");
}

#[test]
fn tmux_answers() {
    assert_eq!(session_names("  shellctl-a\n\nshellctl-b \r\n"), vec!["shellctl-a", "shellctl-b"]);
    assert!(session_names("   ").is_empty());
    let names = session_names("x\ny\n");
    assert!(has_session(&names, "y"));
    assert!(!has_session(&names, "z"));
    assert!(pipe_active_from(" 1\n"));
    assert!(!pipe_active_from("0"));
    assert_eq!(tmux_command_error("  ").message, "tmux command failed");
    assert_eq!(tmux_command_error(" boom ").message, "boom");
    assert!(tmux_query_failure("can't find session: s\n").is_ok());
    assert_eq!(tmux_query_failure(" other ").unwrap_err().message, "other");
    let e = tmux_input_error("can't find pane x");
    assert_eq!((e.status_code, e.code.as_str()), (409, "tmux_target_missing"));
    let e = tmux_input_error("oops");
    assert_eq!((e.status_code, e.code.as_str(), e.message.as_str()), (500, "tmux_input_failed", "oops"));
}

#[test]
fn pipe_command_text() {
    let paths = PipePaths {
        ready_file: "/j/.pipe-ready".into(),
        output: "/j/output.log".into(),
        drained: "/j/.pipe-drained".into(),
        error_log: "/j/pipe-error.log".into(),
        failed: "/j/.pipe-failed".into(),
        exit_code: "/j/runner-exit-code".into(),
        ended_at: "/j/runner-ended-at".into(),
    };
    let cmd = build_pipe_command(
        &vec!["shellctl-sanitize-pty".to_string()],
        &vec!["shellctl-runner-exit".to_string()],
        "/state",
        "j",
        5000,
        &paths,
    );
    assert!(cmd.starts_with(
        "'shellctl-sanitize-pty' '--ready-file' '/j/.pipe-ready' >> '/j/output.log' 2> '/j/pipe-error.log' ; sanitize_status=$?"
    ));
    assert!(cmd.contains(
        "then 'shellctl-runner-exit' '--state-dir' '/state' '--job-id' 'j' '--sqlite-busy-timeout-ms' '5000' --exit-code \"$(cat '/j/runner-exit-code')\""
    ));
    assert!(cmd.ends_with("exit \"$sanitize_status\""));
}

#[test]
fn new_session_arguments() {
    let args = dify_agent_runtime::tmux::new_session_args(
        "/opt/shellctl-runner",
        "/state/jobs/ab",
        "ab",
        "/work dir",
        dify_agent_runtime::jobmode::Mode::Stdio,
        120,
        -1,
    );
    assert_eq!(
        args,
        vec![
            "-f",
            "/dev/null",
            "new-session",
            "-d",
            "-s",
            "shellctl-ab",
            "-x",
            "120",
            "-y",
            "-1",
            "'/opt/shellctl-runner' '/state/jobs/ab' 'ab' '/work dir' 'stdio'",
        ]
    );
}
