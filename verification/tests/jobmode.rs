use dify_agent_runtime::jobmode::{parse, Mode};

#[test]
fn parse_mode() {
    assert_eq!(parse("").unwrap(), Mode::Pty);
    assert_eq!(parse("pty").unwrap(), Mode::Pty);
    assert_eq!(parse("stdio").unwrap(), Mode::Stdio);
    assert!(parse("stdout").is_err());
}

#[test]
fn mode_names_and_error_message() {
    assert_eq!(Mode::Pty.as_str(), "pty");
    assert_eq!(Mode::Stdio.as_str(), "stdio");
    assert_eq!(parse("stdout").unwrap_err(), "invalid job mode \"stdout\"");
    assert_eq!(parse(Mode::Stdio.as_str()).unwrap(), Mode::Stdio);
}
