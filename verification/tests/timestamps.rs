use dify_agent_runtime::timestamps::{format_timestamp, job_pane_target, job_session_name, parse_timestamp};

#[test]
fn format_known_instants() {
    assert_eq!(format_timestamp(0), "1970-01-01T00:00:00Z");
    assert_eq!(format_timestamp(1_700_000_000), "2023-11-14T22:13:20Z");
    assert_eq!(format_timestamp(951_782_400), "2000-02-29T00:00:00Z");
    assert_eq!(format_timestamp(253_402_300_799), "9999-12-31T23:59:59Z");
}

#[test]
fn parse_reads_back_what_format_writes() {
    for secs in [0u64, 59, 86_399, 951_782_400, 1_700_000_000, 253_402_300_799] {
        let text = format_timestamp(secs);
        assert_eq!(parse_timestamp(&text), Ok(secs as i64), "{text}");
    }
}

#[test]
fn parse_refuses_other_texts() {
    assert_eq!(parse_timestamp("2023-11-14T22:13:20"), Err(()));
    assert_eq!(parse_timestamp("2023-11-14T22:13:2xZ"), Err(()));
    assert_eq!(parse_timestamp(""), Err(()));
    assert_eq!(parse_timestamp("1969-12-31T23:59:59Z"), Ok(-1));
    assert_eq!(parse_timestamp("+970-01-01T00:00:00Z"), parse_timestamp("0970-01-01T00:00:00Z"));
}

#[test]
fn session_and_pane_names() {
    assert_eq!(job_session_name("ab12"), "shellctl-ab12");
    assert_eq!(job_pane_target("ab12"), "shellctl-ab12:0.0");
}
