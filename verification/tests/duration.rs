use dify_agent_runtime::duration::{
    parse_go_duration, snapshot_timeout_terms, snapshot_timeout_zero_error, DurationUnit,
};

fn terms(s: &str) -> Vec<(String, DurationUnit)> {
    parse_go_duration(s).unwrap().into_iter().map(|t| (t.number, t.unit)).collect()
}

#[test]
fn duration_terms() {
    assert!(terms("0").is_empty());
    assert_eq!(terms("10m"), vec![("10".to_string(), DurationUnit::Minutes)]);
    assert_eq!(
        terms("1h30m0.5s"),
        vec![
            ("1".to_string(), DurationUnit::Hours),
            ("30".to_string(), DurationUnit::Minutes),
            ("0.5".to_string(), DurationUnit::Seconds),
        ]
    );
    assert_eq!(terms("3µs"), vec![("3".to_string(), DurationUnit::Micros)]);
    assert_eq!(terms("7ns"), vec![("7".to_string(), DurationUnit::Nanos)]);
    assert_eq!(terms(".5ms"), vec![(".5".to_string(), DurationUnit::Millis)]);
}

#[test]
fn duration_errors() {
    assert_eq!(parse_go_duration("-1s").err().unwrap(), "must be positive");
    assert_eq!(parse_go_duration("nope").err().unwrap(), "invalid duration \"nope\"");
    assert!(parse_go_duration("").is_err());
    assert!(parse_go_duration("10").is_err());
    assert!(parse_go_duration("1.2.3s").is_err());
    assert!(parse_go_duration("5d").is_err());
}

#[test]
fn snapshot_timeout_terms_read() {
    assert!(matches!(snapshot_timeout_terms(""), Ok(None)));
    assert!(matches!(snapshot_timeout_terms("   "), Ok(None)));
    let t = snapshot_timeout_terms(" 10m ").unwrap().unwrap();
    assert_eq!(t.len(), 1);
    assert_eq!(t[0].number, "10");
    assert!(matches!(t[0].unit, DurationUnit::Minutes));
    assert_eq!(snapshot_timeout_terms("-1s").err().unwrap(), "SHELLCTL_SNAPSHOT_TIMEOUT: must be positive");
    assert_eq!(
        snapshot_timeout_terms("nope").err().unwrap(),
        "SHELLCTL_SNAPSHOT_TIMEOUT: invalid duration \"nope\""
    );
    assert_eq!(snapshot_timeout_zero_error("0s"), "SHELLCTL_SNAPSHOT_TIMEOUT: must be positive, got \"0s\"");
}
