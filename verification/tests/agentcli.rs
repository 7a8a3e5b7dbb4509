use dify_agent_runtime::agentcli::{
    check_agent_stub_http_error, check_http_error,
    cli_route, copy_name, environment_from, extract_root_json_flag, guess_mime_type,
    has_environment_values, is_canonical_dify_file_reference, is_help_request, is_unknown_bare,
    known_root, parse_connect_args, parse_endpoint, parse_upload_url, sanitize_filename,
    should_skip_dir, CliRoute, free_name, manifest_item_names, parse_manifest_note, parse_upload_id,
    parse_upload_reference, FreeName,
};

fn strings(v: &[&str]) -> Vec<String> {
    v.iter().map(|s| s.to_string()).collect()
}

#[test]
fn parse_http() {
    assert_eq!(
        parse_endpoint("http://localhost:8080").unwrap().url,
        "http://localhost:8080/agent-stub"
    );
    assert_eq!(
        parse_endpoint("https://agent.example.com").unwrap().url,
        "https://agent.example.com/agent-stub"
    );
    assert_eq!(
        parse_endpoint("http://localhost:8080/agent-stub").unwrap().url,
        "http://localhost:8080/agent-stub"
    );
    assert_eq!(
        parse_endpoint("http://localhost:8080/").unwrap().url,
        "http://localhost:8080/agent-stub"
    );
    assert!(parse_endpoint("http://localhost:8080/other-path").is_err());
    assert!(parse_endpoint("http://localhost:8080?foo=bar").is_err());
    assert!(parse_endpoint("").is_err());
    assert!(parse_endpoint("ftp://example.com").is_err());
}

#[test]
fn endpoint_messages() {
    assert_eq!(parse_endpoint("   ").err().unwrap(), "agent stub URL must not be empty");
    assert_eq!(parse_endpoint("ftp://example.com").err().unwrap(), "agent stub URL must use http or https");
    assert_eq!(
        parse_endpoint("http://u:p@host/").err().unwrap(),
        "agent stub URL must not include user info"
    );
    assert!(parse_endpoint("not a url").err().unwrap().starts_with("invalid URL: "));
    assert_eq!(
        parse_endpoint("  https://h.example:9443/agent-stub//  ").unwrap().url,
        "https://h.example:9443/agent-stub"
    );
}

#[test]
fn environment_values() {
    let env = environment_from(Some(" http://stub:1 "), Some(" jwe ")).unwrap();
    assert_eq!((env.url.as_str(), env.auth_jwe.as_str()), ("http://stub:1/agent-stub", "jwe"));
    assert_eq!(
        environment_from(None, Some("")).err().unwrap(),
        "missing required Agent Stub environment variables: DIFY_AGENT_STUB_API_BASE_URL, DIFY_AGENT_STUB_AUTH_JWE"
    );
    assert_eq!(
        environment_from(Some("http://x/y"), Some("t")).err().unwrap(),
        "invalid DIFY_AGENT_STUB_API_BASE_URL: HTTP agent stub API base URL path must be empty or /agent-stub"
    );
    assert!(has_environment_values(Some("a"), Some("b")));
    assert!(!has_environment_values(Some(""), Some("b")));
}

#[test]
fn command_line() {
    assert!(known_root("config") && known_root("file") && !known_root("ls"));
    assert_eq!(parse_connect_args(&strings(&["--json", "--", "ls"])), (true, strings(&["ls"])));
    assert_eq!(parse_connect_args(&strings(&["--", "--json"])), (false, strings(&["--json"])));
    assert_eq!(extract_root_json_flag(&strings(&["--json", "ls"])), (true, strings(&["ls"])));
    assert_eq!(extract_root_json_flag(&strings(&["--json", "file"])), (false, strings(&["--json", "file"])));
    assert!(is_unknown_bare(&strings(&["ls", "-l"])));
    assert!(!is_unknown_bare(&strings(&["-x"])));
    assert!(!is_unknown_bare(&strings(&["file"])));
    assert!(is_help_request(&strings(&["a", "-h"])));
    assert_eq!(cli_route(&strings(&["__dump-cli-help"])), CliRoute::DumpHelp);
    assert_eq!(cli_route(&strings(&["connect", "--json", "x"])), CliRoute::Connect(true, strings(&["x"])));
    assert_eq!(cli_route(&strings(&["connect", "--help"])), CliRoute::Dispatch);
    assert_eq!(cli_route(&strings(&["--json", "ls"])), CliRoute::Bare(true, strings(&["ls"])));
    assert_eq!(cli_route(&strings(&["file", "upload", "a"])), CliRoute::Dispatch);
}

#[test]
fn files_and_references() {
    assert_eq!(sanitize_filename("dir/report.pdf"), "report.pdf");
    assert_eq!(sanitize_filename("a/b/"), "b");
    assert_eq!(sanitize_filename(".."), "downloaded");
    assert_eq!(sanitize_filename("a/.."), "downloaded");
    assert_eq!(sanitize_filename(""), "downloaded");
    assert_eq!(sanitize_filename("x/."), "x");
    assert_eq!(copy_name("report", "pdf", 2), "report (2).pdf");
    assert_eq!(copy_name("notes", "", 1), "notes (1)");
    assert!(should_skip_dir("node_modules") && !should_skip_dir("src"));
    assert_eq!(guess_mime_type("a.png"), "image/png");
    assert_eq!(guess_mime_type("noext"), "application/octet-stream");
    assert_eq!(parse_upload_url(br#"{"upload_url":"https://u"}"#).unwrap(), "https://u");
    assert_eq!(
        parse_upload_url(br#"{"upload_url":""}"#).unwrap_err(),
        "signed file upload response is missing upload_url"
    );
    assert!(parse_upload_url(b"{").unwrap_err().starts_with("parse upload response: "));
    // {"record_id":"r1"} in URL-safe base64
    assert!(is_canonical_dify_file_reference("dify-file-ref:eyJyZWNvcmRfaWQiOiJyMSJ9"));
    // {"record_id":""}
    assert!(!is_canonical_dify_file_reference("dify-file-ref:eyJyZWNvcmRfaWQiOiIifQ=="));
    assert!(!is_canonical_dify_file_reference("dify-file-ref:"));
    assert!(!is_canonical_dify_file_reference("other:eyJyZWNvcmRfaWQiOiJyMSJ9"));
    assert!(!is_canonical_dify_file_reference("dify-file-ref:!!!"));
}

#[test]
fn stub_errors() {
    assert!(check_http_error(b"", 200, "x").is_ok());
    assert_eq!(
        check_http_error(br#"{"detail":"nope"}"#, 404, "file upload request").unwrap_err(),
        "agent stub file upload request failed (HTTP 404): \"nope\""
    );
    assert_eq!(check_http_error(b"plain", 500, "op").unwrap_err(), "agent stub op failed (HTTP 500): plain");
    assert!(check_agent_stub_http_error(b"", 399).is_ok());
    assert_eq!(check_agent_stub_http_error(br#"{"detail":"bad"}"#, 400).unwrap_err(), "HTTP 400: bad");
    assert_eq!(
        check_agent_stub_http_error(br#"{"detail":{"code":"c","message":""}}"#, 400).unwrap_err(),
        "HTTP 400: {\"code\":\"c\",\"message\":\"\"}"
    );
    assert!(check_agent_stub_http_error(
        br#"{"detail":{"code":"agent_stub_authorization_expired","message":"x"}}"#,
        401
    )
    .unwrap_err()
    .starts_with("HTTP 401: Agent Stub authorization expired after 5 minutes"));
    assert_eq!(check_agent_stub_http_error(b"oops", 502).unwrap_err(), "HTTP 502: oops");
}

#[test]
fn stub_error_detail_members() {
    assert_eq!(
        check_agent_stub_http_error(br#"{"detail":{"code":7,"message":"try later"}}"#, 503).unwrap_err(),
        "HTTP 503: try later"
    );
    assert_eq!(
        check_agent_stub_http_error(br#"{"details":"typo","x":1}"#, 500).unwrap_err(),
        "HTTP 500: {\"details\":\"typo\",\"x\":1}"
    );
    assert_eq!(
        check_http_error(br#"{"detail":[1,2]}"#, 422, "push").unwrap_err(),
        "agent stub push failed (HTTP 422): [1,2]"
    );
    assert_eq!(
        check_http_error(br#"{"detail":{"message":"m"}}"#, 400, "op").unwrap_err(),
        "agent stub op failed (HTTP 400): {\"message\":\"m\"}"
    );
}

#[test]
fn upload_answers() {
    assert_eq!(
        parse_upload_reference(br#"{"reference":"dify-file-ref:eyJyZWNvcmRfaWQiOiJyMSJ9"}"#).unwrap(),
        "dify-file-ref:eyJyZWNvcmRfaWQiOiJyMSJ9"
    );
    assert_eq!(
        parse_upload_reference(br#"{"other":1}"#).unwrap_err(),
        "signed file upload response is missing reference"
    );
    assert_eq!(
        parse_upload_reference(br#"{"reference":"abc"}"#).unwrap_err(),
        "signed file upload response has invalid reference"
    );
    assert!(parse_upload_reference(b"not json").unwrap_err().starts_with("parse upload result: "));
    assert_eq!(parse_upload_id(br#"{"id":"f1"}"#).unwrap(), "f1");
    assert_eq!(parse_upload_id(br#"{"id":""}"#).unwrap_err(), "upload response is missing id");
    assert_eq!(parse_upload_id(br#"{"id":3}"#).unwrap_err(), "upload response is missing id");
    assert!(parse_upload_id(b"{").unwrap_err().starts_with("parse upload result: "));
}

#[test]
fn manifest_answers() {
    let body = br#"{"skills":{"items":[{"name":"a"},{"name":7},{"x":1},"s",{"name":"b"}]},"note":"hi"}"#;
    assert_eq!(manifest_item_names(body, "skills").unwrap(), vec!["a".to_string(), "b".to_string()]);
    assert!(manifest_item_names(body, "files").unwrap().is_empty());
    assert!(manifest_item_names(b"nope", "files").unwrap_err().starts_with("parse manifest: "));
    assert_eq!(parse_manifest_note(body).unwrap(), "hi");
    assert_eq!(parse_manifest_note(br#"{"note":null}"#).unwrap(), "");
    assert!(parse_manifest_note(b"[").unwrap_err().starts_with("parse manifest: "));
}

#[test]
fn free_names() {
    assert!(matches!(free_name("a", "txt", &[false]), FreeName::Original));
    match free_name("a", "txt", &[true, true, false]) {
        FreeName::Copy(n) => assert_eq!(n, "a (2).txt"),
        _ => panic!("the second copy name is free"),
    }
    match free_name("a", "", &[true, false, false]) {
        FreeName::Copy(n) => assert_eq!(n, "a (1)"),
        _ => panic!("the first copy name is free"),
    }
    assert!(matches!(free_name("a", "txt", &[true, true]), FreeName::NoneFree));
    assert!(matches!(free_name("a", "txt", &[]), FreeName::NoneFree));
}
