use dify_agent_runtime::api::{
    authorized, error_response, force_flag, limit_param, query_param, route, urlencoding_decode,
    validate_run_request, Route,
};
use dify_agent_runtime::jobmode::Mode;
use dify_agent_runtime::types::resolved_mode;

#[test]
fn routing() {
    assert_eq!(route("GET", "/healthz"), Route::Health);
    assert_eq!(route("POST", "/v1/jobs/run"), Route::Run);
    assert_eq!(route("GET", "/v1/jobs"), Route::List);
    assert_eq!(route("POST", "/v1/snapshot/save"), Route::SnapshotSave);
    assert_eq!(route("POST", "/v1/snapshot/restore"), Route::SnapshotRestore);
    assert_eq!(route("GET", "/v1/jobs/abc"), Route::Status("abc".into()));
    assert_eq!(route("DELETE", "/v1/jobs/abc"), Route::Delete("abc".into()));
    assert_eq!(route("POST", "/v1/jobs/abc/wait"), Route::Wait("abc".into()));
    assert_eq!(route("POST", "/v1/jobs/abc/input"), Route::Input("abc".into()));
    assert_eq!(route("POST", "/v1/jobs/abc/terminate"), Route::Terminate("abc".into()));
    assert_eq!(route("GET", "/v1/jobs/abc/log/tail"), Route::Tail("abc".into()));
    assert_eq!(route("GET", "/v1/jobs/abc/wait"), Route::NotFound);
    assert_eq!(route("PUT", "/v1/jobs/abc"), Route::NotFound);
    assert_eq!(route("GET", "/nope"), Route::NotFound);
}

#[test]
fn auth_and_params() {
    assert!(authorized("", None));
    assert!(authorized("s3", Some("Bearer s3")));
    assert!(!authorized("s3", Some("Bearer s4")));
    assert!(!authorized("s3", None));
    assert_eq!(query_param("a=1&status=exited&b", "status"), Some("exited".to_string()));
    assert_eq!(query_param("b", "b"), Some(String::new()));
    assert_eq!(query_param("x=hello%20world", "x"), Some("hello world".to_string()));
    assert_eq!(query_param("x=1", "y"), None);
    assert_eq!(urlencoding_decode("a+b"), "a b");
    assert_eq!(limit_param(Some("20"), 50, 200), 20);
    assert_eq!(limit_param(Some("-3"), 50, 200), 50);
    assert_eq!(limit_param(Some("x"), 50, 200), 50);
    assert_eq!(limit_param(Some("900"), 50, 200), 200);
    assert!(force_flag(Some("true")));
    assert!(!force_flag(Some("1")));
    let e = error_response("not_found", "not found");
    assert_eq!((e.error.code.as_str(), e.error.message.as_str()), ("not_found", "not found"));
}

#[test]
fn run_requests() {
    assert_eq!(validate_run_request("echo", None, &[]).unwrap(), Mode::Pty);
    assert_eq!(validate_run_request("echo", Some("stdio"), &[]).unwrap(), Mode::Stdio);
    let f = validate_run_request("", None, &[]).unwrap_err();
    assert_eq!((f.status, f.code.as_str(), f.message.as_str()), (400, "invalid_request", "script is required"));
    let f = validate_run_request("x", Some("tty"), &[]).unwrap_err();
    assert_eq!((f.status, f.message.as_str()), (422, "invalid job mode \"tty\""));
    let env = vec![("A=B".to_string(), "1".to_string())];
    assert_eq!(validate_run_request("x", None, &env).unwrap_err().message, "env name must not contain '=': \"A=B\"");
    let env = vec![("".to_string(), "1".to_string())];
    assert_eq!(validate_run_request("x", None, &env).unwrap_err().message, "env names must be non-empty");
    let env = vec![("A".to_string(), "x\0y".to_string())];
    assert_eq!(validate_run_request("x", None, &env).unwrap_err().message, "env entries must not contain NUL");
    assert_eq!(resolved_mode(None).unwrap(), Mode::Pty);
    assert!(resolved_mode(Some("x")).is_err());
}
