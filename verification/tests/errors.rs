use dify_agent_runtime::errors::ServerError;

#[test]
fn server_errors() {
    let e = ServerError::job_not_found();
    assert_eq!(e.status_code, 404);
    assert!(e.is_not_found());
    assert_eq!(e.to_text(), "[404] job_not_found: Unknown job id");
    let e = ServerError::new(409, "job_running", "busy");
    assert!(!e.is_not_found());
    assert_eq!(e.to_text(), "[409] job_running: busy");
}
