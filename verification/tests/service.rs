use dify_agent_runtime::errors::ServerError;
use dify_agent_runtime::jobmode::Mode;
use dify_agent_runtime::jobs::{JobRow, JobStatusName};
use dify_agent_runtime::output::OutputWindow;
use dify_agent_runtime::service::{
    chosen_cwd, delete_precheck, effective_output_limit, exit_metadata, gc_collects,
    generate_job_id, input_failure, input_precheck, invalid_cwd_error, job_result_from_view,
    list_entry, listing_full, live_runtime_state, new_job_row, next_poll_interval,
    normal_exit_commit_pending, observe_output, parse_i64, request_mode, status_action,
    running_opts, start_failed_opts, starting_opts, status_view_from_row, terminal_dimensions,
    terminate_opts, wait_step, LiveFacts, StatusAction,
    WaitStep,
};
use dify_agent_runtime::types::TerminalSize;

fn row(status: JobStatusName) -> JobRow {
    let mut r = new_job_row("abc", Mode::Pty, "/w", 80, 24, "2024-01-01T00:00:00Z");
    r.status = status;
    r
}

fn facts() -> LiveFacts {
    LiveFacts {
        session_exists: true,
        pipe_active: Some(true),
        starting: false,
        exit_metadata: None,
        commit_pending: false,
        now: "NOW".into(),
    }
}

#[test]
fn new_rows_and_views() {
    let r = row(JobStatusName::Created);
    assert_eq!(r.script_path, "jobs/abc/script");
    assert_eq!(r.output_path, "jobs/abc/output.log");
    assert_eq!(r.session_name, "shellctl-abc");
    assert_eq!(r.pane_target, "shellctl-abc:0.0");
    let v = status_view_from_row(&row(JobStatusName::Exited), 17);
    assert_eq!((v.status.as_str(), v.done, v.offset), ("exited", true, 17));
    let w = OutputWindow { output: "hi".into(), offset: 2, truncated: false };
    let res = job_result_from_view(&v, "/abs/out.log", &w);
    assert_eq!((res.output.as_str(), res.offset, res.output_path.as_str()), ("hi", 2, "/abs/out.log"));
}

#[test]
fn status_actions() {
    let mut r = row(JobStatusName::Exited);
    match status_action(&r, &facts()) {
        StatusAction::Transition(o) => {
            assert_eq!(o.target, JobStatusName::Exited);
            assert_eq!(o.ended_at, "NOW");
        }
        _ => panic!("an ended job gets an end time"),
    }
    r.ended_at = Some("T".into());
    assert!(matches!(status_action(&r, &facts()), StatusAction::Keep));

    let mut r = row(JobStatusName::Running);
    r.exit_code = Some(3);
    match status_action(&r, &facts()) {
        StatusAction::Transition(o) => assert_eq!(o.target, JobStatusName::Exited),
        _ => panic!("a job with an exit code has exited"),
    }

    let mut f = facts();
    f.exit_metadata = Some((7, "E".into()));
    match status_action(&row(JobStatusName::Running), &f) {
        StatusAction::RecordExit(c, e) => assert_eq!((c, e.as_str()), (7, "E")),
        _ => panic!("the runner's exit is recorded"),
    }

    let mut f = facts();
    f.pipe_active = Some(false);
    match status_action(&row(JobStatusName::Running), &f) {
        StatusAction::Transition(o) => {
            assert_eq!(o.target, JobStatusName::Failed);
            assert_eq!(o.reason.as_deref(), Some("pipe_failed"));
        }
        _ => panic!("a stopped pipe fails the job"),
    }
    f.starting = true;
    assert!(matches!(status_action(&row(JobStatusName::Running), &f), StatusAction::Keep));

    match status_action(&row(JobStatusName::Starting), &facts()) {
        StatusAction::Transition(o) => {
            assert_eq!(o.target, JobStatusName::Running);
            assert!(o.require_exit_code_null);
        }
        _ => panic!("a live session runs"),
    }

    let mut f = facts();
    f.session_exists = false;
    match status_action(&row(JobStatusName::Running), &f) {
        StatusAction::Transition(o) => {
            assert_eq!(o.target, JobStatusName::Lost);
            assert_eq!(o.reason.as_deref(), Some("tmux_session_missing"));
        }
        _ => panic!("a gone session loses the job"),
    }
    f.commit_pending = true;
    assert!(matches!(status_action(&row(JobStatusName::Running), &f), StatusAction::Keep));
    f.commit_pending = false;
    f.starting = true;
    assert!(matches!(status_action(&row(JobStatusName::Created), &f), StatusAction::Keep));
}

#[test]
fn exit_files_and_pipe_state() {
    assert_eq!(exit_metadata(Mode::Pty, true, Some(" 42\n"), Some("T\n")), Some((42, "T".to_string())));
    assert_eq!(exit_metadata(Mode::Pty, false, Some("0"), Some("T")), None);
    assert_eq!(exit_metadata(Mode::Stdio, false, Some("-1"), Some("T")), Some((-1, "T".to_string())));
    assert_eq!(exit_metadata(Mode::Stdio, false, Some("x"), Some("T")), None);
    assert_eq!(exit_metadata(Mode::Stdio, false, Some("  "), Some("T")), None);
    assert_eq!(exit_metadata(Mode::Stdio, false, Some("99999999999"), Some("T")), None);
    assert!(normal_exit_commit_pending(Mode::Pty, true, true, false, false));
    assert!(!normal_exit_commit_pending(Mode::Stdio, true, true, false, false));
    assert_eq!(live_runtime_state(false, Mode::Pty, Some(true)), (false, None));
    assert_eq!(live_runtime_state(true, Mode::Stdio, Some(true)), (true, None));
    assert_eq!(live_runtime_state(true, Mode::Pty, None), (false, None));
    assert_eq!(live_runtime_state(true, Mode::Pty, Some(false)), (true, Some(false)));
}

#[test]
fn integer_parsing() {
    assert_eq!(parse_i64("+12"), Some(12));
    assert_eq!(parse_i64("-9223372036854775808"), Some(i64::MIN));
    assert_eq!(parse_i64("9223372036854775808"), None);
    assert_eq!(parse_i64("-"), None);
    assert_eq!(parse_i64(""), None);
}

#[test]
fn waiting() {
    assert_eq!(observe_output(0, 0, false, 5).unwrap(), (5, true, true));
    assert_eq!(observe_output(5, 5, false, 5).unwrap(), (5, false, false));
    let e = observe_output(9, 0, false, 5).unwrap_err();
    assert_eq!(e.message, "offset 9 exceeds current file size 5");
    assert_eq!(wait_step(true, false, false, false, false, false), WaitStep::Answer);
    assert_eq!(wait_step(false, true, true, false, false, false), WaitStep::Answer);
    assert_eq!(wait_step(false, true, false, true, true, false), WaitStep::Answer);
    assert_eq!(wait_step(false, true, false, true, false, false), WaitStep::Sleep);
    assert_eq!(wait_step(false, false, false, false, false, true), WaitStep::AnswerEmpty);
    assert_eq!(wait_step(false, true, false, false, false, true), WaitStep::Answer);
    assert_eq!(next_poll_interval(5, 50), 10);
    assert_eq!(next_poll_interval(40, 50), 50);
}

#[test]
fn requests_and_errors() {
    assert_eq!(terminal_dimensions(Some(TerminalSize { cols: 100, rows: 30 }), 200, 50), (100, 30));
    assert_eq!(terminal_dimensions(None, 200, 50), (200, 50));
    assert_eq!(effective_output_limit(0, 16384), 16384);
    assert_eq!(effective_output_limit(10, 16384), 10);
    assert_eq!(request_mode(Some("stdio")), Mode::Stdio);
    assert_eq!(request_mode(Some("weird")), Mode::Pty);
    assert_eq!(input_precheck(true, Mode::Pty, "j").unwrap_err().message, "Job j is already terminal");
    assert_eq!(input_precheck(false, Mode::Stdio, "j").unwrap_err().code, "input_unsupported");
    assert!(input_precheck(false, Mode::Pty, "j").is_ok());
    let gone = ServerError::new(409, "tmux_target_missing", "no pane");
    assert_eq!(input_failure(gone.clone(), Some(true), "j").code, "job_not_running");
    assert_eq!(input_failure(gone, Some(false), "j").code, "tmux_target_missing");
    assert_eq!(delete_precheck(false, false, "j").unwrap_err().message, "Job j is still running");
    assert_eq!(delete_precheck(false, true, "j").unwrap(), true);
    assert_eq!(delete_precheck(true, false, "j").unwrap(), false);
    assert!(gc_collects(true, Some(100), 100));
    assert!(!gc_collects(true, Some(101), 100));
    assert!(!gc_collects(false, Some(1), 100));
    assert!(!gc_collects(true, None, 100));
    assert_eq!(chosen_cwd(Some(""), "/home"), "/home");
    assert_eq!(chosen_cwd(Some("/tmp"), "/home"), "/tmp");
    assert_eq!(invalid_cwd_error("/x").message, "cwd is not a directory: /x");
    assert_eq!(terminate_opts().allow_override_from, vec![JobStatusName::Exited]);
}

#[test]
fn listing() {
    let v = status_view_from_row(&row(JobStatusName::Running), 0);
    assert!(list_entry(&v, Some("exited")).is_none());
    let info = list_entry(&v, Some("running")).unwrap();
    assert_eq!((info.job_id.as_str(), info.status.as_str()), ("abc", "running"));
    assert!(list_entry(&v, None).is_some());
    assert!(listing_full(50, 50));
    assert!(!listing_full(49, 50));
}

#[test]
fn job_ids_are_hex() {
    let a = generate_job_id();
    assert_eq!(a.len(), 16);
    assert!(a.chars().all(|c| c.is_ascii_hexdigit() && !c.is_ascii_uppercase()));
    assert_ne!(a, "0000000000000000");
}

#[test]
fn finished_jobs_stay_finished() {
    let moves = vec![starting_opts(), running_opts(), start_failed_opts("boom"), terminate_opts()];
    for o in &moves {
        let froms = o.allowed_from.iter().chain(o.allow_override_from.iter());
        for s in froms {
            if s.is_terminal() {
                assert!(o.target.is_terminal());
            }
        }
    }
    let finished = [JobStatusName::Exited, JobStatusName::Terminated, JobStatusName::Failed, JobStatusName::Lost];
    for status in finished {
        let mut f = facts();
        f.session_exists = false;
        match status_action(&row(status.clone()), &f) {
            StatusAction::Transition(o) => {
                assert_eq!(o.target, status);
                assert_eq!(o.allowed_from, vec![status.clone()]);
            }
            _ => panic!("a finished job without an end time only gets one"),
        }
    }
}
