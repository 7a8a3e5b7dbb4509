use dify_agent_runtime::jobs::{
    insert_verdict, is_terminal, list_jobs_statement, runner_exit_args, runner_exit_outcome,
    runner_exit_step, schema_plan, service_exit_outcome, stored_mode, transition_statement,
    ExitRecordStep, JobStatusName, SqlArg, TransitionOpts,
};
use dify_agent_runtime::jobmode::Mode;

#[test]
fn terminal_classification() {
    for s in ["exited", "terminated", "failed", "lost"] {
        assert!(is_terminal(s), "{s}");
    }
    for s in ["created", "starting", "running"] {
        assert!(!is_terminal(s), "{s}");
    }
}

#[test]
fn status_names_round_trip() {
    for s in ["created", "starting", "running", "exited", "terminated", "failed", "lost", "paused"] {
        assert_eq!(JobStatusName::parse(s).as_str(), s);
        assert_eq!(JobStatusName::parse(s).is_terminal(), is_terminal(s));
    }
    assert_eq!(JobStatusName::parse("exited"), JobStatusName::Exited);
    assert_eq!(JobStatusName::parse("paused"), JobStatusName::Other("paused".into()));
    assert!(!JobStatusName::Other("exited!".into()).is_terminal());
}

fn opts(target: JobStatusName) -> TransitionOpts {
    TransitionOpts {
        allowed_from: vec![JobStatusName::Created, JobStatusName::Starting],
        allow_override_from: vec![],
        target,
        require_exit_code_null: false,
        reason: None,
        message: Some("m".into()),
        ended_at: String::new(),
    }
}

#[test]
fn transition_to_running_sets_start_time() {
    let (sql, args) = transition_statement(&opts(JobStatusName::Running), "NOW", "j1");
    assert_eq!(
        sql,
        "UPDATE jobs SET status = ?, updated_at = ?, reason = ?, message = ?, started_at = CASE WHEN started_at IS NULL THEN ? ELSE started_at END WHERE job_id = ? AND status IN (?,?)"
    );
    assert_eq!(
        args,
        vec![
            SqlArg::Text("running".into()),
            SqlArg::Text("NOW".into()),
            SqlArg::OptText(None),
            SqlArg::OptText(Some("m".into())),
            SqlArg::Text("NOW".into()),
            SqlArg::Text("j1".into()),
            SqlArg::Text("created".into()),
            SqlArg::Text("starting".into()),
        ]
    );
}

#[test]
fn transition_to_terminal_sets_end_and_exit_code() {
    let mut o = opts(JobStatusName::Lost);
    o.allowed_from = vec![];
    o.require_exit_code_null = true;
    o.ended_at = "END".into();
    let (sql, args) = transition_statement(&o, "NOW", "j2");
    assert_eq!(
        sql,
        "UPDATE jobs SET status = ?, updated_at = ?, reason = ?, message = ?, ended_at = CASE WHEN ended_at IS NULL THEN ? ELSE ended_at END, exit_code = CASE WHEN exit_code IS NULL THEN 0 ELSE exit_code END WHERE job_id = ? AND status IN (?) AND exit_code IS NULL"
    );
    assert_eq!(args[4], SqlArg::Text("END".into()));
    assert_eq!(args[5], SqlArg::Text("j2".into()));
    assert_eq!(args[6], SqlArg::Text("lost".into()));
    assert_eq!(args.len(), 7);
}

#[test]
fn runner_exit_recording() {
    assert_eq!(runner_exit_step(None), ExitRecordStep::UnknownJob);
    assert_eq!(runner_exit_step(Some("terminated")), ExitRecordStep::AlreadyFinished);
    assert_eq!(runner_exit_step(Some("running")), ExitRecordStep::Update);
    assert_eq!(runner_exit_outcome(0, "x").unwrap_err(), "unknown job id: x");
    assert!(runner_exit_outcome(1, "x").is_ok());
    let e = service_exit_outcome(0).unwrap_err();
    assert_eq!((e.status_code, e.code.as_str()), (404, "job_not_found"));
    let a = runner_exit_args(42, "T", "job");
    assert_eq!(a.len(), 23);
    assert_eq!(a[3], SqlArg::Text("exited".into()));
    assert_eq!(a[7], SqlArg::Int(42));
    assert_eq!(a[22], SqlArg::Text("job".into()));
}

#[test]
fn list_statement_numbers_placeholders() {
    let (sql, args) = list_jobs_statement(&vec![]);
    assert!(sql.ends_with("FROM jobs ORDER BY created_at DESC"));
    assert!(args.is_empty());
    let (sql, args) = list_jobs_statement(&vec![JobStatusName::Running, JobStatusName::Lost]);
    assert!(sql.ends_with("FROM jobs WHERE status IN (?1,?2) ORDER BY created_at DESC"));
    assert_eq!(args, vec![SqlArg::Text("running".into()), SqlArg::Text("lost".into())]);
}

#[test]
fn insert_and_schema_verdicts() {
    assert_eq!(insert_verdict(Ok(1)), Ok(true));
    assert_eq!(insert_verdict(Err("UNIQUE constraint failed: jobs.job_id".into())), Ok(false));
    assert_eq!(insert_verdict(Err("disk I/O error".into())), Err("disk I/O error".to_string()));
    assert_eq!(schema_plan(0).unwrap(), (true, vec![1]));
    assert_eq!(schema_plan(1).unwrap(), (false, vec![]));
    assert_eq!(
        schema_plan(2).unwrap_err(),
        "database schema version 2 is newer than supported version 1"
    );
    assert_eq!(stored_mode("stdio"), Mode::Stdio);
    assert_eq!(stored_mode("bogus"), Mode::Pty);
}
