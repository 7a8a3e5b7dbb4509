//! The job service's decisions. The service itself asks tmux, the database
//! and the file system; what it concludes from their answers is decided here.

use vstd::prelude::*;
use crate::jobmode::Mode;
use crate::jobs::{JobRow, JobStatusName, TransitionOpts, status_name, status_is_terminal, opt_view, clone_opt};
use crate::errors::ServerError;
use crate::output::{OutputWindow, signed_decimal};
use crate::types::{JobStatusView, JobResult, JobInfo, DeleteJobResponse, TerminalSize};
use crate::timestamps::{job_session_name, job_pane_target, parse_small_int, digits_value};
use crate::text::{concat_str, trim_text, trimmed, utf8_bytes, str_eq};

verus! {

/// A transition as plain values.
pub struct MoveSpec {
    pub from: Seq<JobStatusName>,
    pub overriding: Seq<JobStatusName>,
    pub target: JobStatusName,
    pub require_exit_code_null: bool,
    pub reason: Option<Seq<char>>,
    pub message: Option<Seq<char>>,
    pub ended_at: Seq<char>,
}

pub open spec fn move_view(o: TransitionOpts) -> MoveSpec {
    MoveSpec {
        from: o.allowed_from@,
        overriding: o.allow_override_from@,
        target: o.target,
        require_exit_code_null: o.require_exit_code_null,
        reason: opt_view(o.reason),
        message: opt_view(o.message),
        ended_at: o.ended_at@,
    }
}

pub open spec fn unfinished() -> Seq<JobStatusName> {
    seq![JobStatusName::Created, JobStatusName::Starting, JobStatusName::Running]
}

pub open spec fn plain_move(from: Seq<JobStatusName>, target: JobStatusName) -> MoveSpec {
    MoveSpec {
        from,
        overriding: Seq::empty(),
        target,
        require_exit_code_null: false,
        reason: None,
        message: None,
        ended_at: Seq::empty(),
    }
}

fn unfinished_vec() -> (v: Vec<JobStatusName>)
    ensures
        v@ == unfinished(),
{
    let mut v: Vec<JobStatusName> = Vec::new();
    v.push(JobStatusName::Created);
    v.push(JobStatusName::Starting);
    v.push(JobStatusName::Running);
    assert(v@ =~= unfinished());
    v
}

fn one_status(s: JobStatusName) -> (v: Vec<JobStatusName>)
    ensures
        v@ == seq![s],
{
    let mut v: Vec<JobStatusName> = Vec::new();
    v.push(s);
    assert(v@ =~= seq![s]);
    v
}

fn plain_opts(from: Vec<JobStatusName>, target: JobStatusName) -> (o: TransitionOpts)
    ensures
        move_view(o) == plain_move(from@, target),
{
    let o = TransitionOpts {
        allowed_from: from,
        allow_override_from: Vec::new(),
        target,
        require_exit_code_null: false,
        reason: None,
        message: None,
        ended_at: String::new(),
    };
    assert(move_view(o) =~= plain_move(from@, target));
    o
}

/// The move of a new job from `created` to `starting`.
pub open spec fn starting_move() -> MoveSpec {
    plain_move(seq![JobStatusName::Created], JobStatusName::Starting)
}

/// The move of a started job from `starting` to `running`, unless an exit
/// code came in meanwhile.
pub open spec fn running_move() -> MoveSpec {
    MoveSpec {
        require_exit_code_null: true,
        ..plain_move(seq![JobStatusName::Starting], JobStatusName::Running)
    }
}

/// The move of a job that could not be started to `failed`.
pub open spec fn start_failed_move(message: Seq<char>) -> MoveSpec {
    MoveSpec {
        reason: Some("start_failed"@),
        message: Some(message),
        ..plain_move(unfinished(), JobStatusName::Failed)
    }
}

/// The move of a terminated job to `terminated`, also over an `exited`.
pub open spec fn terminate_move() -> MoveSpec {
    MoveSpec {
        overriding: seq![JobStatusName::Exited],
        ..plain_move(unfinished(), JobStatusName::Terminated)
    }
}

/// A new job leaves `created` for `starting`.
pub fn starting_opts() -> (o: TransitionOpts)
    ensures
        move_view(o) == starting_move(),
{
    plain_opts(one_status(JobStatusName::Created), JobStatusName::Starting)
}

/// A started job is `running`, if it was still `starting` and no exit code
/// has come in meanwhile.
pub fn running_opts() -> (o: TransitionOpts)
    ensures
        move_view(o) == running_move(),
{
    let mut o = plain_opts(one_status(JobStatusName::Starting), JobStatusName::Running);
    o.require_exit_code_null = true;
    o
}

/// A job that could not be started has `failed`, with the reason
/// `start_failed` and the start error as message.
pub fn start_failed_opts(message: &str) -> (o: TransitionOpts)
    ensures
        move_view(o) == start_failed_move(message@),
{
    let mut o = plain_opts(unfinished_vec(), JobStatusName::Failed);
    o.reason = Some("start_failed".to_string());
    o.message = Some(message.to_string());
    o
}

/// Terminating a job moves it to `terminated`, also over an `exited` that
/// the runner recorded meanwhile.
pub fn terminate_opts() -> (o: TransitionOpts)
    ensures
        move_view(o) == terminate_move(),
{
    let mut o = plain_opts(unfinished_vec(), JobStatusName::Terminated);
    o.allow_override_from = one_status(JobStatusName::Exited);
    o
}

/// A move never takes a job out of a finished status: from every finished
/// status it may apply to, it leads to a finished status.
pub open spec fn keeps_finished(m: MoveSpec) -> bool {
    &&& forall|i: int|
        0 <= i < m.from.len() && status_is_terminal(#[trigger] m.from[i]) ==> status_is_terminal(
            m.target,
        )
    &&& forall|i: int|
        0 <= i < m.overriding.len() && status_is_terminal(#[trigger] m.overriding[i])
            ==> status_is_terminal(m.target)
}

/// Law: a finished job stays finished. No move the service makes, when it
/// starts, fails, terminates or looks at a job, leads from a finished status
/// to an unfinished one.
pub proof fn law_finished_jobs_stay_finished(
    status: JobStatusName,
    mode: Mode,
    exit_code: Option<i32>,
    ended_missing: bool,
    f: LiveFacts,
    message: Seq<char>,
)
    ensures
        keeps_finished(starting_move()),
        keeps_finished(running_move()),
        keeps_finished(start_failed_move(message)),
        keeps_finished(terminate_move()),
        status_action_spec(status, mode, exit_code, ended_missing, f) matches ActionSpec::Move(m)
            ==> keeps_finished(m),
{
    assert(seq![JobStatusName::Created][0] == JobStatusName::Created);
    assert(seq![JobStatusName::Starting][0] == JobStatusName::Starting);
    assert(seq![JobStatusName::Exited][0] == JobStatusName::Exited);
    assert(seq![JobStatusName::Created, JobStatusName::Starting][1] == JobStatusName::Starting);
    assert forall|i: int| 0 <= i < unfinished().len() implies !status_is_terminal(
        #[trigger] unfinished()[i],
    ) by {
        if i == 0 {
            assert(unfinished()[0] == JobStatusName::Created);
        } else if i == 1 {
            assert(unfinished()[1] == JobStatusName::Starting);
        } else {
            assert(unfinished()[2] == JobStatusName::Running);
        }
    }
    let early_pair = seq![JobStatusName::Created, JobStatusName::Starting];
    assert forall|i: int| 0 <= i < early_pair.len() implies !status_is_terminal(
        #[trigger] early_pair[i],
    ) by {
        if i == 0 {
            assert(early_pair[0] == JobStatusName::Created);
        } else {
            assert(early_pair[1] == JobStatusName::Starting);
        }
    }
    assert(seq![status].len() == 1 && seq![status][0] == status);
}

/// Law: looking at a finished job never changes its status. It is left
/// alone when it has an end time; without one, the only move made rewrites
/// the same status, from that status alone, with the current time as end
/// time. Its view then reads as done.
pub proof fn law_finished_status_kept(
    status: JobStatusName,
    mode: Mode,
    exit_code: Option<i32>,
    ended_missing: bool,
    f: LiveFacts,
)
    requires
        status_is_terminal(status),
    ensures
        match status_action_spec(status, mode, exit_code, ended_missing, f) {
            ActionSpec::Keep => !ended_missing,
            ActionSpec::Move(m) => ended_missing && m.target == status && m.from == seq![status]
                && m.overriding.len() == 0 && m.ended_at == f.now@,
            ActionSpec::Record(_, _) => false,
        },
{
}

/// Law: an unfinished job whose session is gone is lost, unless an exit is
/// on record or about to be committed, or this service is still starting
/// it. A job left `created` or `starting` by an earlier run of the service
/// is lost too; it does not stay unfinished for ever. The move applies to
/// the job's own status (a status name the service does not know is left
/// to the database, which moves only the three unfinished ones).
pub proof fn law_gone_session_is_lost(
    status: JobStatusName,
    mode: Mode,
    exit_code: Option<i32>,
    ended_missing: bool,
    f: LiveFacts,
)
    ensures
        (!status_is_terminal(status) && exit_code is None && f.exit_metadata is None
            && !f.session_exists && !f.commit_pending && !f.starting) ==> (status_action_spec(
            status,
            mode,
            exit_code,
            ended_missing,
            f,
        ) matches ActionSpec::Move(m) && m.target == JobStatusName::Lost && m.reason == Some(
            "tmux_session_missing"@,
        ) && (status !is Other ==> m.from.contains(status))),
        (!status_is_terminal(status) && exit_code is None && f.exit_metadata is None
            && !f.session_exists && f.commit_pending) ==> status_action_spec(
            status,
            mode,
            exit_code,
            ended_missing,
            f,
        ) is Keep,
{
    let u = unfinished();
    if !status_is_terminal(status) {
        if status is Created {
            assert(u[0] == status);
        } else if status is Starting {
            assert(u[1] == status);
        } else if status is Running {
            assert(u[2] == status);
        }
    }
}

/// What the service observed of a job besides its row.
pub struct LiveFacts {
    /// The job's tmux session exists.
    pub session_exists: bool,
    /// Whether the pane's output pipe runs, where it was asked.
    pub pipe_active: Option<bool>,
    /// The job is still being started by this service.
    pub starting: bool,
    /// The exit code and end time the runner left, once the pipe drained.
    pub exit_metadata: Option<(i32, String)>,
    /// The runner has exited but the output pipe has not drained yet.
    pub commit_pending: bool,
    /// The current timestamp.
    pub now: String,
}

/// What the service does to a job's row when it looks at the job.
pub enum StatusAction {
    Keep,
    Transition(TransitionOpts),
    RecordExit(i32, String),
}

pub enum ActionSpec {
    Keep,
    Move(MoveSpec),
    Record(i32, Seq<char>),
}

pub open spec fn action_view(a: StatusAction) -> ActionSpec {
    match a {
        StatusAction::Keep => ActionSpec::Keep,
        StatusAction::Transition(o) => ActionSpec::Move(move_view(o)),
        StatusAction::RecordExit(c, e) => ActionSpec::Record(c, e@),
    }
}

pub open spec fn early(s: JobStatusName) -> bool {
    s is Created || s is Starting
}

/// The action for a job in status `status` with the given row fields and
/// observations:
/// - an ended job without an end time gets one (now);
/// - a job with an exit code is `exited`;
/// - a job whose runner left its exit has it recorded;
/// - a pty job whose session lives but whose pipe stopped has `failed`,
///   unless it is still being started;
/// - a job whose session lives is `running` once it is no longer started;
/// - a job whose session is gone is `lost`, unless its exit is about to be
///   committed, or it is early and still being started.
pub open spec fn status_action_spec(
    status: JobStatusName,
    mode: Mode,
    exit_code: Option<i32>,
    ended_missing: bool,
    f: LiveFacts,
) -> ActionSpec {
    if status_is_terminal(status) {
        if ended_missing {
            ActionSpec::Move(MoveSpec { ended_at: f.now@, ..plain_move(seq![status], status) })
        } else {
            ActionSpec::Keep
        }
    } else if exit_code is Some {
        ActionSpec::Move(plain_move(unfinished(), JobStatusName::Exited))
    } else if f.exit_metadata is Some {
        ActionSpec::Record((f.exit_metadata->0).0, (f.exit_metadata->0).1@)
    } else if f.session_exists {
        if mode == Mode::Pty && f.pipe_active == Some(false) {
            if !f.starting {
                ActionSpec::Move(
                    MoveSpec {
                        reason: Some("pipe_failed"@),
                        message: Some(
                            "The tmux output pipe stopped while the job was still running."@,
                        ),
                        ..plain_move(unfinished(), JobStatusName::Failed)
                    },
                )
            } else {
                ActionSpec::Keep
            }
        } else if early(status) && !f.starting {
            ActionSpec::Move(
                MoveSpec {
                    require_exit_code_null: true,
                    ..plain_move(seq![JobStatusName::Created, JobStatusName::Starting], JobStatusName::Running)
                },
            )
        } else {
            ActionSpec::Keep
        }
    } else if !f.commit_pending && (!f.starting || !early(status)) {
        ActionSpec::Move(
            MoveSpec {
                reason: Some("tmux_session_missing"@),
                message: Some("The dedicated tmux session is no longer present."@),
                ..plain_move(unfinished(), JobStatusName::Lost)
            },
        )
    } else {
        ActionSpec::Keep
    }
}

/// Decides what looking at a job does to its row.
pub fn status_action(row: &JobRow, facts: &LiveFacts) -> (a: StatusAction)
    ensures
        action_view(a) == status_action_spec(
            row.status,
            row.mode,
            row.exit_code,
            row.ended_at is None,
            *facts,
        ),
{
    let status = row.status.clone();
    if status.is_terminal() {
        if row.ended_at.is_none() {
            let mut o = plain_opts(one_status(status.clone()), status);
            o.ended_at = facts.now.clone();
            StatusAction::Transition(o)
        } else {
            StatusAction::Keep
        }
    } else if row.exit_code.is_some() {
        StatusAction::Transition(plain_opts(unfinished_vec(), JobStatusName::Exited))
    } else if let Some((code, ended)) = &facts.exit_metadata {
        StatusAction::RecordExit(*code, ended.clone())
    } else if facts.session_exists {
        let pipe_stopped = match facts.pipe_active {
            Some(active) => !active,
            None => false,
        };
        let is_early = match status {
            JobStatusName::Created | JobStatusName::Starting => true,
            _ => false,
        };
        if row.mode == Mode::Pty && pipe_stopped {
            if !facts.starting {
                let mut o = plain_opts(unfinished_vec(), JobStatusName::Failed);
                o.reason = Some("pipe_failed".to_string());
                o.message = Some(
                    "The tmux output pipe stopped while the job was still running.".to_string(),
                );
                StatusAction::Transition(o)
            } else {
                StatusAction::Keep
            }
        } else if is_early && !facts.starting {
            let mut from: Vec<JobStatusName> = Vec::new();
            from.push(JobStatusName::Created);
            from.push(JobStatusName::Starting);
            assert(from@ =~= seq![JobStatusName::Created, JobStatusName::Starting]);
            let mut o = plain_opts(from, JobStatusName::Running);
            o.require_exit_code_null = true;
            StatusAction::Transition(o)
        } else {
            StatusAction::Keep
        }
    } else {
        let is_early = match status {
            JobStatusName::Created | JobStatusName::Starting => true,
            _ => false,
        };
        if !facts.commit_pending && (!facts.starting || !is_early) {
            let mut o = plain_opts(unfinished_vec(), JobStatusName::Lost);
            o.reason = Some("tmux_session_missing".to_string());
            o.message = Some("The dedicated tmux session is no longer present.".to_string());
            StatusAction::Transition(o)
        } else {
            StatusAction::Keep
        }
    }
}

/// The runner has written its exit files but the output pipe has neither
/// drained nor failed: the exit is about to be committed.
pub fn normal_exit_commit_pending(
    mode: Mode,
    exit_code_written: bool,
    ended_at_written: bool,
    drained: bool,
    failed: bool,
) -> (r: bool)
    ensures
        r == (mode == Mode::Pty && exit_code_written && ended_at_written && !drained && !failed),
{
    mode == Mode::Pty && exit_code_written && ended_at_written && !drained && !failed
}

/// Whether the tmux side of a job lives: its session, and for a pty job the
/// output pipe of its pane (`None` where the pane is gone).
pub fn live_runtime_state(session_exists: bool, mode: Mode, pipe: Option<bool>) -> (r: (bool, Option<bool>))
    ensures
        !session_exists ==> r == (false, None::<bool>),
        session_exists && mode == Mode::Stdio ==> r == (true, None::<bool>),
        session_exists && mode == Mode::Pty ==> r == (match pipe {
            None => (false, None::<bool>),
            Some(a) => (true, Some(a)),
        }),
{
    if !session_exists {
        (false, None)
    } else if mode == Mode::Stdio {
        (true, None)
    } else {
        match pipe {
            None => (false, None),
            Some(a) => (true, Some(a)),
        }
    }
}

/// What `str::parse::<i64>` gives.
pub open spec fn parse_i64_spec(s: Seq<char>) -> Option<int> {
    let b = utf8_bytes(s);
    match parse_small_int(b, true) {
        Some(v) => if i64::MIN <= v <= i64::MAX {
            Some(v)
        } else {
            None
        },
        None => None,
    }
}

/// What `str::parse::<i32>` gives.
pub open spec fn parse_i32_spec(s: Seq<char>) -> Option<int> {
    match parse_i64_spec(s) {
        Some(v) => if i32::MIN <= v <= i32::MAX {
            Some(v)
        } else {
            None
        },
        None => None,
    }
}

pub fn parse_i64(s: &str) -> (r: Option<i64>)
    ensures
        match parse_i64_spec(s@) {
            Some(v) => r == Some(v as i64),
            None => r is None,
        },
{
    let b = s.as_bytes();
    let ghost bs = b@;
    if b.len() == 0 {
        return None;
    }
    let c0 = b[0];
    let neg = c0 == 0x2Du8;
    let mut i: usize = 0;
    if c0 == 0x2Bu8 || neg {
        i = 1;
        if b.len() == 1 {
            return None;
        }
    }
    let first = i;
    let mut v: i128 = 0;
    let mut big = false;
    while i < b.len()
        invariant
            first <= i <= b@.len(),
            b@ == bs,
            bs == utf8_bytes(s@),
            first == 0 || first == 1,
            first < b@.len(),
            (first == 1) == (bs[0] == 0x2Bu8 || bs[0] == 0x2Du8),
            neg == (bs[0] == 0x2Du8),
            crate::timestamps::all_digits(bs.subrange(first as int, i as int)),
            !big ==> v == digits_value(bs.subrange(first as int, i as int)),
            big ==> digits_value(bs.subrange(first as int, i as int)) > 0x8000000000000000,
            0 <= v <= 0x8000000000000000,
        decreases b@.len() - i,
    {
        let c = b[i];
        if c < 0x30u8 || c > 0x39u8 {
            proof {
                let f = bs.subrange(first as int, bs.len() as int);
                assert(f[i - first] == c);
                assert(!crate::timestamps::is_digit(f[i - first]));
                if first == 1 {
                    assert(bs.drop_first() =~= f);
                } else {
                    assert(bs =~= f);
                }
            }
            return None;
        }
        proof {
            let s0 = bs.subrange(first as int, i as int);
            let s1 = bs.subrange(first as int, i + 1);
            assert(s1.drop_last() =~= s0);
            assert(s1.last() == c);
            crate::timestamps::lemma_digits_nonneg(s0);
        }
        if !big {
            let next = v * 10 + (c - 0x30) as i128;
            if next > 0x8000000000000000 {
                big = true;
            } else {
                v = next;
            }
        }
        i = i + 1;
    }
    proof {
        let f = bs.subrange(first as int, bs.len() as int);
        if first == 1 {
            assert(bs.drop_first() =~= f);
        } else {
            assert(bs =~= f);
        }
    }
    if big {
        return None;
    }
    if neg {
        Some((-v) as i64)
    } else if v > 0x7FFFFFFFFFFFFFFF {
        None
    } else {
        Some(v as i64)
    }
}

fn parse_i32(s: &str) -> (r: Option<i32>)
    ensures
        match parse_i32_spec(s@) {
            Some(v) => r == Some(v as i32),
            None => r is None,
        },
{
    match parse_i64(s) {
        Some(v) => {
            if v < -0x80000000 || v > 0x7FFFFFFF {
                None
            } else {
                Some(v as i32)
            }
        },
        None => None,
    }
}

/// The exit a runner left behind: its exit code and end time, each the
/// trimmed text of its file. None where the pty pipe has not drained, where a
/// file is missing or empty, or where the code is not an `i32`.
pub fn exit_metadata(
    mode: Mode,
    drained: bool,
    exit_code_text: Option<&str>,
    ended_at_text: Option<&str>,
) -> (r: Option<(i32, String)>)
    ensures
        (mode == Mode::Pty && !drained) || exit_code_text is None || ended_at_text is None ==> r is None,
        !((mode == Mode::Pty && !drained) || exit_code_text is None || ended_at_text is None) ==> ({
            let code = trimmed(exit_code_text->0@);
            let ended = trimmed(ended_at_text->0@);
            if code.len() == 0 || ended.len() == 0 {
                r is None
            } else {
                match parse_i32_spec(code) {
                    Some(v) => r matches Some((c, e)) && c == v && e@ == ended,
                    None => r is None,
                }
            }
        }),
{
    if mode == Mode::Pty && !drained {
        return None;
    }
    let (code_raw, ended_raw) = match (exit_code_text, ended_at_text) {
        (Some(c), Some(e)) => (c, e),
        _ => return None,
    };
    let code = trim_text(code_raw);
    let ended = trim_text(ended_raw);
    if code.is_empty() || ended.is_empty() {
        return None;
    }
    match parse_i32(code) {
        Some(c) => Some((c, ended.to_string())),
        None => None,
    }
}

/// The status of a job as the API shows it; `offset` is the size of its log.
pub fn status_view_from_row(row: &JobRow, offset: i64) -> (v: JobStatusView)
    ensures
        v.job_id@ == row.job_id@,
        v.status@ == status_name(row.status),
        v.done == status_is_terminal(row.status),
        v.exit_code == row.exit_code,
        v.created_at@ == row.created_at@,
        v.started_at == row.started_at,
        v.ended_at == row.ended_at,
        v.offset == offset,
{
    JobStatusView {
        job_id: row.job_id.clone(),
        status: row.status.as_str().to_string(),
        done: row.status.is_terminal(),
        exit_code: row.exit_code,
        created_at: row.created_at.clone(),
        started_at: clone_opt(&row.started_at),
        ended_at: clone_opt(&row.ended_at),
        offset,
    }
}

/// The answer to a run, wait, tail or input request.
pub fn job_result_from_view(view: &JobStatusView, output_path: &str, window: &OutputWindow) -> (r: JobResult)
    ensures
        r.job_id@ == view.job_id@,
        r.done == view.done,
        r.status@ == view.status@,
        r.exit_code == view.exit_code,
        r.output_path@ == output_path@,
        r.output@ == window.output@,
        r.offset == window.offset,
        r.truncated == window.truncated,
{
    JobResult {
        job_id: view.job_id.clone(),
        done: view.done,
        status: view.status.clone(),
        exit_code: view.exit_code,
        output_path: output_path.to_string(),
        output: window.output.clone(),
        offset: window.offset,
        truncated: window.truncated,
    }
}

/// The record of a new job.
pub fn new_job_row(job_id: &str, mode: Mode, cwd: &str, cols: i32, rows: i32, created_at: &str) -> (r: JobRow)
    ensures
        r.job_id@ == job_id@,
        r.script_path@ == "jobs/"@ + job_id@ + "/script"@,
        r.output_path@ == "jobs/"@ + job_id@ + "/output.log"@,
        r.mode == mode,
        r.cwd@ == cwd@,
        r.terminal_cols == cols,
        r.terminal_rows == rows,
        r.status == JobStatusName::Created,
        r.session_name@ == "shellctl-"@ + job_id@,
        r.pane_target@ == "shellctl-"@ + job_id@ + ":0.0"@,
        r.exit_code is None,
        r.reason is None,
        r.message is None,
        r.created_at@ == created_at@,
        r.started_at is None,
        r.ended_at is None,
        r.updated_at@ == created_at@,
{
    let dir = concat_str("jobs/", job_id);
    let script_path = concat_str(dir.as_str(), "/script");
    let output_path = concat_str(dir.as_str(), "/output.log");
    JobRow {
        job_id: job_id.to_string(),
        script_path,
        output_path,
        mode,
        cwd: cwd.to_string(),
        terminal_cols: cols,
        terminal_rows: rows,
        status: JobStatusName::Created,
        session_name: job_session_name(job_id),
        pane_target: job_pane_target(job_id),
        exit_code: None,
        reason: None,
        message: None,
        created_at: created_at.to_string(),
        started_at: None,
        ended_at: None,
        updated_at: created_at.to_string(),
    }
}

/// The terminal size of a new job: the requested one, or the defaults.
pub fn terminal_dimensions(terminal: Option<TerminalSize>, default_cols: i32, default_rows: i32) -> (r: (i32, i32))
    ensures
        r == (match terminal {
            Some(t) => (t.cols, t.rows),
            None => (default_cols, default_rows),
        }),
{
    match terminal {
        Some(t) => (t.cols, t.rows),
        None => (default_cols, default_rows),
    }
}

/// A positive limit as asked, else the default.
pub fn effective_output_limit(requested: i64, default_limit: i64) -> (r: i64)
    ensures
        r == if requested > 0 {
            requested
        } else {
            default_limit
        },
{
    if requested > 0 {
        requested
    } else {
        default_limit
    }
}

/// The mode a run request asks for; a name that is not known runs as `pty`.
pub fn request_mode(raw: Option<&str>) -> (m: Mode)
    ensures
        m == (match crate::jobmode::mode_of_name(
            match raw {
                Some(s) => s@,
                None => ""@,
            },
        ) {
            Some(k) => k,
            None => Mode::Pty,
        }),
{
    match crate::types::resolved_mode(raw) {
        Ok(m) => m,
        Err(_) => Mode::Pty,
    }
}

/// What inserting a new job's row came to: a row with that id already there
/// means the id collided.
pub fn insert_outcome(inserted: Result<bool, String>) -> (r: Result<(), ServerError>)
    ensures
        match inserted {
            Ok(true) => r is Ok,
            Ok(false) => r matches Err(e) && e.status_code == 500 && e.code@ == "job_id_collision"@
                && e.message@ == "Failed to allocate a unique job id"@,
            Err(m) => r matches Err(e) && e.status_code == 500 && e.code@ == "internal_error"@
                && e.message@ == m@,
        },
{
    match inserted {
        Ok(true) => Ok(()),
        Ok(false) => Err(ServerError::new(500, "job_id_collision", "Failed to allocate a unique job id")),
        Err(m) => Err(ServerError::new(500, "internal_error", m.as_str())),
    }
}

/// The error of a wait whose offset lies past the end of the log.
pub open spec fn offset_error_message(offset: int, size: int) -> Seq<char> {
    "offset "@ + signed_decimal(offset) + " exceeds current file size "@ + signed_decimal(size)
}

/// What a wait learns from the current size of the log: the largest size
/// seen, whether output past the offset has been seen, and whether it grew
/// just now. An offset past the end is refused.
pub fn observe_output(offset: i64, last_size: i64, saw_output: bool, current_size: i64) -> (r: Result<(i64, bool, bool), ServerError>)
    ensures
        offset > current_size ==> (r matches Err(e) && e.status_code == 400 && e.code@ == "invalid_offset"@
            && e.message@ == offset_error_message(offset as int, current_size as int)),
        offset <= current_size ==> ({
            let grew = current_size > last_size && current_size > offset;
            r == Ok::<(i64, bool, bool), ServerError>(
                (
                    if current_size > last_size {
                        current_size
                    } else {
                        last_size
                    },
                    saw_output || grew,
                    grew,
                ),
            )
        }),
{
    if offset > current_size {
        return Err(crate::output::offset_exceeds_error(offset, current_size));
    }
    let mut last = last_size;
    let mut saw = saw_output;
    let mut grew = false;
    if current_size > last_size {
        last = current_size;
        if current_size > offset {
            saw = true;
            grew = true;
        }
    }
    Ok((last, saw, grew))
}

/// What a wait does next.
#[derive(Debug, PartialEq, Eq)]
pub enum WaitStep {
    /// Answer with the window read at the offset.
    Answer,
    /// Answer with an empty window at the offset.
    AnswerEmpty,
    /// Sleep, then look again.
    Sleep,
}

/// A wait reads the window when the job is done or output past the offset
/// exists.
pub fn wait_reads_window(done: bool, current_size: i64, offset: i64) -> (r: bool)
    ensures
        r == (done || current_size > offset),
{
    done || current_size > offset
}

/// A wait answers once the job is done, once the window is full, once
/// output stayed quiet for the idle time, or at the deadline.
pub fn wait_step(
    done: bool,
    has_output: bool,
    window_truncated: bool,
    saw_output: bool,
    idle_elapsed: bool,
    past_deadline: bool,
) -> (r: WaitStep)
    ensures
        done ==> r is Answer,
        !done && has_output && (window_truncated || (saw_output && idle_elapsed)) ==> r is Answer,
        !done && !(has_output && (window_truncated || (saw_output && idle_elapsed))) && past_deadline
            ==> (if has_output {
            r is Answer
        } else {
            r is AnswerEmpty
        }),
        !done && !(has_output && (window_truncated || (saw_output && idle_elapsed))) && !past_deadline
            ==> r is Sleep,
{
    if done {
        return WaitStep::Answer;
    }
    if has_output && (window_truncated || (saw_output && idle_elapsed)) {
        return WaitStep::Answer;
    }
    if past_deadline {
        if has_output {
            WaitStep::Answer
        } else {
            WaitStep::AnswerEmpty
        }
    } else {
        WaitStep::Sleep
    }
}

/// The poll interval doubles up to its maximum.
pub fn next_poll_interval(current_ms: u64, max_ms: u64) -> (r: u64)
    requires
        current_ms <= u64::MAX / 2,
    ensures
        r == if current_ms * 2 < max_ms {
            current_ms * 2
        } else {
            max_ms as int
        },
{
    let doubled = current_ms * 2;
    if doubled < max_ms {
        doubled
    } else {
        max_ms
    }
}

/// The listing entry of a job, when it passes the status filter.
pub fn list_entry(view: &JobStatusView, status: Option<&str>) -> (r: Option<JobInfo>)
    ensures
        (status matches Some(s) && view.status@ != s@) ==> r is None,
        !(status matches Some(s) && view.status@ != s@) ==> (r matches Some(i) && i.job_id@ == view.job_id@
            && i.status@ == view.status@ && i.created_at@ == view.created_at@ && i.started_at
            == view.started_at && i.ended_at == view.ended_at),
{
    if let Some(s) = status {
        if !str_eq(view.status.as_str(), s) {
            return None;
        }
    }
    Some(
        JobInfo {
            job_id: view.job_id.clone(),
            status: view.status.clone(),
            created_at: view.created_at.clone(),
            started_at: clone_opt(&view.started_at),
            ended_at: clone_opt(&view.ended_at),
        },
    )
}

/// A listing stops once it holds `limit` jobs.
pub fn listing_full(count: usize, limit: i64) -> (r: bool)
    ensures
        r == (count >= limit),
{
    count as i128 >= limit as i128
}

pub open spec fn not_running_message(job_id: Seq<char>) -> Seq<char> {
    "Job "@ + job_id + " is already terminal"@
}

fn not_running_error(job_id: &str) -> (e: ServerError)
    ensures
        e.status_code == 409,
        e.code@ == "job_not_running"@,
        e.message@ == not_running_message(job_id@),
{
    let a = concat_str("Job ", job_id);
    let m = concat_str(a.as_str(), " is already terminal");
    ServerError::new(409, "job_not_running", m.as_str())
}

/// Input goes only to a pty job that has not ended.
pub fn input_precheck(done: bool, mode: Mode, job_id: &str) -> (r: Result<(), ServerError>)
    ensures
        done ==> (r matches Err(e) && e.status_code == 409 && e.code@ == "job_not_running"@
            && e.message@ == not_running_message(job_id@)),
        !done && mode == Mode::Stdio ==> (r matches Err(e) && e.status_code == 409 && e.code@
            == "input_unsupported"@ && e.message@ == "stdio jobs do not support input"@),
        !done && mode == Mode::Pty ==> r is Ok,
{
    if done {
        return Err(not_running_error(job_id));
    }
    if mode == Mode::Stdio {
        return Err(ServerError::new(409, "input_unsupported", "stdio jobs do not support input"));
    }
    Ok(())
}

/// The error of an input that tmux refused: where the pane was gone and the
/// job has ended meanwhile, the job is not running; otherwise tmux's error.
pub fn input_failure(err: ServerError, done_now: Option<bool>, job_id: &str) -> (r: ServerError)
    ensures
        (err.code@ == "tmux_target_missing"@ && done_now == Some(true)) ==> r.status_code == 409
            && r.code@ == "job_not_running"@ && r.message@ == not_running_message(job_id@),
        !(err.code@ == "tmux_target_missing"@ && done_now == Some(true)) ==> r == err,
{
    if str_eq(err.code.as_str(), "tmux_target_missing") {
        if let Some(true) = done_now {
            return not_running_error(job_id);
        }
    }
    err
}

/// Deleting a running job needs `force`; then it is terminated first
/// (`Ok(true)`).
pub fn delete_precheck(done: bool, force: bool, job_id: &str) -> (r: Result<bool, ServerError>)
    ensures
        done ==> r == Ok::<bool, ServerError>(false),
        !done && force ==> r == Ok::<bool, ServerError>(true),
        !done && !force ==> (r matches Err(e) && e.status_code == 409 && e.code@ == "job_running"@
            && e.message@ == "Job "@ + job_id@ + " is still running"@),
{
    if done {
        Ok(false)
    } else if force {
        Ok(true)
    } else {
        let a = concat_str("Job ", job_id);
        let m = concat_str(a.as_str(), " is still running");
        Err(ServerError::new(409, "job_running", m.as_str()))
    }
}

pub fn delete_response(job_id: &str) -> (r: DeleteJobResponse)
    ensures
        r.job_id@ == job_id@,
        r.deleted,
{
    DeleteJobResponse { job_id: job_id.to_string(), deleted: true }
}

/// The garbage collector removes a job that has ended, with an end time
/// that reads as a timestamp no later than the cutoff (whole seconds since
/// the epoch).
pub fn gc_collects(done: bool, ended_secs: Option<i64>, cutoff_secs: i64) -> (r: bool)
    ensures
        r == (done && (ended_secs matches Some(t) && t <= cutoff_secs)),
{
    if !done {
        return false;
    }
    match ended_secs {
        Some(t) => t <= cutoff_secs,
        None => false,
    }
}

/// The directory a job runs in: the one asked for, or the default where
/// none (or an empty one) is given.
pub fn chosen_cwd(raw: Option<&str>, default_cwd: &str) -> (r: String)
    ensures
        r@ == (match raw {
            Some(s) => if s@.len() > 0 {
                s@
            } else {
                default_cwd@
            },
            None => default_cwd@,
        }),
{
    match raw {
        Some(s) => {
            if !s.is_empty() {
                s.to_string()
            } else {
                default_cwd.to_string()
            }
        },
        None => default_cwd.to_string(),
    }
}

pub fn invalid_cwd_error(shown: &str) -> (e: ServerError)
    ensures
        e.status_code == 400,
        e.code@ == "invalid_cwd"@,
        e.message@ == "cwd is not a directory: "@ + shown@,
{
    let m = concat_str("cwd is not a directory: ", shown);
    ServerError::new(400, "invalid_cwd", m.as_str())
}


/// The lower-case hex digit of a value below 16.
pub open spec fn hex_digit(d: int) -> char {
    if d < 10 {
        (0x30 + d) as char
    } else {
        (0x61 + d - 10) as char
    }
}

/// Each byte as two lower-case hex digits, high one first.
pub open spec fn hex_lower(b: Seq<u8>) -> Seq<char>
    decreases b.len(),
{
    if b.len() == 0 {
        Seq::empty()
    } else {
        hex_lower(b.drop_last()) + seq![hex_digit(b.last() as int / 16), hex_digit(b.last() as int % 16)]
    }
}

/// `hex::encode`, which writes each byte as two lower-case hex digits.
#[verifier::external_body]
fn hex_encode(bytes: &[u8]) -> (s: String)
    ensures
        s@ == hex_lower(bytes@),
{
    hex::encode(bytes)
}

/// `n` bytes from `rand`'s thread-local generator.
#[verifier::external_body]
fn random_bytes(n: usize) -> (b: Vec<u8>)
    ensures
        b@.len() == n,
{
    let mut b = vec![0u8; n];
    rand::RngCore::fill_bytes(&mut rand::thread_rng(), &mut b);
    b
}

pub open spec fn is_hex_digit(c: char) -> bool {
    ('0' <= c <= '9') || ('a' <= c <= 'f')
}

proof fn lemma_hex_lower(b: Seq<u8>)
    ensures
        hex_lower(b).len() == 2 * b.len(),
        forall|i: int| 0 <= i < hex_lower(b).len() ==> is_hex_digit(#[trigger] hex_lower(b)[i]),
    decreases b.len(),
{
    if b.len() > 0 {
        lemma_hex_lower(b.drop_last());
        let h = hex_lower(b);
        let init = hex_lower(b.drop_last());
        let x = b.last();
        assert(is_hex_digit(hex_digit(x as int / 16)));
        assert(is_hex_digit(hex_digit(x as int % 16)));
        assert forall|i: int| 0 <= i < h.len() implies is_hex_digit(#[trigger] h[i]) by {
            if i < init.len() {
                assert(h[i] == init[i]);
            }
        }
    }
}

/// A fresh job id: eight random bytes in hex, sixteen lower-case hex digits.
pub fn generate_job_id() -> (id: String)
    ensures
        id@.len() == 16,
        forall|i: int| 0 <= i < 16 ==> is_hex_digit(#[trigger] id@[i]),
{
    let b = random_bytes(8);
    proof {
        lemma_hex_lower(b@);
    }
    hex_encode(b.as_slice())
}

} // verus!

