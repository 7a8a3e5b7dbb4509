//! Job records: the status names a job goes through, the row that the
//! database keeps for a job, and the SQL statements that move a job from one
//! status to another.

use vstd::prelude::*;
use crate::jobmode::Mode;
use crate::text::{str_eq, concat_str};
use crate::errors::ServerError;

verus! {

#[derive(Debug, PartialEq, Eq)]
pub enum JobStatusName {
    Created,
    Starting,
    Running,
    Exited,
    Terminated,
    Failed,
    Lost,
    Other(String),
}

/// The name a status is stored under.
pub open spec fn status_name(s: JobStatusName) -> Seq<char> {
    match s {
        JobStatusName::Created => "created"@,
        JobStatusName::Starting => "starting"@,
        JobStatusName::Running => "running"@,
        JobStatusName::Exited => "exited"@,
        JobStatusName::Terminated => "terminated"@,
        JobStatusName::Failed => "failed"@,
        JobStatusName::Lost => "lost"@,
        JobStatusName::Other(t) => t@,
    }
}

/// The known status a stored name stands for, if it is one of them.
pub open spec fn status_of_name(raw: Seq<char>) -> Option<JobStatusName> {
    if raw == "created"@ {
        Some(JobStatusName::Created)
    } else if raw == "starting"@ {
        Some(JobStatusName::Starting)
    } else if raw == "running"@ {
        Some(JobStatusName::Running)
    } else if raw == "exited"@ {
        Some(JobStatusName::Exited)
    } else if raw == "terminated"@ {
        Some(JobStatusName::Terminated)
    } else if raw == "failed"@ {
        Some(JobStatusName::Failed)
    } else if raw == "lost"@ {
        Some(JobStatusName::Lost)
    } else {
        None
    }
}

/// A job in one of these statuses has ended and stays so.
pub open spec fn status_is_terminal(s: JobStatusName) -> bool {
    s is Exited || s is Terminated || s is Failed || s is Lost
}

impl JobStatusName {
    pub fn as_str(&self) -> (r: &str)
        ensures
            r@ == status_name(*self),
    {
        match self {
            JobStatusName::Created => "created",
            JobStatusName::Starting => "starting",
            JobStatusName::Running => "running",
            JobStatusName::Exited => "exited",
            JobStatusName::Terminated => "terminated",
            JobStatusName::Failed => "failed",
            JobStatusName::Lost => "lost",
            JobStatusName::Other(t) => t.as_str(),
        }
    }

    pub fn parse(s: &str) -> (r: JobStatusName)
        ensures
            status_name(r) == s@,
            match status_of_name(s@) {
                Some(k) => r == k,
                None => r is Other,
            },
    {
        if str_eq(s, "created") {
            JobStatusName::Created
        } else if str_eq(s, "starting") {
            JobStatusName::Starting
        } else if str_eq(s, "running") {
            JobStatusName::Running
        } else if str_eq(s, "exited") {
            JobStatusName::Exited
        } else if str_eq(s, "terminated") {
            JobStatusName::Terminated
        } else if str_eq(s, "failed") {
            JobStatusName::Failed
        } else if str_eq(s, "lost") {
            JobStatusName::Lost
        } else {
            JobStatusName::Other(s.to_string())
        }
    }

    pub fn is_terminal(&self) -> (r: bool)
        ensures
            r == status_is_terminal(*self),
    {
        match self {
            JobStatusName::Exited | JobStatusName::Terminated | JobStatusName::Failed
            | JobStatusName::Lost => true,
            _ => false,
        }
    }
}

impl Clone for JobStatusName {
    fn clone(&self) -> (r: Self)
        ensures
            r == *self,
    {
        match self {
            JobStatusName::Created => JobStatusName::Created,
            JobStatusName::Starting => JobStatusName::Starting,
            JobStatusName::Running => JobStatusName::Running,
            JobStatusName::Exited => JobStatusName::Exited,
            JobStatusName::Terminated => JobStatusName::Terminated,
            JobStatusName::Failed => JobStatusName::Failed,
            JobStatusName::Lost => JobStatusName::Lost,
            JobStatusName::Other(t) => JobStatusName::Other(t.clone()),
        }
    }
}

proof fn lemma_status_names_distinct()
    ensures
        "created"@.len() == 7 && "created"@[0] == 'c',
        "starting"@.len() == 8,
        "running"@.len() == 7 && "running"@[0] == 'r',
        "exited"@.len() == 6 && "exited"@[0] == 'e',
        "terminated"@.len() == 10,
        "failed"@.len() == 6 && "failed"@[0] == 'f',
        "lost"@.len() == 4,
{
    reveal_strlit("created");
    reveal_strlit("starting");
    reveal_strlit("running");
    reveal_strlit("exited");
    reveal_strlit("terminated");
    reveal_strlit("failed");
    reveal_strlit("lost");
}

/// A known status survives being stored and read back.
pub proof fn law_known_status_round_trip(s: JobStatusName)
    requires
        !(s is Other),
    ensures
        status_of_name(status_name(s)) == Some(s),
{
    lemma_status_names_distinct();
}

/// Whether a stored status name is one of a finished job.
pub fn is_terminal(status: &str) -> (r: bool)
    ensures
        r == (status@ == "exited"@ || status@ == "terminated"@ || status@ == "failed"@ || status@
            == "lost"@),
{
    str_eq(status, "exited") || str_eq(status, "terminated") || str_eq(status, "failed")
        || str_eq(status, "lost")
}

/// A stored name is terminal exactly when the status it stands for is.
pub proof fn law_terminal_names(raw: Seq<char>)
    ensures
        (status_of_name(raw) matches Some(k) && status_is_terminal(k)) == (raw == "exited"@ || raw == "terminated"@ || raw
            == "failed"@ || raw == "lost"@),
{
    lemma_status_names_distinct();
}

pub struct JobRow {
    pub job_id: String,
    pub script_path: String,
    pub output_path: String,
    pub mode: Mode,
    pub cwd: String,
    pub terminal_cols: i32,
    pub terminal_rows: i32,
    pub status: JobStatusName,
    pub session_name: String,
    pub pane_target: String,
    pub exit_code: Option<i32>,
    pub reason: Option<String>,
    pub message: Option<String>,
    pub created_at: String,
    pub started_at: Option<String>,
    pub ended_at: Option<String>,
    pub updated_at: String,
}

/// How a job moves to `target`: from which statuses, with which reason and
/// message, and (for a terminal target) at which end time, where an empty
/// one means now.
pub struct TransitionOpts {
    pub allowed_from: Vec<JobStatusName>,
    pub allow_override_from: Vec<JobStatusName>,
    pub target: JobStatusName,
    pub require_exit_code_null: bool,
    pub reason: Option<String>,
    pub message: Option<String>,
    pub ended_at: String,
}


/// A value bound to a `?` of a statement.
#[derive(Debug, PartialEq, Eq)]
pub enum SqlArg {
    Text(String),
    OptText(Option<String>),
    Int(i64),
    OptInt(Option<i64>),
}

pub enum SqlArgView {
    Text(Seq<char>),
    OptText(Option<Seq<char>>),
    Int(int),
    OptInt(Option<int>),
}

pub open spec fn opt_view(o: Option<String>) -> Option<Seq<char>> {
    match o {
        Some(t) => Some(t@),
        None => None,
    }
}

impl View for SqlArg {
    type V = SqlArgView;

    open spec fn view(&self) -> SqlArgView {
        match self {
            SqlArg::Text(t) => SqlArgView::Text(t@),
            SqlArg::OptText(o) => SqlArgView::OptText(opt_view(*o)),
            SqlArg::Int(n) => SqlArgView::Int(*n as int),
            SqlArg::OptInt(o) => SqlArgView::OptInt(
                match o {
                    Some(n) => Some(*n as int),
                    None => None,
                },
            ),
        }
    }
}

pub open spec fn args_view(v: Seq<SqlArg>) -> Seq<SqlArgView> {
    Seq::new(v.len(), |i: int| v[i]@)
}

pub open spec fn names_of(v: Seq<JobStatusName>) -> Seq<Seq<char>> {
    Seq::new(v.len(), |i: int| status_name(v[i]))
}

pub open spec fn text_args(v: Seq<Seq<char>>) -> Seq<SqlArgView> {
    Seq::new(v.len(), |i: int| SqlArgView::Text(v[i]))
}

/// The statuses a transition moves a job from: those allowed and those
/// overridden, or the target itself where neither is given.
pub open spec fn statuses_matched(o: TransitionOpts) -> Seq<Seq<char>> {
    let all = names_of(o.allowed_from@) + names_of(o.allow_override_from@);
    if all.len() == 0 {
        seq![status_name(o.target)]
    } else {
        all
    }
}

/// `n` placeholders separated by commas.
pub open spec fn question_marks(n: nat) -> Seq<char>
    decreases n,
{
    if n == 0 {
        Seq::empty()
    } else if n == 1 {
        "?"@
    } else {
        question_marks((n - 1) as nat) + ",?"@
    }
}

pub const SET_BASE: &'static str = "status = ?, updated_at = ?, reason = ?, message = ?";

pub const SET_STARTED: &'static str = ", started_at = CASE WHEN started_at IS NULL THEN ? ELSE started_at END";

pub const SET_ENDED: &'static str = ", ended_at = CASE WHEN ended_at IS NULL THEN ? ELSE ended_at END";

pub const SET_EXIT_CODE: &'static str = ", exit_code = CASE WHEN exit_code IS NULL THEN 0 ELSE exit_code END";

pub open spec fn starts_clock(t: JobStatusName) -> bool {
    t is Starting || t is Running
}

pub open spec fn transition_set_clause(o: TransitionOpts) -> Seq<char> {
    let s1 = if starts_clock(o.target) {
        SET_BASE@ + SET_STARTED@
    } else {
        SET_BASE@
    };
    if status_is_terminal(o.target) {
        s1 + SET_ENDED@ + SET_EXIT_CODE@
    } else {
        s1
    }
}

pub open spec fn transition_where_clause(o: TransitionOpts) -> Seq<char> {
    let w = "job_id = ? AND status IN ("@ + question_marks(statuses_matched(o).len()) + ")"@;
    if o.require_exit_code_null {
        w + " AND exit_code IS NULL"@
    } else {
        w
    }
}

/// The `UPDATE` that moves a job as `o` says.
pub open spec fn transition_sql(o: TransitionOpts) -> Seq<char> {
    "UPDATE jobs SET "@ + transition_set_clause(o) + " WHERE "@ + transition_where_clause(o)
}

/// The values for the placeholders of `transition_sql`, in order.
pub open spec fn transition_args(o: TransitionOpts, now: Seq<char>, job_id: Seq<char>) -> Seq<
    SqlArgView,
> {
    transition_set_args(o, now, job_id) + text_args(statuses_matched(o))
}

/// The values up to the job id: those of the `SET` clause, then the id.
pub open spec fn transition_set_args(o: TransitionOpts, now: Seq<char>, job_id: Seq<char>) -> Seq<
    SqlArgView,
> {
    let a0 = seq![
        SqlArgView::Text(status_name(o.target)),
        SqlArgView::Text(now),
        SqlArgView::OptText(opt_view(o.reason)),
        SqlArgView::OptText(opt_view(o.message)),
    ];
    let a1 = if starts_clock(o.target) {
        a0.push(SqlArgView::Text(now))
    } else {
        a0
    };
    let a2 = if status_is_terminal(o.target) {
        a1.push(
            SqlArgView::Text(
                if o.ended_at@.len() == 0 {
                    now
                } else {
                    o.ended_at@
                },
            ),
        )
    } else {
        a1
    };
    a2.push(SqlArgView::Text(job_id))
}

pub fn clone_opt(o: &Option<String>) -> (r: Option<String>)
    ensures
        r == *o,
{
    match o {
        Some(t) => Some(t.clone()),
        None => None,
    }
}

fn push_names(names: &mut Vec<String>, v: &Vec<JobStatusName>)
    ensures
        final(names)@.len() == old(names)@.len() + v@.len(),
        forall|i: int| 0 <= i < old(names)@.len() ==> #[trigger] final(names)@[i] == old(names)@[i],
        forall|i: int|
            0 <= i < v@.len() ==> #[trigger] final(names)@[old(names)@.len() + i]@ == status_name(
                v@[i],
            ),
{
    let ghost start = names@;
    let mut i: usize = 0;
    while i < v.len()
        invariant
            i <= v@.len(),
            names@.len() == start.len() + i,
            forall|j: int| 0 <= j < start.len() ==> #[trigger] names@[j] == start[j],
            forall|j: int| 0 <= j < i ==> #[trigger] names@[start.len() + j]@ == status_name(v@[j]),
        decreases v.len() - i,
    {
        let t = v[i].as_str().to_string();
        names.push(t);
        i = i + 1;
    }
}

/// Builds the `UPDATE` statement that moves job `job_id` as `opts` says,
/// with its arguments; `now` is the current timestamp.
pub fn transition_statement(opts: &TransitionOpts, now: &str, job_id: &str) -> (r: (String, Vec<SqlArg>))
    ensures
        r.0@ == transition_sql(*opts),
        args_view(r.1@) == transition_args(*opts, now@, job_id@),
{
    let mut all: Vec<String> = Vec::new();
    push_names(&mut all, &opts.allowed_from);
    let ghost a1 = all@;
    push_names(&mut all, &opts.allow_override_from);
    if all.len() == 0 {
        all.push(opts.target.as_str().to_string());
    }
    let ghost matched = statuses_matched(*opts);
    assert(all@.len() == matched.len() && forall|j: int| 0 <= j < matched.len() ==> #[trigger] all@[j]@ == matched[j]) by {
        let na = names_of(opts.allowed_from@);
        let no = names_of(opts.allow_override_from@);
        if na.len() + no.len() != 0 {
            assert forall|j: int| 0 <= j < matched.len() implies #[trigger] all@[j]@ == matched[j] by {
                if j < na.len() {
                    assert(a1[0 + j]@ == status_name(opts.allowed_from@[j]));
                    assert(all@[j] == a1[j]);
                } else {
                    assert(all@[na.len() + (j - na.len())]@ == status_name(opts.allow_override_from@[j - na.len()]));
                }
            }
        }
    }
    let mut marks = String::new();
    let mut k: usize = 0;
    while k < all.len()
        invariant
            k <= all@.len(),
            marks@ == question_marks(k as nat),
        decreases all.len() - k,
    {
        if k == 0 {
            marks = concat_str(marks.as_str(), "?");
        } else {
            marks = concat_str(marks.as_str(), ",?");
        }
        k = k + 1;
        assert(marks@ =~= question_marks(k as nat));
    }
    let mut set = SET_BASE.to_string();
    let mut args: Vec<SqlArg> = Vec::new();
    args.push(SqlArg::Text(opts.target.as_str().to_string()));
    args.push(SqlArg::Text(now.to_string()));
    args.push(SqlArg::OptText(clone_opt(&opts.reason)));
    args.push(SqlArg::OptText(clone_opt(&opts.message)));
    let ghost a0 = seq![
        SqlArgView::Text(status_name(opts.target)),
        SqlArgView::Text(now@),
        SqlArgView::OptText(opt_view(opts.reason)),
        SqlArgView::OptText(opt_view(opts.message)),
    ];
    assert(args_view(args@) =~= a0);
    let starts = match opts.target {
        JobStatusName::Starting | JobStatusName::Running => true,
        _ => false,
    };
    if starts {
        set = concat_str(set.as_str(), SET_STARTED);
        let ghost before = args@;
        args.push(SqlArg::Text(now.to_string()));
        assert(args_view(args@) =~= args_view(before).push(SqlArgView::Text(now@)));
    }
    let ghost a1 = args@;
    if opts.target.is_terminal() {
        let ended = if opts.ended_at.as_str().is_empty() {
            now.to_string()
        } else {
            opts.ended_at.clone()
        };
        set = concat_str(set.as_str(), SET_ENDED);
        args.push(SqlArg::Text(ended));
        assert(args_view(args@) =~= args_view(a1).push(SqlArgView::Text(if opts.ended_at@.len() == 0 { now@ } else { opts.ended_at@ })));
        set = concat_str(set.as_str(), SET_EXIT_CODE);
    }
    let ghost a2 = args@;
    let w0 = concat_str("job_id = ? AND status IN (", marks.as_str());
    let mut wh = concat_str(w0.as_str(), ")");
    if opts.require_exit_code_null {
        wh = concat_str(wh.as_str(), " AND exit_code IS NULL");
    }
    args.push(SqlArg::Text(job_id.to_string()));
    let ghost prefix = args@;
    assert(args_view(prefix) =~= args_view(a2).push(SqlArgView::Text(job_id@)));
    assert(args_view(prefix) =~= transition_set_args(*opts, now@, job_id@));
    let mut j: usize = 0;
    while j < all.len()
        invariant
            j <= all@.len(),
            all@.len() == matched.len(),
            forall|q: int| 0 <= q < matched.len() ==> #[trigger] all@[q]@ == matched[q],
            args@.len() == prefix.len() + j,
            forall|q: int| 0 <= q < prefix.len() ==> #[trigger] args@[q] == prefix[q],
            forall|q: int| 0 <= q < j ==> #[trigger] args@[prefix.len() + q]@ == SqlArgView::Text(matched[q]),
        decreases all.len() - j,
    {
        args.push(SqlArg::Text(all[j].clone()));
        j = j + 1;
    }
    let s0 = concat_str("UPDATE jobs SET ", set.as_str());
    let s1 = concat_str(s0.as_str(), " WHERE ");
    let sql = concat_str(s1.as_str(), wh.as_str());
    assert(args_view(args@) =~= transition_args(*opts, now@, job_id@)) by {
        let t = transition_args(*opts, now@, job_id@);
        assert(t.len() == args@.len());
        assert forall|q: int| 0 <= q < t.len() implies args_view(args@)[q] == t[q] by {
            if q < prefix.len() {
                assert(args_view(prefix)[q] == t[q]);
            } else {
                assert(args@[prefix.len() + (q - prefix.len())]@ == SqlArgView::Text(matched[q - prefix.len()]));
            }
        }
    }
    (sql, args)
}


/// The names of the statuses a job has before it ends.
pub open spec fn unfinished_args() -> Seq<SqlArgView> {
    seq![SqlArgView::Text("created"@), SqlArgView::Text("starting"@), SqlArgView::Text("running"@)]
}

/// The runner's own update of a job that it saw exit: every field changes
/// only while the job has not ended yet.
pub const RUNNER_EXIT_UPDATE: &'static str = "UPDATE jobs SET status = CASE WHEN status IN (?, ?, ?) THEN ? ELSE status END, exit_code = CASE WHEN status IN (?, ?, ?) THEN ? ELSE exit_code END, ended_at = CASE WHEN status IN (?, ?, ?) THEN ? ELSE ended_at END, updated_at = CASE WHEN status IN (?, ?, ?) THEN ? ELSE updated_at END, reason = CASE WHEN status IN (?, ?, ?) THEN NULL ELSE reason END, message = CASE WHEN status IN (?, ?, ?) THEN NULL ELSE message END WHERE job_id = ?";

/// The service's update of a job whose runner exit it found: as the runner's,
/// but an end time already set stays, and only an unfinished job is matched.
pub const SERVICE_EXIT_UPDATE: &'static str = "UPDATE jobs SET status = CASE WHEN status IN (?, ?, ?) THEN ? ELSE status END, exit_code = CASE WHEN status IN (?, ?, ?) THEN ? ELSE exit_code END, ended_at = CASE WHEN status IN (?, ?, ?) AND ended_at IS NULL THEN ? ELSE ended_at END, updated_at = CASE WHEN status IN (?, ?, ?) THEN ? ELSE updated_at END, reason = CASE WHEN status IN (?, ?, ?) THEN NULL ELSE reason END, message = CASE WHEN status IN (?, ?, ?) THEN NULL ELSE message END WHERE job_id = ? AND status IN (?, ?, ?)";

pub const STATUS_QUERY: &'static str = "SELECT status FROM jobs WHERE job_id = ?";

/// The arguments of `RUNNER_EXIT_UPDATE`.
pub open spec fn runner_exit_args_spec(exit_code: i32, ended_at: Seq<char>, job_id: Seq<char>) -> Seq<
    SqlArgView,
> {
    unfinished_args() + seq![SqlArgView::Text("exited"@)] + unfinished_args() + seq![
        SqlArgView::Int(exit_code as int),
    ] + unfinished_args() + seq![SqlArgView::Text(ended_at)] + unfinished_args() + seq![
        SqlArgView::Text(ended_at),
    ] + unfinished_args() + unfinished_args() + seq![SqlArgView::Text(job_id)]
}

fn push_unfinished(args: &mut Vec<SqlArg>)
    ensures
        args_view(final(args)@) == args_view(old(args)@) + unfinished_args(),
{
    let ghost start = args@;
    args.push(SqlArg::Text("created".to_string()));
    args.push(SqlArg::Text("starting".to_string()));
    args.push(SqlArg::Text("running".to_string()));
    assert(args_view(args@) =~= args_view(start) + unfinished_args());
}

fn push_arg(args: &mut Vec<SqlArg>, a: SqlArg)
    ensures
        args_view(final(args)@) == args_view(old(args)@) + seq![a@],
{
    let ghost start = args@;
    args.push(a);
    assert(args_view(args@) =~= args_view(start) + seq![a@]);
}

/// The arguments of `RUNNER_EXIT_UPDATE` for a job that exited with
/// `exit_code` at `ended_at`.
pub fn runner_exit_args(exit_code: i32, ended_at: &str, job_id: &str) -> (r: Vec<SqlArg>)
    ensures
        args_view(r@) == runner_exit_args_spec(exit_code, ended_at@, job_id@),
{
    let mut a: Vec<SqlArg> = Vec::new();
    assert(args_view(a@) =~= Seq::<SqlArgView>::empty());
    push_unfinished(&mut a);
    push_arg(&mut a, SqlArg::Text("exited".to_string()));
    push_unfinished(&mut a);
    push_arg(&mut a, SqlArg::Int(exit_code as i64));
    push_unfinished(&mut a);
    push_arg(&mut a, SqlArg::Text(ended_at.to_string()));
    push_unfinished(&mut a);
    push_arg(&mut a, SqlArg::Text(ended_at.to_string()));
    push_unfinished(&mut a);
    push_unfinished(&mut a);
    push_arg(&mut a, SqlArg::Text(job_id.to_string()));
    assert(args_view(a@) =~= runner_exit_args_spec(exit_code, ended_at@, job_id@));
    a
}

/// The arguments of `SERVICE_EXIT_UPDATE`: those of the runner's update,
/// then the unfinished statuses once more.
pub fn service_exit_args(exit_code: i32, ended_at: &str, job_id: &str) -> (r: Vec<SqlArg>)
    ensures
        args_view(r@) == runner_exit_args_spec(exit_code, ended_at@, job_id@) + unfinished_args(),
{
    let mut a = runner_exit_args(exit_code, ended_at, job_id);
    push_unfinished(&mut a);
    a
}

/// What recording a runner's exit does, given the status stored for the job.
#[derive(Debug, PartialEq, Eq)]
pub enum ExitRecordStep {
    /// No such job.
    UnknownJob,
    /// The job has ended already; nothing is written.
    AlreadyFinished,
    /// The job is updated.
    Update,
}

pub open spec fn terminal_name(s: Seq<char>) -> bool {
    s == "exited"@ || s == "terminated"@ || s == "failed"@ || s == "lost"@
}

pub fn runner_exit_step(status: Option<&str>) -> (r: ExitRecordStep)
    ensures
        match status {
            None => r is UnknownJob,
            Some(s) => if terminal_name(s@) {
                r is AlreadyFinished
            } else {
                r is Update
            },
        },
{
    match status {
        None => ExitRecordStep::UnknownJob,
        Some(s) => {
            if is_terminal(s) {
                ExitRecordStep::AlreadyFinished
            } else {
                ExitRecordStep::Update
            }
        },
    }
}

/// The runner's message for a job id that the database does not hold.
pub fn unknown_job_message(job_id: &str) -> (s: String)
    ensures
        s@ == "unknown job id: "@ + job_id@,
{
    concat_str("unknown job id: ", job_id)
}

/// The runner's verdict once its update ran: a job that no row matched is
/// unknown.
pub fn runner_exit_outcome(updated_rows: usize, job_id: &str) -> (r: Result<(), String>)
    ensures
        updated_rows == 0 <==> r is Err,
        r is Err ==> r->Err_0@ == "unknown job id: "@ + job_id@,
{
    if updated_rows == 0 {
        Err(unknown_job_message(job_id))
    } else {
        Ok(())
    }
}

/// The service's verdict once its update ran.
pub fn service_exit_outcome(updated_rows: usize) -> (r: Result<(), ServerError>)
    ensures
        updated_rows == 0 <==> r is Err,
        r is Err ==> r->Err_0.status_code == 404 && r->Err_0.code@ == crate::errors::JOB_NOT_FOUND_CODE@,
{
    if updated_rows == 0 {
        Err(ServerError::job_not_found())
    } else {
        Ok(())
    }
}


pub const INSERT_JOB: &'static str = "INSERT INTO jobs (job_id, script_path, output_path, mode, cwd, terminal_cols, terminal_rows, status, session_name, pane_target, exit_code, reason, message, created_at, started_at, ended_at, updated_at) VALUES (?1, ?2, ?3, ?4, ?5, ?6, ?7, ?8, ?9, ?10, ?11, ?12, ?13, ?14, ?15, ?16, ?17)";

pub open spec fn opt_int(o: Option<i32>) -> Option<int> {
    match o {
        Some(n) => Some(n as int),
        None => None,
    }
}

/// The arguments of `INSERT_JOB` for a row, in column order.
pub open spec fn insert_args_spec(row: JobRow) -> Seq<SqlArgView> {
    seq![
        SqlArgView::Text(row.job_id@),
        SqlArgView::Text(row.script_path@),
        SqlArgView::Text(row.output_path@),
        SqlArgView::Text(crate::jobmode::mode_name(row.mode)),
        SqlArgView::Text(row.cwd@),
        SqlArgView::Int(row.terminal_cols as int),
        SqlArgView::Int(row.terminal_rows as int),
        SqlArgView::Text(status_name(row.status)),
        SqlArgView::Text(row.session_name@),
        SqlArgView::Text(row.pane_target@),
        SqlArgView::OptInt(opt_int(row.exit_code)),
        SqlArgView::OptText(opt_view(row.reason)),
        SqlArgView::OptText(opt_view(row.message)),
        SqlArgView::Text(row.created_at@),
        SqlArgView::OptText(opt_view(row.started_at)),
        SqlArgView::OptText(opt_view(row.ended_at)),
        SqlArgView::Text(row.updated_at@),
    ]
}

pub fn insert_args(row: &JobRow) -> (r: Vec<SqlArg>)
    ensures
        args_view(r@) == insert_args_spec(*row),
{
    let mut a: Vec<SqlArg> = Vec::new();
    a.push(SqlArg::Text(row.job_id.clone()));
    a.push(SqlArg::Text(row.script_path.clone()));
    a.push(SqlArg::Text(row.output_path.clone()));
    a.push(SqlArg::Text(row.mode.as_str().to_string()));
    a.push(SqlArg::Text(row.cwd.clone()));
    a.push(SqlArg::Int(row.terminal_cols as i64));
    a.push(SqlArg::Int(row.terminal_rows as i64));
    a.push(SqlArg::Text(row.status.as_str().to_string()));
    a.push(SqlArg::Text(row.session_name.clone()));
    a.push(SqlArg::Text(row.pane_target.clone()));
    let code = match row.exit_code {
        Some(c) => Some(c as i64),
        None => None,
    };
    a.push(SqlArg::OptInt(code));
    a.push(SqlArg::OptText(clone_opt(&row.reason)));
    a.push(SqlArg::OptText(clone_opt(&row.message)));
    a.push(SqlArg::Text(row.created_at.clone()));
    a.push(SqlArg::OptText(clone_opt(&row.started_at)));
    a.push(SqlArg::OptText(clone_opt(&row.ended_at)));
    a.push(SqlArg::Text(row.updated_at.clone()));
    assert(args_view(a@) =~= insert_args_spec(*row));
    a
}

/// An insert refused because the id exists already is no failure: the id
/// collided (`Ok(false)`).
pub fn insert_verdict(result: Result<usize, String>) -> (r: Result<bool, String>)
    ensures
        match result {
            Ok(_) => r == Ok::<bool, String>(true),
            Err(m) => if crate::tmux::contains_seq(m@, "UNIQUE constraint failed"@) {
                r == Ok::<bool, String>(false)
            } else {
                r matches Err(e) && e@ == m@
            },
        },
{
    match result {
        Ok(_) => Ok(true),
        Err(m) => {
            if crate::tmux::text_contains(m.as_str(), "UNIQUE constraint failed") {
                Ok(false)
            } else {
                Err(m)
            }
        },
    }
}

pub const SELECT_JOBS: &'static str = "SELECT job_id, script_path, output_path, mode, cwd, terminal_cols, terminal_rows, status, session_name, pane_target, exit_code, reason, message, created_at, started_at, ended_at, updated_at FROM jobs";

/// `?1,?2,...,?n`.
pub open spec fn numbered_marks(n: nat) -> Seq<char>
    decreases n,
{
    if n == 0 {
        Seq::empty()
    } else if n == 1 {
        "?1"@
    } else {
        numbered_marks((n - 1) as nat) + ",?"@ + crate::text::ascii_chars(crate::text::decimal(n))
    }
}

/// The query of all jobs, or of those in the given statuses, newest first.
pub open spec fn list_sql(n: nat) -> Seq<char> {
    if n == 0 {
        SELECT_JOBS@ + " ORDER BY created_at DESC"@
    } else {
        SELECT_JOBS@ + " WHERE status IN ("@ + numbered_marks(n) + ") ORDER BY created_at DESC"@
    }
}

pub fn list_jobs_statement(statuses: &Vec<JobStatusName>) -> (r: (String, Vec<SqlArg>))
    ensures
        r.0@ == list_sql(statuses@.len() as nat),
        args_view(r.1@) == text_args(names_of(statuses@)),
{
    let mut args: Vec<SqlArg> = Vec::new();
    let mut marks = String::new();
    let mut i: usize = 0;
    while i < statuses.len()
        invariant
            i <= statuses@.len(),
            marks@ == numbered_marks(i as nat),
            args_view(args@) == text_args(names_of(statuses@).take(i as int)),
        decreases statuses.len() - i,
    {
        let ghost before = args@;
        let t = statuses[i].as_str().to_string();
        assert(t@ == status_name(statuses@[i as int]));
        args.push(SqlArg::Text(t));
        assert(args_view(args@) =~= args_view(before).push(SqlArgView::Text(status_name(statuses@[i as int]))));
        assert(text_args(names_of(statuses@).take(i + 1)) =~= text_args(names_of(statuses@).take(i as int)).push(SqlArgView::Text(status_name(statuses@[i as int]))));
        if i == 0 {
            marks = "?1".to_string();
        } else {
            let d = crate::text::decimal_text((i + 1) as u64);
            let a = concat_str(marks.as_str(), ",?");
            marks = concat_str(a.as_str(), d.as_str());
        }
        i = i + 1;
        assert(marks@ =~= numbered_marks(i as nat));
    }
    assert(names_of(statuses@).take(statuses@.len() as int) =~= names_of(statuses@));
    if statuses.len() == 0 {
        (concat_str(SELECT_JOBS, " ORDER BY created_at DESC"), args)
    } else {
        let a = concat_str(SELECT_JOBS, " WHERE status IN (");
        let b = concat_str(a.as_str(), marks.as_str());
        (concat_str(b.as_str(), ") ORDER BY created_at DESC"), args)
    }
}

/// The schema version this service writes.
pub const LATEST_SCHEMA_VERSION: i32 = 1;

/// What opening the database does to its schema: create the table (at
/// version 0), then migrate one version at a time up to the latest. A newer
/// schema is refused.
pub fn schema_plan(current: i32) -> (r: Result<(bool, Vec<i32>), String>)
    ensures
        current > LATEST_SCHEMA_VERSION ==> (r matches Err(e) && e@ == "database schema version "@
            + crate::output::signed_decimal(current as int) + " is newer than supported version 1"@),
        current <= LATEST_SCHEMA_VERSION ==> (r matches Ok((create, steps)) && create == (current == 0)
            && steps@ == if current < LATEST_SCHEMA_VERSION {
            Seq::new((LATEST_SCHEMA_VERSION - current) as nat, |k: int| (current + 1 + k) as i32)
        } else {
            Seq::<i32>::empty()
        }),
{
    if current > LATEST_SCHEMA_VERSION {
        let d = crate::output::signed_decimal_text(current as i64);
        let a = concat_str("database schema version ", d.as_str());
        return Err(concat_str(a.as_str(), " is newer than supported version 1"));
    }
    let mut steps: Vec<i32> = Vec::new();
    let mut v = current;
    while v < LATEST_SCHEMA_VERSION
        invariant
            current <= v <= LATEST_SCHEMA_VERSION,
            steps@ == Seq::new((v - current) as nat, |k: int| (current + 1 + k) as i32),
        decreases LATEST_SCHEMA_VERSION - v,
    {
        steps.push(v + 1);
        v = v + 1;
        assert(steps@ =~= Seq::new((v - current) as nat, |k: int| (current + 1 + k) as i32));
    }
    if current >= LATEST_SCHEMA_VERSION {
        assert(steps@ =~= Seq::<i32>::empty());
    }
    Ok((current == 0, steps))
}

/// The mode stored for a job; an unknown name reads as `pty`.
pub fn stored_mode(text: &str) -> (m: Mode)
    ensures
        m == match crate::jobmode::mode_of_name(text@) {
            Some(k) => k,
            None => Mode::Pty,
        },
{
    match crate::jobmode::parse(text) {
        Ok(m) => m,
        Err(_) => Mode::Pty,
    }
}

} // verus!

