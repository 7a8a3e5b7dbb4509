//! How the service talks to tmux: the shell commands it hands tmux, and what
//! it reads from tmux's answers.

use vstd::prelude::*;
use crate::errors::ServerError;
use crate::jobmode::{Mode, mode_name};
use crate::output::{signed_decimal, signed_decimal_text};
use crate::text::{chars_of, string_of_chars, concat_str, trim_text, trimmed, str_eq};

verus! {

/// What `str::to_lowercase` makes of a text (Unicode lower-case mapping).
pub uninterp spec fn lowercase(s: Seq<char>) -> Seq<char>;

/// `str::to_lowercase`.
#[verifier::external_body]
fn lowercase_text(s: &str) -> (r: String)
    ensures
        r@ == lowercase(s@),
{
    s.to_lowercase()
}

/// `t` occurs in `s`.
pub open spec fn contains_seq(s: Seq<char>, t: Seq<char>) -> bool {
    exists|i: int| 0 <= i && i + t.len() <= s.len() && #[trigger] s.subrange(i, i + t.len()) == t
}

fn matches_at(s: &Vec<char>, t: &Vec<char>, i: usize) -> (r: bool)
    requires
        i + t@.len() <= s@.len(),
    ensures
        r == (s@.subrange(i as int, i + t@.len()) == t@),
{
    let mut k: usize = 0;
    while k < t.len()
        invariant
            k <= t@.len(),
            i + t@.len() <= s.len(),
            forall|q: int| 0 <= q < k ==> s@[i + q] == t@[q],
        decreases t.len() - k,
    {
        if s[i + k] != t[k] {
            assert(s@.subrange(i as int, i + t@.len())[k as int] != t@[k as int]);
            return false;
        }
        k = k + 1;
    }
    assert(s@.subrange(i as int, i + t@.len()) =~= t@);
    true
}

pub fn text_contains(s: &str, t: &str) -> (r: bool)
    ensures
        r == contains_seq(s@, t@),
{
    let sc = chars_of(s);
    let tc = chars_of(t);
    if tc.len() > sc.len() {
        return false;
    }
    let last = sc.len() - tc.len();
    let mut i: usize = 0;
    loop
        invariant
            last == sc@.len() - tc@.len(),
            i <= last,
            sc@ == s@,
            tc@ == t@,
            forall|j: int| 0 <= j < i ==> #[trigger] sc@.subrange(j, j + tc@.len()) != tc@,
        decreases last + 1 - i,
    {
        if matches_at(&sc, &tc, i) {
            return true;
        }
        if i == last {
            return false;
        }
        i = i + 1;
    }
}

/// Whether tmux's error text says that the pane, the session or the server
/// is gone.
pub fn is_tmux_target_missing(stderr: &str) -> (r: bool)
    ensures
        r == ({
            let l = lowercase(stderr@);
            contains_seq(l, "can't find pane"@) || contains_seq(l, "can't find session"@)
                || contains_seq(l, "no server running"@) || contains_seq(l, "failed to connect"@)
                || contains_seq(l, "server exited unexpectedly"@)
        }),
{
    let lower = lowercase_text(stderr);
    let l = lower.as_str();
    text_contains(l, "can't find pane") || text_contains(l, "can't find session") || text_contains(
        l,
        "no server running",
    ) || text_contains(l, "failed to connect") || text_contains(l, "server exited unexpectedly")
}

/// The text of `s` with each `'` written as `'\''`.
pub open spec fn quote_body(s: Seq<char>) -> Seq<char>
    decreases s.len(),
{
    if s.len() == 0 {
        Seq::empty()
    } else {
        quote_body(s.drop_last()) + if s.last() == '\'' {
            seq!['\'', '\\', '\'', '\'']
        } else {
            seq![s.last()]
        }
    }
}

/// `s` as a single-quoted word of the shell.
pub open spec fn quoted(s: Seq<char>) -> Seq<char> {
    seq!['\''] + quote_body(s) + seq!['\'']
}

pub fn shell_quote(s: &str) -> (r: String)
    ensures
        r@ == quoted(s@),
{
    let cs = chars_of(s);
    let mut out: Vec<char> = Vec::new();
    out.push('\'');
    let mut i: usize = 0;
    while i < cs.len()
        invariant
            i <= cs@.len(),
            out@ == seq!['\''] + quote_body(cs@.take(i as int)),
        decreases cs.len() - i,
    {
        let c = cs[i];
        let ghost before = out@;
        if c == '\'' {
            out.push('\'');
            out.push('\\');
            out.push('\'');
            out.push('\'');
        } else {
            out.push(c);
        }
        proof {
            let t1 = cs@.take(i + 1);
            assert(t1.drop_last() =~= cs@.take(i as int));
            assert(t1.last() == c);
            assert(out@ =~= seq!['\''] + quote_body(t1));
        }
        i = i + 1;
    }
    out.push('\'');
    assert(cs@.take(cs@.len() as int) =~= cs@);
    assert(out@ =~= quoted(s@));
    string_of_chars(&out)
}

/// The words, each quoted, separated by spaces.
pub open spec fn join_quoted(ps: Seq<Seq<char>>) -> Seq<char>
    decreases ps.len(),
{
    if ps.len() == 0 {
        Seq::empty()
    } else if ps.len() == 1 {
        quoted(ps[0])
    } else {
        join_quoted(ps.drop_last()) + seq![' '] + quoted(ps.last())
    }
}

pub open spec fn str_views(ps: Seq<&str>) -> Seq<Seq<char>> {
    Seq::new(ps.len(), |i: int| ps[i]@)
}

pub open spec fn string_views(ps: Seq<String>) -> Seq<Seq<char>> {
    Seq::new(ps.len(), |i: int| ps[i]@)
}

/// A command line from words: each quoted, joined with spaces.
pub fn shell_join(parts: &[&str]) -> (r: String)
    ensures
        r@ == join_quoted(str_views(parts@)),
{
    let mut out = String::new();
    let mut i: usize = 0;
    while i < parts.len()
        invariant
            i <= parts@.len(),
            out@ == join_quoted(str_views(parts@).take(i as int)),
        decreases parts.len() - i,
    {
        let q = shell_quote(parts[i]);
        proof {
            let t1 = str_views(parts@).take(i + 1);
            assert(t1.drop_last() =~= str_views(parts@).take(i as int));
            assert(t1.last() == parts@[i as int]@);
        }
        if i == 0 {
            out = q;
            assert(str_views(parts@).take(1) =~= seq![parts@[0]@]);
        } else {
            let a = concat_str(out.as_str(), " ");
            out = concat_str(a.as_str(), q.as_str());
            proof {
                reveal_strlit(" ");
            }
        }
        i = i + 1;
    }
    assert(str_views(parts@).take(parts@.len() as int) =~= str_views(parts@));
    out
}

/// `shell_join` for owned words.
pub fn shell_join_strings(parts: &Vec<String>) -> (r: String)
    ensures
        r@ == join_quoted(string_views(parts@)),
{
    let mut out = String::new();
    let mut i: usize = 0;
    while i < parts.len()
        invariant
            i <= parts@.len(),
            out@ == join_quoted(string_views(parts@).take(i as int)),
        decreases parts.len() - i,
    {
        let q = shell_quote(parts[i].as_str());
        proof {
            let t1 = string_views(parts@).take(i + 1);
            assert(t1.drop_last() =~= string_views(parts@).take(i as int));
            assert(t1.last() == parts@[i as int]@);
        }
        if i == 0 {
            out = q;
            assert(string_views(parts@).take(1) =~= seq![parts@[0]@]);
        } else {
            let a = concat_str(out.as_str(), " ");
            out = concat_str(a.as_str(), q.as_str());
            proof {
                reveal_strlit(" ");
            }
        }
        i = i + 1;
    }
    assert(string_views(parts@).take(parts@.len() as int) =~= string_views(parts@));
    out
}

/// The arguments of the `tmux new-session` call that opens a job's session:
/// detached, named after the job, sized to the terminal, and running the
/// runner with the job directory, the job id, the working directory and the
/// mode's name as one quoted command line.
pub fn new_session_args(
    runner: &str,
    job_dir: &str,
    job_id: &str,
    cwd: &str,
    mode: Mode,
    cols: i32,
    rows: i32,
) -> (r: Vec<String>)
    ensures
        string_views(r@) == seq![
            "-f"@,
            "/dev/null"@,
            "new-session"@,
            "-d"@,
            "-s"@,
            "shellctl-"@ + job_id@,
            "-x"@,
            signed_decimal(cols as int),
            "-y"@,
            signed_decimal(rows as int),
            join_quoted(seq![runner@, job_dir@, job_id@, cwd@, mode_name(mode)]),
        ],
{
    let mut words: Vec<String> = Vec::new();
    words.push(runner.to_string());
    words.push(job_dir.to_string());
    words.push(job_id.to_string());
    words.push(cwd.to_string());
    words.push(mode.as_str().to_string());
    assert(string_views(words@) =~= seq![runner@, job_dir@, job_id@, cwd@, mode_name(mode)]);
    let command = shell_join_strings(&words);
    let mut r: Vec<String> = Vec::new();
    r.push("-f".to_string());
    r.push("/dev/null".to_string());
    r.push("new-session".to_string());
    r.push("-d".to_string());
    r.push("-s".to_string());
    r.push(crate::timestamps::job_session_name(job_id));
    r.push("-x".to_string());
    r.push(signed_decimal_text(cols as i64));
    r.push("-y".to_string());
    r.push(signed_decimal_text(rows as i64));
    r.push(command);
    assert(string_views(r@) =~= seq![
        "-f"@,
        "/dev/null"@,
        "new-session"@,
        "-d"@,
        "-s"@,
        "shellctl-"@ + job_id@,
        "-x"@,
        signed_decimal(cols as int),
        "-y"@,
        signed_decimal(rows as int),
        join_quoted(seq![runner@, job_dir@, job_id@, cwd@, mode_name(mode)]),
    ]);
    r
}

/// Whether `#{pane_pipe}` printed `1`: the pane's output pipe runs.
pub fn pipe_active_from(stdout: &str) -> (r: bool)
    ensures
        r == (trimmed(stdout@) == "1"@),
{
    str_eq(trim_text(stdout), "1")
}

/// The error of a tmux command whose failure the service does not expect:
/// its trimmed error output, or a fixed text where there is none.
pub fn tmux_command_error(stderr: &str) -> (e: ServerError)
    ensures
        e.status_code == 500,
        e.code@ == "tmux_error"@,
        e.message@ == if trimmed(stderr@).len() == 0 {
            "tmux command failed"@
        } else {
            trimmed(stderr@)
        },
{
    let t = trim_text(stderr);
    if t.is_empty() {
        ServerError::new(500, "tmux_error", "tmux command failed")
    } else {
        ServerError::new(500, "tmux_error", t)
    }
}

/// What a failed query of tmux means: where the target is gone, nothing
/// (`Ok`); otherwise a `tmux_error` with the trimmed error output.
pub fn tmux_query_failure(stderr: &str) -> (r: Result<(), ServerError>)
    ensures
        ({
            let t = trimmed(stderr@);
            let l = lowercase(t);
            let missing = contains_seq(l, "can't find pane"@) || contains_seq(l, "can't find session"@)
                || contains_seq(l, "no server running"@) || contains_seq(l, "failed to connect"@)
                || contains_seq(l, "server exited unexpectedly"@);
            &&& missing ==> r is Ok
            &&& !missing ==> (r matches Err(e) && e.status_code == 500 && e.code@ == "tmux_error"@
                && e.message@ == t)
        }),
{
    let t = trim_text(stderr);
    if is_tmux_target_missing(t) {
        Ok(())
    } else {
        Err(ServerError::new(500, "tmux_error", t))
    }
}

/// The error of input that tmux did not take: `tmux_target_missing` (409)
/// where the target is gone, else `tmux_input_failed`.
pub fn tmux_input_error(stderr: &str) -> (e: ServerError)
    ensures
        ({
            let t = trimmed(stderr@);
            let l = lowercase(t);
            let missing = contains_seq(l, "can't find pane"@) || contains_seq(l, "can't find session"@)
                || contains_seq(l, "no server running"@) || contains_seq(l, "failed to connect"@)
                || contains_seq(l, "server exited unexpectedly"@);
            &&& missing ==> e.status_code == 409 && e.code@ == "tmux_target_missing"@
            &&& !missing ==> e.status_code == 500 && e.code@ == "tmux_input_failed"@
            &&& e.message@ == t
        }),
{
    let t = trim_text(stderr);
    if is_tmux_target_missing(t) {
        ServerError::new(409, "tmux_target_missing", t)
    } else {
        ServerError::new(500, "tmux_input_failed", t)
    }
}

/// The files of a job that its output pipe reads and writes.
pub struct PipePaths {
    pub ready_file: String,
    pub output: String,
    pub drained: String,
    pub error_log: String,
    pub failed: String,
    pub exit_code: String,
    pub ended_at: String,
}

/// The shell command that pipes a pane's output through the sanitizer into
/// the job's log, marks the pipe drained (or failed), and then reports the
/// runner's exit to the database.
pub open spec fn pipe_command_spec(sanitize: Seq<char>, runner_exit: Seq<char>, p: PipePaths) -> Seq<char> {
    let out = quoted(p.output@);
    let drained = quoted(p.drained@);
    let err = quoted(p.error_log@);
    let failed = quoted(p.failed@);
    let code = quoted(p.exit_code@);
    let ended = quoted(p.ended_at@);
    sanitize + " >> "@ + out + " 2> "@ + err
        + " ; sanitize_status=$? ; runner_exit_status=0 ; if [ \"$sanitize_status\" -eq 0 ]; then : > "@
        + drained + "; if [ -s "@ + code + " ] && [ -s "@ + ended + " ]; then "@ + runner_exit
        + " --exit-code \"$(cat "@ + code + ")\" --ended-at \"$(cat "@ + ended + ")\" 2>> "@ + err
        + "; runner_exit_status=$?; if [ \"$runner_exit_status\" -ne 0 ]; then printf 'runner-exit failed with status %s\\n' \"$runner_exit_status\" >> "@
        + err + "; fi; fi; else : > "@ + failed
        + "; fi ; if [ \"$sanitize_status\" -ne 0 ]; then exit \"$sanitize_status\"; fi ; exit \"$sanitize_status\""@
}

/// The sanitizer's words: its command, then `--ready-file` and the file.
pub open spec fn sanitize_words(cmd: Seq<Seq<char>>, ready: Seq<char>) -> Seq<Seq<char>> {
    cmd + seq!["--ready-file"@, ready]
}

/// The runner-exit words: its command, then the state directory, the job id
/// and the database's busy timeout.
pub open spec fn runner_exit_words(cmd: Seq<Seq<char>>, state_dir: Seq<char>, job_id: Seq<char>, busy_ms: i32) -> Seq<Seq<char>> {
    cmd + seq![
        "--state-dir"@,
        state_dir,
        "--job-id"@,
        job_id,
        "--sqlite-busy-timeout-ms"@,
        signed_decimal(busy_ms as int),
    ]
}

fn push_word(v: &mut Vec<String>, w: String)
    ensures
        string_views(final(v)@) == string_views(old(v)@).push(w@),
{
    let ghost before = v@;
    v.push(w);
    assert(string_views(v@) =~= string_views(before).push(w@));
}

fn copy_words(cmd: &Vec<String>) -> (r: Vec<String>)
    ensures
        string_views(r@) == string_views(cmd@),
{
    let mut r: Vec<String> = Vec::new();
    let mut i: usize = 0;
    while i < cmd.len()
        invariant
            i <= cmd@.len(),
            string_views(r@) == string_views(cmd@).take(i as int),
        decreases cmd.len() - i,
    {
        push_word(&mut r, cmd[i].clone());
        assert(string_views(cmd@).take(i + 1) =~= string_views(cmd@).take(i as int).push(cmd@[i as int]@));
        i = i + 1;
    }
    assert(string_views(cmd@).take(cmd@.len() as int) =~= string_views(cmd@));
    r
}

pub fn build_pipe_command(
    sanitize_cmd: &Vec<String>,
    runner_exit_cmd: &Vec<String>,
    state_dir: &str,
    job_id: &str,
    busy_ms: i32,
    paths: &PipePaths,
) -> (r: String)
    ensures
        r@ == pipe_command_spec(
            join_quoted(sanitize_words(string_views(sanitize_cmd@), paths.ready_file@)),
            join_quoted(runner_exit_words(string_views(runner_exit_cmd@), state_dir@, job_id@, busy_ms)),
            *paths,
        ),
{
    let mut sw = copy_words(sanitize_cmd);
    push_word(&mut sw, "--ready-file".to_string());
    push_word(&mut sw, paths.ready_file.clone());
    assert(string_views(sw@) =~= sanitize_words(string_views(sanitize_cmd@), paths.ready_file@));
    let sanitize = shell_join_strings(&sw);
    let mut ew = copy_words(runner_exit_cmd);
    push_word(&mut ew, "--state-dir".to_string());
    push_word(&mut ew, state_dir.to_string());
    push_word(&mut ew, "--job-id".to_string());
    push_word(&mut ew, job_id.to_string());
    push_word(&mut ew, "--sqlite-busy-timeout-ms".to_string());
    push_word(&mut ew, signed_decimal_text(busy_ms as i64));
    assert(string_views(ew@) =~= runner_exit_words(string_views(runner_exit_cmd@), state_dir@, job_id@, busy_ms));
    let runner_exit = shell_join_strings(&ew);
    let out = shell_quote(paths.output.as_str());
    let drained = shell_quote(paths.drained.as_str());
    let err = shell_quote(paths.error_log.as_str());
    let failed = shell_quote(paths.failed.as_str());
    let code = shell_quote(paths.exit_code.as_str());
    let ended = shell_quote(paths.ended_at.as_str());
    let mut s = concat_str(sanitize.as_str(), " >> ");
    s = concat_str(s.as_str(), out.as_str());
    s = concat_str(s.as_str(), " 2> ");
    s = concat_str(s.as_str(), err.as_str());
    s = concat_str(s.as_str(), " ; sanitize_status=$? ; runner_exit_status=0 ; if [ \"$sanitize_status\" -eq 0 ]; then : > ");
    s = concat_str(s.as_str(), drained.as_str());
    s = concat_str(s.as_str(), "; if [ -s ");
    s = concat_str(s.as_str(), code.as_str());
    s = concat_str(s.as_str(), " ] && [ -s ");
    s = concat_str(s.as_str(), ended.as_str());
    s = concat_str(s.as_str(), " ]; then ");
    s = concat_str(s.as_str(), runner_exit.as_str());
    s = concat_str(s.as_str(), " --exit-code \"$(cat ");
    s = concat_str(s.as_str(), code.as_str());
    s = concat_str(s.as_str(), ")\" --ended-at \"$(cat ");
    s = concat_str(s.as_str(), ended.as_str());
    s = concat_str(s.as_str(), ")\" 2>> ");
    s = concat_str(s.as_str(), err.as_str());
    s = concat_str(s.as_str(), "; runner_exit_status=$?; if [ \"$runner_exit_status\" -ne 0 ]; then printf 'runner-exit failed with status %s\\n' \"$runner_exit_status\" >> ");
    s = concat_str(s.as_str(), err.as_str());
    s = concat_str(s.as_str(), "; fi; fi; else : > ");
    s = concat_str(s.as_str(), failed.as_str());
    s = concat_str(s.as_str(), "; fi ; if [ \"$sanitize_status\" -ne 0 ]; then exit \"$sanitize_status\"; fi ; exit \"$sanitize_status\"");
    s
}


/// Lines kept so far: trimmed, the empty ones left out.
pub open spec fn flush_line(done: Seq<Seq<char>>, cur: Seq<char>) -> Seq<Seq<char>> {
    if trimmed(cur).len() > 0 {
        done.push(trimmed(cur))
    } else {
        done
    }
}

/// The complete lines of `cs` (trimmed, non-empty) and the line begun last.
pub open spec fn scan_lines(cs: Seq<char>) -> (Seq<Seq<char>>, Seq<char>)
    decreases cs.len(),
{
    if cs.len() == 0 {
        (Seq::empty(), Seq::empty())
    } else {
        let (done, cur) = scan_lines(cs.drop_last());
        if cs.last() == '\n' {
            (flush_line(done, cur), Seq::empty())
        } else {
            (done, cur.push(cs.last()))
        }
    }
}

/// The session names that `list-sessions -F '#{session_name}'` printed: the
/// trimmed output's lines, each trimmed, without empty ones.
pub open spec fn session_lines(out: Seq<char>) -> Seq<Seq<char>> {
    let (done, cur) = scan_lines(trimmed(out));
    flush_line(done, cur)
}

pub fn session_names(stdout: &str) -> (r: Vec<String>)
    ensures
        string_views(r@) == session_lines(stdout@),
{
    let text = trim_text(stdout);
    let cs = chars_of(text);
    let mut done: Vec<String> = Vec::new();
    let mut cur: Vec<char> = Vec::new();
    let mut i: usize = 0;
    while i < cs.len()
        invariant
            i <= cs@.len(),
            (string_views(done@), cur@) == scan_lines(cs@.take(i as int)),
        decreases cs.len() - i,
    {
        let c = cs[i];
        proof {
            let t1 = cs@.take(i + 1);
            assert(t1.drop_last() =~= cs@.take(i as int));
            assert(t1.last() == c);
        }
        if c == '\n' {
            let line = string_of_chars(&cur);
            let t = trim_text(line.as_str());
            if !t.is_empty() {
                push_word(&mut done, t.to_string());
            }
            cur = Vec::new();
            assert(cur@ =~= Seq::<char>::empty());
        } else {
            cur.push(c);
        }
        i = i + 1;
    }
    assert(cs@.take(cs@.len() as int) =~= cs@);
    let line = string_of_chars(&cur);
    let t = trim_text(line.as_str());
    if !t.is_empty() {
        push_word(&mut done, t.to_string());
    }
    done
}

/// Whether a session of that name is among those listed.
pub fn has_session(names: &Vec<String>, name: &str) -> (r: bool)
    ensures
        r == string_views(names@).contains(name@),
{
    let mut i: usize = 0;
    while i < names.len()
        invariant
            i <= names@.len(),
            forall|j: int| 0 <= j < i ==> string_views(names@)[j] != name@,
        decreases names.len() - i,
    {
        if str_eq(names[i].as_str(), name) {
            assert(string_views(names@)[i as int] == name@);
            return true;
        }
        i = i + 1;
    }
    false
}

} // verus!
