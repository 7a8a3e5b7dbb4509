//! The job service's HTTP API: which handler a request reaches, who may
//! call it, and how a request's parameters are read and checked.

use vstd::prelude::*;
use crate::jobmode::{Mode, mode_of_name, invalid_mode_message};
use crate::text::{chars_of, string_of_chars, concat_str, str_eq, debug_quote, debug_quoted};
use crate::tmux::contains_seq;
use crate::service::{parse_i64, parse_i64_spec};
use crate::types::{ErrorDetail, ErrorResponse, HealthResponse};

verus! {

/// The handler a request goes to.
#[derive(Debug, PartialEq, Eq)]
pub enum Route {
    Health,
    Run,
    List,
    SnapshotSave,
    SnapshotRestore,
    Status(String),
    Delete(String),
    Wait(String),
    Input(String),
    Terminate(String),
    Tail(String),
    NotFound,
}

pub enum RouteSpec {
    Health,
    Run,
    List,
    SnapshotSave,
    SnapshotRestore,
    Status(Seq<char>),
    Delete(Seq<char>),
    Wait(Seq<char>),
    Input(Seq<char>),
    Terminate(Seq<char>),
    Tail(Seq<char>),
    NotFound,
}

pub open spec fn route_view(r: Route) -> RouteSpec {
    match r {
        Route::Health => RouteSpec::Health,
        Route::Run => RouteSpec::Run,
        Route::List => RouteSpec::List,
        Route::SnapshotSave => RouteSpec::SnapshotSave,
        Route::SnapshotRestore => RouteSpec::SnapshotRestore,
        Route::Status(j) => RouteSpec::Status(j@),
        Route::Delete(j) => RouteSpec::Delete(j@),
        Route::Wait(j) => RouteSpec::Wait(j@),
        Route::Input(j) => RouteSpec::Input(j@),
        Route::Terminate(j) => RouteSpec::Terminate(j@),
        Route::Tail(j) => RouteSpec::Tail(j@),
        Route::NotFound => RouteSpec::NotFound,
    }
}

/// The pieces of `s` between the `/`, as `str::split('/')` yields them.
pub open spec fn split_slash(s: Seq<char>) -> Seq<Seq<char>>
    decreases s.len(),
{
    if s.len() == 0 {
        seq![Seq::empty()]
    } else {
        let init = split_slash(s.drop_last());
        if s.last() == '/' {
            init.push(Seq::empty())
        } else {
            init.update(init.len() - 1, init.last().push(s.last()))
        }
    }
}

pub proof fn lemma_split_slash_nonempty(s: Seq<char>)
    ensures
        split_slash(s).len() >= 1,
    decreases s.len(),
{
    if s.len() > 0 {
        lemma_split_slash_nonempty(s.drop_last());
    }
}

pub open spec fn jobs_prefix() -> Seq<char> {
    "/v1/jobs/"@
}

/// Which handler serves `method` on `path` (the authorization aside).
pub open spec fn route_spec(method: Seq<char>, path: Seq<char>) -> RouteSpec {
    let p = jobs_prefix();
    if method == "GET"@ && path == "/healthz"@ {
        RouteSpec::Health
    } else if method == "POST"@ && path == "/v1/jobs/run"@ {
        RouteSpec::Run
    } else if method == "GET"@ && path == "/v1/jobs"@ {
        RouteSpec::List
    } else if method == "POST"@ && path == "/v1/snapshot/save"@ {
        RouteSpec::SnapshotSave
    } else if method == "POST"@ && path == "/v1/snapshot/restore"@ {
        RouteSpec::SnapshotRestore
    } else if path.len() >= p.len() && path.subrange(0, p.len() as int) == p {
        let parts = split_slash(path.subrange(p.len() as int, path.len() as int));
        if parts.len() == 1 && method == "GET"@ {
            RouteSpec::Status(parts[0])
        } else if parts.len() == 1 && method == "DELETE"@ {
            RouteSpec::Delete(parts[0])
        } else if parts.len() == 2 && method == "POST"@ && parts[1] == "wait"@ {
            RouteSpec::Wait(parts[0])
        } else if parts.len() == 2 && method == "POST"@ && parts[1] == "input"@ {
            RouteSpec::Input(parts[0])
        } else if parts.len() == 2 && method == "POST"@ && parts[1] == "terminate"@ {
            RouteSpec::Terminate(parts[0])
        } else if parts.len() == 3 && parts[1] == "log"@ && parts[2] == "tail"@ && method == "GET"@ {
            RouteSpec::Tail(parts[0])
        } else {
            RouteSpec::NotFound
        }
    } else {
        RouteSpec::NotFound
    }
}

pub open spec fn part_views(v: Seq<Vec<char>>) -> Seq<Seq<char>> {
    Seq::new(v.len(), |i: int| v[i]@)
}

fn split_on_slash(cs: &Vec<char>, from: usize) -> (r: Vec<Vec<char>>)
    requires
        from <= cs@.len(),
    ensures
        part_views(r@) == split_slash(cs@.subrange(from as int, cs@.len() as int)),
{
    let mut parts: Vec<Vec<char>> = Vec::new();
    parts.push(Vec::new());
    let mut i = from;
    assert(part_views(parts@) =~= split_slash(cs@.subrange(from as int, from as int)));
    while i < cs.len()
        invariant
            from <= i <= cs@.len(),
            parts@.len() >= 1,
            part_views(parts@) == split_slash(cs@.subrange(from as int, i as int)),
        decreases cs.len() - i,
    {
        let c = cs[i];
        let ghost before = part_views(parts@);
        proof {
            let t1 = cs@.subrange(from as int, i + 1);
            assert(t1.drop_last() =~= cs@.subrange(from as int, i as int));
            assert(t1.last() == c);
        }
        if c == '/' {
            parts.push(Vec::new());
            assert(part_views(parts@) =~= before.push(Seq::<char>::empty()));
        } else {
            let last = parts.len() - 1;
            let mut piece = parts.pop().unwrap();
            let ghost old_piece = piece@;
            piece.push(c);
            parts.push(piece);
            assert(part_views(parts@) =~= before.update(before.len() - 1, before.last().push(c)));
        }
        i = i + 1;
    }
    parts
}

fn text_eq(a: &Vec<char>, b: &str) -> (r: bool)
    ensures
        r == (a@ == b@),
{
    let s = string_of_chars(a);
    str_eq(s.as_str(), b)
}

fn owned(a: &Vec<char>) -> (s: String)
    ensures
        s@ == a@,
{
    string_of_chars(a)
}

#[verifier::loop_isolation(false)]
pub fn route(method: &str, path: &str) -> (r: Route)
    ensures
        route_view(r) == route_spec(method@, path@),
{
    let get = str_eq(method, "GET");
    let post = str_eq(method, "POST");
    let delete = str_eq(method, "DELETE");
    if get && str_eq(path, "/healthz") {
        return Route::Health;
    }
    if post && str_eq(path, "/v1/jobs/run") {
        return Route::Run;
    }
    if get && str_eq(path, "/v1/jobs") {
        return Route::List;
    }
    if post && str_eq(path, "/v1/snapshot/save") {
        return Route::SnapshotSave;
    }
    if post && str_eq(path, "/v1/snapshot/restore") {
        return Route::SnapshotRestore;
    }
    let cs = chars_of(path);
    let prefix = chars_of("/v1/jobs/");
    let plen = prefix.len();
    if cs.len() < plen {
        return Route::NotFound;
    }
    let mut i: usize = 0;
    while i < plen
        invariant
            i <= plen,
            plen == prefix@.len(),
            plen <= cs@.len(),
            forall|j: int| 0 <= j < i ==> cs@[j] == prefix@[j],
        decreases plen - i,
    {
        if cs[i] != prefix[i] {
            assert(cs@.subrange(0, plen as int)[i as int] != prefix@[i as int]);
            return Route::NotFound;
        }
        i = i + 1;
    }
    assert(cs@.subrange(0, plen as int) =~= prefix@);
    let parts = split_on_slash(&cs, plen);
    if parts.len() == 1 {
        if get {
            return Route::Status(owned(&parts[0]));
        }
        if delete {
            return Route::Delete(owned(&parts[0]));
        }
        return Route::NotFound;
    }
    if parts.len() == 2 && post {
        if text_eq(&parts[1], "wait") {
            return Route::Wait(owned(&parts[0]));
        }
        if text_eq(&parts[1], "input") {
            return Route::Input(owned(&parts[0]));
        }
        if text_eq(&parts[1], "terminate") {
            return Route::Terminate(owned(&parts[0]));
        }
        return Route::NotFound;
    }
    if parts.len() == 3 && text_eq(&parts[1], "log") && text_eq(&parts[2], "tail") && get {
        return Route::Tail(owned(&parts[0]));
    }
    Route::NotFound
}

/// Whether a request may pass: always where no token is configured, else
/// only with `Authorization: Bearer <token>`.
pub fn authorized(token: &str, header: Option<&str>) -> (r: bool)
    ensures
        token@.len() == 0 ==> r,
        token@.len() > 0 ==> r == (header matches Some(h) && h@ == "Bearer "@ + token@),
{
    if token.is_empty() {
        return true;
    }
    let expected = concat_str("Bearer ", token);
    match header {
        Some(h) => str_eq(h, expected.as_str()),
        None => false,
    }
}

/// What `url::form_urlencoded` decodes as the name of the first pair of a
/// text (`None` where the text holds no pair).
pub uninterp spec fn form_first_name(s: Seq<char>) -> Option<Seq<char>>;

/// `url::form_urlencoded::parse`, the name of its first pair.
#[verifier::external_body]
fn form_decode_first(s: &str) -> (r: Option<String>)
    ensures
        match form_first_name(s@) {
            Some(n) => r matches Some(t) && t@ == n,
            None => r is None,
        },
{
    url::form_urlencoded::parse(s.as_bytes()).next().map(|(k, _)| k.into_owned())
}

/// A query value, percent- and plus-decoded.
pub fn urlencoding_decode(s: &str) -> (r: String)
    ensures
        r@ == match form_first_name(s@) {
            Some(n) => n,
            None => s@,
        },
{
    match form_decode_first(s) {
        Some(t) => t,
        None => s.to_string(),
    }
}

/// The pieces of `s` between the `&`.
pub open spec fn split_amp(s: Seq<char>) -> Seq<Seq<char>>
    decreases s.len(),
{
    if s.len() == 0 {
        seq![Seq::empty()]
    } else {
        let init = split_amp(s.drop_last());
        if s.last() == '&' {
            init.push(Seq::empty())
        } else {
            init.update(init.len() - 1, init.last().push(s.last()))
        }
    }
}

/// The index of the first `=` of a pair.
pub open spec fn first_eq(p: Seq<char>) -> Option<int> {
    if exists|i: int| 0 <= i < p.len() && p[i] == '=' {
        Some(choose|i: int| 0 <= i < p.len() && p[i] == '=' && forall|j: int| 0 <= j < i ==> p[j] != '=')
    } else {
        None
    }
}

/// The name and the raw value of a pair `name=value` (a pair without `=`
/// has an empty value).
pub open spec fn pair_name(p: Seq<char>) -> Seq<char> {
    match first_eq(p) {
        Some(i) => p.subrange(0, i),
        None => p,
    }
}

pub open spec fn pair_value(p: Seq<char>) -> Seq<char> {
    match first_eq(p) {
        Some(i) => p.subrange(i + 1, p.len() as int),
        None => Seq::empty(),
    }
}

/// The raw value of the first pair named `key`.
pub open spec fn query_raw(pairs: Seq<Seq<char>>, key: Seq<char>) -> Option<Seq<char>>
    decreases pairs.len(),
{
    if pairs.len() == 0 {
        None
    } else if pair_name(pairs[0]) == key {
        Some(pair_value(pairs[0]))
    } else {
        query_raw(pairs.drop_first(), key)
    }
}

fn split_pair(p: &Vec<char>) -> (r: (Vec<char>, Vec<char>))
    ensures
        r.0@ == pair_name(p@),
        r.1@ == pair_value(p@),
{
    let mut i: usize = 0;
    while i < p.len() && p[i] != '='
        invariant
            i <= p@.len(),
            forall|j: int| 0 <= j < i ==> p@[j] != '=',
        decreases p.len() - i,
    {
        i = i + 1;
    }
    let mut name: Vec<char> = Vec::new();
    let mut k: usize = 0;
    while k < i
        invariant
            k <= i <= p@.len(),
            name@ == p@.subrange(0, k as int),
        decreases i - k,
    {
        name.push(p[k]);
        k = k + 1;
        assert(name@ =~= p@.subrange(0, k as int));
    }
    let mut value: Vec<char> = Vec::new();
    if i < p.len() {
        let mut q = i + 1;
        while q < p.len()
            invariant
                i < p@.len(),
                i + 1 <= q <= p@.len(),
                value@ == p@.subrange(i + 1, q as int),
            decreases p.len() - q,
        {
            value.push(p[q]);
            q = q + 1;
            assert(value@ =~= p@.subrange(i + 1, q as int));
        }
        proof {
            assert(p@[i as int] == '=');
            let w = choose|w: int| 0 <= w < p@.len() && p@[w] == '=' && forall|j: int| 0 <= j < w ==> p@[j] != '=';
            assert(exists|w: int| 0 <= w < p@.len() && p@[w] == '=' && forall|j: int| 0 <= j < w ==> p@[j] != '=');
            assert(w == i) by {
                if w < i {
                    assert(p@[w] != '=');
                } else if w > i {
                    assert(p@[i as int] != '=');
                }
            }
        }
    } else {
        proof {
            assert(!(exists|w: int| 0 <= w < p@.len() && p@[w] == '='));
            assert(name@ =~= p@);
        }
    }
    (name, value)
}

fn split_on_amp(cs: &Vec<char>) -> (r: Vec<Vec<char>>)
    ensures
        part_views(r@) == split_amp(cs@),
{
    let mut parts: Vec<Vec<char>> = Vec::new();
    parts.push(Vec::new());
    let mut i: usize = 0;
    assert(part_views(parts@) =~= split_amp(cs@.take(0)));
    while i < cs.len()
        invariant
            i <= cs@.len(),
            parts@.len() >= 1,
            part_views(parts@) == split_amp(cs@.take(i as int)),
        decreases cs.len() - i,
    {
        let c = cs[i];
        let ghost before = part_views(parts@);
        proof {
            let t1 = cs@.take(i + 1);
            assert(t1.drop_last() =~= cs@.take(i as int));
            assert(t1.last() == c);
        }
        if c == '&' {
            parts.push(Vec::new());
            assert(part_views(parts@) =~= before.push(Seq::<char>::empty()));
        } else {
            let mut piece = parts.pop().unwrap();
            piece.push(c);
            parts.push(piece);
            assert(part_views(parts@) =~= before.update(before.len() - 1, before.last().push(c)));
        }
        i = i + 1;
    }
    assert(cs@.take(cs@.len() as int) =~= cs@);
    parts
}

/// The value of the first pair named `key` of a query string, decoded.
pub fn query_param(query: &str, key: &str) -> (r: Option<String>)
    ensures
        match query_raw(split_amp(query@), key@) {
            Some(v) => r matches Some(t) && t@ == match form_first_name(v) {
                Some(n) => n,
                None => v,
            },
            None => r is None,
        },
{
    let cs = chars_of(query);
    let pairs = split_on_amp(&cs);
    let mut i: usize = 0;
    assert(part_views(pairs@).subrange(0, pairs@.len() as int) =~= part_views(pairs@));
    while i < pairs.len()
        invariant
            i <= pairs@.len(),
            part_views(pairs@) == split_amp(query@),
            query_raw(split_amp(query@), key@) == query_raw(part_views(pairs@).subrange(i as int, pairs@.len() as int), key@),
        decreases pairs.len() - i,
    {
        let ghost rest = part_views(pairs@).subrange(i as int, pairs@.len() as int);
        assert(rest[0] == pairs@[i as int]@);
        assert(rest.drop_first() =~= part_views(pairs@).subrange(i + 1, pairs@.len() as int));
        let (name, value) = split_pair(&pairs[i]);
        if text_eq(&name, key) {
            let v = owned(&value);
            return Some(urlencoding_decode(v.as_str()));
        }
        i = i + 1;
    }
    None
}

/// A positive integer parameter, else the default; no more than `max`.
pub fn limit_param(raw: Option<&str>, default_limit: i64, max: i64) -> (r: i64)
    ensures
        ({
            let asked = match raw {
                Some(v) => match parse_i64_spec(v@) {
                    Some(n) => if n > 0 {
                        n
                    } else {
                        default_limit as int
                    },
                    None => default_limit as int,
                },
                None => default_limit as int,
            };
            r == if asked > max {
                max as int
            } else {
                asked
            }
        }),
{
    let mut limit = default_limit;
    if let Some(v) = raw {
        if let Some(n) = parse_i64(v) {
            if n > 0 {
                limit = n;
            }
        }
    }
    if limit > max {
        limit = max;
    }
    limit
}

/// The error body of the API.
pub fn error_response(code: &str, message: &str) -> (r: ErrorResponse)
    ensures
        r.error.code@ == code@,
        r.error.message@ == message@,
{
    ErrorResponse { error: ErrorDetail { code: code.to_string(), message: message.to_string() } }
}

pub fn health_response() -> (r: HealthResponse)
    ensures
        r.status@ == "ok"@,
{
    HealthResponse { status: "ok".to_string() }
}

/// Why a run request is refused: the HTTP status, the code and the message.
#[derive(Debug)]
pub struct Refusal {
    pub status: u16,
    pub code: String,
    pub message: String,
}

pub open spec fn has_char(s: Seq<char>, c: char) -> bool {
    exists|i: int| 0 <= i < s.len() && s[i] == c
}

fn contains_char(s: &str, c: char) -> (r: bool)
    ensures
        r == has_char(s@, c),
{
    let cs = chars_of(s);
    let mut i: usize = 0;
    while i < cs.len()
        invariant
            i <= cs@.len(),
            cs@ == s@,
            forall|j: int| 0 <= j < i ==> cs@[j] != c,
        decreases cs.len() - i,
    {
        if cs[i] == c {
            return true;
        }
        i = i + 1;
    }
    false
}

pub open spec fn env_entry_fault(name: Seq<char>, value: Seq<char>) -> Option<Seq<char>> {
    if name.len() == 0 {
        Some("env names must be non-empty"@)
    } else if has_char(name, '=') {
        Some("env name must not contain '=': "@ + debug_quoted(name))
    } else if has_char(name, '\0') || has_char(value, '\0') {
        Some("env entries must not contain NUL"@)
    } else {
        None
    }
}

pub open spec fn env_fault(entries: Seq<(Seq<char>, Seq<char>)>) -> Option<Seq<char>>
    decreases entries.len(),
{
    if entries.len() == 0 {
        None
    } else {
        match env_entry_fault(entries[0].0, entries[0].1) {
            Some(m) => Some(m),
            None => env_fault(entries.drop_first()),
        }
    }
}

/// Checks a run request: it needs a script, a known mode, and environment
/// entries (in the order given) with non-empty names without `=`, and no
/// NUL anywhere. The mode it runs in comes back.
#[verifier::loop_isolation(false)]
pub fn validate_run_request(script: &str, mode: Option<&str>, env: &[(String, String)]) -> (r: Result<Mode, Refusal>)
    ensures
        ({
            let name = match mode {
                Some(m) => m@,
                None => Seq::<char>::empty(),
            };
            let entries = crate::runner::env_view(env@);
            if script@.len() == 0 {
                r matches Err(f) && f.status == 400 && f.code@ == "invalid_request"@ && f.message@
                    == "script is required"@
            } else if mode_of_name(name) is None {
                r matches Err(f) && f.status == 422 && f.code@ == "validation_error"@ && f.message@
                    == invalid_mode_message(name)
            } else if env_fault(entries) is Some {
                r matches Err(f) && f.status == 422 && f.code@ == "validation_error"@ && f.message@
                    == env_fault(entries)->0
            } else {
                r matches Ok(m) && mode_of_name(name) == Some(m)
            }
        }),
{
    proof {
        reveal_strlit("");
    }
    if script.is_empty() {
        return Err(Refusal { status: 400, code: "invalid_request".to_string(), message: "script is required".to_string() });
    }
    let m = match crate::types::resolved_mode(mode) {
        Ok(m) => m,
        Err(e) => return Err(Refusal { status: 422, code: "validation_error".to_string(), message: e }),
    };
    proof {
        reveal_strlit("");
    }
    let mut i: usize = 0;
    assert(crate::runner::env_view(env@).subrange(0, env@.len() as int) =~= crate::runner::env_view(env@));
    while i < env.len()
        invariant
            i <= env@.len(),
            env_fault(crate::runner::env_view(env@)) == env_fault(crate::runner::env_view(env@).subrange(i as int, env@.len() as int)),
        decreases env.len() - i,
    {
        let ghost rest = crate::runner::env_view(env@).subrange(i as int, env@.len() as int);
        assert(rest[0] == (env@[i as int].0@, env@[i as int].1@));
        assert(rest.drop_first() =~= crate::runner::env_view(env@).subrange(i + 1, env@.len() as int));
        let name = env[i].0.as_str();
        let value = env[i].1.as_str();
        if name.is_empty() {
            return Err(Refusal { status: 422, code: "validation_error".to_string(), message: "env names must be non-empty".to_string() });
        }
        if contains_char(name, '=') {
            let q = debug_quote(name);
            let msg = concat_str("env name must not contain '=': ", q.as_str());
            return Err(Refusal { status: 422, code: "validation_error".to_string(), message: msg });
        }
        if contains_char(name, '\0') || contains_char(value, '\0') {
            return Err(Refusal { status: 422, code: "validation_error".to_string(), message: "env entries must not contain NUL".to_string() });
        }
        i = i + 1;
    }
    assert(crate::runner::env_view(env@).subrange(env@.len() as int, env@.len() as int) =~= Seq::<(Seq<char>, Seq<char>)>::empty());
    Ok(m)
}

/// `force=true` asks to delete a running job.
pub fn force_flag(raw: Option<&str>) -> (r: bool)
    ensures
        r == (raw matches Some(v) && v@ == "true"@),
{
    match raw {
        Some(v) => str_eq(v, "true"),
        None => false,
    }
}

} // verus!
