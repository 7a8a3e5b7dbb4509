//! The `dify-agent` command line client: the Agent Stub endpoint it talks
//! to, how it reads its arguments, and the small checks it makes on what
//! the stub answers.

use vstd::prelude::*;
use crate::text::{concat_str, str_eq, trim_text, trimmed, chars_of, string_of_chars};
use crate::output::signed_decimal;
use crate::timestamps::digits_value;

verus! {

pub const ENV_API_BASE_URL: &'static str = "DIFY_AGENT_STUB_API_BASE_URL";

pub const ENV_AUTH_JWE: &'static str = "DIFY_AGENT_STUB_AUTH_JWE";

pub struct Environment {
    pub url: String,
    pub auth_jwe: String,
}

pub struct Endpoint {
    pub url: String,
}

pub struct ConnectResponse {
    pub connection_id: String,
    pub status: String,
}

pub struct FileDownloadResponse {
    pub filename: String,
    pub mime_type: Option<String>,
    pub size: i64,
    pub download_url: String,
}

pub struct FileUploadResponse {
    pub transfer_method: String,
    pub reference: String,
    pub public_download_url: String,
}

/// The parts of a parsed URL that the client looks at.
pub struct UrlParts {
    pub scheme: String,
    pub host: Option<String>,
    pub port: Option<u16>,
    pub path: String,
    pub query: Option<String>,
    pub fragment: Option<String>,
    pub username: String,
    pub password: Option<String>,
}

pub struct UrlPartsView {
    pub scheme: Seq<char>,
    pub host: Option<Seq<char>>,
    pub port: Option<u16>,
    pub path: Seq<char>,
    pub query: Option<Seq<char>>,
    pub fragment: Option<Seq<char>>,
    pub username: Seq<char>,
    pub password: Option<Seq<char>>,
}

pub open spec fn ostr(o: Option<String>) -> Option<Seq<char>> {
    match o {
        Some(s) => Some(s@),
        None => None,
    }
}

impl View for UrlParts {
    type V = UrlPartsView;

    open spec fn view(&self) -> UrlPartsView {
        UrlPartsView {
            scheme: self.scheme@,
            host: ostr(self.host),
            port: self.port,
            path: self.path@,
            query: ostr(self.query),
            fragment: ostr(self.fragment),
            username: self.username@,
            password: ostr(self.password),
        }
    }
}

/// What the `url` crate makes of a text: its parts, or the text of its
/// parse error.
pub uninterp spec fn parsed_url(raw: Seq<char>) -> Result<UrlPartsView, Seq<char>>;

/// `url::Url::parse`, with the parts of the result the client reads.
#[verifier::external_body]
fn parse_url(raw: &str) -> (r: Result<UrlParts, String>)
    ensures
        match parsed_url(raw@) {
            Ok(p) => r matches Ok(q) && q@ == p,
            Err(m) => r matches Err(e) && e@ == m,
        },
{
    match url::Url::parse(raw) {
        Ok(u) => Ok(UrlParts {
            scheme: u.scheme().to_string(),
            host: u.host_str().map(|h| h.to_string()),
            port: u.port(),
            path: u.path().to_string(),
            query: u.query().map(|q| q.to_string()),
            fragment: u.fragment().map(|f| f.to_string()),
            username: u.username().to_string(),
            password: u.password().map(|p| p.to_string()),
        }),
        Err(e) => Err(e.to_string()),
    }
}

/// `s` without the `/` at its end.
pub open spec fn trim_slashes(s: Seq<char>) -> Seq<char>
    decreases s.len(),
{
    if s.len() > 0 && s.last() == '/' {
        trim_slashes(s.drop_last())
    } else {
        s
    }
}

/// The endpoint that the parts of an `http` or `https` URL give: the stub
/// is served under `/agent-stub`, and nothing but scheme, host, port and
/// that path may be given.
pub open spec fn endpoint_spec(p: UrlPartsView) -> Result<Seq<char>, Seq<char>> {
    if p.host is None || p.host == Some(Seq::<char>::empty()) {
        Err("agent stub URL must include a host"@)
    } else if p.query is Some || p.fragment is Some {
        Err("agent stub URL must not include a query string or fragment"@)
    } else if p.username.len() > 0 || p.password is Some {
        Err("agent stub URL must not include user info"@)
    } else {
        let path = trim_slashes(p.path);
        if path.len() != 0 && path != "/"@ && path != "/agent-stub"@ {
            Err("HTTP agent stub API base URL path must be empty or /agent-stub"@)
        } else {
            let host_port = match p.port {
                Some(n) => p.host->0 + ":"@ + signed_decimal(n as int),
                None => p.host->0,
            };
            Ok(p.scheme + "://"@ + host_port + "/agent-stub"@)
        }
    }
}

/// Where the parts of a URL point the client, as `endpoint_spec` says.
pub fn endpoint_from_parts(p: &UrlParts) -> (r: Result<Endpoint, String>)
    ensures
        match endpoint_spec(p@) {
            Ok(u) => r matches Ok(e) && e.url@ == u,
            Err(m) => r matches Err(e) && e@ == m,
        },
{
    let host = match &p.host {
        None => return Err("agent stub URL must include a host".to_string()),
        Some(h) => h,
    };
    if host.as_str().is_empty() {
        assert(host@ =~= Seq::<char>::empty());
        return Err("agent stub URL must include a host".to_string());
    }
    if p.query.is_some() || p.fragment.is_some() {
        return Err("agent stub URL must not include a query string or fragment".to_string());
    }
    if !p.username.as_str().is_empty() || p.password.is_some() {
        return Err("agent stub URL must not include user info".to_string());
    }
    let cs = chars_of(p.path.as_str());
    let mut n = cs.len();
    assert(cs@.take(n as int) =~= cs@);
    while n > 0 && cs[n - 1] == '/'
        invariant
            n <= cs@.len(),
            trim_slashes(cs@.take(n as int)) == trim_slashes(cs@),
        decreases n,
    {
        assert(cs@.take(n as int).drop_last() =~= cs@.take(n - 1));
        n = n - 1;
    }
    let mut kept: Vec<char> = Vec::new();
    let mut i: usize = 0;
    while i < n
        invariant
            n <= cs@.len(),
            i <= n,
            kept@ == cs@.take(i as int),
        decreases n - i,
    {
        kept.push(cs[i]);
        i = i + 1;
        assert(kept@ =~= cs@.take(i as int));
    }
    assert(cs@.take(cs@.len() as int) =~= cs@);
    let path = string_of_chars(&kept);
    proof {
        assert(trim_slashes(cs@.take(n as int)) == cs@.take(n as int));
    }
    if !path.as_str().is_empty() && !str_eq(path.as_str(), "/") && !str_eq(path.as_str(), "/agent-stub") {
        return Err("HTTP agent stub API base URL path must be empty or /agent-stub".to_string());
    }
    let host_port = match p.port {
        Some(port) => {
            let a = concat_str(host.as_str(), ":");
            let d = crate::output::signed_decimal_text(port as i64);
            concat_str(a.as_str(), d.as_str())
        },
        None => host.clone(),
    };
    let u0 = concat_str(p.scheme.as_str(), "://");
    let u1 = concat_str(u0.as_str(), host_port.as_str());
    let url = concat_str(u1.as_str(), "/agent-stub");
    Ok(Endpoint { url })
}

/// The endpoint a configured base URL names.
pub open spec fn parse_endpoint_spec(raw: Seq<char>) -> Result<Seq<char>, Seq<char>> {
    let t = trimmed(raw);
    if t.len() == 0 {
        Err("agent stub URL must not be empty"@)
    } else {
        match parsed_url(t) {
            Err(m) => Err("invalid URL: "@ + m),
            Ok(p) => if p.scheme != "http"@ && p.scheme != "https"@ {
                Err("agent stub URL must use http or https"@)
            } else {
                endpoint_spec(p)
            },
        }
    }
}

pub fn parse_endpoint(raw_url: &str) -> (r: Result<Endpoint, String>)
    ensures
        match parse_endpoint_spec(raw_url@) {
            Ok(u) => r matches Ok(e) && e.url@ == u,
            Err(m) => r matches Err(e) && e@ == m,
        },
{
    let stripped = trim_text(raw_url);
    if stripped.is_empty() {
        return Err("agent stub URL must not be empty".to_string());
    }
    let parts = match parse_url(stripped) {
        Ok(p) => p,
        Err(m) => return Err(concat_str("invalid URL: ", m.as_str())),
    };
    if !str_eq(parts.scheme.as_str(), "http") && !str_eq(parts.scheme.as_str(), "https") {
        return Err("agent stub URL must use http or https".to_string());
    }
    endpoint_from_parts(&parts)
}

/// The environment of the client, from the values of its two variables
/// (`None` where unset): both are trimmed and must be given; the URL must
/// name an endpoint.
pub fn environment_from(api_url: Option<&str>, auth_jwe: Option<&str>) -> (r: Result<Environment, String>)
    ensures
        ({
            let u = match api_url {
                Some(s) => trimmed(s@),
                None => Seq::<char>::empty(),
            };
            let a = match auth_jwe {
                Some(s) => trimmed(s@),
                None => Seq::<char>::empty(),
            };
            let prefix = "missing required Agent Stub environment variables: "@;
            if u.len() == 0 && a.len() == 0 {
                r matches Err(e) && e@ == prefix + ENV_API_BASE_URL@ + ", "@ + ENV_AUTH_JWE@
            } else if u.len() == 0 {
                r matches Err(e) && e@ == prefix + ENV_API_BASE_URL@
            } else if a.len() == 0 {
                r matches Err(e) && e@ == prefix + ENV_AUTH_JWE@
            } else {
                match parse_endpoint_spec(u) {
                    Ok(url) => r matches Ok(env) && env.url@ == url && env.auth_jwe@ == a,
                    Err(m) => r matches Err(e) && e@ == "invalid "@ + ENV_API_BASE_URL@ + ": "@ + m,
                }
            }
        }),
{
    let u = match api_url {
        Some(s) => trim_text(s),
        None => "",
    };
    let a = match auth_jwe {
        Some(s) => trim_text(s),
        None => "",
    };
    proof {
        reveal_strlit("");
    }
    let prefix = "missing required Agent Stub environment variables: ";
    if u.is_empty() && a.is_empty() {
        let m0 = concat_str(prefix, ENV_API_BASE_URL);
        let m1 = concat_str(m0.as_str(), ", ");
        return Err(concat_str(m1.as_str(), ENV_AUTH_JWE));
    }
    if u.is_empty() {
        return Err(concat_str(prefix, ENV_API_BASE_URL));
    }
    if a.is_empty() {
        return Err(concat_str(prefix, ENV_AUTH_JWE));
    }
    assert(trimmed(u@) == u@) by {
        lemma_trimmed_idempotent(api_url->0@);
    }
    match parse_endpoint(u) {
        Ok(e) => Ok(Environment { url: e.url, auth_jwe: a.to_string() }),
        Err(m) => {
            let m0 = concat_str("invalid ", ENV_API_BASE_URL);
            let m1 = concat_str(m0.as_str(), ": ");
            Err(concat_str(m1.as_str(), m.as_str()))
        },
    }
}

proof fn lemma_trim_front_back(s: Seq<char>)
    ensures
        crate::text::trim_front(s).len() == 0 || !crate::text::is_white_space(crate::text::trim_front(s)[0]),
    decreases s.len(),
{
    if s.len() > 0 && crate::text::is_white_space(s[0]) {
        lemma_trim_front_back(s.drop_first());
    }
}

proof fn lemma_trim_back_keeps_front(s: Seq<char>)
    requires
        s.len() == 0 || !crate::text::is_white_space(s[0]),
    ensures
        crate::text::trim_back(s).len() == 0 || !crate::text::is_white_space(crate::text::trim_back(s)[0]),
        crate::text::trim_back(s).len() == 0 || !crate::text::is_white_space(crate::text::trim_back(s).last()),
    decreases s.len(),
{
    if s.len() > 0 && crate::text::is_white_space(s.last()) {
        let t = s.drop_last();
        if t.len() > 0 {
            assert(t[0] == s[0]);
        }
        lemma_trim_back_keeps_front(t);
    }
}

proof fn lemma_trimmed_idempotent(s: Seq<char>)
    ensures
        trimmed(trimmed(s)) == trimmed(s),
{
    let f = crate::text::trim_front(s);
    lemma_trim_front_back(s);
    lemma_trim_back_keeps_front(f);
    let t = crate::text::trim_back(f);
    if t.len() > 0 {
        assert(crate::text::trim_front(t) == t);
        assert(crate::text::trim_back(t) == t);
    } else {
        assert(crate::text::trim_front(t) == t);
        assert(crate::text::trim_back(t) == t);
    }
}

/// Both variables of the client's environment are set and not empty.
pub fn has_environment_values(api_url: Option<&str>, auth_jwe: Option<&str>) -> (r: bool)
    ensures
        r == ((api_url matches Some(u) && u@.len() > 0) && (auth_jwe matches Some(a) && a@.len() > 0)),
{
    match (api_url, auth_jwe) {
        (Some(u), Some(a)) => !u.is_empty() && !a.is_empty(),
        _ => false,
    }
}

/// The top-level commands of the client.
pub open spec fn known_root_spec(name: Seq<char>) -> bool {
    name == "config"@ || name == "connect"@ || name == "file"@
}

pub fn known_root(name: &str) -> (r: bool)
    ensures
        r == known_root_spec(name@),
{
    str_eq(name, "config") || str_eq(name, "connect") || str_eq(name, "file")
}

pub open spec fn args_view(v: Seq<String>) -> Seq<Seq<char>> {
    Seq::new(v.len(), |i: int| v[i]@)
}

fn copy_args(v: &[String], from: usize) -> (r: Vec<String>)
    requires
        from <= v@.len(),
    ensures
        args_view(r@) == args_view(v@).subrange(from as int, v@.len() as int),
{
    let mut r: Vec<String> = Vec::new();
    let mut i = from;
    while i < v.len()
        invariant
            from <= i <= v@.len(),
            args_view(r@) == args_view(v@).subrange(from as int, i as int),
        decreases v.len() - i,
    {
        let ghost before = r@;
        r.push(v[i].clone());
        assert(r@[r@.len() - 1]@ == v@[i as int]@);
        assert(args_view(r@) =~= args_view(before).push(v@[i as int]@));
        i = i + 1;
        assert(args_view(v@).subrange(from as int, i as int) =~= args_view(v@).subrange(from as int, i - 1).push(v@[i - 1]@));
    }
    r
}

/// What `connect` reads of its arguments: whether a leading `--json` asks
/// for JSON, and the words it forwards, without that flag and without a `--`
/// right after it.
pub open spec fn connect_args(a: Seq<Seq<char>>) -> (bool, Seq<Seq<char>>) {
    let json = a.len() > 0 && a[0] == "--json"@;
    let rest = if json {
        a.drop_first()
    } else {
        a
    };
    let fwd = if rest.len() > 0 && rest[0] == "--"@ {
        rest.drop_first()
    } else {
        rest
    };
    (json, fwd)
}

/// Law: `connect` forwards exactly the words after its options. After
/// `--json` (or nothing) and a `--`, every word is forwarded as it is, a
/// `--json` or `--` among them too; without a `--`, the words after the
/// optional `--json` are forwarded whole.
pub proof fn law_connect_forwards_after_options(w: Seq<Seq<char>>, json: bool)
    ensures
        connect_args((if json { seq!["--json"@] } else { Seq::empty() }) + seq!["--"@] + w) == (json, w),
        (w.len() == 0 || (w[0] != "--json"@ && w[0] != "--"@)) ==> connect_args(w) == (false, w),
        (w.len() == 0 || w[0] != "--"@) ==> connect_args(seq!["--json"@] + w) == (true, w),
{
    reveal_strlit("--json");
    reveal_strlit("--");
    let dd = seq!["--"@];
    let a = (if json { seq!["--json"@] } else { Seq::empty() }) + dd + w;
    assert("--"@ != "--json"@) by {
        assert("--"@.len() != "--json"@.len());
    }
    if json {
        assert(a[0] == "--json"@);
        assert(a.drop_first() =~= dd + w);
        assert((dd + w)[0] == "--"@);
        assert((dd + w).drop_first() =~= w);
    } else {
        assert(a =~= dd + w);
        assert(a[0] == "--"@);
        assert(a.drop_first() =~= w);
    }
    let b = seq!["--json"@] + w;
    assert(b[0] == "--json"@);
    assert(b.drop_first() =~= w);
}

/// `connect`'s own arguments: a leading `--json` asks for JSON, and a `--`
/// after it is dropped; the rest is forwarded.
pub fn parse_connect_args(argv: &[String]) -> (r: (bool, Vec<String>))
    ensures
        (r.0, args_view(r.1@)) == connect_args(args_view(argv@)),
{
    let json = argv.len() > 0 && str_eq(argv[0].as_str(), "--json");
    let start: usize = if json {
        1
    } else {
        0
    };
    let skip = argv.len() > start && str_eq(argv[start].as_str(), "--");
    let from = if skip {
        start + 1
    } else {
        start
    };
    let rest = copy_args(argv, from);
    proof {
        let a = args_view(argv@);
        if a.len() > 0 {
            assert(a.drop_first() =~= a.subrange(1, a.len() as int));
        }
        assert(a =~= a.subrange(0, a.len() as int));
        if a.len() > start {
            assert(a.subrange(start as int, a.len() as int).drop_first() =~= a.subrange(start + 1, a.len() as int));
            assert(a.subrange(start as int, a.len() as int)[0] == a[start as int]);
        }
    }
    (json, rest)
}

/// A leading `--json` before anything but a known command asks for JSON
/// output of the bare connection.
pub fn extract_root_json_flag(argv: &[String]) -> (r: (bool, Vec<String>))
    ensures
        ({
            let a = args_view(argv@);
            let json = a.len() >= 2 && a[0] == "--json"@ && !known_root_spec(a[1]);
            r.0 == json && args_view(r.1@) == if json {
                a.drop_first()
            } else {
                a
            }
        }),
{
    if argv.len() >= 2 && str_eq(argv[0].as_str(), "--json") && !known_root(argv[1].as_str()) {
        let rest = copy_args(argv, 1);
        assert(args_view(argv@).drop_first() =~= args_view(argv@).subrange(1, argv@.len() as int));
        return (true, rest);
    }
    let all = copy_args(argv, 0);
    assert(args_view(argv@) =~= args_view(argv@).subrange(0, argv@.len() as int));
    (false, all)
}

/// The first argument is neither a known command nor an option: the whole
/// command line is forwarded to a connection.
pub fn is_unknown_bare(argv: &[String]) -> (r: bool)
    ensures
        r == (argv@.len() > 0 && !known_root_spec(argv@[0]@) && !(argv@[0]@.len() > 0 && argv@[0]@[0]
            == '-')),
{
    if argv.len() == 0 {
        return false;
    }
    let first = argv[0].as_str();
    let cs = chars_of(first);
    let dash = cs.len() > 0 && cs[0] == '-';
    !known_root(first) && !dash
}

pub fn is_help_request(argv: &[String]) -> (r: bool)
    ensures
        r == exists|i: int| 0 <= i < argv@.len() && (#[trigger] argv@[i]@ == "--help"@ || argv@[i]@ == "-h"@),
{
    let mut i: usize = 0;
    while i < argv.len()
        invariant
            i <= argv@.len(),
            forall|j: int| 0 <= j < i ==> !(#[trigger] argv@[j]@ == "--help"@ || argv@[j]@ == "-h"@),
        decreases argv.len() - i,
    {
        if str_eq(argv[i].as_str(), "--help") || str_eq(argv[i].as_str(), "-h") {
            return true;
        }
        i = i + 1;
    }
    false
}

/// Where a command line goes.
#[derive(Debug, PartialEq, Eq)]
pub enum CliRoute {
    /// Print the help table.
    DumpHelp,
    /// `connect` with its flag and forwarded words.
    Connect(bool, Vec<String>),
    /// A bare command line, forwarded as a connection.
    Bare(bool, Vec<String>),
    /// The command parser.
    Dispatch,
}

pub fn cli_route(args: &[String]) -> (r: CliRoute)
    ensures
        ({
            let a = args_view(args@);
            if a.len() == 1 && a[0] == "__dump-cli-help"@ {
                r is DumpHelp
            } else if a.len() > 0 && a[0] == "connect"@ && !(exists|i: int|
                1 <= i < a.len() && (#[trigger] a[i] == "--help"@ || a[i] == "-h"@)) {
                r matches CliRoute::Connect(j, f) && (j, args_view(f@)) == connect_args(a.drop_first())
            } else {
                let json = a.len() >= 2 && a[0] == "--json"@ && !known_root_spec(a[1]);
                let fwd = if json {
                    a.drop_first()
                } else {
                    a
                };
                let bare = fwd.len() > 0 && !known_root_spec(fwd[0]) && !(fwd[0].len() > 0 && fwd[0][0]
                    == '-');
                if bare {
                    r matches CliRoute::Bare(j, f) && j == json && args_view(f@) == fwd
                } else {
                    r is Dispatch
                }
            }
        }),
{
    if args.len() == 1 && str_eq(args[0].as_str(), "__dump-cli-help") {
        return CliRoute::DumpHelp;
    }
    if args.len() > 0 && str_eq(args[0].as_str(), "connect") {
        let tail = copy_args(args, 1);
        let help = is_help_request(tail.as_slice());
        proof {
            let a = args_view(args@);
            let t = args_view(tail@);
            assert(t =~= a.subrange(1, a.len() as int));
            if a.len() > 0 {
                assert(a.drop_first() =~= t);
            }
            if help {
                let i = choose|i: int| 0 <= i < tail@.len() && (#[trigger] tail@[i]@ == "--help"@ || tail@[i]@ == "-h"@);
                assert(t[i] == tail@[i]@);
                assert(t[i] == a[i + 1]);
            } else {
                assert forall|i: int| 1 <= i < a.len() implies !(#[trigger] a[i] == "--help"@ || a[i] == "-h"@) by {
                    assert(t[i - 1] == a[i]);
                    assert(tail@[i - 1]@ == t[i - 1]);
                }
            }
        }
        if !help {
            let (json, fwd) = parse_connect_args(tail.as_slice());
            return CliRoute::Connect(json, fwd);
        }
    }
    let (json, fwd) = extract_root_json_flag(args);
    let bare = is_unknown_bare(fwd.as_slice());
    if bare {
        CliRoute::Bare(json, fwd)
    } else {
        CliRoute::Dispatch
    }
}

/// Directories that a skill archive leaves out.
pub fn should_skip_dir(name: &str) -> (r: bool)
    ensures
        r == (name@ == ".git"@ || name@ == "__pycache__"@ || name@ == ".pytest_cache"@ || name@
            == ".mypy_cache"@ || name@ == ".ruff_cache"@ || name@ == ".venv"@ || name@
            == "node_modules"@),
{
    str_eq(name, ".git") || str_eq(name, "__pycache__") || str_eq(name, ".pytest_cache") || str_eq(
        name,
        ".mypy_cache",
    ) || str_eq(name, ".ruff_cache") || str_eq(name, ".venv") || str_eq(name, "node_modules")
}

/// The MIME type (`type/subtype`, no parameters) that `mime_guess` takes a
/// file name's extension for, or `application/octet-stream`.
pub uninterp spec fn mime_essence(filename: Seq<char>) -> Seq<char>;

/// `mime_guess::from_path(..).first_or_octet_stream().essence_str()`.
#[verifier::external_body]
fn guess_essence(filename: &str) -> (r: String)
    ensures
        r@ == mime_essence(filename@),
{
    mime_guess::from_path(filename).first_or_octet_stream().essence_str().to_string()
}

pub fn guess_mime_type(filename: &str) -> (r: String)
    ensures
        r@ == if mime_essence(filename@).len() == 0 {
            "application/octet-stream"@
        } else {
            mime_essence(filename@)
        },
{
    let s = guess_essence(filename);
    if s.as_str().is_empty() {
        "application/octet-stream".to_string()
    } else {
        s
    }
}

/// A member of a JSON document as the client reads it: a string's text, or
/// the JSON text of an object or of another value.
pub enum JsonValue {
    Text(String),
    Object(String),
    Other(String),
}

pub enum JsonValueView {
    Text(Seq<char>),
    Object(Seq<char>),
    Other(Seq<char>),
}

pub open spec fn json_value_view(v: JsonValue) -> JsonValueView {
    match v {
        JsonValue::Text(t) => JsonValueView::Text(t@),
        JsonValue::Object(j) => JsonValueView::Object(j@),
        JsonValue::Other(j) => JsonValueView::Other(j@),
    }
}

/// What `serde_json` reads from a JSON document as the member `key` of its
/// top-level value: the parse error's text where the bytes are no JSON,
/// `None` where the value has no such member (or is no object), else the
/// member: a string's text, or the JSON text `serde_json` prints for it.
pub uninterp spec fn json_member(body: Seq<u8>, key: Seq<char>) -> Result<Option<JsonValueView>, Seq<char>>;

/// `serde_json::from_slice::<Value>`, then `get(key)`; a string member is
/// handed out as its text, any other member as its `to_string()`.
#[verifier::external_body]
fn json_lookup(body: &[u8], key: &str) -> (r: Result<Option<JsonValue>, String>)
    ensures
        match json_member(body@, key@) {
            Ok(None) => r matches Ok(None),
            Ok(Some(v)) => r matches Ok(Some(w)) && json_value_view(w) == v,
            Err(m) => r matches Err(e) && e@ == m,
        },
{
    let v = match serde_json::from_slice::<serde_json::Value>(body) {
        Ok(v) => v,
        Err(e) => return Err(e.to_string()),
    };
    Ok(match v.get(key) {
        None => None,
        Some(serde_json::Value::String(t)) => Some(JsonValue::Text(t.clone())),
        Some(o @ serde_json::Value::Object(_)) => Some(JsonValue::Object(o.to_string())),
        Some(x) => Some(JsonValue::Other(x.to_string())),
    })
}

/// What `serde_json` reads from a JSON document whose top-level value is an
/// object: its members in the order the object keeps them, each as in
/// `json_member`. `None` where the bytes are no JSON or the value is no
/// object.
pub uninterp spec fn json_object_members(body: Seq<u8>) -> Option<Seq<(Seq<char>, JsonValueView)>>;

pub open spec fn members_view(v: Seq<(String, JsonValue)>) -> Seq<(Seq<char>, JsonValueView)> {
    Seq::new(v.len(), |i: int| (v[i].0@, json_value_view(v[i].1)))
}

/// `serde_json::from_slice::<Value>`; the members of an object, a string
/// member as its text and any other as its `to_string()`.
#[verifier::external_body]
pub(crate) fn json_members(body: &[u8]) -> (r: Option<Vec<(String, JsonValue)>>)
    ensures
        match json_object_members(body@) {
            None => r is None,
            Some(ms) => r matches Some(v) && members_view(v@) == ms,
        },
{
    match serde_json::from_slice::<serde_json::Value>(body) {
        Ok(serde_json::Value::Object(map)) => Some(map.into_iter().map(|(k, v)| {
            let j = match &v {
                serde_json::Value::String(t) => JsonValue::Text(t.clone()),
                serde_json::Value::Object(_) => JsonValue::Object(v.to_string()),
                _ => JsonValue::Other(v.to_string()),
            };
            (k, j)
        }).collect()),
        _ => None,
    }
}

/// The text of the string member `key` of a JSON document (`None` where it is
/// missing or no string), or the parse error's text.
pub open spec fn json_string_field(body: Seq<u8>, key: Seq<char>) -> Result<Option<Seq<char>>, Seq<char>> {
    match json_member(body, key) {
        Err(m) => Err(m),
        Ok(Some(JsonValueView::Text(t))) => Ok(Some(t)),
        Ok(_) => Ok(None),
    }
}

/// The string member `key` of a JSON document, or the parse error's text.
fn json_field(body: &[u8], key: &str) -> (r: Result<Option<String>, String>)
    ensures
        match json_string_field(body@, key@) {
            Ok(f) => r matches Ok(g) && ostr(g) == f,
            Err(m) => r matches Err(e) && e@ == m,
        },
{
    match json_lookup(body, key) {
        Err(e) => Err(e),
        Ok(Some(JsonValue::Text(t))) => Ok(Some(t)),
        Ok(_) => Ok(None),
    }
}

/// The signed upload URL of an upload-request answer.
pub fn parse_upload_url(body: &[u8]) -> (r: Result<String, String>)
    ensures
        match json_string_field(body@, "upload_url"@) {
            Err(m) => r matches Err(e) && e@ == "parse upload response: "@ + m,
            Ok(Some(u)) => if u.len() == 0 {
                r matches Err(e) && e@ == "signed file upload response is missing upload_url"@
            } else {
                r matches Ok(s) && s@ == u
            },
            Ok(None) => r matches Err(e) && e@ == "signed file upload response is missing upload_url"@,
        },
{
    match json_field(body, "upload_url") {
        Err(m) => Err(concat_str("parse upload response: ", m.as_str())),
        Ok(Some(u)) => {
            if u.as_str().is_empty() {
                Err("signed file upload response is missing upload_url".to_string())
            } else {
                Ok(u)
            }
        },
        Ok(None) => Err("signed file upload response is missing upload_url".to_string()),
    }
}

/// The text of a string member, or the empty text where it is missing.
pub open spec fn or_empty(o: Option<Seq<char>>) -> Seq<char> {
    match o {
        Some(t) => t,
        None => Seq::empty(),
    }
}

/// The file reference of an answer to a file upload: the `reference`
/// string, which must be present, non-empty and canonical.
pub fn parse_upload_reference(body: &[u8]) -> (r: Result<String, String>)
    ensures
        match json_string_field(body@, "reference"@) {
            Err(m) => r matches Err(e) && e@ == "parse upload result: "@ + m,
            Ok(o) => if or_empty(o).len() == 0 {
                r matches Err(e) && e@ == "signed file upload response is missing reference"@
            } else if !canonical_reference(or_empty(o)) {
                r matches Err(e) && e@ == "signed file upload response has invalid reference"@
            } else {
                r matches Ok(u) && u@ == or_empty(o)
            },
        },
{
    match json_field(body, "reference") {
        Err(m) => Err(concat_str("parse upload result: ", m.as_str())),
        Ok(o) => {
            let u = match o {
                Some(u) => u,
                None => String::new(),
            };
            if u.as_str().is_empty() {
                Err("signed file upload response is missing reference".to_string())
            } else if !is_canonical_dify_file_reference(u.as_str()) {
                Err("signed file upload response has invalid reference".to_string())
            } else {
                Ok(u)
            }
        },
    }
}

/// The tool-file id of an answer to a config file upload: the `id` string,
/// which must be present and non-empty.
pub fn parse_upload_id(body: &[u8]) -> (r: Result<String, String>)
    ensures
        match json_string_field(body@, "id"@) {
            Err(m) => r matches Err(e) && e@ == "parse upload result: "@ + m,
            Ok(o) => if or_empty(o).len() == 0 {
                r matches Err(e) && e@ == "upload response is missing id"@
            } else {
                r matches Ok(u) && u@ == or_empty(o)
            },
        },
{
    match json_field(body, "id") {
        Err(m) => Err(concat_str("parse upload result: ", m.as_str())),
        Ok(Some(u)) => {
            if u.as_str().is_empty() {
                Err("upload response is missing id".to_string())
            } else {
                Ok(u)
            }
        },
        Ok(None) => Err("upload response is missing id".to_string()),
    }
}

/// The note of a config manifest: its `note` string, or the empty text.
pub fn parse_manifest_note(body: &[u8]) -> (r: Result<String, String>)
    ensures
        match json_string_field(body@, "note"@) {
            Err(m) => r matches Err(e) && e@ == "parse manifest: "@ + m,
            Ok(o) => r matches Ok(n) && n@ == or_empty(o),
        },
{
    match json_field(body, "note") {
        Err(m) => Err(concat_str("parse manifest: ", m.as_str())),
        Ok(Some(n)) => Ok(n),
        Ok(None) => Ok(String::new()),
    }
}

/// What `serde_json` finds at a JSON pointer of a document: the parse
/// error's text where the bytes are no JSON, `None` where nothing is there or
/// it is no array, else the JSON text `serde_json` prints for each element.
pub uninterp spec fn json_array_at(body: Seq<u8>, pointer: Seq<char>) -> Result<Option<Seq<Seq<char>>>, Seq<char>>;

pub open spec fn strings_view(v: Seq<String>) -> Seq<Seq<char>> {
    v.map_values(|s: String| s@)
}

/// `serde_json::from_slice::<Value>`, then `pointer`; an array's elements
/// are handed out as their `to_string()`.
#[verifier::external_body]
fn json_array_items(body: &[u8], pointer: &str) -> (r: Result<Option<Vec<String>>, String>)
    ensures
        match json_array_at(body@, pointer@) {
            Err(m) => r matches Err(e) && e@ == m,
            Ok(None) => r matches Ok(None),
            Ok(Some(items)) => r matches Ok(Some(v)) && strings_view(v@) == items,
        },
{
    let v = match serde_json::from_slice::<serde_json::Value>(body) {
        Ok(v) => v,
        Err(e) => return Err(e.to_string()),
    };
    match v.pointer(pointer) {
        Some(serde_json::Value::Array(a)) => Ok(Some(a.iter().map(|x| x.to_string()).collect())),
        _ => Ok(None),
    }
}

/// The `name` strings of the items whose JSON texts are given, in order;
/// items without a string `name` are passed over.
pub open spec fn item_names(items: Seq<Seq<char>>) -> Seq<Seq<char>>
    decreases items.len(),
{
    if items.len() == 0 {
        Seq::empty()
    } else {
        let rest = item_names(items.drop_last());
        match string_member(items.last(), "name"@) {
            Some(n) => rest.push(n),
            None => rest,
        }
    }
}

/// The names of the items of a config manifest section (`skills` or
/// `files`): the `name` strings of the array at `/<section>/items`, none
/// where there is no such array.
pub fn manifest_item_names(body: &[u8], section: &str) -> (r: Result<Vec<String>, String>)
    ensures
        match json_array_at(body@, "/"@ + section@ + "/items"@) {
            Err(m) => r matches Err(e) && e@ == "parse manifest: "@ + m,
            Ok(None) => r matches Ok(v) && v@.len() == 0,
            Ok(Some(items)) => r matches Ok(v) && strings_view(v@) == item_names(items),
        },
{
    let p0 = concat_str("/", section);
    let pointer = concat_str(p0.as_str(), "/items");
    match json_array_items(body, pointer.as_str()) {
        Err(m) => Err(concat_str("parse manifest: ", m.as_str())),
        Ok(None) => Ok(Vec::new()),
        Ok(Some(items)) => {
            let mut names: Vec<String> = Vec::new();
            let mut i: usize = 0;
            while i < items.len()
                invariant
                    i <= items@.len(),
                    strings_view(names@) == item_names(strings_view(items@).take(i as int)),
                decreases items.len() - i,
            {
                let n = object_string(items[i].as_str(), "name");
                proof {
                    let t = strings_view(items@).take(i + 1);
                    assert(t.drop_last() =~= strings_view(items@).take(i as int));
                    assert(t.last() == items@[i as int]@);
                }
                match n {
                    Some(x) => {
                        let ghost before = names@;
                        names.push(x);
                        assert(strings_view(names@) =~= strings_view(before).push(names@.last()@));
                    },
                    None => {},
                }
                i = i + 1;
            }
            assert(strings_view(items@).take(items@.len() as int) =~= strings_view(items@));
            Ok(names)
        },
    }
}

/// What the URL-safe base64 engine of `base64` decodes a text to.
pub uninterp spec fn base64_url_decoded(text: Seq<char>) -> Option<Seq<u8>>;

/// `base64::engine::general_purpose::URL_SAFE.decode`.
#[verifier::external_body]
fn decode_base64_url(text: &str) -> (r: Option<Vec<u8>>)
    ensures
        match base64_url_decoded(text@) {
            Some(b) => r matches Some(v) && v@ == b,
            None => r is None,
        },
{
    base64::Engine::decode(&base64::engine::general_purpose::URL_SAFE, text).ok()
}

pub open spec fn file_ref_prefix() -> Seq<char> {
    "dify-file-ref:"@
}

/// A canonical file reference: `dify-file-ref:` and URL-safe base64 of a
/// JSON object whose `record_id` is a non-empty string.
pub open spec fn canonical_reference(r: Seq<char>) -> bool {
    let p = file_ref_prefix();
    &&& r.len() > p.len()
    &&& r.subrange(0, p.len() as int) == p
    &&& base64_url_decoded(r.subrange(p.len() as int, r.len() as int)) matches Some(payload)
    &&& json_string_field(payload, "record_id"@) matches Ok(Some(id))
    &&& id.len() > 0
}

pub fn is_canonical_dify_file_reference(reference: &str) -> (r: bool)
    ensures
        r == canonical_reference(reference@),
{
    proof {
        reveal_strlit("dify-file-ref:");
    }
    let cs = chars_of(reference);
    let prefix = chars_of("dify-file-ref:");
    let plen = prefix.len();
    if cs.len() < plen {
        return false;
    }
    let mut i: usize = 0;
    while i < plen
        invariant
            i <= plen,
            plen == prefix@.len(),
            prefix@ == file_ref_prefix(),
            cs@ == reference@,
            plen <= cs@.len(),
            forall|j: int| 0 <= j < i ==> cs@[j] == prefix@[j],
        decreases plen - i,
    {
        if cs[i] != prefix[i] {
            assert(cs@.subrange(0, plen as int)[i as int] != prefix@[i as int]);
            return false;
        }
        i = i + 1;
    }
    assert(cs@.subrange(0, plen as int) =~= prefix@);
    if cs.len() == plen {
        return false;
    }
    let mut rest: Vec<char> = Vec::new();
    let mut k = plen;
    while k < cs.len()
        invariant
            plen <= k <= cs@.len(),
            rest@ == cs@.subrange(plen as int, k as int),
        decreases cs.len() - k,
    {
        rest.push(cs[k]);
        k = k + 1;
        assert(rest@ =~= cs@.subrange(plen as int, k as int));
    }
    let encoded = string_of_chars(&rest);
    let payload = match decode_base64_url(encoded.as_str()) {
        Some(p) => p,
        None => return false,
    };
    match json_field(payload.as_slice(), "record_id") {
        Ok(Some(id)) => !id.as_str().is_empty(),
        _ => false,
    }
}

/// The last part of a path: what remains after `/`, with empty parts and
/// `.` left out; none where the path ends in `..`.
pub open spec fn last_segment(s: Seq<char>, cur: Seq<char>, last: Seq<char>) -> Seq<char>
    decreases s.len(),
{
    if s.len() == 0 {
        if cur.len() == 0 || cur == "."@ {
            last
        } else {
            cur
        }
    } else if s[0] == '/' {
        last_segment(
            s.drop_first(),
            Seq::empty(),
            if cur.len() == 0 || cur == "."@ {
                last
            } else {
                cur
            },
        )
    } else {
        last_segment(s.drop_first(), cur.push(s[0]), last)
    }
}

/// The name a downloaded file is saved under: the file name of what the
/// stub called it, or `downloaded` where that is empty, `.` or `..`.
pub open spec fn saved_name(filename: Seq<char>) -> Seq<char> {
    let n = last_segment(filename, Seq::empty(), Seq::empty());
    if n.len() == 0 || n == "."@ || n == ".."@ {
        "downloaded"@
    } else {
        n
    }
}

pub fn sanitize_filename(filename: &str) -> (r: String)
    ensures
        r@ == saved_name(filename@),
{
    proof {
        reveal_strlit(".");
        assert("."@ =~= seq!['.']);
    }
    let cs = chars_of(filename);
    let mut cur: Vec<char> = Vec::new();
    let mut last: Vec<char> = Vec::new();
    let mut i: usize = 0;
    assert(cs@.subrange(0, cs@.len() as int) =~= cs@);
    while i < cs.len()
        invariant
            i <= cs@.len(),
            cs@ == filename@,
            "."@ == seq!['.'],
            last_segment(cs@.subrange(i as int, cs@.len() as int), cur@, last@) == last_segment(
                filename@,
                Seq::empty(),
                Seq::empty(),
            ),
        decreases cs.len() - i,
    {
        let ghost rest = cs@.subrange(i as int, cs@.len() as int);
        assert(rest.drop_first() =~= cs@.subrange(i + 1, cs@.len() as int));
        if cs[i] == '/' {
            let segment_kept = cur.len() != 0 && !(cur.len() == 1 && cur[0] == '.');
            proof {
                assert(segment_kept == !(cur@.len() == 0 || cur@ == "."@)) by {
                    if cur@.len() == 1 && cur@[0] == '.' {
                        assert(cur@ =~= "."@);
                    }
                }
            }
            if segment_kept {
                last = cur;
            }
            cur = Vec::new();
            assert(cur@ =~= Seq::<char>::empty());
        } else {
            cur.push(cs[i]);
        }
        i = i + 1;
    }
    let segment_kept = cur.len() != 0 && !(cur.len() == 1 && cur[0] == '.');
    proof {
        assert(cs@.subrange(cs@.len() as int, cs@.len() as int) =~= Seq::<char>::empty());
        assert(segment_kept == !(cur@.len() == 0 || cur@ == "."@)) by {
            if cur@.len() == 1 && cur@[0] == '.' {
                assert(cur@ =~= "."@);
            }
        }
        assert(cs@.subrange(0, cs@.len() as int) =~= cs@);
    }
    let name = if segment_kept {
        cur
    } else {
        last
    };
    let s = string_of_chars(&name);
    if s.as_str().is_empty() || str_eq(s.as_str(), ".") || str_eq(s.as_str(), "..") {
        "downloaded".to_string()
    } else {
        s
    }
}

/// The name of the `counter`-th copy of a file: `stem (n).ext`, or
/// `stem (n)` without an extension.
pub open spec fn copy_name_text(stem: Seq<char>, ext: Seq<char>, counter: nat) -> Seq<char> {
    stem + " ("@ + crate::text::ascii_chars(crate::text::decimal(counter)) + ")"@ + if ext.len() == 0 {
        Seq::<char>::empty()
    } else {
        "."@ + ext
    }
}

/// The name tried for the `counter`-th copy of a file.
pub fn copy_name(stem: &str, ext: &str, counter: u64) -> (r: String)
    ensures
        r@ == copy_name_text(stem@, ext@, counter as nat),
{
    let d = crate::text::decimal_text(counter);
    let a = concat_str(stem, " (");
    let b = concat_str(a.as_str(), d.as_str());
    let c = concat_str(b.as_str(), ")");
    if ext.is_empty() {
        proof {
            assert(c@ =~= c@ + Seq::<char>::empty());
        }
        c
    } else {
        let e = concat_str(c.as_str(), ".");
        let r = concat_str(e.as_str(), ext);
        proof {
            assert(r@ =~= c@ + ("."@ + ext@));
        }
        r
    }
}

/// Where a downloaded file goes, given which names are taken.
pub enum FreeName {
    /// The file's own name is free.
    Original,
    /// The first copy name that is free.
    Copy(String),
    /// Every name asked about is taken.
    NoneFree,
}

/// The name a downloaded file gets: `taken[0]` says whether the file's own
/// name is taken, `taken[n]` whether the `n`-th copy name is. The first free
/// one wins; where all asked about are taken, the caller asks about more.
pub fn free_name(stem: &str, ext: &str, taken: &[bool]) -> (r: FreeName)
    requires
        taken@.len() <= u64::MAX,
    ensures
        match r {
            FreeName::NoneFree => forall|i: int| 0 <= i < taken@.len() ==> taken@[i],
            FreeName::Original => taken@.len() > 0 && !taken@[0],
            FreeName::Copy(c) => exists|n: int|
                0 < n < taken@.len() && !taken@[n] && (forall|j: int| 0 <= j < n ==> taken@[j])
                    && c@ == copy_name_text(stem@, ext@, n as nat),
        },
{
    let mut i: usize = 0;
    while i < taken.len()
        invariant
            i <= taken@.len(),
            taken@.len() <= u64::MAX,
            forall|j: int| 0 <= j < i ==> taken@[j],
        decreases taken.len() - i,
    {
        if !taken[i] {
            if i == 0 {
                return FreeName::Original;
            }
            let c = copy_name(stem, ext, i as u64);
            return FreeName::Copy(c);
        }
        i = i + 1;
    }
    FreeName::NoneFree
}


/// The `detail` of a JSON error answer.
pub enum Detail {
    Text(String),
    Object { code: Option<String>, message: Option<String>, json: String },
    Other { json: String },
}

pub enum DetailView {
    Text(Seq<char>),
    Object { code: Option<Seq<char>>, message: Option<Seq<char>>, json: Seq<char> },
    Other { json: Seq<char> },
}

pub open spec fn detail_view(d: Detail) -> DetailView {
    match d {
        Detail::Text(t) => DetailView::Text(t@),
        Detail::Object { code, message, json } => DetailView::Object {
            code: ostr(code),
            message: ostr(message),
            json: json@,
        },
        Detail::Other { json } => DetailView::Other { json: json@ },
    }
}

/// The string member `key` of the JSON object whose text is `json`.
pub open spec fn string_member(json: Seq<char>, key: Seq<char>) -> Option<Seq<char>> {
    match json_string_field(crate::text::utf8_bytes(json), key) {
        Ok(Some(t)) => Some(t),
        _ => None,
    }
}

/// The `detail` member of an answer body: its text where it is a string; for
/// an object its `code` and `message` strings and its JSON text; the JSON
/// text of any other value. `None` where the body is no JSON or has no
/// `detail`.
pub open spec fn json_detail_of(body: Seq<u8>) -> Option<DetailView> {
    match json_member(body, "detail"@) {
        Ok(Some(JsonValueView::Text(t))) => Some(DetailView::Text(t)),
        Ok(Some(JsonValueView::Object(j))) => Some(
            DetailView::Object {
                code: string_member(j, "code"@),
                message: string_member(j, "message"@),
                json: j,
            },
        ),
        Ok(Some(JsonValueView::Other(j))) => Some(DetailView::Other { json: j }),
        _ => None,
    }
}

/// The string member `key` of the JSON object whose text is `json`.
fn object_string(json: &str, key: &str) -> (r: Option<String>)
    ensures
        ostr(r) == string_member(json@, key@),
{
    match json_field(json.as_bytes(), key) {
        Ok(Some(t)) => Some(t),
        _ => None,
    }
}

/// The `detail` member of an answer body.
fn json_detail(body: &[u8]) -> (r: Option<Detail>)
    ensures
        match json_detail_of(body@) {
            Some(d) => r matches Some(e) && detail_view(e) == d,
            None => r is None,
        },
{
    match json_lookup(body, "detail") {
        Ok(Some(JsonValue::Text(t))) => Some(Detail::Text(t)),
        Ok(Some(JsonValue::Object(j))) => {
            let code = object_string(j.as_str(), "code");
            let message = object_string(j.as_str(), "message");
            Some(Detail::Object { code, message, json: j })
        },
        Ok(Some(JsonValue::Other(j))) => Some(Detail::Other { json: j }),
        _ => None,
    }
}

/// What `String::from_utf8_lossy` makes of bytes: the text, with each
/// ill-formed sequence replaced by U+FFFD.
pub uninterp spec fn lossy_text(bytes: Seq<u8>) -> Seq<char>;

/// `String::from_utf8_lossy`, made an owned string: bytes that are valid
/// UTF-8 come back as their text; what it makes of other bytes is named, not
/// described.
#[verifier::external_body]
fn utf8_lossy(bytes: &[u8]) -> (r: String)
    ensures
        r@ == lossy_text(bytes@),
        vstd::utf8::valid_utf8(bytes@) ==> r@ == vstd::utf8::decode_utf8(bytes@),
{
    String::from_utf8_lossy(bytes).into_owned()
}

/// The failure of a stub call that answered with an HTTP error: the
/// `detail` of the answer where it has one, else the answer itself.
pub fn check_http_error(body: &[u8], status: u16, operation: &str) -> (r: Result<(), String>)
    ensures
        status < 400 ==> r is Ok,
        status >= 400 ==> (r matches Err(e) && e@ == "agent stub "@ + operation@ + " failed (HTTP "@
            + crate::text::ascii_chars(crate::text::decimal(status as nat)) + "): "@ + match json_detail_of(body@) {
            Some(d) => json_text_of(d),
            None => lossy_text(body@),
        }),
{
    if status < 400 {
        return Ok(());
    }
    let head0 = concat_str("agent stub ", operation);
    let head1 = concat_str(head0.as_str(), " failed (HTTP ");
    let num = crate::text::decimal_text(status as u64);
    let head2 = concat_str(head1.as_str(), num.as_str());
    let head = concat_str(head2.as_str(), "): ");
    match json_detail(body) {
        Some(d) => {
            let t = detail_json(&d);
            Err(concat_str(head.as_str(), t.as_str()))
        },
        None => {
            let t = utf8_lossy(body);
            Err(concat_str(head.as_str(), t.as_str()))
        },
    }
}

/// The JSON text of a detail as `serde_json` prints a value.
pub open spec fn json_text_of(d: DetailView) -> Seq<char> {
    match d {
        DetailView::Text(t) => json_string_text(t),
        DetailView::Object { json, .. } => json,
        DetailView::Other { json } => json,
    }
}

/// How `serde_json` prints a JSON string value (quoted and escaped).
pub uninterp spec fn json_string_text(t: Seq<char>) -> Seq<char>;

/// `serde_json::Value::String(..).to_string()`.
#[verifier::external_body]
fn json_quote(t: &str) -> (r: String)
    ensures
        r@ == json_string_text(t@),
{
    serde_json::Value::String(t.to_string()).to_string()
}

fn detail_json(d: &Detail) -> (r: String)
    ensures
        r@ == json_text_of(detail_view(*d)),
{
    match d {
        Detail::Text(t) => json_quote(t.as_str()),
        Detail::Object { json, .. } => json.clone(),
        Detail::Other { json } => json.clone(),
    }
}

/// The message of an Agent Stub error answer: a string `detail`, or the
/// non-empty `message` of an object `detail` (its JSON text where the
/// message is empty), or the body itself.
pub open spec fn stub_message(body: Seq<u8>) -> Seq<char> {
    match json_detail_of(body) {
        Some(DetailView::Text(t)) => t,
        Some(DetailView::Object { message: Some(m), json, .. }) => if m.len() > 0 {
            m
        } else {
            json
        },
        _ => lossy_text(body),
    }
}

pub open spec fn stub_code(body: Seq<u8>) -> Seq<char> {
    match json_detail_of(body) {
        Some(DetailView::Object { code: Some(c), .. }) => c,
        _ => Seq::empty(),
    }
}

/// The failure of an Agent Stub call that answered with an HTTP error; an
/// expired authorization gets a message that says what to do.
pub fn check_agent_stub_http_error(body: &[u8], status: u16) -> (r: Result<(), String>)
    ensures
        status < 400 ==> r is Ok,
        status >= 400 && stub_code(body@) == "agent_stub_authorization_expired"@ ==> (r matches Err(e)
            && e@ == "HTTP "@ + crate::text::ascii_chars(crate::text::decimal(status as nat))
            + ": Agent Stub authorization expired after 5 minutes; the authorization in this process will not refresh automatically; start a new shell tool call and retry the command"@),
        status >= 400 && stub_code(body@) != "agent_stub_authorization_expired"@ ==> (r matches Err(e)
            && e@ == "HTTP "@ + crate::text::ascii_chars(crate::text::decimal(status as nat)) + ": "@
            + stub_message(body@)),
{
    if status < 400 {
        return Ok(());
    }
    let mut message = utf8_lossy(body);
    let mut code = String::new();
    match json_detail(body) {
        Some(Detail::Text(t)) => {
            message = t;
        },
        Some(Detail::Object { code: c, message: m, json }) => {
            if let Some(cv) = c {
                code = cv;
            }
            if let Some(mv) = m {
                if !mv.as_str().is_empty() {
                    message = mv;
                } else {
                    message = json;
                }
            }
        },
        _ => {},
    }
    let num = crate::text::decimal_text(status as u64);
    let head0 = concat_str("HTTP ", num.as_str());
    if str_eq(code.as_str(), "agent_stub_authorization_expired") {
        return Err(concat_str(
            head0.as_str(),
            ": Agent Stub authorization expired after 5 minutes; the authorization in this process will not refresh automatically; start a new shell tool call and retry the command",
        ));
    }
    let head = concat_str(head0.as_str(), ": ");
    Err(concat_str(head.as_str(), message.as_str()))
}


/// The text of `s` with each `'` written as `'"'"'`.
pub open spec fn reply_quote_body(s: Seq<char>) -> Seq<char>
    decreases s.len(),
{
    if s.len() == 0 {
        Seq::empty()
    } else {
        reply_quote_body(s.drop_last()) + if s.last() == '\'' {
            seq!['\'', '"', '\'', '"', '\'']
        } else {
            seq![s.last()]
        }
    }
}

/// A file reference as a shell word, for a command the user may paste.
pub fn shell_quote(value: &str) -> (r: String)
    ensures
        r@ == seq!['\''] + reply_quote_body(value@) + seq!['\''],
{
    let cs = chars_of(value);
    let mut out: Vec<char> = Vec::new();
    out.push('\'');
    let mut i: usize = 0;
    while i < cs.len()
        invariant
            i <= cs@.len(),
            out@ == seq!['\''] + reply_quote_body(cs@.take(i as int)),
        decreases cs.len() - i,
    {
        let c = cs[i];
        if c == '\'' {
            out.push('\'');
            out.push('"');
            out.push('\'');
            out.push('"');
            out.push('\'');
        } else {
            out.push(c);
        }
        proof {
            let t1 = cs@.take(i + 1);
            assert(t1.drop_last() =~= cs@.take(i as int));
            assert(t1.last() == c);
            assert(out@ =~= seq!['\''] + reply_quote_body(t1));
        }
        i = i + 1;
    }
    out.push('\'');
    assert(cs@.take(cs@.len() as int) =~= cs@);
    assert(out@ =~= seq!['\''] + reply_quote_body(value@) + seq!['\'']);
    string_of_chars(&out)
}

} // verus!

