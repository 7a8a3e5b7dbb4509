//! The file-system isolation of a job: which paths it may read and which it
//! may write, from defaults or from the environment.

use vstd::prelude::*;
use crate::text::{chars_of, string_of_chars, trim_text, trimmed, str_eq};

verus! {

pub const ENV_RW_PATHS: &'static str = "SHELLCTL_LANDLOCK_RW_PATHS";

pub const ENV_RO_PATHS: &'static str = "SHELLCTL_LANDLOCK_RO_PATHS";

pub const ENV_RW_DEV_PATHS: &'static str = "SHELLCTL_LANDLOCK_RW_DEV_PATHS";

pub struct Config {
    pub home: String,
    pub cwd: String,
    pub job_dir: String,
    pub rw_paths: Vec<String>,
    pub ro_paths: Vec<String>,
    pub rw_dev_paths: Vec<String>,
}

pub open spec fn views(v: Seq<String>) -> Seq<Seq<char>> {
    Seq::new(v.len(), |i: int| v[i]@)
}

fn push_text(v: &mut Vec<String>, s: &str)
    ensures
        views(final(v)@) == views(old(v)@).push(s@),
{
    let ghost before = v@;
    v.push(s.to_string());
    assert(views(v@) =~= views(before).push(s@));
}

pub open spec fn default_ro_spec() -> Seq<Seq<char>> {
    seq![
        "/usr"@,
        "/bin"@,
        "/sbin"@,
        "/lib"@,
        "/lib64"@,
        "/etc"@,
        "/proc"@,
        "/opt/dify-agent-tools"@,
        "/opt/homebrew"@,
        "/snap"@,
    ]
}

pub open spec fn default_rw_dev_spec() -> Seq<Seq<char>> {
    seq!["/dev/null"@, "/dev/zero"@, "/dev/urandom"@, "/dev/random"@, "/dev/tty"@]
}

/// The system directories a job may read and execute from.
pub fn default_ro_paths() -> (v: Vec<String>)
    ensures
        views(v@) == default_ro_spec(),
{
    let mut v: Vec<String> = Vec::new();
    push_text(&mut v, "/usr");
    push_text(&mut v, "/bin");
    push_text(&mut v, "/sbin");
    push_text(&mut v, "/lib");
    push_text(&mut v, "/lib64");
    push_text(&mut v, "/etc");
    push_text(&mut v, "/proc");
    push_text(&mut v, "/opt/dify-agent-tools");
    push_text(&mut v, "/opt/homebrew");
    push_text(&mut v, "/snap");
    assert(views(v@) =~= default_ro_spec());
    v
}

/// The devices a job may read and write.
pub fn default_rw_dev_paths() -> (v: Vec<String>)
    ensures
        views(v@) == default_rw_dev_spec(),
{
    let mut v: Vec<String> = Vec::new();
    push_text(&mut v, "/dev/null");
    push_text(&mut v, "/dev/zero");
    push_text(&mut v, "/dev/urandom");
    push_text(&mut v, "/dev/random");
    push_text(&mut v, "/dev/tty");
    assert(views(v@) =~= default_rw_dev_spec());
    v
}

pub fn default_config(home: &str, cwd: &str, job_dir: &str) -> (c: Config)
    ensures
        c.home@ == home@,
        c.cwd@ == cwd@,
        c.job_dir@ == job_dir@,
        c.rw_paths@.len() == 0,
        views(c.ro_paths@) == default_ro_spec(),
        views(c.rw_dev_paths@) == default_rw_dev_spec(),
{
    Config {
        home: home.to_string(),
        cwd: cwd.to_string(),
        job_dir: job_dir.to_string(),
        rw_paths: Vec::new(),
        ro_paths: default_ro_paths(),
        rw_dev_paths: default_rw_dev_paths(),
    }
}

/// Pieces kept so far (trimmed, non-empty) and the piece begun last.
pub open spec fn scan_list(cs: Seq<char>) -> (Seq<Seq<char>>, Seq<char>)
    decreases cs.len(),
{
    if cs.len() == 0 {
        (Seq::empty(), Seq::empty())
    } else {
        let (done, cur) = scan_list(cs.drop_last());
        if cs.last() == ',' {
            (keep_piece(done, cur), Seq::empty())
        } else {
            (done, cur.push(cs.last()))
        }
    }
}

pub open spec fn keep_piece(done: Seq<Seq<char>>, cur: Seq<char>) -> Seq<Seq<char>> {
    if trimmed(cur).len() > 0 {
        done.push(trimmed(cur))
    } else {
        done
    }
}

/// The paths of a comma-separated list: each trimmed, empty ones left out.
pub open spec fn path_list(s: Seq<char>) -> Seq<Seq<char>> {
    let (done, cur) = scan_list(s);
    keep_piece(done, cur)
}

pub fn split_paths(s: &str) -> (r: Vec<String>)
    ensures
        views(r@) == path_list(s@),
{
    let cs = chars_of(s);
    let mut done: Vec<String> = Vec::new();
    let mut cur: Vec<char> = Vec::new();
    let mut i: usize = 0;
    while i < cs.len()
        invariant
            i <= cs@.len(),
            (views(done@), cur@) == scan_list(cs@.take(i as int)),
        decreases cs.len() - i,
    {
        let c = cs[i];
        proof {
            let t1 = cs@.take(i + 1);
            assert(t1.drop_last() =~= cs@.take(i as int));
            assert(t1.last() == c);
        }
        if c == ',' {
            let piece = string_of_chars(&cur);
            let t = trim_text(piece.as_str());
            if !t.is_empty() {
                push_text(&mut done, t);
            }
            cur = Vec::new();
            assert(cur@ =~= Seq::<char>::empty());
        } else {
            cur.push(c);
        }
        i = i + 1;
    }
    assert(cs@.take(cs@.len() as int) =~= cs@);
    let piece = string_of_chars(&cur);
    let t = trim_text(piece.as_str());
    if !t.is_empty() {
        push_text(&mut done, t);
    }
    done
}

/// The isolation of a job: the defaults, where each list that the
/// environment sets (`Some`) replaces the default one.
pub fn config_from_values(
    home: &str,
    cwd: &str,
    job_dir: &str,
    rw_paths: Option<&str>,
    ro_paths: Option<&str>,
    rw_dev_paths: Option<&str>,
) -> (c: Config)
    ensures
        c.home@ == home@,
        c.cwd@ == cwd@,
        c.job_dir@ == job_dir@,
        views(c.rw_paths@) == match rw_paths {
            Some(v) => path_list(v@),
            None => Seq::<Seq<char>>::empty(),
        },
        views(c.ro_paths@) == match ro_paths {
            Some(v) => path_list(v@),
            None => default_ro_spec(),
        },
        views(c.rw_dev_paths@) == match rw_dev_paths {
            Some(v) => path_list(v@),
            None => default_rw_dev_spec(),
        },
{
    let mut c = default_config(home, cwd, job_dir);
    assert(views(c.rw_paths@) =~= Seq::<Seq<char>>::empty());
    if let Some(v) = rw_paths {
        c.rw_paths = split_paths(v);
    }
    if let Some(v) = ro_paths {
        c.ro_paths = split_paths(v);
    }
    if let Some(v) = rw_dev_paths {
        c.rw_dev_paths = split_paths(v);
    }
    c
}

/// The paths, in order, whose flag says they exist.
pub open spec fn existing(paths: Seq<Seq<char>>, exists: Seq<bool>) -> Seq<Seq<char>>
    decreases paths.len(),
{
    if paths.len() == 0 {
        Seq::empty()
    } else {
        let rest = existing(paths.drop_last(), exists.take(paths.len() - 1));
        if exists[paths.len() - 1] {
            rest.push(paths.last())
        } else {
            rest
        }
    }
}

/// Keeps the paths that exist; `exists[i]` says whether `paths[i]` does.
pub fn filter_existing(paths: &Vec<String>, exists: &Vec<bool>) -> (r: Vec<String>)
    requires
        paths@.len() == exists@.len(),
    ensures
        views(r@) == existing(views(paths@), exists@),
{
    let mut r: Vec<String> = Vec::new();
    let mut i: usize = 0;
    while i < paths.len()
        invariant
            i <= paths@.len(),
            paths@.len() == exists@.len(),
            views(r@) == existing(views(paths@).take(i as int), exists@.take(i as int)),
        decreases paths.len() - i,
    {
        proof {
            let p1 = views(paths@).take(i + 1);
            assert(p1.drop_last() =~= views(paths@).take(i as int));
            assert(exists@.take(i + 1).take(i as int) =~= exists@.take(i as int));
            assert(p1.last() == paths@[i as int]@);
        }
        if exists[i] {
            push_text(&mut r, paths[i].as_str());
        }
        i = i + 1;
    }
    assert(views(paths@).take(paths@.len() as int) =~= views(paths@));
    assert(exists@.take(exists@.len() as int) =~= exists@);
    r
}

/// The rules of a job's isolation: directories it may read and write,
/// paths it may read and execute, devices it may read and write.
pub struct RulePlan {
    pub rw_dirs: Vec<String>,
    pub ro_paths: Vec<String>,
    pub rw_dev: Vec<String>,
}

/// The home directory, the working directory (where it is another one) and
/// the existing extra writable paths are writable; the existing read-only
/// paths and the job's directory are readable; the existing devices are
/// writable.
pub fn plan_rules(cfg: &Config, ro_exist: &Vec<bool>, rw_exist: &Vec<bool>, dev_exist: &Vec<bool>) -> (p: RulePlan)
    requires
        ro_exist@.len() == cfg.ro_paths@.len(),
        rw_exist@.len() == cfg.rw_paths@.len(),
        dev_exist@.len() == cfg.rw_dev_paths@.len(),
    ensures
        views(p.ro_paths@) == existing(views(cfg.ro_paths@), ro_exist@) + if cfg.job_dir@.len() > 0 {
            seq![cfg.job_dir@]
        } else {
            Seq::empty()
        },
        views(p.rw_dirs@) == seq![cfg.home@] + (if cfg.cwd@.len() > 0 && cfg.cwd@ != cfg.home@ {
            seq![cfg.cwd@]
        } else {
            Seq::empty()
        }) + existing(views(cfg.rw_paths@), rw_exist@),
        views(p.rw_dev@) == existing(views(cfg.rw_dev_paths@), dev_exist@),
{
    let mut ro = filter_existing(&cfg.ro_paths, ro_exist);
    let ghost ro0 = views(ro@);
    if !cfg.job_dir.as_str().is_empty() {
        push_text(&mut ro, cfg.job_dir.as_str());
    }
    assert(views(ro@) =~= ro0 + if cfg.job_dir@.len() > 0 {
        seq![cfg.job_dir@]
    } else {
        Seq::<Seq<char>>::empty()
    });
    let mut rw: Vec<String> = Vec::new();
    push_text(&mut rw, cfg.home.as_str());
    if !cfg.cwd.as_str().is_empty() && !str_eq(cfg.cwd.as_str(), cfg.home.as_str()) {
        push_text(&mut rw, cfg.cwd.as_str());
    }
    let extra = filter_existing(&cfg.rw_paths, rw_exist);
    let ghost head = views(rw@);
    let mut j: usize = 0;
    while j < extra.len()
        invariant
            j <= extra@.len(),
            views(rw@) == head + views(extra@).take(j as int),
        decreases extra.len() - j,
    {
        push_text(&mut rw, extra[j].as_str());
        assert(views(extra@).take(j + 1) =~= views(extra@).take(j as int).push(extra@[j as int]@));
        j = j + 1;
    }
    assert(views(extra@).take(extra@.len() as int) =~= views(extra@));
    assert(head =~= seq![cfg.home@] + (if cfg.cwd@.len() > 0 && cfg.cwd@ != cfg.home@ {
        seq![cfg.cwd@]
    } else {
        Seq::<Seq<char>>::empty()
    }));
    let dev = filter_existing(&cfg.rw_dev_paths, dev_exist);
    RulePlan { rw_dirs: rw, ro_paths: ro, rw_dev: dev }
}

} // verus!
