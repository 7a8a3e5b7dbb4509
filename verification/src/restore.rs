//! Restoring a home directory from a snapshot archive: which entry names are
//! safe to write, and which failures are the archive's fault.

use vstd::prelude::*;
use crate::text::{chars_of, string_of_chars, concat_str, debug_quote, debug_quoted};

verus! {

#[verifier::external_type_specification]
#[verifier::external_body]
pub struct ExIoError(std::io::Error);

pub enum RestoreError {
    /// The archive is not one that can be restored; the text says why.
    Malformed(String),
    /// The machine failed (disk full, permissions, ...).
    Io(std::io::Error),
}

impl RestoreError {
    pub fn is_malformed(&self) -> (r: bool)
        ensures
            r == (self is Malformed),
    {
        match self {
            RestoreError::Malformed(_) => true,
            RestoreError::Io(_) => false,
        }
    }
}

pub struct RestoreResult {
    pub entries: i32,
    pub bytes_written: i64,
}

impl RestoreResult {
    pub fn empty() -> (r: RestoreResult)
        ensures
            r.entries == 0,
            r.bytes_written == 0,
    {
        RestoreResult { entries: 0, bytes_written: 0 }
    }
}

/// Parts kept so far, the part begun last, and whether a `..` was met.
pub open spec fn scan_entry(cs: Seq<char>) -> (Seq<Seq<char>>, Seq<char>, bool)
    decreases cs.len(),
{
    if cs.len() == 0 {
        (Seq::empty(), Seq::empty(), false)
    } else {
        let (done, cur, up) = scan_entry(cs.drop_last());
        if cs.last() == '/' {
            (keep_part(done, cur), Seq::empty(), up || cur == ".."@)
        } else {
            (done, cur.push(cs.last()), up)
        }
    }
}

/// A part is kept unless it is empty or `.`.
pub open spec fn keep_part(done: Seq<Seq<char>>, cur: Seq<char>) -> Seq<Seq<char>> {
    if cur.len() == 0 || cur == "."@ || cur == ".."@ {
        done
    } else {
        done.push(cur)
    }
}

/// The parts joined with `/`.
pub open spec fn join_parts(ps: Seq<Seq<char>>) -> Seq<char>
    decreases ps.len(),
{
    if ps.len() == 0 {
        Seq::empty()
    } else if ps.len() == 1 {
        ps[0]
    } else {
        join_parts(ps.drop_last()) + seq!['/'] + ps.last()
    }
}

/// The name an archive entry is written under: its parts without empty
/// ones and `.`, joined with `/`. An absolute name, or one with a `..`
/// part, is refused.
pub open spec fn clean_name_spec(name: Seq<char>) -> Result<Seq<char>, Seq<char>> {
    if name.len() > 0 && name[0] == '/' {
        Err("absolute entry name "@ + debug_quoted(name))
    } else {
        let (done, cur, up) = scan_entry(name);
        if up || cur == ".."@ {
            Err("entry escapes root: "@ + debug_quoted(name))
        } else {
            Ok(join_parts(keep_part(done, cur)))
        }
    }
}

fn push_part(done: &mut Vec<Vec<char>>, cur: &Vec<char>)
    ensures
        parts_view(final(done)@) == keep_part(parts_view(old(done)@), cur@),
{
    proof {
        reveal_strlit(".");
        reveal_strlit("..");
    }
    let skip = cur.len() == 0 || (cur.len() == 1 && cur[0] == '.') || (cur.len() == 2 && cur[0] == '.'
        && cur[1] == '.');
    proof {
        if cur@.len() == 1 && cur@[0] == '.' {
            assert(cur@ =~= "."@);
        }
        if cur@.len() == 2 && cur@[0] == '.' && cur@[1] == '.' {
            assert(cur@ =~= ".."@);
        }
        assert(skip == (cur@.len() == 0 || cur@ == "."@ || cur@ == ".."@));
    }
    if !skip {
        let ghost before = done@;
        let mut copy: Vec<char> = Vec::new();
        let mut i: usize = 0;
        while i < cur.len()
            invariant
                i <= cur@.len(),
                copy@ == cur@.take(i as int),
            decreases cur.len() - i,
        {
            copy.push(cur[i]);
            i = i + 1;
            assert(copy@ =~= cur@.take(i as int));
        }
        assert(cur@.take(cur@.len() as int) =~= cur@);
        done.push(copy);
        assert(parts_view(done@) =~= parts_view(before).push(cur@));
    }
}

pub open spec fn parts_view(v: Seq<Vec<char>>) -> Seq<Seq<char>> {
    Seq::new(v.len(), |i: int| v[i]@)
}

fn is_dot_dot(cur: &Vec<char>) -> (r: bool)
    ensures
        r == (cur@ == ".."@),
{
    proof {
        reveal_strlit("..");
    }
    let r = cur.len() == 2 && cur[0] == '.' && cur[1] == '.';
    proof {
        if r {
            assert(cur@ =~= ".."@);
        }
    }
    r
}

pub fn clean_entry_name(name: &str) -> (r: Result<String, RestoreError>)
    ensures
        match clean_name_spec(name@) {
            Ok(n) => r matches Ok(s) && s@ == n,
            Err(m) => r matches Err(RestoreError::Malformed(e)) && e@ == m,
        },
{
    let cs = chars_of(name);
    if cs.len() > 0 && cs[0] == '/' {
        let q = debug_quote(name);
        return Err(RestoreError::Malformed(concat_str("absolute entry name ", q.as_str())));
    }
    let mut done: Vec<Vec<char>> = Vec::new();
    let mut cur: Vec<char> = Vec::new();
    let mut up = false;
    let mut i: usize = 0;
    assert(parts_view(done@) =~= Seq::<Seq<char>>::empty());
    while i < cs.len()
        invariant
            i <= cs@.len(),
            (parts_view(done@), cur@, up) == scan_entry(cs@.take(i as int)),
        decreases cs.len() - i,
    {
        let c = cs[i];
        proof {
            let t1 = cs@.take(i + 1);
            assert(t1.drop_last() =~= cs@.take(i as int));
            assert(t1.last() == c);
        }
        if c == '/' {
            if is_dot_dot(&cur) {
                up = true;
            }
            push_part(&mut done, &cur);
            cur = Vec::new();
            assert(cur@ =~= Seq::<char>::empty());
        } else {
            cur.push(c);
        }
        i = i + 1;
    }
    assert(cs@.take(cs@.len() as int) =~= cs@);
    if up || is_dot_dot(&cur) {
        let q = debug_quote(name);
        return Err(RestoreError::Malformed(concat_str("entry escapes root: ", q.as_str())));
    }
    push_part(&mut done, &cur);
    let mut out: Vec<char> = Vec::new();
    let mut k: usize = 0;
    while k < done.len()
        invariant
            k <= done@.len(),
            out@ == join_parts(parts_view(done@).take(k as int)),
        decreases done.len() - k,
    {
        proof {
            let t1 = parts_view(done@).take(k + 1);
            assert(t1.drop_last() =~= parts_view(done@).take(k as int));
            assert(t1.last() == done@[k as int]@);
        }
        let ghost before = out@;
        if k > 0 {
            out.push('/');
        }
        let part = &done[k];
        let mut j: usize = 0;
        let ghost mid = out@;
        while j < part.len()
            invariant
                j <= part@.len(),
                out@ == mid + part@.take(j as int),
            decreases part.len() - j,
        {
            out.push(part[j]);
            j = j + 1;
            assert(out@ =~= mid + part@.take(j as int));
        }
        assert(part@.take(part@.len() as int) =~= part@);
        proof {
            if k == 0 {
                assert(parts_view(done@).take(1) =~= seq![done@[0]@]);
                assert(before =~= Seq::<char>::empty());
                assert(out@ =~= part@);
            } else {
                assert(out@ =~= before + seq!['/'] + part@);
            }
        }
        k = k + 1;
    }
    assert(parts_view(done@).take(done@.len() as int) =~= parts_view(done@));
    Ok(string_of_chars(&out))
}

/// An I/O failure is the machine's, not the archive's, when the system
/// reports one of the given error numbers (disk full, quota, read-only file
/// system, I/O error, out of memory, too many open files, no permission) or
/// the operation timed out.
pub fn is_environmental(raw_os_error: Option<i32>, timed_out: bool, codes: &[i32]) -> (r: bool)
    ensures
        r == (timed_out || (raw_os_error matches Some(c) && codes@.contains(c))),
{
    if timed_out {
        return true;
    }
    match raw_os_error {
        None => false,
        Some(c) => {
            let mut i: usize = 0;
            while i < codes.len()
                invariant
                    i <= codes@.len(),
                    raw_os_error == Some(c),
                    !timed_out,
                    forall|j: int| 0 <= j < i ==> codes@[j] != c,
                decreases codes.len() - i,
            {
                if codes[i] == c {
                    assert(codes@[i as int] == c);
                    return true;
                }
                i = i + 1;
            }
            false
        },
    }
}


pub open spec fn safe_part(p: Seq<char>) -> bool {
    p.len() > 0 && p != "."@ && p != ".."@ && !(exists|i: int| 0 <= i < p.len() && p[i] == '/')
}

proof fn lemma_scan_entry_parts(cs: Seq<char>)
    ensures
        forall|k: int| 0 <= k < scan_entry(cs).0.len() ==> safe_part(#[trigger] scan_entry(cs).0[k]),
        !(exists|i: int| 0 <= i < scan_entry(cs).1.len() && scan_entry(cs).1[i] == '/'),
    decreases cs.len(),
{
    if cs.len() > 0 {
        lemma_scan_entry_parts(cs.drop_last());
        let (done, cur, up) = scan_entry(cs.drop_last());
        if cs.last() != '/' {
            let c2 = cur.push(cs.last());
            assert forall|i: int| 0 <= i < c2.len() implies c2[i] != '/' by {
                if i < cur.len() {
                    assert(c2[i] == cur[i]);
                }
            }
        }
    }
}

proof fn lemma_join_safe(ps: Seq<Seq<char>>)
    requires
        forall|k: int| 0 <= k < ps.len() ==> safe_part(#[trigger] ps[k]),
    ensures
        ps.len() > 0 ==> join_parts(ps).len() > 0 && join_parts(ps)[0] != '/',
    decreases ps.len(),
{
    if ps.len() > 1 {
        let init = ps.drop_last();
        assert forall|k: int| 0 <= k < init.len() implies safe_part(#[trigger] init[k]) by {
            assert(init[k] == ps[k]);
        }
        lemma_join_safe(init);
        let j = join_parts(init) + seq!['/'] + ps.last();
        assert(j[0] == join_parts(init)[0]);
    } else if ps.len() == 1 {
        assert(safe_part(ps[0]));
        if ps[0][0] == '/' {
            assert(exists|i: int| 0 <= i < ps[0].len() && ps[0][i] == '/');
        }
    }
}

/// A name that passes is relative and made of non-empty parts, none of them
/// `.` or `..`: nothing restored lands outside the home directory.
pub proof fn law_clean_name_stays_inside(name: Seq<char>)
    ensures
        clean_name_spec(name) matches Ok(n) ==> (n.len() == 0 || n[0] != '/'),
        clean_name_spec(name) matches Ok(n) ==> ({
            let (done, cur, up) = scan_entry(name);
            let ps = keep_part(done, cur);
            &&& n == join_parts(ps)
            &&& forall|k: int| 0 <= k < ps.len() ==> safe_part(#[trigger] ps[k])
        }),
{
    lemma_scan_entry_parts(name);
    let (done, cur, up) = scan_entry(name);
    let ps = keep_part(done, cur);
    assert forall|k: int| 0 <= k < ps.len() implies safe_part(#[trigger] ps[k]) by {
        if k < done.len() {
            assert(ps[k] == done[k]);
        }
    }
    lemma_join_safe(ps);
}

/// The kind of an archive entry, as the tar header gives it.
pub enum EntryKind {
    Directory,
    Regular,
    Continuous,
    Symlink,
    Link,
    Sparse,
    Other,
}

/// What restoring one entry writes.
pub enum EntryPlan {
    /// Nothing: the entry names the root itself.
    Skip,
    /// A directory at the name, with these permission bits.
    Dir { name: String, mode: u32 },
    /// A regular file at the name, with the entry's contents.
    File { name: String },
    /// A symbolic link at the name, to the entry's link target.
    Symlink { name: String },
    /// A hard link at the name, to the (cleaned) target inside the root.
    HardLink { name: String, target: String },
}

pub enum PlanView {
    Skip,
    Dir(Seq<char>, u32),
    File(Seq<char>),
    Symlink(Seq<char>),
    HardLink(Seq<char>, Seq<char>),
}

pub open spec fn plan_view(p: EntryPlan) -> PlanView {
    match p {
        EntryPlan::Skip => PlanView::Skip,
        EntryPlan::Dir { name, mode } => PlanView::Dir(name@, mode),
        EntryPlan::File { name } => PlanView::File(name@),
        EntryPlan::Symlink { name } => PlanView::Symlink(name@),
        EntryPlan::HardLink { name, target } => PlanView::HardLink(name@, target@),
    }
}

pub open spec fn link_view(l: Result<Option<String>, String>) -> Result<Option<Seq<char>>, Seq<char>> {
    match l {
        Ok(Some(t)) => Ok(Some(t@)),
        Ok(None) => Ok(None),
        Err(e) => Err(e@),
    }
}

/// What restoring an entry does, or the text of why the archive is refused.
/// `raw` is the entry's name, `link` its link target (or why the header has
/// none readable), and the `_shown` texts are how the name, the kind and the
/// link target print in a message. A name that cleans to nothing is
/// skipped; sparse entries and kinds other than directories, files and links
/// are refused; a link needs a target, and a hard link's target must clean to
/// a name inside the root. A directory keeps the entry's permission bits
/// (0644 where the header has none).
pub open spec fn entry_plan_spec(
    raw: Seq<char>,
    raw_shown: Seq<char>,
    kind: EntryKind,
    kind_shown: Seq<char>,
    mode: Option<u32>,
    link: Result<Option<Seq<char>>, Seq<char>>,
    link_shown: Seq<char>,
) -> Result<PlanView, Seq<char>> {
    match clean_name_spec(raw) {
        Err(m) => Err(m),
        Ok(n) => if n.len() == 0 {
            Ok(PlanView::Skip)
        } else {
            match kind {
                EntryKind::Sparse => Err("sparse entry "@ + raw_shown + " not supported"@),
                EntryKind::Directory => Ok(
                    PlanView::Dir(
                        n,
                        (match mode {
                            Some(m) => m,
                            None => 0o644u32,
                        }) & 0o777u32,
                    ),
                ),
                EntryKind::Regular => Ok(PlanView::File(n)),
                EntryKind::Continuous => Ok(PlanView::File(n)),
                EntryKind::Symlink => match link {
                    Err(e) => Err(e),
                    Ok(None) => Err("missing symlink target"@),
                    Ok(Some(_)) => Ok(PlanView::Symlink(n)),
                },
                EntryKind::Link => match link {
                    Err(e) => Err(e),
                    Ok(None) => Err("missing hardlink target"@),
                    Ok(Some(l)) => match clean_name_spec(l) {
                        Err(m) => Err(m),
                        Ok(t) => if t.len() == 0 {
                            Err("hardlink target "@ + link_shown)
                        } else {
                            Ok(PlanView::HardLink(n, t))
                        },
                    },
                },
                EntryKind::Other => Err("unsupported entry type "@ + kind_shown + " for "@ + raw_shown),
            }
        },
    }
}

/// Decides what restoring one archive entry writes.
pub fn plan_entry(
    raw: &str,
    raw_shown: &str,
    kind: EntryKind,
    kind_shown: &str,
    mode: Option<u32>,
    link: &Result<Option<String>, String>,
    link_shown: &str,
) -> (r: Result<EntryPlan, RestoreError>)
    ensures
        match entry_plan_spec(raw@, raw_shown@, kind, kind_shown@, mode, link_view(*link), link_shown@) {
            Ok(p) => r matches Ok(q) && plan_view(q) == p,
            Err(m) => r matches Err(RestoreError::Malformed(e)) && e@ == m,
        },
{
    let name = match clean_entry_name(raw) {
        Ok(n) => n,
        Err(e) => return Err(e),
    };
    if name.as_str().is_empty() {
        return Ok(EntryPlan::Skip);
    }
    match kind {
        EntryKind::Sparse => {
            let a = concat_str("sparse entry ", raw_shown);
            Err(RestoreError::Malformed(concat_str(a.as_str(), " not supported")))
        },
        EntryKind::Directory => {
            let m = match mode {
                Some(m) => m,
                None => 0o644u32,
            };
            Ok(EntryPlan::Dir { name, mode: m & 0o777u32 })
        },
        EntryKind::Regular => Ok(EntryPlan::File { name }),
        EntryKind::Continuous => Ok(EntryPlan::File { name }),
        EntryKind::Symlink => match link {
            Err(e) => Err(RestoreError::Malformed(e.clone())),
            Ok(None) => Err(RestoreError::Malformed("missing symlink target".to_string())),
            Ok(Some(_)) => Ok(EntryPlan::Symlink { name }),
        },
        EntryKind::Link => match link {
            Err(e) => Err(RestoreError::Malformed(e.clone())),
            Ok(None) => Err(RestoreError::Malformed("missing hardlink target".to_string())),
            Ok(Some(l)) => {
                let target = match clean_entry_name(l.as_str()) {
                    Ok(t) => t,
                    Err(e) => return Err(e),
                };
                if target.as_str().is_empty() {
                    Err(RestoreError::Malformed(concat_str("hardlink target ", link_shown)))
                } else {
                    Ok(EntryPlan::HardLink { name, target })
                }
            },
        },
        EntryKind::Other => {
            let a = concat_str("unsupported entry type ", kind_shown);
            let b = concat_str(a.as_str(), " for ");
            Err(RestoreError::Malformed(concat_str(b.as_str(), raw_shown)))
        },
    }
}

impl RestoreResult {
    /// Counts one restored entry and the bytes written for it.
    pub fn count_entry(&mut self, written: i64)
        requires
            old(self).entries < i32::MAX,
            i64::MIN <= old(self).bytes_written + written <= i64::MAX,
        ensures
            final(self).entries == old(self).entries + 1,
            final(self).bytes_written == old(self).bytes_written + written,
    {
        self.entries = self.entries + 1;
        self.bytes_written = self.bytes_written + written;
    }
}

} // verus!

