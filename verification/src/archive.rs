//! Lexical path handling for unpacking an archive: an entry is written only
//! where its path, once `.` and `..` are resolved, stays under the target.

use vstd::prelude::*;
use crate::text::{chars_of, string_of_chars, str_eq};

verus! {

/// `path` cut at every `/`; empty pieces are kept, so there is always one
/// piece more than there are slashes.
pub open spec fn raw_segments(path: Seq<char>) -> Seq<Seq<char>>
    decreases path.len(),
{
    if path.len() == 0 {
        seq![Seq::<char>::empty()]
    } else {
        let before = raw_segments(path.drop_last());
        if path.last() == '/' {
            before.push(Seq::<char>::empty())
        } else {
            before.update(before.len() - 1, before.last().push(path.last()))
        }
    }
}

/// A `..` piece.
pub open spec fn is_parent(seg: Seq<char>) -> bool {
    seg == seq!['.', '.']
}

/// A piece that names nothing: empty, or `.`.
pub open spec fn is_skipped(seg: Seq<char>) -> bool {
    seg.len() == 0 || seg == seq!['.']
}

/// What one piece does to the components resolved so far: `..` drops the
/// last one (and does nothing where there is none), an empty piece or `.`
/// does nothing, any other piece is appended.
pub open spec fn apply_segment(acc: Seq<Seq<char>>, seg: Seq<char>) -> Seq<Seq<char>> {
    if is_parent(seg) {
        if acc.len() > 0 {
            acc.drop_last()
        } else {
            acc
        }
    } else if is_skipped(seg) {
        acc
    } else {
        acc.push(seg)
    }
}

/// The components left after resolving the pieces from left to right.
pub open spec fn normalize_segments(segs: Seq<Seq<char>>) -> Seq<Seq<char>>
    decreases segs.len(),
{
    if segs.len() == 0 {
        Seq::empty()
    } else {
        apply_segment(normalize_segments(segs.drop_last()), segs.last())
    }
}

/// A path that starts at the root.
pub open spec fn is_absolute(path: Seq<char>) -> bool {
    path.len() > 0 && path[0] == '/'
}

/// The resolved components of a path.
pub open spec fn normal_form(path: Seq<char>) -> Seq<Seq<char>> {
    normalize_segments(raw_segments(path))
}

/// `name` placed under `base`: an absolute name replaces the base; otherwise
/// a `/` is put between them unless the base is empty or already ends in one.
pub open spec fn joined(base: Seq<char>, name: Seq<char>) -> Seq<char> {
    if is_absolute(name) || base.len() == 0 {
        name
    } else if base.last() == '/' {
        base + name
    } else {
        base + seq!['/'] + name
    }
}

/// Every component of `base` stands, in order, at the front of `path`.
pub open spec fn components_prefix(base: Seq<Seq<char>>, path: Seq<Seq<char>>) -> bool {
    base.len() <= path.len() && forall|i: int| 0 <= i < base.len() ==> base[i] == path[i]
}

/// An archive entry called `name`, unpacked under `target`, lands inside it.
pub open spec fn entry_inside(target: Seq<char>, name: Seq<char>) -> bool {
    let dest = joined(target, name);
    is_absolute(dest) == is_absolute(target) && components_prefix(
        normal_form(target),
        normal_form(dest),
    )
}

/// A path with `.` and `..` resolved.
pub struct NormalPath {
    pub absolute: bool,
    pub parts: Vec<String>,
}

impl NormalPath {
    /// The components as character sequences.
    pub open spec fn parts_view(&self) -> Seq<Seq<char>> {
        self.parts@.map_values(|p: String| p@)
    }
}

/// There is always at least one piece.
pub proof fn lemma_raw_segments_nonempty(path: Seq<char>)
    ensures
        raw_segments(path).len() >= 1,
    decreases path.len(),
{
    if path.len() > 0 {
        lemma_raw_segments_nonempty(path.drop_last());
    }
}

/// Cutting `a`, a slash and `b` gives the pieces of `a` followed by those of `b`.
pub proof fn lemma_raw_segments_split(a: Seq<char>, b: Seq<char>)
    ensures
        raw_segments(a + seq!['/'] + b) == raw_segments(a) + raw_segments(b),
    decreases b.len(),
{
    let whole = a + seq!['/'] + b;
    lemma_raw_segments_nonempty(a);
    if b.len() == 0 {
        assert(whole =~= a + seq!['/']);
        assert((a + seq!['/']).drop_last() =~= a);
        assert(raw_segments(a) + raw_segments(b) =~= raw_segments(a).push(Seq::<char>::empty()));
    } else {
        let b0 = b.drop_last();
        lemma_raw_segments_split(a, b0);
        lemma_raw_segments_nonempty(b0);
        assert(whole.drop_last() =~= a + seq!['/'] + b0);
        assert(whole.last() == b.last());
        let ra = raw_segments(a);
        let rb0 = raw_segments(b0);
        if b.last() == '/' {
            assert((ra + rb0).push(Seq::<char>::empty()) =~= ra + rb0.push(Seq::<char>::empty()));
        } else {
            let joined_before = ra + rb0;
            assert(joined_before.last() == rb0.last());
            assert(joined_before.update(joined_before.len() - 1, rb0.last().push(b.last()))
                =~= ra + rb0.update(rb0.len() - 1, rb0.last().push(b.last())));
        }
    }
}

/// Resolving pieces none of which is `..` only appends: what came before stays.
pub proof fn lemma_normalize_append(x: Seq<Seq<char>>, y: Seq<Seq<char>>)
    requires
        forall|i: int| 0 <= i < y.len() ==> !is_parent(#[trigger] y[i]),
    ensures
        normalize_segments(x + y) == normalize_segments(x) + normalize_segments(y),
    decreases y.len(),
{
    if y.len() == 0 {
        assert(x + y =~= x);
        assert(normalize_segments(x) + normalize_segments(y) =~= normalize_segments(x));
    } else {
        let y0 = y.drop_last();
        assert forall|i: int| 0 <= i < y0.len() implies !is_parent(#[trigger] y0[i]) by {
            assert(y0[i] == y[i]);
        }
        lemma_normalize_append(x, y0);
        assert((x + y).drop_last() =~= x + y0);
        assert((x + y).last() == y.last());
        assert(!is_parent(y[y.len() - 1]));
        let nx = normalize_segments(x);
        let ny0 = normalize_segments(y0);
        if !is_skipped(y.last()) {
            assert((nx + ny0).push(y.last()) =~= nx + ny0.push(y.last()));
        }
    }
}

/// An entry whose name is relative and holds no `..` piece always lands
/// inside the target, whatever the target is.
pub proof fn law_plain_entry_stays_inside(target: Seq<char>, name: Seq<char>)
    requires
        !is_absolute(name),
        forall|i: int|
            0 <= i < raw_segments(name).len() ==> !is_parent(#[trigger] raw_segments(name)[i]),
    ensures
        entry_inside(target, name),
{
    let dest = joined(target, name);
    let rn = raw_segments(name);
    if target.len() == 0 {
        let r = raw_segments(target);
        assert(r == seq![Seq::<char>::empty()]);
        assert(r.drop_last() =~= Seq::<Seq<char>>::empty());
        assert(normalize_segments(r.drop_last()) =~= Seq::<Seq<char>>::empty());
        assert(r.last().len() == 0);
        assert(seq!['.', '.'].len() == 2);
        assert(!is_parent(r.last()));
        assert(normal_form(target) =~= Seq::<Seq<char>>::empty());
    } else if target.last() == '/' {
        let t0 = target.drop_last();
        assert(target =~= t0 + seq!['/']);
        assert(dest =~= t0 + seq!['/'] + name);
        lemma_raw_segments_split(t0, name);
        lemma_normalize_append(raw_segments(t0), rn);
        assert(target.drop_last() =~= t0);
        assert(raw_segments(target) == raw_segments(t0).push(Seq::<char>::empty()));
        assert(raw_segments(target).drop_last() =~= raw_segments(t0));
        assert(dest[0] == target[0]);
    } else {
        assert(dest =~= target + seq!['/'] + name);
        lemma_raw_segments_split(target, name);
        lemma_normalize_append(raw_segments(target), rn);
        assert(dest[0] == target[0]);
    }
}

/// Resolves one piece into `parts`.
fn push_segment(parts: &mut Vec<String>, seg: &Vec<char>)
    ensures
        final(parts)@.map_values(|p: String| p@) == apply_segment(
            old(parts)@.map_values(|p: String| p@),
            seg@,
        ),
{
    let ghost before = parts@.map_values(|p: String| p@);
    let n = seg.len();
    let parent = n == 2 && seg[0] == '.' && seg[1] == '.';
    let skipped = n == 0 || (n == 1 && seg[0] == '.');
    proof {
        if parent {
            assert(seg@ =~= seq!['.', '.']);
        }
        if n == 1 && seg[0] == '.' {
            assert(seg@ =~= seq!['.']);
        }
    }
    if parent {
        if parts.len() > 0 {
            parts.pop();
            assert(parts@.map_values(|p: String| p@) =~= before.drop_last());
        }
    } else if skipped {
    } else {
        let s = string_of_chars(seg);
        parts.push(s);
        assert(parts@.map_values(|p: String| p@) =~= before.push(seg@));
    }
}

/// Resolves `.` and `..` in `path` without looking at the file system.
pub fn normalize(path: &str) -> (r: NormalPath)
    ensures
        r.absolute == is_absolute(path@),
        r.parts_view() == normal_form(path@),
{
    let cs = chars_of(path);
    let mut parts: Vec<String> = Vec::new();
    let mut cur: Vec<char> = Vec::new();
    let mut i: usize = 0;
    proof {
        assert(cs@.take(0) =~= Seq::<char>::empty());
        assert(parts@.map_values(|p: String| p@) =~= Seq::<Seq<char>>::empty());
        assert(raw_segments(Seq::<char>::empty()).drop_last() =~= Seq::<Seq<char>>::empty());
        assert(cur@ =~= Seq::<char>::empty());
    }
    while i < cs.len()
        invariant
            i <= cs@.len(),
            cs@ == path@,
            raw_segments(cs@.take(i as int)).len() >= 1,
            cur@ == raw_segments(cs@.take(i as int)).last(),
            parts@.map_values(|p: String| p@) == normalize_segments(
                raw_segments(cs@.take(i as int)).drop_last(),
            ),
        decreases cs.len() - i,
    {
        let c = cs[i];
        let ghost before = raw_segments(cs@.take(i as int));
        let ghost next = cs@.take(i + 1);
        assert(next.drop_last() =~= cs@.take(i as int));
        assert(next.last() == c);
        if c == '/' {
            push_segment(&mut parts, &cur);
            cur = Vec::new();
            proof {
                assert(raw_segments(next) == before.push(Seq::<char>::empty()));
                assert(raw_segments(next).drop_last() =~= before);
                assert(before =~= before.drop_last().push(before.last()));
                assert(cur@ =~= Seq::<char>::empty());
            }
        } else {
            cur.push(c);
            proof {
                let upd = before.update(before.len() - 1, before.last().push(c));
                assert(raw_segments(next) == upd);
                assert(upd.drop_last() =~= before.drop_last());
            }
        }
        i = i + 1;
    }
    proof {
        let all = raw_segments(cs@.take(i as int));
        assert(cs@.take(i as int) =~= path@);
        assert(all =~= all.drop_last().push(all.last()));
    }
    push_segment(&mut parts, &cur);
    let absolute = cs.len() > 0 && cs[0] == '/';
    NormalPath { absolute, parts }
}

/// The path of `name` placed under `base`, as `Path::join` builds it.
pub fn join_entry(base: &str, name: &str) -> (r: String)
    ensures
        r@ == joined(base@, name@),
{
    let b = chars_of(base);
    let n = chars_of(name);
    if (n.len() > 0 && n[0] == '/') || b.len() == 0 {
        return string_of_chars(&n);
    }
    let mut out = b.clone();
    if b[b.len() - 1] != '/' {
        out.push('/');
    }
    let mut i: usize = 0;
    let ghost start = out@;
    while i < n.len()
        invariant
            i <= n@.len(),
            out@ == start + n@.take(i as int),
        decreases n.len() - i,
    {
        out.push(n[i]);
        assert(n@.take(i + 1) =~= n@.take(i as int).push(n@[i as int]));
        i = i + 1;
    }
    proof {
        assert(n@.take(i as int) =~= n@);
        if b@.last() == '/' {
            assert(start =~= b@);
        } else {
            assert(start =~= b@ + seq!['/']);
        }
    }
    string_of_chars(&out)
}

/// Whether `path` begins with every component of `base`, roots included.
pub fn path_starts_with(path: &NormalPath, base: &NormalPath) -> (r: bool)
    ensures
        r == (path.absolute == base.absolute && components_prefix(
            base.parts_view(),
            path.parts_view(),
        )),
{
    if path.absolute != base.absolute || base.parts.len() > path.parts.len() {
        return false;
    }
    let mut i: usize = 0;
    while i < base.parts.len()
        invariant
            i <= base.parts@.len(),
            base.parts@.len() <= path.parts@.len(),
            forall|j: int| 0 <= j < i ==> base.parts_view()[j] == path.parts_view()[j],
        decreases base.parts.len() - i,
    {
        if !str_eq(base.parts[i].as_str(), path.parts[i].as_str()) {
            assert(base.parts_view()[i as int] != path.parts_view()[i as int]);
            return false;
        }
        i = i + 1;
    }
    true
}

/// Whether an archive entry called `name`, unpacked under `target`, lands
/// inside `target` once `.` and `..` are resolved.
pub fn entry_stays_inside(target: &str, name: &str) -> (r: bool)
    ensures
        r == entry_inside(target@, name@),
{
    let dest = join_entry(target, name);
    let d = normalize(dest.as_str());
    let t = normalize(target);
    path_starts_with(&d, &t)
}

} // verus!
