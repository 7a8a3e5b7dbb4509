//! A gitignore matcher with the semantics of go-git's
//! `plumbing/format/gitignore`: patterns are split at `/`, may be anchored to
//! a domain, may be negated with `!`, and the last pattern that matches a
//! path decides about it.

use vstd::prelude::*;
use crate::text::{split_on, split_bytes, contains_byte, bytes_to_vec, utf8_bytes, bytes_eq, lemma_encode_concat};
use vstd::utf8::{encode_utf8, encode_utf8_first_scalar, codepoint_width_1, leading_byte_width_1, char_u32_cast};

verus! {

/// What one pattern says about a path.
#[derive(Clone, Copy, PartialEq, Eq, Structural, Debug)]
pub enum MatchResult {
    NoMatch,
    Exclude,
    Include,
}

/// The parts of a compiled pattern, as bytes.
pub struct PatternSpec {
    pub domain: Seq<Seq<u8>>,
    pub pattern: Seq<Seq<u8>>,
    pub inclusion: bool,
    pub dir_only: bool,
    pub is_glob: bool,
}

#[derive(Clone)]
pub struct Pattern {
    domain: Vec<Vec<u8>>,
    pattern: Vec<Vec<u8>>,
    inclusion: bool,
    dir_only: bool,
    is_glob: bool,
}

pub open spec fn vecs_view(v: Seq<Vec<u8>>) -> Seq<Seq<u8>> {
    v.map_values(|x: Vec<u8>| x@)
}

pub open spec fn slices_view(v: Seq<&[u8]>) -> Seq<Seq<u8>> {
    v.map_values(|x: &[u8]| x@)
}

pub open spec fn patterns_view(v: Seq<Pattern>) -> Seq<PatternSpec> {
    v.map_values(|p: Pattern| p@)
}

impl View for Pattern {
    type V = PatternSpec;

    closed spec fn view(&self) -> PatternSpec {
        PatternSpec {
            domain: vecs_view(self.domain@),
            pattern: vecs_view(self.pattern@),
            inclusion: self.inclusion,
            dir_only: self.dir_only,
            is_glob: self.is_glob,
        }
    }
}

pub const SLASH: u8 = 0x2Fu8;
pub const STAR: u8 = 0x2Au8;

/// Removes all trailing spaces.
pub open spec fn trim_trailing_spaces(s: Seq<u8>) -> Seq<u8>
    decreases s.len(),
{
    if s.len() > 0 && s.last() == 0x20u8 {
        trim_trailing_spaces(s.drop_last())
    } else {
        s
    }
}

/// `\ ` at the end keeps the trailing space.
pub open spec fn ends_with_escaped_space(s: Seq<u8>) -> bool {
    s.len() >= 2 && s[s.len() - 2] == 0x5Cu8 && s[s.len() - 1] == 0x20u8
}

/// A pattern line, compiled: a leading `!` negates it, unescaped trailing
/// spaces are dropped, a trailing `/` restricts it to directories, and a `/`
/// inside makes it a glob over path components.
pub open spec fn parse_pattern_spec(p: Seq<u8>, domain: Seq<Seq<u8>>) -> PatternSpec {
    let inclusion = p.len() > 0 && p[0] == 0x21u8;
    let p1 = if inclusion {
        p.drop_first()
    } else {
        p
    };
    let p2 = if ends_with_escaped_space(p1) {
        p1
    } else {
        trim_trailing_spaces(p1)
    };
    let dir_only = p2.len() > 0 && p2.last() == SLASH;
    let p3 = if dir_only {
        p2.drop_last()
    } else {
        p2
    };
    PatternSpec {
        domain: domain,
        pattern: split_on(p3, SLASH),
        inclusion: inclusion,
        dir_only: dir_only,
        is_glob: p3.contains(SLASH),
    }
}

pub open spec fn strings_bytes(v: Seq<String>) -> Seq<Seq<u8>> {
    v.map_values(|s: String| utf8_bytes(s@))
}

pub open spec fn strs_bytes(v: Seq<&str>) -> Seq<Seq<u8>> {
    v.map_values(|s: &str| utf8_bytes(s@))
}

/// The class at the start of `p` (which starts with `[`), scanned from
/// index `i`: `Some((end, hit))` with `end` just past the closing `]`.
pub open spec fn class_scan(p: Seq<u8>, ch: u8, i: int, negated: bool, matched: bool) -> Option<(int, bool)>
    decreases p.len() - i,
{
    if i < 0 || i >= p.len() {
        None
    } else if p[i] == 0x5Du8 {
        Some((i + 1, matched != negated))
    } else if i + 2 < p.len() && p[i + 1] == 0x2Du8 && p[i + 2] != 0x5Du8 {
        class_scan(p, ch, i + 3, negated, matched || (p[i] <= ch && ch <= p[i + 2]))
    } else {
        class_scan(p, ch, i + 1, negated, matched || p[i] == ch)
    }
}

/// A bracket expression such as `[a-z]` or `[^0-9]` at the start of `p`,
/// tested against `ch`: `None` when it is not closed.
pub open spec fn scan_class_spec(p: Seq<u8>, ch: u8) -> Option<(int, bool)> {
    if p.len() < 2 {
        None
    } else if p[1] == 0x5Eu8 {
        class_scan(p, ch, 2, true, false)
    } else {
        class_scan(p, ch, 1, false, false)
    }
}

/// Go's `path.Match` of a pattern against one name: `*` matches any run of
/// non-`/` bytes, `?` one non-`/` byte, `[...]` a byte of a class, and `\`
/// quotes the next byte.
pub open spec fn glob_name(p: Seq<u8>, n: Seq<u8>) -> bool
    decreases p.len(), 1int, 0int,
{
    if p.len() == 0 {
        n.len() == 0
    } else if p[0] == STAR {
        let rest = p.drop_first();
        if rest.len() == 0 {
            !n.contains(SLASH)
        } else {
            star_from(rest, n, 0)
        }
    } else if p[0] == 0x3Fu8 {
        n.len() > 0 && n[0] != SLASH && glob_name(p.drop_first(), n.drop_first())
    } else if p[0] == 0x5Bu8 {
        n.len() > 0 && match scan_class_spec(p, n[0]) {
            Some((c, true)) => 1 <= c <= p.len() && glob_name(p.skip(c), n.drop_first()),
            _ => false,
        }
    } else if p[0] == 0x5Cu8 {
        p.len() >= 2 && n.len() > 0 && n[0] == p[1] && glob_name(p.skip(2), n.drop_first())
    } else {
        n.len() > 0 && n[0] == p[0] && glob_name(p.drop_first(), n.drop_first())
    }
}

/// After a `*` followed by `rest`: some cut `k` (from the given one on),
/// before which no `/` was passed, lets `rest` match what follows the cut;
/// a `/` ends the search.
pub open spec fn star_from(rest: Seq<u8>, n: Seq<u8>, k: int) -> bool
    decreases rest.len() + 1, 0int, n.len() + 1 - k,
{
    if k < 0 || k > n.len() {
        false
    } else if k < n.len() && n[k] == SLASH {
        false
    } else if glob_name(rest, n.skip(k)) {
        true
    } else {
        star_from(rest, n, k + 1)
    }
}

/// The first name of `path` (from index `i` on) that the single pattern
/// component matches decides: a match on the last name, when the pattern is
/// for directories only and the path is not a directory, does not count.
pub open spec fn simple_from(pat: Seq<u8>, path: Seq<Seq<u8>>, i: int, dir_only: bool, is_dir: bool) -> bool
    decreases path.len() - i,
{
    if i < 0 || i >= path.len() {
        false
    } else if glob_name(pat, path[i]) {
        !(dir_only && !is_dir && i == path.len() - 1)
    } else {
        simple_from(pat, path, i + 1, dir_only, is_dir)
    }
}

/// After a `**`: the first name that matches `pattern` is consumed together
/// with everything before it.
pub open spec fn traverse(pattern: Seq<u8>, path: Seq<Seq<u8>>, matched: bool) -> (Seq<Seq<u8>>, bool)
    decreases path.len(),
{
    if path.len() == 0 {
        (path, matched)
    } else if glob_name(pattern, path[0]) {
        (path.drop_first(), true)
    } else if path.len() == 1 {
        (path.drop_first(), false)
    } else {
        traverse(pattern, path.drop_first(), matched)
    }
}

pub open spec fn is_double_star(s: Seq<u8>) -> bool {
    s.len() == 2 && s[0] == STAR && s[1] == STAR
}

pub open spec fn has_double_star(s: Seq<u8>) -> bool {
    exists|j: int| 0 <= j && j + 1 < s.len() && #[trigger] s[j] == STAR && s[j + 1] == STAR
}

pub open spec fn glob_result(matched: bool, path: Seq<Seq<u8>>, dir_only: bool, is_dir: bool) -> bool {
    if matched && dir_only && !is_dir && path.len() == 0 {
        false
    } else {
        matched
    }
}

/// The glob of pattern components (from index `i`) against the remaining
/// path, as go-git walks it.
pub open spec fn glob_from(
    pat: Seq<Seq<u8>>,
    i: int,
    path: Seq<Seq<u8>>,
    matched: bool,
    can_traverse: bool,
    dir_only: bool,
    is_dir: bool,
) -> bool
    decreases pat.len() - i,
{
    if i < 0 || i >= pat.len() {
        glob_result(matched, path, dir_only, is_dir)
    } else {
        let pattern = pat[i];
        if pattern.len() == 0 {
            glob_from(pat, i + 1, path, matched, false, dir_only, is_dir)
        } else if is_double_star(pattern) {
            if i == pat.len() - 1 {
                glob_result(matched, path, dir_only, is_dir)
            } else {
                glob_from(pat, i + 1, path, matched, true, dir_only, is_dir)
            }
        } else if has_double_star(pattern) {
            false
        } else if path.len() == 0 {
            false
        } else if can_traverse {
            let (rest, m) = traverse(pattern, path, matched);
            glob_from(pat, i + 1, rest, m, false, dir_only, is_dir)
        } else if !glob_name(pattern, path[0]) {
            false
        } else {
            glob_from(pat, i + 1, path.drop_first(), true, false, dir_only, is_dir)
        }
    }
}

/// What one compiled pattern says about a path given by its components.
pub open spec fn pattern_match_spec(p: PatternSpec, path: Seq<Seq<u8>>, is_dir: bool) -> MatchResult {
    let d = p.domain.len();
    if path.len() <= d || path.take(d as int) != p.domain {
        MatchResult::NoMatch
    } else {
        let rest = path.skip(d as int);
        let ok = if p.is_glob {
            glob_from(p.pattern, 0, rest, false, false, p.dir_only, is_dir)
        } else {
            p.pattern.len() > 0 && simple_from(p.pattern[0], rest, 0, p.dir_only, is_dir)
        };
        if !ok {
            MatchResult::NoMatch
        } else if p.inclusion {
            MatchResult::Include
        } else {
            MatchResult::Exclude
        }
    }
}

/// The last pattern that says anything about the path decides; a path that
/// no pattern matches is not excluded.
pub open spec fn matcher_spec(ps: Seq<PatternSpec>, path: Seq<Seq<u8>>, is_dir: bool) -> bool
    decreases ps.len(),
{
    if ps.len() == 0 {
        false
    } else {
        let m = pattern_match_spec(ps.last(), path, is_dir);
        if m != MatchResult::NoMatch {
            m == MatchResult::Exclude
        } else {
            matcher_spec(ps.drop_last(), path, is_dir)
        }
    }
}

/// The `i`-th pattern excludes the path and no later pattern says anything
/// about it.
pub open spec fn last_match_excludes(ps: Seq<PatternSpec>, path: Seq<Seq<u8>>, is_dir: bool, i: int) -> bool {
    &&& 0 <= i < ps.len()
    &&& pattern_match_spec(ps[i], path, is_dir) == MatchResult::Exclude
    &&& forall|j: int| i < j < ps.len() ==> pattern_match_spec(ps[j], path, is_dir) == MatchResult::NoMatch
}

/// Law: a path is excluded exactly when some pattern excludes it and no
/// later pattern matches it; a path that no pattern matches is not excluded.
pub proof fn law_last_match_decides(ps: Seq<PatternSpec>, path: Seq<Seq<u8>>, is_dir: bool)
    ensures
        matcher_spec(ps, path, is_dir) <==> exists|i: int| last_match_excludes(ps, path, is_dir, i),
    decreases ps.len(),
{
    if ps.len() > 0 {
        let n = ps.len() - 1;
        let init = ps.drop_last();
        let m = pattern_match_spec(ps[n], path, is_dir);
        law_last_match_decides(init, path, is_dir);
        if m == MatchResult::Exclude {
            assert(last_match_excludes(ps, path, is_dir, n));
        } else if m == MatchResult::Include {
            assert forall|i: int| !last_match_excludes(ps, path, is_dir, i) by {
                if 0 <= i < n {
                    assert(pattern_match_spec(ps[n], path, is_dir) != MatchResult::NoMatch);
                }
            }
        } else {
            assert forall|i: int| last_match_excludes(ps, path, is_dir, i)
                <==> last_match_excludes(init, path, is_dir, i) by {
                if 0 <= i < n {
                    assert(init[i] == ps[i]);
                    if last_match_excludes(init, path, is_dir, i) {
                        assert forall|j: int| i < j < ps.len() implies pattern_match_spec(
                            ps[j],
                            path,
                            is_dir,
                        ) == MatchResult::NoMatch by {
                            if j < n {
                                assert(init[j] == ps[j]);
                            }
                        }
                    }
                    if last_match_excludes(ps, path, is_dir, i) {
                        assert forall|j: int| i < j < init.len() implies pattern_match_spec(
                            init[j],
                            path,
                            is_dir,
                        ) == MatchResult::NoMatch by {
                            assert(init[j] == ps[j]);
                        }
                    }
                }
            }
        }
    }
}

/// A pattern text that does not start with `!` does not start with its byte.
proof fn lemma_no_leading_bang(q: Seq<char>)
    requires
        q.len() > 0,
        q[0] != '!',
    ensures
        utf8_bytes(q)[0] != 0x21u8,
{
    encode_utf8_first_scalar(q);
    let b = encode_utf8(q);
    if b[0] == 0x21u8 {
        assert(codepoint_width_1(0x21u8) == 0x21u32) by (bit_vector);
        assert(q[0] as u32 == 0x21u32);
        char_u32_cast(q[0], 0x21u32);
        assert(q[0] == '!');
    }
}

/// Law: `!` in front of a pattern turns its verdict around. Where the
/// pattern excludes a path its `!` form includes it, where it says nothing
/// so does its `!` form, and neither ever gives the other's verdict.
pub proof fn law_negation_swaps(q: Seq<char>, domain: Seq<Seq<u8>>, path: Seq<Seq<u8>>, is_dir: bool)
    requires
        q.len() == 0 || q[0] != '!',
    ensures
        ({
            let a = pattern_match_spec(parse_pattern_spec(utf8_bytes(q), domain), path, is_dir);
            let b = pattern_match_spec(
                parse_pattern_spec(utf8_bytes(seq!['!'] + q), domain),
                path,
                is_dir,
            );
            &&& (a == MatchResult::NoMatch) == (b == MatchResult::NoMatch)
            &&& (a == MatchResult::Exclude) == (b == MatchResult::Include)
            &&& a != MatchResult::Include
            &&& b != MatchResult::Exclude
        }),
{
    let plain = utf8_bytes(q);
    let bang = seq!['!'];
    lemma_encode_concat(bang, q);
    assert(leading_byte_width_1(0x21u32) == 0x21u8) by (bit_vector);
    assert(bang[0] as u32 == 0x21u32);
    assert(bang.drop_first() =~= Seq::<char>::empty());
    assert(encode_utf8(Seq::<char>::empty()) =~= Seq::<u8>::empty());
    assert(encode_utf8(bang) =~= seq![0x21u8]);
    let negated = utf8_bytes(bang + q);
    assert(negated == seq![0x21u8] + plain);
    assert(negated.drop_first() =~= plain);
    if q.len() > 0 {
        lemma_no_leading_bang(q);
    }
    let sa = parse_pattern_spec(plain, domain);
    let sb = parse_pattern_spec(negated, domain);
    assert(!sa.inclusion);
    assert(sb.inclusion);
    assert(sb == PatternSpec { inclusion: true, ..sa });
}

/// Bytes without a `/` are one piece.
proof fn lemma_split_no_slash(y: Seq<u8>)
    requires
        !y.contains(SLASH),
    ensures
        split_on(y, SLASH) == seq![y],
    decreases y.len(),
{
    if y.len() > 0 {
        let t = y.drop_first();
        assert(!t.contains(SLASH)) by {
            if t.contains(SLASH) {
                let k = choose|k: int| 0 <= k < t.len() && t[k] == SLASH;
                assert(y[k + 1] == SLASH);
            }
        }
        lemma_split_no_slash(t);
        assert(y[0] != SLASH);
        assert(seq![y[0]] + t =~= y);
    } else {
        assert(y =~= Seq::<u8>::empty());
    }
}

/// A piece without `/`, a `/` and the rest split as that piece followed by
/// the pieces of the rest.
proof fn lemma_split_first(x: Seq<u8>, y: Seq<u8>)
    requires
        !x.contains(SLASH),
    ensures
        split_on(x + seq![SLASH] + y, SLASH) == seq![x] + split_on(y, SLASH),
    decreases x.len(),
{
    let s = x + seq![SLASH] + y;
    if x.len() == 0 {
        assert(s[0] == SLASH);
        assert(s.drop_first() =~= y);
        assert(x =~= Seq::<u8>::empty());
    } else {
        let t = x.drop_first();
        assert(!t.contains(SLASH)) by {
            if t.contains(SLASH) {
                let k = choose|k: int| 0 <= k < t.len() && t[k] == SLASH;
                assert(x[k + 1] == SLASH);
            }
        }
        lemma_split_first(t, y);
        assert(s.drop_first() =~= t + seq![SLASH] + y);
        assert(s[0] == x[0]);
        assert(x[0] != SLASH);
        crate::text::lemma_split_on_nonempty(y, SLASH);
        assert(seq![x[0]] + t =~= x);
        assert((seq![t] + split_on(y, SLASH)).update(0, seq![x[0]] + t) =~= seq![x] + split_on(y, SLASH));
    }
}

/// A pattern component: not empty, no `/`, no `**`, not ending in a space.
pub open spec fn plain_component(p: Seq<u8>) -> bool {
    &&& p.len() > 0
    &&& !p.contains(SLASH)
    &&& !has_double_star(p)
    &&& p.last() != 0x20u8
}

pub open spec fn double_star() -> Seq<u8> {
    seq![STAR, STAR]
}

/// A plain component that is not negated, compiled, is that one component.
proof fn lemma_parse_plain(p: Seq<u8>)
    requires
        plain_component(p),
        p[0] != 0x21u8,
    ensures
        parse_pattern_spec(p, Seq::empty()) == (PatternSpec {
            domain: Seq::empty(),
            pattern: seq![p],
            inclusion: false,
            dir_only: false,
            is_glob: false,
        }),
{
    lemma_split_no_slash(p);
    assert(p.last() != SLASH) by {
        assert(p[p.len() - 1] == p.last());
    }
}

/// A pattern made of plain components joined by `/` compiles to those
/// components, as a glob.
proof fn lemma_parse_joined(x: Seq<u8>, rest: Seq<u8>, parts: Seq<Seq<u8>>)
    requires
        x.len() > 0,
        x[0] != 0x21u8,
        !x.contains(SLASH),
        rest.len() > 0,
        rest.last() != 0x20u8,
        rest.last() != SLASH,
        split_on(rest, SLASH) == parts,
    ensures
        parse_pattern_spec(x + seq![SLASH] + rest, Seq::empty()) == (PatternSpec {
            domain: Seq::empty(),
            pattern: seq![x] + parts,
            inclusion: false,
            dir_only: false,
            is_glob: true,
        }),
{
    let q = x + seq![SLASH] + rest;
    lemma_split_first(x, rest);
    assert(q[0] == x[0]);
    assert(q.last() == rest.last());
    assert(q[x.len() as int] == SLASH);
    assert(q.contains(SLASH));
}

/// Law: a leading `**/` matches in every directory, the top one included: on
/// a single name, `**/p` says what `p` says.
pub proof fn law_leading_double_star(p: Seq<u8>, name: Seq<u8>, is_dir: bool)
    requires
        plain_component(p),
        p[0] != 0x21u8,
    ensures
        pattern_match_spec(parse_pattern_spec(double_star() + seq![SLASH] + p, Seq::empty()), seq![name], is_dir)
            == pattern_match_spec(parse_pattern_spec(p, Seq::empty()), seq![name], is_dir),
{
    lemma_parse_plain(p);
    lemma_split_no_slash(p);
    assert(!double_star().contains(SLASH)) by {
        assert(double_star()[0] != SLASH && double_star()[1] != SLASH);
    }
    lemma_parse_joined(double_star(), p, seq![p]);
    let pat = seq![double_star()] + seq![p];
    assert(pat[0] == double_star());
    assert(pat[1] == p);
    assert(is_double_star(pat[0]));
    assert(!is_double_star(p)) by {
        if is_double_star(p) {
            assert(p[0] == STAR && p[1] == STAR);
        }
    }
    let path = seq![name];
    assert(path.skip(0) =~= path);
    assert(path.take(0) =~= Seq::<Seq<u8>>::empty());
    assert(path[0] == name);
    let none = Seq::<Seq<u8>>::empty();
    assert(path.drop_first() =~= none);
    let g = glob_name(p, name);
    assert(traverse(p, path, false) == (none, g));
    assert(glob_from(pat, 2, none, g, false, false, is_dir) == g);
    assert(glob_from(pat, 1, path, false, true, false, is_dir) == g);
    assert(glob_from(pat, 0, path, false, false, false, is_dir) == g);
    assert(simple_from(p, path, 1, false, is_dir) == false);
    assert(simple_from(p, path, 0, false, is_dir) == g);
}

/// Law: `a/**/b` matches `a` followed by `b` with no directory between, just
/// as `a/b` does.
pub proof fn law_inner_double_star(a: Seq<u8>, b: Seq<u8>, x: Seq<u8>, y: Seq<u8>, is_dir: bool)
    requires
        plain_component(a),
        a[0] != 0x21u8,
        plain_component(b),
    ensures
        pattern_match_spec(parse_pattern_spec(a + seq![SLASH] + double_star() + seq![SLASH] + b, Seq::empty()), seq![x, y], is_dir)
            == pattern_match_spec(parse_pattern_spec(a + seq![SLASH] + b, Seq::empty()), seq![x, y], is_dir),
{
    lemma_split_no_slash(b);
    assert(!double_star().contains(SLASH)) by {
        assert(double_star()[0] != SLASH && double_star()[1] != SLASH);
    }
    let tail = double_star() + seq![SLASH] + b;
    lemma_split_first(double_star(), b);
    assert(tail.last() == b.last());
    assert(b.last() != SLASH) by {
        assert(b[b.len() - 1] == b.last());
    }
    assert(a + seq![SLASH] + double_star() + seq![SLASH] + b =~= a + seq![SLASH] + tail);
    lemma_parse_joined(a, tail, seq![double_star()] + seq![b]);
    lemma_parse_joined(a, b, seq![b]);
    let pat1 = seq![a] + (seq![double_star()] + seq![b]);
    let pat2 = seq![a] + seq![b];
    assert(pat1[0] == a && pat1[1] == double_star() && pat1[2] == b && pat1.len() == 3);
    assert(pat2[0] == a && pat2[1] == b && pat2.len() == 2);
    assert(is_double_star(pat1[1]));
    assert(!is_double_star(a)) by {
        if is_double_star(a) {
            assert(a[0] == STAR && a[1] == STAR);
        }
    }
    assert(!is_double_star(b)) by {
        if is_double_star(b) {
            assert(b[0] == STAR && b[1] == STAR);
        }
    }
    let path = seq![x, y];
    assert(path.skip(0) =~= path);
    assert(path.take(0) =~= Seq::<Seq<u8>>::empty());
    assert(path[0] == x);
    assert(path.drop_first() =~= seq![y]);
    assert(seq![y][0] == y);
    let none = Seq::<Seq<u8>>::empty();
    assert(seq![y].drop_first() =~= none);
    let gx = glob_name(a, x);
    let gy = glob_name(b, y);
    assert(traverse(b, seq![y], true) == (none, gy));
    assert(glob_from(pat1, 3, none, gy, false, false, is_dir) == gy);
    assert(glob_from(pat1, 2, seq![y], true, true, false, is_dir) == gy);
    assert(glob_from(pat1, 1, seq![y], true, false, false, is_dir) == gy);
    assert(glob_from(pat1, 0, path, false, false, false, is_dir) == (gx && gy));
    assert(glob_from(pat2, 2, none, true, false, false, is_dir) == true);
    assert(glob_from(pat2, 1, seq![y], true, false, false, is_dir) == gy);
    assert(glob_from(pat2, 0, path, false, false, false, is_dir) == (gx && gy));
}

/// Compiles one pattern line relative to a domain of path components.
pub fn parse_pattern(p: &str, domain: &[String]) -> (res: Pattern)
    ensures
        res@ == parse_pattern_spec(utf8_bytes(p@), strings_bytes(domain@)),
{
    let bytes = p.as_bytes();
    let mut dom: Vec<Vec<u8>> = Vec::new();
    let mut k: usize = 0;
    while k < domain.len()
        invariant
            k <= domain.len(),
            dom@.len() == k,
            vecs_view(dom@) == strings_bytes(domain@).take(k as int),
        decreases domain.len() - k,
    {
        let d = bytes_to_vec(domain[k].as_str().as_bytes());
        dom.push(d);
        k = k + 1;
        assert(vecs_view(dom@) =~= strings_bytes(domain@).take(k as int));
    }
    assert(strings_bytes(domain@).take(domain@.len() as int) =~= strings_bytes(domain@));
    let n = bytes.len();
    let inclusion = n > 0 && bytes[0] == 0x21u8;
    let start: usize = if inclusion { 1 } else { 0 };
    let mut end: usize = n;
    let ghost p1 = bytes@.subrange(start as int, n as int);
    assert(inclusion ==> p1 =~= bytes@.drop_first());
    assert(!inclusion ==> p1 =~= bytes@);
    let keep = end - start >= 2 && bytes[end - 2] == 0x5Cu8 && bytes[end - 1] == 0x20u8;
    if !keep {
        while end > start && bytes[end - 1] == 0x20u8
            invariant
                start <= end <= n,
                n == bytes@.len(),
                trim_trailing_spaces(bytes@.subrange(start as int, end as int)) == trim_trailing_spaces(p1),
            decreases end,
        {
            assert(bytes@.subrange(start as int, end as int).drop_last() =~= bytes@.subrange(start as int, end - 1));
            end = end - 1;
        }
        assert(trim_trailing_spaces(bytes@.subrange(start as int, end as int)) == bytes@.subrange(start as int, end as int));
    }
    let ghost p2 = bytes@.subrange(start as int, end as int);
    let dir_only = end > start && bytes[end - 1] == SLASH;
    if dir_only {
        end = end - 1;
        assert(bytes@.subrange(start as int, end as int) =~= p2.drop_last());
    }
    let seg = &bytes[start..end];
    let is_glob = contains_byte(seg, SLASH);
    let pattern = split_bytes(seg, SLASH);
    Pattern { domain: dom, pattern, inclusion, dir_only, is_glob }
}


impl Pattern {
    /// What this pattern says about a path given by its components.
    pub fn match_path(&self, path: &[&str], is_dir: bool) -> (r: MatchResult)
        ensures
            r == pattern_match_spec(self@, strs_bytes(path@), is_dir),
    {
        let pb = strs_as_bytes(path);
        self.match_bytes(pb.as_slice(), is_dir)
    }

    pub(crate) fn match_bytes(&self, path: &[&[u8]], is_dir: bool) -> (r: MatchResult)
        ensures
            r == pattern_match_spec(self@, slices_view(path@), is_dir),
    {
        let ghost pv = slices_view(path@);
        let d = self.domain.len();
        if path.len() <= d {
            return MatchResult::NoMatch;
        }
        let mut i: usize = 0;
        while i < d
            invariant
                i <= d,
                d == self.domain@.len(),
                d < path@.len(),
                pv == slices_view(path@),
                forall|j: int| 0 <= j < i ==> pv[j] == self@.domain[j],
            decreases d - i,
        {
            if !bytes_eq(path[i], self.domain[i].as_slice()) {
                assert(pv.take(d as int)[i as int] != self@.domain[i as int]);
                return MatchResult::NoMatch;
            }
            i = i + 1;
        }
        assert(pv.take(d as int) =~= self@.domain);
        let rest = &path[d..path.len()];
        assert(slices_view(rest@) =~= pv.skip(d as int));
        let ok = if self.is_glob {
            self.glob_match(rest, is_dir)
        } else {
            self.simple_name_match(rest, is_dir)
        };
        if !ok {
            return MatchResult::NoMatch;
        }
        if self.inclusion {
            MatchResult::Include
        } else {
            MatchResult::Exclude
        }
    }

    fn simple_name_match(&self, path: &[&[u8]], is_dir: bool) -> (r: bool)
        ensures
            r == (self@.pattern.len() > 0 && simple_from(self@.pattern[0], slices_view(path@), 0, self@.dir_only, is_dir)),
    {
        if self.pattern.len() == 0 {
            return false;
        }
        let ghost pv = slices_view(path@);
        let pat = self.pattern[0].as_slice();
        let mut i: usize = 0;
        while i < path.len()
            invariant
                i <= path.len(),
                pv == slices_view(path@),
                pat@ == self@.pattern[0],
                self@.pattern.len() > 0,
                simple_from(pat@, pv, 0, self@.dir_only, is_dir) == simple_from(pat@, pv, i as int, self@.dir_only, is_dir),
            decreases path.len() - i,
        {
            assert(pv[i as int] == path@[i as int]@);
            if match_go(pat, path[i]) {
                if self.dir_only && !is_dir && i == path.len() - 1 {
                    return false;
                }
                return true;
            }
            i = i + 1;
        }
        false
    }

    fn glob_match(&self, path: &[&[u8]], is_dir: bool) -> (r: bool)
        ensures
            r == glob_from(self@.pattern, 0, slices_view(path@), false, false, self@.dir_only, is_dir),
    {
        let ghost pats = self@.pattern;
        let mut matched = false;
        let mut can_traverse = false;
        let mut i: usize = 0;
        let mut p: usize = 0;
        let ghost target = glob_from(pats, 0, slices_view(path@), false, false, self@.dir_only, is_dir);
        assert(path@.subrange(0, path@.len() as int) =~= path@);
        while i < self.pattern.len()
            invariant
                i <= self.pattern@.len(),
                p <= path@.len(),
                pats == self@.pattern,
                pats.len() == self.pattern@.len(),
                target == glob_from(self@.pattern, 0, slices_view(path@), false, false, self@.dir_only, is_dir),
                target == glob_from(pats, i as int, slices_view(path@.subrange(p as int, path@.len() as int)), matched, can_traverse, self@.dir_only, is_dir),
            ensures
                target == glob_result(matched, slices_view(path@.subrange(p as int, path@.len() as int)), self@.dir_only, is_dir),
            decreases self.pattern.len() - i,
        {
            let ghost pv = slices_view(path@.subrange(p as int, path@.len() as int));
            let pattern = self.pattern[i].as_slice();
            assert(pattern@ == pats[i as int]);
            if pattern.len() == 0 {
                can_traverse = false;
                i = i + 1;
                continue;
            }
            if pattern.len() == 2 && pattern[0] == 0x2Au8 && pattern[1] == 0x2Au8 {
                if i == self.pattern.len() - 1 {
                    break;
                }
                can_traverse = true;
                i = i + 1;
                continue;
            }
            if contains_double_star(pattern) {
                assert(!is_double_star(pats[i as int]));
                assert(pats[i as int].len() != 0);
                assert(has_double_star(pats[i as int]));
                assert(glob_from(pats, i as int, pv, matched, can_traverse, self@.dir_only, is_dir) == false);
                assert(target == false);
                return false;
            }
            if p >= path.len() {
                assert(pv.len() == 0);
                assert(!is_double_star(pats[i as int]));
                assert(pats[i as int].len() != 0);
                assert(!has_double_star(pats[i as int]));
                assert(glob_from(pats, i as int, pv, matched, can_traverse, self@.dir_only, is_dir) == false);
                assert(target == false);
                return false;
            }
            assert(!is_double_star(pats[i as int]));
            assert(pats[i as int].len() != 0);
            assert(!has_double_star(pats[i as int]));
            assert(pv.len() > 0);
            if can_traverse {
                can_traverse = false;
                let ghost tr = traverse(pattern@, pv, matched);
                while p < path.len()
                    invariant_except_break
                        traverse(pattern@, slices_view(path@.subrange(p as int, path@.len() as int)), matched) == tr,
                    invariant
                        p <= path@.len(),
                    ensures
                        tr == (slices_view(path@.subrange(p as int, path@.len() as int)), matched),
                    decreases path.len() - p,
                {
                    let ghost before = slices_view(path@.subrange(p as int, path@.len() as int));
                    let e = path[p];
                    assert(before[0] == e@);
                    p = p + 1;
                    assert(before.drop_first() =~= slices_view(path@.subrange(p as int, path@.len() as int)));
                    if match_go(pattern, e) {
                        matched = true;
                        break;
                    } else if p >= path.len() {
                        matched = false;
                    }
                }
            } else {
                assert(pv[0] == path@[p as int]@);
                if !match_go(pattern, path[p]) {
                    assert(glob_from(pats, i as int, pv, matched, can_traverse, self@.dir_only, is_dir) == false);
                    assert(target == false);
                    return false;
                }
                matched = true;
                p = p + 1;
                assert(pv.drop_first() =~= slices_view(path@.subrange(p as int, path@.len() as int)));
            }
            i = i + 1;
        }
        if matched && self.dir_only && !is_dir && p >= path.len() {
            matched = false;
        }
        assert(target == matched);
        matched
    }
}

/// The bytes of each string.
fn strs_as_bytes<'a>(path: &[&'a str]) -> (pb: Vec<&'a [u8]>)
    ensures
        slices_view(pb@) == strs_bytes(path@),
{
        let mut pb: Vec<&[u8]> = Vec::new();
        let mut k: usize = 0;
        while k < path.len()
            invariant
                k <= path.len(),
                pb@.len() == k,
                slices_view(pb@) == strs_bytes(path@).take(k as int),
            decreases path.len() - k,
        {
            let ghost before = pb@;
            let b = path[k].as_bytes();
            assert(b@ == strs_bytes(path@)[k as int]);
            pb.push(b);
            assert(pb@ == before.push(b));
            assert forall|j: int| 0 <= j < k + 1 implies #[trigger] slices_view(pb@)[j] == strs_bytes(path@).take(k + 1)[j] by {
                if j < k {
                    assert(slices_view(pb@)[j] == pb@[j]@);
                    assert(pb@[j] == before[j]);
                    assert(slices_view(before)[j] == before[j]@);
                    assert(slices_view(before)[j] == strs_bytes(path@).take(k as int)[j]);
                }
            }
            k = k + 1;
            assert(slices_view(pb@) =~= strs_bytes(path@).take(k as int));
        }
        assert(strs_bytes(path@).take(path@.len() as int) =~= strs_bytes(path@));
        pb
}

fn contains_double_star(s: &[u8]) -> (r: bool)
    ensures
        r == has_double_star(s@),
{
    let mut j: usize = 0;
    while j < s.len() && s.len() - j > 1
        invariant
            j <= s@.len(),
            forall|k: int| 0 <= k < j && k + 1 < s@.len() ==> !(#[trigger] s@[k] == STAR && s@[k + 1] == STAR),
        decreases s.len() - j,
    {
        if s[j] == 0x2Au8 && s[j + 1] == 0x2Au8 {
            return true;
        }
        j = j + 1;
    }
    false
}

/// An ordered list of patterns.
pub struct Matcher {
    patterns: Vec<Pattern>,
}

impl View for Matcher {
    type V = Seq<PatternSpec>;

    closed spec fn view(&self) -> Seq<PatternSpec> {
        patterns_view(self.patterns@)
    }
}

impl Matcher {
    pub fn new(patterns: Vec<Pattern>) -> (m: Self)
        ensures
            m@ == patterns_view(patterns@),
    {
        Self { patterns }
    }

    /// Whether the path is excluded: the last pattern that matches it decides.
    pub fn match_path(&self, path: &[&str], is_dir: bool) -> (r: bool)
        ensures
            r == matcher_spec(self@, strs_bytes(path@), is_dir),
    {
        let pb = strs_as_bytes(path);
        self.match_bytes(pb.as_slice(), is_dir)
    }

    /// `match_path` on components given as bytes.
    pub(crate) fn match_bytes(&self, path: &[&[u8]], is_dir: bool) -> (r: bool)
        ensures
            r == matcher_spec(self@, slices_view(path@), is_dir),
    {
        let ghost ps = self@;
        let ghost pv = slices_view(path@);
        let mut k: usize = self.patterns.len();
        assert(ps.take(k as int) =~= ps);
        while k > 0
            invariant
                k <= self.patterns@.len(),
                ps == self@,
                ps.len() == self.patterns@.len(),
                pv == slices_view(path@),
                matcher_spec(ps, pv, is_dir) == matcher_spec(ps.take(k as int), pv, is_dir),
            decreases k,
        {
            let m = self.patterns[k - 1].match_bytes(path, is_dir);
            assert(ps[k - 1] == self.patterns@[k - 1]@);
            assert(ps.take(k as int).last() == ps[k - 1]);
            assert(ps.take(k as int).drop_last() =~= ps.take(k - 1));
            if m != MatchResult::NoMatch {
                return m == MatchResult::Exclude;
            }
            k = k - 1;
        }
        false
    }
}

/// Go's `path/filepath.Match` of a pattern against a single name.
pub fn filepath_match(pattern: &str, name: &str) -> (r: bool)
    ensures
        r == glob_name(utf8_bytes(pattern@), utf8_bytes(name@)),
{
    match_go(pattern.as_bytes(), name.as_bytes())
}

fn match_go(pattern: &[u8], name: &[u8]) -> (r: bool)
    ensures
        r == glob_name(pattern@, name@),
    decreases pattern@.len(),
{
    let mut px: usize = 0;
    let mut nx: usize = 0;
    assert(pattern@.skip(0) =~= pattern@);
    assert(name@.skip(0) =~= name@);
    while px < pattern.len() || nx < name.len()
        invariant
            px <= pattern@.len(),
            nx <= name@.len(),
            glob_name(pattern@, name@) == glob_name(pattern@.skip(px as int), name@.skip(nx as int)),
        decreases pattern@.len() - px + name@.len() - nx,
    {
        let ghost ps = pattern@.skip(px as int);
        let ghost ns = name@.skip(nx as int);
        if px < pattern.len() {
            let c = pattern[px];
            assert(ps[0] == c);
            if c == 0x2Au8 {
                let rest = &pattern[px + 1..pattern.len()];
                assert(rest@ =~= ps.drop_first());
                if rest.len() == 0 {
                    let found = contains_byte(&name[nx..name.len()], SLASH);
                    assert(name@.subrange(nx as int, name@.len() as int) =~= ns);
                    return !found;
                }
                let mut skip: usize = 0;
                assert(glob_name(ps, ns) == star_from(rest@, ns, 0));
                while skip <= name.len() - nx
                    invariant
                        nx <= name@.len(),
                        px < pattern@.len(),
                        ns == name@.skip(nx as int),
                        rest@.len() < pattern@.len(),
                        skip <= name@.len() - nx,
                        glob_name(pattern@, name@) == star_from(rest@, ns, skip as int),
                    decreases name.len() - nx + 1 - skip,
                {
                    if nx + skip < name.len() && name[nx + skip] == SLASH {
                        return false;
                    }
                    let sub = &name[nx + skip..name.len()];
                    assert(sub@ =~= ns.skip(skip as int));
                    if match_go(rest, sub) {
                        return true;
                    }
                    if skip == name.len() - nx {
                        assert(star_from(rest@, ns, skip + 1) == false);
                        return false;
                    }
                    skip = skip + 1;
                }
                return false;
            } else if c == 0x3Fu8 {
                if nx < name.len() && name[nx] != SLASH {
                    assert(ps.drop_first() =~= pattern@.skip(px + 1));
                    assert(ns.drop_first() =~= name@.skip(nx + 1));
                    px = px + 1;
                    nx = nx + 1;
                    continue;
                }
                return false;
            } else if c == 0x5Bu8 {
                if nx >= name.len() {
                    return false;
                }
                let cls = &pattern[px..pattern.len()];
                assert(cls@ =~= ps);
                match scan_class(cls, name[nx]) {
                    Some((consumed, true)) => {
                        assert(ps.skip(consumed as int) =~= pattern@.skip(px + consumed));
                        assert(ns.drop_first() =~= name@.skip(nx + 1));
                        px = px + consumed;
                        nx = nx + 1;
                        continue;
                    },
                    _ => {
                        return false;
                    },
                }
            } else if c == 0x5Cu8 {
                if px + 1 >= pattern.len() {
                    return false;
                }
                if nx < name.len() && name[nx] == pattern[px + 1] {
                    assert(ps.skip(2) =~= pattern@.skip(px + 2));
                    assert(ns.drop_first() =~= name@.skip(nx + 1));
                    px = px + 2;
                    nx = nx + 1;
                    continue;
                }
                return false;
            } else {
                if nx < name.len() && name[nx] == c {
                    assert(ps.drop_first() =~= pattern@.skip(px + 1));
                    assert(ns.drop_first() =~= name@.skip(nx + 1));
                    px = px + 1;
                    nx = nx + 1;
                    continue;
                }
                return false;
            }
        } else {
            return false;
        }
    }
    assert(pattern@.skip(px as int) =~= Seq::<u8>::empty());
    assert(name@.skip(nx as int) =~= Seq::<u8>::empty());
    true
}

fn scan_class(pattern: &[u8], ch: u8) -> (r: Option<(usize, bool)>)
    ensures
        match r {
            Some((c, m)) => scan_class_spec(pattern@, ch) == Some((c as int, m)) && 2 <= c <= pattern@.len(),
            None => scan_class_spec(pattern@, ch) is None,
        },
{
    if pattern.len() < 2 {
        return None;
    }
    let mut i: usize = 1;
    let mut negated = false;
    if pattern[1] == 0x5Eu8 {
        negated = true;
        i = 2;
    }
    let mut matched = false;
    while i < pattern.len() && pattern[i] != 0x5Du8
        invariant
            1 <= i <= pattern@.len(),
            negated ==> i >= 2,
            scan_class_spec(pattern@, ch) == class_scan(pattern@, ch, i as int, negated, matched),
        decreases pattern.len() - i,
    {
        if pattern.len() - i > 2 && pattern[i + 1] == 0x2Du8 && pattern[i + 2] != 0x5Du8 {
            let lo = pattern[i];
            let hi = pattern[i + 2];
            if ch >= lo && ch <= hi {
                matched = true;
            }
            i = i + 3;
        } else {
            if pattern[i] == ch {
                matched = true;
            }
            i = i + 1;
        }
    }
    if i >= pattern.len() {
        return None;
    }
    assert(i >= 1);
    Some((i + 1, matched != negated))
}

} // verus!
