//! Which files of the home directory a snapshot leaves out.

use vstd::prelude::*;
use crate::gitignore::{
    Matcher, Pattern, PatternSpec, parse_pattern, parse_pattern_spec, matcher_spec,
    pattern_match_spec, MatchResult, slices_view, SLASH, patterns_view,
};
use crate::text::{is_blank, str_is_blank, split_on, split_bytes, str_eq, utf8_bytes};

verus! {

/// Where the runtime keeps its own state, relative to the home directory;
/// it is never part of a snapshot.
pub const RUNTIME_STATE_DIR: &'static str = ".local/share/shellctl";

pub open spec fn runtime_state_dir() -> Seq<char> {
    ".local/share/shellctl"@
}

/// The compiled form of the exclusion patterns: blank lines are skipped,
/// every other line is a gitignore pattern anchored at the home directory.
pub open spec fn compile_excludes(ps: Seq<Seq<char>>) -> Seq<PatternSpec>
    decreases ps.len(),
{
    if ps.len() == 0 {
        seq![]
    } else {
        let rest = compile_excludes(ps.drop_last());
        if is_blank(ps.last()) {
            rest
        } else {
            rest.push(parse_pattern_spec(utf8_bytes(ps.last()), seq![]))
        }
    }
}

/// A path (relative to home, `/`-separated) is excluded when it is the
/// runtime's own state directory, or when the patterns exclude it.
pub open spec fn excluded_spec(ps: Seq<PatternSpec>, rel: Seq<char>, is_dir: bool) -> bool {
    rel == runtime_state_dir() || matcher_spec(ps, split_on(utf8_bytes(rel), SLASH), is_dir)
}

pub open spec fn strings_view(v: Seq<String>) -> Seq<Seq<char>> {
    v.map_values(|s: String| s@)
}

pub struct Excluder {
    matcher: Matcher,
}

impl View for Excluder {
    type V = Seq<PatternSpec>;

    closed spec fn view(&self) -> Seq<PatternSpec> {
        self.matcher@
    }
}

impl Excluder {
    pub fn new(patterns: &[String]) -> (e: Self)
        ensures
            e@ == compile_excludes(strings_view(patterns@)),
    {
        let mut compiled: Vec<Pattern> = Vec::new();
        let mut k: usize = 0;
        let empty: Vec<String> = Vec::new();
        while k < patterns.len()
            invariant
                k <= patterns@.len(),
                empty@.len() == 0,
                patterns_view(compiled@) == compile_excludes(strings_view(patterns@).take(k as int)),
            decreases patterns.len() - k,
        {
            let ghost before = compiled@;
            let p = patterns[k].as_str();
            let ghost sv = strings_view(patterns@);
            assert(sv.take(k + 1).drop_last() =~= sv.take(k as int));
            assert(sv.take(k + 1).last() == p@);
            if !str_is_blank(p) {
                let c = parse_pattern(p, empty.as_slice());
                assert(crate::gitignore::strings_bytes(empty@) =~= Seq::<Seq<u8>>::empty());
                compiled.push(c);
                assert(patterns_view(compiled@) =~= patterns_view(before).push(c@));
            }
            k = k + 1;
        }
        assert(strings_view(patterns@).take(patterns@.len() as int) =~= strings_view(patterns@));
        Self { matcher: Matcher::new(compiled) }
    }

    /// Whether a path relative to home (`/`-separated) is left out of a
    /// snapshot.
    pub fn excluded(&self, rel: &str, is_dir: bool) -> (r: bool)
        ensures
            r == excluded_spec(self@, rel@, is_dir),
    {
        if is_default_excluded(rel) {
            return true;
        }
        let parts = split_bytes(rel.as_bytes(), SLASH);
        let mut refs: Vec<&[u8]> = Vec::new();
        let mut k: usize = 0;
        while k < parts.len()
            invariant
                k <= parts@.len(),
                refs@.len() == k,
                forall|j: int| 0 <= j < k ==> #[trigger] refs@[j]@ == parts@[j]@,
            decreases parts.len() - k,
        {
            refs.push(parts[k].as_slice());
            k = k + 1;
        }
        assert(slices_view(refs@) =~= parts@.map_values(|v: Vec<u8>| v@));
        self.matcher.match_bytes(refs.as_slice(), is_dir)
    }
}

/// The paths that are excluded whatever the patterns say.
fn is_default_excluded(rel: &str) -> (r: bool)
    ensures
        r == (rel@ == runtime_state_dir()),
{
    str_eq(rel, RUNTIME_STATE_DIR)
}

/// Law: the runtime's own state directory is excluded whatever patterns the
/// caller gives, negated ones included.
pub proof fn law_runtime_state_always_excluded(ps: Seq<PatternSpec>, is_dir: bool)
    ensures
        excluded_spec(ps, runtime_state_dir(), is_dir),
{
}

/// Law: blank pattern lines change nothing, wherever they stand.
pub proof fn law_blank_patterns_ignored(a: Seq<Seq<char>>, blank: Seq<char>, c: Seq<Seq<char>>)
    requires
        is_blank(blank),
    ensures
        compile_excludes(a.push(blank) + c) == compile_excludes(a + c),
    decreases c.len(),
{
    if c.len() == 0 {
        assert(a.push(blank) + c =~= a.push(blank));
        assert(a + c =~= a);
        assert(a.push(blank).drop_last() =~= a);
    } else {
        law_blank_patterns_ignored(a, blank, c.drop_last());
        assert((a.push(blank) + c).drop_last() =~= a.push(blank) + c.drop_last());
        assert((a + c).drop_last() =~= a + c.drop_last());
        assert((a.push(blank) + c).last() == c.last());
        assert((a + c).last() == c.last());
    }
}

/// Law: a later pattern overrides the earlier ones: when the last line
/// matches a path, it alone decides whether the path is excluded (unless the
/// path is the runtime's state directory); when it does not match, the
/// earlier lines decide.
pub proof fn law_last_pattern_decides(a: Seq<Seq<char>>, line: Seq<char>, rel: Seq<char>, is_dir: bool)
    requires
        !is_blank(line),
        rel != runtime_state_dir(),
    ensures
        ({
            let q = parse_pattern_spec(utf8_bytes(line), seq![]);
            let m = pattern_match_spec(q, split_on(utf8_bytes(rel), SLASH), is_dir);
            excluded_spec(compile_excludes(a.push(line)), rel, is_dir) == if m != MatchResult::NoMatch {
                m == MatchResult::Exclude
            } else {
                excluded_spec(compile_excludes(a), rel, is_dir)
            }
        }),
{
    assert(a.push(line).drop_last() =~= a);
    let ps = compile_excludes(a.push(line));
    assert(ps.drop_last() =~= compile_excludes(a));
}

} // verus!
