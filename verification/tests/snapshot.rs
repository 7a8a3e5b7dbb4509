use dify_agent_runtime::gitignore::{filepath_match, parse_pattern, MatchResult, Matcher};
use dify_agent_runtime::snapshot::{Excluder, RUNTIME_STATE_DIR};

#[test]
fn caller_patterns() {
    let cases: &[(&[&str], &str, bool, bool)] = &[
        (&[".cache"], ".cache", true, true),
        (&["node_modules"], "src/app/node_modules", true, true),
        (&["tags"], "src/tags", false, true),
        (&["/build"], "build", true, true),
        (&["/build"], "src/build", true, false),
        (&["*.log"], "var/app.log", false, true),
        (&["*.log"], "var/app.txt", false, false),
        (&[".cache/**"], ".cache/a/b/c.bin", false, true),
        (&["src/**/dist"], "src/a/b/dist", true, true),
        (&["target/"], "target", false, false),
        (&["target/"], "target", true, true),
        (&["tmp?"], "tmp1", false, true),
        (&["nothing-here"], "bin/tool.sh", false, false),
    ];
    for (patterns, rel, is_dir, want) in cases {
        let pats: Vec<String> = patterns.iter().map(|s| s.to_string()).collect();
        let got = Excluder::new(&pats).excluded(rel, *is_dir);
        assert_eq!(got, *want, "Excluded({rel}, {is_dir}) with {patterns:?}");
    }
    let empty: Vec<String> = vec![];
    assert!(!Excluder::new(&empty).excluded("bin/tool.sh", false));
}

#[test]
fn negation_wins() {
    let e = Excluder::new(&[".cache/**".into(), "!.cache/keep-me".into()]);
    assert!(e.excluded(".cache/junk", false));
    assert!(!e.excluded(".cache/keep-me", false));
}

#[test]
fn defaults_beat_caller() {
    for pattern in [
        format!("!{RUNTIME_STATE_DIR}"),
        format!("!/{RUNTIME_STATE_DIR}"),
        format!("!{RUNTIME_STATE_DIR}/**"),
        "!**".into(),
    ] {
        let e = Excluder::new(&[pattern.clone()]);
        for dir in [RUNTIME_STATE_DIR] {
            assert!(e.excluded(dir, true), "{pattern} pulled {dir} back in");
        }
    }
}

#[test]
fn ignores_blanks() {
    let e = Excluder::new(&["".into(), "   ".into(), "\t".into()]);
    assert!(!e.excluded("bin/tool.sh", false));
}

#[test]
fn blank_lines_between_patterns_change_nothing() {
    let with: Vec<String> = vec!["*.log".into(), " \u{3000} ".into(), "!keep.log".into()];
    let without: Vec<String> = vec!["*.log".into(), "!keep.log".into()];
    for rel in ["a.log", "keep.log", "x/keep.log", "b.txt"] {
        assert_eq!(
            Excluder::new(&with).excluded(rel, false),
            Excluder::new(&without).excluded(rel, false)
        );
    }
}

#[test]
fn glob_name_matching() {
    assert!(filepath_match("*.log", "app.log"));
    assert!(!filepath_match("*.log", "app.txt"));
    assert!(filepath_match("[a-c]x", "bx"));
    assert!(!filepath_match("[^a-c]x", "bx"));
    assert!(filepath_match("\\*", "*"));
    assert!(!filepath_match("\\*", "a"));
    assert!(filepath_match("a?c", "abc"));
    assert!(!filepath_match("[abc", "a"));
    assert!(filepath_match("literal", "literal"));
    assert!(!filepath_match("literal", "literals"));
}

#[test]
fn pattern_results() {
    let p = parse_pattern("!keep/", &[]);
    assert!(p.match_path(&["keep"], true) == MatchResult::Include);
    assert!(p.match_path(&["keep"], false) == MatchResult::NoMatch);
    let d = parse_pattern("*.o", &["sub".to_string()]);
    assert!(d.match_path(&["sub", "x.o"], false) == MatchResult::Exclude);
    assert!(d.match_path(&["other", "x.o"], false) == MatchResult::NoMatch);
    let m = Matcher::new(vec![parse_pattern("*.o", &[]), parse_pattern("!main.o", &[])]);
    assert!(m.match_path(&["a.o"], false));
    assert!(!m.match_path(&["main.o"], false));
    let esc = parse_pattern("name\\ ", &[]);
    assert!(esc.match_path(&["name "], false) == MatchResult::Exclude);
    let trimmed = parse_pattern("name  ", &[]);
    assert!(trimmed.match_path(&["name"], false) == MatchResult::Exclude);
}

#[test]
fn negated_pattern_swaps_verdict() {
    let paths: Vec<(Vec<&str>, bool)> = vec![
        (vec!["build"], true),
        (vec!["src", "build"], true),
        (vec!["build"], false),
        (vec!["other"], true),
    ];
    for q in ["build/", "**/build", "b*ld", "src/build"] {
        let plain = parse_pattern(q, &[]);
        let negated = parse_pattern(&format!("!{q}"), &[]);
        for (path, is_dir) in &paths {
            let a = plain.match_path(path, *is_dir);
            let b = negated.match_path(path, *is_dir);
            assert!(a != MatchResult::Include && b != MatchResult::Exclude);
            assert_eq!(a == MatchResult::NoMatch, b == MatchResult::NoMatch);
            assert_eq!(a == MatchResult::Exclude, b == MatchResult::Include);
        }
    }
}

#[test]
fn last_matching_pattern_decides() {
    let pats = ["*.log", "!keep.log", "keep.log"];
    let m = Matcher::new(pats.iter().map(|p| parse_pattern(p, &[])).collect());
    assert!(m.match_path(&["keep.log"], false));
    let m2 = Matcher::new(pats[..2].iter().map(|p| parse_pattern(p, &[])).collect());
    assert!(!m2.match_path(&["keep.log"], false));
    assert!(m2.match_path(&["a.log"], false));
    assert!(!m2.match_path(&["a.txt"], false));
}
