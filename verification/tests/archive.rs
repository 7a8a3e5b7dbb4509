use dify_agent_runtime::archive::{entry_stays_inside, join_entry, normalize, path_starts_with};

#[test]
fn normalize_resolves_dots() {
    let p = normalize("/a/./b/../c//d/");
    assert!(p.absolute);
    assert_eq!(p.parts, vec!["a".to_string(), "c".to_string(), "d".to_string()]);
}

#[test]
fn normalize_parent_at_root_stays_at_root() {
    let p = normalize("/../../x");
    assert!(p.absolute);
    assert_eq!(p.parts, vec!["x".to_string()]);
    let q = normalize("../y");
    assert!(!q.absolute);
    assert_eq!(q.parts, vec!["y".to_string()]);
}

#[test]
fn join_entry_places_names() {
    assert_eq!(join_entry("/t", "a/b"), "/t/a/b");
    assert_eq!(join_entry("/t/", "a"), "/t/a");
    assert_eq!(join_entry("/t", "/etc/passwd"), "/etc/passwd");
    assert_eq!(join_entry("", "a"), "a");
}

#[test]
fn path_starts_with_whole_components() {
    assert!(path_starts_with(&normalize("/t/a"), &normalize("/t")));
    assert!(!path_starts_with(&normalize("/tt/a"), &normalize("/t")));
    assert!(!path_starts_with(&normalize("t/a"), &normalize("/t")));
}

#[test]
fn plain_entries_stay_inside() {
    assert!(entry_stays_inside("/work/skills", "skill/SKILL.md"));
    assert!(entry_stays_inside("/work/skills", "./a/./b.txt"));
    assert!(entry_stays_inside("/work/skills", "a/../b.txt"));
}

#[test]
fn escaping_entries_are_refused() {
    assert!(!entry_stays_inside("/work/skills", "../evil.txt"));
    assert!(!entry_stays_inside("/work/skills", "a/../../evil.txt"));
    assert!(!entry_stays_inside("/work/skills", "/etc/passwd"));
    assert!(!entry_stays_inside("/work/skills", "../skills2/x"));
}
