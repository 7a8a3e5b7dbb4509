use dify_agent_runtime::restore::{
    clean_entry_name, is_environmental, plan_entry, EntryKind, EntryPlan, RestoreError, RestoreResult,
};

fn malformed(r: Result<String, RestoreError>) -> String {
    match r {
        Err(RestoreError::Malformed(m)) => m,
        _ => panic!("expected a malformed entry"),
    }
}

#[test]
fn entry_names() {
    assert_eq!(clean_entry_name("a/./b//c/").ok().unwrap(), "a/b/c");
    assert_eq!(clean_entry_name("./").ok().unwrap(), "");
    assert_eq!(clean_entry_name("dir").ok().unwrap(), "dir");
    assert_eq!(malformed(clean_entry_name("/etc/passwd")), "absolute entry name \"/etc/passwd\"");
    assert_eq!(malformed(clean_entry_name("a/../../b")), "entry escapes root: \"a/../../b\"");
    assert_eq!(malformed(clean_entry_name("..")), "entry escapes root: \"..\"");
    assert!(RestoreError::Malformed("x".into()).is_malformed());
    assert!(!RestoreError::Io(std::io::Error::other("disk")).is_malformed());
}

#[test]
fn environmental_failures() {
    let codes = [28, 122, 30, 5, 12, 24, 23, 13, 1];
    assert!(is_environmental(Some(28), false, &codes));
    assert!(!is_environmental(Some(2), false, &codes));
    assert!(is_environmental(None, true, &codes));
    assert!(!is_environmental(None, false, &codes));
}

fn plan_err(r: Result<EntryPlan, RestoreError>) -> String {
    match r {
        Err(RestoreError::Malformed(m)) => m,
        _ => panic!("expected a malformed archive"),
    }
}

#[test]
fn entry_plans() {
    let none: Result<Option<String>, String> = Ok(None);
    match plan_entry("./d/", "\"./d/\"", EntryKind::Directory, "Directory", Some(0o40755), &none, "") {
        Ok(EntryPlan::Dir { name, mode }) => assert_eq!((name.as_str(), mode), ("d", 0o755)),
        _ => panic!("a directory"),
    }
    match plan_entry("d", "\"d\"", EntryKind::Directory, "Directory", None, &none, "") {
        Ok(EntryPlan::Dir { mode, .. }) => assert_eq!(mode, 0o644),
        _ => panic!("a directory"),
    }
    assert!(matches!(plan_entry("./", "\"./\"", EntryKind::Regular, "Regular", None, &none, ""), Ok(EntryPlan::Skip)));
    assert!(matches!(plan_entry("f", "\"f\"", EntryKind::Continuous, "Continuous", None, &none, ""), Ok(EntryPlan::File { .. })));
    assert_eq!(
        plan_err(plan_entry("s", "\"s\"", EntryKind::Sparse, "GNUSparse", None, &none, "")),
        "sparse entry \"s\" not supported"
    );
    assert_eq!(
        plan_err(plan_entry("l", "\"l\"", EntryKind::Symlink, "Symlink", None, &none, "")),
        "missing symlink target"
    );
    assert_eq!(
        plan_err(plan_entry("l", "\"l\"", EntryKind::Link, "Link", None, &none, "")),
        "missing hardlink target"
    );
    let dot: Result<Option<String>, String> = Ok(Some(".".to_string()));
    assert_eq!(
        plan_err(plan_entry("l", "\"l\"", EntryKind::Link, "Link", None, &dot, "\".\"")),
        "hardlink target \".\""
    );
    let t: Result<Option<String>, String> = Ok(Some("a/b".to_string()));
    match plan_entry("l", "\"l\"", EntryKind::Link, "Link", None, &t, "\"a/b\"") {
        Ok(EntryPlan::HardLink { name, target }) => assert_eq!((name.as_str(), target.as_str()), ("l", "a/b")),
        _ => panic!("a hard link"),
    }
    let bad: Result<Option<String>, String> = Ok(Some("../x".to_string()));
    assert!(plan_err(plan_entry("l", "\"l\"", EntryKind::Link, "Link", None, &bad, "")).starts_with("entry escapes root"));
    assert!(matches!(plan_entry("l", "\"l\"", EntryKind::Symlink, "Symlink", None, &bad, ""), Ok(EntryPlan::Symlink { .. })));
    assert_eq!(
        plan_err(plan_entry("p", "\"p\"", EntryKind::Other, "Fifo", None, &none, "")),
        "unsupported entry type Fifo for \"p\""
    );
    assert!(plan_err(plan_entry("/abs", "\"/abs\"", EntryKind::Regular, "Regular", None, &none, "")).starts_with("absolute entry name"));
}

#[test]
fn counting_entries() {
    let mut r = RestoreResult::empty();
    r.count_entry(10);
    r.count_entry(0);
    assert_eq!((r.entries, r.bytes_written), (2, 10));
}
