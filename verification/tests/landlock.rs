use dify_agent_runtime::landlock::{
    config_from_values, default_ro_paths, default_rw_dev_paths, filter_existing, plan_rules,
    split_paths,
};

#[test]
fn defaults() {
    assert_eq!(default_ro_paths().len(), 10);
    assert_eq!(default_ro_paths()[0], "/usr");
    assert_eq!(default_rw_dev_paths(), vec!["/dev/null", "/dev/zero", "/dev/urandom", "/dev/random", "/dev/tty"]);
}

#[test]
fn path_lists() {
    assert_eq!(split_paths(" /a , ,/b,"), vec!["/a", "/b"]);
    assert!(split_paths("").is_empty());
    let c = config_from_values("/home/u", "/w", "/j", Some("/x"), None, Some(""));
    assert_eq!(c.rw_paths, vec!["/x"]);
    assert_eq!(c.ro_paths.len(), 10);
    assert!(c.rw_dev_paths.is_empty());
    let kept = filter_existing(&vec!["/a".to_string(), "/b".to_string()], &vec![false, true]);
    assert_eq!(kept, vec!["/b"]);
}

#[test]
fn rule_plan() {
    let c = config_from_values("/home/u", "/w", "/j", Some("/x,/y"), Some("/usr,/nope"), Some("/dev/null"));
    let p = plan_rules(&c, &vec![true, false], &vec![false, true], &vec![true]);
    assert_eq!(p.ro_paths, vec!["/usr", "/j"]);
    assert_eq!(p.rw_dirs, vec!["/home/u", "/w", "/y"]);
    assert_eq!(p.rw_dev, vec!["/dev/null"]);
    let c = config_from_values("/home/u", "/home/u", "", None, Some(""), None);
    let p = plan_rules(&c, &vec![], &vec![], &vec![true, true, true, true, true]);
    assert_eq!(p.rw_dirs, vec!["/home/u"]);
    assert!(p.ro_paths.is_empty());
}
