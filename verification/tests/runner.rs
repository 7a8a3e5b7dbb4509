use dify_agent_runtime::jobmode::Mode;
use dify_agent_runtime::runner::{
    child_args, env_get, env_json_overlay, exec_argv, filter_env, is_shebang, merge_env, removed_env_names,
    runner_invocation, temp_dir_overlay, RunnerInvocation,
};

fn pairs(v: &[(&str, &str)]) -> Vec<(String, String)> {
    v.iter().map(|(k, x)| (k.to_string(), x.to_string())).collect()
}

fn strings(v: &[&str]) -> Vec<String> {
    v.iter().map(|s| s.to_string()).collect()
}

#[test]
fn environment_of_a_job() {
    let env = filter_env(pairs(&[("TMUX", "x"), ("PATH", "/bin"), ("SHELLCTL_AUTH_TOKEN", "t")]), &removed_env_names());
    assert_eq!(env, pairs(&[("PATH", "/bin")]));
    let mut env = env;
    merge_env(&mut env, pairs(&[("PATH", "/usr/bin"), ("HOME", "/h")]));
    assert_eq!(env, pairs(&[("PATH", "/usr/bin"), ("HOME", "/h")]));
    merge_env(&mut env, temp_dir_overlay("/w"));
    assert_eq!(env_get(&env, "TMPDIR"), Some("/w".to_string()));
    assert_eq!(env_get(&env, "TEMP"), Some("/w".to_string()));
    assert_eq!(env_get(&env, "HOME"), Some("/h".to_string()));
    assert_eq!(env_get(&env, "NOPE"), None);
    let mut env = pairs(&[("A", "1"), ("A", "2")]);
    merge_env(&mut env, pairs(&[("A", "3")]));
    assert_eq!(env, pairs(&[("A", "3"), ("A", "2")]));
}

#[test]
fn runner_arguments() {
    assert_eq!(
        runner_invocation(&strings(&["runner", "/j", "id", "/w"])),
        RunnerInvocation::Parent { job_dir: "/j".into(), job_id: "id".into(), cwd: "/w".into(), mode: Mode::Pty }
    );
    assert_eq!(
        runner_invocation(&strings(&["runner", "/j", "id", "/w", "stdio"])),
        RunnerInvocation::Parent { job_dir: "/j".into(), job_id: "id".into(), cwd: "/w".into(), mode: Mode::Stdio }
    );
    assert_eq!(
        runner_invocation(&strings(&["runner", "/j", "id", "/w", "tty"])),
        RunnerInvocation::BadMode("invalid job mode \"tty\"".into())
    );
    assert_eq!(runner_invocation(&strings(&["runner", "/j"])), RunnerInvocation::ParentUsage);
    assert_eq!(
        runner_invocation(&strings(&["runner", "--exec", "--landlock", "/j/script", "/w"])),
        RunnerInvocation::Child { landlock: true, script_path: "/j/script".into(), cwd: "/w".into() }
    );
    assert_eq!(runner_invocation(&strings(&["runner", "--exec", "/j/script"])), RunnerInvocation::ChildUsage);
    assert_eq!(child_args(true, "/s", "/w"), strings(&["--exec", "--landlock", "/s", "/w"]));
    assert_eq!(child_args(false, "/s", "/w"), strings(&["--exec", "/s", "/w"]));
    assert_eq!(exec_argv("/s", false), strings(&["sh", "/s"]));
    assert_eq!(exec_argv("/s", true), strings(&["/s"]));
    assert!(is_shebang(b"#!"));
    assert!(!is_shebang(b"#"));
}

#[test]
fn env_json_overlays() {
    let v = env_json_overlay(br#"{"A":"1","B":2,"C":{"x":"y"},"D":""}"#).unwrap();
    assert_eq!(v, vec![("A".to_string(), "1".to_string()), ("D".to_string(), "".to_string())]);
    assert!(env_json_overlay(b"[1]").is_none());
    assert!(env_json_overlay(b"nope").is_none());
    assert_eq!(env_json_overlay(b"{}").unwrap(), Vec::<(String, String)>::new());
}
