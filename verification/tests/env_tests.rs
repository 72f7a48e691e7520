use lifecycle::env::{launch_env_excludelist, ActionType, LaunchEnv};
use lifecycle::env_file::{delim_file_name, parse_env_file_name, plan_env_files};
use lifecycle::path_list::{join_path, path_without_entries, split_path};

/// Applies the files of an env directory, given by name and contents, as
/// the launcher does after reading them.
fn apply_dir(env: &mut LaunchEnv, files: &[(&str, &str)], default_action: ActionType) {
    let names: Vec<String> = files.iter().map(|(n, _)| n.to_string()).collect();
    for step in plan_env_files(names, default_action) {
        let contents = files.iter().find(|(n, _)| *n == step.file_name).unwrap().1;
        let delim = match delim_file_name(&step.name, step.action) {
            Some(delim_file) => files.iter().find(|(n, _)| *n == delim_file).map(|(_, c)| *c),
            None => None,
        };
        env.apply_env_file(&step.name, step.action, contents, delim);
    }
}

#[test]
fn test_new_launch_env_purging_and_sanitization() {
    let host_env = vec![
        (
            "PATH".to_string(),
            "/lifecycle:/process:/usr/bin".to_string(),
        ),
        ("CNB_APP_DIR".to_string(), "/workspace".to_string()),
        ("FOO".to_string(), "bar".to_string()),
    ];
    let env = LaunchEnv::new(&host_env, "/process", "/lifecycle");

    assert!(env.get("CNB_APP_DIR").is_none());
    assert_eq!(env.get("FOO").unwrap(), "bar");
    assert_eq!(env.get("PATH").unwrap(), "/usr/bin");
}

#[test]
fn test_add_env_dir_override_and_default() {
    let mut env = LaunchEnv::new(&[], "", "");
    env.set("FOO", "original_foo");
    env.set("BAR", "original_bar");

    apply_dir(
        &mut env,
        &[("FOO", "unsuffixed_val"), ("BAR.override", "override_val")],
        ActionType::Override,
    );

    assert_eq!(env.get("FOO").unwrap(), "unsuffixed_val");
    assert_eq!(env.get("BAR").unwrap(), "override_val");

    apply_dir(
        &mut env,
        &[("FOO.default", "default_val"), ("BAZ.default", "default_val")],
        ActionType::Override,
    );

    assert_eq!(env.get("FOO").unwrap(), "unsuffixed_val");
    assert_eq!(env.get("BAZ").unwrap(), "default_val");
}

#[test]
fn test_add_env_dir_append_and_prepend() {
    let mut env = LaunchEnv::new(&[], "", "");
    env.set("PATH", "/usr/bin");
    env.set("VAR", "base");

    apply_dir(
        &mut env,
        &[("PATH.prepend", "/layer/bin"), ("VAR.append", "appendage"), ("VAR.delim", "-")],
        ActionType::Override,
    );

    assert_eq!(env.get("PATH").unwrap(), "/layer/bin:/usr/bin");
    assert_eq!(env.get("VAR").unwrap(), "base-appendage");
}

#[test]
fn set_then_get() {
    let mut env = LaunchEnv::new(&[("A".to_string(), "1".to_string())], "", "");
    env.set("B", "2");
    env.set("A", "3");
    assert_eq!(env.get("A").unwrap(), "3");
    assert_eq!(env.get("B").unwrap(), "2");
    assert!(env.get("C").is_none());
    assert_eq!(env.vars().len(), 2);
}

#[test]
fn new_keeps_last_host_value_and_excludes_cnb_vars() {
    let host_env: Vec<(String, String)> = [
        ("X", "first"),
        ("CNB_LAYERS_DIR", "/layers"),
        ("CNB_PROCESS_TYPE", "web"),
        ("CNB_PLATFORM_API", "0.15"),
        ("CNB_DEPRECATION_MODE", "quiet"),
        ("X", "second"),
    ]
    .iter()
    .map(|(k, v)| (k.to_string(), v.to_string()))
    .collect();
    let env = LaunchEnv::new(&host_env, "/p", "/l");
    assert_eq!(env.get("X").unwrap(), "second");
    for name in ["CNB_LAYERS_DIR", "CNB_PROCESS_TYPE", "CNB_PLATFORM_API", "CNB_DEPRECATION_MODE"] {
        assert!(env.get(name).is_none(), "{}", name);
    }
    assert!(env.get("PATH").is_none());
    assert_eq!(env.vars().len(), 1);
}

#[test]
fn path_sanitization_edge_cases() {
    let make = |path: &str| vec![("PATH".to_string(), path.to_string())];
    let env = LaunchEnv::new(&make("/a::/p:/b:/l:/p"), "/p", "/l");
    assert_eq!(env.get("PATH").unwrap(), "/a::/b");
    let env = LaunchEnv::new(&make("/p:/l"), "/p", "/l");
    assert_eq!(env.get("PATH").unwrap(), "");
    let env = LaunchEnv::new(&make("/a::/b"), "", "/l");
    assert_eq!(env.get("PATH").unwrap(), "/a:/b");
    let env = LaunchEnv::new(&make(""), "/p", "/l");
    assert_eq!(env.get("PATH").unwrap(), "");
}

#[test]
fn path_lists() {
    assert_eq!(split_path("/a::/b"), vec!["/a", "", "/b"]);
    assert_eq!(split_path(""), vec![""]);
    assert_eq!(join_path(&vec!["x".to_string(), "".to_string(), "y".to_string()]), "x::y");
    assert_eq!(join_path(&vec![]), "");
    assert_eq!(path_without_entries("/x:/y:/x", "/x", "/z"), "/y");
}

#[test]
fn root_dirs_extend_path_lists() {
    let mut env = LaunchEnv::new(&[("PATH".to_string(), "/usr/bin".to_string())], "", "");
    env.add_root_child_dir("bin", "/layers/a/bin");
    env.add_root_child_dir("lib", "/layers/a/lib");
    env.add_root_child_dir("share", "/layers/a/share");
    assert_eq!(env.get("PATH").unwrap(), "/usr/bin:/layers/a/bin");
    assert_eq!(env.get("LD_LIBRARY_PATH").unwrap(), "/layers/a/lib");
    env.add_root_child_dir("bin", "/layers/b/bin");
    assert_eq!(env.get("PATH").unwrap(), "/usr/bin:/layers/a/bin:/layers/b/bin");
    env.add_root_child_dir("bin", "/odd:dir/bin");
    assert_eq!(env.get("PATH").unwrap(), "/usr/bin:/layers/a/bin:/layers/b/bin");
    assert!(env.get("share").is_none());
    let subs: Vec<&str> = env.root_dir_map().iter().map(|(s, _)| s.as_str()).collect();
    assert_eq!(subs, vec!["bin", "lib"]);
}

#[test]
fn env_file_names() {
    let d = ActionType::Prepend;
    assert_eq!(parse_env_file_name("FOO", d), Some(("FOO".to_string(), ActionType::Prepend)));
    assert_eq!(parse_env_file_name("FOO.", d), Some(("FOO".to_string(), ActionType::Prepend)));
    assert_eq!(parse_env_file_name("FOO.override", d), Some(("FOO".to_string(), ActionType::Override)));
    assert_eq!(parse_env_file_name("FOO.default", d), Some(("FOO".to_string(), ActionType::Default)));
    assert_eq!(parse_env_file_name("FOO.append", d), Some(("FOO".to_string(), ActionType::Append)));
    assert_eq!(parse_env_file_name("FOO.prepend", d), Some(("FOO".to_string(), ActionType::Prepend)));
    assert_eq!(parse_env_file_name("FOO.delim", d), None);
    assert_eq!(parse_env_file_name("FOO.bar", d), None);
    assert_eq!(parse_env_file_name("FOO.append.x", d), None);
}

#[test]
fn env_files_apply_in_name_order() {
    let names = vec!["b.append".to_string(), "a".to_string(), "B".to_string(), "a.delim".to_string()];
    let plan = plan_env_files(names, ActionType::Default);
    let order: Vec<(&str, &str, ActionType)> =
        plan.iter().map(|p| (p.file_name.as_str(), p.name.as_str(), p.action)).collect();
    assert_eq!(
        order,
        vec![("B", "B", ActionType::Default), ("a", "a", ActionType::Default), ("b.append", "b", ActionType::Append)]
    );
}

#[test]
fn env_file_actions() {
    let mut env = LaunchEnv::new(&[], "", "");
    env.apply_env_file("E", ActionType::Default, "", None);
    assert_eq!(env.get("E").unwrap(), "");
    env.apply_env_file("E", ActionType::Default, "d", None);
    assert_eq!(env.get("E").unwrap(), "");
    env.apply_env_file("F", ActionType::Default, "f", None);
    assert_eq!(env.get("F").unwrap(), "f");
    env.apply_env_file("F", ActionType::Default, "g", None);
    assert_eq!(env.get("F").unwrap(), "f");
    env.apply_env_file("E", ActionType::Append, "x", None);
    assert_eq!(env.get("E").unwrap(), "x");
    env.apply_env_file("E", ActionType::Append, "w", None);
    assert_eq!(env.get("E").unwrap(), "xw");
    env.apply_env_file("E", ActionType::Prepend, "y", None);
    assert_eq!(env.get("E").unwrap(), "yxw");
    env.apply_env_file("E", ActionType::Prepend, "z", Some(","));
    assert_eq!(env.get("E").unwrap(), "z,yxw");
    env.apply_env_file("LD_LIBRARY_PATH", ActionType::Prepend, "/a", None);
    env.apply_env_file("LD_LIBRARY_PATH", ActionType::Prepend, "/b", None);
    assert_eq!(env.get("LD_LIBRARY_PATH").unwrap(), "/b:/a");
    env.apply_env_file("LD_LIBRARY_PATH", ActionType::Append, "/c", None);
    assert_eq!(env.get("LD_LIBRARY_PATH").unwrap(), "/b:/a/c");
    env.apply_env_file("E", ActionType::Override, "o", Some(","));
    assert_eq!(env.get("E").unwrap(), "o");
}

#[test]
fn delim_files() {
    assert_eq!(delim_file_name("VAR", ActionType::Append), Some("VAR.delim".to_string()));
    assert_eq!(delim_file_name("VAR", ActionType::Prepend), Some("VAR.delim".to_string()));
    assert_eq!(delim_file_name("VAR", ActionType::Override), None);
    assert_eq!(delim_file_name("VAR", ActionType::Default), None);
}

#[test]
fn excluded_host_variables() {
    let list = launch_env_excludelist();
    assert_eq!(
        list,
        vec!["CNB_LAYERS_DIR", "CNB_APP_DIR", "CNB_PROCESS_TYPE", "CNB_PLATFORM_API", "CNB_DEPRECATION_MODE"]
    );
    let host: Vec<(String, String)> =
        list.iter().map(|k| (k.to_string(), "x".to_string())).collect();
    let env = LaunchEnv::new(&host, "", "");
    assert!(env.vars().is_empty());
}

#[test]
fn new_is_idempotent() {
    let host: Vec<(String, String)> = [
        ("PATH", "/l:/usr/bin::/p:/bin"),
        ("CNB_APP_DIR", "/w"),
        ("A", "1"),
        ("A", "2"),
        ("B", ""),
    ]
    .iter()
    .map(|(k, v)| (k.to_string(), v.to_string()))
    .collect();
    let once = LaunchEnv::new(&host, "/p", "/l");
    let mut again_input = once.vars().clone();
    again_input.reverse();
    let twice = LaunchEnv::new(&again_input, "/p", "/l");
    let mut a = once.vars().clone();
    let mut b = twice.vars().clone();
    a.sort();
    b.sort();
    assert_eq!(a, b);
    assert_eq!(once.get("PATH").unwrap(), "/usr/bin::/bin");
}
