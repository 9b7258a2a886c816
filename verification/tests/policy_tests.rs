use std::collections::HashMap;
use std::path::{Path, PathBuf};

use cage::glob::glob_match;
use cage::policy::merge::{expand_path, expand_path_in};
use cage::policy::types::{EnvFilter, EnvMode, EnvPolicy, FilterAction, NetworkPolicy, SandboxPolicy};

fn strs(items: &[&str]) -> Vec<String> {
    items.iter().map(|s| s.to_string()).collect()
}

fn pairs(items: &[(&str, &str)]) -> Vec<(String, String)> {
    items.iter().map(|(k, v)| (k.to_string(), v.to_string())).collect()
}

fn to_map(v: Vec<(String, String)>) -> HashMap<String, String> {
    v.into_iter().collect()
}

fn env_policy(mode: Option<EnvMode>, allow: &[&str], block: &[&str], set: &[(&str, &str)]) -> EnvPolicy {
    EnvPolicy::from_lists(mode, strs(allow), strs(block), pairs(set))
}

fn set_get<'a>(set: &'a [(String, String)], key: &str) -> Option<&'a String> {
    set.iter().rev().find(|(k, _)| k == key).map(|(_, v)| v)
}

fn home() -> PathBuf {
    dirs::home_dir().unwrap()
}

// ---- glob matching ----

#[test]
fn test_glob_match_star() {
    assert!(glob_match("*", "anything"));
    assert!(glob_match("*", ""));
    assert!(glob_match("prefix*", "prefix123"));
    assert!(glob_match("*suffix", "123suffix"));
    assert!(glob_match("*middle*", "abcmiddledef"));
    assert!(!glob_match("prefix*", "different"));
}

#[test]
fn test_glob_match_question() {
    assert!(glob_match("?", "a"));
    assert!(!glob_match("?", ""));
    assert!(!glob_match("?", "ab"));
    assert!(glob_match("a?c", "abc"));
    assert!(glob_match("???", "xyz"));
    assert!(!glob_match("???", "xy"));
}

#[test]
fn test_glob_match_combined() {
    assert!(glob_match("*?", "a"));
    assert!(glob_match("?*", "a"));
    assert!(glob_match("*_*", "MY_TOKEN"));
    assert!(glob_match("AWS_*", "AWS_SECRET_KEY"));
    assert!(!glob_match("AWS_*", "GITHUB_TOKEN"));
    assert!(glob_match("*_TOKEN", "API_TOKEN"));
    assert!(glob_match("*_TOKEN", "MY_SECRET_TOKEN"));
    assert!(!glob_match("*_TOKEN", "TOKEN_VALUE"));
}

#[test]
fn test_glob_match_exact() {
    assert!(glob_match("PATH", "PATH"));
    assert!(!glob_match("PATH", "path"));
    assert!(!glob_match("PATH", "PATH_EXTRA"));
}

#[test]
fn glob_question_mark_is_one_character() {
    assert!(glob_match("caf?", "café"));
    assert!(glob_match("?", "é"));
    assert!(!glob_match("??", "é"));
}

#[test]
fn glob_star_in_name_is_a_wildcard() {
    assert!(glob_match("a*", "a*"));
    assert!(glob_match("a*c", "abbbc"));
    assert!(!glob_match("a*c", "abbb"));
    assert!(glob_match("**", ""));
}

// ---- environment filtering ----

#[test]
fn test_env_filter_allowlist() {
    let env = pairs(&[("PATH", "/bin:/usr/bin"), ("HOME", "/home/user"), ("SECRET", "hidden")]);
    let policy = env_policy(Some(EnvMode::DefaultBlock), &["PATH"], &[], &[]);
    let filtered = to_map(policy.filter(&env));
    assert_eq!(filtered.len(), 1);
    assert!(filtered.contains_key("PATH"));
    assert!(!filtered.contains_key("HOME"));
    assert!(!filtered.contains_key("SECRET"));
}

#[test]
fn test_env_filter_blocklist() {
    let env = pairs(&[("PATH", "/bin"), ("MY_TOKEN", "secret"), ("API_KEY", "key"), ("GITHUB_TOKEN", "gh_token")]);
    let policy = env_policy(Some(EnvMode::DefaultAllow), &[], &["*_TOKEN", "*KEY"], &[]);
    let filtered = to_map(policy.filter(&env));
    assert_eq!(filtered.len(), 1);
    assert!(filtered.contains_key("PATH"));
    assert!(!filtered.contains_key("MY_TOKEN"));
    assert!(!filtered.contains_key("API_KEY"));
    assert!(!filtered.contains_key("GITHUB_TOKEN"));
}

#[test]
fn test_env_filter_set_overrides() {
    let env = pairs(&[("PATH", "/old")]);
    let policy = env_policy(Some(EnvMode::DefaultBlock), &["PATH"], &[], &[("PATH", "/new"), ("CAGE", "1")]);
    let filtered = to_map(policy.filter(&env));
    assert_eq!(filtered.get("PATH"), Some(&"/new".to_string()));
    assert_eq!(filtered.get("CAGE"), Some(&"1".to_string()));
}

#[test]
fn test_env_filter_blocklist_with_set() {
    let env = pairs(&[("PATH", "/bin"), ("SECRET", "hidden")]);
    let policy = env_policy(Some(EnvMode::DefaultAllow), &[], &["SECRET"], &[("CAGE", "1")]);
    let filtered = to_map(policy.filter(&env));
    assert!(filtered.contains_key("PATH"));
    assert!(!filtered.contains_key("SECRET"));
    assert_eq!(filtered.get("CAGE"), Some(&"1".to_string()));
}

#[test]
fn test_real_world_default_policy() {
    let env = pairs(&[
        ("PATH", "/bin"),
        ("HOME", "/home/user"),
        ("MY_API_TOKEN", "secret"),
        ("AWS_ACCESS_KEY", "key"),
        ("GITHUB_TOKEN", "gh"),
        ("USER_PASSWORD", "pass"),
    ]);
    let policy = env_policy(
        Some(EnvMode::DefaultAllow),
        &[],
        &["*_TOKEN", "*_SECRET", "*_PASSWORD", "*_API_KEY", "AWS_*", "GITHUB_*"],
        &[("CAGE", "1")],
    );
    let filtered = to_map(policy.filter(&env));
    assert!(filtered.contains_key("PATH"));
    assert!(filtered.contains_key("HOME"));
    assert!(!filtered.contains_key("MY_API_TOKEN"));
    assert!(!filtered.contains_key("AWS_ACCESS_KEY"));
    assert!(!filtered.contains_key("GITHUB_TOKEN"));
    assert!(!filtered.contains_key("USER_PASSWORD"));
    assert_eq!(filtered.get("CAGE"), Some(&"1".to_string()));
}

#[test]
fn test_real_world_strict_policy() {
    let env = pairs(&[("PATH", "/bin"), ("HOME", "/home/user"), ("SECRET", "hidden")]);
    let policy = env_policy(Some(EnvMode::DefaultBlock), &["PATH"], &[], &[("CAGE", "1")]);
    let filtered = to_map(policy.filter(&env));
    assert_eq!(filtered.len(), 2);
    assert!(filtered.contains_key("PATH"));
    assert!(!filtered.contains_key("HOME"));
    assert!(!filtered.contains_key("SECRET"));
    assert_eq!(filtered.get("CAGE"), Some(&"1".to_string()));
}

#[test]
fn test_env_filter_first_match_wins() {
    let env = pairs(&[("MY_TOKEN", "secret")]);
    let policy = env_policy(Some(EnvMode::DefaultBlock), &["MY_TOKEN"], &["*_TOKEN"], &[]);
    let filtered = to_map(policy.filter(&env));
    assert!(!filtered.contains_key("MY_TOKEN"));
}

#[test]
fn test_env_filter_allow_before_block() {
    let env = pairs(&[("MY_TOKEN", "secret")]);
    let policy = EnvPolicy {
        mode: Some(EnvMode::DefaultAllow),
        filters: vec![
            EnvFilter { pattern: "MY_TOKEN".to_string(), action: FilterAction::Allow },
            EnvFilter { pattern: "*_TOKEN".to_string(), action: FilterAction::Block },
        ],
        set: vec![],
    };
    let filtered = to_map(policy.filter(&env));
    assert!(filtered.contains_key("MY_TOKEN"));
}

#[test]
fn env_filter_unset_mode_is_allowlist() {
    let env = pairs(&[("A", "1"), ("B", "2"), ("C", "3")]);
    let policy = env_policy(None, &["C"], &["B"], &[]);
    assert_eq!(policy.mode(), EnvMode::DefaultBlock);
    let filtered = policy.filter(&env);
    assert_eq!(filtered, pairs(&[("C", "3")]));
    assert!(!policy.admits("A"));
    assert!(!policy.admits("B"));
    assert!(policy.admits("C"));
}

#[test]
fn env_filter_repeated_name_keeps_the_last_value() {
    let env = pairs(&[("A", "1"), ("A", "2")]);
    let policy = env_policy(Some(EnvMode::DefaultAllow), &[], &[], &[]);
    assert_eq!(policy.filter(&env), pairs(&[("A", "2")]));
    assert!(EnvPolicy::default().filter(&env).is_empty());
}

// ---- path expansion ----

#[test]
fn test_expand_path_cwd() {
    let vars = vec![];
    let expanded = expand_path("$CWD", "/project", &vars).unwrap();
    assert_eq!(Path::new(&expanded), Path::new("/project"));
    let expanded = expand_path("$CWD/src", "/project", &vars).unwrap();
    assert_eq!(Path::new(&expanded), Path::new("/project/src"));
    let expanded = expand_path("${CWD}/src", "/project", &vars).unwrap();
    assert_eq!(Path::new(&expanded), Path::new("/project/src"));
}

#[test]
fn test_expand_path_tilde() {
    let home = home();
    let vars = vec![];
    let expanded = expand_path("~", "/tmp", &vars).unwrap();
    assert_eq!(Path::new(&expanded), home.as_path());
    let expanded = expand_path("~/projects", "/tmp", &vars).unwrap();
    assert_eq!(Path::new(&expanded), home.join("projects"));
}

#[test]
fn test_expand_path_env_var() {
    let vars = pairs(&[("CAGE_TEST_VAR", "/test/path")]);
    let cwd = "/tmp";
    let expanded = expand_path("$CAGE_TEST_VAR", cwd, &vars).unwrap();
    assert_eq!(Path::new(&expanded), Path::new("/test/path"));
    let expanded = expand_path("$CAGE_TEST_VAR/subdir", cwd, &vars).unwrap();
    assert_eq!(Path::new(&expanded), Path::new("/test/path/subdir"));
    let expanded = expand_path("${CAGE_TEST_VAR}/subdir", cwd, &vars).unwrap();
    assert_eq!(Path::new(&expanded), Path::new("/test/path/subdir"));
    let expanded = expand_path("${CAGE_TEST_VAR}", cwd, &vars).unwrap();
    assert_eq!(Path::new(&expanded), Path::new("/test/path"));
    let expanded = expand_path("/data/$CAGE_TEST_VAR/extra", cwd, &vars).unwrap();
    assert!(expanded.contains("/test/path"), "env var value should appear: {expanded}");
    assert!(expanded.contains("extra"), "trailing component should appear: {expanded}");
}

#[test]
fn test_expand_path_unset_var_returns_none() {
    assert_eq!(expand_path("$CAGE_NONEXISTENT_VAR_XYZ", "/tmp", &vec![]), None);
}

#[test]
fn test_expand_path_mixed() {
    let vars = pairs(&[("CAGE_MIXED", "data")]);
    let home = home();
    let expanded = expand_path("~/cache/$CAGE_MIXED", "/workspace", &vars).unwrap();
    assert_eq!(Path::new(&expanded), home.join("cache").join("data"));
    let expanded = expand_path("~/cache/$CAGE_MIXED/sub", "/workspace", &vars).unwrap();
    assert_eq!(Path::new(&expanded), home.join("cache").join("data").join("sub"));
}

#[test]
fn test_expand_path_cwd_inside_tilde() {
    let vars = pairs(&[("CAGE_CWD_TILDE_TEST", "myval")]);
    let home = home();
    let expanded = expand_path("~/sub/$CAGE_CWD_TILDE_TEST/end", "/ignored", &vars).unwrap();
    assert_eq!(Path::new(&expanded), home.join("sub").join("myval").join("end"));
    let expanded2 = expand_path("$CWD", "/actual_cwd_value", &vec![]).unwrap();
    assert_eq!(Path::new(&expanded2), Path::new("/actual_cwd_value"), "$CWD must expand to the cwd parameter");
}

#[test]
fn test_expand_path_lone_dollar() {
    let expanded = expand_path("$/foo", "/tmp", &vec![]);
    assert!(expanded.is_some());
}

#[test]
fn test_expand_path_relative() {
    let cwd = "/workspace/project";
    let vars = vec![];
    let expanded = expand_path("src", cwd, &vars).unwrap();
    assert_eq!(Path::new(&expanded), Path::new("/workspace/project/src"));
    let expanded = expand_path("./config", cwd, &vars).unwrap();
    assert_eq!(Path::new(&expanded), Path::new("/workspace/project/config"));
    let expanded = expand_path("../other", cwd, &vars).unwrap();
    assert!(expanded.contains("workspace"));
    assert!(expanded.contains("other"));
}

#[test]
fn expand_path_exact_strings() {
    let vars = pairs(&[("V", "val")]);
    assert_eq!(expand_path_in("$/foo", "/tmp", Some("/h"), &vars), Some("/tmp/$/foo".to_string()));
    assert_eq!(expand_path_in("a$V", "/c", Some("/h"), &vars), Some("/c/aval".to_string()));
    assert_eq!(expand_path_in("${V}x", "/c", Some("/h"), &vars), Some("/c/valx".to_string()));
    assert_eq!(expand_path_in("~", "/c", Some("/h"), &vars), Some("/h".to_string()));
    assert_eq!(expand_path_in("~/$CWD", "/c", Some("/h"), &vars), Some("/c".to_string()));
    assert_eq!(expand_path_in("~x", "/c", Some("/h"), &vars), Some("/c/~x".to_string()));
    assert_eq!(expand_path_in("~/a", "/c", None, &vars), None);
    assert_eq!(expand_path_in("${V", "/c", Some("/h"), &vars), Some("/c/val".to_string()));
    assert_eq!(expand_path_in("$NOPE", "/c", Some("/h"), &vars), None);
}

// ---- policy layering ----

#[test]
fn test_env_policy_merge() {
    let mut base = env_policy(Some(EnvMode::DefaultAllow), &["PATH"], &["SECRET"], &[("BASE", "1")]);
    let other = env_policy(Some(EnvMode::DefaultBlock), &["HOME"], &["TOKEN"], &[("OTHER", "2"), ("BASE", "overridden")]);
    base.merge(&other);
    assert!(matches!(base.mode, Some(EnvMode::DefaultBlock)));
    assert_eq!(base.filters.len(), 4);
    assert_eq!(base.filters[0].pattern, "TOKEN");
    assert!(matches!(base.filters[0].action, FilterAction::Block));
    assert_eq!(base.filters[1].pattern, "HOME");
    assert!(matches!(base.filters[1].action, FilterAction::Allow));
    assert_eq!(base.filters[2].pattern, "SECRET");
    assert!(matches!(base.filters[2].action, FilterAction::Block));
    assert_eq!(base.filters[3].pattern, "PATH");
    assert!(matches!(base.filters[3].action, FilterAction::Allow));
    assert_eq!(set_get(&base.set, "BASE"), Some(&"overridden".to_string()));
    assert_eq!(set_get(&base.set, "OTHER"), Some(&"2".to_string()));
}

#[test]
fn test_env_policy_merge_preserves_base_mode() {
    let mut base = env_policy(Some(EnvMode::DefaultBlock), &["PATH"], &[], &[]);
    let other = env_policy(None, &["HOME"], &[], &[]);
    base.merge(&other);
    assert!(matches!(base.mode, Some(EnvMode::DefaultBlock)));
    assert_eq!(base.filters.len(), 2);
    assert_eq!(base.filters[0].pattern, "HOME");
    assert_eq!(base.filters[1].pattern, "PATH");
}

#[test]
fn test_env_policy_parsing() {
    let policy = env_policy(Some(EnvMode::DefaultAllow), &["PATH", "HOME"], &["*_TOKEN", "SECRET"], &[("CAGE", "1")]);
    assert!(matches!(policy.mode, Some(EnvMode::DefaultAllow)));
    assert_eq!(policy.filters.len(), 4);
    assert_eq!(policy.filters[0].pattern, "*_TOKEN");
    assert!(matches!(policy.filters[0].action, FilterAction::Block));
    assert_eq!(policy.filters[1].pattern, "SECRET");
    assert!(matches!(policy.filters[1].action, FilterAction::Block));
    assert_eq!(policy.filters[2].pattern, "PATH");
    assert!(matches!(policy.filters[2].action, FilterAction::Allow));
    assert_eq!(policy.filters[3].pattern, "HOME");
    assert!(matches!(policy.filters[3].action, FilterAction::Allow));
    assert_eq!(set_get(&policy.set, "CAGE"), Some(&"1".to_string()));
}

#[test]
fn test_sandbox_policy_merge() {
    let mut base = SandboxPolicy {
        writable_roots: strs(&["/base"]),
        write_restricted_paths: strs(&["/base/.git"]),
        read_restricted_paths: strs(&["/secret"]),
        network: Some(NetworkPolicy::Offline),
        env: Some(env_policy(Some(EnvMode::DefaultAllow), &[], &["OLD"], &[])),
        enable_gui: None,
        enable_audio: None,
    };
    let other = SandboxPolicy {
        writable_roots: strs(&["/other"]),
        write_restricted_paths: strs(&["/other/.env"]),
        read_restricted_paths: strs(&["/other/secret"]),
        network: Some(NetworkPolicy::Full),
        env: Some(env_policy(Some(EnvMode::DefaultBlock), &["PATH"], &["NEW"], &[("KEY", "value")])),
        enable_gui: None,
        enable_audio: None,
    };
    base.merge(&other);
    assert_eq!(base.writable_roots.len(), 2);
    assert!(base.writable_roots.contains(&"/base".to_string()));
    assert!(base.writable_roots.contains(&"/other".to_string()));
    assert_eq!(base.write_restricted_paths.len(), 2);
    assert_eq!(base.read_restricted_paths.len(), 2);
    assert!(matches!(base.network, Some(NetworkPolicy::Full)));
    let env = base.env.as_ref().unwrap();
    assert!(matches!(env.mode, Some(EnvMode::DefaultBlock)));
    assert_eq!(env.filters.len(), 3);
    assert_eq!(env.filters[0].pattern, "NEW");
    assert_eq!(env.filters[1].pattern, "PATH");
    assert_eq!(env.filters[2].pattern, "OLD");
}

#[test]
fn test_sandbox_policy_merge_preserves_base_network() {
    let mut base = SandboxPolicy {
        writable_roots: strs(&["/base"]),
        write_restricted_paths: vec![],
        read_restricted_paths: vec![],
        network: Some(NetworkPolicy::Offline),
        env: None,
        enable_gui: None,
        enable_audio: None,
    };
    let other = SandboxPolicy {
        writable_roots: strs(&["/other"]),
        write_restricted_paths: vec![],
        read_restricted_paths: vec![],
        network: None,
        env: None,
        enable_gui: None,
        enable_audio: None,
    };
    base.merge(&other);
    assert!(matches!(base.network, Some(NetworkPolicy::Offline)));
    assert_eq!(base.writable_roots.len(), 2);
}

#[test]
fn test_sandbox_policy_merge_empty_other() {
    let mut base = SandboxPolicy {
        writable_roots: strs(&["/base"]),
        write_restricted_paths: vec![],
        read_restricted_paths: vec![],
        network: Some(NetworkPolicy::Full),
        env: Some(env_policy(Some(EnvMode::DefaultAllow), &["PATH"], &[], &[])),
        enable_gui: None,
        enable_audio: None,
    };
    let other = SandboxPolicy {
        writable_roots: vec![],
        write_restricted_paths: vec![],
        read_restricted_paths: vec![],
        network: Some(NetworkPolicy::Offline),
        env: Some(env_policy(Some(EnvMode::DefaultBlock), &[], &[], &[])),
        enable_gui: None,
        enable_audio: None,
    };
    base.merge(&other);
    assert_eq!(base.writable_roots.len(), 1);
    assert!(matches!(base.network, Some(NetworkPolicy::Offline)));
    let env = base.env.as_ref().unwrap();
    assert!(matches!(env.mode, Some(EnvMode::DefaultBlock)));
    assert_eq!(env.filters.len(), 1);
}

#[test]
fn sandbox_policy_defaults() {
    let p = SandboxPolicy::default();
    assert_eq!(p.network(), NetworkPolicy::Offline);
    assert!(!p.enable_gui());
    assert!(!p.enable_audio());
    let env = p.env();
    assert_eq!(env.mode, Some(EnvMode::DefaultAllow));
    assert!(env.filters.is_empty());
    assert!(env.set.is_empty());
}

#[test]
fn sandbox_policy_merge_switches() {
    let mut base = SandboxPolicy { enable_gui: Some(true), enable_audio: Some(false), ..SandboxPolicy::default() };
    let other = SandboxPolicy { enable_gui: None, enable_audio: Some(true), ..SandboxPolicy::default() };
    base.merge(&other);
    assert_eq!(base.enable_gui, Some(true));
    assert_eq!(base.enable_audio, Some(true));
    let mut empty_env = SandboxPolicy::default();
    let with_env = SandboxPolicy { env: Some(env_policy(None, &["X"], &[], &[])), ..SandboxPolicy::default() };
    empty_env.merge(&with_env);
    assert_eq!(empty_env.env.unwrap().filters.len(), 1);
}

#[test]
fn file_stem_of_commands() {
    assert_eq!(cage::paths::file_stem("/usr/bin/opencode"), Some("opencode".to_string()));
    assert_eq!(cage::paths::file_stem("opencode.exe"), Some("opencode".to_string()));
    assert_eq!(cage::paths::file_stem(".bashrc"), Some(".bashrc".to_string()));
    assert_eq!(cage::paths::file_stem("x.tar.gz"), Some("x.tar".to_string()));
    assert_eq!(cage::paths::file_stem("a/.."), None);
    assert_eq!(cage::paths::file_stem("/"), None);
    assert_eq!(cage::paths::file_stem(""), None);
    assert_eq!(cage::paths::file_stem("a/."), Some("a".to_string()));
    assert_eq!(cage::paths::file_stem("dir/tool/"), Some("tool".to_string()));
}

#[test]
fn file_stem_agrees_with_std_path() {
    let paths = [
        "/usr/bin/opencode", "opencode.exe", ".bashrc", "..foo", "a.", "x.tar.gz", "a/..", "/", "",
        ".", "..", "a/.", "./a", "a//b", "dir/tool/", "/a/b.c/", "/a/.b.c", "a/./b", "...", "a/b/../c.d",
        "tools//", "/x/y/.", ".hidden.txt", "no_ext",
    ];
    for p in paths.iter() {
        let expected = Path::new(p).file_stem().and_then(|s| s.to_str()).map(|s| s.to_string());
        assert_eq!(cage::paths::file_stem(p), expected, "path {:?}", p);
    }
}
