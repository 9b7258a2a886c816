use cage::cli::Args;
use cage::config::{load_config, merge_config, resolve_policy, resolve_policy_in, resolve_policy_name, ConfigError};
use cage::policy::types::{CommandPolicy, Config, EnvMode, EnvPolicy, NetworkPolicy, SandboxPolicy};

fn strs(items: &[&str]) -> Vec<String> {
    items.iter().map(|s| s.to_string()).collect()
}

fn pairs(items: &[(&str, &str)]) -> Vec<(String, String)> {
    items.iter().map(|(k, v)| (k.to_string(), v.to_string())).collect()
}

/// The configuration that ships with `cage`.
fn bundled() -> Config {
    let default = SandboxPolicy {
        writable_roots: strs(&["$CWD", "$TMPDIR", "~/.cache"]),
        write_restricted_paths: strs(&["$CWD/.git", "$CWD/.env", "~/.ssh", "~/.gnupg", "~/.aws", "~/.config"]),
        read_restricted_paths: strs(&["~/.ssh", "~/.aws", "~/.gnupg"]),
        network: Some(NetworkPolicy::Full),
        env: Some(EnvPolicy::from_lists(
            Some(EnvMode::DefaultAllow),
            vec![],
            strs(&["*_TOKEN", "*_SECRET", "*_PASSWORD", "*_API_KEY", "AWS_*", "GITHUB_*"]),
            pairs(&[("CAGE", "1")]),
        )),
        enable_gui: Some(true),
        enable_audio: Some(true),
    };
    let strict = SandboxPolicy {
        writable_roots: strs(&["$CWD"]),
        write_restricted_paths: strs(&["$CWD/.git", "$CWD/.env"]),
        read_restricted_paths: strs(&["~/.ssh", "~/.aws", "~/.config", "~/.gnupg"]),
        network: Some(NetworkPolicy::Offline),
        env: Some(EnvPolicy::from_lists(
            Some(EnvMode::DefaultBlock),
            strs(&["PATH"]),
            vec![],
            pairs(&[("CAGE", "1")]),
        )),
        enable_gui: Some(true),
        enable_audio: Some(true),
    };
    let rule = |pattern: &str, policy: &str| CommandPolicy { pattern: pattern.to_string(), policy: policy.to_string() };
    Config {
        policies: vec![("default".to_string(), default), ("strict".to_string(), strict)],
        command_policy: vec![
            rule("opencode", "default"),
            rule("codex", "default"),
            rule("aider", "strict"),
        ],
    }
}

fn create_test_args(command: &str) -> Args {
    Args {
        policy: None,
        allow_network: false,
        no_sandbox: false,
        config: None,
        writable: vec![],
        write_restrict: vec![],
        read_restrict: vec![],
        verbose: false,
        dry_run: false,
        command: command.to_string(),
        args: vec![],
    }
}

fn load_test_config(_args: &Args) -> Config {
    load_config(bundled(), None, None)
}

#[test]
fn test_bundled_config_embedded() {
    let args = Args::parse_from(&strs(&["cage", "test"])).unwrap();
    let cfg = load_test_config(&args);
    assert!(cfg.get_policy("default").is_ok());
}

#[test]
fn test_resolve_policy_explicit() {
    let args = Args { policy: Some("strict".to_string()), ..create_test_args("test") };
    let config = load_test_config(&args);
    let policy_name = resolve_policy_name(&config, &args).unwrap();
    assert_eq!(policy_name, "strict".to_string());
}

#[test]
fn test_resolve_policy_command_match() {
    let args = create_test_args("opencode");
    let config = load_test_config(&args);
    let policy_name = resolve_policy_name(&config, &args).unwrap();
    assert_eq!(policy_name, "default".to_string());
}

#[test]
fn test_resolve_policy_aider_strict() {
    let args = create_test_args("aider");
    let config = load_test_config(&args);
    let policy_name = resolve_policy_name(&config, &args).unwrap();
    assert_eq!(policy_name, "strict".to_string());
}

#[test]
fn test_resolve_policy_default_fallback() {
    let args = create_test_args("unknown-cmd");
    let config = load_test_config(&args);
    let policy_name = resolve_policy_name(&config, &args).unwrap();
    assert_eq!(policy_name, "default".to_string());
}

#[test]
fn test_resolve_policy_missing() {
    let args = Args { policy: Some("nonexistent".to_string()), ..create_test_args("test") };
    let config = load_test_config(&args);
    let result = resolve_policy_name(&config, &args);
    assert!(result.is_err());
    assert!(result.unwrap_err().message().contains("not found"));
}

#[test]
fn test_command_policy_matching() {
    let args = create_test_args("/usr/bin/opencode");
    let config = load_test_config(&args);
    let policy_name = config.default_policy_for("/usr/bin/opencode").unwrap();
    assert_eq!(policy_name, "default");
}

#[test]
fn test_cli_writable_override() {
    let args = Args { writable: vec!["/extra/path".to_string()], ..create_test_args("test") };
    let config = load_test_config(&args);
    let policy = resolve_policy(&config, &args, "/work", &vec![]).unwrap();
    assert!(policy.writable_roots.iter().any(|p| p.contains("/extra/path")));
}

#[test]
fn test_cli_network_override() {
    let args = Args { policy: Some("strict".to_string()), allow_network: true, ..create_test_args("test") };
    let config = load_test_config(&args);
    let policy = resolve_policy(&config, &args, "/work", &vec![]).unwrap();
    assert!(matches!(policy.network, Some(NetworkPolicy::Full)));
}

#[test]
fn test_cli_writable_override_respects_command_policy() {
    let args = Args { writable: vec!["/extra/path".to_string()], ..create_test_args("aider") };
    let config = load_test_config(&args);
    let policy = resolve_policy(&config, &args, "/work", &vec![]).unwrap();
    assert!(policy.writable_roots.iter().any(|p| p.contains("/extra/path")));
    assert!(matches!(policy.network, Some(NetworkPolicy::Offline)));
}

#[test]
fn test_bundled_config_loaded() {
    let args = create_test_args("test");
    let config = load_test_config(&args);
    assert!(config.get_policy("default").is_ok());
    assert!(config.get_policy("strict").is_ok());
    assert!(!config.command_policy.is_empty());
}

#[test]
fn resolve_without_default_policy_fails() {
    let config = Config { policies: vec![], command_policy: vec![] };
    let args = create_test_args("ls");
    let r = resolve_policy_name(&config, &args);
    assert!(matches!(r, Err(ConfigError::NoDefaultPolicy)));
    assert_eq!(r.unwrap_err().message(), "no policy specified and no 'default' policy found");
    let missing = resolve_policy_name(&config, &Args { policy: Some("x".to_string()), ..create_test_args("ls") });
    assert!(matches!(missing, Err(ConfigError::PolicyNotFound(ref n)) if n == "x"));
}

#[test]
fn resolve_expands_every_path_list() {
    let config = load_test_config(&create_test_args("aider"));
    let args = Args {
        write_restrict: vec!["$CWD/secret".to_string()],
        read_restrict: vec!["$NOPE/x".to_string()],
        ..create_test_args("aider")
    };
    let p = resolve_policy_in(&config, &args, "/proj", Some("/home/u"), &vec![]).unwrap();
    assert_eq!(p.writable_roots, strs(&["/proj"]));
    assert_eq!(p.write_restricted_paths, strs(&["/proj/.git", "/proj/.env", "/proj/secret"]));
    // The unset variable drops its entry.
    assert_eq!(
        p.read_restricted_paths,
        strs(&["/home/u/.ssh", "/home/u/.aws", "/home/u/.config", "/home/u/.gnupg"])
    );
}

#[test]
fn resolve_drops_entries_with_unset_variables() {
    let config = load_test_config(&create_test_args("x"));
    let args = create_test_args("x");
    let p = resolve_policy_in(&config, &args, "/proj", Some("/home/u"), &pairs(&[("TMPDIR", "/tmp/t")])).unwrap();
    assert_eq!(p.writable_roots, strs(&["/proj", "/tmp/t", "/home/u/.cache"]));
    let q = resolve_policy_in(&config, &args, "/proj", Some("/home/u"), &vec![]).unwrap();
    assert_eq!(q.writable_roots, strs(&["/proj", "/home/u/.cache"]));
}

#[test]
fn merge_config_layers_policies_and_prepends_commands() {
    let mut base = bundled();
    let extra = SandboxPolicy { writable_roots: strs(&["/data"]), network: Some(NetworkPolicy::Localhost), ..SandboxPolicy::default() };
    let fresh = SandboxPolicy { writable_roots: strs(&["/new"]), ..SandboxPolicy::default() };
    let other = Config {
        policies: vec![("strict".to_string(), extra), ("web".to_string(), fresh)],
        command_policy: vec![CommandPolicy { pattern: "aider".to_string(), policy: "web".to_string() }],
    };
    merge_config(&mut base, other);
    let strict = base.get_policy("strict").unwrap();
    assert_eq!(strict.writable_roots, strs(&["$CWD", "/data"]));
    assert!(matches!(strict.network, Some(NetworkPolicy::Localhost)));
    assert_eq!(base.get_policy("web").unwrap().writable_roots, strs(&["/new"]));
    assert_eq!(base.command_policy.len(), 4);
    assert_eq!(base.default_policy_for("aider"), Some("web".to_string()));
}

#[test]
fn load_config_layers_project_then_cli() {
    let project = Config {
        policies: vec![("default".to_string(), SandboxPolicy { writable_roots: strs(&["/p"]), ..SandboxPolicy::default() })],
        command_policy: vec![],
    };
    let cli = Config {
        policies: vec![("default".to_string(), SandboxPolicy { writable_roots: strs(&["/c"]), ..SandboxPolicy::default() })],
        command_policy: vec![],
    };
    let cfg = load_config(bundled(), Some(project), Some(cli));
    assert_eq!(
        cfg.get_policy("default").unwrap().writable_roots,
        strs(&["$CWD", "$TMPDIR", "~/.cache", "/p", "/c"])
    );
}

#[test]
fn default_policy_for_uses_file_stem() {
    let config = bundled();
    assert_eq!(config.default_policy_for("/opt/tools/aider.py"), Some("strict".to_string()));
    assert_eq!(config.default_policy_for("codex"), Some("default".to_string()));
    assert_eq!(config.default_policy_for("/usr/bin/vim"), None);
}

#[test]
fn merge_config_repeated_name_later_entry_counts() {
    let mut base = bundled();
    let first = SandboxPolicy { writable_roots: strs(&["/first"]), ..SandboxPolicy::default() };
    let second = SandboxPolicy { writable_roots: strs(&["/second"]), ..SandboxPolicy::default() };
    let other = Config {
        policies: vec![("strict".to_string(), first), ("strict".to_string(), second)],
        command_policy: vec![],
    };
    merge_config(&mut base, other);
    assert_eq!(base.get_policy("strict").unwrap().writable_roots, strs(&["$CWD", "/second"]));
}
