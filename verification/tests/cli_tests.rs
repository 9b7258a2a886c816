use cage::cli::{Args, CliError, OptKind};

fn argv(items: &[&str]) -> Vec<String> {
    items.iter().map(|s| s.to_string()).collect()
}

fn parse(items: &[&str]) -> Args {
    Args::parse_from(&argv(items)).unwrap()
}

#[test]
fn test_cli_parses() {
    // The command line answers help and version requests, and parses a plain command.
    assert!(matches!(Args::parse_from(&argv(&["cage", "--help"])), Err(CliError::Help)));
    assert!(matches!(Args::parse_from(&argv(&["cage", "-h"])), Err(CliError::Help)));
    assert!(matches!(Args::parse_from(&argv(&["cage", "--version"])), Err(CliError::Version)));
    assert!(matches!(Args::parse_from(&argv(&["cage", "-V"])), Err(CliError::Version)));
    assert!(Args::parse_from(&argv(&["cage", "ls"])).is_ok());
}

#[test]
fn test_cli_basic_parsing() {
    let args = parse(&["cage", "--verbose", "echo", "hello"]);
    assert_eq!(args.command, "echo");
    assert_eq!(args.args, vec!["hello"]);
    assert!(args.verbose);
    assert!(!args.dry_run);
    assert!(!args.no_sandbox);
    assert!(!args.allow_network);
}

#[test]
fn test_cli_with_policy() {
    let args = parse(&["cage", "--policy", "strict", "ls"]);
    assert_eq!(args.policy, Some("strict".to_string()));
    assert_eq!(args.command, "ls");
    assert!(args.args.is_empty());
}

#[test]
fn test_cli_all_flags() {
    let args = parse(&[
        "cage",
        "--policy",
        "default",
        "--allow-network",
        "--no-sandbox",
        "--config",
        "/path/to/config.toml",
        "--verbose",
        "--dry-run",
        "python",
        "script.py",
    ]);

    assert_eq!(args.policy, Some("default".to_string()));
    assert!(args.allow_network);
    assert!(args.no_sandbox);
    assert_eq!(args.config, Some("/path/to/config.toml".to_string()));
    assert!(args.verbose);
    assert!(args.dry_run);
    assert_eq!(args.command, "python");
    assert_eq!(args.args, vec!["script.py"]);
}

#[test]
fn test_cli_path_overrides() {
    let args = parse(&[
        "cage",
        "--writable",
        "/workspace",
        "--write-restrict",
        ".git",
        "--read-restrict",
        "/etc/passwd",
        "cat",
        "file.txt",
    ]);

    assert_eq!(args.writable, vec!["/workspace".to_string()]);
    assert_eq!(args.write_restrict, vec![".git".to_string()]);
    assert_eq!(args.read_restrict, vec!["/etc/passwd".to_string()]);
    assert_eq!(args.command, "cat");
    assert_eq!(args.args, vec!["file.txt"]);
}

#[test]
fn test_cli_multiple_path_args() {
    let args = parse(&[
        "cage",
        "--writable",
        "/path1",
        "--writable",
        "/path2",
        "--write-restrict",
        ".git",
        "--write-restrict",
        ".env",
        "cmd",
    ]);

    assert_eq!(args.writable.len(), 2);
    assert_eq!(args.write_restrict.len(), 2);
}

#[test]
fn test_cli_trailing_args() {
    let args = parse(&["cage", "python", "-m", "http.server", "8080"]);

    assert_eq!(args.command, "python");
    assert_eq!(args.args, vec!["-m", "http.server", "8080"]);
}

#[test]
fn test_cli_empty_args() {
    let args = parse(&["cage", "ls"]);
    assert_eq!(args.command, "ls");
    assert!(args.args.is_empty());
    assert!(!args.verbose);
    assert!(!args.dry_run);
    assert!(!args.no_sandbox);
    assert!(!args.allow_network);
}

#[test]
fn test_cli_short_flags() {
    let args = parse(&["cage", "-p", "strict", "-c", "config.toml", "-v", "cmd"]);
    assert_eq!(args.policy, Some("strict".to_string()));
    assert_eq!(args.config, Some("config.toml".to_string()));
    assert!(args.verbose);
    assert_eq!(args.command, "cmd");
}

#[test]
fn cli_equals_and_attached_values() {
    let args = parse(&["cage", "--policy=strict", "-cconf.toml", "--writable=/a", "run"]);
    assert_eq!(args.policy, Some("strict".to_string()));
    assert_eq!(args.config, Some("conf.toml".to_string()));
    assert_eq!(args.writable, vec!["/a".to_string()]);
    assert_eq!(args.command, "run");
}

#[test]
fn cli_double_dash_ends_options() {
    let args = parse(&["cage", "--", "--verbose", "x"]);
    assert_eq!(args.command, "--verbose");
    assert_eq!(args.args, vec!["x"]);
    assert!(!args.verbose);
}

#[test]
fn cli_options_after_command_belong_to_it() {
    let args = parse(&["cage", "ls", "--verbose", "-p", "x"]);
    assert_eq!(args.command, "ls");
    assert_eq!(args.args, vec!["--verbose", "-p", "x"]);
    assert!(!args.verbose);
    assert_eq!(args.policy, None);
}

#[test]
fn cli_errors() {
    assert!(matches!(Args::parse_from(&argv(&["cage"])), Err(CliError::MissingCommand)));
    assert!(matches!(
        Args::parse_from(&argv(&["cage", "--bogus", "ls"])),
        Err(CliError::UnknownArgument(ref a)) if a == "--bogus"
    ));
    assert!(matches!(
        Args::parse_from(&argv(&["cage", "--policy"])),
        Err(CliError::MissingValue(OptKind::Policy))
    ));
    assert!(matches!(
        Args::parse_from(&argv(&["cage", "-p", "a", "-p", "b", "ls"])),
        Err(CliError::Duplicate(OptKind::Policy))
    ));
    assert!(matches!(
        Args::parse_from(&argv(&["cage", "--verbose=yes", "ls"])),
        Err(CliError::UnexpectedValue(OptKind::Verbose))
    ));
}
