use cage::policy::types::{EnvMode, EnvPolicy, NetworkPolicy, SandboxPolicy};
use cage::session::{
    debug_info_lines, generate_rand_component, indent_lines, join, linux_generated_lines, macos_generated_lines,
    rand_component_from, report_lines, run_steps, session_dir_name, RunSteps,
};

fn strs(items: &[&str]) -> Vec<String> {
    items.iter().map(|s| s.to_string()).collect()
}

#[test]
fn test_generate_rand_component() {
    let component1 = generate_rand_component().unwrap();
    let component2 = generate_rand_component().unwrap();
    assert_eq!(component1.len(), 8);
    assert_eq!(component2.len(), 8);
    assert!(component1.chars().all(|c| c.is_ascii_lowercase() || c.is_ascii_digit()));
    assert!(component2.chars().all(|c| c.is_ascii_lowercase() || c.is_ascii_digit()));
    assert_ne!(component1, component2);
}

#[test]
fn session_dir_names() {
    assert_eq!(session_dir_name(4242, "abcd1234"), "cage-4242-abcd1234");
    assert_eq!(session_dir_name(0, "zzzzzzzz"), "cage-0-zzzzzzzz");
    let name = session_dir_name(7, &generate_rand_component().unwrap());
    let parts: Vec<&str> = name.split('-').collect();
    assert_eq!(parts.len(), 3);
    assert_eq!(parts[0], "cage");
    assert_eq!(parts[1], "7");
    assert_eq!(parts[2].len(), 8);
}

#[test]
fn joining_and_indenting() {
    assert_eq!(join(&strs(&["a", "b", "c"]), " "), "a b c");
    assert_eq!(join(&vec![], ","), "");
    assert_eq!(join(&strs(&["x"]), ","), "x");
    assert_eq!(indent_lines("a\nb\r\n\nc\n"), strs(&["  a", "  b", "  ", "  c"]));
    assert_eq!(indent_lines(""), Vec::<String>::new());
}

#[test]
fn report_lines_exact() {
    let policy = SandboxPolicy {
        writable_roots: strs(&["/w"]),
        network: Some(NetworkPolicy::Full),
        env: Some(EnvPolicy::from_lists(
            Some(EnvMode::DefaultBlock),
            strs(&["PATH"]),
            strs(&["*_TOKEN"]),
            vec![("CAGE".to_string(), "1".to_string())],
        )),
        ..SandboxPolicy::default()
    };
    let lines = debug_info_lines(&policy, "strict", "/tmp/s", "bubblewrap", "ls", &strs(&["-l"]), &strs(&["gen"]));
    let expected = strs(&[
        "========================================",
        "Cage Sandbox Configuration",
        "========================================",
        "Policy name:        strict",
        "Session temp dir:   /tmp/s",
        "Platform backend:   bubblewrap",
        "Command:            ls",
        "Arguments:          [\"-l\"]",
        "",
        "----------------------------------------",
        "Resolved Policy",
        "----------------------------------------",
        "network:            Full",
        "",
        "writable_roots:",
        "  - /w",
        "",
        "write_restricted_paths:",
        "  (none)",
        "",
        "read_restricted_paths:",
        "  (none)",
        "",
        "env.mode:           DefaultBlock",
        "env.filters:",
        "  - [block] *_TOKEN",
        "  - [allow] PATH",
        "env.set:",
        "  CAGE=1",
        "",
        "----------------------------------------",
        "Generated Sandbox Command/Profile",
        "----------------------------------------",
        "gen",
        "",
        "========================================",
    ]);
    assert_eq!(lines, expected);

    let bare = debug_info_lines(&SandboxPolicy::default(), "default", "/t", "seatbelt", "sh", &vec![], &vec![]);
    assert!(!bare.iter().any(|l| l.starts_with("Arguments:")));
    assert!(bare.contains(&"network:            None".to_string()));
    assert!(bare.contains(&"env.mode:           DefaultAllow".to_string()));
    assert!(!bare.contains(&"env.filters:".to_string()));
}

#[test]
fn generated_lines() {
    let argv = strs(&["/usr/bin/bwrap", "--unshare-pid", "--", "ls", "-l"]);
    assert_eq!(
        linux_generated_lines("/usr/bin/bwrap", "ls", &strs(&["-l"]), &argv),
        strs(&[
            "bwrap command:",
            "  /usr/bin/bwrap --args <memfd> -- ls -l",
            "",
            "Arguments passed via memfd:",
            "  --unshare-pid -- ls -l",
        ])
    );
    assert_eq!(
        macos_generated_lines("(version 1)\n(allow default)\n"),
        strs(&["Seatbelt profile:", "  (version 1)", "  (allow default)"])
    );
}

#[test]
fn report_with_rendered_arguments() {
    let policy = SandboxPolicy::default();
    let lines = report_lines(&policy, "p", "/t", "b", "cmd", Some("<args>"), &vec![]);
    assert_eq!(lines[7], "Arguments:          <args>");
    let none = report_lines(&policy, "p", "/t", "b", "cmd", None, &vec![]);
    assert_eq!(none.len() + 1, lines.len());
    assert_eq!(none[7], "");
}

#[test]
fn run_steps_by_flags() {
    assert_eq!(run_steps(false, false), RunSteps { show_report: false, report_to_stdout: false, execute: true });
    assert_eq!(run_steps(true, false), RunSteps { show_report: true, report_to_stdout: false, execute: true });
    assert_eq!(run_steps(false, true), RunSteps { show_report: true, report_to_stdout: true, execute: false });
    assert_eq!(run_steps(true, true), RunSteps { show_report: true, report_to_stdout: true, execute: false });
}

#[test]
fn random_component_from_bytes() {
    // 0 -> 'a', 25 -> 'z', 26 -> '0', 35 -> '9', 36 -> 'a', 251 -> 251 % 36 = 35 -> '9';
    // bytes from 252 on are skipped.
    let bytes = vec![0u8, 252, 25, 26, 255, 35, 36, 251, 100, 7, 9];
    assert_eq!(rand_component_from(&bytes), Some("az09a92h".to_string()));
    assert_eq!(rand_component_from(&vec![1u8, 2, 3, 252, 253, 254, 255, 4, 5]), None);
}
