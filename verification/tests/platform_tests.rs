use std::collections::HashMap;

use cage::glob::glob_match;
use cage::platform::linux::{
    encode_args, find_bwrap_binary, find_xauth_binary, generate_bwrap_argv, generate_bwrap_options,
    kernel_supports_seccomp_supervisor, parse_kernel_version, prepare_sandbox_env, probe_runtime_sockets,
    wants_restricted_xauth, xdg_runtime_dir, KernelVersionError, LinuxHost,
};
use cage::platform::macos::{build_seatbelt_profile, generate_seatbelt_profile, sbpl_escape_path};
use cage::platform::seccomp::{
    connect_allowed_for, sockaddr_family_in, validate_connect_in, is_localhost_address, is_unix_family, is_unix_socket, seccomp_response, sockaddr_family, validate_connect, AF_INET, AF_INET6,
    AF_UNIX, SECCOMP_USER_NOTIF_FLAG_CONTINUE,
};
use cage::platform::windows::{generate_windows_sandbox_config, network_display};
use cage::platform::PathFact;
use cage::policy::types::{EnvFilter, EnvMode, EnvPolicy, FilterAction, NetworkPolicy, SandboxPolicy};
use cage::platform::seccomp::{connect_filter_program, BpfInsn};
use cage::platform::seccomp::{
    sockaddr_request, supervisor_step, SeccompData, SeccompNotif, SupervisorAction, SupervisorEvent,
};
use cage::platform::linux::{is_setuid, userns_clone_disabled};
use cage::platform::linux::{bwrap_exec_args, exit_code, WaitOutcome};
use cage::platform::macos::{sandbox_exec_args, sandbox_exec_path};

fn strs(items: &[&str]) -> Vec<String> {
    items.iter().map(|s| s.to_string()).collect()
}

fn pairs(items: &[(&str, &str)]) -> Vec<(String, String)> {
    items.iter().map(|(k, v)| (k.to_string(), v.to_string())).collect()
}

fn to_map(v: Vec<(String, String)>) -> HashMap<String, String> {
    v.into_iter().collect()
}

fn fact(path: &str, canonical: &str, is_dir: bool) -> PathFact {
    PathFact { path: path.to_string(), canonical: canonical.to_string(), is_dir }
}

fn bare_host() -> LinuxHost {
    LinuxHost {
        paths: vec![],
        xdg_runtime_env: Some("/run/user/1000".to_string()),
        uid: 1000,
        runtime_entries: vec![],
        dev_dri: false,
        tmp_x11_unix: false,
        dev_snd: false,
        pulse_native: false,
    }
}

fn profile_for(policy: &SandboxPolicy) -> String {
    build_seatbelt_profile(policy, "/tmp/cage-test", "/tmp/cage-test/cage.sb", "/bin/sh", &vec![])
}

fn little_endian() -> bool {
    u16::from_ne_bytes([1, 0]) == 1
}

fn u16_ne(v: u16) -> [u8; 2] {
    v.to_ne_bytes()
}

// ---- environment filtering as each platform applies it ----

#[test]
fn linux_test_filter_environment_allowlist() {
    let env = pairs(&[
        ("CAGE_TEST_PATH", "/usr/bin"),
        ("CAGE_TEST_HOME", "/home/user"),
        ("CAGE_TEST_SECRET", "secret123"),
    ]);
    let policy = EnvPolicy::from_lists(
        Some(EnvMode::DefaultBlock),
        strs(&["CAGE_TEST_PATH", "CAGE_TEST_H*"]),
        vec![],
        pairs(&[("CAGE_TEST_EXTRA", "extra_value")]),
    );
    let filtered = to_map(policy.filter(&env));
    assert!(filtered.contains_key("CAGE_TEST_PATH"));
    assert!(filtered.contains_key("CAGE_TEST_HOME"));
    assert!(!filtered.contains_key("CAGE_TEST_SECRET"));
    assert_eq!(filtered.get("CAGE_TEST_EXTRA"), Some(&"extra_value".to_string()));
}

#[test]
fn linux_test_filter_environment_blocklist() {
    let env = pairs(&[("CAGE_TEST_API_TOKEN", "secret123"), ("CAGE_TEST_NORMAL", "normal_value")]);
    let policy = EnvPolicy::from_lists(Some(EnvMode::DefaultAllow), vec![], strs(&["*_TOKEN"]), vec![]);
    let filtered = to_map(policy.filter(&env));
    assert!(!filtered.contains_key("CAGE_TEST_API_TOKEN"));
    assert!(filtered.contains_key("CAGE_TEST_NORMAL"));
}

#[test]
fn macos_test_filter_environment_blocklist() {
    let env = pairs(&[("TEST_VAR", "test_value"), ("SECRET_TOKEN", "secret123")]);
    let policy = EnvPolicy {
        mode: Some(EnvMode::DefaultAllow),
        filters: vec![EnvFilter { pattern: "*_TOKEN".to_string(), action: FilterAction::Block }],
        set: vec![],
    };
    let filtered = to_map(policy.filter(&env));
    assert!(filtered.contains_key("TEST_VAR"));
    assert!(!filtered.contains_key("SECRET_TOKEN"));
}

#[test]
fn macos_test_filter_environment_allowlist() {
    let env = pairs(&[("KEEP_VAR", "keep_value"), ("REMOVE_VAR", "remove_value")]);
    let policy = EnvPolicy {
        mode: Some(EnvMode::DefaultBlock),
        filters: vec![EnvFilter { pattern: "KEEP_*".to_string(), action: FilterAction::Allow }],
        set: vec![],
    };
    let filtered = to_map(policy.filter(&env));
    assert!(filtered.contains_key("KEEP_VAR"));
    assert_eq!(filtered.get("KEEP_VAR").unwrap(), "keep_value");
    assert!(!filtered.contains_key("REMOVE_VAR"));
}

// ---- Seatbelt (macOS) ----

#[test]
fn test_sbpl_escape_path() {
    assert_eq!(sbpl_escape_path("/tmp/test"), "/tmp/test");
    assert_eq!(sbpl_escape_path("/tmp/test\"quote"), "/tmp/test\\\"quote");
    assert_eq!(sbpl_escape_path("C:\\Windows"), "C:\\\\Windows");
    assert_eq!(
        sbpl_escape_path("/path/with\\backslash\"and\"quote"),
        "/path/with\\\\backslash\\\"and\\\"quote"
    );
    assert_eq!(sbpl_escape_path("/tmp/with\nnewline"), "/tmp/with\\nnewline");
    assert_eq!(sbpl_escape_path("/tmp/with\0null"), "/tmp/with\\0null");
}

#[test]
fn test_sbpl_escape_newline_injection() {
    let malicious = "/tmp/evil\n\")\n(allow file-write* (subpath \"/\"))";
    let escaped = sbpl_escape_path(malicious);
    assert!(!escaped.contains('\n'));
    assert!(!escaped.contains('\r'));
    for (i, ch) in escaped.char_indices() {
        if ch == '"' {
            assert!(i > 0 && escaped.as_bytes()[i - 1] == b'\\', "unescaped quote at position {}", i);
        }
    }
}

#[test]
fn test_sbpl_escape_null_byte() {
    let escaped = sbpl_escape_path("/tmp/test\0evil");
    assert!(!escaped.contains('\0'));
    assert!(escaped.contains("\\0"));
}

#[test]
fn test_sbpl_escape_control_chars() {
    assert_eq!(sbpl_escape_path("/tmp/\t"), "/tmp/\\t");
    assert_eq!(sbpl_escape_path("/tmp/\r"), "/tmp/\\r");
    assert_eq!(sbpl_escape_path("/tmp/\x07bell"), "/tmp/\\x07bell");
}

#[test]
fn sbpl_escape_other_controls_and_unicode() {
    assert_eq!(sbpl_escape_path("a\x1fb"), "a\\x1fb");
    assert_eq!(sbpl_escape_path("a\x7fb"), "a\\x7fb");
    assert_eq!(sbpl_escape_path("a\u{85}b"), "a\\x85b");
    assert_eq!(sbpl_escape_path("/tmp/café"), "/tmp/café");
}

#[test]
fn test_profile_file_uses_literal_matcher() {
    let profile = profile_for(&SandboxPolicy::default());
    assert!(profile.contains("(deny file-read* (literal \"/tmp/cage-test/cage.sb\"))"));
    assert!(profile.contains("(deny file-write* (literal \"/tmp/cage-test/cage.sb\"))"));
    assert!(!profile.contains("(deny file-read* (subpath \"/tmp/cage-test/cage.sb\"))"));
}

#[test]
fn test_deny_rules_use_raw_path_on_canonicalize_failure() {
    let mut policy = SandboxPolicy::default();
    policy.write_restricted_paths = strs(&["/nonexistent/restricted/path"]);
    policy.read_restricted_paths = strs(&["/nonexistent/secret/path"]);
    let profile = profile_for(&policy);
    assert!(
        profile.contains("(deny file-write* (subpath \"/nonexistent/restricted/path\"))"),
        "write-restricted deny rule should use raw path as fallback"
    );
    assert!(
        profile.contains("(deny file-read* (subpath \"/nonexistent/secret/path\"))"),
        "read-restricted deny rule should use raw path as fallback"
    );
}

#[test]
fn test_audio_only_emits_device_rule() {
    let mut policy = SandboxPolicy::default();
    policy.enable_audio = Some(true);
    policy.enable_gui = Some(false);
    let profile = profile_for(&policy);
    assert!(profile.contains("; Audio passthrough\n(allow device*)\n"));
    assert!(!profile.contains("; GUI passthrough"));
}

#[test]
fn test_gui_and_audio_no_duplicate_device_rule() {
    let mut policy = SandboxPolicy::default();
    policy.enable_gui = Some(true);
    policy.enable_audio = Some(true);
    let profile = profile_for(&policy);
    let count = profile.matches("(allow device*)").count();
    assert_eq!(count, 1, "device rule should appear exactly once");
    assert!(!profile.contains("; Audio passthrough"));
}

#[test]
fn test_glob_match() {
    assert!(glob_match("*", "anything"));
    assert!(glob_match("test*", "testfile"));
    assert!(glob_match("*test", "mytest"));
    assert!(glob_match("*test*", "mytestfile"));
    assert!(glob_match("test?file", "test1file"));
    assert!(!glob_match("test?file", "test12file"));
    assert!(glob_match("PATH", "PATH"));
    assert!(!glob_match("PATH", "path"));
    assert!(glob_match("*_TOKEN", "API_TOKEN"));
    assert!(glob_match("*_TOKEN", "SECRET_TOKEN"));
    assert!(!glob_match("*_TOKEN", "TOKEN_API"));
}

#[test]
fn seatbelt_profile_exact_text() {
    let policy = SandboxPolicy {
        writable_roots: strs(&["/work", "/missing"]),
        write_restricted_paths: strs(&["/work/.git"]),
        read_restricted_paths: vec![],
        network: Some(NetworkPolicy::Localhost),
        env: None,
        enable_gui: None,
        enable_audio: None,
    };
    let facts = vec![fact("/work", "/private/work", true), fact("/work/.git", "/private/work/.git", true)];
    let profile = build_seatbelt_profile(&policy, "/tmp/s", "/tmp/s/cage.sb", "sh", &facts);
    let expected = "(version 1)\n(allow default)\n\n\
; Filesystem write restrictions\n(deny file-write* (subpath \"/\"))\n\
(allow file-write* (subpath \"/tmp/s\"))\n\
(allow file-write* (subpath \"/private/work\"))\n\
(deny file-write* (subpath \"/private/work/.git\"))\n\
\n\
; Deny access to the profile file itself\n\
(deny file-read* (literal \"/tmp/s/cage.sb\"))\n\
(deny file-write* (literal \"/tmp/s/cage.sb\"))\n\
\n\
; Network restrictions\n\
(deny network-outbound)\n\
(allow network-outbound (remote ip \"localhost:*\"))\n\
(allow network-outbound (remote unix-socket))\n\
\n";
    assert_eq!(profile, expected);
}

#[test]
fn seatbelt_network_rules() {
    let full = SandboxPolicy { network: Some(NetworkPolicy::Full), ..SandboxPolicy::default() };
    assert!(profile_for(&full).contains("(allow network*)\n"));
    let none = SandboxPolicy::default();
    assert!(profile_for(&none).contains("(deny network*)\n"));
    let gui = SandboxPolicy { enable_gui: Some(true), ..SandboxPolicy::default() };
    assert!(profile_for(&gui).ends_with("; GUI passthrough\n(allow iokit-open)\n(allow device*)\n\n"));
}

#[test]
fn generate_seatbelt_profile_uses_canonical_session_dir() {
    let facts = vec![fact("/tmp/cage-1-abc", "/private/tmp/cage-1-abc", true)];
    let profile = generate_seatbelt_profile(&SandboxPolicy::default(), "sh", &vec![], "/tmp/cage-1-abc", &facts);
    assert!(profile.contains("(allow file-write* (subpath \"/private/tmp/cage-1-abc\"))"));
    assert!(profile.contains("(deny file-read* (literal \"/private/tmp/cage-1-abc/cage.sb\"))"));
}

// ---- bubblewrap (Linux) ----

#[test]
fn bwrap_options_minimal_policy() {
    let opts = generate_bwrap_options(&SandboxPolicy::default(), "/tmp/none", None, &bare_host());
    assert_eq!(
        opts,
        strs(&[
            "--unshare-pid", "--unshare-ipc", "--die-with-parent", "--ro-bind", "/", "/", "--dev", "/dev", "--proc",
            "/proc", "--tmpfs", "/tmp", "--tmpfs", "/run", "--tmpfs", "/run/user/1000", "--tmpfs", "/dev/shm",
            "--unshare-net",
        ])
    );
}

#[test]
fn bwrap_options_full_policy() {
    let policy = SandboxPolicy {
        writable_roots: strs(&["/w", "/gone"]),
        write_restricted_paths: strs(&["/w/.git"]),
        read_restricted_paths: strs(&["/home/u/.ssh", "/home/u/.netrc", "/nope"]),
        network: Some(NetworkPolicy::Localhost),
        env: None,
        enable_gui: Some(true),
        enable_audio: Some(true),
    };
    let host = LinuxHost {
        paths: vec![
            fact("/w", "/real/w", true),
            fact("/w/.git", "/real/w/.git", true),
            fact("/home/u/.ssh", "/home/u/.ssh", true),
            fact("/home/u/.netrc", "/home/u/.netrc", false),
            fact("/tmp/s", "/tmp/s", true),
            fact("/home/u/.Xauthority", "/home/u/.Xauthority", false),
        ],
        xdg_runtime_env: None,
        uid: 42,
        runtime_entries: strs(&["wayland-0", "pipewire-0", "bus", "wayland-0.lock"]),
        dev_dri: true,
        tmp_x11_unix: true,
        dev_snd: true,
        pulse_native: true,
    };
    let opts = generate_bwrap_options(&policy, "/tmp/s", Some("/home/u/.Xauthority"), &host);
    let expected = strs(&[
        "--unshare-pid", "--unshare-ipc", "--die-with-parent", "--ro-bind", "/", "/", "--dev", "/dev", "--proc",
        "/proc", "--tmpfs", "/tmp", "--tmpfs", "/run", "--tmpfs", "/run/user/42",
        "--bind", "/real/w", "/real/w",
        "--ro-bind", "/real/w/.git", "/real/w/.git",
        "--bind", "/tmp/s", "/tmp/s",
        "--perms", "0000", "--tmpfs", "/home/u/.ssh", "--remount-ro", "/home/u/.ssh",
        "--ro-bind", "/dev/null", "/home/u/.netrc",
        "--ro-bind", "/dev/null", "/home/u/.Xauthority",
        "--dev-bind", "/dev/dri", "/dev/dri",
        "--ro-bind", "/run/user/42/wayland-0", "/run/user/42/wayland-0",
        "--ro-bind", "/run/user/42/wayland-0.lock", "/run/user/42/wayland-0.lock",
        "--ro-bind", "/tmp/.X11-unix", "/tmp/.X11-unix",
        "--dev-bind", "/dev/snd", "/dev/snd",
        "--ro-bind", "/run/user/42/pulse/native", "/run/user/42/pulse/native",
        "--ro-bind", "/run/user/42/pipewire-0", "/run/user/42/pipewire-0",
        "--tmpfs", "/dev/shm",
        "--share-net",
    ]);
    assert_eq!(opts, expected);
}

#[test]
fn bwrap_argv_frames_the_command() {
    let policy = SandboxPolicy { network: Some(NetworkPolicy::Full), ..SandboxPolicy::default() };
    let argv = generate_bwrap_argv(&policy, "echo", &strs(&["a", "b"]), "/tmp/s", "/usr/bin/bwrap", None, &bare_host());
    assert_eq!(argv[0], "/usr/bin/bwrap");
    let n = argv.len();
    assert_eq!(&argv[n - 4..], &strs(&["--", "echo", "a", "b"])[..]);
    assert_eq!(argv[n - 5], "--share-net");
}

#[test]
fn runtime_dir_and_sockets() {
    assert_eq!(xdg_runtime_dir(&Some("/x".to_string()), 5), "/x");
    assert_eq!(xdg_runtime_dir(&Some(String::new()), 5), "/run/user/5");
    assert_eq!(xdg_runtime_dir(&None, 1234), "/run/user/1234");
    assert_eq!(
        probe_runtime_sockets("/r", &strs(&["wayland-1", "x", "wayland-"]), "wayland-"),
        strs(&["--ro-bind", "/r/wayland-1", "/r/wayland-1", "--ro-bind", "/r/wayland-", "/r/wayland-"])
    );
}

#[test]
fn binary_search_order() {
    assert_eq!(find_bwrap_binary(&vec![false, true, true]), Some("/bin/bwrap".to_string()));
    assert_eq!(find_bwrap_binary(&vec![false, false, false]), None);
    assert_eq!(find_xauth_binary(&vec![false, false, true, true]), Some("/usr/X11R6/bin/xauth".to_string()));
    assert_eq!(find_xauth_binary(&vec![true]), Some("/usr/bin/xauth".to_string()));
}

#[test]
fn args_encoding() {
    assert_eq!(encode_args(&strs(&["--bind", "/a"])), b"--bind\0/a\0".to_vec());
    assert_eq!(encode_args(&vec![]), Vec::<u8>::new());
}

#[test]
fn kernel_versions() {
    assert_eq!(parse_kernel_version("Linux version 5.15.0-91-generic (x) #1 SMP"), Ok((5, 15)));
    assert_eq!(parse_kernel_version("Linux version 6.1 more"), Ok((6, 1)));
    assert_eq!(parse_kernel_version("Linux version"), Err(KernelVersionError::MissingRelease));
    assert_eq!(parse_kernel_version("Linux version x.1"), Err(KernelVersionError::InvalidMajor));
    assert_eq!(parse_kernel_version("Linux version 5"), Err(KernelVersionError::MissingMinor));
    assert_eq!(parse_kernel_version("Linux version 5.y"), Err(KernelVersionError::InvalidMinor));
    assert!(kernel_supports_seccomp_supervisor(5, 0));
    assert!(kernel_supports_seccomp_supervisor(5, 2));
    assert!(kernel_supports_seccomp_supervisor(6, 0));
    assert!(!kernel_supports_seccomp_supervisor(4, 19));
}

#[test]
fn sandbox_env_on_linux() {
    let policy = SandboxPolicy {
        enable_gui: Some(true),
        enable_audio: Some(true),
        env: Some(EnvPolicy::from_lists(Some(EnvMode::DefaultBlock), strs(&["PATH"]), vec![], vec![])),
        ..SandboxPolicy::default()
    };
    assert!(wants_restricted_xauth(&policy, ":0"));
    assert!(!wants_restricted_xauth(&policy, ""));
    let prepared = prepare_sandbox_env(
        &policy,
        ":0",
        Some("/tmp/s/xauth".to_string()),
        None,
        Some("/home/u".to_string()),
        Some("/tmp/s".to_string()),
        "/run/user/7",
    );
    assert_eq!(prepared.block_xauth, Some("/home/u/.Xauthority".to_string()));
    let env = pairs(&[
        ("PATH", "/bin"),
        ("DISPLAY", ":0"),
        ("PULSE_SERVER", "x"),
        ("XAUTHORITY", "/home/u/.Xauthority"),
        ("SECRET", "s"),
    ]);
    let out = to_map(prepared.env.filter(&env));
    assert_eq!(out.get("PATH"), Some(&"/bin".to_string()));
    assert_eq!(out.get("DISPLAY"), Some(&":0".to_string()));
    assert_eq!(out.get("PULSE_SERVER"), Some(&"x".to_string()));
    assert_eq!(out.get("XAUTHORITY"), Some(&"/tmp/s/xauth".to_string()));
    assert_eq!(out.get("TMPDIR"), Some(&"/tmp/s".to_string()));
    assert_eq!(out.get("XDG_RUNTIME_DIR"), Some(&"/run/user/7".to_string()));
    assert!(!out.contains_key("SECRET"));

    // Without a token the user's X authority passes through unmasked.
    let plain = prepare_sandbox_env(&policy, ":0", None, Some("/x/auth".to_string()), None, None, "/r");
    assert_eq!(plain.block_xauth, None);
    let out = to_map(plain.env.filter(&pairs(&[("XAUTHORITY", "/x/auth")])));
    assert_eq!(out.get("XAUTHORITY"), Some(&"/x/auth".to_string()));
    assert!(!out.contains_key("TMPDIR"));
}

// ---- seccomp supervision of connect ----

#[test]
fn seccomp_address_checks() {
    let mut v4 = vec![0u8; 16];
    v4[..2].copy_from_slice(&u16_ne(AF_INET));
    v4[4] = 127;
    v4[7] = 1;
    assert_eq!(sockaddr_family(&v4), Some(AF_INET));
    assert!(is_localhost_address(&v4));
    assert!(validate_connect(Some(&v4[..])));
    v4[4] = 8;
    assert!(!is_localhost_address(&v4));
    assert!(!validate_connect(Some(&v4[..])));

    let mut v6 = vec![0u8; 28];
    v6[..2].copy_from_slice(&u16_ne(AF_INET6));
    v6[23] = 1;
    assert!(is_localhost_address(&v6));
    v6[23] = 2;
    assert!(!is_localhost_address(&v6));

    let mut unix = vec![0u8; 12];
    unix[..2].copy_from_slice(&u16_ne(AF_UNIX));
    assert!(is_unix_socket(&unix));
    assert!(validate_connect(Some(&unix[..])));

    assert_eq!(sockaddr_family(&[1]), None);
    assert!(!validate_connect(Some(&[2u8][..])));
    assert!(!validate_connect(None));
}

#[test]
fn seccomp_responses() {
    let ok = seccomp_response(9, true, libc::ECONNREFUSED);
    assert_eq!((ok.id, ok.val, ok.error, ok.flags), (9, 0, 0, SECCOMP_USER_NOTIF_FLAG_CONTINUE));
    let refused = seccomp_response(9, false, libc::ECONNREFUSED);
    assert_eq!((refused.id, refused.val, refused.flags), (9, 0, 0));
    assert_eq!(refused.error, -libc::ECONNREFUSED);
}

// ---- Windows ----

#[test]
fn windows_config_text() {
    let policy = SandboxPolicy {
        writable_roots: strs(&["C:\\w"]),
        network: Some(NetworkPolicy::Localhost),
        enable_gui: Some(true),
        ..SandboxPolicy::default()
    };
    let text = generate_windows_sandbox_config(&policy, "cmd", &strs(&["/c", "dir"]), "C:\\tmp\\s");
    let expected = "Windows Sandbox Configuration:\n\
================================\n\n\
Command: cmd\n\
Args: [\"/c\", \"dir\"]\n\
Session temp dir: C:\\tmp\\s\n\n\
Network policy: Localhost\n\
GUI enabled: true (inherent on Windows)\n\
Audio enabled: false (inherent on Windows)\n\
\nWritable roots:\n  - C:\\w\n\
\nWrite-restricted paths:\n\
\nRead-restricted paths:\n\
\n[Note: Windows sandbox uses restricted token + ACLs]\n\
[Note: GUI and audio access are inherent on Windows; no additional configuration needed]\n";
    assert_eq!(text, expected);
    assert_eq!(network_display(NetworkPolicy::Offline), "None");
    assert_eq!(network_display(NetworkPolicy::Full), "Full");
}

// ---- launch details ----

#[test]
fn seccomp_filter_program() {
    let prog = connect_filter_program(0xC000003E, 42);
    let insn = |code: u16, jt: u8, jf: u8, k: u32| BpfInsn { code, jt, jf, k };
    assert_eq!(
        prog,
        vec![
            insn(0x20, 0, 0, 4),
            insn(0x15, 0, 3, 0xC000003E),
            insn(0x20, 0, 0, 0),
            insn(0x15, 0, 1, 42),
            insn(0x06, 0, 0, 0x7FC00000),
            insn(0x06, 0, 0, 0x7FFF0000),
        ]
    );
}

#[test]
fn supervisor_steps() {
    let notif = SeccompNotif {
        id: 77,
        pid: 1234,
        flags: 0,
        data: SeccompData { nr: 42, arch: 0, instruction_pointer: 0, args: [3, 0x1000, 1000, 0, 0, 0] },
    };
    let req = sockaddr_request(&notif);
    assert_eq!((req.pid, req.addr, req.len), (1234, 0x1000, 256));
    let small = SeccompNotif { data: SeccompData { args: [3, 8, 16, 0, 0, 0], ..notif.data }, ..notif };
    assert_eq!(sockaddr_request(&small).len, 16);

    assert!(matches!(supervisor_step(&SupervisorEvent::Timeout { child_alive: true }, libc::ECONNREFUSED, little_endian()), SupervisorAction::Wait));
    assert!(matches!(supervisor_step(&SupervisorEvent::Timeout { child_alive: false }, libc::ECONNREFUSED, little_endian()), SupervisorAction::Stop));
    assert!(matches!(supervisor_step(&SupervisorEvent::PollFailed, libc::ECONNREFUSED, little_endian()), SupervisorAction::Stop));
    assert!(matches!(supervisor_step(&SupervisorEvent::ReadFailed, libc::ECONNREFUSED, little_endian()), SupervisorAction::Wait));

    let mut unix = vec![0u8; 4];
    unix[..2].copy_from_slice(&u16_ne(AF_UNIX));
    match supervisor_step(&SupervisorEvent::Notification { notif, sockaddr: Some(unix) }, libc::ECONNREFUSED, little_endian()) {
        SupervisorAction::Respond(r) => {
            assert_eq!((r.id, r.error, r.flags), (77, 0, SECCOMP_USER_NOTIF_FLAG_CONTINUE));
        }
        other => panic!("unexpected {:?}", other),
    }
    match supervisor_step(&SupervisorEvent::Notification { notif, sockaddr: None }, libc::ECONNREFUSED, little_endian()) {
        SupervisorAction::Respond(r) => {
            assert_eq!(r.id, 77);
            assert_eq!(r.error, -libc::ECONNREFUSED);
            assert_eq!(r.flags, 0);
        }
        other => panic!("unexpected {:?}", other),
    }
}

#[test]
fn bubblewrap_prerequisite_checks() {
    assert!(userns_clone_disabled("0\n"));
    assert!(userns_clone_disabled("  -0 "));
    assert!(userns_clone_disabled("+00"));
    assert!(!userns_clone_disabled("1\n"));
    assert!(!userns_clone_disabled(""));
    assert!(!userns_clone_disabled("zero"));
    assert!(!userns_clone_disabled("-+0"));
    assert!(is_setuid(0o104755));
    assert!(!is_setuid(0o755));
}

#[test]
fn exit_codes_and_launch_arguments() {
    assert_eq!(exit_code(WaitOutcome::Exited(42)), 42);
    assert_eq!(exit_code(WaitOutcome::Signaled(15)), 143);
    assert_eq!(exit_code(WaitOutcome::Other), 1);
    assert_eq!(bwrap_exec_args(7, "ls", &strs(&["-l"])), strs(&["--args", "7", "--", "ls", "-l"]));
    assert_eq!(sandbox_exec_path(), "/usr/bin/sandbox-exec");
    assert_eq!(
        sandbox_exec_args("/tmp/s/cage.sb", "sh", &strs(&["-c", "x"])),
        strs(&["-f", "/tmp/s/cage.sb", "--", "sh", "-c", "x"])
    );
}

#[test]
fn policy_env_settings_win_on_linux() {
    let policy = SandboxPolicy {
        enable_gui: Some(true),
        enable_audio: Some(true),
        env: Some(EnvPolicy::from_lists(
            Some(EnvMode::DefaultAllow),
            vec![],
            strs(&["DISPLAY", "PULSE_*"]),
            pairs(&[("TMPDIR", "/mine"), ("XAUTHORITY", "/x")]),
        )),
        ..SandboxPolicy::default()
    };
    let prepared = prepare_sandbox_env(&policy, ":1", Some("/t/xauth".to_string()), None, None, Some("/t".to_string()), "/r");
    assert_eq!(prepared.block_xauth, None);
    let out = to_map(prepared.env.filter(&pairs(&[("DISPLAY", ":1"), ("PULSE_SERVER", "p"), ("HOME", "/h")])));
    assert!(!out.contains_key("DISPLAY"));
    assert!(!out.contains_key("PULSE_SERVER"));
    assert_eq!(out.get("HOME"), Some(&"/h".to_string()));
    assert_eq!(out.get("TMPDIR"), Some(&"/mine".to_string()));
    assert_eq!(out.get("XAUTHORITY"), Some(&"/x".to_string()));
    assert_eq!(out.get("XDG_RUNTIME_DIR"), Some(&"/r".to_string()));
}

#[test]
fn restrictions_mounted_after_writable_mounts() {
    let policy = SandboxPolicy {
        writable_roots: strs(&["/w"]),
        write_restricted_paths: strs(&["/w/.git"]),
        read_restricted_paths: strs(&["/w/secret"]),
        ..SandboxPolicy::default()
    };
    let host = LinuxHost {
        paths: vec![fact("/w", "/w", true), fact("/w/.git", "/w/.git", true), fact("/w/secret", "/w/secret", false)],
        ..bare_host()
    };
    let opts = generate_bwrap_options(&policy, "/nowhere", None, &host);
    let pos = |run: &[&str]| opts.windows(run.len()).position(|w| w.iter().zip(run).all(|(a, b)| a == b));
    let bind = pos(&["--bind", "/w", "/w"]).unwrap();
    let ro = pos(&["--ro-bind", "/w/.git", "/w/.git"]).unwrap();
    let hide = pos(&["--ro-bind", "/dev/null", "/w/secret"]).unwrap();
    assert!(bind < ro && ro < hide);
}

#[test]
fn connect_decisions_by_family() {
    let mut v4 = vec![0u8; 16];
    v4[4] = 127;
    assert!(connect_allowed_for(AF_INET, &v4));
    assert!(connect_allowed_for(AF_UNIX, &v4));
    assert!(!connect_allowed_for(AF_INET6, &v4));
    v4[4] = 10;
    assert!(!connect_allowed_for(AF_INET, &v4));
    let mut v6 = vec![0u8; 28];
    v6[23] = 1;
    assert!(connect_allowed_for(AF_INET6, &v6));
    assert!(is_unix_family(AF_UNIX));
    assert!(!is_unix_family(AF_INET));
}

#[test]
fn family_in_given_byte_order() {
    assert_eq!(sockaddr_family_in(&[2, 0, 9], true), Some(2));
    assert_eq!(sockaddr_family_in(&[2, 0, 9], false), Some(512));
    assert_eq!(sockaddr_family_in(&[0, 10], false), Some(10));
    assert_eq!(sockaddr_family_in(&[7], true), None);
    let mut v4 = vec![2u8, 0, 0, 0, 127, 0, 0, 1];
    assert!(validate_connect_in(Some(&v4[..]), true));
    assert!(!validate_connect_in(Some(&v4[..]), false));
    v4[0] = 0;
    v4[1] = 2;
    assert!(validate_connect_in(Some(&v4[..]), false));
    assert!(!validate_connect_in(None, true));
    assert!(validate_connect_in(Some(&[1u8, 0][..]), true));
    assert_eq!(sockaddr_family_in(&u16_ne(AF_INET6), little_endian()), Some(AF_INET6));
}

#[test]
fn bind_targets_are_writable_paths() {
    let policy = SandboxPolicy {
        writable_roots: strs(&["/w", "/x"]),
        write_restricted_paths: strs(&["/w/.git"]),
        read_restricted_paths: strs(&["/secret"]),
        network: Some(NetworkPolicy::Full),
        ..SandboxPolicy::default()
    };
    let host = LinuxHost {
        paths: vec![
            fact("/w", "/real/w", true),
            fact("/x", "/real/x", true),
            fact("/w/.git", "/real/w/.git", true),
            fact("/secret", "/secret", true),
            fact("/tmp/s", "/tmp/s", true),
        ],
        dev_dri: true,
        dev_snd: true,
        ..bare_host()
    };
    let opts = generate_bwrap_options(&policy, "/tmp/s", None, &host);
    let writable = ["/real/w", "/real/x", "/tmp/s"];
    let mut binds = 0;
    for i in 0..opts.len() {
        if opts[i] == "--bind" {
            binds += 1;
            assert!(i + 2 < opts.len());
            assert_eq!(opts[i + 1], opts[i + 2]);
            assert!(writable.contains(&opts[i + 1].as_str()));
        }
    }
    assert_eq!(binds, 3);
    // Devices are present on the host, but neither GUI nor audio is on.
    assert!(!opts.iter().any(|w| w == "/dev/dri" || w == "/dev/snd" || w == "--dev-bind"));
    assert!(!opts.iter().any(|w| w == "--unshare-net" || w == "--new-session"));
    assert_eq!(opts.last().map(|s| s.as_str()), Some("--share-net"));
}

#[test]
fn seatbelt_crafted_paths_begin_no_network_rule() {
    let crafted = "/x\n(allow network*)\n(deny network*)";
    let none = SandboxPolicy { read_restricted_paths: strs(&[crafted]), ..SandboxPolicy::default() };
    let profile = profile_for(&none);
    assert!(profile.lines().any(|l| l == "(deny network*)"));
    assert!(!profile.lines().any(|l| l.starts_with("(allow network")));
    let full = SandboxPolicy {
        network: Some(NetworkPolicy::Full),
        write_restricted_paths: strs(&[crafted]),
        ..SandboxPolicy::default()
    };
    let profile = profile_for(&full);
    assert!(profile.lines().any(|l| l == "(allow network*)"));
    assert!(!profile.lines().any(|l| l.starts_with("(deny network")));
}
