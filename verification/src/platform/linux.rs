//! The bubblewrap command line of a sandbox on Linux.
use vstd::prelude::*;

use crate::paths::{is_absolute, join_path, path_join};
use crate::platform::{append_owned, fact_of, find_fact, triple, PathFact};
use crate::env_map::{contains_key, insert_or_replace};
use crate::policy::types::{
    default_env_view, env_admits, filters_view, first_match, lemma_first_match_concat, EnvFilter, EnvPolicy, EnvView, FilterAction,
    NetworkPolicy, PolicyView, SandboxPolicy,
};
use crate::text::{
    char_is_whitespace, chars_of, decimal, is_whitespace, owned, parse_i32, parse_i32_spec, parse_u32, parse_u32_spec,
    push_decimal, starts_with, strs_view, trim_chars, trim_spec,
};

verus! {

/// What the host says of the paths a sandbox on Linux mounts.
#[derive(Debug)]
pub struct LinuxHost {
    /// Canonical forms of the configured paths, the session directory and
    /// the X authority file, where they exist.
    pub paths: Vec<PathFact>,
    /// The value of `XDG_RUNTIME_DIR`, if set.
    pub xdg_runtime_env: Option<String>,
    /// The real user id.
    pub uid: u32,
    /// The names of the entries of the runtime directory, in listing order.
    pub runtime_entries: Vec<String>,
    /// Whether `/dev/dri` exists.
    pub dev_dri: bool,
    /// Whether `/tmp/.X11-unix` exists.
    pub tmp_x11_unix: bool,
    /// Whether `/dev/snd` exists.
    pub dev_snd: bool,
    /// Whether `pulse/native` exists in the runtime directory.
    pub pulse_native: bool,
}

/// The runtime directory: `XDG_RUNTIME_DIR` when set and not empty, else
/// `/run/user/<uid>`.
pub open spec fn xdg_runtime_dir_spec(env: Option<String>, uid: u32) -> Seq<char> {
    if env is Some && env.unwrap()@.len() > 0 {
        env.unwrap()@
    } else {
        "/run/user/"@ + decimal(uid as nat)
    }
}

/// The runtime directory (see [`xdg_runtime_dir_spec`]).
pub fn xdg_runtime_dir(env: &Option<String>, uid: u32) -> (res: String)
    ensures
        res@ == xdg_runtime_dir_spec(*env, uid),
{
    if let Some(d) = env {
        if !d.as_str().is_empty() {
            return d.clone();
        }
    }
    let mut res = owned("/run/user/");
    push_decimal(&mut res, uid);
    res
}

/// `flag p p` for each path of `paths` that resolves, by its canonical form.
pub open spec fn bind_args(flag: Seq<char>, paths: Seq<Seq<char>>, facts: Seq<PathFact>) -> Seq<Seq<char>>
    decreases paths.len(),
{
    if paths.len() == 0 {
        Seq::empty()
    } else {
        bind_args(flag, paths.drop_last(), facts) + match fact_of(facts, paths.last()) {
            Some(f) => seq![flag, f.canonical@, f.canonical@],
            None => Seq::empty(),
        }
    }
}

/// The mounts that hide a read-restricted path: an empty, inaccessible,
/// read-only directory over a directory, `/dev/null` over a file.
pub open spec fn hide_args(paths: Seq<Seq<char>>, facts: Seq<PathFact>) -> Seq<Seq<char>>
    decreases paths.len(),
{
    if paths.len() == 0 {
        Seq::empty()
    } else {
        hide_args(paths.drop_last(), facts) + match fact_of(facts, paths.last()) {
            Some(f) => if f.is_dir {
                seq!["--perms"@, "0000"@, "--tmpfs"@, f.canonical@, "--remount-ro"@, f.canonical@]
            } else {
                seq!["--ro-bind"@, "/dev/null"@, f.canonical@]
            },
            None => Seq::empty(),
        }
    }
}

/// Read-only mounts of the runtime directory entries whose name starts with `prefix`.
pub open spec fn socket_args(dir: Seq<char>, names: Seq<String>, prefix: Seq<char>) -> Seq<Seq<char>>
    decreases names.len(),
{
    if names.len() == 0 {
        Seq::empty()
    } else {
        let name = names.last()@;
        socket_args(dir, names.drop_last(), prefix) + if prefix.len() <= name.len() && name.take(prefix.len() as int) == prefix {
            seq!["--ro-bind"@, path_join(dir, name), path_join(dir, name)]
        } else {
            Seq::empty()
        }
    }
}

/// The fixed start of every bubblewrap command line: new PID and IPC
/// namespaces, death with the parent, the whole file system read-only, fresh
/// `/dev`, `/proc`, `/tmp`, `/run` and runtime directory.
pub open spec fn base_args(xdg: Seq<char>) -> Seq<Seq<char>> {
    seq![
        "--unshare-pid"@, "--unshare-ipc"@, "--die-with-parent"@,
        "--ro-bind"@, "/"@, "/"@,
        "--dev"@, "/dev"@,
        "--proc"@, "/proc"@,
        "--tmpfs"@, "/tmp"@,
        "--tmpfs"@, "/run"@,
        "--tmpfs"@, xdg
    ]
}

/// The GUI mounts: GPU devices, Wayland sockets, the X11 socket directory.
pub open spec fn gui_args(p: PolicyView, host: LinuxHost, xdg: Seq<char>) -> Seq<Seq<char>> {
    if p.enable_gui == Some(true) {
        (if host.dev_dri { seq!["--dev-bind"@, "/dev/dri"@, "/dev/dri"@] } else { Seq::empty() })
            + socket_args(xdg, host.runtime_entries@, "wayland-"@)
            + (if host.tmp_x11_unix { seq!["--ro-bind"@, "/tmp/.X11-unix"@, "/tmp/.X11-unix"@] } else { Seq::empty() })
    } else {
        Seq::empty()
    }
}

/// The audio mounts: sound devices, the PulseAudio socket, PipeWire sockets.
pub open spec fn audio_args(p: PolicyView, host: LinuxHost, xdg: Seq<char>) -> Seq<Seq<char>> {
    if p.enable_audio == Some(true) {
        (if host.dev_snd { seq!["--dev-bind"@, "/dev/snd"@, "/dev/snd"@] } else { Seq::empty() })
            + (if host.pulse_native {
                seq!["--ro-bind"@, path_join(xdg, "pulse/native"@), path_join(xdg, "pulse/native"@)]
            } else {
                Seq::empty()
            })
            + socket_args(xdg, host.runtime_entries@, "pipewire-"@)
    } else {
        Seq::empty()
    }
}

/// The network switch: a private network namespace for no network, the
/// host's otherwise (for localhost-only, a seccomp supervisor filters
/// `connect`).
pub open spec fn net_arg(n: Option<NetworkPolicy>) -> Seq<char> {
    match n {
        Some(NetworkPolicy::Full) => "--share-net"@,
        Some(NetworkPolicy::Localhost) => "--share-net"@,
        _ => "--unshare-net"@,
    }
}

/// The bubblewrap options for a policy, in mount order: the base, the
/// writable roots read-write, the write-restricted paths read-only over them,
/// the session directory read-write, the read-restricted paths hidden, the user's
/// X authority file masked, GUI and audio passthrough, a private `/dev/shm`,
/// and the network switch.
pub open spec fn bwrap_options_spec(p: PolicyView, session_tmpdir: Seq<char>, block_xauth: Option<Seq<char>>, host: LinuxHost) -> Seq<Seq<char>> {
    let xdg = xdg_runtime_dir_spec(host.xdg_runtime_env, host.uid);
    let facts = host.paths@;
    base_args(xdg)
        + bind_args("--bind"@, p.writable_roots, facts)
        + bind_args("--ro-bind"@, p.write_restricted_paths, facts)
        + bind_args("--bind"@, seq![session_tmpdir], facts)
        + hide_args(p.read_restricted_paths, facts)
        + match block_xauth {
            Some(x) => match fact_of(facts, x) {
                Some(f) => seq!["--ro-bind"@, "/dev/null"@, f.canonical@],
                None => Seq::empty(),
            },
            None => Seq::empty(),
        }
        + gui_args(p, host, xdg)
        + audio_args(p, host, xdg)
        + seq!["--tmpfs"@, "/dev/shm"@]
        + seq![net_arg(p.network)]
}

fn base_options(xdg: &str) -> (res: Vec<String>)
    ensures
        strs_view(res@) == base_args(xdg@),
{
    let mut v: Vec<String> = Vec::new();
    v.push(owned("--unshare-pid"));
    v.push(owned("--unshare-ipc"));
    v.push(owned("--die-with-parent"));
    v.push(owned("--ro-bind"));
    v.push(owned("/"));
    v.push(owned("/"));
    v.push(owned("--dev"));
    v.push(owned("/dev"));
    v.push(owned("--proc"));
    v.push(owned("/proc"));
    v.push(owned("--tmpfs"));
    v.push(owned("/tmp"));
    v.push(owned("--tmpfs"));
    v.push(owned("/run"));
    v.push(owned("--tmpfs"));
    v.push(owned(xdg));
    proof {
        assert(strs_view(v@) =~= base_args(xdg@));
    }
    v
}

fn bind_options(flag: &str, paths: &Vec<String>, facts: &Vec<PathFact>) -> (res: Vec<String>)
    ensures
        strs_view(res@) == bind_args(flag@, strs_view(paths@), facts@),
{
    let mut v: Vec<String> = Vec::new();
    let mut i: usize = 0;
    while i < paths.len()
        invariant
            i <= paths@.len(),
            strs_view(v@) == bind_args(flag@, strs_view(paths@.take(i as int)), facts@),
        decreases paths@.len() - i,
    {
        proof {
            assert(strs_view(paths@.take(i + 1)).drop_last() =~= strs_view(paths@.take(i as int)));
            assert(strs_view(paths@.take(i + 1)).last() == paths@[i as int]@);
        }
        match find_fact(facts, paths[i].as_str()) {
            Some(k) => {
                let c = facts[k].canonical.as_str();
                append_owned(&mut v, triple(flag, c, c));
            },
            None => {
                proof {
                    assert(strs_view(v@) =~= strs_view(v@) + Seq::<Seq<char>>::empty());
                }
            },
        }
        i = i + 1;
    }
    proof {
        assert(paths@.take(paths@.len() as int) =~= paths@);
    }
    v
}

fn hide_options(paths: &Vec<String>, facts: &Vec<PathFact>) -> (res: Vec<String>)
    ensures
        strs_view(res@) == hide_args(strs_view(paths@), facts@),
{
    let mut v: Vec<String> = Vec::new();
    let mut i: usize = 0;
    while i < paths.len()
        invariant
            i <= paths@.len(),
            strs_view(v@) == hide_args(strs_view(paths@.take(i as int)), facts@),
        decreases paths@.len() - i,
    {
        proof {
            assert(strs_view(paths@.take(i + 1)).drop_last() =~= strs_view(paths@.take(i as int)));
            assert(strs_view(paths@.take(i + 1)).last() == paths@[i as int]@);
        }
        match find_fact(facts, paths[i].as_str()) {
            Some(k) => {
                let c = facts[k].canonical.as_str();
                if facts[k].is_dir {
                    let mut seg = triple("--perms", "0000", "--tmpfs");
                    append_owned(&mut seg, triple(c, "--remount-ro", c));
                    proof {
                        assert(strs_view(seg@) =~= seq!["--perms"@, "0000"@, "--tmpfs"@, c@, "--remount-ro"@, c@]);
                    }
                    append_owned(&mut v, seg);
                } else {
                    append_owned(&mut v, triple("--ro-bind", "/dev/null", c));
                }
            },
            None => {
                proof {
                    assert(strs_view(v@) =~= strs_view(v@) + Seq::<Seq<char>>::empty());
                }
            },
        }
        i = i + 1;
    }
    proof {
        assert(paths@.take(paths@.len() as int) =~= paths@);
    }
    v
}

/// Read-only mounts of the runtime directory entries named with `prefix`.
pub fn probe_runtime_sockets(dir: &str, names: &Vec<String>, prefix: &str) -> (res: Vec<String>)
    ensures
        strs_view(res@) == socket_args(dir@, names@, prefix@),
{
    let mut v: Vec<String> = Vec::new();
    let mut i: usize = 0;
    while i < names.len()
        invariant
            i <= names@.len(),
            strs_view(v@) == socket_args(dir@, names@.take(i as int), prefix@),
        decreases names@.len() - i,
    {
        proof {
            assert(names@.take(i + 1).drop_last() =~= names@.take(i as int));
        }
        if starts_with(names[i].as_str(), prefix) {
            let path = join_path(dir, names[i].as_str());
            append_owned(&mut v, triple("--ro-bind", path.as_str(), path.as_str()));
        } else {
            proof {
                assert(strs_view(v@) =~= strs_view(v@) + Seq::<Seq<char>>::empty());
            }
        }
        i = i + 1;
    }
    proof {
        assert(names@.take(names@.len() as int) =~= names@);
    }
    v
}

fn empty_strs() -> (res: Vec<String>)
    ensures
        strs_view(res@) == Seq::<Seq<char>>::empty(),
{
    let v: Vec<String> = Vec::new();
    proof {
        assert(strs_view(v@) =~= Seq::<Seq<char>>::empty());
    }
    v
}

fn gui_options(policy: &SandboxPolicy, host: &LinuxHost, xdg: &str) -> (res: Vec<String>)
    ensures
        strs_view(res@) == gui_args(policy@, *host, xdg@),
{
    if !policy.enable_gui() {
        return empty_strs();
    }
    let mut v = if host.dev_dri { triple("--dev-bind", "/dev/dri", "/dev/dri") } else { empty_strs() };
    append_owned(&mut v, probe_runtime_sockets(xdg, &host.runtime_entries, "wayland-"));
    if host.tmp_x11_unix {
        append_owned(&mut v, triple("--ro-bind", "/tmp/.X11-unix", "/tmp/.X11-unix"));
    } else {
        append_owned(&mut v, empty_strs());
    }
    v
}

fn audio_options(policy: &SandboxPolicy, host: &LinuxHost, xdg: &str) -> (res: Vec<String>)
    ensures
        strs_view(res@) == audio_args(policy@, *host, xdg@),
{
    if !policy.enable_audio() {
        return empty_strs();
    }
    let mut v = if host.dev_snd { triple("--dev-bind", "/dev/snd", "/dev/snd") } else { empty_strs() };
    if host.pulse_native {
        let pulse = join_path(xdg, "pulse/native");
        append_owned(&mut v, triple("--ro-bind", pulse.as_str(), pulse.as_str()));
    } else {
        append_owned(&mut v, empty_strs());
    }
    append_owned(&mut v, probe_runtime_sockets(xdg, &host.runtime_entries, "pipewire-"));
    v
}

/// The bubblewrap options for a policy (see [`bwrap_options_spec`]).
pub fn generate_bwrap_options(policy: &SandboxPolicy, session_tmpdir: &str, block_xauth: Option<&str>, host: &LinuxHost) -> (res: Vec<String>)
    ensures
        strs_view(res@) == bwrap_options_spec(policy@, session_tmpdir@, match block_xauth {
            Some(x) => Some(x@),
            None => None,
        }, *host),
{
    let xdg = xdg_runtime_dir(&host.xdg_runtime_env, host.uid);
    let mut options = base_options(xdg.as_str());
    append_owned(&mut options, bind_options("--bind", &policy.writable_roots, &host.paths));
    append_owned(&mut options, bind_options("--ro-bind", &policy.write_restricted_paths, &host.paths));
    let mut session: Vec<String> = Vec::new();
    session.push(owned(session_tmpdir));
    proof {
        assert(strs_view(session@) =~= seq![session_tmpdir@]);
    }
    append_owned(&mut options, bind_options("--bind", &session, &host.paths));
    append_owned(&mut options, hide_options(&policy.read_restricted_paths, &host.paths));
    let xauth = match block_xauth {
        Some(x) => match find_fact(&host.paths, x) {
            Some(k) => triple("--ro-bind", "/dev/null", host.paths[k].canonical.as_str()),
            None => empty_strs(),
        },
        None => empty_strs(),
    };
    append_owned(&mut options, xauth);
    append_owned(&mut options, gui_options(policy, host, xdg.as_str()));
    append_owned(&mut options, audio_options(policy, host, xdg.as_str()));
    let mut tail: Vec<String> = Vec::new();
    tail.push(owned("--tmpfs"));
    tail.push(owned("/dev/shm"));
    match policy.network() {
        NetworkPolicy::Offline => tail.push(owned("--unshare-net")),
        NetworkPolicy::Localhost => tail.push(owned("--share-net")),
        NetworkPolicy::Full => tail.push(owned("--share-net")),
    }
    proof {
        assert(strs_view(tail@) =~= seq!["--tmpfs"@, "/dev/shm"@] + seq![net_arg(policy.network)]);
    }
    append_owned(&mut options, tail);
    options
}

/// The bubblewrap command line: the binary, the options, `--`, the command
/// and its arguments.
pub fn generate_bwrap_argv(
    policy: &SandboxPolicy,
    command: &str,
    args: &Vec<String>,
    session_tmpdir: &str,
    bwrap_path: &str,
    block_xauth: Option<&str>,
    host: &LinuxHost,
) -> (res: Vec<String>)
    ensures
        strs_view(res@) == seq![bwrap_path@] + bwrap_options_spec(policy@, session_tmpdir@, match block_xauth {
            Some(x) => Some(x@),
            None => None,
        }, *host) + seq!["--"@, command@] + strs_view(args@),
{
    let mut argv: Vec<String> = Vec::new();
    argv.push(owned(bwrap_path));
    proof {
        assert(strs_view(argv@) =~= seq![bwrap_path@]);
    }
    append_owned(&mut argv, generate_bwrap_options(policy, session_tmpdir, block_xauth, host));
    let mut sep: Vec<String> = Vec::new();
    sep.push(owned("--"));
    sep.push(owned(command));
    proof {
        assert(strs_view(sep@) =~= seq!["--"@, command@]);
    }
    append_owned(&mut argv, sep);
    append_owned(&mut argv, crate::text::clone_strs(args));
    argv
}

/// The system locations searched for bubblewrap, in order of preference.
pub fn bwrap_global_paths() -> (res: Vec<String>)
    ensures
        strs_view(res@) == seq!["/usr/bin/bwrap"@, "/bin/bwrap"@, "/usr/local/bin/bwrap"@],
{
    triple("/usr/bin/bwrap", "/bin/bwrap", "/usr/local/bin/bwrap")
}

/// The system locations searched for `xauth`, in order of preference.
pub fn xauth_global_paths() -> (res: Vec<String>)
    ensures
        strs_view(res@) == seq!["/usr/bin/xauth"@, "/bin/xauth"@, "/usr/X11R6/bin/xauth"@, "/usr/local/bin/xauth"@],
{
    let mut v = triple("/usr/bin/xauth", "/bin/xauth", "/usr/X11R6/bin/xauth");
    let ghost before = v@;
    proof {
        assert(strs_view(before).len() == 3);
        assert(before.len() == 3);
    }
    v.push(owned("/usr/local/bin/xauth"));
    proof {
        assert(v@ == before.push(v@[3]));
        assert(strs_view(v@) =~= strs_view(before).push(v@[3]@));
    }
    proof {
        assert(strs_view(v@) =~= seq!["/usr/bin/xauth"@, "/bin/xauth"@, "/usr/X11R6/bin/xauth"@, "/usr/local/bin/xauth"@]);
    }
    v
}

/// The first candidate that exists; `present[i]` says whether candidate
/// `i` does (a candidate beyond `present` does not).
pub open spec fn first_present(candidates: Seq<Seq<char>>, present: Seq<bool>) -> Option<Seq<char>>
    decreases candidates.len(),
{
    if candidates.len() == 0 {
        None
    } else if present.len() > 0 && present[0] {
        Some(candidates[0])
    } else {
        first_present(candidates.drop_first(), if present.len() > 0 { present.drop_first() } else { present })
    }
}

/// The first candidate that exists (see [`first_present`]).
pub fn first_existing(candidates: &Vec<String>, present: &Vec<bool>) -> (res: Option<String>)
    ensures
        crate::policy::merge::opt_view(res) == first_present(strs_view(candidates@), present@),
{
    let mut i: usize = 0;
    proof {
        assert(strs_view(candidates@).skip(0) =~= strs_view(candidates@));
        assert(present@.skip(0) =~= present@);
    }
    while i < candidates.len()
        invariant
            i <= candidates@.len(),
            first_present(strs_view(candidates@), present@) == first_present(strs_view(candidates@).skip(i as int),
                if i <= present@.len() { present@.skip(i as int) } else { Seq::empty() }),
        decreases candidates@.len() - i,
    {
        proof {
            assert(strs_view(candidates@).skip(i as int).drop_first() =~= strs_view(candidates@).skip(i + 1));
            if i < present@.len() {
                assert(present@.skip(i as int).drop_first() =~= present@.skip(i + 1));
            }
            if i == present@.len() {
                assert(present@.skip(i as int) =~= Seq::<bool>::empty());
            }
        }
        if i < present.len() && present[i] {
            return Some(candidates[i].clone());
        }
        i = i + 1;
    }
    None
}

/// Bubblewrap in a system location, the first of [`bwrap_global_paths`]
/// that exists; `present[i]` says whether the `i`th does.
pub fn find_bwrap_binary(present: &Vec<bool>) -> (res: Option<String>)
    ensures
        crate::policy::merge::opt_view(res) == first_present(seq!["/usr/bin/bwrap"@, "/bin/bwrap"@, "/usr/local/bin/bwrap"@], present@),
{
    first_existing(&bwrap_global_paths(), present)
}

/// `xauth` in a system location, the first of [`xauth_global_paths`] that
/// exists; `present[i]` says whether the `i`th does.
pub fn find_xauth_binary(present: &Vec<bool>) -> (res: Option<String>)
    ensures
        crate::policy::merge::opt_view(res) == first_present(
            seq!["/usr/bin/xauth"@, "/bin/xauth"@, "/usr/X11R6/bin/xauth"@, "/usr/local/bin/xauth"@], present@),
{
    first_existing(&xauth_global_paths(), present)
}

/// The bytes of the arguments, each followed by a NUL, as bubblewrap reads
/// them with `--args`.
pub open spec fn nul_separated(args: Seq<Seq<char>>) -> Seq<u8>
    decreases args.len(),
{
    if args.len() == 0 {
        Seq::empty()
    } else {
        nul_separated(args.drop_last()) + vstd::utf8::encode_utf8(args.last()) + seq![0u8]
    }
}

/// Encodes arguments for `bwrap --args` (see [`nul_separated`]).
pub fn encode_args(args: &Vec<String>) -> (res: Vec<u8>)
    ensures
        res@ == nul_separated(strs_view(args@)),
{
    let mut out: Vec<u8> = Vec::new();
    let mut i: usize = 0;
    while i < args.len()
        invariant
            i <= args@.len(),
            out@ == nul_separated(strs_view(args@.take(i as int))),
        decreases args@.len() - i,
    {
        proof {
            assert(strs_view(args@.take(i + 1)).drop_last() =~= strs_view(args@.take(i as int)));
        }
        let bytes = args[i].as_str().as_bytes();
        let ghost start = out@;
        let mut j: usize = 0;
        while j < bytes.len()
            invariant
                j <= bytes@.len(),
                out@ == start + bytes@.take(j as int),
            decreases bytes@.len() - j,
        {
            out.push(bytes[j]);
            proof {
                assert(out@ =~= start + bytes@.take(j + 1));
            }
            j = j + 1;
        }
        out.push(0u8);
        proof {
            assert(bytes@.take(bytes@.len() as int) =~= bytes@);
            assert(out@ =~= start + vstd::utf8::encode_utf8(args@[i as int]@) + seq![0u8]);
        }
        i = i + 1;
    }
    proof {
        assert(args@.take(args@.len() as int) =~= args@);
    }
    out
}

/// Whether a kernel (major, minor) has seccomp user notification
/// (`SECCOMP_RET_USER_NOTIF`): Linux 5.0 and later, the floor documented for
/// the localhost-only policy. (The flag that lets an allowed call continue,
/// [`crate::platform::seccomp::SECCOMP_USER_NOTIF_FLAG_CONTINUE`], came with
/// Linux 5.5; on 5.0 to 5.4 the kernel refuses such answers.)
pub open spec fn kernel_supports_user_notif(major: u32, minor: u32) -> bool {
    major >= 5
}

/// Whether the kernel version allows the seccomp supervisor that the
/// localhost-only network policy needs (see [`kernel_supports_user_notif`]);
/// older kernels are refused.
pub fn kernel_supports_seccomp_supervisor(major: u32, minor: u32) -> (res: bool)
    ensures
        res == kernel_supports_user_notif(major, minor),
{
    major >= 5
}

/// The first position at or after `i` that is not white space (or the end).
pub open spec fn skip_ws(s: Seq<char>, i: int) -> int
    decreases s.len() - i,
{
    if i >= s.len() || !char_is_whitespace(s[i]) {
        i
    } else {
        skip_ws(s, i + 1)
    }
}

/// The first position at or after `i` that is white space (or the end).
pub open spec fn token_end(s: Seq<char>, i: int) -> int
    decreases s.len() - i,
{
    if i >= s.len() || char_is_whitespace(s[i]) {
        i
    } else {
        token_end(s, i + 1)
    }
}

/// The white space skipped from `i` stays within the text.
pub proof fn lemma_skip_ws(s: Seq<char>, i: int)
    requires
        0 <= i,
    ensures
        i <= skip_ws(s, i),
        i <= s.len() ==> skip_ws(s, i) <= s.len(),
        skip_ws(s, i) < s.len() ==> !char_is_whitespace(s[skip_ws(s, i)]),
    decreases s.len() - i,
{
    if i < s.len() && char_is_whitespace(s[i]) {
        lemma_skip_ws(s, i + 1);
    }
}

/// A word that starts at `i` ends within the text.
pub proof fn lemma_token_end(s: Seq<char>, i: int)
    requires
        0 <= i,
    ensures
        i <= token_end(s, i),
        i <= s.len() ==> token_end(s, i) <= s.len(),
        i < s.len() && !char_is_whitespace(s[i]) ==> i < token_end(s, i),
    decreases s.len() - i,
{
    if i < s.len() && !char_is_whitespace(s[i]) {
        lemma_token_end(s, i + 1);
    }
}

/// The `k`th white-space separated word of `s[i..]` (`split_whitespace().nth(k)`).
pub open spec fn nth_word(s: Seq<char>, i: int, k: nat) -> Option<Seq<char>>
    decreases s.len() - i,
    when 0 <= i
{
    proof {
        lemma_skip_ws(s, i);
    }
    let a = skip_ws(s, i);
    if a >= s.len() {
        None
    } else {
        proof {
            lemma_token_end(s, a);
        }
        let b = token_end(s, a);
        if k == 0 {
            Some(s.subrange(a, b))
        } else {
            nth_word(s, b, (k - 1) as nat)
        }
    }
}

/// The position of the first `.` at or after `i` (or the end).
pub open spec fn dot_end(s: Seq<char>, i: int) -> int
    decreases s.len() - i,
{
    if i >= s.len() || s[i] == '.' {
        i
    } else {
        dot_end(s, i + 1)
    }
}

/// The next `.` from `i` is within the text, and no `.` comes before it.
pub proof fn lemma_dot_end(s: Seq<char>, i: int)
    requires
        0 <= i <= s.len(),
    ensures
        i <= dot_end(s, i) <= s.len(),
        forall|t: int| i <= t < dot_end(s, i) ==> s[t] != '.',
        dot_end(s, i) < s.len() ==> s[dot_end(s, i)] == '.',
    decreases s.len() - i,
{
    if i < s.len() && s[i] != '.' {
        lemma_dot_end(s, i + 1);
    }
}

/// Why a kernel version could not be read.
#[derive(Debug, Clone, Copy, PartialEq, Eq, Structural)]
pub enum KernelVersionError {
    /// There is no third word, the release.
    MissingRelease,
    /// The part before the first `.` is not a number.
    InvalidMajor,
    /// The release has no `.`.
    MissingMinor,
    /// The part between the first and second `.` is not a number.
    InvalidMinor,
}

/// The (major, minor) kernel version in `/proc/version` text: the third
/// word is the release, split at `.`; its first two parts must be numbers.
pub open spec fn kernel_version_spec(content: Seq<char>) -> Result<(u32, u32), KernelVersionError> {
    match nth_word(content, 0, 2) {
        None => Err(KernelVersionError::MissingRelease),
        Some(r) => {
            let e1 = dot_end(r, 0);
            match parse_u32_spec(r.take(e1)) {
                None => Err(KernelVersionError::InvalidMajor),
                Some(major) => if e1 >= r.len() {
                    Err(KernelVersionError::MissingMinor)
                } else {
                    let e2 = dot_end(r, e1 + 1);
                    match parse_u32_spec(r.subrange(e1 + 1, e2)) {
                        None => Err(KernelVersionError::InvalidMinor),
                        Some(minor) => Ok((major, minor)),
                    }
                },
            }
        },
    }
}

fn sub_chars(s: &Vec<char>, a: usize, b: usize) -> (res: Vec<char>)
    requires
        a <= b <= s@.len(),
    ensures
        res@ == s@.subrange(a as int, b as int),
{
    let mut res: Vec<char> = Vec::new();
    let mut i = a;
    while i < b
        invariant
            a <= i <= b,
            b <= s@.len(),
            res@ == s@.subrange(a as int, i as int),
        decreases b - i,
    {
        res.push(s[i]);
        proof {
            assert(res@ =~= s@.subrange(a as int, i + 1));
        }
        i = i + 1;
    }
    res
}

fn find_dot(s: &Vec<char>, i: usize) -> (res: usize)
    requires
        i <= s@.len(),
    ensures
        res == dot_end(s@, i as int),
{
    let mut j = i;
    while j < s.len() && s[j] != '.'
        invariant
            i <= j <= s@.len(),
            dot_end(s@, i as int) == dot_end(s@, j as int),
        decreases s@.len() - j,
    {
        j = j + 1;
    }
    j
}

/// The `k`th white-space separated word (see [`nth_word`]).
fn nth_word_of(s: &Vec<char>, k: usize) -> (res: Option<Vec<char>>)
    ensures
        match res {
            Some(w) => nth_word(s@, 0, k as nat) == Some(w@),
            None => nth_word(s@, 0, k as nat) is None,
        },
{
    let mut i: usize = 0;
    let mut left = k;
    while i <= s.len()
        invariant
            i <= s@.len(),
            nth_word(s@, 0, k as nat) == nth_word(s@, i as int, left as nat),
        decreases s@.len() + 1 - i,
    {
        let mut a = i;
        while a < s.len() && is_whitespace(s[a])
            invariant
                i <= a <= s@.len(),
                skip_ws(s@, i as int) == skip_ws(s@, a as int),
            decreases s@.len() - a,
        {
            a = a + 1;
        }
        if a >= s.len() {
            return None;
        }
        let mut b = a + 1;
        proof {
            assert(token_end(s@, a as int) == token_end(s@, b as int));
        }
        while b < s.len() && !is_whitespace(s[b])
            invariant
                a <= b <= s@.len(),
                token_end(s@, a as int) == token_end(s@, b as int),
            decreases s@.len() - b,
        {
            b = b + 1;
        }
        proof {
            lemma_token_end(s@, a as int);
        }
        if left == 0 {
            return Some(sub_chars(s, a, b));
        }
        left = left - 1;
        i = b;
    }
    None
}

/// Reads the (major, minor) kernel version out of `/proc/version` text
/// (see [`kernel_version_spec`]).
pub fn parse_kernel_version(content: &str) -> (res: Result<(u32, u32), KernelVersionError>)
    ensures
        res == kernel_version_spec(content@),
{
    let cs = chars_of(content);
    let release = match nth_word_of(&cs, 2) {
        Some(r) => r,
        None => return Err(KernelVersionError::MissingRelease),
    };
    let e1 = find_dot(&release, 0);
    proof {
        lemma_dot_end(release@, 0);
        assert(release@.take(e1 as int) =~= release@.subrange(0, e1 as int));
    }
    let major = match parse_u32(&sub_chars(&release, 0, e1)) {
        Some(m) => m,
        None => return Err(KernelVersionError::InvalidMajor),
    };
    if e1 >= release.len() {
        return Err(KernelVersionError::MissingMinor);
    }
    let e2 = find_dot(&release, e1 + 1);
    proof {
        lemma_dot_end(release@, e1 + 1);
    }
    let minor = match parse_u32(&sub_chars(&release, e1 + 1, e2)) {
        Some(m) => m,
        None => return Err(KernelVersionError::InvalidMinor),
    };
    Ok((major, minor))
}

/// Allow filters for the given variable names, in order.
pub open spec fn allow_all(names: Seq<Seq<char>>) -> Seq<(Seq<char>, FilterAction)> {
    names.map_values(|n: Seq<char>| (n, FilterAction::Allow))
}

/// The variables a GUI needs.
pub open spec fn gui_vars() -> Seq<Seq<char>> {
    seq!["DISPLAY"@, "WAYLAND_DISPLAY"@, "XDG_RUNTIME_DIR"@, "XCURSOR_THEME"@, "XCURSOR_SIZE"@]
}

/// The variables audio needs.
pub open spec fn audio_vars() -> Seq<Seq<char>> {
    seq!["PULSE_SERVER"@, "PULSE_COOKIE"@, "PIPEWIRE_REMOTE"@, "XDG_RUNTIME_DIR"@]
}

/// The environment policy in force for a sandboxed policy.
pub open spec fn policy_env_view(p: PolicyView) -> EnvView {
    match p.env {
        Some(e) => e,
        None => default_env_view(),
    }
}

/// Whether a restricted X11 authority token is wanted: the GUI is on, the
/// policy does not set `XAUTHORITY` itself, and a display is named.
pub open spec fn wants_restricted_xauth_spec(p: PolicyView, display: Seq<char>) -> bool {
    p.enable_gui == Some(true) && !policy_env_view(p).set.contains_key("XAUTHORITY"@) && display.len() > 0
}

/// The X authority file to mask once a restricted token replaces it:
/// `XAUTHORITY` when set and not empty, else `~/.Xauthority`.
pub open spec fn user_xauth_file(xauthority_env: Option<String>, home: Option<String>) -> Option<Seq<char>> {
    if xauthority_env is Some && xauthority_env.unwrap()@.len() > 0 {
        Some(xauthority_env.unwrap()@)
    } else {
        match home {
            Some(h) => Some(path_join(h@, ".Xauthority"@)),
            None => None,
        }
    }
}

/// The environment policy a sandbox on Linux runs with, and the X authority
/// file to mask. With the GUI on, the display variables are allowed (after
/// the policy's own filters); `XAUTHORITY` becomes the restricted token when
/// one was wanted and made (masking the user's own file), and is allowed through
/// otherwise, unless the policy sets it. With audio on, the audio variables
/// are allowed. `TMPDIR` becomes the session directory (when it resolves)
/// and `XDG_RUNTIME_DIR` the runtime directory, unless the policy sets them.
pub open spec fn sandbox_env_spec(
    p: PolicyView,
    display: Seq<char>,
    restricted_xauth: Option<String>,
    xauthority_env: Option<String>,
    home: Option<String>,
    session_tmpdir: Option<String>,
    xdg: Seq<char>,
) -> (EnvView, Option<Seq<char>>) {
    let base = policy_env_view(p);
    let gui = p.enable_gui == Some(true);
    let audio = p.enable_audio == Some(true);
    let with_gui = if gui { base.filters + allow_all(gui_vars()) } else { base.filters };
    let token = wants_restricted_xauth_spec(p, display) && restricted_xauth is Some;
    let fallback = gui && !base.set.contains_key("XAUTHORITY"@) && !token;
    let with_xauth = if fallback { with_gui + allow_all(seq!["XAUTHORITY"@]) } else { with_gui };
    let filters = if audio { with_xauth + allow_all(audio_vars()) } else { with_xauth };
    let set1 = if token { base.set.insert("XAUTHORITY"@, restricted_xauth.unwrap()@) } else { base.set };
    let set2 = if !set1.contains_key("TMPDIR"@) && session_tmpdir is Some {
        set1.insert("TMPDIR"@, session_tmpdir.unwrap()@)
    } else {
        set1
    };
    let set3 = if !set2.contains_key("XDG_RUNTIME_DIR"@) { set2.insert("XDG_RUNTIME_DIR"@, xdg) } else { set2 };
    (EnvView { mode: base.mode, filters, set: set3 }, if token { user_xauth_file(xauthority_env, home) } else { None })
}

/// The environment policy and X authority mask of a sandbox on Linux.
#[derive(Debug)]
pub struct SandboxEnv {
    pub env: EnvPolicy,
    pub block_xauth: Option<String>,
}

/// Whether a restricted X11 authority token is wanted (see
/// [`wants_restricted_xauth_spec`]).
pub fn wants_restricted_xauth(policy: &SandboxPolicy, display: &str) -> (res: bool)
    ensures
        res == wants_restricted_xauth_spec(policy@, display@),
{
    policy.enable_gui() && !contains_key(&policy.env().set, "XAUTHORITY") && !display.is_empty()
}

fn push_allows(filters: &mut Vec<EnvFilter>, names: &Vec<String>)
    ensures
        filters_view(final(filters)@) == filters_view(old(filters)@) + allow_all(strs_view(names@)),
{
    let mut i: usize = 0;
    while i < names.len()
        invariant
            i <= names@.len(),
            filters_view(filters@) == filters_view(old(filters)@) + allow_all(strs_view(names@.take(i as int))),
        decreases names@.len() - i,
    {
        let ghost before = filters@;
        filters.push(EnvFilter { pattern: names[i].clone(), action: FilterAction::Allow });
        proof {
            assert(filters_view(filters@) =~= filters_view(before).push((names@[i as int]@, FilterAction::Allow)));
            assert(allow_all(strs_view(names@.take(i + 1))) =~= allow_all(strs_view(names@.take(i as int))).push((names@[i as int]@, FilterAction::Allow)));
        }
        i = i + 1;
    }
    proof {
        assert(names@.take(names@.len() as int) =~= names@);
    }
}

fn names(a: &str, b: &str, c: &str, d: &str) -> (res: Vec<String>)
    ensures
        strs_view(res@) == seq![a@, b@, c@, d@],
{
    let mut v: Vec<String> = Vec::new();
    v.push(owned(a));
    v.push(owned(b));
    v.push(owned(c));
    v.push(owned(d));
    proof {
        assert(strs_view(v@) =~= seq![a@, b@, c@, d@]);
    }
    v
}

/// The environment policy and X authority mask of a sandbox on Linux (see
/// [`sandbox_env_spec`]); `restricted_xauth` is the token file made when
/// [`wants_restricted_xauth`] held, if making it succeeded.
pub fn prepare_sandbox_env(
    policy: &SandboxPolicy,
    display: &str,
    restricted_xauth: Option<String>,
    xauthority_env: Option<String>,
    home: Option<String>,
    session_tmpdir: Option<String>,
    xdg_runtime_dir: &str,
) -> (res: SandboxEnv)
    ensures
        res.env@ == sandbox_env_spec(policy@, display@, restricted_xauth, xauthority_env, home, session_tmpdir, xdg_runtime_dir@).0,
        crate::policy::merge::opt_view(res.block_xauth)
            == sandbox_env_spec(policy@, display@, restricted_xauth, xauthority_env, home, session_tmpdir, xdg_runtime_dir@).1,
{
    let mut ep = policy.env();
    let wants = wants_restricted_xauth(policy, display);
    let mut block_xauth: Option<String> = None;
    if policy.enable_gui() {
        let mut gui = names("DISPLAY", "WAYLAND_DISPLAY", "XDG_RUNTIME_DIR", "XCURSOR_THEME");
        let ghost g4 = strs_view(gui@);
        gui.push(owned("XCURSOR_SIZE"));
        proof {
            assert(strs_view(gui@) =~= g4.push("XCURSOR_SIZE"@));
            assert(strs_view(gui@) =~= gui_vars());
        }
        push_allows(&mut ep.filters, &gui);
        if !contains_key(&ep.set, "XAUTHORITY") {
            match (&restricted_xauth, wants) {
                (Some(x), true) => {
                    block_xauth = match &xauthority_env {
                        Some(v) => if !v.as_str().is_empty() {
                            Some(v.clone())
                        } else {
                            match &home {
                                Some(h) => Some(join_path(h.as_str(), ".Xauthority")),
                                None => None,
                            }
                        },
                        None => match &home {
                            Some(h) => Some(join_path(h.as_str(), ".Xauthority")),
                            None => None,
                        },
                    };
                    insert_or_replace(&mut ep.set, owned("XAUTHORITY"), x.clone());
                },
                _ => {
                    let mut one: Vec<String> = Vec::new();
                    one.push(owned("XAUTHORITY"));
                    proof {
                        assert(strs_view(one@) =~= seq!["XAUTHORITY"@]);
                    }
                    push_allows(&mut ep.filters, &one);
                },
            }
        }
    }
    if policy.enable_audio() {
        let audio = names("PULSE_SERVER", "PULSE_COOKIE", "PIPEWIRE_REMOTE", "XDG_RUNTIME_DIR");
        push_allows(&mut ep.filters, &audio);
    }
    if !contains_key(&ep.set, "TMPDIR") {
        if let Some(t) = &session_tmpdir {
            insert_or_replace(&mut ep.set, owned("TMPDIR"), t.clone());
        }
    }
    if !contains_key(&ep.set, "XDG_RUNTIME_DIR") {
        insert_or_replace(&mut ep.set, owned("XDG_RUNTIME_DIR"), owned(xdg_runtime_dir));
    }
    SandboxEnv { env: ep, block_xauth }
}

/// Every bubblewrap command line starts from the fixed base (the whole file
/// system read-only before any other mount) and ends with a private
/// `/dev/shm` and the network switch: a private network unless the policy
/// grants localhost or full network access.
pub proof fn law_bwrap_frame(p: PolicyView, session_tmpdir: Seq<char>, block_xauth: Option<Seq<char>>, host: LinuxHost)
    ensures
        ({
            let o = bwrap_options_spec(p, session_tmpdir, block_xauth, host);
            &&& o.len() >= 19
            &&& o.take(16) == base_args(xdg_runtime_dir_spec(host.xdg_runtime_env, host.uid))
            &&& o[o.len() - 3] == "--tmpfs"@
            &&& o[o.len() - 2] == "/dev/shm"@
            &&& o.last() == (if p.network == Some(NetworkPolicy::Full) || p.network == Some(NetworkPolicy::Localhost) {
                "--share-net"@
            } else {
                "--unshare-net"@
            })
        }),
{
    let o = bwrap_options_spec(p, session_tmpdir, block_xauth, host);
    let b = base_args(xdg_runtime_dir_spec(host.xdg_runtime_env, host.uid));
    let rest = o.skip(16);
    assert(o =~= b + rest);
    assert(o.take(16) =~= b);
}

/// Whether unprivileged user namespaces are switched off, from the text of
/// `/proc/sys/kernel/unprivileged_userns_clone`: the trimmed text read as an
/// `i32` (taken as 1 when it is no number) is 0.
pub fn userns_clone_disabled(content: &str) -> (res: bool)
    ensures
        res == (parse_i32_spec(trim_spec(content@)) == Some(0i32)),
{
    let cs = chars_of(content);
    let t = trim_chars(&cs);
    let value: i32 = match parse_i32(&t) {
        Some(v) => v,
        None => 1,
    };
    value == 0
}

/// Whether a file mode has the set-user-ID bit (`0o4000`).
pub fn is_setuid(mode: u32) -> (res: bool)
    ensures
        res == (mode & 0o4000 != 0),
{
    mode & 0o4000 != 0
}

/// How a waited-for child ended.
#[derive(Debug, Clone, Copy, PartialEq, Eq, Structural)]
pub enum WaitOutcome {
    /// It exited with this code.
    Exited(i32),
    /// A signal with this number killed it.
    Signaled(i32),
    /// Anything else.
    Other,
}

/// The exit code forwarded for a child: its own exit code, 128 plus the
/// signal number when a signal killed it, and 1 otherwise.
pub fn exit_code(outcome: WaitOutcome) -> (res: i32)
    requires
        outcome matches WaitOutcome::Signaled(sig) ==> sig <= i32::MAX - 128,
    ensures
        res == match outcome {
            WaitOutcome::Exited(code) => code as int,
            WaitOutcome::Signaled(sig) => 128 + sig,
            WaitOutcome::Other => 1,
        },
{
    match outcome {
        WaitOutcome::Exited(code) => code,
        WaitOutcome::Signaled(sig) => 128 + sig,
        WaitOutcome::Other => 1,
    }
}

/// The arguments bubblewrap is started with when its options come from a
/// memory file: `--args <fd> -- <command> <args...>`.
pub fn bwrap_exec_args(args_fd: u32, command: &str, args: &Vec<String>) -> (res: Vec<String>)
    ensures
        strs_view(res@) == seq!["--args"@, decimal(args_fd as nat), "--"@, command@] + strs_view(args@),
{
    let mut fd_text = String::new();
    push_decimal(&mut fd_text, args_fd);
    let mut v: Vec<String> = Vec::new();
    v.push(owned("--args"));
    v.push(fd_text);
    v.push(owned("--"));
    v.push(owned(command));
    proof {
        assert(strs_view(v@) =~= seq!["--args"@, decimal(args_fd as nat), "--"@, command@]);
    }
    append_owned(&mut v, crate::text::clone_strs(args));
    v
}

/// The mounts that make the writable roots writable, after the base.
pub open spec fn writable_mounts(p: PolicyView, host: LinuxHost) -> Seq<Seq<char>> {
    base_args(xdg_runtime_dir_spec(host.xdg_runtime_env, host.uid))
        + bind_args("--bind"@, p.writable_roots, host.paths@)
}

/// The mount that hides a read-restricted path.
pub open spec fn hide_run(f: PathFact) -> Seq<Seq<char>> {
    if f.is_dir {
        seq!["--perms"@, "0000"@, "--tmpfs"@, f.canonical@, "--remount-ro"@, f.canonical@]
    } else {
        seq!["--ro-bind"@, "/dev/null"@, f.canonical@]
    }
}

/// `t` occurs in `o` at or after position `start`.
pub open spec fn occurs_from(o: Seq<Seq<char>>, t: Seq<Seq<char>>, start: int) -> bool {
    exists|k: int| start <= k && k + t.len() <= o.len() && #[trigger] o.subrange(k, k + t.len()) == t
}

proof fn lemma_occurs_in_concat(a: Seq<Seq<char>>, b: Seq<Seq<char>>, c: Seq<Seq<char>>, t: Seq<Seq<char>>)
    requires
        occurs_from(b, t, 0),
    ensures
        occurs_from(a + b + c, t, a.len() as int),
{
    let k = choose|k: int| 0 <= k && k + t.len() <= b.len() && #[trigger] b.subrange(k, k + t.len()) == t;
    assert((a + b + c).subrange(a.len() + k, a.len() + k + t.len()) =~= b.subrange(k, k + t.len()));
}

proof fn lemma_bind_args_contain(flag: Seq<char>, paths: Seq<Seq<char>>, facts: Seq<PathFact>, i: int, f: PathFact)
    requires
        0 <= i < paths.len(),
        fact_of(facts, paths[i]) == Some(f),
    ensures
        occurs_from(bind_args(flag, paths, facts), seq![flag, f.canonical@, f.canonical@], 0),
    decreases paths.len(),
{
    let t = seq![flag, f.canonical@, f.canonical@];
    let pre = bind_args(flag, paths.drop_last(), facts);
    if i == paths.len() - 1 {
        assert((pre + t).subrange(pre.len() as int, (pre.len() + t.len()) as int) =~= t);
    } else {
        lemma_bind_args_contain(flag, paths.drop_last(), facts, i, f);
        let last = bind_args(flag, paths, facts).subrange(pre.len() as int, bind_args(flag, paths, facts).len() as int);
        assert(Seq::<Seq<char>>::empty() + pre + last =~= bind_args(flag, paths, facts));
        lemma_occurs_in_concat(Seq::empty(), pre, last, t);
    }
}

proof fn lemma_hide_args_contain(paths: Seq<Seq<char>>, facts: Seq<PathFact>, i: int, f: PathFact)
    requires
        0 <= i < paths.len(),
        fact_of(facts, paths[i]) == Some(f),
    ensures
        occurs_from(hide_args(paths, facts), hide_run(f), 0),
    decreases paths.len(),
{
    let t = hide_run(f);
    let pre = hide_args(paths.drop_last(), facts);
    if i == paths.len() - 1 {
        assert((pre + t).subrange(pre.len() as int, (pre.len() + t.len()) as int) =~= t);
    } else {
        lemma_hide_args_contain(paths.drop_last(), facts, i, f);
        let last = hide_args(paths, facts).subrange(pre.len() as int, hide_args(paths, facts).len() as int);
        assert(Seq::<Seq<char>>::empty() + pre + last =~= hide_args(paths, facts));
        lemma_occurs_in_concat(Seq::empty(), pre, last, t);
    }
}

/// Mounts come in the documented order: after the base and the writable
/// roots come the read-only mounts of the write-restricted paths (so they
/// overlay their writable parents), then the session directory, then the
/// masks over the read-restricted paths. Each write-restricted path that
/// resolves gets its read-only mount and each read-restricted path that
/// resolves its mask, after every writable-root mount.
pub proof fn law_restrictions_mounted_last(p: PolicyView, session_tmpdir: Seq<char>, block_xauth: Option<Seq<char>>, host: LinuxHost)
    ensures
        ({
            let o = bwrap_options_spec(p, session_tmpdir, block_xauth, host);
            let facts = host.paths@;
            let w = writable_mounts(p, host);
            let ro = bind_args("--ro-bind"@, p.write_restricted_paths, facts);
            let sess = bind_args("--bind"@, seq![session_tmpdir], facts);
            let hide = hide_args(p.read_restricted_paths, facts);
            &&& o.take((w.len() + ro.len() + sess.len() + hide.len()) as int) == w + ro + sess + hide
            &&& forall|i: int| #![trigger p.write_restricted_paths[i]]
                0 <= i < p.write_restricted_paths.len() && fact_of(facts, p.write_restricted_paths[i]) is Some ==> {
                    let c = fact_of(facts, p.write_restricted_paths[i]).unwrap().canonical@;
                    occurs_from(o, seq!["--ro-bind"@, c, c], w.len() as int)
                }
            &&& forall|i: int| #![trigger p.read_restricted_paths[i]]
                0 <= i < p.read_restricted_paths.len() && fact_of(facts, p.read_restricted_paths[i]) is Some ==>
                    occurs_from(o, hide_run(fact_of(facts, p.read_restricted_paths[i]).unwrap()), w.len() as int)
        }),
{
    let o = bwrap_options_spec(p, session_tmpdir, block_xauth, host);
    let w = writable_mounts(p, host);
    let facts = host.paths@;
    let ro = bind_args("--ro-bind"@, p.write_restricted_paths, facts);
    let sess = bind_args("--bind"@, seq![session_tmpdir], facts);
    let hide = hide_args(p.read_restricted_paths, facts);
    let rest = o.subrange((w.len() + ro.len() + sess.len() + hide.len()) as int, o.len() as int);
    assert(o =~= w + ro + sess + hide + rest);
    assert(o.take((w.len() + ro.len() + sess.len() + hide.len()) as int) =~= w + ro + sess + hide);
    assert forall|i: int| #![trigger p.write_restricted_paths[i]]
        0 <= i < p.write_restricted_paths.len() && fact_of(facts, p.write_restricted_paths[i]) is Some implies {
            let c = fact_of(facts, p.write_restricted_paths[i]).unwrap().canonical@;
            occurs_from(o, seq!["--ro-bind"@, c, c], w.len() as int)
        } by {
        let f = fact_of(facts, p.write_restricted_paths[i]).unwrap();
        lemma_bind_args_contain("--ro-bind"@, p.write_restricted_paths, facts, i, f);
        lemma_occurs_in_concat(w, ro, sess + hide + rest, seq!["--ro-bind"@, f.canonical@, f.canonical@]);
        assert(w + ro + (sess + hide + rest) =~= o);
    }
    assert forall|i: int| #![trigger p.read_restricted_paths[i]]
        0 <= i < p.read_restricted_paths.len() && fact_of(facts, p.read_restricted_paths[i]) is Some implies
            occurs_from(o, hide_run(fact_of(facts, p.read_restricted_paths[i]).unwrap()), w.len() as int) by {
        let f = fact_of(facts, p.read_restricted_paths[i]).unwrap();
        lemma_hide_args_contain(p.read_restricted_paths, facts, i, f);
        lemma_occurs_in_concat(w + ro + sess, hide, rest, hide_run(f));
        assert(w + ro + sess + hide + rest =~= o);
        let k = choose|k: int| (w + ro + sess).len() <= k && k + hide_run(f).len() <= o.len()
            && #[trigger] o.subrange(k, k + hide_run(f).len()) == hide_run(f);
        assert(w.len() <= k);
    }
}

/// The policy's own environment settings win on Linux: its filters decide
/// before the allowances added for GUI and audio, its mode stands, and every
/// variable it forces keeps its forced value.
pub proof fn law_policy_env_settings_win(
    p: PolicyView,
    display: Seq<char>,
    restricted_xauth: Option<String>,
    xauthority_env: Option<String>,
    home: Option<String>,
    session_tmpdir: Option<String>,
    xdg: Seq<char>,
    name: Seq<char>,
)
    ensures
        ({
            let base = policy_env_view(p);
            let env = sandbox_env_spec(p, display, restricted_xauth, xauthority_env, home, session_tmpdir, xdg).0;
            &&& env.mode == base.mode
            &&& first_match(base.filters, name) is Some ==> first_match(env.filters, name) == first_match(base.filters, name)
            &&& base.set.contains_key(name) ==> env.set.contains_key(name) && env.set[name] == base.set[name]
        }),
{
    let base = policy_env_view(p);
    let env = sandbox_env_spec(p, display, restricted_xauth, xauthority_env, home, session_tmpdir, xdg).0;
    let extra = env.filters.skip(base.filters.len() as int);
    assert(env.filters =~= base.filters + extra);
    lemma_first_match_concat(base.filters, extra, name);
}

/// The paths the library is told of are absolute: every canonical form, and
/// the runtime directory when `XDG_RUNTIME_DIR` gives it.
pub open spec fn host_paths_absolute(host: LinuxHost) -> bool {
    &&& forall|i: int| 0 <= i < host.paths@.len() ==> is_absolute(#[trigger] host.paths@[i].canonical@)
    &&& (host.xdg_runtime_env is Some && host.xdg_runtime_env.unwrap()@.len() > 0 ==> is_absolute(host.xdg_runtime_env.unwrap()@))
}

/// A word of a bubblewrap command line before its last one: a mount flag
/// (`--dev-bind` only where `dev` allows it), `0000`, or an absolute path.
pub open spec fn mount_word(w: Seq<char>, dev: bool) -> bool {
    ||| is_absolute(w)
    ||| w == "0000"@
    ||| w == "--unshare-pid"@ || w == "--unshare-ipc"@ || w == "--die-with-parent"@
    ||| w == "--ro-bind"@ || w == "--bind"@ || w == "--dev"@ || w == "--proc"@ || w == "--tmpfs"@
    ||| w == "--perms"@ || w == "--remount-ro"@
    ||| dev && w == "--dev-bind"@
}

/// Every word of the list is a mount word.
pub open spec fn all_mount_words(s: Seq<Seq<char>>, dev: bool) -> bool {
    forall|i: int| 0 <= i < s.len() ==> mount_word(#[trigger] s[i], dev)
}

proof fn lemma_mount_words_concat(a: Seq<Seq<char>>, b: Seq<Seq<char>>, dev: bool)
    requires
        all_mount_words(a, dev),
        all_mount_words(b, dev),
    ensures
        all_mount_words(a + b, dev),
{
    assert forall|i: int| 0 <= i < (a + b).len() implies mount_word(#[trigger] (a + b)[i], dev) by {
        if i < a.len() {
            assert((a + b)[i] == a[i]);
        } else {
            assert((a + b)[i] == b[i - a.len()]);
        }
    }
}

proof fn lemma_fact_absolute(host: LinuxHost, p: Seq<char>)
    requires
        host_paths_absolute(host),
    ensures
        fact_of(host.paths@, p) matches Some(f) ==> is_absolute(f.canonical@),
{
    lemma_fact_of_member(host.paths@, p);
    if let Some(f) = fact_of(host.paths@, p) {
        let i = choose|i: int| 0 <= i < host.paths@.len() && host.paths@[i] == f;
        assert(is_absolute(host.paths@[i].canonical@));
    }
}

proof fn lemma_fact_of_member(facts: Seq<PathFact>, p: Seq<char>)
    ensures
        fact_of(facts, p) matches Some(f) ==> exists|i: int| 0 <= i < facts.len() && facts[i] == f,
    decreases facts.len(),
{
    if facts.len() > 0 && facts[0].path@ != p {
        lemma_fact_of_member(facts.drop_first(), p);
        if let Some(f) = fact_of(facts, p) {
            let i = choose|i: int| 0 <= i < facts.drop_first().len() && facts.drop_first()[i] == f;
            assert(facts[i + 1] == f);
        }
    } else if facts.len() > 0 {
        assert(facts[0] == facts[0]);
    }
}

proof fn lemma_bind_words(flag: Seq<char>, paths: Seq<Seq<char>>, host: LinuxHost, dev: bool)
    requires
        host_paths_absolute(host),
        mount_word(flag, dev),
    ensures
        all_mount_words(bind_args(flag, paths, host.paths@), dev),
    decreases paths.len(),
{
    if paths.len() > 0 {
        lemma_bind_words(flag, paths.drop_last(), host, dev);
        lemma_fact_absolute(host, paths.last());
        let tail = match fact_of(host.paths@, paths.last()) {
            Some(f) => seq![flag, f.canonical@, f.canonical@],
            None => Seq::<Seq<char>>::empty(),
        };
        assert(all_mount_words(tail, dev));
        lemma_mount_words_concat(bind_args(flag, paths.drop_last(), host.paths@), tail, dev);
    }
}

proof fn lemma_hide_words(paths: Seq<Seq<char>>, host: LinuxHost, dev: bool)
    requires
        host_paths_absolute(host),
    ensures
        all_mount_words(hide_args(paths, host.paths@), dev),
    decreases paths.len(),
{
    reveal_strlit("/dev/null");
    if paths.len() > 0 {
        lemma_hide_words(paths.drop_last(), host, dev);
        lemma_fact_absolute(host, paths.last());
        let tail = match fact_of(host.paths@, paths.last()) {
            Some(f) => hide_run(f),
            None => Seq::<Seq<char>>::empty(),
        };
        assert(all_mount_words(tail, dev));
        lemma_mount_words_concat(hide_args(paths.drop_last(), host.paths@), tail, dev);
    }
}

proof fn lemma_socket_words(dir: Seq<char>, names: Seq<String>, prefix: Seq<char>, dev: bool)
    requires
        is_absolute(dir),
    ensures
        all_mount_words(socket_args(dir, names, prefix), dev),
    decreases names.len(),
{
    if names.len() > 0 {
        lemma_socket_words(dir, names.drop_last(), prefix, dev);
        crate::policy::merge::lemma_join_absolute(dir, names.last()@);
        let name = names.last()@;
        let tail = if prefix.len() <= name.len() && name.take(prefix.len() as int) == prefix {
            seq!["--ro-bind"@, path_join(dir, name), path_join(dir, name)]
        } else {
            Seq::<Seq<char>>::empty()
        };
        assert(all_mount_words(tail, dev));
        lemma_mount_words_concat(socket_args(dir, names.drop_last(), prefix), tail, dev);
    }
}

/// Before the network switch, a bubblewrap command line holds only mount
/// flags, `0000` and absolute paths (when the paths it is told of are
/// absolute), and `--dev-bind` only with the GUI or audio on.
pub proof fn law_mount_words(p: PolicyView, session_tmpdir: Seq<char>, block_xauth: Option<Seq<char>>, host: LinuxHost)
    requires
        host_paths_absolute(host),
    ensures
        ({
            let o = bwrap_options_spec(p, session_tmpdir, block_xauth, host);
            all_mount_words(o.drop_last(), p.enable_gui == Some(true) || p.enable_audio == Some(true))
        }),
{
    reveal_strlit("/");
    reveal_strlit("/dev");
    reveal_strlit("/proc");
    reveal_strlit("/tmp");
    reveal_strlit("/run");
    reveal_strlit("/run/user/");
    reveal_strlit("/dev/null");
    reveal_strlit("/dev/dri");
    reveal_strlit("/dev/snd");
    reveal_strlit("/tmp/.X11-unix");
    reveal_strlit("/dev/shm");
    let dev = p.enable_gui == Some(true) || p.enable_audio == Some(true);
    let o = bwrap_options_spec(p, session_tmpdir, block_xauth, host);
    let xdg = xdg_runtime_dir_spec(host.xdg_runtime_env, host.uid);
    let facts = host.paths@;
    assert(is_absolute(xdg));
    let base = base_args(xdg);
    assert(all_mount_words(base, dev));
    lemma_bind_words("--bind"@, p.writable_roots, host, dev);
    lemma_bind_words("--ro-bind"@, p.write_restricted_paths, host, dev);
    lemma_bind_words("--bind"@, seq![session_tmpdir], host, dev);
    lemma_hide_words(p.read_restricted_paths, host, dev);
    let xa = match block_xauth {
        Some(x) => match fact_of(facts, x) {
            Some(f) => seq!["--ro-bind"@, "/dev/null"@, f.canonical@],
            None => Seq::<Seq<char>>::empty(),
        },
        None => Seq::<Seq<char>>::empty(),
    };
    if let Some(x) = block_xauth {
        lemma_fact_absolute(host, x);
    }
    assert(all_mount_words(xa, dev));
    lemma_socket_words(xdg, host.runtime_entries@, "wayland-"@, dev);
    lemma_socket_words(xdg, host.runtime_entries@, "pipewire-"@, dev);
    let g = gui_args(p, host, xdg);
    let a = audio_args(p, host, xdg);
    if p.enable_gui == Some(true) {
        let d = if host.dev_dri { seq!["--dev-bind"@, "/dev/dri"@, "/dev/dri"@] } else { Seq::<Seq<char>>::empty() };
        let x = if host.tmp_x11_unix { seq!["--ro-bind"@, "/tmp/.X11-unix"@, "/tmp/.X11-unix"@] } else { Seq::<Seq<char>>::empty() };
        assert(all_mount_words(d, dev));
        assert(all_mount_words(x, dev));
        lemma_mount_words_concat(d, socket_args(xdg, host.runtime_entries@, "wayland-"@), dev);
        lemma_mount_words_concat(d + socket_args(xdg, host.runtime_entries@, "wayland-"@), x, dev);
    }
    assert(all_mount_words(g, dev));
    if p.enable_audio == Some(true) {
        let d = if host.dev_snd { seq!["--dev-bind"@, "/dev/snd"@, "/dev/snd"@] } else { Seq::<Seq<char>>::empty() };
        crate::policy::merge::lemma_join_absolute(xdg, "pulse/native"@);
        let pa = if host.pulse_native {
            seq!["--ro-bind"@, path_join(xdg, "pulse/native"@), path_join(xdg, "pulse/native"@)]
        } else {
            Seq::<Seq<char>>::empty()
        };
        assert(all_mount_words(d, dev));
        assert(all_mount_words(pa, dev));
        lemma_mount_words_concat(d, pa, dev);
        lemma_mount_words_concat(d + pa, socket_args(xdg, host.runtime_entries@, "pipewire-"@), dev);
    }
    assert(all_mount_words(a, dev));
    let shm = seq!["--tmpfs"@, "/dev/shm"@];
    assert(all_mount_words(shm, dev));
    let w = bind_args("--bind"@, p.writable_roots, facts);
    let r = bind_args("--ro-bind"@, p.write_restricted_paths, facts);
    let ss = bind_args("--bind"@, seq![session_tmpdir], facts);
    let h = hide_args(p.read_restricted_paths, facts);
    lemma_mount_words_concat(base, w, dev);
    lemma_mount_words_concat(base + w, r, dev);
    lemma_mount_words_concat(base + w + r, ss, dev);
    lemma_mount_words_concat(base + w + r + ss, h, dev);
    lemma_mount_words_concat(base + w + r + ss + h, xa, dev);
    lemma_mount_words_concat(base + w + r + ss + h + xa, g, dev);
    lemma_mount_words_concat(base + w + r + ss + h + xa + g, a, dev);
    lemma_mount_words_concat(base + w + r + ss + h + xa + g + a, shm, dev);
    assert(o.drop_last() =~= base + w + r + ss + h + xa + g + a + shm);
}

/// No character of `w` is a slash.
pub open spec fn no_slash(w: Seq<char>) -> bool {
    forall|k: int| 0 <= k < w.len() ==> w[k] != '/'
}

/// No path the library is told of is the word `w`: no canonical form, and
/// not the runtime directory that `XDG_RUNTIME_DIR` gives.
pub open spec fn host_words_avoid(host: LinuxHost, w: Seq<char>) -> bool {
    &&& forall|i: int| 0 <= i < host.paths@.len() ==> #[trigger] host.paths@[i].canonical@ != w
    &&& (host.xdg_runtime_env is Some && host.xdg_runtime_env.unwrap()@.len() > 0 ==> host.xdg_runtime_env.unwrap()@ != w)
}

/// The word `w` is not in `s`.
pub open spec fn avoids(s: Seq<Seq<char>>, w: Seq<char>) -> bool {
    forall|i: int| 0 <= i < s.len() ==> #[trigger] s[i] != w
}

/// The fixed words of the mounts that are flags or `0000`.
pub open spec fn mount_literal(w: Seq<char>) -> bool {
    ||| w == "--unshare-pid"@ || w == "--unshare-ipc"@ || w == "--die-with-parent"@
    ||| w == "--ro-bind"@ || w == "--dev"@ || w == "--proc"@ || w == "--tmpfs"@
    ||| w == "--perms"@ || w == "--remount-ro"@ || w == "0000"@
}

/// `w` is none of the fixed words of the base, read-only and hiding mounts
/// other than `--bind`.
pub open spec fn fixed_free(w: Seq<char>) -> bool {
    &&& !mount_literal(w)
    &&& w != "/"@ && w != "/dev"@ && w != "/proc"@ && w != "/tmp"@ && w != "/run"@ && w != "/dev/null"@
    &&& !(w.len() > 1 && w[0] == '/' && w[1] == 'r')
}

/// What tells the fixed words of a command line apart.
proof fn lemma_word_facts()
    ensures
        "--unshare-pid"@.len() == 13 && "--unshare-pid"@[0] == '-' && "--unshare-pid"@[2] == 'u' && "--unshare-pid"@[10] == 'p',
        "--unshare-ipc"@.len() == 13 && "--unshare-ipc"@[0] == '-' && "--unshare-ipc"@[2] == 'u' && "--unshare-ipc"@[10] == 'i',
        "--die-with-parent"@.len() == 17 && "--die-with-parent"@[0] == '-',
        "--ro-bind"@.len() == 9 && "--ro-bind"@[0] == '-' && "--ro-bind"@[2] == 'r',
        "--dev"@.len() == 5 && "--dev"@[0] == '-',
        "--proc"@.len() == 6 && "--proc"@[0] == '-' && "--proc"@[2] == 'p',
        "--tmpfs"@.len() == 7 && "--tmpfs"@[0] == '-' && "--tmpfs"@[2] == 't',
        "--perms"@.len() == 7 && "--perms"@[0] == '-' && "--perms"@[2] == 'p',
        "--remount-ro"@.len() == 12 && "--remount-ro"@[0] == '-',
        "0000"@.len() == 4 && "0000"@[0] == '0',
        "--bind"@.len() == 6 && "--bind"@[0] == '-' && "--bind"@[2] == 'b',
        "--dev-bind"@.len() == 10 && "--dev-bind"@[0] == '-' && "--dev-bind"@[2] == 'd',
        "--share-net"@.len() == 11 && "--share-net"@[0] == '-' && "--share-net"@[2] == 's',
        "--unshare-net"@.len() == 13 && "--unshare-net"@[0] == '-' && "--unshare-net"@[2] == 'u' && "--unshare-net"@[10] == 'n',
        "--new-session"@.len() == 13 && "--new-session"@[0] == '-' && "--new-session"@[2] == 'n',
        "/"@.len() == 1 && "/"@[0] == '/',
        "/dev"@.len() == 4 && "/dev"@[0] == '/',
        "/proc"@.len() == 5 && "/proc"@[0] == '/',
        "/tmp"@.len() == 4 && "/tmp"@[0] == '/',
        "/run"@.len() == 4 && "/run"@[0] == '/',
        "/run/user/"@.len() == 10 && "/run/user/"@[0] == '/' && "/run/user/"@[1] == 'r',
        "/dev/null"@.len() == 9 && "/dev/null"@[0] == '/',
        "/dev/dri"@.len() == 8 && "/dev/dri"@[0] == '/' && "/dev/dri"@[1] == 'd' && "/dev/dri"@[5] == 'd',
        "/dev/snd"@.len() == 8 && "/dev/snd"@[0] == '/' && "/dev/snd"@[1] == 'd' && "/dev/snd"@[5] == 's' && "/dev/snd"@[6] == 'n',
        "/tmp/.X11-unix"@.len() == 14 && "/tmp/.X11-unix"@[0] == '/',
        "/dev/shm"@.len() == 8 && "/dev/shm"@[0] == '/' && "/dev/shm"@[5] == 's' && "/dev/shm"@[6] == 'h',
        "wayland-"@.len() == 8 && "wayland-"@[0] == 'w',
        "pipewire-"@.len() == 9 && "pipewire-"@[0] == 'p',
        "pulse/native"@.len() == 12 && "pulse/native"@[0] == 'p',
        no_slash("--bind"@),
        no_slash("--dev-bind"@),
        no_slash("--share-net"@),
        no_slash("--unshare-net"@),
        no_slash("--new-session"@),
{
    reveal_strlit("--unshare-pid");
    reveal_strlit("--unshare-ipc");
    reveal_strlit("--die-with-parent");
    reveal_strlit("--ro-bind");
    reveal_strlit("--dev");
    reveal_strlit("--proc");
    reveal_strlit("--tmpfs");
    reveal_strlit("--perms");
    reveal_strlit("--remount-ro");
    reveal_strlit("0000");
    reveal_strlit("--bind");
    reveal_strlit("--dev-bind");
    reveal_strlit("--share-net");
    reveal_strlit("--unshare-net");
    reveal_strlit("--new-session");
    reveal_strlit("/");
    reveal_strlit("/dev");
    reveal_strlit("/proc");
    reveal_strlit("/tmp");
    reveal_strlit("/run");
    reveal_strlit("/run/user/");
    reveal_strlit("/dev/null");
    reveal_strlit("/dev/dri");
    reveal_strlit("/dev/snd");
    reveal_strlit("/tmp/.X11-unix");
    reveal_strlit("/dev/shm");
    reveal_strlit("wayland-");
    reveal_strlit("pipewire-");
    reveal_strlit("pulse/native");
}

proof fn lemma_avoids_concat(a: Seq<Seq<char>>, b: Seq<Seq<char>>, w: Seq<char>)
    requires
        avoids(a, w),
        avoids(b, w),
    ensures
        avoids(a + b, w),
{
    assert forall|i: int| 0 <= i < (a + b).len() implies #[trigger] (a + b)[i] != w by {
        if i < a.len() {
            assert((a + b)[i] == a[i]);
        } else {
            assert((a + b)[i] == b[i - a.len()]);
        }
    }
}

proof fn lemma_fact_avoids(host: LinuxHost, p: Seq<char>, w: Seq<char>)
    requires
        host_words_avoid(host, w),
    ensures
        fact_of(host.paths@, p) matches Some(f) ==> f.canonical@ != w,
{
    lemma_fact_of_member(host.paths@, p);
    if let Some(f) = fact_of(host.paths@, p) {
        let i = choose|i: int| 0 <= i < host.paths@.len() && host.paths@[i] == f;
        assert(host.paths@[i].canonical@ != w);
    }
}

/// A joined path has a slash, so it is no word without one.
proof fn lemma_join_not(dir: Seq<char>, x: Seq<char>, w: Seq<char>)
    requires
        dir.len() > 0,
        no_slash(w),
    ensures
        path_join(dir, x) != w,
{
    let j = path_join(dir, x);
    if j == w {
        if is_absolute(x) {
            assert(j[0] == '/');
        } else if dir.last() != '/' {
            assert(j[dir.len() as int] == '/');
        } else {
            assert(j[dir.len() - 1] == '/');
        }
    }
}

proof fn lemma_bind_avoids(flag: Seq<char>, paths: Seq<Seq<char>>, host: LinuxHost, w: Seq<char>)
    requires
        host_words_avoid(host, w),
        flag != w,
    ensures
        avoids(bind_args(flag, paths, host.paths@), w),
    decreases paths.len(),
{
    if paths.len() > 0 {
        lemma_bind_avoids(flag, paths.drop_last(), host, w);
        lemma_fact_avoids(host, paths.last(), w);
        let tail = match fact_of(host.paths@, paths.last()) {
            Some(f) => seq![flag, f.canonical@, f.canonical@],
            None => Seq::<Seq<char>>::empty(),
        };
        assert(avoids(tail, w));
        lemma_avoids_concat(bind_args(flag, paths.drop_last(), host.paths@), tail, w);
    }
}

proof fn lemma_hide_avoids(paths: Seq<Seq<char>>, host: LinuxHost, w: Seq<char>)
    requires
        host_words_avoid(host, w),
        fixed_free(w),
    ensures
        avoids(hide_args(paths, host.paths@), w),
    decreases paths.len(),
{
    lemma_word_facts();
    if paths.len() > 0 {
        lemma_hide_avoids(paths.drop_last(), host, w);
        lemma_fact_avoids(host, paths.last(), w);
        let tail = match fact_of(host.paths@, paths.last()) {
            Some(f) => hide_run(f),
            None => Seq::<Seq<char>>::empty(),
        };
        assert(avoids(tail, w));
        lemma_avoids_concat(hide_args(paths.drop_last(), host.paths@), tail, w);
    }
}

proof fn lemma_socket_avoids(dir: Seq<char>, names: Seq<String>, prefix: Seq<char>, w: Seq<char>)
    requires
        dir.len() > 0,
        no_slash(w),
        w != "--ro-bind"@,
    ensures
        avoids(socket_args(dir, names, prefix), w),
    decreases names.len(),
{
    if names.len() > 0 {
        lemma_socket_avoids(dir, names.drop_last(), prefix, w);
        let name = names.last()@;
        lemma_join_not(dir, name, w);
        let tail = if prefix.len() <= name.len() && name.take(prefix.len() as int) == prefix {
            seq!["--ro-bind"@, path_join(dir, name), path_join(dir, name)]
        } else {
            Seq::<Seq<char>>::empty()
        };
        assert(avoids(tail, w));
        lemma_avoids_concat(socket_args(dir, names.drop_last(), prefix), tail, w);
    }
}

/// The runtime directory is not empty, and is `w` only where `XDG_RUNTIME_DIR` says so.
proof fn lemma_xdg_avoids(host: LinuxHost, w: Seq<char>)
    requires
        host_words_avoid(host, w),
        !(w.len() > 1 && w[0] == '/' && w[1] == 'r'),
    ensures
        xdg_runtime_dir_spec(host.xdg_runtime_env, host.uid).len() > 0,
        xdg_runtime_dir_spec(host.xdg_runtime_env, host.uid) != w,
{
    lemma_word_facts();
    let xdg = xdg_runtime_dir_spec(host.xdg_runtime_env, host.uid);
    if !(host.xdg_runtime_env is Some && host.xdg_runtime_env.unwrap()@.len() > 0) {
        assert(xdg[0] == "/run/user/"@[0]);
        assert(xdg[1] == "/run/user/"@[1]);
    }
}

/// The segments of the command line before the GUI and audio mounts avoid
/// `w`, when `w` is a flag that none of them uses and no path is `w`.
proof fn lemma_mounts_avoid(p: PolicyView, session_tmpdir: Seq<char>, block_xauth: Option<Seq<char>>, host: LinuxHost, w: Seq<char>)
    requires
        host_words_avoid(host, w),
        fixed_free(w),
        w != "--bind"@,
    ensures
        ({
            let xdg = xdg_runtime_dir_spec(host.xdg_runtime_env, host.uid);
            let facts = host.paths@;
            avoids(
                base_args(xdg)
                    + bind_args("--bind"@, p.writable_roots, facts)
                    + bind_args("--ro-bind"@, p.write_restricted_paths, facts)
                    + bind_args("--bind"@, seq![session_tmpdir], facts)
                    + hide_args(p.read_restricted_paths, facts)
                    + match block_xauth {
                        Some(x) => match fact_of(facts, x) {
                            Some(f) => seq!["--ro-bind"@, "/dev/null"@, f.canonical@],
                            None => Seq::empty(),
                        },
                        None => Seq::empty(),
                    },
                w,
            )
        }),
{
    lemma_word_facts();
    let xdg = xdg_runtime_dir_spec(host.xdg_runtime_env, host.uid);
    let facts = host.paths@;
    lemma_xdg_avoids(host, w);
    let base = base_args(xdg);
    assert(avoids(base, w));
    let wr = bind_args("--bind"@, p.writable_roots, facts);
    let r = bind_args("--ro-bind"@, p.write_restricted_paths, facts);
    let ss = bind_args("--bind"@, seq![session_tmpdir], facts);
    let h = hide_args(p.read_restricted_paths, facts);
    lemma_bind_avoids("--bind"@, p.writable_roots, host, w);
    lemma_bind_avoids("--ro-bind"@, p.write_restricted_paths, host, w);
    lemma_bind_avoids("--bind"@, seq![session_tmpdir], host, w);
    lemma_hide_avoids(p.read_restricted_paths, host, w);
    let xa = match block_xauth {
        Some(x) => match fact_of(facts, x) {
            Some(f) => seq!["--ro-bind"@, "/dev/null"@, f.canonical@],
            None => Seq::<Seq<char>>::empty(),
        },
        None => Seq::<Seq<char>>::empty(),
    };
    if let Some(x) = block_xauth {
        lemma_fact_avoids(host, x, w);
    }
    assert(avoids(xa, w));
    lemma_avoids_concat(base, wr, w);
    lemma_avoids_concat(base + wr, r, w);
    lemma_avoids_concat(base + wr + r, ss, w);
    lemma_avoids_concat(base + wr + r + ss, h, w);
    lemma_avoids_concat(base + wr + r + ss + h, xa, w);
}

/// The GUI and audio mounts avoid a flag that they do not use.
proof fn lemma_devices_avoid(p: PolicyView, host: LinuxHost, xdg: Seq<char>, w: Seq<char>)
    requires
        xdg.len() > 0,
        no_slash(w),
        w.len() > 0 && w[0] == '-',
        w != "--ro-bind"@,
        w != "--dev-bind"@,
    ensures
        avoids(gui_args(p, host, xdg), w),
        avoids(audio_args(p, host, xdg), w),
{
    lemma_word_facts();
    lemma_socket_avoids(xdg, host.runtime_entries@, "wayland-"@, w);
    lemma_socket_avoids(xdg, host.runtime_entries@, "pipewire-"@, w);
    if p.enable_gui == Some(true) {
        let d = if host.dev_dri { seq!["--dev-bind"@, "/dev/dri"@, "/dev/dri"@] } else { Seq::<Seq<char>>::empty() };
        let x = if host.tmp_x11_unix { seq!["--ro-bind"@, "/tmp/.X11-unix"@, "/tmp/.X11-unix"@] } else { Seq::<Seq<char>>::empty() };
        assert(avoids(d, w));
        assert(avoids(x, w));
        lemma_avoids_concat(d, socket_args(xdg, host.runtime_entries@, "wayland-"@), w);
        lemma_avoids_concat(d + socket_args(xdg, host.runtime_entries@, "wayland-"@), x, w);
    }
    if p.enable_audio == Some(true) {
        let d = if host.dev_snd { seq!["--dev-bind"@, "/dev/snd"@, "/dev/snd"@] } else { Seq::<Seq<char>>::empty() };
        lemma_join_not(xdg, "pulse/native"@, w);
        let pa = if host.pulse_native {
            seq!["--ro-bind"@, path_join(xdg, "pulse/native"@), path_join(xdg, "pulse/native"@)]
        } else {
            Seq::<Seq<char>>::empty()
        };
        assert(avoids(d, w));
        assert(avoids(pa, w));
        lemma_avoids_concat(d, pa, w);
        lemma_avoids_concat(d + pa, socket_args(xdg, host.runtime_entries@, "pipewire-"@), w);
    }
}

proof fn lemma_options_avoid(
    m: Seq<Seq<char>>,
    g: Seq<Seq<char>>,
    a: Seq<Seq<char>>,
    shm: Seq<Seq<char>>,
    net: Seq<Seq<char>>,
    w: Seq<char>,
)
    requires
        avoids(m, w),
        avoids(g, w),
        avoids(a, w),
        avoids(shm, w),
        avoids(net, w),
    ensures
        !(m + g + a + shm + net).contains(w),
{
    lemma_avoids_concat(m, g, w);
    lemma_avoids_concat(m + g, a, w);
    lemma_avoids_concat(m + g + a, shm, w);
    lemma_avoids_concat(m + g + a + shm, net, w);
}

/// The network switch is the only one: with no network the command line
/// never shares the host network, and with localhost or full network it never
/// unshares it; without GUI and audio nothing is device-bound; and it never
/// detaches the terminal with `--new-session`. This holds unless a path the
/// library is told of is itself one of these words.
pub proof fn law_network_switch_alone(p: PolicyView, session_tmpdir: Seq<char>, block_xauth: Option<Seq<char>>, host: LinuxHost)
    requires
        host_words_avoid(host, "--share-net"@),
        host_words_avoid(host, "--unshare-net"@),
        host_words_avoid(host, "--new-session"@),
        host_words_avoid(host, "--dev-bind"@),
    ensures
        ({
            let o = bwrap_options_spec(p, session_tmpdir, block_xauth, host);
            &&& !(p.network == Some(NetworkPolicy::Full) || p.network == Some(NetworkPolicy::Localhost))
                ==> !o.contains("--share-net"@)
            &&& (p.network == Some(NetworkPolicy::Full) || p.network == Some(NetworkPolicy::Localhost))
                ==> !o.contains("--unshare-net"@)
            &&& !(p.enable_gui == Some(true) || p.enable_audio == Some(true)) ==> !o.contains("--dev-bind"@)
            &&& !o.contains("--new-session"@)
        }),
{
    lemma_word_facts();
    let dev = p.enable_gui == Some(true) || p.enable_audio == Some(true);
    let o = bwrap_options_spec(p, session_tmpdir, block_xauth, host);
    let xdg = xdg_runtime_dir_spec(host.xdg_runtime_env, host.uid);
    let facts = host.paths@;
    let m = base_args(xdg)
        + bind_args("--bind"@, p.writable_roots, facts)
        + bind_args("--ro-bind"@, p.write_restricted_paths, facts)
        + bind_args("--bind"@, seq![session_tmpdir], facts)
        + hide_args(p.read_restricted_paths, facts)
        + match block_xauth {
            Some(x) => match fact_of(facts, x) {
                Some(f) => seq!["--ro-bind"@, "/dev/null"@, f.canonical@],
                None => Seq::<Seq<char>>::empty(),
            },
            None => Seq::<Seq<char>>::empty(),
        };
    let g = gui_args(p, host, xdg);
    let a = audio_args(p, host, xdg);
    let shm = seq!["--tmpfs"@, "/dev/shm"@];
    assert(o =~= m + g + a + shm + seq![net_arg(p.network)]);
    lemma_xdg_avoids(host, "--new-session"@);
    lemma_mounts_avoid(p, session_tmpdir, block_xauth, host, "--share-net"@);
    lemma_mounts_avoid(p, session_tmpdir, block_xauth, host, "--unshare-net"@);
    lemma_mounts_avoid(p, session_tmpdir, block_xauth, host, "--new-session"@);
    lemma_mounts_avoid(p, session_tmpdir, block_xauth, host, "--dev-bind"@);
    lemma_devices_avoid(p, host, xdg, "--share-net"@);
    lemma_devices_avoid(p, host, xdg, "--unshare-net"@);
    lemma_devices_avoid(p, host, xdg, "--new-session"@);
    if !dev {
        assert(g =~= Seq::<Seq<char>>::empty());
        assert(a =~= Seq::<Seq<char>>::empty());
        assert(avoids(g, "--dev-bind"@));
        assert(avoids(a, "--dev-bind"@));
    }
    let net = seq![net_arg(p.network)];
    let shared = p.network == Some(NetworkPolicy::Full) || p.network == Some(NetworkPolicy::Localhost);
    lemma_options_avoid(m, g, a, shm, net, "--new-session"@);
    if !shared {
        lemma_options_avoid(m, g, a, shm, net, "--share-net"@);
    } else {
        lemma_options_avoid(m, g, a, shm, net, "--unshare-net"@);
    }
    if !dev {
        lemma_options_avoid(m, g, a, shm, net, "--dev-bind"@);
    }
}

/// `w` is the canonical form of a writable root or of the session directory.
pub open spec fn writable_canonical(p: PolicyView, session_tmpdir: Seq<char>, facts: Seq<PathFact>, w: Seq<char>) -> bool {
    exists|q: Seq<char>|
        #![trigger fact_of(facts, q)]
        (p.writable_roots.contains(q) || q == session_tmpdir) && fact_of(facts, q) is Some
            && fact_of(facts, q).unwrap().canonical@ == w
}

/// Every `--bind` in `s` is followed twice by the same word, the canonical
/// form of a writable root or of the session directory.
pub open spec fn binds_writable(s: Seq<Seq<char>>, p: PolicyView, session_tmpdir: Seq<char>, facts: Seq<PathFact>) -> bool {
    forall|i: int|
        0 <= i < s.len() && #[trigger] s[i] == "--bind"@ ==> i + 2 < s.len() && s[i + 1] == s[i + 2]
            && writable_canonical(p, session_tmpdir, facts, s[i + 1])
}

proof fn lemma_binds_concat(a: Seq<Seq<char>>, b: Seq<Seq<char>>, p: PolicyView, session_tmpdir: Seq<char>, facts: Seq<PathFact>)
    requires
        binds_writable(a, p, session_tmpdir, facts),
        binds_writable(b, p, session_tmpdir, facts),
    ensures
        binds_writable(a + b, p, session_tmpdir, facts),
{
    let s = a + b;
    assert forall|i: int| 0 <= i < s.len() && #[trigger] s[i] == "--bind"@ implies i + 2 < s.len() && s[i + 1] == s[i + 2]
        && writable_canonical(p, session_tmpdir, facts, s[i + 1]) by {
        if i < a.len() {
            assert(s[i] == a[i]);
            assert(s[i + 1] == a[i + 1]);
            assert(s[i + 2] == a[i + 2]);
        } else {
            let k = i - a.len();
            assert(s[i] == b[k]);
            assert(s[i + 1] == b[k + 1]);
            assert(s[i + 2] == b[k + 2]);
        }
    }
}

proof fn lemma_avoids_binds(s: Seq<Seq<char>>, p: PolicyView, session_tmpdir: Seq<char>, facts: Seq<PathFact>)
    requires
        avoids(s, "--bind"@),
    ensures
        binds_writable(s, p, session_tmpdir, facts),
{
}

proof fn lemma_bind_run_binds(paths: Seq<Seq<char>>, host: LinuxHost, p: PolicyView, session_tmpdir: Seq<char>)
    requires
        host_words_avoid(host, "--bind"@),
        forall|k: int| 0 <= k < paths.len() ==> p.writable_roots.contains(#[trigger] paths[k]) || paths[k] == session_tmpdir,
    ensures
        binds_writable(bind_args("--bind"@, paths, host.paths@), p, session_tmpdir, host.paths@),
    decreases paths.len(),
{
    let facts = host.paths@;
    if paths.len() > 0 {
        let q = paths.last();
        assert forall|k: int| 0 <= k < paths.drop_last().len() implies p.writable_roots.contains(#[trigger] paths.drop_last()[k])
            || paths.drop_last()[k] == session_tmpdir by {
            assert(paths.drop_last()[k] == paths[k]);
        }
        lemma_bind_run_binds(paths.drop_last(), host, p, session_tmpdir);
        lemma_fact_avoids(host, q, "--bind"@);
        let tail = match fact_of(facts, q) {
            Some(f) => seq!["--bind"@, f.canonical@, f.canonical@],
            None => Seq::<Seq<char>>::empty(),
        };
        if let Some(f) = fact_of(facts, q) {
            assert(p.writable_roots.contains(paths[paths.len() - 1]) || paths[paths.len() - 1] == session_tmpdir);
            assert(fact_of(facts, q) is Some && fact_of(facts, q).unwrap().canonical@ == f.canonical@);
            assert(writable_canonical(p, session_tmpdir, facts, f.canonical@));
            assert(tail[1] == f.canonical@ && tail[2] == f.canonical@);
        }
        assert(binds_writable(tail, p, session_tmpdir, facts));
        lemma_binds_concat(bind_args("--bind"@, paths.drop_last(), facts), tail, p, session_tmpdir, facts);
    }
}

/// Every `--bind` of a bubblewrap command line is followed twice by the
/// same canonical path, that of a writable root or of the session directory:
/// nothing else is mounted read-write. This holds unless a path the library
/// is told of is itself `--bind`.
pub proof fn law_bind_targets(p: PolicyView, session_tmpdir: Seq<char>, block_xauth: Option<Seq<char>>, host: LinuxHost)
    requires
        host_words_avoid(host, "--bind"@),
    ensures
        binds_writable(bwrap_options_spec(p, session_tmpdir, block_xauth, host), p, session_tmpdir, host.paths@),
{
    lemma_word_facts();
    let w = "--bind"@;
    let o = bwrap_options_spec(p, session_tmpdir, block_xauth, host);
    let xdg = xdg_runtime_dir_spec(host.xdg_runtime_env, host.uid);
    let facts = host.paths@;
    lemma_xdg_avoids(host, w);
    let base = base_args(xdg);
    assert(avoids(base, w));
    let wr = bind_args("--bind"@, p.writable_roots, facts);
    let r = bind_args("--ro-bind"@, p.write_restricted_paths, facts);
    let ss = bind_args("--bind"@, seq![session_tmpdir], facts);
    let h = hide_args(p.read_restricted_paths, facts);
    lemma_bind_run_binds(p.writable_roots, host, p, session_tmpdir);
    assert forall|k: int| 0 <= k < seq![session_tmpdir].len() implies p.writable_roots.contains(#[trigger] seq![session_tmpdir][k])
        || seq![session_tmpdir][k] == session_tmpdir by {}
    lemma_bind_run_binds(seq![session_tmpdir], host, p, session_tmpdir);
    lemma_bind_avoids("--ro-bind"@, p.write_restricted_paths, host, w);
    lemma_hide_avoids(p.read_restricted_paths, host, w);
    let xa = match block_xauth {
        Some(x) => match fact_of(facts, x) {
            Some(f) => seq!["--ro-bind"@, "/dev/null"@, f.canonical@],
            None => Seq::<Seq<char>>::empty(),
        },
        None => Seq::<Seq<char>>::empty(),
    };
    if let Some(x) = block_xauth {
        lemma_fact_avoids(host, x, w);
    }
    assert(avoids(xa, w));
    let g = gui_args(p, host, xdg);
    let a = audio_args(p, host, xdg);
    lemma_devices_avoid(p, host, xdg, w);
    let shm = seq!["--tmpfs"@, "/dev/shm"@];
    let net = seq![net_arg(p.network)];
    assert(avoids(shm, w));
    assert(avoids(net, w));
    lemma_avoids_binds(base, p, session_tmpdir, facts);
    lemma_avoids_binds(r, p, session_tmpdir, facts);
    lemma_avoids_binds(h, p, session_tmpdir, facts);
    lemma_avoids_binds(xa, p, session_tmpdir, facts);
    lemma_avoids_binds(g, p, session_tmpdir, facts);
    lemma_avoids_binds(a, p, session_tmpdir, facts);
    lemma_avoids_binds(shm, p, session_tmpdir, facts);
    lemma_avoids_binds(net, p, session_tmpdir, facts);
    lemma_binds_concat(base, wr, p, session_tmpdir, facts);
    lemma_binds_concat(base + wr, r, p, session_tmpdir, facts);
    lemma_binds_concat(base + wr + r, ss, p, session_tmpdir, facts);
    lemma_binds_concat(base + wr + r + ss, h, p, session_tmpdir, facts);
    lemma_binds_concat(base + wr + r + ss + h, xa, p, session_tmpdir, facts);
    lemma_binds_concat(base + wr + r + ss + h + xa, g, p, session_tmpdir, facts);
    lemma_binds_concat(base + wr + r + ss + h + xa + g, a, p, session_tmpdir, facts);
    lemma_binds_concat(base + wr + r + ss + h + xa + g + a, shm, p, session_tmpdir, facts);
    lemma_binds_concat(base + wr + r + ss + h + xa + g + a + shm, net, p, session_tmpdir, facts);
    assert(o =~= base + wr + r + ss + h + xa + g + a + shm + net);
}

proof fn lemma_join_longer(dir: Seq<char>, x: Seq<char>)
    requires
        dir.len() > 0,
        x.len() > 0 && x[0] != '/',
    ensures
        path_join(dir, x).len() > x.len(),
{
}

/// Socket mounts avoid a word no longer than their prefix.
proof fn lemma_socket_avoids_short(dir: Seq<char>, names: Seq<String>, prefix: Seq<char>, w: Seq<char>)
    requires
        dir.len() > 0,
        prefix.len() > 0 && prefix[0] != '/',
        w.len() <= prefix.len(),
        w != "--ro-bind"@,
    ensures
        avoids(socket_args(dir, names, prefix), w),
    decreases names.len(),
{
    if names.len() > 0 {
        lemma_socket_avoids_short(dir, names.drop_last(), prefix, w);
        let name = names.last()@;
        let tail = if prefix.len() <= name.len() && name.take(prefix.len() as int) == prefix {
            assert(name[0] == name.take(prefix.len() as int)[0]);
            lemma_join_longer(dir, name);
            seq!["--ro-bind"@, path_join(dir, name), path_join(dir, name)]
        } else {
            Seq::<Seq<char>>::empty()
        };
        assert(avoids(tail, w));
        lemma_avoids_concat(socket_args(dir, names.drop_last(), prefix), tail, w);
    }
}

proof fn lemma_gui_avoids_short(p: PolicyView, host: LinuxHost, xdg: Seq<char>, w: Seq<char>)
    requires
        xdg.len() > 0,
        w.len() <= 8,
        w != "--dev-bind"@ && w != "/dev/dri"@ && w != "--ro-bind"@ && w != "/tmp/.X11-unix"@,
    ensures
        avoids(gui_args(p, host, xdg), w),
{
    lemma_word_facts();
    if p.enable_gui == Some(true) {
        lemma_socket_avoids_short(xdg, host.runtime_entries@, "wayland-"@, w);
        let d = if host.dev_dri { seq!["--dev-bind"@, "/dev/dri"@, "/dev/dri"@] } else { Seq::<Seq<char>>::empty() };
        let x = if host.tmp_x11_unix { seq!["--ro-bind"@, "/tmp/.X11-unix"@, "/tmp/.X11-unix"@] } else { Seq::<Seq<char>>::empty() };
        assert(avoids(d, w));
        assert(avoids(x, w));
        lemma_avoids_concat(d, socket_args(xdg, host.runtime_entries@, "wayland-"@), w);
        lemma_avoids_concat(d + socket_args(xdg, host.runtime_entries@, "wayland-"@), x, w);
    }
}

proof fn lemma_audio_avoids_short(p: PolicyView, host: LinuxHost, xdg: Seq<char>, w: Seq<char>)
    requires
        xdg.len() > 0,
        w.len() <= 8,
        w != "--dev-bind"@ && w != "/dev/snd"@ && w != "--ro-bind"@,
    ensures
        avoids(audio_args(p, host, xdg), w),
{
    lemma_word_facts();
    if p.enable_audio == Some(true) {
        lemma_socket_avoids_short(xdg, host.runtime_entries@, "pipewire-"@, w);
        let d = if host.dev_snd { seq!["--dev-bind"@, "/dev/snd"@, "/dev/snd"@] } else { Seq::<Seq<char>>::empty() };
        lemma_join_longer(xdg, "pulse/native"@);
        let pa = if host.pulse_native {
            seq!["--ro-bind"@, path_join(xdg, "pulse/native"@), path_join(xdg, "pulse/native"@)]
        } else {
            Seq::<Seq<char>>::empty()
        };
        assert(avoids(d, w));
        assert(avoids(pa, w));
        lemma_avoids_concat(d, pa, w);
        lemma_avoids_concat(d + pa, socket_args(xdg, host.runtime_entries@, "pipewire-"@), w);
    }
}

/// GPU devices are mounted only with the GUI on, and sound devices only with
/// audio on. This holds unless a path the library is told of is itself
/// `/dev/dri` or `/dev/snd`.
pub proof fn law_devices_follow_switches(p: PolicyView, session_tmpdir: Seq<char>, block_xauth: Option<Seq<char>>, host: LinuxHost)
    requires
        host_words_avoid(host, "/dev/dri"@),
        host_words_avoid(host, "/dev/snd"@),
    ensures
        ({
            let o = bwrap_options_spec(p, session_tmpdir, block_xauth, host);
            &&& o.contains("/dev/dri"@) ==> p.enable_gui == Some(true)
            &&& o.contains("/dev/snd"@) ==> p.enable_audio == Some(true)
        }),
{
    lemma_word_facts();
    let o = bwrap_options_spec(p, session_tmpdir, block_xauth, host);
    let xdg = xdg_runtime_dir_spec(host.xdg_runtime_env, host.uid);
    let facts = host.paths@;
    let m = base_args(xdg)
        + bind_args("--bind"@, p.writable_roots, facts)
        + bind_args("--ro-bind"@, p.write_restricted_paths, facts)
        + bind_args("--bind"@, seq![session_tmpdir], facts)
        + hide_args(p.read_restricted_paths, facts)
        + match block_xauth {
            Some(x) => match fact_of(facts, x) {
                Some(f) => seq!["--ro-bind"@, "/dev/null"@, f.canonical@],
                None => Seq::<Seq<char>>::empty(),
            },
            None => Seq::<Seq<char>>::empty(),
        };
    let g = gui_args(p, host, xdg);
    let a = audio_args(p, host, xdg);
    let shm = seq!["--tmpfs"@, "/dev/shm"@];
    let net = seq![net_arg(p.network)];
    assert(o =~= m + g + a + shm + net);
    lemma_xdg_avoids(host, "/dev/dri"@);
    assert(avoids(shm, "/dev/dri"@));
    assert(avoids(shm, "/dev/snd"@));
    assert(avoids(net, "/dev/dri"@));
    assert(avoids(net, "/dev/snd"@));
    if p.enable_gui != Some(true) {
        lemma_mounts_avoid(p, session_tmpdir, block_xauth, host, "/dev/dri"@);
        assert(g =~= Seq::<Seq<char>>::empty());
        assert(avoids(g, "/dev/dri"@));
        lemma_audio_avoids_short(p, host, xdg, "/dev/dri"@);
        lemma_options_avoid(m, g, a, shm, net, "/dev/dri"@);
    }
    if p.enable_audio != Some(true) {
        lemma_mounts_avoid(p, session_tmpdir, block_xauth, host, "/dev/snd"@);
        assert(a =~= Seq::<Seq<char>>::empty());
        assert(avoids(a, "/dev/snd"@));
        lemma_gui_avoids_short(p, host, xdg, "/dev/snd"@);
        lemma_options_avoid(m, g, a, shm, net, "/dev/snd"@);
    }
}

proof fn lemma_allow_all_first(names: Seq<Seq<char>>, n: Seq<char>)
    ensures
        first_match(allow_all(names), n) is None || first_match(allow_all(names), n) == Some(FilterAction::Allow),
        names.contains(n) ==> first_match(allow_all(names), n) == Some(FilterAction::Allow),
    decreases names.len(),
{
    crate::glob::law_name_matches_itself(n);
    if names.len() > 0 {
        assert(allow_all(names).drop_first() =~= allow_all(names.drop_first()));
        assert(allow_all(names)[0] == (names[0], FilterAction::Allow));
        lemma_allow_all_first(names.drop_first(), n);
        if names.contains(n) && names[0] != n {
            let k = choose|k: int| 0 <= k < names.len() && names[k] == n;
            assert(names.drop_first()[k - 1] == n);
        }
    }
}

proof fn lemma_allow_all_concat(a: Seq<Seq<char>>, b: Seq<Seq<char>>)
    ensures
        allow_all(a) + allow_all(b) == allow_all(a + b),
{
    assert(allow_all(a) + allow_all(b) =~= allow_all(a + b));
}

/// The environment variables that GUI and audio need pass into the sandbox:
/// with the GUI on, `DISPLAY`, `WAYLAND_DISPLAY`, `XDG_RUNTIME_DIR`,
/// `XCURSOR_THEME` and `XCURSOR_SIZE` (and `XAUTHORITY` when no restricted
/// token replaces it and the policy does not set it); with audio on,
/// `PULSE_SERVER`, `PULSE_COOKIE`, `PIPEWIRE_REMOTE` and `XDG_RUNTIME_DIR` —
/// each unless the policy's own filters decide it first. Where they do,
/// their decision stands; with GUI and audio off, the policy's filtering is
/// unchanged. The policy's mode is kept.
pub proof fn law_device_variables_pass(
    p: PolicyView,
    display: Seq<char>,
    restricted_xauth: Option<String>,
    xauthority_env: Option<String>,
    home: Option<String>,
    session_tmpdir: Option<String>,
    xdg: Seq<char>,
    n: Seq<char>,
)
    ensures
        ({
            let e = sandbox_env_spec(p, display, restricted_xauth, xauthority_env, home, session_tmpdir, xdg).0;
            let base = policy_env_view(p);
            &&& (p.enable_gui == Some(true) && first_match(base.filters, n) is None && (n == "DISPLAY"@
                || n == "WAYLAND_DISPLAY"@ || n == "XDG_RUNTIME_DIR"@ || n == "XCURSOR_THEME"@ || n == "XCURSOR_SIZE"@))
                ==> env_admits(e, n)
            &&& (p.enable_gui == Some(true) && first_match(base.filters, n) is None && n == "XAUTHORITY"@
                && !base.set.contains_key("XAUTHORITY"@)
                && !(wants_restricted_xauth_spec(p, display) && restricted_xauth is Some)) ==> env_admits(e, n)
            &&& (p.enable_audio == Some(true) && first_match(base.filters, n) is None && (n == "PULSE_SERVER"@
                || n == "PULSE_COOKIE"@ || n == "PIPEWIRE_REMOTE"@ || n == "XDG_RUNTIME_DIR"@))
                ==> env_admits(e, n)
            &&& first_match(base.filters, n) is Some ==> env_admits(e, n) == env_admits(base, n)
            &&& (p.enable_gui != Some(true) && p.enable_audio != Some(true)) ==> env_admits(e, n) == env_admits(base, n)
            &&& e.mode == base.mode
        }),
{
    reveal_strlit("DISPLAY");
    reveal_strlit("WAYLAND_DISPLAY");
    reveal_strlit("XDG_RUNTIME_DIR");
    reveal_strlit("XCURSOR_THEME");
    reveal_strlit("XCURSOR_SIZE");
    reveal_strlit("XAUTHORITY");
    reveal_strlit("PULSE_SERVER");
    reveal_strlit("PULSE_COOKIE");
    reveal_strlit("PIPEWIRE_REMOTE");
    let base = policy_env_view(p);
    let gui = p.enable_gui == Some(true);
    let audio = p.enable_audio == Some(true);
    let token = wants_restricted_xauth_spec(p, display) && restricted_xauth is Some;
    let fallback = gui && !base.set.contains_key("XAUTHORITY"@) && !token;
    let g: Seq<Seq<char>> = if gui { gui_vars() } else { Seq::empty() };
    let x: Seq<Seq<char>> = if fallback { seq!["XAUTHORITY"@] } else { Seq::empty() };
    let a: Seq<Seq<char>> = if audio { audio_vars() } else { Seq::empty() };
    let e = sandbox_env_spec(p, display, restricted_xauth, xauthority_env, home, session_tmpdir, xdg).0;
    assert(allow_all(Seq::<Seq<char>>::empty()) =~= Seq::<(Seq<char>, FilterAction)>::empty());
    lemma_allow_all_concat(g, x);
    lemma_allow_all_concat(g + x, a);
    assert(e.filters =~= base.filters + allow_all(g) + allow_all(x) + allow_all(a));
    assert(base.filters + allow_all(g) + allow_all(x) + allow_all(a) =~= base.filters + allow_all(g + x + a));
    lemma_first_match_concat(base.filters, allow_all(g + x + a), n);
    lemma_allow_all_first(g + x + a, n);
    if gui && (n == "DISPLAY"@ || n == "WAYLAND_DISPLAY"@ || n == "XDG_RUNTIME_DIR"@ || n == "XCURSOR_THEME"@ || n == "XCURSOR_SIZE"@) {
        let k: int = if n == "DISPLAY"@ { 0 } else if n == "WAYLAND_DISPLAY"@ { 1 } else if n == "XDG_RUNTIME_DIR"@ { 2 }
            else if n == "XCURSOR_THEME"@ { 3 } else { 4 };
        assert((g + x + a)[k] == n);
    }
    if fallback && n == "XAUTHORITY"@ {
        assert((g + x + a)[g.len() as int] == n);
    }
    if audio && (n == "PULSE_SERVER"@ || n == "PULSE_COOKIE"@ || n == "PIPEWIRE_REMOTE"@ || n == "XDG_RUNTIME_DIR"@) {
        let k: int = if n == "PULSE_SERVER"@ { 0 } else if n == "PULSE_COOKIE"@ { 1 } else if n == "PIPEWIRE_REMOTE"@ { 2 } else { 3 };
        assert((g + x + a)[g.len() + x.len() + k] == n);
    }
    if !gui && !audio {
        assert(g + x + a =~= Seq::<Seq<char>>::empty());
    }
}

} // verus!
