//! The description of a sandbox on Windows.
use vstd::prelude::*;

use crate::policy::types::{NetworkPolicy, PolicyView, SandboxPolicy};
use crate::text::{owned, push_str, strs_view};

verus! {

/// What `format!("{:?}", items)` gives for a list of strings.
pub uninterp spec fn debug_list(items: Seq<Seq<char>>) -> Seq<char>;

/// A list of strings in `Debug` notation (`format!("{:?}", ..)`). Its result
/// is named by `debug_list` and not stated further.
#[verifier::external_body]
pub(crate) fn debug_strings(items: &Vec<String>) -> (res: String)
    ensures
        res@ == debug_list(strs_view(items@)),
{
    format!("{:?}", items)
}

/// The name of a network policy as it is shown to the user.
pub open spec fn network_name(n: NetworkPolicy) -> Seq<char> {
    match n {
        NetworkPolicy::Offline => "None"@,
        NetworkPolicy::Localhost => "Localhost"@,
        NetworkPolicy::Full => "Full"@,
    }
}

/// The name of a network policy as it is shown to the user (see [`network_name`]).
pub fn network_display(n: NetworkPolicy) -> (res: &'static str)
    ensures
        res@ == network_name(n),
{
    match n {
        NetworkPolicy::Offline => "None",
        NetworkPolicy::Localhost => "Localhost",
        NetworkPolicy::Full => "Full",
    }
}

/// The network policy in force for a policy view (none at all when unset).
pub open spec fn network_in_force(p: PolicyView) -> NetworkPolicy {
    match p.network {
        Some(n) => n,
        None => NetworkPolicy::Offline,
    }
}

/// A truth value as it is shown to the user.
pub open spec fn bool_text(b: bool) -> Seq<char> {
    if b { "true"@ } else { "false"@ }
}

fn bool_display(b: bool) -> (res: &'static str)
    ensures
        res@ == bool_text(b),
{
    if b { "true" } else { "false" }
}

/// One `  - <path>` line per path.
pub open spec fn item_lines(paths: Seq<Seq<char>>) -> Seq<char>
    decreases paths.len(),
{
    if paths.len() == 0 {
        Seq::empty()
    } else {
        item_lines(paths.drop_last()) + "  - "@ + paths.last() + "\n"@
    }
}

fn push_item_lines(out: &mut String, paths: &Vec<String>)
    ensures
        final(out)@ == old(out)@ + item_lines(strs_view(paths@)),
{
    let mut i: usize = 0;
    while i < paths.len()
        invariant
            i <= paths@.len(),
            out@ == old(out)@ + item_lines(strs_view(paths@.take(i as int))),
        decreases paths@.len() - i,
    {
        proof {
            assert(strs_view(paths@.take(i + 1)).drop_last() =~= strs_view(paths@.take(i as int)));
            assert(strs_view(paths@.take(i + 1)).last() == paths@[i as int]@);
        }
        push_str(out, "  - ");
        push_str(out, paths[i].as_str());
        push_str(out, "\n");
        proof {
            assert(out@ =~= old(out)@ + item_lines(strs_view(paths@.take(i + 1))));
        }
        i = i + 1;
    }
    proof {
        assert(paths@.take(paths@.len() as int) =~= paths@);
    }
}

/// The description of a sandbox on Windows, given the arguments already in
/// `Debug` notation.
pub open spec fn windows_config_spec(p: PolicyView, command: Seq<char>, args_debug: Seq<char>, session_tmpdir: Seq<char>) -> Seq<char> {
    "Windows Sandbox Configuration:\n"@
        + "================================\n\n"@
        + "Command: "@ + command + "\n"@
        + "Args: "@ + args_debug + "\n"@
        + "Session temp dir: "@ + session_tmpdir + "\n\n"@
        + "Network policy: "@ + network_name(network_in_force(p)) + "\n"@
        + "GUI enabled: "@ + bool_text(p.enable_gui == Some(true)) + " (inherent on Windows)\n"@
        + "Audio enabled: "@ + bool_text(p.enable_audio == Some(true)) + " (inherent on Windows)\n"@
        + "\nWritable roots:\n"@ + item_lines(p.writable_roots)
        + "\nWrite-restricted paths:\n"@ + item_lines(p.write_restricted_paths)
        + "\nRead-restricted paths:\n"@ + item_lines(p.read_restricted_paths)
        + "\n[Note: Windows sandbox uses restricted token + ACLs]\n"@
        + "[Note: GUI and audio access are inherent on Windows; no additional configuration needed]\n"@
}

/// The description of a sandbox on Windows (see [`windows_config_spec`]).
pub fn windows_sandbox_config_text(policy: &SandboxPolicy, command: &str, args_debug: &str, session_tmpdir: &str) -> (res: String)
    ensures
        res@ == windows_config_spec(policy@, command@, args_debug@, session_tmpdir@),
{
    let mut config = owned("Windows Sandbox Configuration:\n");
    push_str(&mut config, "================================\n\n");
    push_str(&mut config, "Command: ");
    push_str(&mut config, command);
    push_str(&mut config, "\n");
    push_str(&mut config, "Args: ");
    push_str(&mut config, args_debug);
    push_str(&mut config, "\n");
    push_str(&mut config, "Session temp dir: ");
    push_str(&mut config, session_tmpdir);
    push_str(&mut config, "\n\n");
    push_str(&mut config, "Network policy: ");
    push_str(&mut config, network_display(policy.network()));
    push_str(&mut config, "\n");
    push_str(&mut config, "GUI enabled: ");
    push_str(&mut config, bool_display(policy.enable_gui()));
    push_str(&mut config, " (inherent on Windows)\n");
    push_str(&mut config, "Audio enabled: ");
    push_str(&mut config, bool_display(policy.enable_audio()));
    push_str(&mut config, " (inherent on Windows)\n");
    push_str(&mut config, "\nWritable roots:\n");
    push_item_lines(&mut config, &policy.writable_roots);
    push_str(&mut config, "\nWrite-restricted paths:\n");
    push_item_lines(&mut config, &policy.write_restricted_paths);
    push_str(&mut config, "\nRead-restricted paths:\n");
    push_item_lines(&mut config, &policy.read_restricted_paths);
    push_str(&mut config, "\n[Note: Windows sandbox uses restricted token + ACLs]\n");
    push_str(&mut config, "[Note: GUI and audio access are inherent on Windows; no additional configuration needed]\n");
    proof {
        assert(config@ =~= windows_config_spec(policy@, command@, args_debug@, session_tmpdir@));
    }
    config
}

/// The description of a sandbox on Windows, shown on a dry run (see
/// [`windows_config_spec`]; the arguments appear in `Debug` notation).
pub fn generate_windows_sandbox_config(policy: &SandboxPolicy, command: &str, args: &Vec<String>, session_tmpdir: &str) -> (res: String)
    ensures
        res@ == windows_config_spec(policy@, command@, debug_list(strs_view(args@)), session_tmpdir@),
{
    let args_debug = debug_strings(args);
    windows_sandbox_config_text(policy, command, args_debug.as_str(), session_tmpdir)
}

} // verus!
