//! The Seatbelt profile of a sandbox on macOS.
use vstd::prelude::*;

use crate::paths::{join_path, path_join};
use crate::platform::{fact_of, find_fact, PathFact};
use crate::policy::types::{NetworkPolicy, PolicyView, SandboxPolicy};
use crate::text::{chars_of, hex_char, hex_digit, owned, push_char, push_str, strs_view};

verus! {

/// What `char::is_control` says: the character is in the Unicode general
/// category `Cc`, the code points U+0000 to U+001F and U+007F to U+009F.
pub open spec fn is_control(c: char) -> bool {
    (c as u32) < 0x20 || (0x7f <= (c as u32) && (c as u32) <= 0x9f)
}

/// The escape of one character in an SBPL string literal: backslash and
/// quote are escaped, newline, carriage return, tab and NUL get their C
/// escapes, other control characters `\xHH` (lower-case hex), and every
/// other character stands for itself.
pub open spec fn sbpl_escape_char(c: char) -> Seq<char> {
    if c == '\\' {
        seq!['\\', '\\']
    } else if c == '"' {
        seq!['\\', '"']
    } else if c == '\n' {
        seq!['\\', 'n']
    } else if c == '\r' {
        seq!['\\', 'r']
    } else if c == '\t' {
        seq!['\\', 't']
    } else if c == '\0' {
        seq!['\\', '0']
    } else if is_control(c) {
        seq!['\\', 'x', hex_char(((c as u32) / 16) as nat), hex_char(((c as u32) % 16) as nat)]
    } else {
        seq![c]
    }
}

/// A path escaped for an SBPL string literal, character by character.
pub open spec fn sbpl_escape(s: Seq<char>) -> Seq<char>
    decreases s.len(),
{
    if s.len() == 0 {
        Seq::empty()
    } else {
        sbpl_escape(s.drop_last()) + sbpl_escape_char(s.last())
    }
}

/// Escapes a path for an SBPL string literal (see [`sbpl_escape`]), so that
/// no crafted path name can end the literal and inject rules.
pub fn sbpl_escape_path(path: &str) -> (res: String)
    ensures
        res@ == sbpl_escape(path@),
{
    let cs = chars_of(path);
    let mut escaped = String::new();
    let mut i: usize = 0;
    while i < cs.len()
        invariant
            i <= cs@.len(),
            cs@ == path@,
            escaped@ == sbpl_escape(cs@.take(i as int)),
        decreases cs@.len() - i,
    {
        let c = cs[i];
        let ghost before = escaped@;
        proof {
            assert(cs@.take(i + 1).drop_last() =~= cs@.take(i as int));
        }
        if c == '\\' {
            push_char(&mut escaped, '\\');
            push_char(&mut escaped, '\\');
        } else if c == '"' {
            push_char(&mut escaped, '\\');
            push_char(&mut escaped, '"');
        } else if c == '\n' {
            push_char(&mut escaped, '\\');
            push_char(&mut escaped, 'n');
        } else if c == '\r' {
            push_char(&mut escaped, '\\');
            push_char(&mut escaped, 'r');
        } else if c == '\t' {
            push_char(&mut escaped, '\\');
            push_char(&mut escaped, 't');
        } else if c == '\0' {
            push_char(&mut escaped, '\\');
            push_char(&mut escaped, '0');
        } else if (c as u32) < 0x20 || (0x7f <= (c as u32) && (c as u32) <= 0x9f) {
            let v = c as u32;
            push_char(&mut escaped, '\\');
            push_char(&mut escaped, 'x');
            push_char(&mut escaped, hex_digit(v / 16));
            push_char(&mut escaped, hex_digit(v % 16));
        } else {
            push_char(&mut escaped, c);
        }
        proof {
            assert(escaped@ =~= before + sbpl_escape_char(c));
        }
        i = i + 1;
    }
    proof {
        assert(cs@.take(cs@.len() as int) =~= cs@);
    }
    escaped
}

/// No escaped path holds a control character (no raw newline, carriage
/// return or NUL can end a rule line), and every quote in it is escaped by
/// the backslash before it.
pub proof fn law_escape_is_inert(s: Seq<char>)
    ensures
        forall|i: int| 0 <= i < sbpl_escape(s).len() ==> !is_control(#[trigger] sbpl_escape(s)[i]),
        forall|i: int| 0 <= i < sbpl_escape(s).len() && #[trigger] sbpl_escape(s)[i] == '"' ==> i > 0 && sbpl_escape(s)[i - 1] == '\\',
    decreases s.len(),
{
    if s.len() > 0 {
        law_escape_is_inert(s.drop_last());
        let pre = sbpl_escape(s.drop_last());
        let u = sbpl_escape_char(s.last());
        assert(sbpl_escape(s) == pre + u);
        assert forall|i: int| 0 <= i < u.len() implies !is_control(#[trigger] u[i]) && (u[i] == '"' ==> i > 0 && u[i - 1] == '\\') by {
            let c = s.last();
            let v = c as u32;
            if is_control(c) && c != '\\' && c != '"' && c != '\n' && c != '\r' && c != '\t' && c != '\0' {
                assert(v / 16 < 16);
                assert(v % 16 < 16);
            }
        }
        assert forall|i: int| 0 <= i < sbpl_escape(s).len() implies !is_control(#[trigger] sbpl_escape(s)[i]) by {
            if i >= pre.len() {
                assert(sbpl_escape(s)[i] == u[i - pre.len()]);
            } else {
                assert(sbpl_escape(s)[i] == pre[i]);
            }
        }
        assert forall|i: int| 0 <= i < sbpl_escape(s).len() && #[trigger] sbpl_escape(s)[i] == '"' implies i > 0 && sbpl_escape(s)[i - 1] == '\\' by {
            if i >= pre.len() {
                assert(sbpl_escape(s)[i] == u[i - pre.len()]);
                if i - pre.len() > 0 {
                    assert(sbpl_escape(s)[i - 1] == u[i - 1 - pre.len()]);
                }
            } else {
                assert(sbpl_escape(s)[i] == pre[i]);
                assert(sbpl_escape(s)[i - 1] == pre[i - 1]);
            }
        }
    }
}

/// The value of a lower-case hexadecimal digit.
pub open spec fn hex_value(c: char) -> int {
    if '0' <= c && c <= '9' { (c as int) - 48 } else { (c as int) - 87 }
}

/// Reads an SBPL string literal's content back: `\\`, `\"`, `\n`, `\r`,
/// `\t`, `\0` and `\xHH` stand for the characters they escape; any other
/// character stands for itself.
pub open spec fn sbpl_unescape(s: Seq<char>) -> Seq<char>
    decreases s.len(),
{
    if s.len() == 0 {
        Seq::empty()
    } else if s[0] == '\\' && s.len() >= 2 && (s[1] == '\\' || s[1] == '"') {
        seq![s[1]] + sbpl_unescape(s.skip(2))
    } else if s[0] == '\\' && s.len() >= 2 && s[1] == 'n' {
        seq!['\n'] + sbpl_unescape(s.skip(2))
    } else if s[0] == '\\' && s.len() >= 2 && s[1] == 'r' {
        seq!['\r'] + sbpl_unescape(s.skip(2))
    } else if s[0] == '\\' && s.len() >= 2 && s[1] == 't' {
        seq!['\t'] + sbpl_unescape(s.skip(2))
    } else if s[0] == '\\' && s.len() >= 2 && s[1] == '0' {
        seq!['\0'] + sbpl_unescape(s.skip(2))
    } else if s[0] == '\\' && s.len() >= 4 && s[1] == 'x' {
        seq![(hex_value(s[2]) * 16 + hex_value(s[3])) as char] + sbpl_unescape(s.skip(4))
    } else {
        seq![s[0]] + sbpl_unescape(s.drop_first())
    }
}

proof fn lemma_escape_front(s: Seq<char>)
    requires
        s.len() > 0,
    ensures
        sbpl_escape(s) == sbpl_escape_char(s[0]) + sbpl_escape(s.drop_first()),
    decreases s.len(),
{
    if s.len() == 1 {
        assert(s.drop_last() =~= Seq::<char>::empty());
        assert(s.drop_first() =~= Seq::<char>::empty());
        assert(sbpl_escape(s) =~= sbpl_escape_char(s[0]) + sbpl_escape(s.drop_first()));
    } else {
        lemma_escape_front(s.drop_last());
        assert(s.drop_last().drop_first() =~= s.drop_first().drop_last());
        assert(s.drop_first().last() == s.last());
        assert(sbpl_escape(s) =~= sbpl_escape_char(s[0]) + sbpl_escape(s.drop_first()));
    }
}

proof fn lemma_unescape_char(c: char, rest: Seq<char>)
    ensures
        sbpl_unescape(sbpl_escape_char(c) + rest) == seq![c] + sbpl_unescape(rest),
{
    let e = sbpl_escape_char(c);
    let t = e + rest;
    if c == '\\' || c == '"' || c == '\n' || c == '\r' || c == '\t' || c == '\0' {
        assert(t.skip(2) =~= rest);
    } else if is_control(c) {
        let v = c as u32;
        assert(v / 16 < 16);
        assert(v % 16 < 16);
        assert(hex_value(hex_char((v / 16) as nat)) == v / 16);
        assert(hex_value(hex_char((v % 16) as nat)) == v % 16);
        assert(t.skip(4) =~= rest);
        assert((v / 16) * 16 + v % 16 == v);
    } else {
        assert(t.drop_first() =~= rest);
    }
}

/// Escaping loses nothing: reading an escaped path back gives the path.
pub proof fn law_escape_round_trip(s: Seq<char>)
    ensures
        sbpl_unescape(sbpl_escape(s)) == s,
    decreases s.len(),
{
    if s.len() == 0 {
    } else {
        lemma_escape_front(s);
        law_escape_round_trip(s.drop_first());
        lemma_unescape_char(s[0], sbpl_escape(s.drop_first()));
        assert(seq![s[0]] + s.drop_first() =~= s);
    }
}

/// A path without backslash, quote or control character is its own escape.
pub proof fn law_plain_path_unchanged(s: Seq<char>)
    requires
        forall|i: int| 0 <= i < s.len() ==> s[i] != '\\' && s[i] != '"' && !is_control(#[trigger] s[i]),
    ensures
        sbpl_escape(s) == s,
    decreases s.len(),
{
    if s.len() > 0 {
        let c = s.last();
        assert(c == s[s.len() - 1]);
        assert(c != '\n' && c != '\r' && c != '\t' && c != '\0');
        law_plain_path_unchanged(s.drop_last());
        assert(s.drop_last() + seq![c] =~= s);
    }
}

/// Every quote in an escaped path belongs to an escape `\"` that starts where
/// the escape of a whole prefix of the path ends: the backslash before it is
/// never itself the second half of an escaped backslash, so no quote can end
/// an SBPL string.
pub proof fn law_quote_escape_starts_unit(s: Seq<char>, i: int)
    requires
        0 <= i < sbpl_escape(s).len(),
        sbpl_escape(s)[i] == '"',
    ensures
        i >= 1,
        sbpl_escape(s)[i - 1] == '\\',
        exists|k: int| 0 <= k < s.len() && s[k] == '"' && #[trigger] sbpl_escape(s.take(k)).len() == i - 1,
    decreases s.len(),
{
    let pre = sbpl_escape(s.drop_last());
    let c = s.last();
    let u = sbpl_escape_char(c);
    assert(sbpl_escape(s) == pre + u);
    if i < pre.len() {
        assert(sbpl_escape(s)[i] == pre[i]);
        law_quote_escape_starts_unit(s.drop_last(), i);
        assert(sbpl_escape(s)[i - 1] == pre[i - 1]);
        let k = choose|k: int| 0 <= k < s.drop_last().len() && s.drop_last()[k] == '"'
            && #[trigger] sbpl_escape(s.drop_last().take(k)).len() == i - 1;
        assert(s.drop_last().take(k) =~= s.take(k));
        assert(s[k] == '"' && sbpl_escape(s.take(k)).len() == i - 1);
    } else {
        let j = i - pre.len();
        assert(sbpl_escape(s)[i] == u[j]);
        if is_control(c) && c != '\\' && c != '"' && c != '\n' && c != '\r' && c != '\t' && c != '\0' {
            let v = c as u32;
            assert(v / 16 < 16);
            assert(v % 16 < 16);
        }
        assert(c == '"' && j == 1);
        assert(sbpl_escape(s)[i - 1] == u[0]);
        let k = s.len() - 1;
        assert(s.take(k) =~= s.drop_last());
        assert(s[k] == '"' && sbpl_escape(s.take(k)).len() == i - 1);
    }
}

/// A rule line `<head>"<escaped path>"))` and a newline.
pub open spec fn rule_line(head: Seq<char>, path: Seq<char>) -> Seq<char> {
    head + sbpl_escape(path) + "\"))\n"@
}

/// `allow` rules for the paths that resolve, by their canonical form.
pub open spec fn allow_lines(head: Seq<char>, paths: Seq<Seq<char>>, facts: Seq<PathFact>) -> Seq<char>
    decreases paths.len(),
{
    if paths.len() == 0 {
        Seq::empty()
    } else {
        allow_lines(head, paths.drop_last(), facts) + match fact_of(facts, paths.last()) {
            Some(f) => rule_line(head, f.canonical@),
            None => Seq::empty(),
        }
    }
}

/// The canonical form of a path, or the path itself when it does not resolve.
pub open spec fn canonical_or_raw(facts: Seq<PathFact>, p: Seq<char>) -> Seq<char> {
    match fact_of(facts, p) {
        Some(f) => f.canonical@,
        None => p,
    }
}

/// `deny` rules for all the paths: by their canonical form, or as written
/// when they do not resolve, so that no restriction is lost.
pub open spec fn deny_lines(head: Seq<char>, paths: Seq<Seq<char>>, facts: Seq<PathFact>) -> Seq<char>
    decreases paths.len(),
{
    if paths.len() == 0 {
        Seq::empty()
    } else {
        deny_lines(head, paths.drop_last(), facts) + rule_line(head, canonical_or_raw(facts, paths.last()))
    }
}

/// The network rules of a network policy.
pub open spec fn network_rules(n: Option<NetworkPolicy>) -> Seq<char> {
    match n {
        Some(NetworkPolicy::Full) => "(allow network*)\n"@,
        Some(NetworkPolicy::Localhost) => "(deny network-outbound)\n"@
            + "(allow network-outbound (remote ip \"localhost:*\"))\n"@
            + "(allow network-outbound (remote unix-socket))\n"@,
        _ => "(deny network*)\n"@,
    }
}

/// The Seatbelt profile of a policy: everything allowed but writes outside
/// the session directory and the writable roots; the write-restricted paths
/// denied writes and the read-restricted paths denied reads (by their
/// canonical form, or as written when they do not resolve); the profile
/// file itself denied; the network rules; device access for GUI or audio
/// (once).
pub open spec fn seatbelt_profile_spec(p: PolicyView, session_tmpdir: Seq<char>, profile_path: Seq<char>, facts: Seq<PathFact>) -> Seq<char> {
    "(version 1)\n(allow default)\n\n"@
        + "; Filesystem write restrictions\n(deny file-write* (subpath \"/\"))\n"@
        + rule_line("(allow file-write* (subpath \""@, session_tmpdir)
        + allow_lines("(allow file-write* (subpath \""@, p.writable_roots, facts)
        + deny_lines("(deny file-write* (subpath \""@, p.write_restricted_paths, facts)
        + "\n"@
        + (if p.read_restricted_paths.len() > 0 {
            "; Read restrictions\n"@ + deny_lines("(deny file-read* (subpath \""@, p.read_restricted_paths, facts) + "\n"@
        } else {
            Seq::empty()
        })
        + "; Deny access to the profile file itself\n"@
        + rule_line("(deny file-read* (literal \""@, profile_path)
        + rule_line("(deny file-write* (literal \""@, profile_path)
        + "\n"@
        + "; Network restrictions\n"@
        + network_rules(p.network)
        + "\n"@
        + (if p.enable_gui == Some(true) {
            "; GUI passthrough\n(allow iokit-open)\n(allow device*)\n\n"@
        } else {
            Seq::empty()
        })
        + (if p.enable_audio == Some(true) && p.enable_gui != Some(true) {
            "; Audio passthrough\n(allow device*)\n\n"@
        } else {
            Seq::empty()
        })
}

fn push_rule(profile: &mut String, head: &str, path: &str)
    ensures
        final(profile)@ == old(profile)@ + rule_line(head@, path@),
{
    push_str(profile, head);
    let e = sbpl_escape_path(path);
    push_str(profile, e.as_str());
    push_str(profile, "\"))\n");
    proof {
        assert(final(profile)@ =~= old(profile)@ + rule_line(head@, path@));
    }
}

fn push_allow_lines(profile: &mut String, head: &str, paths: &Vec<String>, facts: &Vec<PathFact>)
    ensures
        final(profile)@ == old(profile)@ + allow_lines(head@, strs_view(paths@), facts@),
{
    let mut i: usize = 0;
    while i < paths.len()
        invariant
            i <= paths@.len(),
            profile@ == old(profile)@ + allow_lines(head@, strs_view(paths@.take(i as int)), facts@),
        decreases paths@.len() - i,
    {
        let ghost before = profile@;
        proof {
            assert(strs_view(paths@.take(i + 1)).drop_last() =~= strs_view(paths@.take(i as int)));
            assert(strs_view(paths@.take(i + 1)).last() == paths@[i as int]@);
        }
        match find_fact(facts, paths[i].as_str()) {
            Some(k) => push_rule(profile, head, facts[k].canonical.as_str()),
            None => {},
        }
        proof {
            assert(profile@ =~= old(profile)@ + allow_lines(head@, strs_view(paths@.take(i + 1)), facts@));
        }
        i = i + 1;
    }
    proof {
        assert(paths@.take(paths@.len() as int) =~= paths@);
    }
}

fn push_deny_lines(profile: &mut String, head: &str, paths: &Vec<String>, facts: &Vec<PathFact>)
    ensures
        final(profile)@ == old(profile)@ + deny_lines(head@, strs_view(paths@), facts@),
{
    let mut i: usize = 0;
    while i < paths.len()
        invariant
            i <= paths@.len(),
            profile@ == old(profile)@ + deny_lines(head@, strs_view(paths@.take(i as int)), facts@),
        decreases paths@.len() - i,
    {
        proof {
            assert(strs_view(paths@.take(i + 1)).drop_last() =~= strs_view(paths@.take(i as int)));
            assert(strs_view(paths@.take(i + 1)).last() == paths@[i as int]@);
        }
        match find_fact(facts, paths[i].as_str()) {
            Some(k) => push_rule(profile, head, facts[k].canonical.as_str()),
            None => push_rule(profile, head, paths[i].as_str()),
        }
        proof {
            assert(profile@ =~= old(profile)@ + deny_lines(head@, strs_view(paths@.take(i + 1)), facts@));
        }
        i = i + 1;
    }
    proof {
        assert(paths@.take(paths@.len() as int) =~= paths@);
    }
}

/// The Seatbelt profile of a policy (see [`seatbelt_profile_spec`]).
pub fn build_seatbelt_profile(
    policy: &SandboxPolicy,
    session_tmpdir: &str,
    profile_path: &str,
    _command: &str,
    facts: &Vec<PathFact>,
) -> (res: String)
    ensures
        res@ == seatbelt_profile_spec(policy@, session_tmpdir@, profile_path@, facts@),
{
    let mut profile = String::new();
    push_str(&mut profile, "(version 1)\n(allow default)\n\n");
    push_str(&mut profile, "; Filesystem write restrictions\n(deny file-write* (subpath \"/\"))\n");
    push_rule(&mut profile, "(allow file-write* (subpath \"", session_tmpdir);
    push_allow_lines(&mut profile, "(allow file-write* (subpath \"", &policy.writable_roots, facts);
    push_deny_lines(&mut profile, "(deny file-write* (subpath \"", &policy.write_restricted_paths, facts);
    push_str(&mut profile, "\n");
    let ghost before_read = profile@;
    if policy.read_restricted_paths.len() > 0 {
        push_str(&mut profile, "; Read restrictions\n");
        push_deny_lines(&mut profile, "(deny file-read* (subpath \"", &policy.read_restricted_paths, facts);
        push_str(&mut profile, "\n");
    }
    proof {
        let read_part = if policy@.read_restricted_paths.len() > 0 {
            "; Read restrictions\n"@ + deny_lines("(deny file-read* (subpath \""@, policy@.read_restricted_paths, facts@) + "\n"@
        } else {
            Seq::empty()
        };
        assert(profile@ =~= before_read + read_part);
    }
    push_str(&mut profile, "; Deny access to the profile file itself\n");
    push_rule(&mut profile, "(deny file-read* (literal \"", profile_path);
    push_rule(&mut profile, "(deny file-write* (literal \"", profile_path);
    push_str(&mut profile, "\n");
    push_str(&mut profile, "; Network restrictions\n");
    match policy.network() {
        NetworkPolicy::Offline => push_str(&mut profile, "(deny network*)\n"),
        NetworkPolicy::Localhost => {
            push_str(&mut profile, "(deny network-outbound)\n");
            push_str(&mut profile, "(allow network-outbound (remote ip \"localhost:*\"))\n");
            push_str(&mut profile, "(allow network-outbound (remote unix-socket))\n");
        },
        NetworkPolicy::Full => push_str(&mut profile, "(allow network*)\n"),
    }
    push_str(&mut profile, "\n");
    let ghost before_gui = profile@;
    if policy.enable_gui() {
        push_str(&mut profile, "; GUI passthrough\n(allow iokit-open)\n(allow device*)\n\n");
    }
    let ghost before_audio = profile@;
    if policy.enable_audio() && !policy.enable_gui() {
        push_str(&mut profile, "; Audio passthrough\n(allow device*)\n\n");
    }
    proof {
        assert(profile@ =~= seatbelt_profile_spec(policy@, session_tmpdir@, profile_path@, facts@));
    }
    profile
}

/// The Seatbelt profile for a sandbox whose session directory is
/// `session_tmpdir`: the directory is taken by its canonical form when it
/// resolves, and the profile file is `cage.sb` in it.
pub fn generate_seatbelt_profile(
    policy: &SandboxPolicy,
    command: &str,
    _args: &Vec<String>,
    session_tmpdir: &str,
    facts: &Vec<PathFact>,
) -> (res: String)
    ensures
        res@ == seatbelt_profile_spec(policy@, canonical_or_raw(facts@, session_tmpdir@),
            path_join(canonical_or_raw(facts@, session_tmpdir@), "cage.sb"@), facts@),
{
    let tmpdir = match find_fact(facts, session_tmpdir) {
        Some(k) => facts[k].canonical.clone(),
        None => owned(session_tmpdir),
    };
    let profile_path = join_path(tmpdir.as_str(), "cage.sb");
    build_seatbelt_profile(policy, tmpdir.as_str(), profile_path.as_str(), command, facts)
}

/// `t` occurs in `s`.
pub open spec fn contains_text(s: Seq<char>, t: Seq<char>) -> bool {
    exists|k: int| 0 <= k && k + t.len() <= s.len() && #[trigger] s.subrange(k, k + t.len()) == t
}

proof fn lemma_contains_in_concat(a: Seq<char>, b: Seq<char>, c: Seq<char>, t: Seq<char>)
    requires
        contains_text(b, t),
    ensures
        contains_text(a + b + c, t),
{
    let k = choose|k: int| 0 <= k && k + t.len() <= b.len() && #[trigger] b.subrange(k, k + t.len()) == t;
    assert((a + b + c).subrange(a.len() + k, a.len() + k + t.len()) =~= b.subrange(k, k + t.len()));
}

proof fn lemma_deny_lines_contain(head: Seq<char>, paths: Seq<Seq<char>>, facts: Seq<PathFact>, i: int)
    requires
        0 <= i < paths.len(),
    ensures
        contains_text(deny_lines(head, paths, facts), rule_line(head, canonical_or_raw(facts, paths[i]))),
    decreases paths.len(),
{
    let t = rule_line(head, canonical_or_raw(facts, paths[i]));
    if i == paths.len() - 1 {
        let pre = deny_lines(head, paths.drop_last(), facts);
        assert((pre + t).subrange(pre.len() as int, (pre.len() + t.len()) as int) =~= t);
    } else {
        lemma_deny_lines_contain(head, paths.drop_last(), facts, i);
        let last = rule_line(head, canonical_or_raw(facts, paths.last()));
        lemma_contains_in_concat(Seq::empty(), deny_lines(head, paths.drop_last(), facts), last, t);
        assert(Seq::<char>::empty() + deny_lines(head, paths.drop_last(), facts) + last =~= deny_lines(head, paths, facts));
    }
}

proof fn lemma_allow_lines_contain(head: Seq<char>, paths: Seq<Seq<char>>, facts: Seq<PathFact>, i: int, f: PathFact)
    requires
        0 <= i < paths.len(),
        fact_of(facts, paths[i]) == Some(f),
    ensures
        contains_text(allow_lines(head, paths, facts), rule_line(head, f.canonical@)),
    decreases paths.len(),
{
    let t = rule_line(head, f.canonical@);
    let pre = allow_lines(head, paths.drop_last(), facts);
    if i == paths.len() - 1 {
        assert(allow_lines(head, paths, facts) == pre + t);
        assert((pre + t).subrange(pre.len() as int, (pre.len() + t.len()) as int) =~= t);
    } else {
        assert(paths.drop_last()[i] == paths[i]);
        lemma_allow_lines_contain(head, paths.drop_last(), facts, i, f);
        let last = allow_lines(head, paths, facts).subrange(pre.len() as int, allow_lines(head, paths, facts).len() as int);
        lemma_contains_in_concat(Seq::empty(), pre, last, t);
        assert(Seq::<char>::empty() + pre + last =~= allow_lines(head, paths, facts));
    }
}

/// Every writable root that resolves gets its own rule that allows writes
/// under its canonical form, and so does the session directory.
pub proof fn law_writable_roots_allowed(p: PolicyView, session_tmpdir: Seq<char>, profile_path: Seq<char>, facts: Seq<PathFact>)
    ensures
        forall|i: int| 0 <= i < p.writable_roots.len() && #[trigger] fact_of(facts, p.writable_roots[i]) is Some ==> contains_text(
            seatbelt_profile_spec(p, session_tmpdir, profile_path, facts),
            rule_line("(allow file-write* (subpath \""@, fact_of(facts, p.writable_roots[i]).unwrap().canonical@),
        ),
        contains_text(
            seatbelt_profile_spec(p, session_tmpdir, profile_path, facts),
            rule_line("(allow file-write* (subpath \""@, session_tmpdir),
        ),
{
    let head = "(allow file-write* (subpath \""@;
    let prof = seatbelt_profile_spec(p, session_tmpdir, profile_path, facts);
    let a = "(version 1)\n(allow default)\n\n"@
        + "; Filesystem write restrictions\n(deny file-write* (subpath \"/\"))\n"@
        + rule_line(head, session_tmpdir);
    let w = allow_lines(head, p.writable_roots, facts);
    let after = prof.subrange((a.len() + w.len()) as int, prof.len() as int);
    assert(prof =~= a + w + after);
    assert forall|i: int| 0 <= i < p.writable_roots.len() && #[trigger] fact_of(facts, p.writable_roots[i]) is Some implies contains_text(prof,
        rule_line(head, fact_of(facts, p.writable_roots[i]).unwrap().canonical@)) by {
        let f = fact_of(facts, p.writable_roots[i]).unwrap();
        lemma_allow_lines_contain(head, p.writable_roots, facts, i, f);
        lemma_contains_in_concat(a, w, after, rule_line(head, f.canonical@));
    }
    let s0 = "(version 1)\n(allow default)\n\n"@ + "; Filesystem write restrictions\n(deny file-write* (subpath \"/\"))\n"@;
    let sl = rule_line(head, session_tmpdir);
    let rest = prof.subrange((s0.len() + sl.len()) as int, prof.len() as int);
    assert(prof =~= s0 + sl + rest);
    assert(sl.subrange(0, 0 + sl.len() as int) =~= sl);
    assert(contains_text(sl, sl));
    lemma_contains_in_concat(s0, sl, rest, sl);
}

/// Restrictions fail secure: every write-restricted path gets a rule that
/// denies writes and every read-restricted path one that denies reads, by
/// its canonical form, or as written when it does not resolve.
pub proof fn law_restrictions_never_dropped(p: PolicyView, session_tmpdir: Seq<char>, profile_path: Seq<char>, facts: Seq<PathFact>)
    ensures
        forall|i: int| 0 <= i < p.write_restricted_paths.len() ==> contains_text(
            seatbelt_profile_spec(p, session_tmpdir, profile_path, facts),
            rule_line("(deny file-write* (subpath \""@, canonical_or_raw(facts, #[trigger] p.write_restricted_paths[i])),
        ),
        forall|i: int| 0 <= i < p.read_restricted_paths.len() ==> contains_text(
            seatbelt_profile_spec(p, session_tmpdir, profile_path, facts),
            rule_line("(deny file-read* (subpath \""@, canonical_or_raw(facts, #[trigger] p.read_restricted_paths[i])),
        ),
{
    let prof = seatbelt_profile_spec(p, session_tmpdir, profile_path, facts);
    let w = deny_lines("(deny file-write* (subpath \""@, p.write_restricted_paths, facts);
    let a = "(version 1)\n(allow default)\n\n"@
        + "; Filesystem write restrictions\n(deny file-write* (subpath \"/\"))\n"@
        + rule_line("(allow file-write* (subpath \""@, session_tmpdir)
        + allow_lines("(allow file-write* (subpath \""@, p.writable_roots, facts);
    let after_w = prof.subrange((a.len() + w.len()) as int, prof.len() as int);
    assert(prof =~= a + w + after_w);
    assert forall|i: int| 0 <= i < p.write_restricted_paths.len() implies contains_text(prof,
        rule_line("(deny file-write* (subpath \""@, canonical_or_raw(facts, #[trigger] p.write_restricted_paths[i]))) by {
        lemma_deny_lines_contain("(deny file-write* (subpath \""@, p.write_restricted_paths, facts, i);
        lemma_contains_in_concat(a, w, after_w, rule_line("(deny file-write* (subpath \""@, canonical_or_raw(facts, p.write_restricted_paths[i])));
    }
    if p.read_restricted_paths.len() > 0 {
        let r = deny_lines("(deny file-read* (subpath \""@, p.read_restricted_paths, facts);
        let b = a + w + "\n"@ + "; Read restrictions\n"@;
        let after_r = prof.subrange((b.len() + r.len()) as int, prof.len() as int);
        assert(prof =~= b + r + after_r);
        assert forall|i: int| 0 <= i < p.read_restricted_paths.len() implies contains_text(prof,
            rule_line("(deny file-read* (subpath \""@, canonical_or_raw(facts, #[trigger] p.read_restricted_paths[i]))) by {
            lemma_deny_lines_contain("(deny file-read* (subpath \""@, p.read_restricted_paths, facts, i);
            lemma_contains_in_concat(b, r, after_r, rule_line("(deny file-read* (subpath \""@, canonical_or_raw(facts, p.read_restricted_paths[i])));
        }
    }
}

/// The fixed start of every Seatbelt profile: everything allowed, then all
/// writes denied, then writes allowed in the session directory.
pub open spec fn profile_head(session_tmpdir: Seq<char>) -> Seq<char> {
    "(version 1)\n(allow default)\n\n"@
        + "; Filesystem write restrictions\n(deny file-write* (subpath \"/\"))\n"@
        + rule_line("(allow file-write* (subpath \""@, session_tmpdir)
}

/// A profile starts with the fixed head, then the rules that allow writes
/// under the writable roots, and only after all of them the rules that deny
/// writes to the write-restricted paths (a later rule wins in Seatbelt).
pub proof fn law_profile_write_rules_in_order(p: PolicyView, session_tmpdir: Seq<char>, profile_path: Seq<char>, facts: Seq<PathFact>)
    ensures
        ({
            let prof = seatbelt_profile_spec(p, session_tmpdir, profile_path, facts);
            let head = profile_head(session_tmpdir);
            let allows = allow_lines("(allow file-write* (subpath \""@, p.writable_roots, facts);
            let denies = deny_lines("(deny file-write* (subpath \""@, p.write_restricted_paths, facts);
            prof.take((head.len() + allows.len() + denies.len()) as int) == head + allows + denies
        }),
{
    let prof = seatbelt_profile_spec(p, session_tmpdir, profile_path, facts);
    let head = profile_head(session_tmpdir);
    let allows = allow_lines("(allow file-write* (subpath \""@, p.writable_roots, facts);
    let denies = deny_lines("(deny file-write* (subpath \""@, p.write_restricted_paths, facts);
    let rest = prof.subrange((head.len() + allows.len() + denies.len()) as int, prof.len() as int);
    assert(prof =~= head + allows + denies + rest);
    assert(prof.take((head.len() + allows.len() + denies.len()) as int) =~= head + allows + denies);
}

/// Every profile holds the network rules of its policy: with no network
/// (also when unset) all network access is denied; with localhost only,
/// outbound connections are denied except to localhost and Unix sockets;
/// with full network, all network access is allowed.
pub proof fn law_profile_network_rules(p: PolicyView, session_tmpdir: Seq<char>, profile_path: Seq<char>, facts: Seq<PathFact>)
    ensures
        ({
            let prof = seatbelt_profile_spec(p, session_tmpdir, profile_path, facts);
            &&& (p.network is None || p.network == Some(NetworkPolicy::Offline)) ==> contains_text(prof, "; Network restrictions\n"@ + "(deny network*)\n"@)
            &&& p.network == Some(NetworkPolicy::Localhost) ==> contains_text(prof,
                "; Network restrictions\n"@ + ("(deny network-outbound)\n"@
                    + "(allow network-outbound (remote ip \"localhost:*\"))\n"@
                    + "(allow network-outbound (remote unix-socket))\n"@))
            &&& p.network == Some(NetworkPolicy::Full) ==> contains_text(prof, "; Network restrictions\n"@ + "(allow network*)\n"@)
        }),
{
    let prof = seatbelt_profile_spec(p, session_tmpdir, profile_path, facts);
    let t = "; Network restrictions\n"@ + network_rules(p.network);
    let i = prof.len() - (t.len() + "\n"@.len()
        + (if p.enable_gui == Some(true) { "; GUI passthrough\n(allow iokit-open)\n(allow device*)\n\n"@ } else { Seq::empty() }).len()
        + (if p.enable_audio == Some(true) && p.enable_gui != Some(true) { "; Audio passthrough\n(allow device*)\n\n"@ } else { Seq::empty() }).len());
    let a = prof.take(i);
    let c = prof.skip(i + t.len());
    assert(prof =~= a + t + c);
    assert(t.subrange(0, 0 + t.len() as int) =~= t);
    assert(contains_text(t, t));
    lemma_contains_in_concat(a, t, c, t);
}

/// Where `sandbox-exec` is run from (never looked up on the search path).
pub fn sandbox_exec_path() -> (res: &'static str)
    ensures
        res@ == "/usr/bin/sandbox-exec"@,
{
    "/usr/bin/sandbox-exec"
}

/// The arguments `sandbox-exec` is started with: `-f <profile> -- <command>
/// <args...>`.
pub fn sandbox_exec_args(profile_path: &str, command: &str, args: &Vec<String>) -> (res: Vec<String>)
    ensures
        strs_view(res@) == seq!["-f"@, profile_path@, "--"@, command@] + strs_view(args@),
{
    let mut v: Vec<String> = Vec::new();
    v.push(owned("-f"));
    v.push(owned(profile_path));
    v.push(owned("--"));
    v.push(owned(command));
    proof {
        assert(strs_view(v@) =~= seq!["-f"@, profile_path@, "--"@, command@]);
    }
    crate::platform::append_owned(&mut v, crate::text::clone_strs(args));
    v
}

/// `s` is one line: it ends with its only newline.
pub open spec fn one_line(s: Seq<char>) -> bool {
    s.len() > 0 && s.last() == '\n' && forall|j: int| 0 <= j < s.len() - 1 ==> s[j] != '\n'
}

/// `t` holds no newline.
pub open spec fn newline_free(t: Seq<char>) -> bool {
    forall|j: int| 0 <= j < t.len() ==> t[j] != '\n'
}

/// `s` is empty or ends with a newline.
pub open spec fn ends_line(s: Seq<char>) -> bool {
    s.len() == 0 || s.last() == '\n'
}

/// No line of `s` begins with `t`.
#[verifier::opaque]
pub open spec fn no_line_begins(s: Seq<char>, t: Seq<char>) -> bool {
    forall|k: int|
        0 <= k && k + t.len() <= s.len() && (k == 0 || s[k - 1] == '\n') ==> #[trigger] s.subrange(k, k + t.len()) != t
}

proof fn lemma_one_line_begins(l: Seq<char>, t: Seq<char>, i: int)
    requires
        one_line(l),
        t.len() > 0,
        t.len() > l.len() || (0 <= i < t.len() && i < l.len() && l[i] != t[i]),
    ensures
        no_line_begins(l, t),
        ends_line(l),
{
    reveal(no_line_begins);
    assert forall|k: int| 0 <= k && k + t.len() <= l.len() && (k == 0 || l[k - 1] == '\n')
        implies #[trigger] l.subrange(k, k + t.len()) != t by {
        if k == 0 {
            assert(l.subrange(0, t.len() as int)[i] == l[i]);
        } else {
            assert(l[k - 1] == '\n');
        }
    }
}

proof fn lemma_no_lines(t: Seq<char>)
    requires
        t.len() > 0,
    ensures
        no_line_begins(Seq::<char>::empty(), t),
        ends_line(Seq::<char>::empty()),
{
    reveal(no_line_begins);
}

proof fn lemma_lines_concat(a: Seq<char>, b: Seq<char>, t: Seq<char>)
    requires
        no_line_begins(a, t),
        no_line_begins(b, t),
        ends_line(a),
        newline_free(t),
        t.len() > 0,
    ensures
        no_line_begins(a + b, t),
        ends_line(b) ==> ends_line(a + b),
{
    reveal(no_line_begins);
    let s = a + b;
    assert forall|k: int| 0 <= k && k + t.len() <= s.len() && (k == 0 || s[k - 1] == '\n')
        implies #[trigger] s.subrange(k, k + t.len()) != t by {
        if k + t.len() <= a.len() {
            assert(s.subrange(k, k + t.len()) =~= a.subrange(k, k + t.len()));
            if k > 0 {
                assert(s[k - 1] == a[k - 1]);
            }
            assert(a.subrange(k, k + t.len()) != t);
        } else if k < a.len() {
            let j = a.len() - 1 - k;
            assert(s.subrange(k, k + t.len())[j] == a[a.len() - 1]);
            assert(t[j] != '\n');
        } else {
            let k2 = k - a.len();
            assert(s.subrange(k, k + t.len()) =~= b.subrange(k2, k2 + t.len()));
            if k2 > 0 {
                assert(s[k - 1] == b[k2 - 1]);
            }
            assert(b.subrange(k2, k2 + t.len()) != t);
        }
    }
    if b.len() == 0 {
        assert(s =~= a);
    } else {
        assert(s.last() == b.last());
    }
}

proof fn lemma_rule_line_begins(head: Seq<char>, path: Seq<char>, t: Seq<char>, i: int)
    requires
        newline_free(head),
        t.len() > 0,
        0 <= i < t.len(),
        i < head.len(),
        head[i] != t[i],
    ensures
        no_line_begins(rule_line(head, path), t),
        ends_line(rule_line(head, path)),
{
    reveal_strlit("\"))\n");
    law_escape_is_inert(path);
    let e = sbpl_escape(path);
    let tail = "\"))\n"@;
    let l = rule_line(head, path);
    assert(l == head + e + tail);
    assert forall|j: int| 0 <= j < l.len() - 1 implies l[j] != '\n' by {
        if j < head.len() {
            assert(l[j] == head[j]);
        } else if j < head.len() + e.len() {
            assert(l[j] == e[j - head.len()]);
            assert(!is_control(e[j - head.len()]));
        } else {
            assert(l[j] == tail[j - head.len() - e.len()]);
        }
    }
    assert(l[i] == head[i]);
    lemma_one_line_begins(l, t, i);
}

proof fn lemma_allow_lines_begin(head: Seq<char>, paths: Seq<Seq<char>>, facts: Seq<PathFact>, t: Seq<char>, i: int)
    requires
        newline_free(head),
        newline_free(t),
        t.len() > 0,
        0 <= i < t.len(),
        i < head.len(),
        head[i] != t[i],
    ensures
        no_line_begins(allow_lines(head, paths, facts), t),
        ends_line(allow_lines(head, paths, facts)),
    decreases paths.len(),
{
    lemma_no_lines(t);
    if paths.len() > 0 {
        lemma_allow_lines_begin(head, paths.drop_last(), facts, t, i);
        let tail = match fact_of(facts, paths.last()) {
            Some(f) => rule_line(head, f.canonical@),
            None => Seq::<char>::empty(),
        };
        if let Some(f) = fact_of(facts, paths.last()) {
            lemma_rule_line_begins(head, f.canonical@, t, i);
        }
        lemma_lines_concat(allow_lines(head, paths.drop_last(), facts), tail, t);
    }
}

proof fn lemma_deny_lines_begin(head: Seq<char>, paths: Seq<Seq<char>>, facts: Seq<PathFact>, t: Seq<char>, i: int)
    requires
        newline_free(head),
        newline_free(t),
        t.len() > 0,
        0 <= i < t.len(),
        i < head.len(),
        head[i] != t[i],
    ensures
        no_line_begins(deny_lines(head, paths, facts), t),
        ends_line(deny_lines(head, paths, facts)),
    decreases paths.len(),
{
    lemma_no_lines(t);
    if paths.len() > 0 {
        lemma_deny_lines_begin(head, paths.drop_last(), facts, t, i);
        lemma_rule_line_begins(head, canonical_or_raw(facts, paths.last()), t, i);
        lemma_lines_concat(deny_lines(head, paths.drop_last(), facts), rule_line(head, canonical_or_raw(facts, paths.last())), t);
    }
}

/// The fixed lines of a profile, and what tells their beginnings apart.
proof fn lemma_profile_line_facts()
    ensures
        one_line("(version 1)\n"@) && "(version 1)\n"@[1] == 'v',
        one_line("(allow default)\n"@) && "(allow default)\n"@[1] == 'a' && "(allow default)\n"@[7] == 'd',
        one_line("\n"@) && "\n"@.len() == 1,
        one_line("; Filesystem write restrictions\n"@) && "; Filesystem write restrictions\n"@[0] == ';',
        one_line("(deny file-write* (subpath \"/\"))\n"@) && "(deny file-write* (subpath \"/\"))\n"@[1] == 'd'
            && "(deny file-write* (subpath \"/\"))\n"@[6] == 'f',
        one_line("; Read restrictions\n"@) && "; Read restrictions\n"@[0] == ';',
        one_line("; Deny access to the profile file itself\n"@) && "; Deny access to the profile file itself\n"@[0] == ';',
        one_line("; Network restrictions\n"@) && "; Network restrictions\n"@[0] == ';',
        one_line("; GUI passthrough\n"@) && "; GUI passthrough\n"@[0] == ';',
        one_line("(allow iokit-open)\n"@) && "(allow iokit-open)\n"@[1] == 'a' && "(allow iokit-open)\n"@[7] == 'i',
        one_line("(allow device*)\n"@) && "(allow device*)\n"@[1] == 'a' && "(allow device*)\n"@[7] == 'd',
        one_line("; Audio passthrough\n"@) && "; Audio passthrough\n"@[0] == ';',
        one_line("(allow network*)\n"@) && "(allow network*)\n"@[1] == 'a',
        one_line("(deny network*)\n"@) && "(deny network*)\n"@[1] == 'd',
{
    reveal_strlit("(version 1)\n(allow default)\n\n");
    reveal_strlit("(version 1)\n");
    reveal_strlit("(allow default)\n");
    reveal_strlit("\n");
    reveal_strlit("; Filesystem write restrictions\n(deny file-write* (subpath \"/\"))\n");
    reveal_strlit("; Filesystem write restrictions\n");
    reveal_strlit("(deny file-write* (subpath \"/\"))\n");
    reveal_strlit("; GUI passthrough\n(allow iokit-open)\n(allow device*)\n\n");
    reveal_strlit("; GUI passthrough\n");
    reveal_strlit("(allow iokit-open)\n");
    reveal_strlit("(allow device*)\n");
    reveal_strlit("; Audio passthrough\n(allow device*)\n\n");
    reveal_strlit("; Audio passthrough\n");
    reveal_strlit("; Read restrictions\n");
    reveal_strlit("; Deny access to the profile file itself\n");
    reveal_strlit("; Network restrictions\n");
    reveal_strlit("(allow network*)\n");
    reveal_strlit("(deny network*)\n");
    reveal_strlit("(allow file-write* (subpath \"");
    reveal_strlit("(deny file-write* (subpath \"");
    reveal_strlit("(deny file-read* (subpath \"");
    reveal_strlit("(deny file-read* (literal \"");
    reveal_strlit("(deny file-write* (literal \"");
    reveal_strlit("(allow network");
    reveal_strlit("(deny network");
    assert("(version 1)\n(allow default)\n\n"@ =~= "(version 1)\n"@ + "(allow default)\n"@ + "\n"@);
    assert("; Filesystem write restrictions\n(deny file-write* (subpath \"/\"))\n"@
        =~= "; Filesystem write restrictions\n"@ + "(deny file-write* (subpath \"/\"))\n"@);
    assert("; GUI passthrough\n(allow iokit-open)\n(allow device*)\n\n"@
        =~= "; GUI passthrough\n"@ + "(allow iokit-open)\n"@ + "(allow device*)\n"@ + "\n"@);
    assert("; Audio passthrough\n(allow device*)\n\n"@ =~= "; Audio passthrough\n"@ + "(allow device*)\n"@ + "\n"@);
}


/// How the fixed texts of a profile split into lines, and what tells the
/// rule heads apart from the network rules.
proof fn lemma_profile_text_facts()
    ensures
        "(version 1)\n(allow default)\n\n"@ == "(version 1)\n"@ + "(allow default)\n"@ + "\n"@,
        "; Filesystem write restrictions\n(deny file-write* (subpath \"/\"))\n"@
            == "; Filesystem write restrictions\n"@ + "(deny file-write* (subpath \"/\"))\n"@,
        "; GUI passthrough\n(allow iokit-open)\n(allow device*)\n\n"@
            == "; GUI passthrough\n"@ + "(allow iokit-open)\n"@ + "(allow device*)\n"@ + "\n"@,
        "; Audio passthrough\n(allow device*)\n\n"@ == "; Audio passthrough\n"@ + "(allow device*)\n"@ + "\n"@,
        newline_free("(allow file-write* (subpath \""@) && "(allow file-write* (subpath \""@.len() == 29
            && "(allow file-write* (subpath \""@[1] == 'a' && "(allow file-write* (subpath \""@[7] == 'f',
        newline_free("(deny file-write* (subpath \""@) && "(deny file-write* (subpath \""@.len() == 28
            && "(deny file-write* (subpath \""@[1] == 'd' && "(deny file-write* (subpath \""@[6] == 'f',
        newline_free("(deny file-read* (subpath \""@) && "(deny file-read* (subpath \""@.len() == 27
            && "(deny file-read* (subpath \""@[1] == 'd' && "(deny file-read* (subpath \""@[6] == 'f',
        newline_free("(deny file-read* (literal \""@) && "(deny file-read* (literal \""@.len() == 27
            && "(deny file-read* (literal \""@[1] == 'd' && "(deny file-read* (literal \""@[6] == 'f',
        newline_free("(deny file-write* (literal \""@) && "(deny file-write* (literal \""@.len() == 28
            && "(deny file-write* (literal \""@[1] == 'd' && "(deny file-write* (literal \""@[6] == 'f',
        newline_free("(allow network"@) && "(allow network"@.len() == 14 && "(allow network"@[0] == '('
            && "(allow network"@[1] == 'a' && "(allow network"@[7] == 'n',
        newline_free("(deny network"@) && "(deny network"@.len() == 13 && "(deny network"@[0] == '('
            && "(deny network"@[1] == 'd' && "(deny network"@[6] == 'n',
{
    reveal_strlit("(version 1)\n(allow default)\n\n");
    reveal_strlit("(version 1)\n");
    reveal_strlit("(allow default)\n");
    reveal_strlit("\n");
    reveal_strlit("; Filesystem write restrictions\n(deny file-write* (subpath \"/\"))\n");
    reveal_strlit("; Filesystem write restrictions\n");
    reveal_strlit("(deny file-write* (subpath \"/\"))\n");
    reveal_strlit("; GUI passthrough\n(allow iokit-open)\n(allow device*)\n\n");
    reveal_strlit("; GUI passthrough\n");
    reveal_strlit("(allow iokit-open)\n");
    reveal_strlit("(allow device*)\n");
    reveal_strlit("; Audio passthrough\n(allow device*)\n\n");
    reveal_strlit("; Audio passthrough\n");
    reveal_strlit("; Read restrictions\n");
    reveal_strlit("; Deny access to the profile file itself\n");
    reveal_strlit("; Network restrictions\n");
    reveal_strlit("(allow network*)\n");
    reveal_strlit("(deny network*)\n");
    reveal_strlit("(allow file-write* (subpath \"");
    reveal_strlit("(deny file-write* (subpath \"");
    reveal_strlit("(deny file-read* (subpath \"");
    reveal_strlit("(deny file-read* (literal \"");
    reveal_strlit("(deny file-write* (literal \"");
    reveal_strlit("(allow network");
    reveal_strlit("(deny network");
    assert("(version 1)\n(allow default)\n\n"@ =~= "(version 1)\n"@ + "(allow default)\n"@ + "\n"@);
    assert("; Filesystem write restrictions\n(deny file-write* (subpath \"/\"))\n"@
        =~= "; Filesystem write restrictions\n"@ + "(deny file-write* (subpath \"/\"))\n"@);
    assert("; GUI passthrough\n(allow iokit-open)\n(allow device*)\n\n"@
        =~= "; GUI passthrough\n"@ + "(allow iokit-open)\n"@ + "(allow device*)\n"@ + "\n"@);
    assert("; Audio passthrough\n(allow device*)\n\n"@ =~= "; Audio passthrough\n"@ + "(allow device*)\n"@ + "\n"@);
}

/// The fixed lines of a profile begin no network rule.
proof fn lemma_fixed_lines(t: Seq<char>)
    requires
        t == "(allow network"@ || t == "(deny network"@,
    ensures
        no_line_begins("(version 1)\n"@, t) && ends_line("(version 1)\n"@),
        no_line_begins("(allow default)\n"@, t) && ends_line("(allow default)\n"@),
        no_line_begins("\n"@, t) && ends_line("\n"@),
        no_line_begins("; Filesystem write restrictions\n"@, t) && ends_line("; Filesystem write restrictions\n"@),
        no_line_begins("(deny file-write* (subpath \"/\"))\n"@, t) && ends_line("(deny file-write* (subpath \"/\"))\n"@),
        no_line_begins("; Read restrictions\n"@, t) && ends_line("; Read restrictions\n"@),
        no_line_begins("; Deny access to the profile file itself\n"@, t) && ends_line("; Deny access to the profile file itself\n"@),
        no_line_begins("; Network restrictions\n"@, t) && ends_line("; Network restrictions\n"@),
        no_line_begins("; GUI passthrough\n"@, t) && ends_line("; GUI passthrough\n"@),
        no_line_begins("(allow iokit-open)\n"@, t) && ends_line("(allow iokit-open)\n"@),
        no_line_begins("(allow device*)\n"@, t) && ends_line("(allow device*)\n"@),
        no_line_begins("; Audio passthrough\n"@, t) && ends_line("; Audio passthrough\n"@),
        no_line_begins("(version 1)\n(allow default)\n\n"@, t) && ends_line("(version 1)\n(allow default)\n\n"@),
        no_line_begins("; Filesystem write restrictions\n(deny file-write* (subpath \"/\"))\n"@, t)
            && ends_line("; Filesystem write restrictions\n(deny file-write* (subpath \"/\"))\n"@),
        no_line_begins("; GUI passthrough\n(allow iokit-open)\n(allow device*)\n\n"@, t)
            && ends_line("; GUI passthrough\n(allow iokit-open)\n(allow device*)\n\n"@),
        no_line_begins("; Audio passthrough\n(allow device*)\n\n"@, t)
            && ends_line("; Audio passthrough\n(allow device*)\n\n"@),
{
    lemma_profile_line_facts();
    lemma_profile_text_facts();
    let allow = t[1] == 'a';
    let ia: int = if allow { 7 } else { 1 };
    let id: int = if allow { 1 } else { 6 };
    let l1 = "(version 1)\n"@;
    let l2 = "(allow default)\n"@;
    let nl = "\n"@;
    let l4 = "; Filesystem write restrictions\n"@;
    let l5 = "(deny file-write* (subpath \"/\"))\n"@;
    let l6 = "; Read restrictions\n"@;
    let l7 = "; Deny access to the profile file itself\n"@;
    let l8 = "; Network restrictions\n"@;
    let l9 = "; GUI passthrough\n"@;
    let l10 = "(allow iokit-open)\n"@;
    let l11 = "(allow device*)\n"@;
    let l13 = "; Audio passthrough\n"@;
    lemma_one_line_begins(l1, t, 1);
    lemma_one_line_begins(l2, t, ia);
    lemma_one_line_begins(nl, t, 0);
    lemma_one_line_begins(l4, t, 0);
    lemma_one_line_begins(l5, t, id);
    lemma_one_line_begins(l6, t, 0);
    lemma_one_line_begins(l7, t, 0);
    lemma_one_line_begins(l8, t, 0);
    lemma_one_line_begins(l9, t, 0);
    lemma_one_line_begins(l10, t, ia);
    lemma_one_line_begins(l11, t, ia);
    lemma_one_line_begins(l13, t, 0);
    lemma_lines_concat(l1, l2, t);
    lemma_lines_concat(l1 + l2, nl, t);
    lemma_lines_concat(l4, l5, t);
    lemma_lines_concat(l9, l10, t);
    lemma_lines_concat(l9 + l10, l11, t);
    lemma_lines_concat(l9 + l10 + l11, nl, t);
    lemma_lines_concat(l13, l11, t);
    lemma_lines_concat(l13 + l11, nl, t);
}

/// No line of a profile begins with `t`, an `allow network` or `deny network`
/// rule, when its network rules have no such line.
proof fn lemma_profile_lines(p: PolicyView, session_tmpdir: Seq<char>, profile_path: Seq<char>, facts: Seq<PathFact>, t: Seq<char>)
    requires
        t == "(allow network"@ || t == "(deny network"@,
        no_line_begins(network_rules(p.network), t),
        ends_line(network_rules(p.network)),
    ensures
        no_line_begins(seatbelt_profile_spec(p, session_tmpdir, profile_path, facts), t),
{
    lemma_profile_text_facts();
    lemma_fixed_lines(t);
    lemma_no_lines(t);
    let allow = t[1] == 'a';
    let ia: int = if allow { 7 } else { 1 };
    let id: int = if allow { 1 } else { 6 };
    let b1 = "(version 1)\n(allow default)\n\n"@;
    let b2 = "; Filesystem write restrictions\n(deny file-write* (subpath \"/\"))\n"@;
    let nl = "\n"@;
    let l6 = "; Read restrictions\n"@;
    let l7 = "; Deny access to the profile file itself\n"@;
    let l8 = "; Network restrictions\n"@;
    let allow_head = "(allow file-write* (subpath \""@;
    let deny_write = "(deny file-write* (subpath \""@;
    let deny_read = "(deny file-read* (subpath \""@;
    let deny_read_lit = "(deny file-read* (literal \""@;
    let deny_write_lit = "(deny file-write* (literal \""@;
    lemma_rule_line_begins(allow_head, session_tmpdir, t, ia);
    lemma_allow_lines_begin(allow_head, p.writable_roots, facts, t, ia);
    lemma_deny_lines_begin(deny_write, p.write_restricted_paths, facts, t, id);
    lemma_deny_lines_begin(deny_read, p.read_restricted_paths, facts, t, id);
    lemma_rule_line_begins(deny_read_lit, profile_path, t, id);
    lemma_rule_line_begins(deny_write_lit, profile_path, t, id);
    let p3 = rule_line(allow_head, session_tmpdir);
    let p4 = allow_lines(allow_head, p.writable_roots, facts);
    let p5 = deny_lines(deny_write, p.write_restricted_paths, facts);
    let rd = deny_lines(deny_read, p.read_restricted_paths, facts);
    let p7 = if p.read_restricted_paths.len() > 0 { l6 + rd + nl } else { Seq::<char>::empty() };
    let p9 = rule_line(deny_read_lit, profile_path);
    let p10 = rule_line(deny_write_lit, profile_path);
    let p13 = network_rules(p.network);
    let p15 = if p.enable_gui == Some(true) {
        "; GUI passthrough\n(allow iokit-open)\n(allow device*)\n\n"@
    } else {
        Seq::<char>::empty()
    };
    let p16 = if p.enable_audio == Some(true) && p.enable_gui != Some(true) {
        "; Audio passthrough\n(allow device*)\n\n"@
    } else {
        Seq::<char>::empty()
    };
    if p.read_restricted_paths.len() > 0 {
        lemma_lines_concat(l6, rd, t);
        lemma_lines_concat(l6 + rd, nl, t);
    }
    lemma_lines_concat(b1, b2, t);
    lemma_lines_concat(b1 + b2, p3, t);
    lemma_lines_concat(b1 + b2 + p3, p4, t);
    lemma_lines_concat(b1 + b2 + p3 + p4, p5, t);
    let a3 = b1 + b2 + p3 + p4 + p5;
    lemma_lines_concat(a3, nl, t);
    lemma_lines_concat(a3 + nl, p7, t);
    lemma_lines_concat(a3 + nl + p7, l7, t);
    lemma_lines_concat(a3 + nl + p7 + l7, p9, t);
    lemma_lines_concat(a3 + nl + p7 + l7 + p9, p10, t);
    let a4 = a3 + nl + p7 + l7 + p9 + p10;
    lemma_lines_concat(a4, nl, t);
    lemma_lines_concat(a4 + nl, l8, t);
    lemma_lines_concat(a4 + nl + l8, p13, t);
    lemma_lines_concat(a4 + nl + l8 + p13, nl, t);
    let a5 = a4 + nl + l8 + p13 + nl;
    lemma_lines_concat(a5, p15, t);
    lemma_lines_concat(a5 + p15, p16, t);
    assert(seatbelt_profile_spec(p, session_tmpdir, profile_path, facts) == a5 + p15 + p16);
}

/// A profile holds no network rule but its policy's: with no network (also
/// when unset) no line begins an `allow network` rule, and with full network
/// no line begins a `deny network` rule. A configured path, whatever text it
/// holds, stays inside an escaped string literal within its rule's line.
pub proof fn law_profile_network_rules_alone(p: PolicyView, session_tmpdir: Seq<char>, profile_path: Seq<char>, facts: Seq<PathFact>)
    ensures
        (p.network is None || p.network == Some(NetworkPolicy::Offline))
            ==> no_line_begins(seatbelt_profile_spec(p, session_tmpdir, profile_path, facts), "(allow network"@),
        p.network == Some(NetworkPolicy::Full)
            ==> no_line_begins(seatbelt_profile_spec(p, session_tmpdir, profile_path, facts), "(deny network"@),
{
    lemma_profile_line_facts();
    lemma_profile_text_facts();
    if p.network is None || p.network == Some(NetworkPolicy::Offline) {
        lemma_one_line_begins("(deny network*)\n"@, "(allow network"@, 1);
        lemma_profile_lines(p, session_tmpdir, profile_path, facts, "(allow network"@);
    }
    if p.network == Some(NetworkPolicy::Full) {
        lemma_one_line_begins("(allow network*)\n"@, "(deny network"@, 1);
        lemma_profile_lines(p, session_tmpdir, profile_path, facts, "(deny network"@);
    }
}

} // verus!
