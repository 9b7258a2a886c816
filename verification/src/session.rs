//! The session directory name and the configuration report of a run.
use rand::RngCore;
use vstd::prelude::*;

use crate::policy::types::{
    filters_view, EnvMode, EnvView, FilterAction, PolicyView, SandboxPolicy,
};
use crate::platform::linux::policy_env_view;
use crate::platform::windows::{debug_list, debug_strings, network_display, network_in_force, network_name};
use crate::text::{chars_of, owned, push_char, push_decimal, push_str, decimal, strs_view};

verus! {

/// The characters a session name's random part is made of: the lower-case
/// ASCII letters `a` to `z`, then the digits `0` to `9`.
pub open spec fn charset() -> Seq<char> {
    Seq::new(36, |k: int| if k < 26 { ((k + 97) as u8) as char } else { ((k - 26 + 48) as u8) as char })
}

/// A character of the random part: a lower-case ASCII letter or a digit.
pub open spec fn is_rand_char(c: char) -> bool {
    ('a' <= c && c <= 'z') || ('0' <= c && c <= '9')
}

/// How many random bytes one draw asks the operating system for.
pub const RAND_DRAW_LEN: usize = 64;

/// How many draws a random part may take before giving up.
pub const RAND_DRAWS: usize = 4;

/// [`RAND_DRAW_LEN`] bytes from the operating system's random source
/// (`rand::rngs::OsRng` with `RngCore::try_fill_bytes`); none when the
/// operating system cannot supply them. Which bytes come is not stated.
#[verifier::external_body]
fn random_bytes() -> (res: Option<Vec<u8>>)
    ensures
        res matches Some(v) ==> v@.len() == RAND_DRAW_LEN,
{
    let mut buf = vec![0u8; RAND_DRAW_LEN];
    match rand::rngs::OsRng.try_fill_bytes(&mut buf) {
        Ok(()) => Some(buf),
        Err(_) => None,
    }
}

/// The character at position `i` of [`charset`].
fn charset_char(i: u8) -> (c: char)
    requires
        i < 36,
    ensures
        c == charset()[i as int],
{
    if i < 26 {
        (i + 97) as char
    } else {
        (i - 26 + 48) as char
    }
}

/// The characters that random bytes give, in order: a byte below 252 (a
/// multiple of 36, so that every character is equally likely) stands for
/// the character at its remainder by 36; larger bytes are skipped.
pub open spec fn rand_chars(bytes: Seq<u8>) -> Seq<char>
    decreases bytes.len(),
{
    if bytes.len() == 0 {
        Seq::empty()
    } else {
        rand_chars(bytes.drop_last()) + if bytes.last() < 252 {
            seq![charset()[(bytes.last() % 36) as int]]
        } else {
            Seq::empty()
        }
    }
}

/// At most the first eight characters.
pub open spec fn first_eight(s: Seq<char>) -> Seq<char> {
    if s.len() <= 8 { s } else { s.take(8) }
}

/// Every character that random bytes give is a letter or a digit.
pub proof fn lemma_rand_chars_in_charset(bytes: Seq<u8>)
    ensures
        forall|i: int| 0 <= i < rand_chars(bytes).len() ==> is_rand_char(#[trigger] rand_chars(bytes)[i]),
    decreases bytes.len(),
{
    if bytes.len() > 0 {
        lemma_rand_chars_in_charset(bytes.drop_last());
        let pre = rand_chars(bytes.drop_last());
        assert forall|i: int| 0 <= i < rand_chars(bytes).len() implies is_rand_char(#[trigger] rand_chars(bytes)[i]) by {
            if i >= pre.len() {
                let k = (bytes.last() % 36) as int;
                assert(rand_chars(bytes)[i] == charset()[k]);
            } else {
                assert(rand_chars(bytes)[i] == pre[i]);
            }
        }
    }
}

/// The random part of a session name made from random bytes (see
/// [`rand_chars`]): its first eight characters, or none when the bytes give
/// fewer than eight.
pub fn rand_component_from(bytes: &Vec<u8>) -> (res: Option<String>)
    ensures
        match res {
            Some(s) => rand_chars(bytes@).len() >= 8 && s@ == rand_chars(bytes@).take(8),
            None => rand_chars(bytes@).len() < 8,
        },
{
    let mut res = String::new();
    let mut n: usize = 0;
    let mut i: usize = 0;
    while i < bytes.len()
        invariant
            i <= bytes@.len(),
            n == res@.len(),
            res@ == first_eight(rand_chars(bytes@.take(i as int))),
        decreases bytes@.len() - i,
    {
        let ghost before = rand_chars(bytes@.take(i as int));
        proof {
            assert(bytes@.take(i + 1).drop_last() =~= bytes@.take(i as int));
        }
        let b = bytes[i];
        if b < 252 && n < 8 {
            push_char(&mut res, charset_char(b % 36));
            n = n + 1;
            proof {
                assert(res@ =~= first_eight(rand_chars(bytes@.take(i + 1))));
            }
        } else {
            proof {
                let after = rand_chars(bytes@.take(i + 1));
                if b < 252 {
                    assert(after.take(8) =~= before.take(8));
                }
                assert(res@ =~= first_eight(after));
            }
        }
        i = i + 1;
    }
    proof {
        assert(bytes@.take(bytes@.len() as int) =~= bytes@);
    }
    if n == 8 {
        Some(res)
    } else {
        None
    }
}

/// Eight characters drawn at random, each equally likely, from the lower-case
/// ASCII letters and the digits: up to [`RAND_DRAWS`] draws of
/// [`RAND_DRAW_LEN`] random bytes each, the first that gives eight characters
/// deciding (see [`rand_component_from`]); none when the operating system
/// cannot supply randomness, or no draw gave enough usable bytes (each byte is
/// usable with probability 252/256, so this last case is vanishingly rare).
pub fn generate_rand_component() -> (res: Option<String>)
    ensures
        res matches Some(s) ==> s@.len() == 8 && forall|i: int| 0 <= i < 8 ==> is_rand_char(#[trigger] s@[i]),
        res matches Some(s) ==> exists|bytes: Seq<u8>| #![trigger rand_chars(bytes)]
            bytes.len() == RAND_DRAW_LEN && rand_chars(bytes).len() >= 8 && s@ == rand_chars(bytes).take(8),
{
    let mut attempt: usize = 0;
    while attempt < RAND_DRAWS
        invariant
            attempt <= RAND_DRAWS,
        decreases RAND_DRAWS - attempt,
    {
        match random_bytes() {
            None => return None,
            Some(bytes) => match rand_component_from(&bytes) {
                Some(s) => {
                    proof {
                        assert(bytes@.len() == RAND_DRAW_LEN && rand_chars(bytes@).len() >= 8
                            && s@ == rand_chars(bytes@).take(8));
                        lemma_rand_chars_in_charset(bytes@);
                        assert forall|i: int| 0 <= i < 8 implies is_rand_char(#[trigger] s@[i]) by {
                            assert(s@[i] == rand_chars(bytes@)[i]);
                        }
                    }
                    return Some(s);
                },
                None => {},
            },
        }
        attempt = attempt + 1;
    }
    None
}

/// The name of a session directory: `cage-<pid>-<random part>`.
pub open spec fn session_dir_name_spec(pid: u32, rand: Seq<char>) -> Seq<char> {
    "cage-"@ + decimal(pid as nat) + "-"@ + rand
}

/// The name of a session directory (see [`session_dir_name_spec`]).
pub fn session_dir_name(pid: u32, rand: &str) -> (res: String)
    ensures
        res@ == session_dir_name_spec(pid, rand@),
{
    let mut name = owned("cage-");
    push_decimal(&mut name, pid);
    push_str(&mut name, "-");
    push_str(&mut name, rand);
    name
}

/// The strings joined with `sep` between them.
pub open spec fn join_with(items: Seq<Seq<char>>, sep: Seq<char>) -> Seq<char>
    decreases items.len(),
{
    if items.len() == 0 {
        Seq::empty()
    } else if items.len() == 1 {
        items[0]
    } else {
        join_with(items.drop_last(), sep) + sep + items.last()
    }
}

/// Joins strings with a separator (see [`join_with`]).
pub fn join(items: &Vec<String>, sep: &str) -> (res: String)
    ensures
        res@ == join_with(strs_view(items@), sep@),
{
    let mut res = String::new();
    let mut i: usize = 0;
    while i < items.len()
        invariant
            i <= items@.len(),
            res@ == join_with(strs_view(items@.take(i as int)), sep@),
        decreases items@.len() - i,
    {
        proof {
            assert(strs_view(items@.take(i + 1)).drop_last() =~= strs_view(items@.take(i as int)));
            assert(strs_view(items@.take(i + 1)).last() == items@[i as int]@);
        }
        if i > 0 {
            push_str(&mut res, sep);
        }
        push_str(&mut res, items[i].as_str());
        proof {
            if i == 0 {
                assert(res@ =~= join_with(strs_view(items@.take(1)), sep@));
            }
        }
        i = i + 1;
    }
    proof {
        assert(items@.take(items@.len() as int) =~= items@);
    }
    res
}

/// The lines of a text as `str::lines` gives them: split at `\n`, a `\r`
/// just before it dropped, and no empty last line after a final `\n`.
pub open spec fn lines_spec(s: Seq<char>) -> Seq<Seq<char>>
    decreases s.len(),
{
    if s.len() == 0 {
        Seq::empty()
    } else {
        let e = newline_at(s, 0);
        if e >= s.len() {
            seq![s]
        } else {
            let line = s.take(e);
            let line = if line.len() > 0 && line.last() == '\r' { line.drop_last() } else { line };
            proof {
                lemma_newline_at(s, 0);
            }
            seq![line] + lines_spec(s.skip(e + 1))
        }
    }
}

/// The position of the first `\n` at or after `i` (or the end).
pub open spec fn newline_at(s: Seq<char>, i: int) -> int
    decreases s.len() - i,
{
    if i >= s.len() || s[i] == '\n' {
        i
    } else {
        newline_at(s, i + 1)
    }
}

/// The next line feed from `i` is within the text.
pub proof fn lemma_newline_at(s: Seq<char>, i: int)
    requires
        0 <= i <= s.len(),
    ensures
        i <= newline_at(s, i) <= s.len(),
        newline_at(s, i) < s.len() ==> s[newline_at(s, i)] == '\n',
    decreases s.len() - i,
{
    if i < s.len() && s[i] != '\n' {
        lemma_newline_at(s, i + 1);
    }
}

/// Each line of a text, indented by two spaces (see [`lines_spec`]).
pub open spec fn indented(lines: Seq<Seq<char>>) -> Seq<Seq<char>> {
    lines.map_values(|l: Seq<char>| "  "@ + l)
}

/// The lines of a text, each indented by two spaces (see [`lines_spec`]).
pub fn indent_lines(text: &str) -> (res: Vec<String>)
    ensures
        strs_view(res@) == indented(lines_spec(text@)),
{
    let cs = chars_of(text);
    let ghost full = cs@;
    let mut res: Vec<String> = Vec::new();
    let mut start: usize = 0;
    proof {
        assert(full.skip(0) =~= full);
    }
    while start < cs.len()
        invariant
            full == cs@,
            full == text@,
            start <= full.len(),
            indented(lines_spec(full)) == strs_view(res@) + indented(lines_spec(full.skip(start as int))),
        decreases full.len() - start,
    {
        let ghost rest = full.skip(start as int);
        let mut e = start;
        while e < cs.len() && cs[e] != '\n'
            invariant
                start <= e <= full.len(),
                full == cs@,
                rest == full.skip(start as int),
                newline_at(rest, 0) == newline_at(rest, e - start),
            decreases full.len() - e,
        {
            e = e + 1;
        }
        proof {
            assert(newline_at(rest, e - start) == e - start);
            lemma_newline_at(rest, 0);
        }
        let mut line = owned("  ");
        let mut end = e;
        if e < cs.len() && e > start && cs[e - 1] == '\r' {
            end = e - 1;
        }
        let mut k = start;
        while k < end
            invariant
                start <= k <= end,
                end <= full.len(),
                full == cs@,
                line@ == "  "@ + full.subrange(start as int, k as int),
            decreases end - k,
        {
            push_char(&mut line, cs[k]);
            proof {
                assert(line@ =~= "  "@ + full.subrange(start as int, k + 1));
            }
            k = k + 1;
        }
        let ghost before = strs_view(res@);
        res.push(line);
        proof {
            let l = if e < full.len() {
                let t = rest.take(e - start);
                if t.len() > 0 && t.last() == '\r' { t.drop_last() } else { t }
            } else {
                rest
            };
            assert(l =~= full.subrange(start as int, end as int));
            if e < full.len() {
                assert(rest.skip(e - start + 1) =~= full.skip(e + 1));
                assert(lines_spec(rest) == seq![l] + lines_spec(full.skip(e + 1)));
            } else {
                assert(lines_spec(rest) == seq![l]);
                assert(full.skip(full.len() as int) =~= Seq::<char>::empty());
            }
            assert(indented(lines_spec(rest)) =~= seq!["  "@ + l] + indented(lines_spec(if e < full.len() { full.skip(e + 1) } else { full.skip(e as int) })));
            assert(strs_view(res@) =~= before + seq!["  "@ + l]);
        }
        start = if e < cs.len() { e + 1 } else { e };
    }
    proof {
        assert(full.skip(start as int) =~= Seq::<char>::empty());
        assert(indented(lines_spec(Seq::<char>::empty())) =~= Seq::<Seq<char>>::empty());
        assert(strs_view(res@) + Seq::<Seq<char>>::empty() =~= strs_view(res@));
    }
    res
}

/// The name of an environment mode as it is shown to the user.
pub open spec fn mode_name(m: EnvMode) -> Seq<char> {
    match m {
        EnvMode::DefaultAllow => "DefaultAllow"@,
        EnvMode::DefaultBlock => "DefaultBlock"@,
    }
}

fn mode_display(m: EnvMode) -> (res: &'static str)
    ensures
        res@ == mode_name(m),
{
    match m {
        EnvMode::DefaultAllow => "DefaultAllow",
        EnvMode::DefaultBlock => "DefaultBlock",
    }
}

/// A labelled value line: the label, then the value.
pub open spec fn labelled(label: Seq<char>, value: Seq<char>) -> Seq<char> {
    label + value
}

/// A path list under a heading: one `  - <path>` line per path, or
/// `  (none)`, then an empty line.
pub open spec fn path_section(heading: Seq<char>, paths: Seq<Seq<char>>) -> Seq<Seq<char>> {
    seq![heading] + (if paths.len() == 0 {
        seq!["  (none)"@]
    } else {
        paths.map_values(|p: Seq<char>| "  - "@ + p)
    }) + seq![Seq::<char>::empty()]
}

/// The filter lines: `  - [allow] <pattern>` or `  - [block] <pattern>`.
pub open spec fn filter_lines(filters: Seq<(Seq<char>, FilterAction)>) -> Seq<Seq<char>> {
    filters.map_values(|f: (Seq<char>, FilterAction)| "  - ["@ + (match f.1 {
        FilterAction::Allow => "allow"@,
        FilterAction::Block => "block"@,
    }) + "] "@ + f.0)
}

/// The forced variable lines: `  NAME=value`, in the policy's order.
pub open spec fn set_lines(set: Seq<(String, String)>) -> Seq<Seq<char>> {
    set.map_values(|p: (String, String)| "  "@ + p.0@ + "="@ + p.1@)
}

/// The arguments as the report shows them: in `Debug` notation, and not at
/// all when there are none.
pub open spec fn shown_args(args: Seq<Seq<char>>) -> Option<Seq<char>> {
    if args.len() > 0 { Some(debug_list(args)) } else { None }
}

/// The head of the configuration report: title, policy name, session
/// directory, backend, command and, when shown, the arguments.
pub open spec fn report_head(policy_name: Seq<char>, session_tmpdir: Seq<char>, backend: Seq<char>, command: Seq<char>, args_shown: Option<Seq<char>>) -> Seq<Seq<char>> {
    seq![
        "========================================"@,
        "Cage Sandbox Configuration"@,
        "========================================"@,
        "Policy name:        "@ + policy_name,
        "Session temp dir:   "@ + session_tmpdir,
        "Platform backend:   "@ + backend,
        "Command:            "@ + command
    ]
        + match args_shown {
            Some(a) => seq!["Arguments:          "@ + a],
            None => Seq::empty(),
        }
        + seq![
            Seq::<char>::empty(),
            "----------------------------------------"@,
            "Resolved Policy"@,
            "----------------------------------------"@
        ]
}

/// The resolved policy part of the report: network and path lists.
pub open spec fn report_paths(p: PolicyView) -> Seq<Seq<char>> {
    seq!["network:            "@ + network_name(network_in_force(p)), Seq::<char>::empty()]
        + path_section("writable_roots:"@, p.writable_roots)
        + path_section("write_restricted_paths:"@, p.write_restricted_paths)
        + path_section("read_restricted_paths:"@, p.read_restricted_paths)
}

/// The environment part of the report: mode, filters, forced variables.
pub open spec fn report_env(env: EnvView, env_set: Seq<(String, String)>) -> Seq<Seq<char>> {
    seq!["env.mode:           "@ + mode_name(crate::policy::types::mode_or_default(env.mode))]
        + (if env.filters.len() > 0 { seq!["env.filters:"@] + filter_lines(env.filters) } else { Seq::empty() })
        + (if env_set.len() > 0 { seq!["env.set:"@] + set_lines(env_set) } else { Seq::empty() })
}

/// The tail of the report: the lines that show the generated sandbox.
pub open spec fn report_tail(generated: Seq<Seq<char>>) -> Seq<Seq<char>> {
    seq![
        Seq::<char>::empty(),
        "----------------------------------------"@,
        "Generated Sandbox Command/Profile"@,
        "----------------------------------------"@
    ] + generated + seq![Seq::<char>::empty(), "========================================"@]
}

/// The configuration report printed before a verbose or dry run: the
/// policy name, session directory, platform backend, command and arguments;
/// the resolved policy (network, path lists, environment mode, filters and
/// forced variables, in the policy's order); then the lines that show the
/// generated sandbox.
pub open spec fn debug_info_spec(
    p: PolicyView,
    env_set: Seq<(String, String)>,
    policy_name: Seq<char>,
    session_tmpdir: Seq<char>,
    backend: Seq<char>,
    command: Seq<char>,
    args_shown: Option<Seq<char>>,
    generated: Seq<Seq<char>>,
) -> Seq<Seq<char>> {
    report_head(policy_name, session_tmpdir, backend, command, args_shown)
        + report_paths(p)
        + report_env(policy_env_view(p), env_set)
        + report_tail(generated)
}

fn push_line(lines: &mut Vec<String>, a: &str, b: &str)
    ensures
        strs_view(final(lines)@) == strs_view(old(lines)@).push(a@ + b@),
{
    let mut l = owned(a);
    push_str(&mut l, b);
    lines.push(l);
    proof {
        assert(strs_view(final(lines)@) =~= strs_view(old(lines)@).push(a@ + b@));
    }
}

fn push_single(lines: &mut Vec<String>, a: &str)
    ensures
        strs_view(final(lines)@) == strs_view(old(lines)@).push(a@),
{
    lines.push(owned(a));
    proof {
        assert(strs_view(final(lines)@) =~= strs_view(old(lines)@).push(a@));
    }
}

fn push_empty(lines: &mut Vec<String>)
    ensures
        strs_view(final(lines)@) == strs_view(old(lines)@).push(Seq::<char>::empty()),
{
    lines.push(String::new());
    proof {
        assert(strs_view(final(lines)@) =~= strs_view(old(lines)@).push(Seq::<char>::empty()));
    }
}

fn push_path_section(lines: &mut Vec<String>, heading: &str, paths: &Vec<String>)
    ensures
        strs_view(final(lines)@) == strs_view(old(lines)@) + path_section(heading@, strs_view(paths@)),
{
    push_single(lines, heading);
    let ghost start = strs_view(lines@);
    if paths.len() == 0 {
        push_single(lines, "  (none)");
    } else {
        let mut i: usize = 0;
        while i < paths.len()
            invariant
                i <= paths@.len(),
                strs_view(lines@) == start + strs_view(paths@.take(i as int)).map_values(|p: Seq<char>| "  - "@ + p),
            decreases paths@.len() - i,
        {
            push_line(lines, "  - ", paths[i].as_str());
            proof {
                assert(strs_view(paths@.take(i + 1)).map_values(|p: Seq<char>| "  - "@ + p)
                    =~= strs_view(paths@.take(i as int)).map_values(|p: Seq<char>| "  - "@ + p).push("  - "@ + paths@[i as int]@));
            }
            i = i + 1;
        }
        proof {
            assert(paths@.take(paths@.len() as int) =~= paths@);
        }
    }
    let ghost mid = strs_view(lines@);
    push_empty(lines);
    proof {
        let body = if paths@.len() == 0 {
            seq!["  (none)"@]
        } else {
            strs_view(paths@).map_values(|p: Seq<char>| "  - "@ + p)
        };
        assert(mid =~= start + body);
        assert(strs_view(final(lines)@) =~= strs_view(old(lines)@) + path_section(heading@, strs_view(paths@)));
    }
}

fn head_lines(policy_name: &str, session_tmpdir: &str, backend: &str, command: &str, args_shown: Option<&str>) -> (res: Vec<String>)
    ensures
        strs_view(res@) == report_head(policy_name@, session_tmpdir@, backend@, command@, opt_str(args_shown)),
{
    let mut lines: Vec<String> = Vec::new();
    push_single(&mut lines, "========================================");
    push_single(&mut lines, "Cage Sandbox Configuration");
    push_single(&mut lines, "========================================");
    push_line(&mut lines, "Policy name:        ", policy_name);
    push_line(&mut lines, "Session temp dir:   ", session_tmpdir);
    push_line(&mut lines, "Platform backend:   ", backend);
    push_line(&mut lines, "Command:            ", command);
    let ghost mid = strs_view(lines@);
    if let Some(a) = args_shown {
        push_line(&mut lines, "Arguments:          ", a);
    }
    proof {
        let part = match args_shown {
            Some(a) => seq!["Arguments:          "@ + a@],
            None => Seq::empty(),
        };
        assert(strs_view(lines@) =~= mid + part);
    }
    push_empty(&mut lines);
    push_single(&mut lines, "----------------------------------------");
    push_single(&mut lines, "Resolved Policy");
    push_single(&mut lines, "----------------------------------------");
    proof {
        assert(strs_view(lines@) =~= report_head(policy_name@, session_tmpdir@, backend@, command@, opt_str(args_shown)));
    }
    lines
}

fn path_lines(policy: &SandboxPolicy) -> (res: Vec<String>)
    ensures
        strs_view(res@) == report_paths(policy@),
{
    let mut lines: Vec<String> = Vec::new();
    push_line(&mut lines, "network:            ", network_display(policy.network()));
    push_empty(&mut lines);
    push_path_section(&mut lines, "writable_roots:", &policy.writable_roots);
    push_path_section(&mut lines, "write_restricted_paths:", &policy.write_restricted_paths);
    push_path_section(&mut lines, "read_restricted_paths:", &policy.read_restricted_paths);
    proof {
        assert(strs_view(lines@) =~= report_paths(policy@));
    }
    lines
}

fn env_lines(env: &crate::policy::types::EnvPolicy) -> (res: Vec<String>)
    ensures
        strs_view(res@) == report_env(env@, env.set@),
{
    let mut lines: Vec<String> = Vec::new();
    push_line(&mut lines, "env.mode:           ", mode_display(env.mode()));
    let ghost before_filters = strs_view(lines@);
    if env.filters.len() > 0 {
        push_single(&mut lines, "env.filters:");
        let ghost start = strs_view(lines@);
        let mut i: usize = 0;
        while i < env.filters.len()
            invariant
                i <= env.filters@.len(),
                strs_view(lines@) == start + filter_lines(filters_view(env.filters@.take(i as int))),
            decreases env.filters@.len() - i,
        {
            let action = match env.filters[i].action {
                FilterAction::Allow => "allow",
                FilterAction::Block => "block",
            };
            let mut l = owned("  - [");
            push_str(&mut l, action);
            push_str(&mut l, "] ");
            push_str(&mut l, env.filters[i].pattern.as_str());
            let ghost prev = lines@;
            lines.push(l);
            proof {
                assert(filter_lines(filters_view(env.filters@.take(i + 1)))
                    =~= filter_lines(filters_view(env.filters@.take(i as int))).push(l@));
                assert(strs_view(lines@) =~= strs_view(prev).push(l@));
            }
            i = i + 1;
        }
        proof {
            assert(env.filters@.take(env.filters@.len() as int) =~= env.filters@);
        }
    }
    proof {
        let part = if env@.filters.len() > 0 { seq!["env.filters:"@] + filter_lines(env@.filters) } else { Seq::empty() };
        assert(strs_view(lines@) =~= before_filters + part);
    }
    let ghost before_set = strs_view(lines@);
    if env.set.len() > 0 {
        push_single(&mut lines, "env.set:");
        let ghost start = strs_view(lines@);
        let mut i: usize = 0;
        while i < env.set.len()
            invariant
                i <= env.set@.len(),
                strs_view(lines@) == start + set_lines(env.set@.take(i as int)),
            decreases env.set@.len() - i,
        {
            let mut l = owned("  ");
            push_str(&mut l, env.set[i].0.as_str());
            push_str(&mut l, "=");
            push_str(&mut l, env.set[i].1.as_str());
            let ghost prev = lines@;
            lines.push(l);
            proof {
                assert(set_lines(env.set@.take(i + 1)) =~= set_lines(env.set@.take(i as int)).push(l@));
                assert(strs_view(lines@) =~= strs_view(prev).push(l@));
            }
            i = i + 1;
        }
        proof {
            assert(env.set@.take(env.set@.len() as int) =~= env.set@);
        }
    }
    proof {
        let part = if env.set@.len() > 0 { seq!["env.set:"@] + set_lines(env.set@) } else { Seq::empty() };
        assert(strs_view(lines@) =~= before_set + part);
        assert(strs_view(lines@) =~= report_env(env@, env.set@));
    }
    lines
}

fn tail_lines(generated: &Vec<String>) -> (res: Vec<String>)
    ensures
        strs_view(res@) == report_tail(strs_view(generated@)),
{
    let mut lines: Vec<String> = Vec::new();
    push_empty(&mut lines);
    push_single(&mut lines, "----------------------------------------");
    push_single(&mut lines, "Generated Sandbox Command/Profile");
    push_single(&mut lines, "----------------------------------------");
    crate::platform::append_owned(&mut lines, crate::text::clone_strs(generated));
    push_empty(&mut lines);
    push_single(&mut lines, "========================================");
    proof {
        assert(strs_view(lines@) =~= report_tail(strs_view(generated@)));
    }
    lines
}

/// The view of an optional string slice.
pub open spec fn opt_str(o: Option<&str>) -> Option<Seq<char>> {
    match o {
        Some(s) => Some(s@),
        None => None,
    }
}

/// The configuration report (see [`debug_info_spec`]), one string per line,
/// with the arguments already rendered as they are to be shown.
pub fn report_lines(
    policy: &SandboxPolicy,
    policy_name: &str,
    session_tmpdir: &str,
    backend: &str,
    command: &str,
    args_shown: Option<&str>,
    generated: &Vec<String>,
) -> (res: Vec<String>)
    ensures
        strs_view(res@) == debug_info_spec(policy@, crate::policy::types::env_set_of(*policy), policy_name@,
            session_tmpdir@, backend@, command@, opt_str(args_shown), strs_view(generated@)),
{
    let env = policy.env();
    let mut lines = head_lines(policy_name, session_tmpdir, backend, command, args_shown);
    crate::platform::append_owned(&mut lines, path_lines(policy));
    crate::platform::append_owned(&mut lines, env_lines(&env));
    crate::platform::append_owned(&mut lines, tail_lines(generated));
    lines
}

/// The configuration report (see [`debug_info_spec`]), one string per line;
/// the arguments are shown in `Debug` notation when there are any.
pub fn debug_info_lines(
    policy: &SandboxPolicy,
    policy_name: &str,
    session_tmpdir: &str,
    backend: &str,
    command: &str,
    args: &Vec<String>,
    generated: &Vec<String>,
) -> (res: Vec<String>)
    ensures
        strs_view(res@) == debug_info_spec(policy@, crate::policy::types::env_set_of(*policy), policy_name@,
            session_tmpdir@, backend@, command@, shown_args(strs_view(args@)), strs_view(generated@)),
{
    if args.len() > 0 {
        let shown = debug_strings(args);
        report_lines(policy, policy_name, session_tmpdir, backend, command, Some(shown.as_str()), generated)
    } else {
        report_lines(policy, policy_name, session_tmpdir, backend, command, None, generated)
    }
}

/// The generated-sandbox lines of the report on Linux: the bubblewrap
/// command as run, and the arguments passed to it through the memory file.
pub open spec fn linux_generated_spec(bwrap: Seq<char>, command: Seq<char>, args: Seq<Seq<char>>, argv: Seq<Seq<char>>) -> Seq<Seq<char>> {
    seq![
        "bwrap command:"@,
        "  "@ + bwrap + " --args <memfd> -- "@ + command + " "@ + join_with(args, " "@),
        Seq::<char>::empty(),
        "Arguments passed via memfd:"@,
        "  "@ + join_with(argv.drop_first(), " "@)
    ]
}

/// The generated-sandbox lines of the report on Linux (see
/// [`linux_generated_spec`]); `argv` is the full bubblewrap command line.
pub fn linux_generated_lines(bwrap: &str, command: &str, args: &Vec<String>, argv: &Vec<String>) -> (res: Vec<String>)
    requires
        argv@.len() >= 1,
    ensures
        strs_view(res@) == linux_generated_spec(bwrap@, command@, strs_view(args@), strs_view(argv@)),
{
    let mut lines: Vec<String> = Vec::new();
    push_single(&mut lines, "bwrap command:");
    let mut cmd = owned("  ");
    push_str(&mut cmd, bwrap);
    push_str(&mut cmd, " --args <memfd> -- ");
    push_str(&mut cmd, command);
    push_str(&mut cmd, " ");
    let joined = join(args, " ");
    push_str(&mut cmd, joined.as_str());
    proof {
        assert(cmd@ =~= "  "@ + bwrap@ + " --args <memfd> -- "@ + command@ + " "@ + join_with(strs_view(args@), " "@));
        assert(strs_view(lines@) =~= seq!["bwrap command:"@]);
    }
    let ghost l1 = strs_view(lines@);
    lines.push(cmd);
    proof {
        assert(strs_view(lines@) =~= l1.push(cmd@));
    }
    push_empty(&mut lines);
    push_single(&mut lines, "Arguments passed via memfd:");
    let mut rest: Vec<String> = Vec::new();
    let mut i: usize = 1;
    while i < argv.len()
        invariant
            1 <= i <= argv@.len(),
            rest@ == argv@.subrange(1, i as int),
        decreases argv@.len() - i,
    {
        rest.push(argv[i].clone());
        proof {
            assert(rest@ =~= argv@.subrange(1, i + 1));
        }
        i = i + 1;
    }
    proof {
        assert(strs_view(rest@) =~= strs_view(argv@).drop_first());
    }
    let mut last = owned("  ");
    let joined_rest = join(&rest, " ");
    push_str(&mut last, joined_rest.as_str());
    let ghost l2 = strs_view(lines@);
    lines.push(last);
    proof {
        assert(strs_view(lines@) =~= l2.push(last@));
        assert(last@ =~= "  "@ + join_with(strs_view(argv@).drop_first(), " "@));
    }
    proof {
        assert(strs_view(lines@) =~= linux_generated_spec(bwrap@, command@, strs_view(args@), strs_view(argv@)));
    }
    lines
}

/// The generated-sandbox lines of the report on macOS: the profile, indented.
pub fn macos_generated_lines(profile: &str) -> (res: Vec<String>)
    ensures
        strs_view(res@) == seq!["Seatbelt profile:"@] + indented(lines_spec(profile@)),
{
    let mut lines: Vec<String> = Vec::new();
    push_single(&mut lines, "Seatbelt profile:");
    crate::platform::append_owned(&mut lines, indent_lines(profile));
    lines
}

/// What a run does once its policy is resolved.
#[derive(Debug, Clone, Copy, PartialEq, Eq, Structural)]
pub struct RunSteps {
    /// Print the configuration report.
    pub show_report: bool,
    /// Print it to standard output (else to standard error).
    pub report_to_stdout: bool,
    /// Run the command in the sandbox.
    pub execute: bool,
}

/// The steps of a run: the report is shown for a verbose or a dry run, on
/// standard output for a dry run (which then stops without running the
/// command) and on standard error otherwise.
pub fn run_steps(verbose: bool, dry_run: bool) -> (res: RunSteps)
    ensures
        res.show_report == (verbose || dry_run),
        res.report_to_stdout == dry_run,
        res.execute == !dry_run,
{
    RunSteps { show_report: verbose || dry_run, report_to_stdout: dry_run, execute: !dry_run }
}

} // verus!
