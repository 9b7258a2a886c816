//! Applying an environment policy, and expanding the path templates of a
//! policy (`~`, `$CWD`, `$NAME`, `${NAME}`).
use vstd::prelude::*;

use crate::env_map::{insert_all, insert_or_replace, keys_distinct, pairs_map};
pub use crate::glob::glob_match;
use crate::paths::{home_dir, join_path, path_join};
use crate::text::{chars_of, owned, push_char, push_str, starts_with, str_eq};
use crate::policy::types::{env_admits, filtered_env, first_match, EnvMode, EnvPolicy, EnvView, FilterAction};

verus! {

/// The entries of `env` that the policy admits.
pub open spec fn admitted(p: EnvView, env: Map<Seq<char>, Seq<char>>) -> Map<Seq<char>, Seq<char>> {
    Map::new(|k: Seq<char>| env.contains_key(k) && env_admits(p, k), |k: Seq<char>| env[k])
}

impl EnvPolicy {
    /// Whether the variable `name` passes filtering: the first filter whose
    /// pattern matches decides, and the mode decides when none matches.
    pub fn admits(&self, name: &str) -> (res: bool)
        ensures
            res == env_admits(self@, name@),
    {
        let mut i: usize = 0;
        proof {
            assert(self@.filters.skip(0) =~= self@.filters);
        }
        while i < self.filters.len()
            invariant
                i <= self.filters@.len(),
                self@.filters.len() == self.filters@.len(),
                first_match(self@.filters, name@) == first_match(self@.filters.skip(i as int), name@),
            decreases self.filters@.len() - i,
        {
            proof {
                assert(self@.filters.skip(i as int).drop_first() =~= self@.filters.skip(i + 1));
                assert(self@.filters.skip(i as int)[0] == self@.filters[i as int]);
            }
            if glob_match(self.filters[i].pattern.as_str(), name) {
                return match self.filters[i].action {
                    FilterAction::Allow => true,
                    FilterAction::Block => false,
                };
            }
            i = i + 1;
        }
        match self.mode() {
            EnvMode::DefaultAllow => true,
            EnvMode::DefaultBlock => false,
        }
    }

    /// Filters an environment: each variable is kept when the first filter
    /// whose pattern matches its name allows it, or, when none matches, when
    /// the mode allows by default; the forced variables are then set on top.
    /// The result names each variable once.
    pub fn filter(&self, env: &Vec<(String, String)>) -> (res: Vec<(String, String)>)
        ensures
            pairs_map(res@) == filtered_env(self@, pairs_map(env@)),
            keys_distinct(res@),
    {
        let mut result: Vec<(String, String)> = Vec::new();
        let mut i: usize = 0;
        proof {
            assert(admitted(self@, pairs_map(env@.take(0))) =~= pairs_map(result@));
        }
        while i < env.len()
            invariant
                i <= env@.len(),
                pairs_map(result@) == admitted(self@, pairs_map(env@.take(i as int))),
                keys_distinct(result@),
            decreases env@.len() - i,
        {
            let ghost before = pairs_map(env@.take(i as int));
            proof {
                assert(env@.take(i + 1).drop_last() =~= env@.take(i as int));
            }
            if self.admits(env[i].0.as_str()) {
                insert_or_replace(&mut result, env[i].0.clone(), env[i].1.clone());
                proof {
                    assert(admitted(self@, pairs_map(env@.take(i + 1))) =~= admitted(self@, before).insert(env@[i as int].0@, env@[i as int].1@));
                }
            } else {
                proof {
                    assert(admitted(self@, pairs_map(env@.take(i + 1))) =~= admitted(self@, before));
                }
            }
            i = i + 1;
        }
        proof {
            assert(env@.take(env@.len() as int) =~= env@);
        }
        insert_all(&mut result, &self.set);
        proof {
            assert(pairs_map(result@) =~= filtered_env(self@, pairs_map(env@)));
        }
        result
    }
}


/// What `char::is_alphanumeric` says of a character (Unicode `Alphabetic` or `Numeric`).
pub uninterp spec fn char_is_alphanumeric(c: char) -> bool;

/// `char::is_alphanumeric`: whether `c` is alphabetic or numeric in Unicode.
/// Its result is named by `char_is_alphanumeric`; of ASCII characters exactly
/// the letters and digits are alphanumeric.
#[verifier::external_body]
fn is_alphanumeric(c: char) -> (res: bool)
    ensures
        res == char_is_alphanumeric(c),
        (c as u32) < 128 ==> (res <==> (('a' <= c && c <= 'z') || ('A' <= c && c <= 'Z') || ('0' <= c && c <= '9'))),
{
    c.is_alphanumeric()
}

/// A character that can continue a `$NAME` reference: an ASCII letter,
/// digit or `_`; beyond ASCII, what `char::is_alphanumeric` says.
pub open spec fn is_name_char(c: char) -> bool {
    if (c as u32) < 128 {
        ('a' <= c && c <= 'z') || ('A' <= c && c <= 'Z') || ('0' <= c && c <= '9') || c == '_'
    } else {
        char_is_alphanumeric(c)
    }
}

/// The end of the run of name characters that starts at `i`.
pub open spec fn name_end(s: Seq<char>, i: int) -> int
    decreases s.len() - i,
{
    if i >= s.len() || !is_name_char(s[i]) {
        i
    } else {
        name_end(s, i + 1)
    }
}

/// The position of the first `}` at or after `i`, or the end of `s`.
pub open spec fn brace_end(s: Seq<char>, i: int) -> int
    decreases s.len() - i,
{
    if i >= s.len() || s[i] == '}' {
        i
    } else {
        brace_end(s, i + 1)
    }
}

/// A name that starts at `i` ends within the text.
pub proof fn lemma_name_end(s: Seq<char>, i: int)
    requires
        0 <= i,
    ensures
        i <= name_end(s, i),
        i <= s.len() ==> name_end(s, i) <= s.len(),
    decreases s.len() - i,
{
    if i < s.len() && is_name_char(s[i]) {
        lemma_name_end(s, i + 1);
    }
}

/// The next `}` from `i` is within the text.
pub proof fn lemma_brace_end(s: Seq<char>, i: int)
    requires
        0 <= i,
    ensures
        i <= brace_end(s, i),
        i <= s.len() ==> brace_end(s, i) <= s.len(),
    decreases s.len() - i,
{
    if i < s.len() && s[i] != '}' {
        lemma_brace_end(s, i + 1);
    }
}

/// The value of a variable: `CWD` is the working directory, any other name
/// is looked up among the environment variables.
pub open spec fn var_value(name: Seq<char>, cwd: Seq<char>, vars: Seq<(String, String)>) -> Option<Seq<char>> {
    if name == "CWD"@ {
        Some(cwd)
    } else if pairs_map(vars).contains_key(name) {
        Some(pairs_map(vars)[name])
    } else {
        None
    }
}

/// Both parts, concatenated, when both exist.
pub open spec fn concat_opt(a: Option<Seq<char>>, b: Option<Seq<char>>) -> Option<Seq<char>> {
    match (a, b) {
        (Some(x), Some(y)) => Some(x + y),
        _ => None,
    }
}

/// `s[i..]` with `$NAME` and `${NAME}` replaced by the variables' values; a
/// `$` that no name follows stays as it is, and `${` takes everything up to
/// the next `}` (or the end) as the name. No value when a variable is unset.
pub open spec fn expand_vars_from(s: Seq<char>, i: int, cwd: Seq<char>, vars: Seq<(String, String)>) -> Option<Seq<char>>
    decreases s.len() - i,
    when 0 <= i
{
    if i >= s.len() {
        Some(Seq::empty())
    } else if s[i] == '$' {
        if i + 1 < s.len() && s[i + 1] == '{' {
            proof {
                lemma_brace_end(s, i + 2);
            }
            let e = brace_end(s, i + 2);
            let next = if e < s.len() { e + 1 } else { e };
            concat_opt(var_value(s.subrange(i + 2, e), cwd, vars), expand_vars_from(s, next, cwd, vars))
        } else {
            proof {
                lemma_name_end(s, i + 1);
            }
            let e = name_end(s, i + 1);
            if e == i + 1 {
                concat_opt(Some(seq!['$']), expand_vars_from(s, i + 1, cwd, vars))
            } else {
                concat_opt(var_value(s.subrange(i + 1, e), cwd, vars), expand_vars_from(s, e, cwd, vars))
            }
        }
    } else {
        concat_opt(Some(seq![s[i]]), expand_vars_from(s, i + 1, cwd, vars))
    }
}

/// The text with its variables expanded (see [`expand_vars_from`]).
pub open spec fn expand_vars(s: Seq<char>, cwd: Seq<char>, vars: Seq<(String, String)>) -> Option<Seq<char>> {
    expand_vars_from(s, 0, cwd, vars)
}

/// The path a configured template stands for. A leading `~` needs the home
/// directory: `~` alone is it, `~/rest` is `rest` (variables expanded) under
/// it, and any other `~...` is taken literally relative to `cwd`. Without a
/// leading `~`, variables are expanded and a relative result is placed under
/// `cwd`. No value when the home directory is unknown where needed or a
/// variable is unset.
pub open spec fn expand_path_spec(t: Seq<char>, cwd: Seq<char>, home: Option<Seq<char>>, vars: Seq<(String, String)>) -> Option<Seq<char>> {
    if t.len() > 0 && t[0] == '~' {
        match home {
            None => None,
            Some(h) => if t.len() == 1 {
                Some(h)
            } else if t[1] == '/' {
                match expand_vars(t.skip(2), cwd, vars) {
                    Some(p) => Some(path_join(h, p)),
                    None => None,
                }
            } else {
                Some(path_join(cwd, t))
            },
        }
    } else {
        match expand_vars(t, cwd, vars) {
            Some(p) => Some(path_join(cwd, p)),
            None => None,
        }
    }
}

/// The view of an optional string.
pub open spec fn opt_view(o: Option<String>) -> Option<Seq<char>> {
    match o {
        Some(s) => Some(s@),
        None => None,
    }
}

/// The value of a variable (see [`var_value`]).
pub fn lookup_var(name: &str, cwd: &str, vars: &Vec<(String, String)>) -> (res: Option<String>)
    ensures
        opt_view(res) == var_value(name@, cwd@, vars@),
{
    if str_eq(name, "CWD") {
        return Some(owned(cwd));
    }
    proof {
        crate::env_map::lemma_pairs_map_dom(vars@, name@);
    }
    let mut i = vars.len();
    while i > 0
        invariant
            i <= vars@.len(),
            name@ != "CWD"@,
            forall|j: int| i <= j < vars@.len() ==> vars@[j].0@ != name@,
        decreases i,
    {
        if str_eq(vars[i - 1].0.as_str(), name) {
            let v = vars[i - 1].1.clone();
            proof {
                crate::env_map::lemma_pairs_map_last(vars@, i - 1);
                assert(name@ != "CWD"@);
                assert(v@ == vars@[i - 1].1@);
            }
            return Some(v);
        }
        i = i - 1;
    }
    None
}

/// Expands `$NAME` and `${NAME}` in `s` (see [`expand_vars_from`]).
pub fn expand_all_vars(s: &str, cwd: &str, vars: &Vec<(String, String)>) -> (res: Option<String>)
    ensures
        opt_view(res) == expand_vars(s@, cwd@, vars@),
{
    let cs = chars_of(s);
    let ghost sv = cs@;
    let n = cs.len();
    let mut result = String::new();
    let mut i: usize = 0;
    while i < n
        invariant
            sv == cs@,
            sv == s@,
            n == sv.len(),
            i <= n,
            expand_vars(sv, cwd@, vars@) == concat_opt(Some(result@), expand_vars_from(sv, i as int, cwd@, vars@)),
        decreases n - i,
    {
        let ghost before = result@;
        let ghost i0 = i as int;
        if cs[i] == '$' {
            if i + 1 < n && cs[i + 1] == '{' {
                let mut e = i + 2;
                let mut name = String::new();
                while e < n && cs[e] != '}'
                    invariant
                        sv == cs@,
                        n == sv.len(),
                        i + 2 <= e <= n,
                        name@ == sv.subrange(i + 2, e as int),
                        brace_end(sv, i + 2) == brace_end(sv, e as int),
                    decreases n - e,
                {
                    push_char(&mut name, cs[e]);
                    proof {
                        assert(name@ =~= sv.subrange(i + 2, e + 1));
                    }
                    e = e + 1;
                }
                let value = lookup_var(name.as_str(), cwd, vars);
                let ghost next: int = if e < n { e + 1 } else { e as int };
                proof {
                    assert(brace_end(sv, e as int) == e);
                    assert(expand_vars_from(sv, i0, cwd@, vars@) == concat_opt(var_value(name@, cwd@, vars@), expand_vars_from(sv, next, cwd@, vars@)));
                }
                match value {
                    Some(v) => push_str(&mut result, v.as_str()),
                    None => return None,
                }
                i = if e < n { e + 1 } else { e };
                proof {
                    assert(result@ =~= before + var_value(name@, cwd@, vars@).unwrap());
                    let x = expand_vars_from(sv, next, cwd@, vars@);
                    if x is Some {
                        assert(before + (result@.subrange(before.len() as int, result@.len() as int) + x.unwrap()) =~= result@ + x.unwrap());
                    }
                }
            } else {
                let mut e = i + 1;
                let mut name = String::new();
                while e < n && (is_alphanumeric(cs[e]) || cs[e] == '_')
                    invariant
                        sv == cs@,
                        n == sv.len(),
                        i + 1 <= e <= n,
                        name@ == sv.subrange(i + 1, e as int),
                        name_end(sv, i + 1) == name_end(sv, e as int),
                    decreases n - e,
                {
                    push_char(&mut name, cs[e]);
                    proof {
                        assert(name@ =~= sv.subrange(i + 1, e + 1));
                    }
                    e = e + 1;
                }
                proof {
                    assert(name_end(sv, e as int) == e);
                }
                if e == i + 1 {
                    push_char(&mut result, '$');
                    proof {
                        assert(expand_vars_from(sv, i0, cwd@, vars@) == concat_opt(Some(seq!['$']), expand_vars_from(sv, i0 + 1, cwd@, vars@)));
                        let x = expand_vars_from(sv, i0 + 1, cwd@, vars@);
                        if x is Some {
                            assert(before + (seq!['$'] + x.unwrap()) =~= result@ + x.unwrap());
                        }
                    }
                } else {
                    let value = lookup_var(name.as_str(), cwd, vars);
                    proof {
                        assert(expand_vars_from(sv, i0, cwd@, vars@) == concat_opt(var_value(name@, cwd@, vars@), expand_vars_from(sv, e as int, cwd@, vars@)));
                    }
                    match value {
                        Some(v) => push_str(&mut result, v.as_str()),
                        None => return None,
                    }
                    proof {
                        let x = expand_vars_from(sv, e as int, cwd@, vars@);
                        if x is Some {
                            assert(before + (var_value(name@, cwd@, vars@).unwrap() + x.unwrap()) =~= result@ + x.unwrap());
                        }
                    }
                }
                i = e;
            }
        } else {
            push_char(&mut result, cs[i]);
            i = i + 1;
            proof {
                assert(expand_vars_from(sv, i0, cwd@, vars@) == concat_opt(Some(seq![sv[i0]]), expand_vars_from(sv, i0 + 1, cwd@, vars@)));
                let x = expand_vars_from(sv, i0 + 1, cwd@, vars@);
                if x is Some {
                    assert(before + (seq![sv[i0]] + x.unwrap()) =~= result@ + x.unwrap());
                }
            }
        }
    }
    proof {
        assert(result@ + Seq::<char>::empty() =~= result@);
    }
    Some(result)
}

/// The path a template stands for, given the home directory (see
/// [`expand_path_spec`]).
pub fn expand_path_in(template: &str, cwd: &str, home: Option<&str>, vars: &Vec<(String, String)>) -> (res: Option<String>)
    ensures
        opt_view(res) == expand_path_spec(template@, cwd@, match home {
            Some(h) => Some(h@),
            None => None,
        }, vars@),
{
    let t = chars_of(template);
    if t.len() > 0 && t[0] == '~' {
        let h = match home {
            Some(h) => h,
            None => return None,
        };
        if t.len() == 1 {
            return Some(owned(h));
        }
        if t[1] == '/' {
            let mut rest_chars: Vec<char> = Vec::new();
            let mut i: usize = 2;
            while i < t.len()
                invariant
                    2 <= i <= t.len(),
                    rest_chars@ == t@.subrange(2, i as int),
                decreases t.len() - i,
            {
                rest_chars.push(t[i]);
                proof {
                    assert(rest_chars@ =~= t@.subrange(2, i + 1));
                }
                i = i + 1;
            }
            let rest = crate::text::string_of(&rest_chars);
            proof {
                assert(rest@ =~= template@.skip(2));
            }
            return match expand_all_vars(rest.as_str(), cwd, vars) {
                Some(p) => Some(join_path(h, p.as_str())),
                None => None,
            };
        }
        return Some(join_path(cwd, template));
    }
    match expand_all_vars(template, cwd, vars) {
        Some(p) => Some(join_path(cwd, p.as_str())),
        None => None,
    }
}

/// The path a configured template stands for (see [`expand_path_spec`]):
/// `~` is the home directory, `$CWD` the working directory `cwd`, `$NAME`
/// and `${NAME}` the variables of `vars`, and a relative result lies under
/// `cwd`. No value when a variable is unset. The home directory is asked for
/// (only) when the template starts with `~`, and whatever it is, the result
/// is the template's expansion with it.
pub fn expand_path(template: &str, cwd: &str, vars: &Vec<(String, String)>) -> (res: Option<String>)
    ensures
        !(template@.len() > 0 && template@[0] == '~') ==> opt_view(res) == expand_path_spec(template@, cwd@, None, vars@),
        exists|h: Option<Seq<char>>| opt_view(res) == expand_path_spec(template@, cwd@, h, vars@),
{
    if starts_with(template, "~") {
        let home = home_dir();
        let res = match &home {
            Some(h) => expand_path_in(template, cwd, Some(h.as_str()), vars),
            None => expand_path_in(template, cwd, None, vars),
        };
        proof {
            let h = opt_view(home);
            assert(opt_view(res) == expand_path_spec(template@, cwd@, h, vars@));
        }
        res
    } else {
        let res = expand_path_in(template, cwd, None, vars);
        proof {
            assert(opt_view(res) == expand_path_spec(template@, cwd@, None, vars@));
        }
        res
    }
}

/// Text without `$` needs no variables and expands to itself.
pub proof fn law_plain_text_expands_to_itself(s: Seq<char>, i: int, cwd: Seq<char>, vars: Seq<(String, String)>)
    requires
        0 <= i <= s.len(),
        forall|t: int| 0 <= t < s.len() ==> s[t] != '$',
    ensures
        expand_vars_from(s, i, cwd, vars) == Some(s.skip(i)),
    decreases s.len() - i,
{
    if i < s.len() {
        law_plain_text_expands_to_itself(s, i + 1, cwd, vars);
        assert(seq![s[i]] + s.skip(i + 1) =~= s.skip(i));
    } else {
        assert(s.skip(i) =~= Seq::<char>::empty());
    }
}

/// A path without `~` or `$` is placed under the working directory when it
/// is relative and kept as it is when absolute.
pub proof fn law_plain_paths(t: Seq<char>, cwd: Seq<char>, home: Option<Seq<char>>, vars: Seq<(String, String)>)
    requires
        forall|i: int| 0 <= i < t.len() ==> t[i] != '$' && t[i] != '~',
    ensures
        expand_path_spec(t, cwd, home, vars) == Some(path_join(cwd, t)),
        crate::paths::is_absolute(t) ==> expand_path_spec(t, cwd, home, vars) == Some(t),
{
    law_plain_text_expands_to_itself(t, 0, cwd, vars);
    assert(t.skip(0) =~= t);
}

/// Joining onto an absolute path gives an absolute path.
pub proof fn lemma_join_absolute(base: Seq<char>, p: Seq<char>)
    requires
        crate::paths::is_absolute(base),
    ensures
        crate::paths::is_absolute(path_join(base, p)),
{
    if !crate::paths::is_absolute(p) {
        if base.last() != '/' {
            assert((base + seq!['/'] + p)[0] == base[0]);
        } else {
            assert((base + p)[0] == base[0]);
        }
    }
}

/// With an absolute working directory and home directory, every path a
/// template stands for is absolute; and a template stands for none exactly
/// when it needs the home directory and that is unknown, or a variable it
/// names is unset.
pub proof fn law_expansions_are_absolute(t: Seq<char>, cwd: Seq<char>, home: Option<Seq<char>>, vars: Seq<(String, String)>)
    requires
        crate::paths::is_absolute(cwd),
        home matches Some(h) ==> crate::paths::is_absolute(h),
    ensures
        expand_path_spec(t, cwd, home, vars) matches Some(r) ==> crate::paths::is_absolute(r),
        expand_path_spec(t, cwd, home, vars) is None <==> (
            if t.len() > 0 && t[0] == '~' {
                home is None || (t.len() > 1 && t[1] == '/' && expand_vars(t.skip(2), cwd, vars) is None)
            } else {
                expand_vars(t, cwd, vars) is None
            }),
{
    if t.len() > 0 && t[0] == '~' {
        if let Some(h) = home {
            if t.len() > 1 && t[1] == '/' {
                if let Some(p) = expand_vars(t.skip(2), cwd, vars) {
                    lemma_join_absolute(h, p);
                }
            } else if t.len() > 1 {
                lemma_join_absolute(cwd, t);
            }
        }
    } else {
        if let Some(p) = expand_vars(t, cwd, vars) {
            lemma_join_absolute(cwd, p);
        }
    }
}

/// A variable name that stands for nothing: not `CWD`, and unset.
pub open spec fn unset_name(name: Seq<char>, vars: Seq<(String, String)>) -> bool {
    name != "CWD"@ && !pairs_map(vars).contains_key(name)
}

/// Whether `s[i..]` refers, by `$NAME` or `${NAME}`, to a variable that
/// stands for nothing (see [`unset_name`]).
pub open spec fn refers_to_unset(s: Seq<char>, i: int, vars: Seq<(String, String)>) -> bool
    decreases s.len() - i,
    when 0 <= i
{
    if i >= s.len() {
        false
    } else if s[i] == '$' {
        if i + 1 < s.len() && s[i + 1] == '{' {
            proof {
                lemma_brace_end(s, i + 2);
            }
            let e = brace_end(s, i + 2);
            let next = if e < s.len() { e + 1 } else { e };
            unset_name(s.subrange(i + 2, e), vars) || refers_to_unset(s, next, vars)
        } else {
            proof {
                lemma_name_end(s, i + 1);
            }
            let e = name_end(s, i + 1);
            if e == i + 1 {
                refers_to_unset(s, i + 1, vars)
            } else {
                unset_name(s.subrange(i + 1, e), vars) || refers_to_unset(s, e, vars)
            }
        }
    } else {
        refers_to_unset(s, i + 1, vars)
    }
}

proof fn lemma_expand_none(s: Seq<char>, i: int, cwd: Seq<char>, vars: Seq<(String, String)>)
    requires
        0 <= i,
    ensures
        expand_vars_from(s, i, cwd, vars) is None <==> refers_to_unset(s, i, vars),
    decreases s.len() - i,
{
    if i < s.len() {
        if s[i] == '$' {
            if i + 1 < s.len() && s[i + 1] == '{' {
                lemma_brace_end(s, i + 2);
                let e = brace_end(s, i + 2);
                let next = if e < s.len() { e + 1 } else { e };
                lemma_expand_none(s, next, cwd, vars);
            } else {
                lemma_name_end(s, i + 1);
                let e = name_end(s, i + 1);
                lemma_expand_none(s, e, cwd, vars);
                if e == i + 1 {
                    lemma_expand_none(s, i + 1, cwd, vars);
                }
            }
        } else {
            lemma_expand_none(s, i + 1, cwd, vars);
        }
    }
}

/// A template that does not start with `~` stands for no path exactly when it
/// refers to a variable other than `CWD` that is unset; `$CWD` always stands
/// for the working directory.
pub proof fn law_expansion_fails_on_unset_variable(t: Seq<char>, cwd: Seq<char>, home: Option<Seq<char>>, vars: Seq<(String, String)>)
    requires
        !(t.len() > 0 && t[0] == '~'),
    ensures
        expand_path_spec(t, cwd, home, vars) is None <==> refers_to_unset(t, 0, vars),
{
    lemma_expand_none(t, 0, cwd, vars);
}

} // verus!
