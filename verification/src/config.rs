//! Choosing and preparing the policy for a run: layering configurations,
//! picking a policy name, and expanding the paths of the chosen policy.
use vstd::prelude::*;

use crate::cli::Args;
use crate::paths::home_dir;
use crate::policy::merge::{expand_path_in, expand_path_spec, opt_view};
use crate::policy::types::{
    command_name, command_policy_for, policies_map, policy_merge, Config, NetworkPolicy, PolicyView,
    SandboxPolicy, CommandPolicy,
};
use crate::text::{owned, strs_view};

verus! {

/// Why no policy could be chosen.
#[derive(Debug)]
pub enum ConfigError {
    /// A policy was asked for by a name that the configuration lacks.
    PolicyNotFound(String),
    /// No policy was asked for, none matched the command, and there is no
    /// policy named `default`.
    NoDefaultPolicy,
}

/// The message for the user that an error stands for.
pub open spec fn error_message(e: ConfigError) -> Seq<char> {
    match e {
        ConfigError::PolicyNotFound(name) => "policy '"@ + name@ + "' not found"@,
        ConfigError::NoDefaultPolicy => "no policy specified and no 'default' policy found"@,
    }
}

impl ConfigError {
    /// The error as a message for the user (see [`error_message`]).
    pub fn message(&self) -> (res: String)
        ensures
            res@ == error_message(*self),
    {
        match self {
            ConfigError::PolicyNotFound(name) => {
                let mut m = owned("policy '");
                crate::text::push_str(&mut m, name.as_str());
                crate::text::push_str(&mut m, "' not found");
                m
            },
            ConfigError::NoDefaultPolicy => owned("no policy specified and no 'default' policy found"),
        }
    }
}

/// The named policies `o` layered over `m`: a name in both gets `o`'s policy
/// merged over `m`'s (see [`policy_merge`]), a name in one of them keeps its
/// policy.
pub open spec fn map_layer(m: Map<Seq<char>, PolicyView>, o: Map<Seq<char>, PolicyView>) -> Map<Seq<char>, PolicyView> {
    Map::new(
        |k: Seq<char>| m.contains_key(k) || o.contains_key(k),
        |k: Seq<char>| if o.contains_key(k) {
            if m.contains_key(k) { policy_merge(m[k], o[k]) } else { o[k] }
        } else {
            m[k]
        },
    )
}

/// Putting an entry in front of a list changes its named policies only when
/// no later entry has that name.
proof fn lemma_policies_map_prepend(x: (String, SandboxPolicy), rest: Seq<(String, SandboxPolicy)>)
    ensures
        policies_map(seq![x] + rest) == if policies_map(rest).contains_key(x.0@) {
            policies_map(rest)
        } else {
            policies_map(rest).insert(x.0@, x.1@)
        },
    decreases rest.len(),
{
    if rest.len() == 0 {
        let t = seq![x] + rest;
        assert(t.len() == 1);
        assert(t.last() == x);
        assert(t.drop_last() =~= Seq::<(String, SandboxPolicy)>::empty());
        assert(policies_map(t.drop_last()) == Map::<Seq<char>, PolicyView>::empty());
        assert(policies_map(rest) == Map::<Seq<char>, PolicyView>::empty());
        assert(policies_map(t) =~= Map::<Seq<char>, PolicyView>::empty().insert(x.0@, x.1@));
    } else {
        lemma_policies_map_prepend(x, rest.drop_last());
        assert((seq![x] + rest).drop_last() =~= seq![x] + rest.drop_last());
        assert((seq![x] + rest).last() == rest.last());
        assert(policies_map(seq![x] + rest) =~= (if policies_map(rest).contains_key(x.0@) {
            policies_map(rest)
        } else {
            policies_map(rest).insert(x.0@, x.1@)
        }));
    }
}

proof fn lemma_policies_map_update(s: Seq<(String, SandboxPolicy)>, i: int, p: (String, SandboxPolicy))
    requires
        0 <= i < s.len(),
        p.0@ == s[i].0@,
        forall|j: int| i < j < s.len() ==> s[j].0@ != s[i].0@,
    ensures
        policies_map(s.update(i, p)) == policies_map(s).insert(p.0@, p.1@),
    decreases s.len(),
{
    if i == s.len() - 1 {
        assert(s.update(i, p).drop_last() =~= s.drop_last());
    } else {
        lemma_policies_map_update(s.drop_last(), i, p);
        assert(s.update(i, p).drop_last() =~= s.drop_last().update(i, p));
        assert(policies_map(s.update(i, p)) =~= policies_map(s).insert(p.0@, p.1@));
    }
}

fn clone_command_table(v: &Vec<CommandPolicy>) -> (res: Vec<CommandPolicy>)
    ensures
        res@ == v@,
{
    let mut res: Vec<CommandPolicy> = Vec::new();
    let mut i: usize = 0;
    while i < v.len()
        invariant
            i <= v.len(),
            res@ == v@.take(i as int),
        decreases v.len() - i,
    {
        res.push(v[i].clone());
        proof {
            assert(res@ =~= v@.take(i + 1));
        }
        i = i + 1;
    }
    proof {
        assert(res@ =~= v@);
    }
    res
}

/// Layers `other` over `base`: `other`'s named policies (of two entries with
/// one name, the later counts) are merged into `base`'s policies of the same
/// name (see [`SandboxPolicy::merge`]) or added when `base` has none, and
/// `other`'s command-to-policy entries go before `base`'s.
pub fn merge_config(base: &mut Config, other: Config)
    ensures
        policies_map(final(base).policies@) == map_layer(policies_map(old(base).policies@), policies_map(other.policies@)),
        final(base).command_policy@ == other.command_policy@ + old(base).command_policy@,
{
    let ghost m0 = policies_map(old(base).policies@);
    let mut j: usize = other.policies.len();
    proof {
        assert(other.policies@.skip(j as int) =~= Seq::<(String, SandboxPolicy)>::empty());
        assert(map_layer(m0, policies_map(other.policies@.skip(j as int))) =~= m0);
    }
    while j > 0
        invariant
            j <= other.policies@.len(),
            base.command_policy@ == old(base).command_policy@,
            m0 == policies_map(old(base).policies@),
            policies_map(base.policies@) == map_layer(m0, policies_map(other.policies@.skip(j as int))),
        decreases j,
    {
        let t = j - 1;
        let ghost later = other.policies@.skip(j as int);
        let ghost o = policies_map(later);
        let ghost x = other.policies@[t as int];
        proof {
            assert(other.policies@.skip(t as int) =~= seq![x] + later);
            lemma_policies_map_prepend(x, later);
            crate::policy::types::lemma_policies_map_dom(later, x.0@);
        }
        let mut seen = false;
        let mut q: usize = j;
        while q < other.policies.len()
            invariant
                j <= q <= other.policies@.len(),
                t == j - 1,
                seen <==> exists|r: int| j <= r < q && #[trigger] other.policies@[r].0@ == other.policies@[t as int].0@,
            decreases other.policies@.len() - q,
        {
            if crate::text::str_eq(other.policies[q].0.as_str(), other.policies[t].0.as_str()) {
                seen = true;
            }
            q = q + 1;
        }
        proof {
            if seen {
                let r = choose|r: int| j <= r < other.policies@.len() && #[trigger] other.policies@[r].0@ == x.0@;
                assert(later[r - j].0@ == x.0@);
            }
            if exists|r: int| 0 <= r < later.len() && #[trigger] later[r].0@ == x.0@ {
                let r = choose|r: int| 0 <= r < later.len() && #[trigger] later[r].0@ == x.0@;
                assert(other.policies@[r + j].0@ == x.0@);
            }
            assert(seen <==> o.contains_key(x.0@));
        }
        if !seen {
            let name = other.policies[t].0.clone();
            let ghost k = x.0@;
            let ghost v = x.1@;
            proof {
                crate::policy::types::lemma_policies_map_dom(base.policies@, k);
                assert(map_layer(m0, o.insert(k, v)) =~= policies_map(base.policies@).insert(k,
                    if policies_map(base.policies@).contains_key(k) { policy_merge(policies_map(base.policies@)[k], v) } else { v }));
            }
            match base.find_policy(name.as_str()) {
                Some(i) => {
                    let mut merged = base.policies[i].1.clone();
                    merged.merge(&other.policies[t].1);
                    proof {
                        crate::policy::types::lemma_policies_map_last(base.policies@, i as int);
                        lemma_policies_map_update(base.policies@, i as int, (name, merged));
                    }
                    base.policies.set(i, (name, merged));
                },
                None => {
                    let p = other.policies[t].1.clone();
                    let ghost before = base.policies@;
                    base.policies.push((name, p));
                    proof {
                        assert(base.policies@.drop_last() =~= before);
                    }
                },
            }
        }
        j = t;
    }
    proof {
        assert(other.policies@.skip(0) =~= other.policies@);
    }
    let mut table = clone_command_table(&other.command_policy);
    table.append(&mut base.command_policy);
    base.command_policy = table;
}

/// Layers the configurations in order of precedence: the user's (or the
/// bundled) configuration, then the project's, then the one given on the
/// command line, each merged over the ones before (see [`merge_config`]).
pub fn load_config(user: Config, project: Option<Config>, cli: Option<Config>) -> (res: Config)
    ensures
        ({
            let after_project = match project {
                Some(p) => map_layer(policies_map(user.policies@), policies_map(p.policies@)),
                None => policies_map(user.policies@),
            };
            let table_project = match project {
                Some(p) => p.command_policy@ + user.command_policy@,
                None => user.command_policy@,
            };
            &&& policies_map(res.policies@) == match cli {
                Some(c) => map_layer(after_project, policies_map(c.policies@)),
                None => after_project,
            }
            &&& res.command_policy@ == match cli {
                Some(c) => c.command_policy@ + table_project,
                None => table_project,
            }
        }),
{
    let mut config = user;
    if let Some(p) = project {
        merge_config(&mut config, p);
    }
    if let Some(c) = cli {
        merge_config(&mut config, c);
    }
    config
}

/// The outcome of choosing a policy name.
pub enum NameChoice {
    Chosen(Seq<char>),
    Missing(Seq<char>),
    NoDefault,
}

/// How the policy name is chosen: the `--policy` name if given (and it must
/// exist), else the policy that the command-to-policy table gives the
/// command, else `default` if that exists.
pub open spec fn choose_policy_name(config: Config, args: Args) -> NameChoice {
    match args.policy {
        Some(n) => if policies_map(config.policies@).contains_key(n@) {
            NameChoice::Chosen(n@)
        } else {
            NameChoice::Missing(n@)
        },
        None => match command_policy_for(config.command_policy@, command_name(args.command@)) {
            Some(p) => NameChoice::Chosen(p),
            None => if policies_map(config.policies@).contains_key("default"@) {
                NameChoice::Chosen("default"@)
            } else {
                NameChoice::NoDefault
            },
        },
    }
}

/// Whether a result reports the given choice of name.
pub open spec fn reports_choice(res: Result<String, ConfigError>, c: NameChoice) -> bool {
    match (res, c) {
        (Ok(n), NameChoice::Chosen(m)) => n@ == m,
        (Err(ConfigError::PolicyNotFound(n)), NameChoice::Missing(m)) => n@ == m,
        (Err(ConfigError::NoDefaultPolicy), NameChoice::NoDefault) => true,
        _ => false,
    }
}

/// Chooses the policy name (see [`choose_policy_name`]).
pub fn resolve_policy_name(config: &Config, args: &Args) -> (res: Result<String, ConfigError>)
    ensures
        reports_choice(res, choose_policy_name(*config, *args)),
{
    match &args.policy {
        Some(name) => {
            proof {
                crate::policy::types::lemma_policies_map_dom(config.policies@, name@);
            }
            match config.find_policy(name.as_str()) {
                Some(_) => Ok(name.clone()),
                None => Err(ConfigError::PolicyNotFound(name.clone())),
            }
        },
        None => {
            match config.default_policy_for(args.command.as_str()) {
                Some(p) => Ok(p),
                None => {
                    proof {
                        crate::policy::types::lemma_policies_map_dom(config.policies@, "default"@);
                    }
                    match config.find_policy("default") {
                        Some(_) => Ok(owned("default")),
                        None => Err(ConfigError::NoDefaultPolicy),
                    }
                },
            }
        },
    }
}

/// The paths that the templates of `paths` stand for, in order; templates
/// with an unset variable are dropped.
pub open spec fn expand_list(paths: Seq<Seq<char>>, cwd: Seq<char>, home: Option<Seq<char>>, vars: Seq<(String, String)>) -> Seq<Seq<char>>
    decreases paths.len(),
{
    if paths.len() == 0 {
        Seq::empty()
    } else {
        expand_list(paths.drop_last(), cwd, home, vars) + match expand_path_spec(paths.last(), cwd, home, vars) {
            Some(p) => seq![p],
            None => Seq::empty(),
        }
    }
}

/// A chosen policy made ready to use: the command line's extra paths added
/// to its lists, full network if asked for, and every path expanded.
pub open spec fn ready_policy(p: PolicyView, args: Args, cwd: Seq<char>, home: Option<Seq<char>>, vars: Seq<(String, String)>) -> PolicyView {
    PolicyView {
        writable_roots: expand_list(p.writable_roots + strs_view(args.writable@), cwd, home, vars),
        write_restricted_paths: expand_list(p.write_restricted_paths + strs_view(args.write_restrict@), cwd, home, vars),
        read_restricted_paths: expand_list(p.read_restricted_paths + strs_view(args.read_restrict@), cwd, home, vars),
        network: if args.allow_network { Some(NetworkPolicy::Full) } else { p.network },
        env: p.env,
        enable_gui: p.enable_gui,
        enable_audio: p.enable_audio,
    }
}

/// Whether `res` is the outcome of choosing a policy and making it ready to use.
pub open spec fn resolves_to(config: Config, args: Args, cwd: Seq<char>, home: Option<Seq<char>>, vars: Seq<(String, String)>, res: Result<SandboxPolicy, ConfigError>) -> bool {
    match res {
        Ok(p) => choose_policy_name(config, args) matches NameChoice::Chosen(n)
            && policies_map(config.policies@).contains_key(n)
            && p@ == ready_policy(policies_map(config.policies@)[n], args, cwd, home, vars),
        Err(e) => match choose_policy_name(config, args) {
            NameChoice::Chosen(n) => !policies_map(config.policies@).contains_key(n)
                && (e matches ConfigError::PolicyNotFound(m) && m@ == n),
            c => reports_choice(Err(e), c),
        },
    }
}

/// Expands every template of a list, dropping those with an unset variable.
pub fn expand_paths(paths: &Vec<String>, cwd: &str, home: Option<&str>, vars: &Vec<(String, String)>) -> (res: Vec<String>)
    ensures
        strs_view(res@) == expand_list(strs_view(paths@), cwd@, match home {
            Some(h) => Some(h@),
            None => None,
        }, vars@),
{
    let ghost hv = match home {
        Some(h) => Some(h@),
        None => None,
    };
    let mut res: Vec<String> = Vec::new();
    let mut i: usize = 0;
    while i < paths.len()
        invariant
            i <= paths@.len(),
            hv == match home {
                Some(h) => Some(h@),
                None => None::<Seq<char>>,
            },
            strs_view(res@) == expand_list(strs_view(paths@.take(i as int)), cwd@, hv, vars@),
        decreases paths@.len() - i,
    {
        proof {
            assert(strs_view(paths@.take(i + 1)).drop_last() =~= strs_view(paths@.take(i as int)));
            assert(strs_view(paths@.take(i + 1)).last() == paths@[i as int]@);
        }
        match expand_path_in(paths[i].as_str(), cwd, home, vars) {
            Some(p) => {
                let ghost before = strs_view(res@);
                res.push(p);
                proof {
                    assert(strs_view(res@) =~= before + seq![p@]);
                }
            },
            None => {
                proof {
                    assert(strs_view(res@) =~= strs_view(res@) + Seq::<Seq<char>>::empty());
                }
            },
        }
        i = i + 1;
    }
    proof {
        assert(paths@.take(paths@.len() as int) =~= paths@);
    }
    res
}

fn concat_strs(a: &Vec<String>, b: &Vec<String>) -> (res: Vec<String>)
    ensures
        strs_view(res@) == strs_view(a@) + strs_view(b@),
{
    let mut res = crate::text::clone_strs(a);
    let mut extra = crate::text::clone_strs(b);
    res.append(&mut extra);
    proof {
        assert(strs_view(res@) =~= strs_view(a@) + strs_view(b@));
    }
    res
}

/// Chooses the policy (see [`choose_policy_name`]) and makes it ready to use
/// (see [`ready_policy`]), with the home directory given.
pub fn resolve_policy_in(config: &Config, args: &Args, cwd: &str, home: Option<&str>, vars: &Vec<(String, String)>) -> (res: Result<SandboxPolicy, ConfigError>)
    ensures
        resolves_to(*config, *args, cwd@, match home {
            Some(h) => Some(h@),
            None => None,
        }, vars@, res),
{
    let name = match resolve_policy_name(config, args) {
        Ok(n) => n,
        Err(e) => return Err(e),
    };
    let chosen = match config.get_policy(name.as_str()) {
        Ok(p) => p,
        Err(e) => return Err(e),
    };
    let writable = concat_strs(&chosen.writable_roots, &args.writable);
    let write_restricted = concat_strs(&chosen.write_restricted_paths, &args.write_restrict);
    let read_restricted = concat_strs(&chosen.read_restricted_paths, &args.read_restrict);
    let env = match &chosen.env {
        Some(e) => Some(e.clone()),
        None => None,
    };
    let res = SandboxPolicy {
        writable_roots: expand_paths(&writable, cwd, home, vars),
        write_restricted_paths: expand_paths(&write_restricted, cwd, home, vars),
        read_restricted_paths: expand_paths(&read_restricted, cwd, home, vars),
        network: if args.allow_network { Some(NetworkPolicy::Full) } else { chosen.network },
        env,
        enable_gui: chosen.enable_gui,
        enable_audio: chosen.enable_audio,
    };
    proof {
        if chosen.env is Some {
            assert(res.env.unwrap()@ == chosen.env.unwrap()@);
        }
    }
    Ok(res)
}

/// Chooses the policy and makes it ready to use (see [`resolve_policy_in`]),
/// asking for the home directory; whatever it is, the result is the one
/// [`resolve_policy_in`] gives with it.
pub fn resolve_policy(config: &Config, args: &Args, cwd: &str, vars: &Vec<(String, String)>) -> (res: Result<SandboxPolicy, ConfigError>)
    ensures
        exists|home: Option<Seq<char>>| #[trigger] resolves_to(*config, *args, cwd@, home, vars@, res),
{
    let home = home_dir();
    let res = match &home {
        Some(h) => resolve_policy_in(config, args, cwd, Some(h.as_str()), vars),
        None => resolve_policy_in(config, args, cwd, None, vars),
    };
    proof {
        let hv = opt_view(home);
        assert(resolves_to(*config, *args, cwd@, hv, vars@, res));
    }
    res
}

/// A policy of the upper configuration merges into the lower one's policy of
/// the same name (see [`SandboxPolicy::merge`]), or is added when the lower
/// one has none; the lower configuration's other policies stay as they are.
/// When the upper configuration names a policy twice, its later entry counts.
pub proof fn law_policies_merge_by_name(m: Map<Seq<char>, PolicyView>, s: Seq<(String, SandboxPolicy)>, k: Seq<char>)
    ensures
        ({
            let o = policies_map(s);
            let r = map_layer(m, o);
            &&& o.contains_key(k) ==> r.contains_key(k) && r[k] == (if m.contains_key(k) { policy_merge(m[k], o[k]) } else { o[k] })
            &&& !o.contains_key(k) ==> (r.contains_key(k) == m.contains_key(k) && (m.contains_key(k) ==> r[k] == m[k]))
        }),
{
}

proof fn lemma_expand_list_contains(paths: Seq<Seq<char>>, cwd: Seq<char>, home: Option<Seq<char>>, vars: Seq<(String, String)>, i: int)
    requires
        0 <= i < paths.len(),
        expand_path_spec(paths[i], cwd, home, vars) is Some,
    ensures
        expand_list(paths, cwd, home, vars).contains(expand_path_spec(paths[i], cwd, home, vars).unwrap()),
    decreases paths.len(),
{
    let pre = expand_list(paths.drop_last(), cwd, home, vars);
    let q = expand_path_spec(paths[i], cwd, home, vars).unwrap();
    if i == paths.len() - 1 {
        assert(expand_list(paths, cwd, home, vars) == pre + seq![q]);
        assert((pre + seq![q])[pre.len() as int] == q);
    } else {
        assert(paths.drop_last()[i] == paths[i]);
        lemma_expand_list_contains(paths.drop_last(), cwd, home, vars, i);
        let k = choose|k: int| 0 <= k < pre.len() && pre[k] == q;
        let tail = match expand_path_spec(paths.last(), cwd, home, vars) {
            Some(x) => seq![x],
            None => Seq::<Seq<char>>::empty(),
        };
        assert(expand_list(paths, cwd, home, vars) == pre + tail);
        assert((pre + tail)[k] == q);
    }
}

/// Resolution keeps what the chosen policy says beyond its paths: its
/// environment policy, its GUI and audio switches, and its network unless
/// `--allow-network` asks for full network. Every path of the chosen policy
/// and of the command line that expands is in the matching list of the
/// result (the command line adds to the policy's lists, never replaces them).
pub proof fn law_resolution_keeps_policy(
    config: Config,
    args: Args,
    cwd: Seq<char>,
    home: Option<Seq<char>>,
    vars: Seq<(String, String)>,
    res: Result<SandboxPolicy, ConfigError>,
)
    requires
        resolves_to(config, args, cwd, home, vars, res),
        res is Ok,
    ensures
        ({
            let r = res.unwrap()@;
            let n = choose_policy_name(config, args)->Chosen_0;
            let chosen = policies_map(config.policies@)[n];
            &&& choose_policy_name(config, args) is Chosen
            &&& policies_map(config.policies@).contains_key(n)
            &&& r.env == chosen.env
            &&& r.enable_gui == chosen.enable_gui
            &&& r.enable_audio == chosen.enable_audio
            &&& r.network == (if args.allow_network { Some(NetworkPolicy::Full) } else { chosen.network })
            &&& forall|i: int| 0 <= i < chosen.writable_roots.len()
                && #[trigger] expand_path_spec(chosen.writable_roots[i], cwd, home, vars) is Some
                ==> r.writable_roots.contains(expand_path_spec(chosen.writable_roots[i], cwd, home, vars).unwrap())
            &&& forall|i: int| 0 <= i < args.writable@.len()
                && #[trigger] expand_path_spec(args.writable@[i]@, cwd, home, vars) is Some
                ==> r.writable_roots.contains(expand_path_spec(args.writable@[i]@, cwd, home, vars).unwrap())
            &&& forall|i: int| 0 <= i < chosen.write_restricted_paths.len()
                && #[trigger] expand_path_spec(chosen.write_restricted_paths[i], cwd, home, vars) is Some
                ==> r.write_restricted_paths.contains(expand_path_spec(chosen.write_restricted_paths[i], cwd, home, vars).unwrap())
            &&& forall|i: int| 0 <= i < args.write_restrict@.len()
                && #[trigger] expand_path_spec(args.write_restrict@[i]@, cwd, home, vars) is Some
                ==> r.write_restricted_paths.contains(expand_path_spec(args.write_restrict@[i]@, cwd, home, vars).unwrap())
            &&& forall|i: int| 0 <= i < chosen.read_restricted_paths.len()
                && #[trigger] expand_path_spec(chosen.read_restricted_paths[i], cwd, home, vars) is Some
                ==> r.read_restricted_paths.contains(expand_path_spec(chosen.read_restricted_paths[i], cwd, home, vars).unwrap())
            &&& forall|i: int| 0 <= i < args.read_restrict@.len()
                && #[trigger] expand_path_spec(args.read_restrict@[i]@, cwd, home, vars) is Some
                ==> r.read_restricted_paths.contains(expand_path_spec(args.read_restrict@[i]@, cwd, home, vars).unwrap())
        }),
{
    let r = res.unwrap()@;
    let n = choose_policy_name(config, args)->Chosen_0;
    let chosen = policies_map(config.policies@)[n];
    let lists = seq![
        (chosen.writable_roots, strs_view(args.writable@), r.writable_roots),
        (chosen.write_restricted_paths, strs_view(args.write_restrict@), r.write_restricted_paths),
        (chosen.read_restricted_paths, strs_view(args.read_restrict@), r.read_restricted_paths)
    ];
    assert forall|k: int, i: int| 0 <= k < 3 && 0 <= i < lists[k].0.len()
        && #[trigger] expand_path_spec(lists[k].0[i], cwd, home, vars) is Some
        implies lists[k].2.contains(expand_path_spec(lists[k].0[i], cwd, home, vars).unwrap()) by {
        let all = lists[k].0 + lists[k].1;
        assert(all[i] == lists[k].0[i]);
        lemma_expand_list_contains(all, cwd, home, vars, i);
    }
    assert forall|k: int, i: int| 0 <= k < 3 && 0 <= i < lists[k].1.len()
        && #[trigger] expand_path_spec(lists[k].1[i], cwd, home, vars) is Some
        implies lists[k].2.contains(expand_path_spec(lists[k].1[i], cwd, home, vars).unwrap()) by {
        let all = lists[k].0 + lists[k].1;
        assert(all[lists[k].0.len() + i] == lists[k].1[i]);
        lemma_expand_list_contains(all, cwd, home, vars, lists[k].0.len() + i);
    }
    assert forall|i: int| 0 <= i < chosen.writable_roots.len()
        && #[trigger] expand_path_spec(chosen.writable_roots[i], cwd, home, vars) is Some
        implies r.writable_roots.contains(expand_path_spec(chosen.writable_roots[i], cwd, home, vars).unwrap()) by {
        assert(lists[0].0[i] == chosen.writable_roots[i]);
    }
    assert forall|i: int| 0 <= i < args.writable@.len()
        && #[trigger] expand_path_spec(args.writable@[i]@, cwd, home, vars) is Some
        implies r.writable_roots.contains(expand_path_spec(args.writable@[i]@, cwd, home, vars).unwrap()) by {
        assert(lists[0].1[i] == args.writable@[i]@);
    }
    assert forall|i: int| 0 <= i < chosen.write_restricted_paths.len()
        && #[trigger] expand_path_spec(chosen.write_restricted_paths[i], cwd, home, vars) is Some
        implies r.write_restricted_paths.contains(expand_path_spec(chosen.write_restricted_paths[i], cwd, home, vars).unwrap()) by {
        assert(lists[1].0[i] == chosen.write_restricted_paths[i]);
    }
    assert forall|i: int| 0 <= i < args.write_restrict@.len()
        && #[trigger] expand_path_spec(args.write_restrict@[i]@, cwd, home, vars) is Some
        implies r.write_restricted_paths.contains(expand_path_spec(args.write_restrict@[i]@, cwd, home, vars).unwrap()) by {
        assert(lists[1].1[i] == args.write_restrict@[i]@);
    }
    assert forall|i: int| 0 <= i < chosen.read_restricted_paths.len()
        && #[trigger] expand_path_spec(chosen.read_restricted_paths[i], cwd, home, vars) is Some
        implies r.read_restricted_paths.contains(expand_path_spec(chosen.read_restricted_paths[i], cwd, home, vars).unwrap()) by {
        assert(lists[2].0[i] == chosen.read_restricted_paths[i]);
    }
    assert forall|i: int| 0 <= i < args.read_restrict@.len()
        && #[trigger] expand_path_spec(args.read_restrict@[i]@, cwd, home, vars) is Some
        implies r.read_restricted_paths.contains(expand_path_spec(args.read_restrict@[i]@, cwd, home, vars).unwrap()) by {
        assert(lists[2].1[i] == args.read_restrict@[i]@);
    }
}

} // verus!
