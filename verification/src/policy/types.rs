//! Sandbox policies, environment policies and configurations, their views,
//! and how one layer is merged over another.
use vstd::prelude::*;

use crate::env_map::{insert_all, keys_distinct, pairs_map};
use crate::glob::{glob_match, glob_matches};
use crate::paths::{file_stem, path_file_stem};
use crate::text::{clone_strs, strs_view};

verus! {

/// How far the sandboxed command may reach over the network.
#[derive(Debug, Clone, Copy, PartialEq, Eq, Structural)]
pub enum NetworkPolicy {
    /// No network at all (written `none` in configuration files).
    Offline,
    Localhost,
    Full,
}

/// What happens to an environment variable that no filter matches.
#[derive(Debug, Clone, Copy, PartialEq, Eq, Structural)]
pub enum EnvMode {
    /// Pass it through.
    DefaultAllow,
    /// Drop it.
    DefaultBlock,
}

/// What a matching filter does with an environment variable.
#[derive(Debug, Clone, Copy, PartialEq, Eq, Structural)]
pub enum FilterAction {
    Allow,
    Block,
}

/// One environment filter: a glob over variable names and its action.
#[derive(Debug)]
pub struct EnvFilter {
    pub pattern: String,
    pub action: FilterAction,
}

impl Clone for EnvFilter {
    fn clone(&self) -> (res: Self)
        ensures
            res == *self,
    {
        EnvFilter { pattern: self.pattern.clone(), action: self.action }
    }
}

/// The environment policy of a sandbox.
#[derive(Debug)]
pub struct EnvPolicy {
    /// Default action when no filter matches; unset means allowlist mode
    /// (`DefaultBlock`: a name that no filter matches is dropped).
    pub mode: Option<EnvMode>,
    /// Ordered filters; the first whose pattern matches a name decides.
    pub filters: Vec<EnvFilter>,
    /// Variables forced into the environment after filtering; a later pair
    /// overrides an earlier one with the same name.
    pub set: Vec<(String, String)>,
}

/// The abstract content of an [`EnvPolicy`].
pub struct EnvView {
    pub mode: Option<EnvMode>,
    pub filters: Seq<(Seq<char>, FilterAction)>,
    pub set: Map<Seq<char>, Seq<char>>,
}

/// Each pattern with the given action.
pub open spec fn tagged(v: Seq<String>, a: FilterAction) -> Seq<(Seq<char>, FilterAction)> {
    v.map_values(|s: String| (s@, a))
}

/// The patterns and actions of a list of filters.
pub open spec fn filters_view(f: Seq<EnvFilter>) -> Seq<(Seq<char>, FilterAction)> {
    f.map_values(|x: EnvFilter| (x.pattern@, x.action))
}

impl View for EnvPolicy {
    type V = EnvView;

    open spec fn view(&self) -> EnvView {
        EnvView { mode: self.mode, filters: filters_view(self.filters@), set: pairs_map(self.set@) }
    }
}

/// The mode in force: an unset mode is allowlist mode, which drops the
/// names that no filter matches.
pub open spec fn mode_or_default(m: Option<EnvMode>) -> EnvMode {
    match m {
        Some(m) => m,
        None => EnvMode::DefaultBlock,
    }
}

/// `b` layered over `a`: `b`'s mode if it has one, `b`'s filters before `a`'s,
/// and the forced variables of both with `b`'s winning.
pub open spec fn env_merge(a: EnvView, b: EnvView) -> EnvView {
    EnvView {
        mode: if b.mode is Some { b.mode } else { a.mode },
        filters: b.filters + a.filters,
        set: a.set.union_prefer_right(b.set),
    }
}

/// The action of the first filter whose pattern matches `name`, if any.
pub open spec fn first_match(filters: Seq<(Seq<char>, FilterAction)>, name: Seq<char>) -> Option<FilterAction>
    decreases filters.len(),
{
    if filters.len() == 0 {
        None
    } else if glob_matches(filters[0].0, name) {
        Some(filters[0].1)
    } else {
        first_match(filters.drop_first(), name)
    }
}

/// Whether the policy lets the variable `name` through filtering.
pub open spec fn env_admits(p: EnvView, name: Seq<char>) -> bool {
    match first_match(p.filters, name) {
        Some(a) => a == FilterAction::Allow,
        None => mode_or_default(p.mode) == EnvMode::DefaultAllow,
    }
}

/// The environment a policy makes of `env`: the admitted variables, then the
/// forced ones on top.
pub open spec fn filtered_env(p: EnvView, env: Map<Seq<char>, Seq<char>>) -> Map<Seq<char>, Seq<char>> {
    Map::new(|k: Seq<char>| env.contains_key(k) && env_admits(p, k), |k: Seq<char>| env[k]).union_prefer_right(p.set)
}

/// A copy of a list of filters.
pub fn clone_filters(v: &Vec<EnvFilter>) -> (res: Vec<EnvFilter>)
    ensures
        res@ == v@,
{
    let mut res: Vec<EnvFilter> = Vec::new();
    let mut i: usize = 0;
    while i < v.len()
        invariant
            i <= v.len(),
            res@ == v@.take(i as int),
        decreases v.len() - i,
    {
        res.push(v[i].clone());
        proof {
            assert(res@ =~= v@.take(i + 1));
        }
        i = i + 1;
    }
    proof {
        assert(res@ =~= v@);
    }
    res
}

/// A copy of a list of pairs.
pub fn clone_pairs(v: &Vec<(String, String)>) -> (res: Vec<(String, String)>)
    ensures
        res@ == v@,
{
    let mut res: Vec<(String, String)> = Vec::new();
    let mut i: usize = 0;
    while i < v.len()
        invariant
            i <= v.len(),
            res@ == v@.take(i as int),
        decreases v.len() - i,
    {
        res.push((v[i].0.clone(), v[i].1.clone()));
        proof {
            assert(res@ =~= v@.take(i + 1));
        }
        i = i + 1;
    }
    proof {
        assert(res@ =~= v@);
    }
    res
}

impl Clone for EnvPolicy {
    fn clone(&self) -> (res: Self)
        ensures
            res.mode == self.mode,
            res.filters@ == self.filters@,
            res.set@ == self.set@,
    {
        EnvPolicy { mode: self.mode, filters: clone_filters(&self.filters), set: clone_pairs(&self.set) }
    }
}

impl Default for EnvPolicy {
    fn default() -> (res: Self)
        ensures
            res.mode is None,
            res.filters@.len() == 0,
            res.set@.len() == 0,
    {
        EnvPolicy { mode: None, filters: Vec::new(), set: Vec::new() }
    }
}

impl EnvPolicy {
    /// Builds a policy from its parts as a configuration file lists them: all
    /// block patterns become filters ahead of all allow patterns.
    pub fn from_lists(mode: Option<EnvMode>, allow: Vec<String>, block: Vec<String>, set: Vec<(String, String)>) -> (res: Self)
        ensures
            res.mode == mode,
            res.set@ == set@,
            res@.filters == tagged(block@, FilterAction::Block) + tagged(allow@, FilterAction::Allow),
    {
        let mut filters: Vec<EnvFilter> = Vec::new();
        let mut i: usize = 0;
        while i < block.len()
            invariant
                i <= block.len(),
                filters@.len() == i,
                filters_view(filters@) == tagged(block@.take(i as int), FilterAction::Block),
            decreases block.len() - i,
        {
            let ghost before = filters@;
            filters.push(EnvFilter { pattern: block[i].clone(), action: FilterAction::Block });
            proof {
                assert forall|t: int| 0 <= t < i implies #[trigger] filters_view(filters@)[t] == filters_view(before)[t] by {
                    assert(filters@[t] == before[t]);
                }
                assert forall|t: int| 0 <= t < i implies #[trigger] tagged(block@.take(i + 1), FilterAction::Block)[t] == tagged(block@.take(i as int), FilterAction::Block)[t] by {
                }
                assert(filters_view(filters@) =~= tagged(block@.take(i + 1), FilterAction::Block));
            }
            i = i + 1;
        }
        let ghost blocks = filters_view(filters@);
        assert(blocks.len() == filters@.len());
        let mut j: usize = 0;
        while j < allow.len()
            invariant
                j <= allow.len(),
                filters@.len() == blocks.len() + j,
                filters_view(filters@) == blocks + tagged(allow@.take(j as int), FilterAction::Allow),
            decreases allow.len() - j,
        {
            let ghost before = filters@;
            filters.push(EnvFilter { pattern: allow[j].clone(), action: FilterAction::Allow });
            proof {
                assert forall|t: int| 0 <= t < before.len() implies #[trigger] filters_view(filters@)[t] == filters_view(before)[t] by {
                    assert(filters@[t] == before[t]);
                }
                assert forall|t: int| 0 <= t < j implies #[trigger] tagged(allow@.take(j + 1), FilterAction::Allow)[t] == tagged(allow@.take(j as int), FilterAction::Allow)[t] by {
                }
                assert(filters_view(filters@) =~= blocks + tagged(allow@.take(j + 1), FilterAction::Allow));
            }
            j = j + 1;
        }
        proof {
            assert(block@.take(block@.len() as int) =~= block@);
            assert(allow@.take(allow@.len() as int) =~= allow@);
        }
        EnvPolicy { mode, filters, set }
    }

    /// Layers `other` over this policy: `other`'s mode replaces this one's when
    /// set, `other`'s filters go first, and `other`'s forced variables win.
    pub fn merge(&mut self, other: &Self)
        ensures
            final(self)@ == env_merge(old(self)@, other@),
            keys_distinct(old(self).set@) ==> keys_distinct(final(self).set@),
    {
        if let Some(m) = other.mode {
            self.mode = Some(m);
        }
        let mut filters = clone_filters(&other.filters);
        filters.append(&mut self.filters);
        self.filters = filters;
        insert_all(&mut self.set, &other.set);
        proof {
            assert(filters_view(self.filters@) =~= other@.filters + filters_view(old(self).filters@));
        }
    }

    /// The mode in force; allowlist mode (`DefaultBlock`) when unset.
    pub fn mode(&self) -> (res: EnvMode)
        ensures
            res == mode_or_default(self.mode),
    {
        match self.mode {
            Some(m) => m,
            None => EnvMode::DefaultBlock,
        }
    }
}


/// A sandbox policy as configuration files write it; unset settings take the
/// value of a lower layer when merged, and a secure default when read.
#[derive(Debug)]
pub struct SandboxPolicy {
    pub writable_roots: Vec<String>,
    pub write_restricted_paths: Vec<String>,
    pub read_restricted_paths: Vec<String>,
    pub network: Option<NetworkPolicy>,
    pub env: Option<EnvPolicy>,
    /// GUI access (display sockets, GPU devices).
    pub enable_gui: Option<bool>,
    /// Audio access (sound devices and servers).
    pub enable_audio: Option<bool>,
}

/// The abstract content of a [`SandboxPolicy`].
pub struct PolicyView {
    pub writable_roots: Seq<Seq<char>>,
    pub write_restricted_paths: Seq<Seq<char>>,
    pub read_restricted_paths: Seq<Seq<char>>,
    pub network: Option<NetworkPolicy>,
    pub env: Option<EnvView>,
    pub enable_gui: Option<bool>,
    pub enable_audio: Option<bool>,
}

/// The view of an optional environment policy.
pub open spec fn env_opt_view(e: Option<EnvPolicy>) -> Option<EnvView> {
    match e {
        Some(e) => Some(e@),
        None => None,
    }
}

impl View for SandboxPolicy {
    type V = PolicyView;

    open spec fn view(&self) -> PolicyView {
        PolicyView {
            writable_roots: strs_view(self.writable_roots@),
            write_restricted_paths: strs_view(self.write_restricted_paths@),
            read_restricted_paths: strs_view(self.read_restricted_paths@),
            network: self.network,
            env: env_opt_view(self.env),
            enable_gui: self.enable_gui,
            enable_audio: self.enable_audio,
        }
    }
}

/// The forced variables of a policy's environment policy, in order.
pub open spec fn env_set_of(p: SandboxPolicy) -> Seq<(String, String)> {
    match p.env {
        Some(e) => e.set@,
        None => Seq::empty(),
    }
}

/// `b` if set, else `a`.
pub open spec fn override_opt<T>(a: Option<T>, b: Option<T>) -> Option<T> {
    if b is Some { b } else { a }
}

/// `b`'s environment policy layered over `a`'s, where both exist.
pub open spec fn env_opt_merge(a: Option<EnvView>, b: Option<EnvView>) -> Option<EnvView> {
    match (a, b) {
        (Some(x), Some(y)) => Some(env_merge(x, y)),
        (None, Some(y)) => Some(y),
        (_, None) => a,
    }
}

/// `b` layered over `a`: path lists concatenated, set scalar settings of `b`
/// replacing those of `a`, environment policies merged.
pub open spec fn policy_merge(a: PolicyView, b: PolicyView) -> PolicyView {
    PolicyView {
        writable_roots: a.writable_roots + b.writable_roots,
        write_restricted_paths: a.write_restricted_paths + b.write_restricted_paths,
        read_restricted_paths: a.read_restricted_paths + b.read_restricted_paths,
        network: override_opt(a.network, b.network),
        env: env_opt_merge(a.env, b.env),
        enable_gui: override_opt(a.enable_gui, b.enable_gui),
        enable_audio: override_opt(a.enable_audio, b.enable_audio),
    }
}

/// The environment policy in force when none is set: everything passes.
pub open spec fn default_env_view() -> EnvView {
    EnvView { mode: Some(EnvMode::DefaultAllow), filters: Seq::empty(), set: Map::empty() }
}

fn append_clones(dst: &mut Vec<String>, src: &Vec<String>)
    ensures
        strs_view(final(dst)@) == strs_view(old(dst)@) + strs_view(src@),
{
    let mut extra = clone_strs(src);
    dst.append(&mut extra);
    proof {
        assert(strs_view(dst@) =~= strs_view(old(dst)@) + strs_view(src@));
    }
}

impl Clone for SandboxPolicy {
    fn clone(&self) -> (res: Self)
        ensures
            res@ == self@,
    {
        let env = match &self.env {
            Some(e) => Some(e.clone()),
            None => None,
        };
        let res = SandboxPolicy {
            writable_roots: clone_strs(&self.writable_roots),
            write_restricted_paths: clone_strs(&self.write_restricted_paths),
            read_restricted_paths: clone_strs(&self.read_restricted_paths),
            network: self.network,
            env,
            enable_gui: self.enable_gui,
            enable_audio: self.enable_audio,
        };
        proof {
            if self.env is Some {
                assert(res.env.unwrap()@ == self.env.unwrap()@);
            }
        }
        res
    }
}

impl Default for SandboxPolicy {
    fn default() -> (res: Self)
        ensures
            res@ == (PolicyView {
                writable_roots: Seq::empty(),
                write_restricted_paths: Seq::empty(),
                read_restricted_paths: Seq::empty(),
                network: None,
                env: None,
                enable_gui: None,
                enable_audio: None,
            }),
    {
        let res = SandboxPolicy {
            writable_roots: Vec::new(),
            write_restricted_paths: Vec::new(),
            read_restricted_paths: Vec::new(),
            network: None,
            env: None,
            enable_gui: None,
            enable_audio: None,
        };
        proof {
            assert(strs_view(res.writable_roots@) =~= Seq::empty());
            assert(strs_view(res.write_restricted_paths@) =~= Seq::empty());
            assert(strs_view(res.read_restricted_paths@) =~= Seq::empty());
        }
        res
    }
}

impl SandboxPolicy {
    /// Layers `other` over this policy: path lists are extended with
    /// `other`'s, network and GUI/audio settings replaced where `other` sets
    /// them, and environment policies merged where `other` has one.
    pub fn merge(&mut self, other: &Self)
        ensures
            final(self)@ == policy_merge(old(self)@, other@),
    {
        append_clones(&mut self.writable_roots, &other.writable_roots);
        append_clones(&mut self.write_restricted_paths, &other.write_restricted_paths);
        append_clones(&mut self.read_restricted_paths, &other.read_restricted_paths);
        if let Some(n) = other.network {
            self.network = Some(n);
        }
        if let Some(other_env) = &other.env {
            let merged = match self.env.take() {
                Some(mut own) => {
                    own.merge(other_env);
                    own
                },
                None => other_env.clone(),
            };
            self.env = Some(merged);
        }
        if let Some(v) = other.enable_gui {
            self.enable_gui = Some(v);
        }
        if let Some(v) = other.enable_audio {
            self.enable_audio = Some(v);
        }
    }

    /// The network policy in force; none at all when unset.
    pub fn network(&self) -> (res: NetworkPolicy)
        ensures
            res == (match self.network {
                Some(n) => n,
                None => NetworkPolicy::Offline,
            }),
    {
        match self.network {
            Some(n) => n,
            None => NetworkPolicy::Offline,
        }
    }

    /// GUI access in force; off when unset.
    pub fn enable_gui(&self) -> (res: bool)
        ensures
            res == (self.enable_gui == Some(true)),
    {
        match self.enable_gui {
            Some(v) => v,
            None => false,
        }
    }

    /// Audio access in force; off when unset.
    pub fn enable_audio(&self) -> (res: bool)
        ensures
            res == (self.enable_audio == Some(true)),
    {
        match self.enable_audio {
            Some(v) => v,
            None => false,
        }
    }

    /// The environment policy in force; one that passes everything when unset.
    pub fn env(&self) -> (res: EnvPolicy)
        ensures
            res@ == (match self.env {
                Some(e) => e@,
                None => default_env_view(),
            }),
            res.set@ == env_set_of(*self),
    {
        match &self.env {
            Some(e) => e.clone(),
            None => {
                let res = EnvPolicy { mode: Some(EnvMode::DefaultAllow), filters: Vec::new(), set: Vec::new() };
                proof {
                    assert(res@.filters =~= Seq::<(Seq<char>, FilterAction)>::empty());
                }
                res
            },
        }
    }
}

/// Maps the commands whose name matches `pattern` to the policy named `policy`.
#[derive(Debug)]
pub struct CommandPolicy {
    pub pattern: String,
    pub policy: String,
}

impl Clone for CommandPolicy {
    fn clone(&self) -> (res: Self)
        ensures
            res == *self,
    {
        CommandPolicy { pattern: self.pattern.clone(), policy: self.policy.clone() }
    }
}

/// A configuration: named policies and the command-to-policy table.
#[derive(Debug)]
pub struct Config {
    /// Named policies; of two with one name, the later counts.
    pub policies: Vec<(String, SandboxPolicy)>,
    /// Checked in order; the first matching pattern decides.
    pub command_policy: Vec<CommandPolicy>,
}

/// The named policies of a list; of two with one name, the later counts.
pub open spec fn policies_map(s: Seq<(String, SandboxPolicy)>) -> Map<Seq<char>, PolicyView>
    decreases s.len(),
{
    if s.len() == 0 {
        Map::empty()
    } else {
        policies_map(s.drop_last()).insert(s.last().0@, s.last().1@)
    }
}

/// The policy named by the first entry whose pattern matches `name`.
pub open spec fn command_policy_for(table: Seq<CommandPolicy>, name: Seq<char>) -> Option<Seq<char>>
    decreases table.len(),
{
    if table.len() == 0 {
        None
    } else if glob_matches(table[0].pattern@, name) {
        Some(table[0].policy@)
    } else {
        command_policy_for(table.drop_first(), name)
    }
}

/// The name a command is known by in the command-to-policy table: its file
/// stem, or the command itself when it has none.
pub open spec fn command_name(command: Seq<char>) -> Seq<char> {
    match path_file_stem(command) {
        Some(s) => s,
        None => command,
    }
}

/// The names of the named policies are those of the list.
pub proof fn lemma_policies_map_dom(s: Seq<(String, SandboxPolicy)>, k: Seq<char>)
    ensures
        policies_map(s).contains_key(k) <==> exists|i: int| 0 <= i < s.len() && #[trigger] s[i].0@ == k,
    decreases s.len(),
{
    if s.len() > 0 {
        lemma_policies_map_dom(s.drop_last(), k);
        if policies_map(s).contains_key(k) && k != s.last().0@ {
            let i = choose|i: int| 0 <= i < s.drop_last().len() && #[trigger] s.drop_last()[i].0@ == k;
            assert(s[i].0@ == k);
        }
        if exists|i: int| 0 <= i < s.len() && #[trigger] s[i].0@ == k {
            let i = choose|i: int| 0 <= i < s.len() && #[trigger] s[i].0@ == k;
            if i < s.len() - 1 {
                assert(s.drop_last()[i].0@ == k);
            }
        }
    }
}

/// Without a later entry of the same name, an entry gives its name's policy.
pub proof fn lemma_policies_map_last(s: Seq<(String, SandboxPolicy)>, i: int)
    requires
        0 <= i < s.len(),
        forall|j: int| i < j < s.len() ==> s[j].0@ != s[i].0@,
    ensures
        policies_map(s).contains_key(s[i].0@),
        policies_map(s)[s[i].0@] == s[i].1@,
    decreases s.len(),
{
    if i < s.len() - 1 {
        lemma_policies_map_last(s.drop_last(), i);
    }
}

impl Config {
    /// The index of the last policy named `name`, if any.
    pub fn find_policy(&self, name: &str) -> (res: Option<usize>)
        ensures
            match res {
                Some(i) => i < self.policies@.len() && self.policies@[i as int].0@ == name@
                    && forall|j: int| i < j < self.policies@.len() ==> self.policies@[j].0@ != name@,
                None => forall|j: int| 0 <= j < self.policies@.len() ==> self.policies@[j].0@ != name@,
            },
    {
        let mut i = self.policies.len();
        while i > 0
            invariant
                i <= self.policies@.len(),
                forall|j: int| i <= j < self.policies@.len() ==> self.policies@[j].0@ != name@,
            decreases i,
        {
            if crate::text::str_eq(self.policies[i - 1].0.as_str(), name) {
                return Some(i - 1);
            }
            i = i - 1;
        }
        None
    }

    /// The policy named `name`.
    pub fn get_policy(&self, name: &str) -> (res: Result<&SandboxPolicy, crate::config::ConfigError>)
        ensures
            match res {
                Ok(p) => policies_map(self.policies@).contains_key(name@) && p@ == policies_map(self.policies@)[name@],
                Err(e) => !policies_map(self.policies@).contains_key(name@)
                    && (e matches crate::config::ConfigError::PolicyNotFound(n) && n@ == name@),
            },
    {
        proof {
            lemma_policies_map_dom(self.policies@, name@);
        }
        match self.find_policy(name) {
            Some(i) => {
                proof {
                    lemma_policies_map_last(self.policies@, i as int);
                }
                Ok(&self.policies[i].1)
            },
            None => Err(crate::config::ConfigError::PolicyNotFound(crate::text::owned(name))),
        }
    }

    /// The policy that the command-to-policy table gives a command name: that
    /// of the first entry whose pattern matches it.
    pub fn policy_for_command_name(&self, name: &str) -> (res: Option<&str>)
        ensures
            match res {
                Some(p) => command_policy_for(self.command_policy@, name@) == Some(p@),
                None => command_policy_for(self.command_policy@, name@) is None,
            },
    {
        let mut i: usize = 0;
        proof {
            assert(self.command_policy@.skip(0) =~= self.command_policy@);
        }
        while i < self.command_policy.len()
            invariant
                i <= self.command_policy@.len(),
                command_policy_for(self.command_policy@, name@) == command_policy_for(self.command_policy@.skip(i as int), name@),
            decreases self.command_policy@.len() - i,
        {
            proof {
                assert(self.command_policy@.skip(i as int).drop_first() =~= self.command_policy@.skip(i + 1));
            }
            if glob_match(self.command_policy[i].pattern.as_str(), name) {
                return Some(self.command_policy[i].policy.as_str());
            }
            i = i + 1;
        }
        None
    }

    /// The default policy for a command: the command is known by its file stem
    /// (directory and extension removed), and the first matching entry of the
    /// command-to-policy table gives the policy.
    pub fn default_policy_for(&self, command: &str) -> (res: Option<String>)
        ensures
            match res {
                Some(p) => command_policy_for(self.command_policy@, command_name(command@)) == Some(p@),
                None => command_policy_for(self.command_policy@, command_name(command@)) is None,
            },
    {
        let stem = file_stem(command);
        let name = match stem {
            Some(s) => s,
            None => crate::text::owned(command),
        };
        match self.policy_for_command_name(name.as_str()) {
            Some(p) => Some(crate::text::owned(p)),
            None => None,
        }
    }
}

/// An environment policy that sets nothing.
pub open spec fn empty_env_view() -> EnvView {
    EnvView { mode: None, filters: Seq::empty(), set: Map::empty() }
}

/// A sandbox policy that sets nothing.
pub open spec fn empty_policy_view() -> PolicyView {
    PolicyView {
        writable_roots: Seq::empty(),
        write_restricted_paths: Seq::empty(),
        read_restricted_paths: Seq::empty(),
        network: None,
        env: None,
        enable_gui: None,
        enable_audio: None,
    }
}

/// In a list of filters followed by more, a filter of the first list that
/// matches decides before any of the others.
pub proof fn lemma_first_match_concat(x: Seq<(Seq<char>, FilterAction)>, y: Seq<(Seq<char>, FilterAction)>, name: Seq<char>)
    ensures
        first_match(x + y, name) == match first_match(x, name) {
            Some(a) => Some(a),
            None => first_match(y, name),
        },
    decreases x.len(),
{
    if x.len() > 0 {
        lemma_first_match_concat(x.drop_first(), y, name);
        assert((x + y).drop_first() =~= x.drop_first() + y);
    } else {
        assert(x + y =~= y);
    }
}

/// Filters of an upper layer take precedence: after a merge, the first
/// filter of the upper layer that matches a name decides, and only when
/// none does, the first matching filter of the lower layer.
pub proof fn law_upper_filters_first(a: EnvView, b: EnvView, name: Seq<char>)
    ensures
        first_match(env_merge(a, b).filters, name) == match first_match(b.filters, name) {
            Some(x) => Some(x),
            None => first_match(a.filters, name),
        },
{
    lemma_first_match_concat(b.filters, a.filters, name);
}

/// Merging environment policies is associative: layering `c` over the
/// merge of `b` over `a` is layering the merge of `c` over `b` over `a`.
pub proof fn law_env_merge_associative(a: EnvView, b: EnvView, c: EnvView)
    ensures
        env_merge(env_merge(a, b), c) == env_merge(a, env_merge(b, c)),
{
    assert(c.filters + (b.filters + a.filters) =~= (c.filters + b.filters) + a.filters);
    assert(a.set.union_prefer_right(b.set).union_prefer_right(c.set) =~= a.set.union_prefer_right(b.set.union_prefer_right(c.set)));
}

/// An environment policy that sets nothing changes nothing when merged,
/// above or below.
pub proof fn law_env_merge_identity(a: EnvView)
    ensures
        env_merge(a, empty_env_view()) == a,
        env_merge(empty_env_view(), a) == a,
{
    assert(Seq::<(Seq<char>, FilterAction)>::empty() + a.filters =~= a.filters);
    assert(a.filters + Seq::<(Seq<char>, FilterAction)>::empty() =~= a.filters);
    assert(a.set.union_prefer_right(Map::empty()) =~= a.set);
    assert(Map::<Seq<char>, Seq<char>>::empty().union_prefer_right(a.set) =~= a.set);
}

/// Merging sandbox policies is associative.
pub proof fn law_policy_merge_associative(a: PolicyView, b: PolicyView, c: PolicyView)
    ensures
        policy_merge(policy_merge(a, b), c) == policy_merge(a, policy_merge(b, c)),
{
    assert((a.writable_roots + b.writable_roots) + c.writable_roots =~= a.writable_roots + (b.writable_roots + c.writable_roots));
    assert((a.write_restricted_paths + b.write_restricted_paths) + c.write_restricted_paths
        =~= a.write_restricted_paths + (b.write_restricted_paths + c.write_restricted_paths));
    assert((a.read_restricted_paths + b.read_restricted_paths) + c.read_restricted_paths
        =~= a.read_restricted_paths + (b.read_restricted_paths + c.read_restricted_paths));
    match (a.env, b.env, c.env) {
        (Some(x), Some(y), Some(z)) => law_env_merge_associative(x, y, z),
        _ => {},
    }
}

/// A sandbox policy that sets nothing changes nothing when merged, above or
/// below.
pub proof fn law_policy_merge_identity(a: PolicyView)
    ensures
        policy_merge(a, empty_policy_view()) == a,
        policy_merge(empty_policy_view(), a) == a,
{
    assert(a.writable_roots + Seq::empty() =~= a.writable_roots);
    assert(a.write_restricted_paths + Seq::empty() =~= a.write_restricted_paths);
    assert(a.read_restricted_paths + Seq::empty() =~= a.read_restricted_paths);
    assert(Seq::empty() + a.writable_roots =~= a.writable_roots);
    assert(Seq::empty() + a.write_restricted_paths =~= a.write_restricted_paths);
    assert(Seq::empty() + a.read_restricted_paths =~= a.read_restricted_paths);
}

/// The forced variables of a policy are always in the filtered environment,
/// with their forced values.
pub proof fn law_forced_variables_set(p: EnvView, env: Map<Seq<char>, Seq<char>>, k: Seq<char>)
    requires
        p.set.contains_key(k),
    ensures
        filtered_env(p, env).contains_key(k),
        filtered_env(p, env)[k] == p.set[k],
{
}

/// A variable that a filter blocks (the first matching one) is not in the
/// filtered environment unless the policy forces it.
pub proof fn law_blocked_variables_dropped(p: EnvView, env: Map<Seq<char>, Seq<char>>, k: Seq<char>)
    requires
        first_match(p.filters, k) == Some(FilterAction::Block),
        !p.set.contains_key(k),
    ensures
        !filtered_env(p, env).contains_key(k),
{
}

/// A variable that passes filtering and is not forced keeps its value.
pub proof fn law_admitted_variables_kept(p: EnvView, env: Map<Seq<char>, Seq<char>>, k: Seq<char>)
    requires
        env.contains_key(k),
        env_admits(p, k),
        !p.set.contains_key(k),
    ensures
        filtered_env(p, env).contains_key(k),
        filtered_env(p, env)[k] == env[k],
{
}

/// With no filters and blocking by default, only the forced variables
/// remain.
pub proof fn law_default_block_keeps_only_forced(p: EnvView, env: Map<Seq<char>, Seq<char>>)
    requires
        p.filters.len() == 0,
        p.mode == Some(EnvMode::DefaultBlock),
    ensures
        filtered_env(p, env) == p.set,
{
    assert(filtered_env(p, env) =~= p.set);
}

/// With no filters and allowing by default, the environment passes whole,
/// the forced variables set on top.
pub proof fn law_default_allow_keeps_everything(p: EnvView, env: Map<Seq<char>, Seq<char>>)
    requires
        p.filters.len() == 0,
        mode_or_default(p.mode) == EnvMode::DefaultAllow,
    ensures
        filtered_env(p, env) == env.union_prefer_right(p.set),
{
    assert(filtered_env(p, env) =~= env.union_prefer_right(p.set));
}

/// In a command-to-policy table made of an upper table followed by a lower
/// one, an entry of the upper table that matches decides first.
pub proof fn law_upper_commands_first(upper: Seq<CommandPolicy>, lower: Seq<CommandPolicy>, name: Seq<char>)
    ensures
        command_policy_for(upper + lower, name) == match command_policy_for(upper, name) {
            Some(p) => Some(p),
            None => command_policy_for(lower, name),
        },
    decreases upper.len(),
{
    if upper.len() > 0 {
        law_upper_commands_first(upper.drop_first(), lower, name);
        assert((upper + lower).drop_first() =~= upper.drop_first() + lower);
    } else {
        assert(upper + lower =~= lower);
    }
}

} // verus!
