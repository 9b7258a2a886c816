//! The command line of `cage`.
use vstd::prelude::*;

use crate::text::{chars_of, str_eq, string_of, strs_view};

verus! {

/// The command line of `cage`.
#[derive(Debug)]
pub struct Args {
    /// Policy name to apply (`-p`, `--policy`).
    pub policy: Option<String>,
    /// Use the chosen policy but with full network access.
    pub allow_network: bool,
    /// Run the command without a sandbox.
    pub no_sandbox: bool,
    /// Path to an additional configuration file (`-c`, `--config`).
    pub config: Option<String>,
    /// Additional writable paths.
    pub writable: Vec<String>,
    /// Additional paths to keep from being written.
    pub write_restrict: Vec<String>,
    /// Additional paths to keep from being read.
    pub read_restrict: Vec<String>,
    /// Show the sandbox configuration before running (`-v`, `--verbose`).
    pub verbose: bool,
    /// Show the sandbox configuration and do not run.
    pub dry_run: bool,
    /// The command to run.
    pub command: String,
    /// Its arguments: everything after the command, as given.
    pub args: Vec<String>,
}

/// The options of the command line.
#[derive(Debug, Clone, Copy, PartialEq, Eq, Structural)]
pub enum OptKind {
    Policy,
    Config,
    Writable,
    WriteRestrict,
    ReadRestrict,
    AllowNetwork,
    NoSandbox,
    Verbose,
    DryRun,
    Help,
    Version,
}

/// Why a command line was not accepted.
#[derive(Debug)]
pub enum CliError {
    /// An option that does not exist.
    UnknownArgument(String),
    /// An option that needs a value got none.
    MissingValue(OptKind),
    /// An option that takes one value, or a switch, was given twice.
    Duplicate(OptKind),
    /// A switch was given a value.
    UnexpectedValue(OptKind),
    /// No command to run.
    MissingCommand,
    /// Help was asked for.
    Help,
    /// The version was asked for.
    Version,
}

/// The option a long name (after `--`) stands for.
pub open spec fn long_kind(name: Seq<char>) -> Option<OptKind> {
    if name == "policy"@ {
        Some(OptKind::Policy)
    } else if name == "config"@ {
        Some(OptKind::Config)
    } else if name == "writable"@ {
        Some(OptKind::Writable)
    } else if name == "write-restrict"@ {
        Some(OptKind::WriteRestrict)
    } else if name == "read-restrict"@ {
        Some(OptKind::ReadRestrict)
    } else if name == "allow-network"@ {
        Some(OptKind::AllowNetwork)
    } else if name == "no-sandbox"@ {
        Some(OptKind::NoSandbox)
    } else if name == "verbose"@ {
        Some(OptKind::Verbose)
    } else if name == "dry-run"@ {
        Some(OptKind::DryRun)
    } else if name == "help"@ {
        Some(OptKind::Help)
    } else if name == "version"@ {
        Some(OptKind::Version)
    } else {
        None
    }
}

/// The option a short letter (after `-`) stands for.
pub open spec fn short_kind(c: char) -> Option<OptKind> {
    if c == 'p' {
        Some(OptKind::Policy)
    } else if c == 'c' {
        Some(OptKind::Config)
    } else if c == 'v' {
        Some(OptKind::Verbose)
    } else if c == 'h' {
        Some(OptKind::Help)
    } else if c == 'V' {
        Some(OptKind::Version)
    } else {
        None
    }
}

/// Whether an option takes a value.
pub open spec fn takes_value(k: OptKind) -> bool {
    match k {
        OptKind::Policy | OptKind::Config | OptKind::Writable | OptKind::WriteRestrict | OptKind::ReadRestrict => true,
        _ => false,
    }
}

/// The options gathered so far.
pub struct OptsModel {
    pub policy: Option<Seq<char>>,
    pub config: Option<Seq<char>>,
    pub writable: Seq<Seq<char>>,
    pub write_restrict: Seq<Seq<char>>,
    pub read_restrict: Seq<Seq<char>>,
    pub allow_network: bool,
    pub no_sandbox: bool,
    pub verbose: bool,
    pub dry_run: bool,
}

/// The outcome of reading a command line.
pub enum ParseModel {
    /// The options, the command and its arguments.
    Parsed(OptsModel, Seq<char>, Seq<Seq<char>>),
    Unknown(Seq<char>),
    MissingValue(OptKind),
    Duplicate(OptKind),
    UnexpectedValue(OptKind),
    MissingCommand,
    Help,
    Version,
}

/// The options before any was read.
pub open spec fn no_opts() -> OptsModel {
    OptsModel {
        policy: None,
        config: None,
        writable: Seq::empty(),
        write_restrict: Seq::empty(),
        read_restrict: Seq::empty(),
        allow_network: false,
        no_sandbox: false,
        verbose: false,
        dry_run: false,
    }
}

/// One option applied: a value option given twice or a switch given twice
/// is refused, path options accumulate, help and version stop the reading.
pub open spec fn apply_opt(o: OptsModel, k: OptKind, v: Seq<char>) -> Result<OptsModel, ParseModel> {
    match k {
        OptKind::Policy => if o.policy is Some { Err(ParseModel::Duplicate(k)) } else { Ok(OptsModel { policy: Some(v), ..o }) },
        OptKind::Config => if o.config is Some { Err(ParseModel::Duplicate(k)) } else { Ok(OptsModel { config: Some(v), ..o }) },
        OptKind::Writable => Ok(OptsModel { writable: o.writable.push(v), ..o }),
        OptKind::WriteRestrict => Ok(OptsModel { write_restrict: o.write_restrict.push(v), ..o }),
        OptKind::ReadRestrict => Ok(OptsModel { read_restrict: o.read_restrict.push(v), ..o }),
        OptKind::AllowNetwork => if o.allow_network { Err(ParseModel::Duplicate(k)) } else { Ok(OptsModel { allow_network: true, ..o }) },
        OptKind::NoSandbox => if o.no_sandbox { Err(ParseModel::Duplicate(k)) } else { Ok(OptsModel { no_sandbox: true, ..o }) },
        OptKind::Verbose => if o.verbose { Err(ParseModel::Duplicate(k)) } else { Ok(OptsModel { verbose: true, ..o }) },
        OptKind::DryRun => if o.dry_run { Err(ParseModel::Duplicate(k)) } else { Ok(OptsModel { dry_run: true, ..o }) },
        OptKind::Help => Err(ParseModel::Help),
        OptKind::Version => Err(ParseModel::Version),
    }
}

/// An argument that looks like an option: a `-` followed by something.
pub open spec fn looks_like_option(a: Seq<char>) -> bool {
    a.len() > 1 && a[0] == '-'
}

/// The position of the first `=` in `s` (or its end).
pub open spec fn eq_at(s: Seq<char>, i: int) -> int
    decreases s.len() - i,
{
    if i >= s.len() || s[i] == '=' {
        i
    } else {
        eq_at(s, i + 1)
    }
}

/// Reads the command line `argv` from position `i` on, with the options
/// `o` read so far.
///
/// `--` ends the options: the next argument is the command. `--name`,
/// `--name=value` and `--name value` are long options; `-x` short ones,
/// which can be grouped (`-vp NAME`), and a short option's value can follow
/// its letter directly (`-pNAME`, `-p=NAME`). A value is taken from the next
/// argument unless that looks like an option. The first argument that is
/// no option is the command, and every later argument belongs to it.
pub open spec fn parse_from_spec(argv: Seq<Seq<char>>, i: int, o: OptsModel) -> ParseModel
    decreases argv.len() - i + 1, 0int,
    when 0 <= i
{
    if i >= argv.len() {
        ParseModel::MissingCommand
    } else {
        let a = argv[i];
        if a == "--"@ {
            if i + 1 < argv.len() {
                ParseModel::Parsed(o, argv[i + 1], argv.skip(i + 2))
            } else {
                ParseModel::MissingCommand
            }
        } else if a.len() >= 2 && a[0] == '-' && a[1] == '-' {
            let body = a.skip(2);
            let e = eq_at(body, 0);
            let name = body.take(e);
            match long_kind(name) {
                None => ParseModel::Unknown(a),
                Some(k) => if takes_value(k) {
                    if e < body.len() {
                        step(argv, i + 1, apply_opt(o, k, body.skip(e + 1)))
                    } else if i + 1 < argv.len() && !looks_like_option(argv[i + 1]) {
                        step(argv, i + 2, apply_opt(o, k, argv[i + 1]))
                    } else {
                        ParseModel::MissingValue(k)
                    }
                } else if e < body.len() {
                    ParseModel::UnexpectedValue(k)
                } else {
                    step(argv, i + 1, apply_opt(o, k, Seq::empty()))
                },
            }
        } else if looks_like_option(a) {
            parse_short(argv, i, 1, o)
        } else {
            ParseModel::Parsed(o, a, argv.skip(i + 1))
        }
    }
}

/// Continues at position `i` once an option is applied, or stops with its error.
pub open spec fn step(argv: Seq<Seq<char>>, i: int, r: Result<OptsModel, ParseModel>) -> ParseModel
    decreases argv.len() - i + 1, 1int,
    when 0 <= i
{
    match r {
        Ok(o) => parse_from_spec(argv, i, o),
        Err(e) => e,
    }
}

/// Reads the group of short options `argv[i]` from its character `j` on.
pub open spec fn parse_short(argv: Seq<Seq<char>>, i: int, j: int, o: OptsModel) -> ParseModel
    decreases argv.len() - i, argv[i].len() - j + 1,
    when 0 <= i < argv.len() && 1 <= j <= argv[i].len()
{
    let a = argv[i];
    if j >= a.len() {
        parse_from_spec(argv, i + 1, o)
    } else {
        match short_kind(a[j]) {
            None => ParseModel::Unknown(a),
            Some(k) => if takes_value(k) {
                let rest = a.skip(j + 1);
                if rest.len() > 0 {
                    let v = if rest[0] == '=' { rest.skip(1) } else { rest };
                    step(argv, i + 1, apply_opt(o, k, v))
                } else if i + 1 < argv.len() && !looks_like_option(argv[i + 1]) {
                    step(argv, i + 2, apply_opt(o, k, argv[i + 1]))
                } else {
                    ParseModel::MissingValue(k)
                }
            } else {
                match apply_opt(o, k, Seq::empty()) {
                    Ok(o2) => parse_short(argv, i, j + 1, o2),
                    Err(e) => e,
                }
            },
        }
    }
}

/// The options gathered so far.
struct Opts {
    policy: Option<String>,
    config: Option<String>,
    writable: Vec<String>,
    write_restrict: Vec<String>,
    read_restrict: Vec<String>,
    allow_network: bool,
    no_sandbox: bool,
    verbose: bool,
    dry_run: bool,
}

spec fn opt_str(o: Option<String>) -> Option<Seq<char>> {
    match o {
        Some(s) => Some(s@),
        None => None,
    }
}

impl View for Opts {
    type V = OptsModel;

    closed spec fn view(&self) -> OptsModel {
        OptsModel {
            policy: opt_str(self.policy),
            config: opt_str(self.config),
            writable: strs_view(self.writable@),
            write_restrict: strs_view(self.write_restrict@),
            read_restrict: strs_view(self.read_restrict@),
            allow_network: self.allow_network,
            no_sandbox: self.no_sandbox,
            verbose: self.verbose,
            dry_run: self.dry_run,
        }
    }
}

/// The command line as read into [`Args`], or the error, as the model says.
pub open spec fn reports(res: Result<Args, CliError>, m: ParseModel) -> bool {
    match (res, m) {
        (Ok(a), ParseModel::Parsed(o, c, rest)) => {
            &&& (match a.policy { Some(p) => o.policy == Some(p@), None => o.policy is None })
            &&& (match a.config { Some(p) => o.config == Some(p@), None => o.config is None })
            &&& strs_view(a.writable@) == o.writable
            &&& strs_view(a.write_restrict@) == o.write_restrict
            &&& strs_view(a.read_restrict@) == o.read_restrict
            &&& a.allow_network == o.allow_network
            &&& a.no_sandbox == o.no_sandbox
            &&& a.verbose == o.verbose
            &&& a.dry_run == o.dry_run
            &&& a.command@ == c
            &&& strs_view(a.args@) == rest
        },
        (Err(CliError::UnknownArgument(x)), ParseModel::Unknown(y)) => x@ == y,
        (Err(CliError::MissingValue(x)), ParseModel::MissingValue(y)) => x == y,
        (Err(CliError::Duplicate(x)), ParseModel::Duplicate(y)) => x == y,
        (Err(CliError::UnexpectedValue(x)), ParseModel::UnexpectedValue(y)) => x == y,
        (Err(CliError::MissingCommand), ParseModel::MissingCommand) => true,
        (Err(CliError::Help), ParseModel::Help) => true,
        (Err(CliError::Version), ParseModel::Version) => true,
        _ => false,
    }
}

/// The error that stops a reading, as the model names it.
spec fn reports_err(e: CliError, m: ParseModel) -> bool {
    reports(Err(e), m)
}

fn eq_text(v: &Vec<char>, s: &str) -> (res: bool)
    ensures
        res == (v@ == s@),
{
    let t = string_of(v);
    str_eq(t.as_str(), s)
}

fn long_kind_of(name: &Vec<char>) -> (res: Option<OptKind>)
    ensures
        res == long_kind(name@),
{
    if eq_text(name, "policy") {
        Some(OptKind::Policy)
    } else if eq_text(name, "config") {
        Some(OptKind::Config)
    } else if eq_text(name, "writable") {
        Some(OptKind::Writable)
    } else if eq_text(name, "write-restrict") {
        Some(OptKind::WriteRestrict)
    } else if eq_text(name, "read-restrict") {
        Some(OptKind::ReadRestrict)
    } else if eq_text(name, "allow-network") {
        Some(OptKind::AllowNetwork)
    } else if eq_text(name, "no-sandbox") {
        Some(OptKind::NoSandbox)
    } else if eq_text(name, "verbose") {
        Some(OptKind::Verbose)
    } else if eq_text(name, "dry-run") {
        Some(OptKind::DryRun)
    } else if eq_text(name, "help") {
        Some(OptKind::Help)
    } else if eq_text(name, "version") {
        Some(OptKind::Version)
    } else {
        None
    }
}

fn short_kind_of(c: char) -> (res: Option<OptKind>)
    ensures
        res == short_kind(c),
{
    if c == 'p' {
        Some(OptKind::Policy)
    } else if c == 'c' {
        Some(OptKind::Config)
    } else if c == 'v' {
        Some(OptKind::Verbose)
    } else if c == 'h' {
        Some(OptKind::Help)
    } else if c == 'V' {
        Some(OptKind::Version)
    } else {
        None
    }
}

fn takes_value_of(k: OptKind) -> (res: bool)
    ensures
        res == takes_value(k),
{
    match k {
        OptKind::Policy | OptKind::Config | OptKind::Writable | OptKind::WriteRestrict | OptKind::ReadRestrict => true,
        _ => false,
    }
}

fn apply_opt_exec(o: Opts, k: OptKind, v: &Vec<char>) -> (res: Result<Opts, CliError>)
    ensures
        match (res, apply_opt(o@, k, v@)) {
            (Ok(a), Ok(b)) => a@ == b,
            (Err(e), Err(m)) => reports_err(e, m),
            _ => false,
        },
{
    let mut o = o;
    let ghost old_o = o@;
    let value = string_of(v);
    match k {
        OptKind::Policy => {
            if o.policy.is_some() {
                return Err(CliError::Duplicate(k));
            }
            o.policy = Some(value);
        },
        OptKind::Config => {
            if o.config.is_some() {
                return Err(CliError::Duplicate(k));
            }
            o.config = Some(value);
        },
        OptKind::Writable => {
            o.writable.push(value);
            proof {
                assert(strs_view(o.writable@) =~= old_o.writable.push(v@));
            }
        },
        OptKind::WriteRestrict => {
            o.write_restrict.push(value);
            proof {
                assert(strs_view(o.write_restrict@) =~= old_o.write_restrict.push(v@));
            }
        },
        OptKind::ReadRestrict => {
            o.read_restrict.push(value);
            proof {
                assert(strs_view(o.read_restrict@) =~= old_o.read_restrict.push(v@));
            }
        },
        OptKind::AllowNetwork => {
            if o.allow_network {
                return Err(CliError::Duplicate(k));
            }
            o.allow_network = true;
        },
        OptKind::NoSandbox => {
            if o.no_sandbox {
                return Err(CliError::Duplicate(k));
            }
            o.no_sandbox = true;
        },
        OptKind::Verbose => {
            if o.verbose {
                return Err(CliError::Duplicate(k));
            }
            o.verbose = true;
        },
        OptKind::DryRun => {
            if o.dry_run {
                return Err(CliError::Duplicate(k));
            }
            o.dry_run = true;
        },
        OptKind::Help => return Err(CliError::Help),
        OptKind::Version => return Err(CliError::Version),
    }
    Ok(o)
}

spec fn argv_view(argv: Seq<Vec<char>>) -> Seq<Seq<char>> {
    argv.map_values(|v: Vec<char>| v@)
}

fn looks_like_option_exec(a: &Vec<char>) -> (res: bool)
    ensures
        res == looks_like_option(a@),
{
    a.len() > 1 && a[0] == '-'
}

fn skip_chars(a: &Vec<char>, k: usize) -> (res: Vec<char>)
    requires
        k <= a@.len(),
    ensures
        res@ == a@.skip(k as int),
{
    let mut res: Vec<char> = Vec::new();
    let mut i = k;
    while i < a.len()
        invariant
            k <= i <= a@.len(),
            res@ == a@.subrange(k as int, i as int),
        decreases a@.len() - i,
    {
        res.push(a[i]);
        proof {
            assert(res@ =~= a@.subrange(k as int, i + 1));
        }
        i = i + 1;
    }
    proof {
        assert(res@ =~= a@.skip(k as int));
    }
    res
}

fn rest_strings(argv: &Vec<Vec<char>>, k: usize) -> (res: Vec<String>)
    requires
        k <= argv@.len(),
    ensures
        strs_view(res@) == argv_view(argv@).skip(k as int),
{
    let mut res: Vec<String> = Vec::new();
    let mut i = k;
    while i < argv.len()
        invariant
            k <= i <= argv@.len(),
            strs_view(res@) == argv_view(argv@).subrange(k as int, i as int),
        decreases argv@.len() - i,
    {
        let ghost before = strs_view(res@);
        res.push(string_of(&argv[i]));
        proof {
            assert(strs_view(res@) =~= before.push(argv@[i as int]@));
            assert(strs_view(res@) =~= argv_view(argv@).subrange(k as int, i + 1));
        }
        i = i + 1;
    }
    proof {
        assert(argv_view(argv@).subrange(k as int, argv@.len() as int) =~= argv_view(argv@).skip(k as int));
    }
    res
}

fn finish(o: Opts, command: &Vec<char>, argv: &Vec<Vec<char>>, k: usize) -> (res: Result<Args, CliError>)
    requires
        k <= argv@.len(),
    ensures
        reports(res, ParseModel::Parsed(o@, command@, argv_view(argv@).skip(k as int))),
{
    Ok(Args {
        policy: o.policy,
        allow_network: o.allow_network,
        no_sandbox: o.no_sandbox,
        config: o.config,
        writable: o.writable,
        write_restrict: o.write_restrict,
        read_restrict: o.read_restrict,
        verbose: o.verbose,
        dry_run: o.dry_run,
        command: string_of(command),
        args: rest_strings(argv, k),
    })
}

fn parse_at(argv: &Vec<Vec<char>>, i: usize, o: Opts) -> (res: Result<Args, CliError>)
    ensures
        reports(res, parse_from_spec(argv_view(argv@), i as int, o@)),
    decreases argv@.len() - i + 1, 0int,
{
    let ghost av = argv_view(argv@);
    if i >= argv.len() {
        return Err(CliError::MissingCommand);
    }
    let a = &argv[i];
    proof {
        assert(av[i as int] == a@);
    }
    if eq_text(a, "--") {
        if i + 1 < argv.len() {
            proof {
                assert(av[i + 1] == argv@[i + 1]@);
            }
            return finish(o, &argv[i + 1], argv, i + 2);
        } else {
            return Err(CliError::MissingCommand);
        }
    }
    if a.len() >= 2 && a[0] == '-' && a[1] == '-' {
        let body = skip_chars(a, 2);
        let mut e: usize = 0;
        while e < body.len() && body[e] != '='
            invariant
                e <= body@.len(),
                eq_at(body@, 0) == eq_at(body@, e as int),
            decreases body@.len() - e,
        {
            e = e + 1;
        }
        let mut name: Vec<char> = Vec::new();
        let mut t: usize = 0;
        while t < e
            invariant
                t <= e,
                e <= body@.len(),
                name@ == body@.take(t as int),
            decreases e - t,
        {
            name.push(body[t]);
            proof {
                assert(name@ =~= body@.take(t + 1));
            }
            t = t + 1;
        }
        match long_kind_of(&name) {
            None => {
                return Err(CliError::UnknownArgument(string_of(a)));
            },
            Some(k) => {
                if takes_value_of(k) {
                    if e < body.len() {
                        let v = skip_chars(&body, e + 1);
                        return step_at(argv, i + 1, apply_opt_exec(o, k, &v), Ghost(apply_opt(o@, k, v@)));
                    } else if i + 1 < argv.len() && !looks_like_option_exec(&argv[i + 1]) {
                        proof {
                            assert(av[i + 1] == argv@[i + 1]@);
                        }
                        return step_at(argv, i + 2, apply_opt_exec(o, k, &argv[i + 1]), Ghost(apply_opt(o@, k, argv@[i + 1]@)));
                    } else {
                        proof {
                            if i + 1 < argv@.len() {
                                assert(av[i + 1] == argv@[i + 1]@);
                            }
                        }
                        return Err(CliError::MissingValue(k));
                    }
                } else if e < body.len() {
                    return Err(CliError::UnexpectedValue(k));
                } else {
                    let empty: Vec<char> = Vec::new();
                    proof {
                        assert(empty@ =~= Seq::<char>::empty());
                    }
                    return step_at(argv, i + 1, apply_opt_exec(o, k, &empty), Ghost(apply_opt(o@, k, empty@)));
                }
            },
        }
    }
    if looks_like_option_exec(a) {
        return parse_short_at(argv, i, 1, o);
    }
    finish(o, a, argv, i + 1)
}

fn step_at(argv: &Vec<Vec<char>>, i: usize, r: Result<Opts, CliError>, Ghost(m): Ghost<Result<OptsModel, ParseModel>>) -> (res: Result<Args, CliError>)
    requires
        i <= argv@.len() + 1,
        match (r, m) {
            (Ok(a), Ok(b)) => a@ == b,
            (Err(e), Err(x)) => reports_err(e, x),
            _ => false,
        },
    ensures
        reports(res, step(argv_view(argv@), i as int, m)),
    decreases argv@.len() - i + 1, 1int,
{
    match r {
        Ok(o) => parse_at(argv, i, o),
        Err(e) => Err(e),
    }
}

fn parse_short_at(argv: &Vec<Vec<char>>, i: usize, j: usize, o: Opts) -> (res: Result<Args, CliError>)
    requires
        i < argv@.len(),
        1 <= j <= argv@[i as int]@.len(),
    ensures
        reports(res, parse_short(argv_view(argv@), i as int, j as int, o@)),
    decreases argv@.len() - i, argv@[i as int]@.len() - j + 1,
{
    let ghost av = argv_view(argv@);
    let n = argv.len();
    let a = &argv[i];
    proof {
        assert(av[i as int] == a@);
    }
    if j >= a.len() {
        return parse_at(argv, i + 1, o);
    }
    match short_kind_of(a[j]) {
        None => Err(CliError::UnknownArgument(string_of(a))),
        Some(k) => {
            if takes_value_of(k) {
                let rest = skip_chars(a, j + 1);
                if rest.len() > 0 {
                    let v = if rest[0] == '=' { skip_chars(&rest, 1) } else { rest };
                    step_at(argv, i + 1, apply_opt_exec(o, k, &v), Ghost(apply_opt(o@, k, v@)))
                } else if i + 1 < argv.len() && !looks_like_option_exec(&argv[i + 1]) {
                    proof {
                        assert(av[i + 1] == argv@[i + 1]@);
                    }
                    step_at(argv, i + 2, apply_opt_exec(o, k, &argv[i + 1]), Ghost(apply_opt(o@, k, argv@[i + 1]@)))
                } else {
                    proof {
                        if i + 1 < argv@.len() {
                            assert(av[i + 1] == argv@[i + 1]@);
                        }
                    }
                    Err(CliError::MissingValue(k))
                }
            } else {
                let empty: Vec<char> = Vec::new();
                proof {
                    assert(empty@ =~= Seq::<char>::empty());
                }
                match apply_opt_exec(o, k, &empty) {
                    Ok(o2) => parse_short_at(argv, i, j + 1, o2),
                    Err(e) => Err(e),
                }
            }
        },
    }
}

impl Args {
    /// Reads a command line (the program name first, as `std::env::args`
    /// gives it) as [`parse_from_spec`] describes.
    pub fn parse_from(argv: &Vec<String>) -> (res: Result<Args, CliError>)
        ensures
            argv@.len() == 0 ==> res matches Err(CliError::MissingCommand),
            argv@.len() > 0 ==> reports(res, parse_from_spec(strs_view(argv@), 1, no_opts())),
    {
        let mut chars: Vec<Vec<char>> = Vec::new();
        let mut i: usize = 0;
        while i < argv.len()
            invariant
                i <= argv@.len(),
                argv_view(chars@) == strs_view(argv@.take(i as int)),
            decreases argv@.len() - i,
        {
            let ghost before = chars@;
            let c = chars_of(argv[i].as_str());
            chars.push(c);
            proof {
                assert(argv_view(chars@) =~= argv_view(before).push(argv@[i as int]@));
                assert(strs_view(argv@.take(i + 1)) =~= strs_view(argv@.take(i as int)).push(argv@[i as int]@));
            }
            i = i + 1;
        }
        proof {
            assert(argv@.take(argv@.len() as int) =~= argv@);
        }
        if argv.len() == 0 {
            return Err(CliError::MissingCommand);
        }
        let o = Opts {
            policy: None,
            config: None,
            writable: Vec::new(),
            write_restrict: Vec::new(),
            read_restrict: Vec::new(),
            allow_network: false,
            no_sandbox: false,
            verbose: false,
            dry_run: false,
        };
        proof {
            assert(o@.writable =~= Seq::<Seq<char>>::empty());
            assert(o@.write_restrict =~= Seq::<Seq<char>>::empty());
            assert(o@.read_restrict =~= Seq::<Seq<char>>::empty());
            assert(o@ == no_opts());
        }
        parse_at(&chars, 1, o)
    }
}

/// The command is the first argument that is no option, and every
/// argument after it belongs to it unchanged, even one that looks like an
/// option of `cage`.
pub proof fn law_command_takes_the_rest(argv: Seq<Seq<char>>)
    requires
        argv.len() >= 2,
        !looks_like_option(argv[1]),
        argv[1] != "--"@,
    ensures
        parse_from_spec(argv, 1, no_opts()) == ParseModel::Parsed(no_opts(), argv[1], argv.skip(2)),
{
    if argv[1].len() >= 2 && argv[1][0] == '-' {
        assert(looks_like_option(argv[1]));
    }
}

/// After `--`, the next argument is the command whatever it looks like.
pub proof fn law_double_dash_ends_options(argv: Seq<Seq<char>>, i: int, o: OptsModel)
    requires
        0 <= i,
        i + 1 < argv.len(),
        argv[i] == "--"@,
    ensures
        parse_from_spec(argv, i, o) == ParseModel::Parsed(o, argv[i + 1], argv.skip(i + 2)),
{
}

proof fn lemma_eq_at_none(s: Seq<char>, i: int)
    requires
        0 <= i <= s.len(),
        forall|k: int| i <= k < s.len() ==> s[k] != '=',
    ensures
        eq_at(s, i) == s.len(),
    decreases s.len() - i,
{
    if i < s.len() {
        lemma_eq_at_none(s, i + 1);
    }
}

/// What the path options read as: `--writable`, `--write-restrict` and
/// `--read-restrict` are long options, told apart from all others.
proof fn lemma_path_option_names()
    ensures
        "--writable"@.skip(2) == "writable"@,
        "--write-restrict"@.skip(2) == "write-restrict"@,
        "--read-restrict"@.skip(2) == "read-restrict"@,
        long_kind("writable"@) == Some(OptKind::Writable),
        long_kind("write-restrict"@) == Some(OptKind::WriteRestrict),
        long_kind("read-restrict"@) == Some(OptKind::ReadRestrict),
        "--writable"@.len() == 10 && "--writable"@[0] == '-' && "--writable"@[1] == '-',
        "--write-restrict"@.len() == 16 && "--write-restrict"@[0] == '-' && "--write-restrict"@[1] == '-',
        "--read-restrict"@.len() == 15 && "--read-restrict"@[0] == '-' && "--read-restrict"@[1] == '-',
        forall|k: int| 0 <= k < "writable"@.len() ==> "writable"@[k] != '=',
        forall|k: int| 0 <= k < "write-restrict"@.len() ==> "write-restrict"@[k] != '=',
        forall|k: int| 0 <= k < "read-restrict"@.len() ==> "read-restrict"@[k] != '=',
{
    reveal_strlit("--writable");
    reveal_strlit("--write-restrict");
    reveal_strlit("--read-restrict");
    reveal_strlit("writable");
    reveal_strlit("write-restrict");
    reveal_strlit("read-restrict");
    reveal_strlit("policy");
    reveal_strlit("config");
    reveal_strlit("allow-network");
    reveal_strlit("no-sandbox");
    reveal_strlit("verbose");
    reveal_strlit("dry-run");
    reveal_strlit("help");
    reveal_strlit("version");
    assert("--writable"@.skip(2) =~= "writable"@);
    assert("--write-restrict"@.skip(2) =~= "write-restrict"@);
    assert("--read-restrict"@.skip(2) =~= "read-restrict"@);
    assert("writable"@[0] == 'w' && "policy"@[0] == 'p' && "config"@[0] == 'c' && "version"@[0] == 'v');
    assert("write-restrict"@[0] == 'w' && "allow-network"@[0] == 'a' && "no-sandbox"@[0] == 'n');
    assert("read-restrict"@[0] == 'r' && "dry-run"@[0] == 'd' && "help"@[0] == 'h' && "verbose"@[0] == 'v');
    assert("write-restrict"@[5] == '-' && "read-restrict"@[4] == '-');
}

/// Path options accumulate: `--writable`, `--write-restrict` or
/// `--read-restrict` followed by a value that is no option appends that value
/// to the end of its own list, keeps every earlier value and every other
/// option as it was, and reading goes on after the value.
pub proof fn law_path_options_accumulate(argv: Seq<Seq<char>>, i: int, o: OptsModel)
    requires
        0 <= i,
        i + 1 < argv.len(),
        !looks_like_option(argv[i + 1]),
    ensures
        argv[i] == "--writable"@ ==> parse_from_spec(argv, i, o)
            == parse_from_spec(argv, i + 2, OptsModel { writable: o.writable.push(argv[i + 1]), ..o }),
        argv[i] == "--write-restrict"@ ==> parse_from_spec(argv, i, o)
            == parse_from_spec(argv, i + 2, OptsModel { write_restrict: o.write_restrict.push(argv[i + 1]), ..o }),
        argv[i] == "--read-restrict"@ ==> parse_from_spec(argv, i, o)
            == parse_from_spec(argv, i + 2, OptsModel { read_restrict: o.read_restrict.push(argv[i + 1]), ..o }),
{
    lemma_path_option_names();
    let a = argv[i];
    if a == "--writable"@ || a == "--write-restrict"@ || a == "--read-restrict"@ {
        let body = a.skip(2);
        lemma_eq_at_none(body, 0);
        assert(body.take(body.len() as int) =~= body);
        reveal_strlit("--");
        assert("--"@.len() == 2);
        assert(a != "--"@);
    }
}

/// Every value of a repeated path option is kept, in order: reading
/// `prog --read-restrict a --read-restrict b cmd` gives the read
/// restrictions `[a, b]` and the command `cmd`, with nothing else set (and
/// likewise for `--writable` and `--write-restrict`).
pub proof fn law_repeated_path_option(prog: Seq<char>, a: Seq<char>, b: Seq<char>, cmd: Seq<char>)
    requires
        !looks_like_option(a),
        !looks_like_option(b),
        !looks_like_option(cmd),
        cmd != "--"@,
    ensures
        parse_from_spec(seq![prog, "--read-restrict"@, a, "--read-restrict"@, b, cmd], 1, no_opts())
            == ParseModel::Parsed(OptsModel { read_restrict: seq![a, b], ..no_opts() }, cmd, Seq::empty()),
        parse_from_spec(seq![prog, "--writable"@, a, "--writable"@, b, cmd], 1, no_opts())
            == ParseModel::Parsed(OptsModel { writable: seq![a, b], ..no_opts() }, cmd, Seq::empty()),
        parse_from_spec(seq![prog, "--write-restrict"@, a, "--write-restrict"@, b, cmd], 1, no_opts())
            == ParseModel::Parsed(OptsModel { write_restrict: seq![a, b], ..no_opts() }, cmd, Seq::empty()),
{
    let o0 = no_opts();
    let r = seq![prog, "--read-restrict"@, a, "--read-restrict"@, b, cmd];
    law_path_options_accumulate(r, 1, o0);
    let r1 = OptsModel { read_restrict: o0.read_restrict.push(a), ..o0 };
    law_path_options_accumulate(r, 3, r1);
    let r2 = OptsModel { read_restrict: r1.read_restrict.push(b), ..r1 };
    assert(r2.read_restrict =~= seq![a, b]);
    if cmd.len() >= 2 && cmd[0] == '-' {
        assert(looks_like_option(cmd));
    }
    assert(r.skip(6) =~= Seq::<Seq<char>>::empty());
    let w = seq![prog, "--writable"@, a, "--writable"@, b, cmd];
    law_path_options_accumulate(w, 1, o0);
    let w1 = OptsModel { writable: o0.writable.push(a), ..o0 };
    law_path_options_accumulate(w, 3, w1);
    let w2 = OptsModel { writable: w1.writable.push(b), ..w1 };
    assert(w2.writable =~= seq![a, b]);
    assert(w.skip(6) =~= Seq::<Seq<char>>::empty());
    let x = seq![prog, "--write-restrict"@, a, "--write-restrict"@, b, cmd];
    law_path_options_accumulate(x, 1, o0);
    let x1 = OptsModel { write_restrict: o0.write_restrict.push(a), ..o0 };
    law_path_options_accumulate(x, 3, x1);
    let x2 = OptsModel { write_restrict: x1.write_restrict.push(b), ..x1 };
    assert(x2.write_restrict =~= seq![a, b]);
    assert(x.skip(6) =~= Seq::<Seq<char>>::empty());
}

proof fn lemma_eq_at_first(s: Seq<char>, i: int, k: int)
    requires
        0 <= i <= k < s.len(),
        s[k] == '=',
        forall|t: int| i <= t < k ==> s[t] != '=',
    ensures
        eq_at(s, i) == k,
    decreases k - i,
{
    if i < k {
        lemma_eq_at_first(s, i + 1, k);
    }
}

/// A path option written with its value after `=` (`--read-restrict=PATH`,
/// and likewise `--writable=PATH`, `--write-restrict=PATH`) appends that
/// value to its list, keeps everything else, and reading goes on with the
/// next argument.
pub proof fn law_path_option_with_equals(argv: Seq<Seq<char>>, i: int, o: OptsModel, v: Seq<char>)
    requires
        0 <= i < argv.len(),
    ensures
        argv[i] == "--writable="@ + v ==> parse_from_spec(argv, i, o)
            == parse_from_spec(argv, i + 1, OptsModel { writable: o.writable.push(v), ..o }),
        argv[i] == "--write-restrict="@ + v ==> parse_from_spec(argv, i, o)
            == parse_from_spec(argv, i + 1, OptsModel { write_restrict: o.write_restrict.push(v), ..o }),
        argv[i] == "--read-restrict="@ + v ==> parse_from_spec(argv, i, o)
            == parse_from_spec(argv, i + 1, OptsModel { read_restrict: o.read_restrict.push(v), ..o }),
{
    lemma_path_option_names();
    reveal_strlit("--writable=");
    reveal_strlit("--write-restrict=");
    reveal_strlit("--read-restrict=");
    reveal_strlit("--");
    let a = argv[i];
    reveal_strlit("writable");
    reveal_strlit("write-restrict");
    reveal_strlit("read-restrict");
    if a == "--writable="@ + v {
        let body = a.skip(2);
        assert(body =~= "writable"@ + seq!['='] + v);
        lemma_eq_at_first(body, 0, 8);
        assert(body.take(8) =~= "writable"@);
        assert(body.skip(9) =~= v);
        assert(a.len() != 2);
    }
    if a == "--write-restrict="@ + v {
        let body = a.skip(2);
        assert(body =~= "write-restrict"@ + seq!['='] + v);
        lemma_eq_at_first(body, 0, 14);
        assert(body.take(14) =~= "write-restrict"@);
        assert(body.skip(15) =~= v);
        assert(a.len() != 2);
    }
    if a == "--read-restrict="@ + v {
        let body = a.skip(2);
        assert(body =~= "read-restrict"@ + seq!['='] + v);
        lemma_eq_at_first(body, 0, 13);
        assert(body.take(13) =~= "read-restrict"@);
        assert(body.skip(14) =~= v);
        assert(a.len() != 2);
    }
}

} // verus!
