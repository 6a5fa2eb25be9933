use vstd::prelude::*;
use crate::Config;
use crate::pid::ProcessID;
use crate::text::{chars_of, same_text, views_of};

verus! {

/// What a command-line argument asks for.
#[derive(PartialEq, Eq, Structural, Clone, Copy, Debug)]
pub enum ArgKind {
    /// `-c`, `--cmdline`
    Cmdline,
    /// `-s`, `--case-sensitive`
    CaseSensitive,
    /// `-e`, `--exact`
    Exact,
    /// `-l`, `--list`
    List,
    /// `-p`, `--pid`
    Pid,
    /// `-i`, `--ignore-unrecognised`
    IgnoreUnrecognised,
    /// `-v`, `--version`
    Version,
    /// `-h`, `--help`
    Help,
    /// anything else: part of what names the processes
    Plain,
}

/// The kind of the argument `arg`.
pub open spec fn arg_kind(arg: Seq<char>) -> ArgKind {
    if arg == "-c"@ || arg == "--cmdline"@ {
        ArgKind::Cmdline
    } else if arg == "-s"@ || arg == "--case-sensitive"@ {
        ArgKind::CaseSensitive
    } else if arg == "-e"@ || arg == "--exact"@ {
        ArgKind::Exact
    } else if arg == "-l"@ || arg == "--list"@ {
        ArgKind::List
    } else if arg == "-p"@ || arg == "--pid"@ {
        ArgKind::Pid
    } else if arg == "-i"@ || arg == "--ignore-unrecognised"@ {
        ArgKind::IgnoreUnrecognised
    } else if arg == "-v"@ || arg == "--version"@ {
        ArgKind::Version
    } else if arg == "-h"@ || arg == "--help"@ {
        ArgKind::Help
    } else {
        ArgKind::Plain
    }
}

fn is_one_of(arg: &str, short: &str, long: &str) -> (found: bool)
    ensures
        found == (arg@ == short@ || arg@ == long@),
{
    same_text(arg, short) || same_text(arg, long)
}

/// Tells what the argument `arg` asks for.
pub fn classify_argument(arg: &str) -> (kind: ArgKind)
    ensures
        kind == arg_kind(arg@),
{
    if is_one_of(arg, "-c", "--cmdline") {
        ArgKind::Cmdline
    } else if is_one_of(arg, "-s", "--case-sensitive") {
        ArgKind::CaseSensitive
    } else if is_one_of(arg, "-e", "--exact") {
        ArgKind::Exact
    } else if is_one_of(arg, "-l", "--list") {
        ArgKind::List
    } else if is_one_of(arg, "-p", "--pid") {
        ArgKind::Pid
    } else if is_one_of(arg, "-i", "--ignore-unrecognised") {
        ArgKind::IgnoreUnrecognised
    } else if is_one_of(arg, "-v", "--version") {
        ArgKind::Version
    } else if is_one_of(arg, "-h", "--help") {
        ArgKind::Help
    } else {
        ArgKind::Plain
    }
}

/// The options and the process-naming arguments that `args` give when read from
/// left to right: each option switches its setting on, the other arguments are
/// kept in order. Requests for help or the version change nothing here.
pub open spec fn scanned(args: Seq<Seq<char>>) -> (Config, Seq<Seq<char>>)
    decreases args.len(),
{
    if args.len() == 0 {
        (Config::spec_default(), Seq::empty())
    } else {
        let (c, kept) = scanned(args.drop_last());
        let arg = args.last();
        match arg_kind(arg) {
            ArgKind::Cmdline => (Config { match_cmdline: true, ..c }, kept),
            ArgKind::CaseSensitive => (Config { case_sensitive: true, ..c }, kept),
            ArgKind::Exact => (Config { match_exact: true, ..c }, kept),
            ArgKind::List => (Config { listing: true, ..c }, kept),
            ArgKind::Pid => (Config { match_pid: true, ..c }, kept),
            ArgKind::IgnoreUnrecognised => (Config { ignore_unrecognised: true, ..c }, kept),
            ArgKind::Plain => (c, kept.push(arg)),
            _ => (c, kept),
        }
    }
}

/// Some argument of `args` is of kind `kind`.
pub open spec fn has_kind(args: Seq<Seq<char>>, kind: ArgKind) -> bool {
    exists|i: int| 0 <= i < args.len() && arg_kind(#[trigger] args[i]) == kind
}

/// Each option is on exactly when it was given, wherever it stands among the
/// arguments, and the arguments kept to name processes are just the ones that
/// are no option, in their order.
pub proof fn lemma_scanned_options(args: Seq<Seq<char>>)
    ensures
        scanned(args).0.match_cmdline == has_kind(args, ArgKind::Cmdline),
        scanned(args).0.case_sensitive == has_kind(args, ArgKind::CaseSensitive),
        scanned(args).0.match_exact == has_kind(args, ArgKind::Exact),
        scanned(args).0.listing == has_kind(args, ArgKind::List),
        scanned(args).0.match_pid == has_kind(args, ArgKind::Pid),
        scanned(args).0.ignore_unrecognised == has_kind(args, ArgKind::IgnoreUnrecognised),
        scanned(args).1 == args.filter(|arg: Seq<char>| arg_kind(arg) == ArgKind::Plain),
    decreases args.len(),
{
    reveal_with_fuel(Seq::filter, 1);
    if args.len() > 0 {
        lemma_scanned_options(args.drop_last());
        lemma_has_kind_last(args, ArgKind::Cmdline);
        lemma_has_kind_last(args, ArgKind::CaseSensitive);
        lemma_has_kind_last(args, ArgKind::Exact);
        lemma_has_kind_last(args, ArgKind::List);
        lemma_has_kind_last(args, ArgKind::Pid);
        lemma_has_kind_last(args, ArgKind::IgnoreUnrecognised);
    } else {
        assert(args.filter(|arg: Seq<char>| arg_kind(arg) == ArgKind::Plain) =~= Seq::empty());
    }
}

/// A non-empty `args` has an argument of `kind` exactly when all but its last
/// one have, or its last one is of that kind.
proof fn lemma_has_kind_last(args: Seq<Seq<char>>, kind: ArgKind)
    requires
        args.len() > 0,
    ensures
        has_kind(args, kind) == (has_kind(args.drop_last(), kind) || arg_kind(args.last()) == kind),
{
    let rest = args.drop_last();
    if has_kind(args, kind) && arg_kind(args.last()) != kind {
        let i = choose|i: int| 0 <= i < args.len() && arg_kind(#[trigger] args[i]) == kind;
        assert(rest[i] == args[i]);
    }
    if has_kind(rest, kind) {
        let i = choose|i: int| 0 <= i < rest.len() && arg_kind(#[trigger] rest[i]) == kind;
        assert(rest[i] == args[i]);
    }
    if arg_kind(args.last()) == kind {
        assert(args[args.len() - 1] == args.last());
    }
}

/// The first request for help or for the version in `args`, if any.
pub open spec fn first_request(args: Seq<Seq<char>>) -> Option<ArgKind>
    decreases args.len(),
{
    if args.len() == 0 {
        None
    } else {
        match first_request(args.drop_last()) {
            Some(kind) => Some(kind),
            None => {
                let kind = arg_kind(args.last());
                if kind == ArgKind::Version || kind == ArgKind::Help {
                    Some(kind)
                } else {
                    None
                }
            },
        }
    }
}

/// `kind` asks for help or for the version.
pub open spec fn is_request(kind: ArgKind) -> bool {
    kind == ArgKind::Version || kind == ArgKind::Help
}

/// The request that wins is the one in the earliest argument that is a request,
/// wherever it stands (the first argument too), and there is none exactly when
/// no argument is a request.
#[verifier::spinoff_prover]
#[verifier::rlimit(60)]
pub proof fn lemma_first_request_is_earliest(args: Seq<Seq<char>>)
    ensures
        forall|i: int| 0 <= i < args.len() && is_request(arg_kind(#[trigger] args[i]))
            && (forall|j: int| 0 <= j < i ==> !is_request(arg_kind(#[trigger] args[j])))
            ==> first_request(args) == Some(arg_kind(args[i])),
        (forall|i: int| 0 <= i < args.len() ==> !is_request(arg_kind(#[trigger] args[i])))
            ==> first_request(args) is None,
    decreases args.len(),
{
    if args.len() > 0 {
        let rest = args.drop_last();
        lemma_first_request_is_earliest(rest);
        assert forall|i: int| 0 <= i < args.len() && is_request(arg_kind(#[trigger] args[i]))
            && (forall|j: int| 0 <= j < i ==> !is_request(arg_kind(#[trigger] args[j])))
            implies first_request(args) == Some(arg_kind(args[i])) by {
            if i < rest.len() {
                assert(rest[i] == args[i]);
                assert forall|j: int| 0 <= j < i implies !is_request(arg_kind(#[trigger] rest[j])) by {
                    assert(rest[j] == args[j]);
                }
            } else {
                assert forall|j: int| 0 <= j < rest.len() implies !is_request(arg_kind(#[trigger] rest[j])) by {
                    assert(rest[j] == args[j]);
                }
                assert(args.last() == args[i]);
            }
        }
        if forall|i: int| 0 <= i < args.len() ==> !is_request(arg_kind(#[trigger] args[i])) {
            assert forall|j: int| 0 <= j < rest.len() implies !is_request(arg_kind(#[trigger] rest[j])) by {
                assert(rest[j] == args[j]);
            }
            assert(!is_request(arg_kind(args[args.len() - 1])));
        }
    }
}

/// What the command line asks the program to do.
#[derive(PartialEq, Eq, Debug)]
pub enum Command {
    /// Print the usage text.
    ShowHelp,
    /// Print the version and author.
    ShowVersion,
    /// Select processes by `kill_args` as `config` says, then kill or list them.
    Run { config: Config, kill_args: Vec<String> },
}

/// Reads the command-line arguments (the program's own path left out).
/// No arguments at all, or a help request before any version request, ask for
/// the usage text; a version request before any help request asks for the
/// version; otherwise the options are collected and the other arguments kept.
pub fn parse_command_line(args: &Vec<String>) -> (command: Command)
    ensures
        args@.len() == 0 ==> command == Command::ShowHelp,
        args@.len() > 0 && first_request(views_of(args@)) == Some(ArgKind::Help) ==> command == Command::ShowHelp,
        args@.len() > 0 && first_request(views_of(args@)) == Some(ArgKind::Version) ==> command == Command::ShowVersion,
        args@.len() > 0 && first_request(views_of(args@)) is None ==> (command matches Command::Run { config, kill_args }
            && config == scanned(views_of(args@)).0
            && views_of(kill_args@) == scanned(views_of(args@)).1),
{
    if args.len() == 0 {
        return Command::ShowHelp;
    }
    let ghost all = views_of(args@);
    let mut config = Config::default();
    let mut kill_args: Vec<String> = Vec::new();
    let mut i: usize = 0;
    while i < args.len()
        invariant
            i <= args.len(),
            all == views_of(args@),
            first_request(all.take(i as int)) is None,
            config == scanned(all.take(i as int)).0,
            views_of(kill_args@) == scanned(all.take(i as int)).1,
        decreases args.len() - i,
    {
        let arg = &args[i];
        proof {
            assert(all.take(i + 1).drop_last() =~= all.take(i as int));
            assert(all.take(i + 1).last() == arg@);
        }
        let kind = classify_argument(arg.as_str());
        match kind {
            ArgKind::Cmdline => { config.match_cmdline = true; },
            ArgKind::CaseSensitive => { config.case_sensitive = true; },
            ArgKind::Exact => { config.match_exact = true; },
            ArgKind::List => { config.listing = true; },
            ArgKind::Pid => { config.match_pid = true; },
            ArgKind::IgnoreUnrecognised => { config.ignore_unrecognised = true; },
            ArgKind::Version => {
                proof {
                    lemma_first_request_extends(all, i as int);
                }
                return Command::ShowVersion;
            },
            ArgKind::Help => {
                proof {
                    lemma_first_request_extends(all, i as int);
                }
                return Command::ShowHelp;
            },
            ArgKind::Plain => {
                let ghost old_views = views_of(kill_args@);
                kill_args.push(arg.clone());
                assert(views_of(kill_args@) =~= old_views.push(arg@));
            },
        }
        i = i + 1;
    }
    assert(all.take(args.len() as int) =~= all);
    Command::Run { config, kill_args }
}

/// Once a prefix of `args` holds a request, every longer prefix holds the same one.
proof fn lemma_first_request_extends(args: Seq<Seq<char>>, i: int)
    requires
        0 <= i < args.len(),
        first_request(args.take(i + 1)) is Some,
    ensures
        first_request(args) == first_request(args.take(i + 1)),
    decreases args.len(),
{
    if args.len() == i + 1 {
        assert(args.take(i + 1) =~= args);
    } else {
        assert(args.drop_last().take(i + 1) =~= args.take(i + 1));
        lemma_first_request_extends(args.drop_last(), i);
    }
}

/// `arg` looks like an option: it begins with `-`.
pub open spec fn looks_like_option(arg: Seq<char>) -> bool {
    arg.len() > 0 && arg[0] == '-'
}

/// The first of `args` that looks like an option, if any.
pub open spec fn first_option_like(args: Seq<Seq<char>>) -> Option<Seq<char>>
    decreases args.len(),
{
    if args.len() == 0 {
        None
    } else {
        match first_option_like(args.drop_last()) {
            Some(arg) => Some(arg),
            None => if looks_like_option(args.last()) {
                Some(args.last())
            } else {
                None
            },
        }
    }
}

/// Why a request cannot be carried out.
#[derive(PartialEq, Eq, Debug)]
pub enum UsageError {
    /// An argument that begins with `-` but is no known option.
    UnrecognisedOption(String),
    /// Matching by process id together with matching the command line.
    PidWithCmdline,
    /// Matching by process id together with exact string matching.
    PidWithExact,
    /// Matching by process id, not listing, and no id given.
    MissingProcessIds,
    /// Not listing, and nothing given that names a process.
    MissingProcessName,
}

/// A `UsageError` with its text taken by its characters.
pub enum UsageFault {
    UnrecognisedOption(Seq<char>),
    PidWithCmdline,
    PidWithExact,
    MissingProcessIds,
    MissingProcessName,
}

impl View for UsageError {
    type V = UsageFault;

    open spec fn view(&self) -> UsageFault {
        match self {
            UsageError::UnrecognisedOption(arg) => UsageFault::UnrecognisedOption(arg@),
            UsageError::PidWithCmdline => UsageFault::PidWithCmdline,
            UsageError::PidWithExact => UsageFault::PidWithExact,
            UsageError::MissingProcessIds => UsageFault::MissingProcessIds,
            UsageError::MissingProcessName => UsageFault::MissingProcessName,
        }
    }
}

/// What is wrong with running `config` on the arguments `kill_args`, checked in
/// this order: an argument that looks like an option (unless unrecognised
/// options are to be ignored); id matching with command-line matching; id
/// matching with exact matching; nothing to match when not listing.
pub open spec fn usage_fault(config: Config, kill_args: Seq<Seq<char>>) -> Option<UsageFault> {
    if !config.ignore_unrecognised && first_option_like(kill_args) is Some {
        Some(UsageFault::UnrecognisedOption(first_option_like(kill_args)->0))
    } else if config.match_pid && config.match_cmdline {
        Some(UsageFault::PidWithCmdline)
    } else if config.match_pid && config.match_exact {
        Some(UsageFault::PidWithExact)
    } else if config.match_pid && kill_args.len() == 0 && !config.listing {
        Some(UsageFault::MissingProcessIds)
    } else if kill_args.len() == 0 && !config.listing {
        Some(UsageFault::MissingProcessName)
    } else {
        None
    }
}

fn looks_like_option_exec(arg: &String) -> (found: bool)
    ensures
        found == looks_like_option(arg@),
{
    let chars = chars_of(arg.as_str());
    chars.len() > 0 && chars[0] == '-'
}

/// Checks that `config` can be run on `kill_args`, and says what is wrong if not.
pub fn check_request(config: &Config, kill_args: &Vec<String>) -> (checked: Result<(), UsageError>)
    ensures
        checked is Ok <==> usage_fault(*config, views_of(kill_args@)) is None,
        checked matches Err(e) ==> usage_fault(*config, views_of(kill_args@)) == Some(e@),
{
    let ghost all = views_of(kill_args@);
    if !config.ignore_unrecognised {
        let mut i: usize = 0;
        while i < kill_args.len()
            invariant
                i <= kill_args.len(),
                all == views_of(kill_args@),
                !config.ignore_unrecognised,
                first_option_like(all.take(i as int)) is None,
            decreases kill_args.len() - i,
        {
            proof {
                assert(all.take(i + 1).drop_last() =~= all.take(i as int));
                assert(all.take(i + 1).last() == kill_args@[i as int]@);
            }
            if looks_like_option_exec(&kill_args[i]) {
                proof {
                    lemma_first_option_like_extends(all, i as int);
                }
                return Err(UsageError::UnrecognisedOption(kill_args[i].clone()));
            }
            i = i + 1;
        }
        assert(all.take(kill_args.len() as int) =~= all);
    }
    if config.match_pid && config.match_cmdline {
        Err(UsageError::PidWithCmdline)
    } else if config.match_pid && config.match_exact {
        Err(UsageError::PidWithExact)
    } else if config.match_pid && kill_args.len() == 0 && !config.listing {
        Err(UsageError::MissingProcessIds)
    } else if kill_args.len() == 0 && !config.listing {
        Err(UsageError::MissingProcessName)
    } else {
        Ok(())
    }
}

/// No argument looks like an option when none is found first.
proof fn lemma_no_option_like(args: Seq<Seq<char>>)
    requires
        first_option_like(args) is None,
    ensures
        forall|i: int| 0 <= i < args.len() ==> !looks_like_option(#[trigger] args[i]),
    decreases args.len(),
{
    if args.len() > 0 {
        lemma_no_option_like(args.drop_last());
        assert forall|i: int| 0 <= i < args.len() implies !looks_like_option(#[trigger] args[i]) by {
            if i < args.len() - 1 {
                assert(args[i] == args.drop_last()[i]);
            }
        }
    }
}

/// The option-like argument reported is the earliest one, and there is none
/// exactly when no argument looks like an option.
proof fn lemma_first_option_like_is_earliest(args: Seq<Seq<char>>)
    ensures
        forall|i: int| 0 <= i < args.len() && looks_like_option(#[trigger] args[i])
            && (forall|j: int| 0 <= j < i ==> !looks_like_option(#[trigger] args[j]))
            ==> first_option_like(args) == Some(args[i]),
        (forall|i: int| 0 <= i < args.len() ==> !looks_like_option(#[trigger] args[i]))
            <==> first_option_like(args) is None,
    decreases args.len(),
{
    if args.len() > 0 {
        let rest = args.drop_last();
        lemma_first_option_like_is_earliest(rest);
        assert forall|i: int| 0 <= i < args.len() && looks_like_option(#[trigger] args[i])
            && (forall|j: int| 0 <= j < i ==> !looks_like_option(#[trigger] args[j]))
            implies first_option_like(args) == Some(args[i]) by {
            if i < rest.len() {
                assert(rest[i] == args[i]);
                assert forall|j: int| 0 <= j < i implies !looks_like_option(#[trigger] rest[j]) by {
                    assert(rest[j] == args[j]);
                }
            } else {
                assert forall|j: int| 0 <= j < rest.len() implies !looks_like_option(#[trigger] rest[j]) by {
                    assert(rest[j] == args[j]);
                }
                assert(args.last() == args[i]);
            }
        }
        if forall|i: int| 0 <= i < args.len() ==> !looks_like_option(#[trigger] args[i]) {
            assert forall|j: int| 0 <= j < rest.len() implies !looks_like_option(#[trigger] rest[j]) by {
                assert(rest[j] == args[j]);
            }
            assert(!looks_like_option(args[args.len() - 1]));
        }
        if first_option_like(args) is None {
            assert forall|i: int| 0 <= i < args.len() implies !looks_like_option(#[trigger] args[i]) by {
                if i < rest.len() {
                    assert(rest[i] == args[i]);
                }
            }
        }
    }
}

/// A request is refused exactly when it breaks one of the rules: an argument
/// that looks like an option (unless such arguments are to be ignored), id
/// matching with command-line or exact matching, or nothing to match when not
/// listing. Each refusal names the rule it comes from: an unrecognised option
/// is the earliest option-like argument, and a missing id or name means that no
/// argument was given at all.
pub proof fn lemma_usage_fault_rules(config: Config, kill_args: Seq<Seq<char>>)
    ensures
        usage_fault(config, kill_args) is None <==> {
            &&& config.ignore_unrecognised || forall|i: int| 0 <= i < kill_args.len() ==> !looks_like_option(#[trigger] kill_args[i])
            &&& !(config.match_pid && config.match_cmdline)
            &&& !(config.match_pid && config.match_exact)
            &&& kill_args.len() > 0 || config.listing
        },
        usage_fault(config, kill_args) matches Some(UsageFault::UnrecognisedOption(arg)) ==> {
            &&& !config.ignore_unrecognised
            &&& exists|i: int| 0 <= i < kill_args.len() && #[trigger] kill_args[i] == arg && looks_like_option(arg)
                && forall|j: int| 0 <= j < i ==> !looks_like_option(#[trigger] kill_args[j])
        },
        usage_fault(config, kill_args) matches Some(UsageFault::PidWithCmdline) ==> config.match_pid && config.match_cmdline,
        usage_fault(config, kill_args) matches Some(UsageFault::PidWithExact) ==> config.match_pid && config.match_exact,
        usage_fault(config, kill_args) matches Some(UsageFault::MissingProcessIds) ==>
            config.match_pid && kill_args.len() == 0 && !config.listing,
        usage_fault(config, kill_args) matches Some(UsageFault::MissingProcessName) ==>
            kill_args.len() == 0 && !config.listing,
{
    lemma_first_option_like_is_earliest(kill_args);
    if !config.ignore_unrecognised && first_option_like(kill_args) is Some {
        let i = choose|i: int| 0 <= i < kill_args.len() && looks_like_option(#[trigger] kill_args[i]);
        lemma_earliest_option_like(kill_args, i);
    }
}

/// When some argument looks like an option, there is an earliest one.
proof fn lemma_earliest_option_like(args: Seq<Seq<char>>, i: int)
    requires
        0 <= i < args.len(),
        looks_like_option(args[i]),
    ensures
        exists|k: int| 0 <= k < args.len() && looks_like_option(#[trigger] args[k])
            && forall|j: int| 0 <= j < k ==> !looks_like_option(#[trigger] args[j]),
    decreases i,
{
    if exists|j: int| 0 <= j < i && looks_like_option(#[trigger] args[j]) {
        let j = choose|j: int| 0 <= j < i && looks_like_option(#[trigger] args[j]);
        lemma_earliest_option_like(args, j);
    } else {
        assert(looks_like_option(args[i]) && forall|j: int| 0 <= j < i ==> !looks_like_option(#[trigger] args[j]));
    }
}

/// A request that is accepted never mixes matching by id with command-line or
/// exact matching, names something to match unless it only lists, and holds
/// no argument that looks like an option unless such arguments are to be ignored.
pub proof fn lemma_accepted_request(config: Config, kill_args: Seq<Seq<char>>)
    requires
        usage_fault(config, kill_args) is None,
    ensures
        config.match_pid ==> !config.match_cmdline && !config.match_exact,
        !config.listing ==> kill_args.len() > 0,
        !config.ignore_unrecognised ==> forall|i: int| 0 <= i < kill_args.len() ==> !looks_like_option(#[trigger] kill_args[i]),
{
    if !config.ignore_unrecognised {
        lemma_no_option_like(kill_args);
    }
}

/// Once a prefix of `args` holds an option-like argument, every longer prefix
/// has the same first one.
proof fn lemma_first_option_like_extends(args: Seq<Seq<char>>, i: int)
    requires
        0 <= i < args.len(),
        first_option_like(args.take(i + 1)) is Some,
    ensures
        first_option_like(args) == first_option_like(args.take(i + 1)),
    decreases args.len(),
{
    if args.len() == i + 1 {
        assert(args.take(i + 1) =~= args);
    } else {
        assert(args.drop_last().take(i + 1) =~= args.take(i + 1));
        lemma_first_option_like_extends(args.drop_last(), i);
    }
}

/// What to do once the processes have been selected.
#[derive(PartialEq, Eq, Debug)]
pub enum Outcome {
    /// Kill these processes, in this order.
    Kill(Vec<ProcessID>),
    /// Report that no process matched.
    NothingFound,
    /// List these processes, in this order.
    List(Vec<ProcessID>),
    /// List every process there is.
    ListAll,
}

/// Decides what to do with the `matched` processes: kill them, or report that
/// there are none, unless listing; when listing, list them, or list every
/// process when nothing matched and no argument named a process.
pub fn plan_outcome(config: &Config, kill_args: &Vec<String>, matched: Vec<ProcessID>) -> (outcome: Outcome)
    ensures
        !config.listing && matched@.len() > 0 ==> (outcome matches Outcome::Kill(pids) && pids@ == matched@),
        !config.listing && matched@.len() == 0 ==> outcome == Outcome::NothingFound,
        config.listing && matched@.len() == 0 && kill_args@.len() == 0 ==> outcome == Outcome::ListAll,
        config.listing && !(matched@.len() == 0 && kill_args@.len() == 0) ==> (outcome matches Outcome::List(pids) && pids@ == matched@),
{
    if !config.listing {
        if matched.len() == 0 {
            Outcome::NothingFound
        } else {
            Outcome::Kill(matched)
        }
    } else if matched.len() == 0 && kill_args.len() == 0 {
        Outcome::ListAll
    } else {
        Outcome::List(matched)
    }
}

} // verus!
