//! Which command lines are summarised, and what is run for them.
use vstd::prelude::*;
use crate::report::{push_all, push_line};
use crate::text::{join, joined, same, starts_with, texts};

verus! {

/// Whether `arg` asks for output that is not for summarising.
pub open spec fn is_passthrough(arg: Seq<char>) -> bool {
    ||| arg == "--json"@
    ||| arg == "--help"@
    ||| arg == "-h"@
    ||| arg == "-V"@
    ||| arg == "--version"@
    ||| "--format=json"@.is_prefix_of(arg)
}

/// Tells whether `arg` asks for output that is not for summarising.
pub fn is_passthrough_arg(arg: &str) -> (r: bool)
    ensures
        r == is_passthrough(arg@),
{
    same(arg, "--json") || same(arg, "--help") || same(arg, "-h") || same(arg, "-V") || same(
        arg,
        "--version",
    ) || starts_with(arg, "--format=json")
}

/// Whether `name` is a subcommand with a summary.
pub open spec fn is_summarised(name: Seq<char>) -> bool {
    name == "route:list"@ || name == "migrate:status"@ || name == "about"@ || name == "db:show"@
}

/// Whether the output of a command line is summarised.
pub open spec fn filters(args: Seq<Seq<char>>, verbose: nat) -> bool {
    &&& verbose == 0
    &&& forall|i: int| 0 <= i < args.len() ==> !is_passthrough(#[trigger] args[i])
    &&& args.len() > 0
    &&& is_summarised(args[0])
}

/// Tells whether the output of a command line is summarised.
pub fn should_filter(args: &[String], verbose: u8) -> (r: bool)
    ensures
        r == filters(texts(args@), verbose as nat),
        r ==> verbose == 0 && args@.len() > 0 && (args@[0]@ == "route:list"@ || args@[0]@
            == "migrate:status"@ || args@[0]@ == "about"@ || args@[0]@ == "db:show"@),
{
    if verbose > 0 {
        return false;
    }
    let ghost all = texts(args@);
    let mut i: usize = 0;
    while i < args.len()
        invariant
            i <= args@.len(),
            all == texts(args@),
            forall|j: int| 0 <= j < i ==> !is_passthrough(#[trigger] all[j]),
        decreases args@.len() - i,
    {
        if is_passthrough_arg(args[i].as_str()) {
            assert(is_passthrough(all[i as int]));
            return false;
        }
        i += 1;
    }
    if args.len() == 0 {
        return false;
    }
    let first = args[0].as_str();
    same(first, "route:list") || same(first, "migrate:status") || same(first, "about") || same(
        first,
        "db:show",
    )
}

/// The arguments that `php` is run with.
pub open spec fn argv(args: Seq<Seq<char>>) -> Seq<Seq<char>> {
    seq!["artisan"@] + args
}

/// Puts `artisan` before `args`.
pub fn artisan_args(args: &[String]) -> (r: Vec<String>)
    ensures
        texts(r@) == argv(texts(args@)),
{
    let mut out: Vec<String> = Vec::new();
    push_line(&mut out, "artisan".to_owned());
    push_all(&mut out, args);
    assert(texts(out@) =~= argv(texts(args@)));
    out
}

/// A program, its arguments, and what is set in its environment.
#[derive(Debug, PartialEq)]
pub struct CommandLine {
    pub program: String,
    pub args: Vec<String>,
    pub env: Vec<(String, String)>,
}

/// The contents of a command line.
#[verifier::ext_equal]
pub struct CommandText {
    pub program: Seq<char>,
    pub args: Seq<Seq<char>>,
    pub env: Seq<(Seq<char>, Seq<char>)>,
}

impl View for CommandLine {
    type V = CommandText;

    open spec fn view(&self) -> CommandText {
        CommandText {
            program: self.program@,
            args: texts(self.args@),
            env: self.env@.map_values(|e: (String, String)| (e.0@, e.1@)),
        }
    }
}

/// The command line that is run for `args`.
pub open spec fn command_of(args: Seq<Seq<char>>, skip_env: bool) -> CommandText {
    CommandText {
        program: "php"@,
        args: argv(args),
        env: if skip_env {
            seq![("SKIP_ENV_VALIDATION"@, "1"@)]
        } else {
            Seq::empty()
        },
    }
}

/// Makes the command line that is run for `args`.
pub fn artisan_command(args: &[String], skip_env: bool) -> (r: CommandLine)
    ensures
        r@ == command_of(texts(args@), skip_env),
        r.program@ == "php"@,
        texts(r.args@) == argv(texts(args@)),
        r.env@.len() == (if skip_env {
            1nat
        } else {
            0
        }),
        skip_env ==> r.env@[0].0@ == "SKIP_ENV_VALIDATION"@ && r.env@[0].1@ == "1"@,
{
    let mut env: Vec<(String, String)> = Vec::new();
    if skip_env {
        env.push(("SKIP_ENV_VALIDATION".to_owned(), "1".to_owned()));
    }
    let r = CommandLine { program: "php".to_owned(), args: artisan_args(args), env };
    assert(r@ =~= command_of(texts(args@), skip_env));
    r
}

/// The command line as a user would type it.
pub open spec fn typed(args: Seq<Seq<char>>) -> Seq<char> {
    "php "@ + joined(argv(args), " "@)
}

/// The command line by which the run is recorded.
pub open spec fn recorded_as(args: Seq<Seq<char>>, filtered: bool) -> Seq<char> {
    if filtered {
        "rtk artisan "@ + joined(args, " "@)
    } else {
        "rtk artisan "@ + joined(args, " "@) + " (passthrough)"@
    }
}

/// What is said before `args` are run.
pub open spec fn notice_of(args: Seq<Seq<char>>, verbose: nat) -> Option<Seq<char>> {
    if verbose == 0 {
        None
    } else {
        Some("Running: "@ + typed(args))
    }
}

/// What is to be run, and how.
#[derive(Debug, PartialEq)]
pub struct Plan {
    /// Whether the output is captured and summarised, or handed through.
    pub filtered: bool,
    /// What is run.
    pub command: CommandLine,
    /// What is said before it is run.
    pub notice: Option<String>,
    /// The command line as a user would type it.
    pub original: String,
    /// The command line by which the run is recorded.
    pub recorded: String,
}

/// The contents of an optional string.
pub open spec fn text_of(s: Option<String>) -> Option<Seq<char>> {
    match s {
        Some(t) => Some(t@),
        None => None,
    }
}

/// Decides what is to be run for `args`, and how.
pub fn plan(args: &[String], verbose: u8, skip_env: bool) -> (r: Plan)
    ensures
        r.filtered == filters(texts(args@), verbose as nat),
        r.command@ == command_of(texts(args@), skip_env),
        text_of(r.notice) == (if verbose > 0 {
            Some("Running: "@ + typed(texts(args@)))
        } else {
            None
        }),
        text_of(r.notice) == notice_of(texts(args@), verbose as nat),
        r.original@ == typed(texts(args@)),
        r.recorded@ == recorded_as(texts(args@), r.filtered),
{
    let filtered = should_filter(args, verbose);
    let command = artisan_command(args, skip_env);
    let mut original = "php ".to_owned();
    original.append(join(command.args.as_slice(), " ").as_str());
    assert(command@.args == argv(texts(args@)));
    let mut recorded = "rtk artisan ".to_owned();
    recorded.append(join(args, " ").as_str());
    if !filtered {
        recorded.append(" (passthrough)");
    }
    let notice = if verbose > 0 {
        let mut n = "Running: ".to_owned();
        n.append(original.as_str());
        Some(n)
    } else {
        None
    };
    Plan { filtered, command, notice, original, recorded }
}

/// A command line is summarised exactly when its first argument is `route:list`,
/// `migrate:status`, `about` or `db:show`, none of its arguments asks for other
/// output, and nothing more than the usual is to be said.
pub proof fn law_only_status_subcommands_are_summarised(args: Seq<Seq<char>>, verbose: nat)
    ensures
        filters(args, verbose) <==> {
            &&& verbose == 0
            &&& args.len() > 0
            &&& args[0] == "route:list"@ || args[0] == "migrate:status"@ || args[0] == "about"@
                || args[0] == "db:show"@
            &&& forall|i: int|
                0 <= i < args.len() ==> {
                    &&& #[trigger] args[i] != "--json"@
                    &&& args[i] != "--help"@
                    &&& args[i] != "-h"@
                    &&& args[i] != "-V"@
                    &&& args[i] != "--version"@
                    &&& !(args[i].len() >= 13 && args[i].take(13) == "--format=json"@)
                }
        },
{
    reveal_strlit("--format=json");
    assert forall|a: Seq<char>| #[trigger] is_passthrough(a) <==> {
        ||| a == "--json"@
        ||| a == "--help"@
        ||| a == "-h"@
        ||| a == "-V"@
        ||| a == "--version"@
        ||| (a.len() >= 13 && a.take(13) == "--format=json"@)
    } by {
        assert(a.len() >= 13 ==> a.take(13) =~= a.subrange(0, 13));
    }
}

/// An argument asks for other output exactly when it is one of the flags for
/// JSON, help or the version, or begins with `--format=json`.
pub proof fn law_passthrough(arg: Seq<char>, rest: Seq<char>)
    ensures
        is_passthrough("--format=json"@ + rest),
        is_passthrough(arg) ==> {
            ||| arg == "--json"@
            ||| arg == "--help"@
            ||| arg == "-h"@
            ||| arg == "-V"@
            ||| arg == "--version"@
            ||| exists|more: Seq<char>| arg == #[trigger] ("--format=json"@ + more)
        },
        is_passthrough("--json"@),
        is_passthrough("--help"@),
        is_passthrough("-h"@),
        is_passthrough("-V"@),
        is_passthrough("--version"@),
{
    let flag = "--format=json"@;
    assert((flag + rest).subrange(0, flag.len() as int) =~= flag);
    if flag.is_prefix_of(arg) {
        let more = arg.skip(flag.len() as int);
        assert(arg =~= flag + more);
    }
}

/// Only the status subcommands are summarised: whatever else is the first
/// argument, or if there is none, the command line is handed through.
pub proof fn law_other_subcommands_are_handed_through(args: Seq<Seq<char>>, verbose: nat)
    requires
        args.len() == 0 || !is_summarised(args[0]),
    ensures
        !filters(args, verbose),
{
}

/// A flag that asks for other output, anywhere on the command line, or any
/// verbosity, has the command line handed through.
pub proof fn law_flags_are_handed_through(args: Seq<Seq<char>>, verbose: nat)
    requires
        verbose > 0 || exists|i: int| 0 <= i < args.len() && is_passthrough(#[trigger] args[i]),
    ensures
        !filters(args, verbose),
{
}

/// `php` gets `artisan` and then every argument, unchanged and in order, whether
/// or not the environment is changed.
pub proof fn law_arguments_are_kept(args: Seq<Seq<char>>, skip_env: bool)
    ensures
        command_of(args, skip_env).args.first() == "artisan"@,
        command_of(args, skip_env).args.drop_first() == args,
{
    assert(argv(args).drop_first() =~= args);
}

/// What is run is `php`, and its environment is left alone but for the one
/// variable by which the check of the environment is skipped.
pub proof fn law_environment_is_kept(args: Seq<Seq<char>>)
    ensures
        command_of(args, false).program == "php"@,
        command_of(args, true).program == "php"@,
        command_of(args, false).env.len() == 0,
        command_of(args, true).env.len() == 1,
        command_of(args, true).env[0] == ("SKIP_ENV_VALIDATION"@, "1"@),
{
}

/// A command line is typed word by word, with one space between the words.
pub proof fn law_typed(args: Seq<Seq<char>>, arg: Seq<char>)
    ensures
        typed(Seq::empty()) == "php "@ + "artisan"@,
        typed(args.push(arg)) == typed(args) + " "@ + arg,
{
    let none: Seq<Seq<char>> = Seq::empty();
    assert(argv(none) =~= seq!["artisan"@]);
    assert(argv(args.push(arg)) =~= argv(args).push(arg));
    assert(argv(args.push(arg)).drop_last() =~= argv(args));
    assert(typed(args.push(arg)) =~= typed(args) + " "@ + arg);
}

/// Nothing is said before a run unless it is asked for; then the command line is,
/// as a user would type it, however much more is asked for.
pub proof fn law_notice(args: Seq<Seq<char>>, verbose: nat)
    ensures
        notice_of(args, 0) is None,
        verbose > 0 ==> notice_of(args, verbose) == Some("Running: "@ + typed(args)),
{
}

/// A run is recorded by its arguments, with one space between them, and one that
/// was handed through is marked at the end.
pub proof fn law_recorded(args: Seq<Seq<char>>, arg: Seq<char>)
    ensures
        recorded_as(seq![arg], true) == "rtk artisan "@ + arg,
        args.len() > 0 ==> recorded_as(args.push(arg), true) == recorded_as(args, true) + " "@
            + arg,
        recorded_as(Seq::empty(), true) == "rtk artisan "@,
        recorded_as(args, false) == recorded_as(args, true) + " (passthrough)"@,
{
    assert(args.push(arg).drop_last() =~= args);
    if args.len() > 0 {
        assert(recorded_as(args.push(arg), true) =~= recorded_as(args, true) + " "@ + arg);
    }
    assert(recorded_as(Seq::empty(), true) =~= "rtk artisan "@);
}

} // verus!
