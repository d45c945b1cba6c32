//! What is printed and recorded once a command has ended.
use vstd::prelude::*;
use vstd::utf8::{decode_utf8, valid_utf8};
use crate::command::text_of;
use crate::filter::{filter_artisan_output, summary};
use crate::text::{decimal, texts, to_decimal};

verus! {

/// What `String::from_utf8_lossy` makes of `bytes`.
pub uninterp spec fn lossy_text(bytes: Seq<u8>) -> Seq<char>;

/// `String::from_utf8_lossy` decodes UTF-8. Its result depends on the bytes
/// alone, and bytes that are valid UTF-8 give the text that they encode.
/// How it replaces what is not valid is left unsaid.
#[verifier::external_body]
fn decode_lossy(bytes: &[u8]) -> (r: String)
    ensures
        r@ == lossy_text(bytes@),
        valid_utf8(bytes@) ==> r@ == decode_utf8(bytes@),
{
    String::from_utf8_lossy(bytes).to_string()
}

/// The decimal notation of an integer.
pub open spec fn signed_decimal(n: int) -> Seq<char> {
    if n < 0 {
        "-"@ + decimal((-n) as nat)
    } else {
        decimal(n as nat)
    }
}

/// Writes an integer in decimal notation.
fn to_signed_decimal(n: i32) -> (r: String)
    ensures
        r@ == signed_decimal(n as int),
{
    if n < 0 {
        "-".to_owned().concat(to_decimal((-(n as i64)) as usize).as_str())
    } else {
        to_decimal(n as usize)
    }
}

/// An exit code, and what is said about it.
#[derive(Debug, PartialEq)]
pub struct Exit {
    pub code: i32,
    pub notice: Option<String>,
}

/// The exit code that stands for how a process ended: its own, or one made from
/// the signal that ended it, or 1.
pub open spec fn exit_code_of(code: Option<i32>, signal: Option<i32>) -> int {
    match (code, signal) {
        (Some(c), _) => c as int,
        (None, Some(sig)) => 128 + sig,
        (None, None) => 1,
    }
}

/// What is said about a process that has no exit code of its own.
pub open spec fn exit_notice_of(
    code: Option<i32>,
    signal: Option<i32>,
    label: Seq<char>,
) -> Option<Seq<char>> {
    let ended = "[rtk] "@ + label + ": process terminated by signal"@;
    match (code, signal) {
        (Some(_), _) => None,
        (None, Some(sig)) => Some(ended + " "@ + signed_decimal(sig as int)),
        (None, None) => Some(ended),
    }
}

/// Whether the exit code for `signal` is in range.
pub open spec fn signal_fits(code: Option<i32>, signal: Option<i32>) -> bool {
    exit_code_of(code, signal) <= i32::MAX
}

/// The exit code for a process that ended with `code`, or by `signal`.
pub fn exit_code_from_status(code: Option<i32>, signal: Option<i32>, label: &str) -> (r: Exit)
    requires
        signal_fits(code, signal),
    ensures
        r.code == exit_code_of(code, signal),
        text_of(r.notice) == exit_notice_of(code, signal, label@),
{
    match code {
        Some(c) => Exit { code: c, notice: None },
        None => {
            let mut ended = "[rtk] ".to_owned();
            ended.append(label);
            ended.append(": process terminated by signal");
            match signal {
                Some(sig) => {
                    ended.append(" ");
                    ended.append(to_signed_decimal(sig).as_str());
                    Exit { code: 128 + sig, notice: Some(ended) }
                },
                None => Exit { code: 1, notice: Some(ended) },
            }
        },
    }
}

/// The exit code for a process that could not be started.
pub open spec fn spawn_code(not_found: bool) -> int {
    if not_found {
        127
    } else {
        1
    }
}

/// What is said of a process that could not be started.
pub open spec fn spawn_notice(error: Seq<char>) -> Seq<char> {
    "[rtk: failed to run php artisan: "@ + error + "]"@
}

/// A program that is not there gives the exit code that shells give for it, any
/// other failure to start gives 1, and either way the failure is named.
pub proof fn law_spawn_error(error: Seq<char>)
    ensures
        spawn_code(true) == 127,
        spawn_code(false) == 1,
        spawn_notice(error) == "[rtk: failed to run php artisan: "@ + error + "]"@,
{
}

/// The exit code for a process that could not be started, and what is said of
/// it. `error` describes why; `not_found` tells that there is no such program.
pub fn exit_spawn_error(not_found: bool, error: &str) -> (r: Exit)
    ensures
        r.code == (if not_found {
            127int
        } else {
            1
        }),
        text_of(r.notice) == Some("[rtk: failed to run php artisan: "@ + error@ + "]"@),
        r.code == spawn_code(not_found),
        text_of(r.notice) == Some(spawn_notice(error@)),
{
    let mut said = "[rtk: failed to run php artisan: ".to_owned();
    said.append(error);
    said.append("]");
    let code: i32 = if not_found {
        127
    } else {
        1
    };
    Exit { code, notice: Some(said) }
}

/// What is printed and recorded for a command whose output was captured.
#[derive(Debug, PartialEq)]
pub struct Outcome {
    /// What goes to standard output.
    pub stdout: String,
    /// What goes to standard error.
    pub stderr: String,
    /// The output before it was summarised, for the record.
    pub raw: String,
    /// The output as it was printed, for the record.
    pub shown: String,
    /// The exit code with which to end; none after a success.
    pub exit: Option<i32>,
}

/// The contents of an outcome.
#[verifier::ext_equal]
pub struct OutcomeText {
    pub stdout: Seq<char>,
    pub stderr: Seq<char>,
    pub raw: Seq<char>,
    pub shown: Seq<char>,
    pub exit: Option<i32>,
}

impl View for Outcome {
    type V = OutcomeText;

    open spec fn view(&self) -> OutcomeText {
        OutcomeText {
            stdout: self.stdout@,
            stderr: self.stderr@,
            raw: self.raw@,
            shown: self.shown@,
            exit: self.exit,
        }
    }
}

/// The subcommand: the first argument.
pub open spec fn subcommand_of(args: Seq<Seq<char>>) -> Seq<char> {
    if args.len() == 0 {
        Seq::empty()
    } else {
        args[0]
    }
}

/// What is printed and recorded: the summary of a success, and a failure as it
/// is, with its exit code.
pub open spec fn outcome_of(
    args: Seq<Seq<char>>,
    success: bool,
    exit_code: i32,
    stdout: Seq<char>,
    stderr: Seq<char>,
) -> OutcomeText {
    if success {
        let filtered = summary(subcommand_of(args), stdout);
        OutcomeText {
            stdout: filtered + "\n"@,
            stderr,
            raw: stdout + stderr,
            shown: filtered + stderr,
            exit: None,
        }
    } else {
        OutcomeText {
            stdout,
            stderr,
            raw: stdout + stderr,
            shown: stdout + stderr,
            exit: Some(exit_code),
        }
    }
}

/// Decides what is printed and recorded for the command line `args`.
pub fn outcome(args: &[String], success: bool, exit_code: i32, stdout: &str, stderr: &str) -> (r:
    Outcome)
    ensures
        r@ == outcome_of(texts(args@), success, exit_code, stdout@, stderr@),
        r.stdout@ == r@.stdout,
        r.stderr@ == stderr@,
        r.raw@ == stdout@ + stderr@,
        r.shown@ == r@.shown,
        !success ==> r.stdout@ == stdout@ && r.shown@ == stdout@ + stderr@,
        r.exit == (if success {
            None
        } else {
            Some(exit_code)
        }),
{
    let raw = stdout.to_owned().concat(stderr);
    if !success {
        return Outcome {
            stdout: stdout.to_owned(),
            stderr: stderr.to_owned(),
            shown: raw.clone(),
            raw,
            exit: Some(exit_code),
        };
    }
    let subcommand = if args.len() == 0 {
        String::new()
    } else {
        args[0].clone()
    };
    let filtered = filter_artisan_output(subcommand.as_str(), stdout);
    Outcome {
        stdout: filtered.clone().concat("\n"),
        stderr: stderr.to_owned(),
        raw,
        shown: filtered.concat(stderr),
        exit: None,
    }
}

/// Decides what is printed and recorded for the command line `args`, from the
/// bytes that the command wrote.
pub fn outcome_of_bytes(
    args: &[String],
    success: bool,
    exit_code: i32,
    stdout: &[u8],
    stderr: &[u8],
) -> (r: Outcome)
    ensures
        r@ == outcome_of(
            texts(args@),
            success,
            exit_code,
            lossy_text(stdout@),
            lossy_text(stderr@),
        ),
        valid_utf8(stdout@) ==> lossy_text(stdout@) == decode_utf8(stdout@),
        valid_utf8(stderr@) ==> lossy_text(stderr@) == decode_utf8(stderr@),
{
    outcome(args, success, exit_code, decode_lossy(stdout).as_str(), decode_lossy(stderr).as_str())
}

/// The output of a command that failed is printed as it is, and the exit code is
/// handed on.
pub proof fn law_failure_is_shown_as_it_is(
    args: Seq<Seq<char>>,
    exit_code: i32,
    stdout: Seq<char>,
    stderr: Seq<char>,
)
    ensures
        outcome_of(args, false, exit_code, stdout, stderr).stdout == stdout,
        outcome_of(args, false, exit_code, stdout, stderr).stderr == stderr,
        outcome_of(args, false, exit_code, stdout, stderr).shown == outcome_of(
            args,
            false,
            exit_code,
            stdout,
            stderr,
        ).raw,
        outcome_of(args, false, exit_code, stdout, stderr).exit == Some(exit_code),
{
}

/// Whether or not a command succeeds, what it wrote to standard error is printed
/// as it is, and the record holds all that it wrote.
pub proof fn law_errors_are_shown_as_they_are(
    args: Seq<Seq<char>>,
    success: bool,
    exit_code: i32,
    stdout: Seq<char>,
    stderr: Seq<char>,
)
    ensures
        outcome_of(args, success, exit_code, stdout, stderr).stderr == stderr,
        outcome_of(args, success, exit_code, stdout, stderr).raw == stdout + stderr,
{
}

/// Of a command that succeeded, the summary of what it wrote is printed on lines
/// of its own, as the first argument has it, and nothing ends the run.
pub proof fn law_success_is_summarised(
    args: Seq<Seq<char>>,
    exit_code: i32,
    stdout: Seq<char>,
    stderr: Seq<char>,
)
    ensures
        args.len() > 0 ==> {
            &&& outcome_of(args, true, exit_code, stdout, stderr).stdout == summary(args[0], stdout)
                + "\n"@
            &&& outcome_of(args, true, exit_code, stdout, stderr).shown == summary(args[0], stdout)
                + stderr
        },
        args.len() == 0 ==> {
            &&& outcome_of(args, true, exit_code, stdout, stderr).stdout == summary(
                Seq::empty(),
                stdout,
            ) + "\n"@
            &&& outcome_of(args, true, exit_code, stdout, stderr).shown == summary(
                Seq::empty(),
                stdout,
            ) + stderr
        },
        outcome_of(args, true, exit_code, stdout, stderr).exit is None,
{
}

/// A process that has an exit code ends the run with it, in silence. One that was
/// ended by a signal gives 128 and the number of the signal, which is named.
pub proof fn law_exit_code(code: i32, signal: Option<i32>, sig: i32, label: Seq<char>)
    ensures
        exit_code_of(Some(code), signal) == code,
        exit_notice_of(Some(code), signal, label) is None,
        exit_code_of(None, Some(sig)) == 128 + sig,
        exit_notice_of(None, Some(sig), label) == Some(
            "[rtk] "@ + label + ": process terminated by signal"@ + " "@ + signed_decimal(
                sig as int,
            ),
        ),
        exit_code_of(None, None) == 1,
        exit_notice_of(None, None, label) == Some(
            "[rtk] "@ + label + ": process terminated by signal"@,
        ),
        sig >= 0 ==> signed_decimal(sig as int) == decimal(sig as nat),
        sig < 0 ==> signed_decimal(sig as int) == "-"@ + decimal((-sig) as nat),
{
}

} // verus!
