//! The outside compilers, as far as the build decides about them: what a
//! run of a compiler means for the file it was run on, and how a batch of
//! runs is summed up.

use crate::marker::{decimal_text, push_decimal};
use crate::text::{chars_of, push_all, string_of, trim, trimmed};
use vstd::prelude::*;

verus! {

/// What happened when a compiler was to be run on a source file.
#[derive(Debug, Clone, PartialEq, Eq)]
pub enum CompileEvent {
    /// The source file was not there.
    SourceMissing,
    /// The directory for the output could not be made.
    OutputDirectoryFailed { error: String },
    /// The compiler could not be started.
    CommandNotRun { error: String },
    /// The compiler ran to its end.
    Exited { success: bool, stdout: String, stderr: String },
}

/// What the contracts say of a `CompileEvent`.
pub enum CompileEventView {
    SourceMissing,
    OutputDirectoryFailed { error: Seq<char> },
    CommandNotRun { error: Seq<char> },
    Exited { success: bool, stdout: Seq<char>, stderr: Seq<char> },
}

impl View for CompileEvent {
    type V = CompileEventView;

    open spec fn view(&self) -> CompileEventView {
        match self {
            CompileEvent::SourceMissing => CompileEventView::SourceMissing,
            CompileEvent::OutputDirectoryFailed { error } => {
                CompileEventView::OutputDirectoryFailed { error: error@ }
            },
            CompileEvent::CommandNotRun { error } => CompileEventView::CommandNotRun {
                error: error@,
            },
            CompileEvent::Exited { success, stdout, stderr } => CompileEventView::Exited {
                success: *success,
                stdout: stdout@,
                stderr: stderr@,
            },
        }
    }
}

/// The error of a stylesheet whose compiler run ended as `event` says;
/// `None` where the run succeeded.
pub open spec fn scss_error(source: Seq<char>, event: CompileEventView) -> Option<Seq<char>> {
    match event {
        CompileEventView::SourceMissing => Some(
            "warning: source scss file not found: "@ + source,
        ),
        CompileEventView::OutputDirectoryFailed { error } => Some(
            "failed to create output directory: "@ + error,
        ),
        CompileEventView::CommandNotRun { error } => Some(
            "failed to execute sass command. Is `sass` installed and in your PATH? Error: "@
                + error,
        ),
        CompileEventView::Exited { success, stdout, stderr } => if success {
            None
        } else {
            Some("error compiling scss file: "@ + source + "\nSass Error Output:\n"@ + stderr)
        },
    }
}

/// What a failed script compiler is quoted with: what it wrote to its
/// output and what it wrote to its error stream, each only if it holds more
/// than white space, with a line feed between the two.
pub open spec fn compiler_output(stdout: Seq<char>, stderr: Seq<char>) -> Seq<char> {
    let first: Seq<char> = if trimmed(stdout).len() > 0 {
        stdout
    } else {
        Seq::<char>::empty()
    };
    if trimmed(stderr).len() > 0 {
        if first.len() > 0 {
            first + seq!['\n'] + stderr
        } else {
            stderr
        }
    } else {
        first
    }
}

/// The error of a script whose compiler run ended as `event` says; `None`
/// where the run succeeded.
pub open spec fn typescript_error(source: Seq<char>, event: CompileEventView) -> Option<
    Seq<char>,
> {
    match event {
        CompileEventView::SourceMissing => Some(
            "warning: source typescript file not found: "@ + source,
        ),
        CompileEventView::OutputDirectoryFailed { error } => Some(
            "failed to create output directory: "@ + error,
        ),
        CompileEventView::CommandNotRun { error } => Some(
            "failed to execute tsc command. Is `typescript` installed and in your PATH? Error: "@
                + error,
        ),
        CompileEventView::Exited { success, stdout, stderr } => if success {
            None
        } else {
            Some(
                "error compiling typescript file: "@ + source + "\nTSC Error Output:\n"@
                    + compiler_output(stdout, stderr),
            )
        },
    }
}

/// What a compiler function owes for the error that the contract names.
pub open spec fn compile_outcome(result: Result<(), String>, error: Option<Seq<char>>) -> bool {
    match error {
        None => result is Ok,
        Some(message) => result is Err && result->Err_0@ == message,
    }
}

/// `head` followed by `tail`.
fn joined(head: &str, tail: &str) -> (out: String)
    ensures
        out@ == head@ + tail@,
{
    let mut out: Vec<char> = chars_of(head);
    push_all(&mut out, &chars_of(tail));
    string_of(&out)
}

/// The outcome for the stylesheet at `scss_source` of a compiler run that
/// ended as `event` says: success, or the error to report.
pub fn compile_scss_file(scss_source: &str, event: &CompileEvent) -> (result: Result<(), String>)
    ensures
        compile_outcome(result, scss_error(scss_source@, event@)),
{
    match event {
        CompileEvent::SourceMissing => Err(
            joined("warning: source scss file not found: ", scss_source),
        ),
        CompileEvent::OutputDirectoryFailed { error } => Err(
            joined("failed to create output directory: ", error.as_str()),
        ),
        CompileEvent::CommandNotRun { error } => Err(
            joined(
                "failed to execute sass command. Is `sass` installed and in your PATH? Error: ",
                error.as_str(),
            ),
        ),
        CompileEvent::Exited { success, stdout, stderr } => {
            if *success {
                Ok(())
            } else {
                let mut out: Vec<char> = chars_of("error compiling scss file: ");
                push_all(&mut out, &chars_of(scss_source));
                push_all(&mut out, &chars_of("\nSass Error Output:\n"));
                push_all(&mut out, &chars_of(stderr.as_str()));
                Err(string_of(&out))
            }
        },
    }
}

/// What a failed script compiler is quoted with.
pub fn compiler_output_of(stdout: &str, stderr: &str) -> (out: Vec<char>)
    ensures
        out@ == compiler_output(stdout@, stderr@),
{
    let written: Vec<char> = chars_of(stdout);
    let complained: Vec<char> = chars_of(stderr);
    let mut out: Vec<char> = Vec::new();
    if trim(&written).len() > 0 {
        push_all(&mut out, &written);
    }
    if trim(&complained).len() > 0 {
        if out.len() > 0 {
            out.push('\n');
        }
        push_all(&mut out, &complained);
    }
    out
}

/// The outcome for the script at `ts_source` of a compiler run that ended
/// as `event` says: success, or the error to report.
pub fn compile_typescript_file(ts_source: &str, event: &CompileEvent) -> (result: Result<
    (),
    String,
>)
    ensures
        compile_outcome(result, typescript_error(ts_source@, event@)),
{
    match event {
        CompileEvent::SourceMissing => Err(
            joined("warning: source typescript file not found: ", ts_source),
        ),
        CompileEvent::OutputDirectoryFailed { error } => Err(
            joined("failed to create output directory: ", error.as_str()),
        ),
        CompileEvent::CommandNotRun { error } => Err(
            joined(
                "failed to execute tsc command. Is `typescript` installed and in your PATH? Error: ",
                error.as_str(),
            ),
        ),
        CompileEvent::Exited { success, stdout, stderr } => {
            if *success {
                Ok(())
            } else {
                let mut out: Vec<char> = chars_of("error compiling typescript file: ");
                push_all(&mut out, &chars_of(ts_source));
                push_all(&mut out, &chars_of("\nTSC Error Output:\n"));
                push_all(&mut out, &compiler_output_of(stdout.as_str(), stderr.as_str()));
                Err(string_of(&out))
            }
        },
    }
}

/// How many of the first `n` outcomes are successes.
pub open spec fn successes(outcomes: Seq<bool>, n: int) -> nat
    decreases n,
{
    if n <= 0 {
        0
    } else {
        successes(outcomes, n - 1) + if outcomes[n - 1] {
            1nat
        } else {
            0nat
        }
    }
}

/// The line that sums up a batch of compiler runs.
pub open spec fn summary_line(
    succeeded: nat,
    total: nat,
    source_name: Seq<char>,
    target_name: Seq<char>,
) -> Seq<char> {
    decimal_text(succeeded) + " of "@ + decimal_text(total) + seq![' '] + source_name
        + " file(s) compiled to "@ + target_name + seq!['.']
}

/// Sums up a batch of compiler runs, one outcome for each file: how many of
/// how many files were compiled. A failed run counts for the total only; it
/// does not end the batch.
pub fn compilation_summary(outcomes: &Vec<bool>, source_name: &str, target_name: &str) -> (line:
    String)
    ensures
        line@ == summary_line(
            successes(outcomes@, outcomes@.len() as int),
            outcomes@.len(),
            source_name@,
            target_name@,
        ),
{
    let mut succeeded: usize = 0;
    let mut i: usize = 0;
    while i < outcomes.len()
        invariant
            i <= outcomes.len(),
            succeeded <= i,
            succeeded == successes(outcomes@, i as int),
        decreases outcomes.len() - i,
    {
        if outcomes[i] {
            succeeded = succeeded + 1;
        }
        i = i + 1;
    }
    let mut out: Vec<char> = Vec::new();
    push_decimal(&mut out, succeeded as u64);
    push_all(&mut out, &chars_of(" of "));
    push_decimal(&mut out, outcomes.len() as u64);
    out.push(' ');
    push_all(&mut out, &chars_of(source_name));
    push_all(&mut out, &chars_of(" file(s) compiled to "));
    push_all(&mut out, &chars_of(target_name));
    out.push('.');
    string_of(&out)
}

} // verus!
