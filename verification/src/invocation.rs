//! One invocation from its input to what it reports and how it ends.

use vstd::prelude::*;
use vstd::utf8::{decode_utf8, valid_utf8};
use crate::input::{announcement, decode, InputError, Severity};
use crate::mode::{select_mode, Flags};
use crate::report::{path_view, report, report_text};

verus! {

/// A failure before any input is looked at.
#[derive(Clone, Copy, Debug, PartialEq, Eq, Structural)]
pub enum StartupError {
    /// No directory for the log could be found or made.
    ConfigDirUnavailable,
    /// The log was asked for and could not be read.
    LogReadFailure,
}

/// The exit code of a run that ended normally or on a failed input.
pub const EXIT_OK: u8 = 0;

/// The exit code of a run that could not start.
pub const EXIT_STARTUP_FAILURE: u8 = 1;

impl StartupError {
    /// A failed start ends the process with a code that is not zero.
    pub fn exit_code(self) -> (code: u8)
        ensures
            code == EXIT_STARTUP_FAILURE,
    {
        EXIT_STARTUP_FAILURE
    }
}

/// What one invocation leaves behind.
#[derive(Debug)]
pub struct Outcome {
    /// The line for standard output, if a result was computed.
    pub line: Option<String>,
    /// The failure to announce and how loudly, if one is to be announced.
    pub notice: Option<(Severity, InputError)>,
    /// The exit code of the process.
    pub exit_code: u8,
}

/// The outcome of an input that failed with `error`: no result, success as
/// exit code, and the failure announced only where that was asked for.
pub open spec fn failed(outcome: Outcome, error: InputError, show_errors: bool) -> bool {
    &&& outcome.line is None
    &&& outcome.exit_code == EXIT_OK
    &&& outcome.notice == if show_errors {
        Some((error.spec_severity(), error))
    } else {
        None
    }
}

/// The outcome of an input that was read as `text`.
pub open spec fn reported(
    outcome: Outcome,
    flags: Flags,
    text: Seq<char>,
    path: Option<Seq<char>>,
) -> bool {
    &&& outcome.line is Some
    &&& outcome.line->0@ == report_text(flags.mode(), text, path)
    &&& outcome.notice is None
    &&& outcome.exit_code == EXIT_OK
}

fn fail(error: InputError, show_errors: bool) -> (outcome: Outcome)
    ensures
        failed(outcome, error, show_errors),
{
    let notice = match announcement(error, show_errors) {
        Some(severity) => Some((severity, error)),
        None => None,
    };
    Outcome { line: None, notice, exit_code: EXIT_OK }
}

/// Carries an invocation through once its input was read or could not be:
/// `input` holds the raw bytes of the source, or the class of the failure.
/// Bytes that are valid text are decoded once and reported in the selected
/// mode. A failure, and bytes that are no text, end the invocation before
/// anything is counted.
pub fn conclude(
    flags: Flags,
    show_errors: bool,
    path: Option<&str>,
    input: Result<Vec<u8>, InputError>,
) -> (outcome: Outcome)
    ensures
        match input {
            Ok(bytes) => if valid_utf8(bytes@) {
                reported(outcome, flags, decode_utf8(bytes@), path_view(path))
            } else {
                failed(outcome, InputError::InvalidEncoding, show_errors)
            },
            Err(error) => failed(outcome, error, show_errors),
        },
{
    match input {
        Ok(bytes) => match decode(bytes) {
            Ok(text) => {
                let line = report(select_mode(flags), text.as_str(), path);
                Outcome { line: Some(line), notice: None, exit_code: EXIT_OK }
            },
            Err(error) => fail(error, show_errors),
        },
        Err(error) => fail(error, show_errors),
    }
}

} // verus!
