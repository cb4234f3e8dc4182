//! The command execution layer's decisions.
//!
//! Invoking the external tool is I/O and stays outside the library; what is
//! verified here is the conversion of a finished invocation's observations
//! (exit status, captured output) into either the stdout text or a typed
//! failure.

use vstd::prelude::*;

verus! {

/// A structured decode failure: the schema-violation description and, for
/// diagnostics, the original text.
#[derive(Debug, PartialEq, Clone)]
pub struct DecodeError {
    pub description: String,
    pub text: String,
}

/// A failed invocation of the external tool.
#[derive(Debug, PartialEq, Clone)]
pub enum CommandError {
    /// Starting or waiting for the process failed; the message describes
    /// the I/O failure.
    Io(String),
    /// The process wrote to standard error; the payload is that output.
    Stderr(String),
    /// The tool's output was well-formed text but did not decode against
    /// the expected shape.
    De(DecodeError),
    /// Captured output was not valid text.
    Encoding,
    /// The process exited with a non-zero status; the payload is the exit
    /// code when one exists.
    ExitStatus(Option<i32>),
}

/// Converts a finished invocation into the stdout text or a typed failure:
/// a non-zero exit status wins, then any standard-error output (even with a
/// zero exit status), then an encoding failure of either stream.
///
/// `stderr_text` and `stdout_text` are `None` when the captured bytes were
/// not valid text; `stderr_empty` says whether any stderr bytes were
/// captured at all.
pub fn classify_command_output(
    status_success: bool,
    code: Option<i32>,
    stderr_empty: bool,
    stderr_text: Option<String>,
    stdout_text: Option<String>,
) -> (r: Result<String, CommandError>)
    ensures
        !status_success ==> r == Err::<String, CommandError>(CommandError::ExitStatus(code)),
        status_success && !stderr_empty ==> r == (match stderr_text {
            Some(t) => Err::<String, CommandError>(CommandError::Stderr(t)),
            None => Err::<String, CommandError>(CommandError::Encoding),
        }),
        status_success && stderr_empty ==> r == (match stdout_text {
            Some(s) => Ok::<String, CommandError>(s),
            None => Err::<String, CommandError>(CommandError::Encoding),
        }),
{
    if !status_success {
        return Err(CommandError::ExitStatus(code));
    }
    if !stderr_empty {
        return match stderr_text {
            Some(t) => Err(CommandError::Stderr(t)),
            None => Err(CommandError::Encoding),
        };
    }
    match stdout_text {
        Some(s) => Ok(s),
        None => Err(CommandError::Encoding),
    }
}

} // verus!
