//! What can go wrong.

use crate::outside;
use crate::path::FilePath;
use std::borrow::Cow;
use vstd::prelude::*;

verus! {

/// An error, as mathematical values.
pub enum ErrorView {
    /// See `PerlError::PerlNotFound`.
    PerlNotFound(Seq<char>),
    /// See `PerlError::NoMake`.
    NoMake,
    /// See `PerlError::Run`.
    Run(Seq<u8>),
    /// See `PerlError::Pipe`.
    Pipe,
    /// See `PerlError::Capture`.
    Capture,
    /// See `PerlError::Read`.
    Read,
    /// See `PerlError::Wait`.
    Wait,
}

/// Why an interpreter could not be found or a command could not be run.
#[derive(Debug, PartialEq, Eq)]
#[non_exhaustive]
pub enum PerlError {
    /// There is no `perl` on `PATH`; holds what the search reported.
    PerlNotFound(String),
    /// There is no `make` to run.
    NoMake,
    /// The program could not be started.
    Run(FilePath),
    /// No pipe could be made for the output.
    Pipe,
    /// The pipe could not be shared by both output streams.
    Capture,
    /// The captured output could not be read.
    Read,
    /// The end of the child process could not be awaited.
    Wait,
}

impl View for PerlError {
    type V = ErrorView;

    open spec fn view(&self) -> ErrorView {
        match self {
            PerlError::PerlNotFound(cause) => ErrorView::PerlNotFound(cause@),
            PerlError::NoMake => ErrorView::NoMake,
            PerlError::Run(program) => ErrorView::Run(program@),
            PerlError::Pipe => ErrorView::Pipe,
            PerlError::Capture => ErrorView::Capture,
            PerlError::Read => ErrorView::Read,
            PerlError::Wait => ErrorView::Wait,
        }
    }
}

/// The text that describes an error.
pub open spec fn error_message(error: ErrorView) -> Seq<char> {
    match error {
        ErrorView::PerlNotFound(cause) => "no `perl` executable found on PATH: "@ + cause,
        ErrorView::NoMake => "no `make` executable is available"@,
        ErrorView::Run(program) => "failed to run `"@ + outside::utf8_lossy(program) + "`"@,
        ErrorView::Pipe => "failed to create an output pipe"@,
        ErrorView::Capture => "failed to set up output capture"@,
        ErrorView::Read => "failed to read captured output"@,
        ErrorView::Wait => "failed to wait for the child process"@,
    }
}

impl PerlError {
    /// Describes the error.
    pub fn message(&self) -> (text: String)
        ensures
            text@ == error_message(self@),
            self@ matches ErrorView::Run(program) ==> vstd::utf8::valid_utf8(program) ==> text@
                == "failed to run `"@ + vstd::utf8::decode_utf8(program) + "`"@,
    {
        match self {
            PerlError::PerlNotFound(cause) => {
                let mut text = "no `perl` executable found on PATH: ".to_owned();
                text.append(cause.as_str());
                text
            },
            PerlError::NoMake => "no `make` executable is available".to_owned(),
            PerlError::Run(program) => {
                let mut text = "failed to run `".to_owned();
                match String::from_utf8_lossy(program.bytes.as_slice()) {
                    Cow::Borrowed(name) => text.append(name),
                    Cow::Owned(name) => text.append(name.as_str()),
                }
                text.append("`");
                text
            },
            PerlError::Pipe => "failed to create an output pipe".to_owned(),
            PerlError::Capture => "failed to set up output capture".to_owned(),
            PerlError::Read => "failed to read captured output".to_owned(),
            PerlError::Wait => "failed to wait for the child process".to_owned(),
        }
    }
}

/// What an error stands for is what it holds.
pub proof fn law_error_views(error: PerlError)
    ensures
        match error {
            PerlError::PerlNotFound(cause) => error@ == ErrorView::PerlNotFound(cause@),
            PerlError::NoMake => error@ is NoMake,
            PerlError::Run(program) => error@ == ErrorView::Run(program.bytes@),
            PerlError::Pipe => error@ is Pipe,
            PerlError::Capture => error@ is Capture,
            PerlError::Read => error@ is Read,
            PerlError::Wait => error@ is Wait,
        },
{
}

/// What the messages say: one ends with the cause, one names the program between back
/// quotes, and the others are fixed.
pub proof fn law_messages(cause: Seq<char>, program: Seq<u8>)
    ensures
        error_message(ErrorView::PerlNotFound(cause)) == "no `perl` executable found on PATH: "@
            + cause,
        error_message(ErrorView::Run(program)) == "failed to run `"@ + outside::utf8_lossy(program)
            + "`"@,
        error_message(ErrorView::NoMake) == "no `make` executable is available"@,
        error_message(ErrorView::Pipe) == "failed to create an output pipe"@,
        error_message(ErrorView::Capture) == "failed to set up output capture"@,
        error_message(ErrorView::Read) == "failed to read captured output"@,
        error_message(ErrorView::Wait) == "failed to wait for the child process"@,
{
}

} // verus!
