//! The error type of the library and the builders of its most common value.

use vstd::prelude::*;

verus! {

/// The kinds of error.
#[derive(Clone, Copy, Debug, PartialEq, Eq, Structural)]
pub enum ErrorKind {
    /// The configuration is malformed or names something that does not exist.
    ConfigError,
    /// A service, script or service set of that name is unknown, or a script
    /// name is not of the form `service.script`.
    InvalidName,
    /// The verb of a command is unknown, or it has the wrong number of arguments.
    InvalidCommand,
    /// A child process could not be spawned, awaited or killed.
    ProcessError,
    /// Several services could not be stopped.
    Aggregated,
}

/// An error: its kind and a message for the operator.
#[derive(Debug)]
pub struct Error {
    pub kind: ErrorKind,
    pub message: String,
}

impl Error {
    /// Whether the error is of this kind and has this message.
    pub open spec fn describes(self, kind: ErrorKind, message: Seq<char>) -> bool {
        self.kind == kind && self.message@ == message
    }

    /// An error of this kind with this message.
    pub fn new(kind: ErrorKind, message: String) -> (e: Error)
        ensures
            e.describes(kind, message@),
    {
        Error { kind, message }
    }

    /// The message, for printing.
    pub fn to_string(&self) -> (s: String)
        ensures
            s@ == self.message@,
    {
        self.message.clone()
    }
}

/// A configuration error with the given message.
pub fn build_invalid_data_error_str(text: &str) -> (e: Error)
    ensures
        e.describes(ErrorKind::ConfigError, text@),
{
    Error { kind: ErrorKind::ConfigError, message: String::from_str(text) }
}

/// A configuration error with the given message.
pub fn build_invalid_data_error_string(text: String) -> (e: Error)
    ensures
        e.describes(ErrorKind::ConfigError, text@),
{
    Error { kind: ErrorKind::ConfigError, message: text }
}

} // verus!
