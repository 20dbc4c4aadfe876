//! The ways in which a run can go wrong.

use vstd::prelude::*;
use vstd::string::*;

verus! {

/// What went wrong in a run.
#[derive(Debug, Clone, Copy, PartialEq, Eq, Structural)]
pub enum ErrorKind {
    /// The configuration is invalid: the batch size is zero.
    Configuration,
    /// A line of input could not be read or decoded.
    InputRead,
    /// The operating system refused to start a command.
    Spawn,
    /// A command ran and exited with a status other than zero.
    ChildExit,
}

impl ErrorKind {
    /// Whether an error of this kind ends the run at once. Only a command's
    /// own failure does not: the batches after it are still processed.
    pub open spec fn fatal(self) -> bool {
        self != ErrorKind::ChildExit
    }

    /// What to tell the operator about an error of this kind.
    pub open spec fn description(self) -> Seq<char> {
        match self {
            ErrorKind::Configuration => "the batch size must be at least 1"@,
            ErrorKind::InputRead => "a line of input could not be read"@,
            ErrorKind::Spawn => "a command could not be started"@,
            ErrorKind::ChildExit => "a command exited with a failure"@,
        }
    }

    /// What to tell the operator about an error of this kind.
    pub fn describe(&self) -> (text: &'static str)
        ensures
            text@ == self.description(),
    {
        match self {
            ErrorKind::Configuration => "the batch size must be at least 1",
            ErrorKind::InputRead => "a line of input could not be read",
            ErrorKind::Spawn => "a command could not be started",
            ErrorKind::ChildExit => "a command exited with a failure",
        }
    }

    /// Whether an error of this kind ends the run at once.
    pub fn is_fatal(&self) -> (fatal: bool)
        ensures
            fatal == self.fatal(),
    {
        match self {
            ErrorKind::ChildExit => false,
            _ => true,
        }
    }
}

/// The exit status of the whole run, given the error it ended with, if any:
/// zero for a run without error, one for a run with an error of any kind.
pub open spec fn exit_status(outcome: Option<ErrorKind>) -> int {
    if outcome is None {
        0
    } else {
        1
    }
}

/// Computes the exit status of the whole run.
pub fn exit_code(outcome: Option<ErrorKind>) -> (code: i32)
    ensures
        code == exit_status(outcome),
{
    match outcome {
        None => 0,
        Some(_) => 1,
    }
}

} // verus!
