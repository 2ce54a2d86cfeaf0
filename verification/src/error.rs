//! The error that the scheduler's operations report.
use vstd::prelude::*;

verus! {

/// What kind of failure an error reports.
#[derive(Debug, Clone, Copy, PartialEq, Eq, Structural)]
pub enum ErrorKind {
    NotFound,
    InvalidInput,
    InvalidData,
    AlreadyExists,
    Other,
}

/// A failure of a scheduler operation: its kind and its message.
#[derive(Debug)]
pub struct SchedulerError {
    pub kind: ErrorKind,
    pub message: String,
}

impl SchedulerError {
    /// An error of the given kind and message.
    pub fn new(kind: ErrorKind, message: String) -> (e: SchedulerError)
        ensures
            e.kind == kind,
            e.message@ == message@,
    {
        SchedulerError { kind, message }
    }

    /// The message of the error.
    pub fn to_string(&self) -> (s: String)
        ensures
            s@ == self.message@,
    {
        self.message.clone()
    }
}

} // verus!
