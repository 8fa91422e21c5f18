//! Errors that the library reports.
use vstd::prelude::*;

verus! {

/// The class of an [`IoError`].
#[derive(Clone, Copy, Debug, PartialEq, Eq, Structural)]
pub enum IoErrorKind {
    /// The peer sent bytes that do not follow the format.
    InvalidData,
    /// The caller asked for something that the format cannot carry.
    InvalidInput,
    /// The stream ended where more bytes were due.
    UnexpectedEof,
    /// Anything else.
    Other,
}

/// An error with a class and a text for the peer or the log.
#[derive(Debug)]
pub struct IoError {
    pub kind: IoErrorKind,
    pub message: String,
}

/// The reason why the worker process could not answer.
#[derive(Debug)]
pub struct WorkerError {
    pub message: String,
}

impl IoError {
    /// The error of class `kind` with the text `message`.
    pub fn new(kind: IoErrorKind, message: &str) -> (e: IoError)
        ensures
            e.kind == kind,
            e.message@ == message@,
    {
        IoError { kind, message: message.to_owned() }
    }
}

/// A worker failure as a plain error: the text stays, the class is [`IoErrorKind::Other`].
pub fn worker_io_error(e: WorkerError) -> (r: IoError)
    ensures
        r.kind == IoErrorKind::Other,
        r.message@ == e.message@,
{
    IoError { kind: IoErrorKind::Other, message: e.message }
}

} // verus!
