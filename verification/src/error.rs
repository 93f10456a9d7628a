//! Error taxonomy of the engine. Every fallible operation returns an
//! `EngineError` carrying a kind and a human-readable message; no operation
//! aborts the process on ordinary invalid input.

use vstd::prelude::*;

verus! {

/// The closed set of error kinds the engine reports.
#[derive(Clone, Copy, Debug, PartialEq, Eq, Structural)]
pub enum ErrorKind {
    /// Length or dimension mismatch.
    Shape,
    /// Operation not defined for a type.
    Type,
    /// Fallible conversion rejected at the structural level.
    Cast,
    /// Missing or duplicate column, or an unresolvable plan schema.
    Schema,
    /// Catch-all for engine-internal failures, including adapted I/O failures.
    Compute,
    /// An ordered-key precondition (as-of join) was violated.
    NotSorted,
}

/// An error value: a kind plus a human-readable message.
#[derive(Debug)]
pub struct EngineError {
    kind: ErrorKind,
    message: String,
}

impl EngineError {
    pub closed spec fn kind(&self) -> ErrorKind {
        self.kind
    }

    pub closed spec fn spec_message(&self) -> Seq<char> {
        self.message@
    }

    pub fn new(kind: ErrorKind, message: &str) -> (r: EngineError)
        ensures
            r.kind() == kind,
            r.spec_message() == message@,
    {
        EngineError { kind, message: message.to_owned() }
    }

    pub fn shape(message: &str) -> (r: EngineError)
        ensures
            r.kind() == ErrorKind::Shape,
    {
        EngineError::new(ErrorKind::Shape, message)
    }

    pub fn type_error(message: &str) -> (r: EngineError)
        ensures
            r.kind() == ErrorKind::Type,
    {
        EngineError::new(ErrorKind::Type, message)
    }

    pub fn cast(message: &str) -> (r: EngineError)
        ensures
            r.kind() == ErrorKind::Cast,
    {
        EngineError::new(ErrorKind::Cast, message)
    }

    pub fn schema(message: &str) -> (r: EngineError)
        ensures
            r.kind() == ErrorKind::Schema,
    {
        EngineError::new(ErrorKind::Schema, message)
    }

    pub fn compute(message: &str) -> (r: EngineError)
        ensures
            r.kind() == ErrorKind::Compute,
    {
        EngineError::new(ErrorKind::Compute, message)
    }

    pub fn not_sorted(message: &str) -> (r: EngineError)
        ensures
            r.kind() == ErrorKind::NotSorted,
    {
        EngineError::new(ErrorKind::NotSorted, message)
    }

    /// The kind, for callers that dispatch on it.
    pub fn error_kind(&self) -> (k: ErrorKind)
        ensures
            k == self.kind(),
    {
        self.kind
    }

    /// The human-readable message.
    pub fn message(&self) -> (m: &str)
        ensures
            m@ == self.spec_message(),
    {
        self.message.as_str()
    }
}

} // verus!
