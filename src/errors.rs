//! What can go wrong when computing isobands.
use vstd::prelude::*;

verus! {

/// The specific kind of an error.
///
/// `BadData`, `BadDimension` and `BadIntervals` reject the caller's input;
/// the others would mean an inconsistency inside the engine itself.
#[derive(Clone, Copy, Debug, PartialEq, Eq, Structural)]
pub enum ErrorKind {
    BadDimension,
    UnexpectedCVAL,
    UnexpectedOutOfGridMove,
    OutOfBounds,
    BadIntervals,
    BadData,
    PolygonReconstructionError,
}

/// An error that can occur when computing isobands.
#[derive(Clone, Copy, Debug, PartialEq, Eq, Structural)]
pub struct Error {
    kind: ErrorKind,
}

impl Error {
    pub closed spec fn spec_kind(&self) -> ErrorKind {
        self.kind
    }

    pub fn new(kind: ErrorKind) -> (e: Error)
        ensures
            e.spec_kind() == kind,
    {
        Error { kind }
    }

    /// The specific kind of this error.
    pub fn kind(&self) -> (r: &ErrorKind)
        ensures
            *r == self.spec_kind(),
    {
        &self.kind
    }

    /// This error's kind, by value.
    pub fn into_kind(self) -> (r: ErrorKind)
        ensures
            r == self.spec_kind(),
    {
        self.kind
    }
}

impl ErrorKind {
    /// Whether the error rejects the caller's input, rather than signalling a
    /// fault of the engine.
    pub fn is_input_error(&self) -> (r: bool)
        ensures
            r == (*self == ErrorKind::BadData || *self == ErrorKind::BadDimension || *self
                == ErrorKind::BadIntervals),
    {
        match self {
            ErrorKind::BadData | ErrorKind::BadDimension | ErrorKind::BadIntervals => true,
            _ => false,
        }
    }
}

} // verus!
