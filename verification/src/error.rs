//! The uniform failure type of the decoders.
//!
//! Every decoding failure carries the byte offset at which the failing item
//! began, together with a closed set of kinds.

use vstd::prelude::*;

verus! {

/// What went wrong while reading a project.
#[derive(Clone, Copy, Debug, PartialEq, Eq, Structural)]
pub enum ErrorKind {
    /// The project root or the patterns directory is not a directory.
    NotADirectory,
    /// The settings file is absent, or a referenced file could not be opened.
    FileMissing,
    /// A pattern file name does not end in digits followed by `.pattern`,
    /// or its number does not fit in a byte.
    BadPatternName,
    /// A read passed the end of the buffer.
    Truncated,
    /// A string field held bytes that are not valid UTF-8.
    InvalidUtf8,
    /// A varint held a continuation bit in its fourth byte.
    VarintTooLong,
    /// An unrecognised tag in a context where tags are fatal.
    UnknownTag(u8),
    /// A format constant did not hold: a step's inner element count was not
    /// 44, a track consumed other than its announced length, `num_steps` or
    /// a variation index lay outside its range, or a step tag was missing.
    StructuralViolation,
}

/// A decoding failure: its kind, and the offset where the failing item began.
#[derive(Clone, Copy, Debug, PartialEq, Eq, Structural)]
pub struct ParseError {
    pub kind: ErrorKind,
    pub offset: usize,
}

/// The error of the given kind whose item began at `offset`.
pub open spec fn err_at(kind: ErrorKind, offset: int) -> ParseError {
    ParseError { kind, offset: offset as usize }
}

impl ParseError {
    /// Build an error for the item that began at `offset`.
    pub fn at(kind: ErrorKind, offset: usize) -> (e: ParseError)
        ensures
            e == err_at(kind, offset as int),
    {
        ParseError { kind, offset }
    }
}

/// What a decoder run at a position of a buffer amounts to: the decoded
/// value together with the position one past it, or the failure it reports.
pub enum Outcome<T> {
    Parsed { v: T, end: int },
    Failed { err: ParseError },
}

} // verus!
