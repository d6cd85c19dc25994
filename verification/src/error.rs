//! The errors a decode can end in.

use vstd::prelude::*;

verus! {

/// What went wrong in a structural error.
#[derive(Debug, Clone, Copy, PartialEq, Eq, Structural)]
pub enum ErrorKind {
    /// The buffer ends before the structure it declares does.
    Eof,
}

/// Why a decode stopped. Every error is final for the value being decoded.
#[derive(Debug, Clone, Copy, PartialEq, Eq, Structural)]
pub enum Error {
    /// The buffer is shorter than its contents declare. `offset` is the
    /// position of the first field or region that does not fit, counted from
    /// the start of the buffer that was handed in; in a walk over a section,
    /// from the start of the section.
    ParserError { offset: usize, kind: ErrorKind },
    /// The version byte is not the supported one.
    UnsupportedVersion,
    /// A reserved field of the header is not zero.
    MalformedHeader,
    /// The record counts of the functions do not partition the records.
    FunctionRecordMismatch,
    /// A reserved field of a location is not zero.
    MalformedReserved,
    /// A location refers to a constant that the pool does not hold.
    InvalidConstantIndex { index: i32 },
    /// A location carries a tag that names no kind.
    InvalidLocationKind { invalid_kind: u8 },
}

/// The error for a buffer that ends at or inside the field at `offset`.
pub open spec fn eof_at(offset: int) -> Error {
    Error::ParserError { offset: offset as usize, kind: ErrorKind::Eof }
}

/// `e` as seen from `by` bytes further back: the offset of a structural error
/// moves, every other error stays as it is.
pub open spec fn shifted(e: Error, by: int) -> Error {
    match e {
        Error::ParserError { offset, kind } => Error::ParserError {
            offset: (offset + by) as usize,
            kind,
        },
        _ => e,
    }
}

impl Error {
    /// The error as seen from `by` bytes further back.
    pub(crate) fn shifted_by(self, by: usize) -> (r: Error)
        requires
            self matches Error::ParserError { offset, .. } ==> offset + by <= usize::MAX,
        ensures
            r == shifted(self, by as int),
    {
        match self {
            Error::ParserError { offset, kind } => Error::ParserError { offset: offset + by, kind },
            other => other,
        }
    }
}

/// `head` in front of what `tail` decoded, or the error that `tail` ended in.
pub open spec fn prepend<T>(head: Seq<T>, tail: Result<Seq<T>, Error>) -> Result<Seq<T>, Error> {
    match tail {
        Ok(items) => Ok(head + items),
        Err(e) => Err(e),
    }
}

} // verus!
