use vstd::prelude::*;

verus! {

/// The error kinds that stream and coding operations report.
///
/// All of these are recoverable and travel up the call chain as values;
/// the verified functions of this crate never panic.
#[derive(Debug, Clone, Copy, PartialEq, Eq, Structural)]
pub enum Error {
    /// Fewer bytes were available than a mandatory read required.
    UnexpectedEof,
    /// A stream was asked to move in a way it cannot support, such as a
    /// bounded view whose start its inner stream cannot reach.
    InvalidSeek,
    /// Decoded data was malformed, or a value did not fit its wire shape;
    /// for text this means the bytes were not valid UTF-8.
    InvalidData,
    /// A field `assert` directive evaluated to false.
    AssertFailed,
    /// A bounded sink ran out of room before a mandatory write finished.
    WriteZero,
}

impl Error {
    /// A short description of the error, for diagnostics.
    pub fn message(&self) -> (r: &'static str)
    {
        match self {
            Error::UnexpectedEof => "unexpected end of stream",
            Error::InvalidSeek => "unsupported seek",
            Error::InvalidData => "invalid data",
            Error::AssertFailed => "field assertion failed",
            Error::WriteZero => "write reached the end of a bounded sink",
        }
    }
}

} // verus!
