//! Structural errors: the fatal outcomes of a decode pass. A malformed input
//! aborts the current decode; no partial data is substituted for it.

use vstd::prelude::*;

verus! {

/// A fatal defect in the binary input: the decode that hit it is abandoned.
#[derive(Clone, Copy, Debug, PartialEq, Eq, Structural)]
pub enum StructuralError {
    /// A section began with the wrong magic tag.
    BadMagic,
    /// A table offset, length or byte range points outside the input.
    OutOfBounds,
    /// A file or directory name holds bytes that are not valid text
    /// (not a well-formed UTF-8 sequence).
    InvalidName,
    /// A subdirectory reference closes a loop in the directory tables.
    CyclicDirectory,
    /// A compressed stream ended in the middle of a token.
    TruncatedStream,
    /// A back-reference reaches further back than the output produced so far.
    BadDisplacement,
}

} // verus!
