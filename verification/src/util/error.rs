//! Why a primitive read fails.

use vstd::prelude::*;

verus! {

/// Why a stream could not deliver what was asked of it.
#[derive(Debug, Clone, Copy, PartialEq, Eq, Structural)]
pub enum IoError {
    /// The stream ended before the requested bytes were read.
    UnexpectedEof,
    /// The file that holds the requested bytes was not supplied.
    NotFound,
}

/// Failure of a primitive read.
#[derive(Debug, Clone, Copy, PartialEq, Eq, Structural)]
pub enum Error {
    /// The stream failed to deliver the bytes.
    Io(IoError),
    /// A string is not valid UTF-8; the payload is the stream position at
    /// which the string starts.
    Utf8(u64),
}

} // verus!
