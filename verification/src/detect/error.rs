//! Why reading a package of an unknown format fails.

use crate::pak;
use vstd::prelude::*;

verus! {

/// Failure of reading a package of a format that is yet to be found out.
#[derive(Debug, Clone, Copy, PartialEq, Eq, Structural)]
pub enum Error {
    /// The stream starts with the header of no known format.
    UnknownFormat,
    /// The format is known, and the package cannot be read.
    Pak(pak::Error),
}

} // verus!
