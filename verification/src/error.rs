//! How reading a tag can fail.

use vstd::prelude::*;

verus! {

/// Why a tag, or the whole structure, could not be read.
#[derive(Debug, Clone, Copy, PartialEq, Eq, Structural)]
pub enum TagError {
    /// A declared size reaches past the bytes at hand, or is too small to hold
    /// the fields it is declared to hold.
    OutOfBounds,
    /// The payload fails the structural check of its kind.
    Malformed,
}

} // verus!
