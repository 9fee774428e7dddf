//! The classes of failure that the library reports.
use vstd::prelude::*;

verus! {

/// The class of a failure.
#[derive(Clone, Copy, Debug, PartialEq, Eq, Structural)]
pub enum ErrorKind {
    /// A pattern is absent, or no way of reaching the configuration worked.
    NotFound,
    /// A pattern cannot be used, or a container header fails validation.
    InvalidInput,
    /// The input ended before a field or a block that it announces.
    Io,
    /// A format-specific consistency check failed.
    CorruptData,
    /// A codec library could not be set up on this platform.
    Unavailable,
}

} // verus!
