//! The ways in which building, opening and resolving can fail.

use vstd::prelude::*;

verus! {

/// Why an operation on an archive failed.
#[derive(Debug, Clone, Copy, PartialEq, Eq, Structural)]
pub enum Error {
    /// A file could not be opened, read or written, or the sink cannot take
    /// what is to be written.
    IoError,
    /// Fewer bytes are left than a fixed-size record needs.
    TruncatedInput,
    /// The archive does not begin with the magic number.
    InvalidFormat,
    /// A table entry points outside the archive.
    CorruptArchive,
    /// No asset goes by the name that was asked for.
    NotFound,
}

} // verus!
