//! The closed set of failures that reading an archive can end in.

use vstd::prelude::*;

verus! {

/// Why a run over an archive stopped.
#[derive(Clone, Copy, Debug, PartialEq, Eq, Structural)]
pub enum ArchiveError {
    /// The stream ended inside the header or the entry table.
    ParseError,
    /// Fewer payload bytes were left in the stream than an entry declares.
    IoError,
    /// The absolute offset of an entry does not fit the 32 bits of a listing row.
    OffsetOverflow,
}

} // verus!
