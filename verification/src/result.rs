//! Error taxonomy shared by the codec and the store.

use vstd::prelude::*;

verus! {

/// Errors surfaced by the codec and the store.
///
/// `Truncated` reports an end of the log hit in the middle of a record,
/// as opposed to the clean end at a record boundary that stops replay.
/// `InvalidData` reports corrupt or unencodable data: an undecodable
/// compression frame, key or MIME bytes that are not UTF-8, or a field
/// too large for its length prefix. `IO` reports a failure of the
/// compression engine while a record was being encoded.
#[derive(Clone, Copy, Debug, PartialEq, Eq, Structural)]
pub enum KVError {
    IO,
    Truncated,
    InvalidData,
}

/// Result alias used throughout the store.
pub type KVResult<T> = Result<T, KVError>;

} // verus!
