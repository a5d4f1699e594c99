use vstd::prelude::*;

verus! {

/// Failure kinds reported by the index, the collection store and the player.
#[derive(Debug, Clone, Copy, PartialEq, Eq, Structural)]
pub enum Error {
    /// An unknown playlist, emotion bucket, track id or queue position.
    NotFound,
    /// An index, an elapsed offset or a reorder position beyond bounds.
    OutOfRange,
    /// A duplicate name on create or rename.
    Conflict,
    /// An unreadable file or a device failure.
    IoFailure,
    /// An operation that the player's current state does not allow.
    StateError,
}

} // verus!
