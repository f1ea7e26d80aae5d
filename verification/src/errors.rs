//! Error taxonomy of the vault.

use vstd::prelude::*;

verus! {

/// Everything that can go wrong on the packet path.
///
/// `scatter_packet` surfaces only `QueueOverflow`; the receive path drops
/// offending fragments silently and counts them per kind.
#[derive(Clone, Copy, Debug, PartialEq, Eq, Structural)]
pub enum VaultError {
    /// Reassembly was asked to combine an empty fragment list.
    FragmentationEmpty,
    /// Fragments of one sequence disagree on `total_fragments`.
    FragmentationMismatch,
    /// Authenticated decryption failed under every live key.
    AeadFailure,
    /// A received fragment is too short to carry the coordinate trailer.
    CoordinateTrailerMissing,
    /// A fragment references a session this endpoint does not know.
    SessionUnknown,
    /// A fragment outlived its time-to-live before it could be used.
    FragmentExpired,
    /// The delay queue is at capacity and the new fragment was dropped.
    QueueOverflow,
}

impl VaultError {
    /// A short, stable name for logs and counters.
    pub fn name(&self) -> (r: &'static str) {
        match self {
            VaultError::FragmentationEmpty => "fragmentation_empty",
            VaultError::FragmentationMismatch => "fragmentation_mismatch",
            VaultError::AeadFailure => "aead_failure",
            VaultError::CoordinateTrailerMissing => "coordinate_trailer_missing",
            VaultError::SessionUnknown => "session_unknown",
            VaultError::FragmentExpired => "fragment_expired",
            VaultError::QueueOverflow => "queue_overflow",
        }
    }
}

} // verus!
