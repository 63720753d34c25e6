//! Failures that the queue core detects by itself. Filesystem failures are the
//! caller's to report; they never originate here.

use vstd::prelude::*;

verus! {

/// An error of the verified queue core.
#[derive(Clone, Copy, Debug, PartialEq, Eq, Structural)]
pub enum QueueError {
    /// A payload of `0xFFFF_FFFF` bytes or more cannot be framed: that length
    /// is the end-of-segment sentinel. The sender refuses such payloads.
    PayloadTooLarge,
    /// Persisted receiver state that cannot be decoded. Fatal at open; there
    /// is no heuristic recovery.
    CorruptState,
}

} // verus!
