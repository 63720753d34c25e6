//! The read/write cursor of a queue side: which segment, and at which byte
//! offset the next record header sits. The receiver persists this pair in a
//! metadata file; the sender re-derives it from the segment files at open.

use vstd::prelude::*;

use crate::encoding::{
    lemma_u64_le_round_trip, lemma_u64_of_le_round_trip, spec_u64_le, spec_u64_of_le, u64_le_read,
    u64_le_write,
};
use crate::error::QueueError;

verus! {

/// Advisory upper bound, in bytes, on a segment file. After an append that
/// leaves the cursor at or past this bound, the sender seals the segment with
/// the end-of-segment sentinel and opens the next one.
pub const SEGMENT_MAX: u64 = 4 * 1024 * 1024;

/// The cursor of one side of a queue: `position` is the byte offset within
/// segment `segment` at which the next record header is located.
#[derive(Clone, Copy, Debug, PartialEq, Eq, Structural)]
pub struct QueueState {
    pub segment: u64,
    pub position: u64,
}

impl QueueState {
    /// Moves the cursor `n` bytes forward within the current segment.
    pub fn advance_position(&mut self, n: u64)
        requires
            old(self).position + n <= u64::MAX,
        ensures
            final(self).segment == old(self).segment,
            final(self).position == old(self).position + n,
    {
        self.position = self.position + n;
    }

    /// Moves the cursor to the start of the next segment; returns the new
    /// segment index.
    pub fn advance_segment(&mut self) -> (next: u64)
        requires
            old(self).segment < u64::MAX,
        ensures
            final(self).segment == old(self).segment + 1,
            final(self).position == 0,
            next == final(self).segment,
    {
        self.segment = self.segment + 1;
        self.position = 0;
        self.segment
    }

    /// Undoes a failed segment advance: steps the segment index back.
    pub fn retreat_segment(&mut self)
        requires
            old(self).segment > 0,
        ensures
            final(self).segment == old(self).segment - 1,
            final(self).position == old(self).position,
    {
        self.segment = self.segment - 1;
    }

    /// Whether the cursor has crossed the segment size bound, so that the
    /// current segment is due to be sealed.
    pub fn is_past_end(&self) -> (b: bool)
        ensures
            b == (self.position >= SEGMENT_MAX),
    {
        self.position >= SEGMENT_MAX
    }
}

/// The sixteen bytes a cursor is persisted as: the segment index, then the
/// position, each as eight little-endian bytes.
pub open spec fn spec_state_bytes(s: QueueState) -> Seq<u8> {
    spec_u64_le(s.segment) + spec_u64_le(s.position)
}

/// The cursor persisted in sixteen bytes.
pub open spec fn spec_decode_state(bytes: Seq<u8>) -> QueueState
    recommends
        bytes.len() == 16,
{
    QueueState {
        segment: spec_u64_of_le(bytes.subrange(0, 8)),
        position: spec_u64_of_le(bytes.subrange(8, 16)),
    }
}

/// The durable encoding of a cursor, for the receiver's metadata file.
pub fn encode_state(s: &QueueState) -> (r: Vec<u8>)
    ensures
        r@ == spec_state_bytes(*s),
        r@.len() == 16,
{
    let mut out: Vec<u8> = Vec::new();
    u64_le_write(s.segment, &mut out);
    u64_le_write(s.position, &mut out);
    proof {
        lemma_u64_le_round_trip(s.segment);
        lemma_u64_le_round_trip(s.position);
        assert(out@ =~= spec_state_bytes(*s));
    }
    out
}

/// Decodes a persisted cursor. Anything but exactly sixteen bytes is corrupt
/// state: the queue refuses to open on it.
pub fn decode_state(bytes: &Vec<u8>) -> (r: Result<QueueState, QueueError>)
    ensures
        bytes@.len() == 16 ==> r == Ok::<QueueState, QueueError>(spec_decode_state(bytes@)),
        bytes@.len() != 16 ==> r == Err::<QueueState, QueueError>(QueueError::CorruptState),
{
    if bytes.len() != 16 {
        return Err(QueueError::CorruptState);
    }
    let segment = u64_le_read(bytes, 0);
    let position = u64_le_read(bytes, 8);
    Ok(QueueState { segment, position })
}

/// A persisted cursor decodes to the cursor it encoded.
pub proof fn lemma_state_round_trip(s: QueueState)
    ensures
        spec_state_bytes(s).len() == 16,
        spec_decode_state(spec_state_bytes(s)) == s,
{
    lemma_u64_le_round_trip(s.segment);
    lemma_u64_le_round_trip(s.position);
    assert(spec_state_bytes(s).subrange(0, 8) =~= spec_u64_le(s.segment));
    assert(spec_state_bytes(s).subrange(8, 16) =~= spec_u64_le(s.position));
}

/// Sixteen persisted bytes are reproduced by encoding the cursor they store.
pub proof fn lemma_state_bytes_round_trip(bytes: Seq<u8>)
    requires
        bytes.len() == 16,
    ensures
        spec_state_bytes(spec_decode_state(bytes)) == bytes,
{
    lemma_u64_of_le_round_trip(bytes.subrange(0, 8));
    lemma_u64_of_le_round_trip(bytes.subrange(8, 16));
    assert(spec_state_bytes(spec_decode_state(bytes)) =~= bytes);
}

} // verus!
