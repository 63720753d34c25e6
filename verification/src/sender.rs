//! The write side of the queue. The sender owns the append cursor, derived at
//! open from the segment files; it is never persisted. Each `send` /
//! `send_batch` frames the payloads and says exactly what must reach the
//! current segment file in one atomic append-and-flush, and whether that
//! append seals the segment. The caller performs the append; flushing is what
//! publishes the records to the reader.

use vstd::prelude::*;

use crate::encoding::u32_le_write;
use crate::error::QueueError;
use crate::header::EOF_SENTINEL;
use crate::records::{
    lemma_records_len_nonneg, lemma_records_len_take_le, lemma_records_len_take_step,
    payloads_fit, records_len, spec_eof_bytes, spec_frame, spec_frames,
};
use crate::state::{QueueState, SEGMENT_MAX};

verus! {

/// One append action against the queue directory: the bytes to append to a
/// segment file, to be made visible to the reader in a single flush.
pub struct SegmentWrite {
    /// The segment file the bytes go to.
    pub segment: u64,
    /// The bytes to append and flush. Either both header and payload of each
    /// record become visible, or neither.
    pub bytes: Vec<u8>,
    /// When set, the bytes end with the end-of-segment sentinel: the segment
    /// is sealed, and the appends that follow go to this next segment.
    pub next_segment: Option<u64>,
}

/// The cursor after recording an append of `n` bytes: the position advances,
/// and once it reaches the segment bound the cursor rolls over to the start
/// of the next segment.
pub open spec fn spec_after_send(s: QueueState, n: int) -> QueueState {
    if s.position + n >= SEGMENT_MAX {
        QueueState { segment: (s.segment + 1) as u64, position: 0 }
    } else {
        QueueState { segment: s.segment, position: (s.position + n) as u64 }
    }
}

/// Whether an append of `n` bytes leaves the cursor at or past the segment
/// bound, so that the append seals the segment.
pub open spec fn spec_send_rotates(s: QueueState, n: int) -> bool {
    s.position + n >= SEGMENT_MAX
}

/// The write side of a queue.
pub struct Sender {
    /// The append cursor: current segment, and the byte length that segment
    /// will have once every `SegmentWrite` handed out so far is applied.
    pub state: QueueState,
}

impl Sender {
    /// Opens the write side from what the queue directory shows: the highest
    /// existing segment index, and the byte length of that segment's file.
    /// The cursor is derived, never loaded.
    pub fn open(segment: u64, file_len: u64) -> (s: Sender)
        ensures
            s.state.segment == segment,
            s.state.position == file_len,
    {
        Sender { state: QueueState { segment, position: file_len } }
    }

    /// Saves nothing: the sender cursor is always re-derived at open, so
    /// there is nothing to persist. Kept for callers that checkpoint both
    /// sides uniformly.
    pub fn save(&mut self) -> (r: Result<(), QueueError>)
        ensures
            r == Ok::<(), QueueError>(()),
            *final(self) == *old(self),
    {
        Ok(())
    }

    /// Appends the frame of one payload — length header, then the payload
    /// bytes — to the staged output.
    fn write(out: &mut Vec<u8>, data: &Vec<u8>)
        requires
            data@.len() < EOF_SENTINEL,
        ensures
            final(out)@ == old(out)@ + spec_frame(data@),
    {
        let len32 = data.len() as u32;
        u32_le_write(len32, out);
        let n = data.len();
        let mut i: usize = 0;
        while i < n
            invariant
                n == data@.len(),
                n < EOF_SENTINEL,
                len32 == data@.len() as u32,
                i <= n,
                out@ == old(out)@ + crate::encoding::spec_u32_le(len32) + data@.take(i as int),
            decreases n - i,
        {
            out.push(data[i]);
            assert(out@ =~= old(out)@ + crate::encoding::spec_u32_le(len32) + data@.take(
                i as int + 1,
            ));
            i = i + 1;
        }
        assert(data@.take(n as int) =~= data@);
        assert(out@ =~= old(out)@ + spec_frame(data@));
    }

    /// Seals the current segment: appends the end-of-segment sentinel to the
    /// staged output and moves the cursor to the start of the next segment,
    /// returning the new segment index.
    fn cap_off_and_move(&mut self, out: &mut Vec<u8>) -> (next: u64)
        requires
            old(self).state.segment < u64::MAX,
        ensures
            final(out)@ == old(out)@ + spec_eof_bytes(),
            final(self).state.segment == old(self).state.segment + 1,
            final(self).state.position == 0,
            next == final(self).state.segment,
    {
        u32_le_write(EOF_SENTINEL, out);
        self.state.advance_segment()
    }

    /// Frames one payload for the queue. On success the returned write holds
    /// the frame — plus the sealing sentinel if this append crosses the
    /// segment bound — and the cursor has advanced past it. One send is one
    /// flush: the record becomes visible to the reader atomically, or, if the
    /// caller fails to apply the write, not at all — in that case the sender
    /// must be reopened, re-deriving the cursor from the file.
    ///
    /// Payloads of `0xFFFF_FFFF` bytes or more are refused: that length is
    /// the end-of-segment sentinel.
    pub fn send(&mut self, data: &Vec<u8>) -> (r: Result<SegmentWrite, QueueError>)
        requires
            old(self).state.position + 4 + data@.len() <= u64::MAX,
            old(self).state.segment < u64::MAX,
        ensures
            data@.len() >= EOF_SENTINEL ==> (r == Err::<SegmentWrite, QueueError>(
                QueueError::PayloadTooLarge,
            ) && *final(self) == *old(self)),
            data@.len() < EOF_SENTINEL ==> (r matches Ok(w) && w.segment == old(
                self,
            ).state.segment && final(self).state == spec_after_send(
                old(self).state,
                4 + data@.len() as int,
            ) && (if spec_send_rotates(old(self).state, 4 + data@.len() as int) {
                w.bytes@ == spec_frame(data@) + spec_eof_bytes() && w.next_segment == Some(
                    (old(self).state.segment + 1) as u64,
                )
            } else {
                w.bytes@ == spec_frame(data@) && w.next_segment is None
            })),
    {
        if data.len() >= EOF_SENTINEL as usize {
            return Err(QueueError::PayloadTooLarge);
        }
        let mut bytes: Vec<u8> = Vec::new();
        Self::write(&mut bytes, data);
        assert(bytes@ =~= spec_frame(data@));
        let written = 4 + data.len() as u64;
        let segment = self.state.segment;
        self.state.advance_position(written);
        let next_segment = if self.state.is_past_end() {
            Some(self.cap_off_and_move(&mut bytes))
        } else {
            None
        };
        Ok(SegmentWrite { segment, bytes, next_segment })
    }

    /// Frames a whole batch for the queue, as one write and hence one flush:
    /// the batch becomes visible to the reader atomically, all records or
    /// none. The cursor advances past the batch, and the segment bound is
    /// checked once, after the batch, sealing the segment if it was crossed.
    ///
    /// If any payload in the batch is too large the whole batch is refused
    /// and nothing is staged.
    pub fn send_batch(&mut self, batch: &Vec<Vec<u8>>) -> (r: Result<SegmentWrite, QueueError>)
        requires
            old(self).state.position + records_len(batch.deep_view()) <= u64::MAX,
            old(self).state.segment < u64::MAX,
        ensures
            !payloads_fit(batch.deep_view()) ==> (r == Err::<SegmentWrite, QueueError>(
                QueueError::PayloadTooLarge,
            ) && *final(self) == *old(self)),
            payloads_fit(batch.deep_view()) ==> (r matches Ok(w) && w.segment == old(
                self,
            ).state.segment && final(self).state == spec_after_send(
                old(self).state,
                records_len(batch.deep_view()),
            ) && (if spec_send_rotates(old(self).state, records_len(batch.deep_view())) {
                w.bytes@ == spec_frames(batch.deep_view()) + spec_eof_bytes() && w.next_segment
                    == Some((old(self).state.segment + 1) as u64)
            } else {
                w.bytes@ == spec_frames(batch.deep_view()) && w.next_segment is None
            })),
    {
        let ghost all = batch.deep_view();
        let n = batch.len();
        let mut i: usize = 0;
        while i < n
            invariant
                n == batch@.len(),
                all == batch.deep_view(),
                i <= n,
                forall|j: int| 0 <= j < i ==> #[trigger] all[j].len() < EOF_SENTINEL,
            decreases n - i,
        {
            assert(all[i as int] =~= batch@[i as int]@);
            if batch[i].len() >= EOF_SENTINEL as usize {
                return Err(QueueError::PayloadTooLarge);
            }
            i = i + 1;
        }
        assert(payloads_fit(all));

        let mut bytes: Vec<u8> = Vec::new();
        let mut total: u64 = 0;
        let mut i: usize = 0;
        proof {
            lemma_records_len_nonneg(all);
        }
        while i < n
            invariant
                n == batch@.len(),
                all == batch.deep_view(),
                payloads_fit(all),
                old(self).state.position + records_len(all) <= u64::MAX,
                i <= n,
                bytes@ == spec_frames(all.take(i as int)),
                total == records_len(all.take(i as int)),
            decreases n - i,
        {
            assert(all[i as int] =~= batch@[i as int]@);
            proof {
                lemma_records_len_take_step(all, i as int);
                lemma_records_len_take_le(all, i as int + 1);
                lemma_records_len_nonneg(all.take(i as int));
                crate::records::lemma_frames_push(all.take(i as int), all[i as int]);
                assert(all.take(i as int).push(all[i as int]) =~= all.take(i as int + 1));
            }
            Self::write(&mut bytes, &batch[i]);
            total = total + (4 + batch[i].len() as u64);
            i = i + 1;
        }
        assert(all.take(n as int) =~= all);

        let segment = self.state.segment;
        self.state.advance_position(total);
        let next_segment = if self.state.is_past_end() {
            Some(self.cap_off_and_move(&mut bytes))
        } else {
            None
        };
        Ok(SegmentWrite { segment, bytes, next_segment })
    }
}

} // verus!
