//! The read side of the queue. The receiver owns the persisted cursor, the
//! checkpoint of a half-read record, and the records read from the segment
//! but not yet delivered. It is fed plainly: the caller tails the segment
//! file, reads exactly what `next_need` asks, and hands the bytes back in.
//! All waiting happens in the caller, between those calls; every suspension
//! point therefore leaves this state machine in a position it can resume
//! from, which is what makes a receive safe to abandon midway. Delivery is
//! transactional: the cursor moves only when a receive guard is committed.

use vstd::prelude::*;

use crate::error::QueueError;
use crate::guard::RecvGuard;
use crate::header::{Header, EOF_SENTINEL};
use crate::records::{
    lemma_records_len_nonneg, lemma_records_len_push, lemma_records_len_split, records_len,
};
use crate::state::{decode_state, encode_state, spec_decode_state, spec_state_bytes, QueueState};

verus! {

/// What the read loop must fetch next from the segment file before another
/// record can complete.
#[derive(Clone, Copy, Debug, PartialEq, Eq, Structural)]
pub enum ReadNeed {
    /// The four bytes of the next record header.
    HeaderBytes,
    /// The payload of the record whose header was already read.
    PayloadBytes(u32),
}

/// The read side of a queue.
pub struct Receiver {
    /// The persisted cursor: the byte offset of the next uncommitted record.
    /// It moves only on guard commit and on segment advance.
    pub state: QueueState,
    /// The length of a record whose header was read but whose payload was
    /// not: the checkpoint that lets an abandoned read resume without
    /// re-reading (or losing) the header.
    pub maybe_header: Option<u32>,
    /// Records read from the segment but not yet delivered, oldest first —
    /// the boundary between the caller's awaited reads and synchronous
    /// delivery.
    pub read_and_unused: Vec<Vec<u8>>,
}

impl Receiver {
    /// The payloads read but not yet delivered, oldest first.
    pub open spec fn buffered(&self) -> Seq<Seq<u8>> {
        self.read_and_unused.deep_view()
    }

    /// Every pending or buffered record is short enough to have been framed,
    /// and the buffered records fit a `u64` byte count.
    pub open spec fn wf(&self) -> bool {
        &&& (self.maybe_header matches Some(len) ==> len < EOF_SENTINEL)
        &&& (forall|i: int|
            0 <= i < self.buffered().len() ==> #[trigger] self.buffered()[i].len() < EOF_SENTINEL)
        &&& records_len(self.buffered()) <= u64::MAX
    }

    /// Opens the read side from the persisted metadata, if there is any.
    /// With no metadata file the cursor starts at the beginning of the
    /// oldest existing segment (`fallback_segment`; 0 for a fresh queue).
    /// Metadata of the wrong shape is corrupt state: the open is refused,
    /// with no heuristic recovery.
    pub fn open(metadata: Option<&Vec<u8>>, fallback_segment: u64) -> (r: Result<
        Receiver,
        QueueError,
    >)
        ensures
            metadata is None ==> (r matches Ok(rx) && rx.state == (QueueState {
                segment: fallback_segment,
                position: 0,
            }) && rx.maybe_header is None && rx.buffered() == Seq::<Seq<u8>>::empty()
                && rx.wf()),
            metadata matches Some(m) ==> ((m@.len() == 16 ==> (r matches Ok(rx) && rx.state
                == spec_decode_state(m@) && rx.maybe_header is None && rx.buffered() == Seq::<
                Seq<u8>,
            >::empty() && rx.wf())) && (m@.len() != 16 ==> r == Err::<Receiver, QueueError>(
                QueueError::CorruptState,
            ))),
    {
        let state = match metadata {
            None => QueueState { segment: fallback_segment, position: 0 },
            Some(bytes) => match decode_state(bytes) {
                Ok(state) => state,
                Err(e) => {
                    return Err(e);
                },
            },
        };
        let rx = Receiver { state, maybe_header: None, read_and_unused: Vec::new() };
        proof {
            assert(rx.buffered() =~= Seq::<Seq<u8>>::empty());
        }
        Ok(rx)
    }

    /// What the caller must read from the segment file next: a header, or
    /// the payload of the record whose header is already in hand.
    pub fn next_need(&self) -> (need: ReadNeed)
        ensures
            self.maybe_header is None ==> need == ReadNeed::HeaderBytes,
            self.maybe_header matches Some(len) ==> need == ReadNeed::PayloadBytes(len),
    {
        match self.maybe_header {
            None => ReadNeed::HeaderBytes,
            Some(len) => ReadNeed::PayloadBytes(len),
        }
    }

    /// Feeds the four header bytes just read from the segment file. A record
    /// header is remembered, and the payload is what to read next. The
    /// end-of-segment sentinel changes nothing here: the caller must advance
    /// to the next segment and read a fresh header there. A caller that got
    /// the bytes but never made this call has changed nothing.
    pub fn accept_header(&mut self, bytes: &Vec<u8>) -> (h: Header)
        requires
            old(self).wf(),
            old(self).maybe_header is None,
            bytes@.len() == 4,
        ensures
            h == Header::spec_decode(bytes@),
            h matches Header::Record(len) ==> final(self).maybe_header == Some(len),
            h is Eof ==> final(self).maybe_header is None,
            final(self).state == old(self).state,
            final(self).buffered() == old(self).buffered(),
            final(self).wf(),
    {
        let h = Header::decode(bytes);
        match h {
            Header::Record(len) => self.maybe_header = Some(len),
            Header::Eof => (),
        }
        h
    }

    /// Feeds the payload of the record whose header was fed before. The
    /// record is now complete: the header checkpoint is cleared and the
    /// payload joins the read-but-undelivered records, behind older ones.
    pub fn accept_payload(&mut self, data: Vec<u8>)
        requires
            old(self).wf(),
            old(self).maybe_header matches Some(len) && data@.len() == len,
            records_len(old(self).buffered()) + 4 + data@.len() <= u64::MAX,
        ensures
            final(self).maybe_header is None,
            final(self).buffered() == old(self).buffered().push(data@),
            final(self).state == old(self).state,
            final(self).wf(),
    {
        proof {
            assert(data.deep_view() =~= data@);
            lemma_records_len_push(old(self).buffered(), data@);
        }
        self.maybe_header = None;
        self.read_and_unused.push(data);
        proof {
            assert(self.buffered() =~= old(self).buffered().push(data@));
        }
    }

    /// The durable encoding of the cursor as it will stand after the segment
    /// advance: next segment, position zero. The caller persists these bytes
    /// atomically *before* committing the advance with [`Self::advance`]: a
    /// crash must never find the saved cursor pointing into a segment file
    /// that was already deleted.
    pub fn advance_metadata(&self) -> (r: Vec<u8>)
        requires
            self.state.segment < u64::MAX,
        ensures
            r@ == spec_state_bytes(
                QueueState { segment: (self.state.segment + 1) as u64, position: 0 },
            ),
    {
        encode_state(&(QueueState { segment: self.state.segment + 1, position: 0 }))
    }

    /// Commits a segment advance, once the advanced cursor is durably saved:
    /// the cursor moves to the start of the next segment, and the new index
    /// is returned. The caller then opens the next segment file for tailing
    /// — and only then deletes the finished one.
    pub fn advance(&mut self) -> (next: u64)
        requires
            old(self).wf(),
            old(self).state.segment < u64::MAX,
        ensures
            final(self).state.segment == old(self).state.segment + 1,
            final(self).state.position == 0,
            next == final(self).state.segment,
            final(self).maybe_header == old(self).maybe_header,
            final(self).buffered() == old(self).buffered(),
            final(self).wf(),
    {
        self.state.advance_segment()
    }

    /// The durable encoding of the cursor as it stands: what a periodic
    /// checkpoint, or the close of the receiver, writes to the metadata
    /// file.
    pub fn save(&self) -> (r: Vec<u8>)
        ensures
            r@ == spec_state_bytes(self.state),
    {
        encode_state(&self.state)
    }

    /// The `i`-th read-but-undelivered record, oldest first — what a
    /// receive-until loop shows its predicate before deciding whether that
    /// record is consumed.
    pub fn peek(&self, i: usize) -> (r: Option<&Vec<u8>>)
        ensures
            i < self.buffered().len() ==> (r matches Some(item) && item@ == self.buffered()[i
                as int]),
            i >= self.buffered().len() ==> r is None,
    {
        if i < self.read_and_unused.len() {
            proof {
                assert(self.buffered()[i as int] =~= self.read_and_unused@[i as int]@);
            }
            Some(&self.read_and_unused[i])
        } else {
            None
        }
    }

    /// Takes the oldest read-but-undelivered record as a transactional
    /// guard, or nothing if no record is buffered yet — then the caller must
    /// fetch bytes (`next_need`, `accept_header`, `accept_payload`) and try
    /// again. The cursor does not move: it moves only when the returned
    /// guard is committed, so until then the record is not yet consumed.
    pub fn recv(&mut self) -> (r: Option<RecvGuard<Vec<u8>>>)
        requires
            old(self).wf(),
        ensures
            old(self).buffered().len() == 0 ==> (r is None && *final(self) == *old(self)),
            old(self).buffered().len() > 0 ==> (r matches Some(g) && g.item@ == old(
                self,
            ).buffered()[0] && g.len == 4 + old(self).buffered()[0].len() && final(self).buffered()
                == old(self).buffered().drop_first() && final(self).state == old(self).state
                && final(self).maybe_header == old(self).maybe_header),
            final(self).wf(),
    {
        if self.read_and_unused.len() > 0 {
            proof {
                assert(old(self).buffered()[0] =~= old(self).read_and_unused@[0]@);
                lemma_records_len_split(old(self).buffered(), 1);
                lemma_records_len_nonneg(old(self).buffered().take(1));
                assert(old(self).buffered().take(1) =~= seq![old(self).buffered()[0]]);
                crate::records::lemma_records_len_first(seq![old(self).buffered()[0]]);
                lemma_records_len_nonneg(seq![old(self).buffered()[0]].drop_first());
            }
            let data = self.read_and_unused.remove(0);
            let len = 4 + data.len() as u64;
            proof {
                assert(self.buffered() =~= old(self).buffered().drop_first());
                assert(self.buffered() =~= old(self).buffered().skip(1));
            }
            Some(RecvGuard { len, item: data })
        } else {
            None
        }
    }

    /// Moves up to `n` of the oldest read-but-undelivered records out, in
    /// order. Synchronous on purpose: a receive operation awaits only while
    /// filling the buffer, then drains after its last suspension point —
    /// which is why abandoning the operation midway loses nothing.
    pub fn drain(&mut self, n: usize) -> (r: Vec<Vec<u8>>)
        requires
            old(self).wf(),
        ensures
            n <= old(self).buffered().len() ==> (r.deep_view() == old(self).buffered().take(
                n as int,
            ) && final(self).buffered() == old(self).buffered().skip(n as int)),
            n > old(self).buffered().len() ==> (r.deep_view() == old(self).buffered()
                && final(self).buffered() == Seq::<Seq<u8>>::empty()),
            final(self).state == old(self).state,
            final(self).maybe_header == old(self).maybe_header,
            final(self).wf(),
    {
        let ghost all = old(self).buffered();
        let mut out: Vec<Vec<u8>> = Vec::new();
        proof {
            assert(out.deep_view() =~= all.take(0));
            assert(self.buffered() =~= all.skip(0));
        }
        while out.len() < n && self.read_and_unused.len() > 0
            invariant
                old(self).wf(),
                all == old(self).buffered(),
                out@.len() <= n,
                out@.len() <= all.len(),
                out.deep_view() == all.take(out@.len() as int),
                self.buffered() == all.skip(out@.len() as int),
                self.state == old(self).state,
                self.maybe_header == old(self).maybe_header,
            decreases n - out@.len(),
        {
            let ghost i = out@.len() as int;
            let ghost vcur = self.read_and_unused@;
            proof {
                assert(self.buffered().len() == vcur.len());
                assert(all.skip(i).len() == all.len() - i);
                assert(i < all.len());
                assert(all.skip(i)[0] == all[i]);
                assert(self.buffered()[0] == vcur[0].deep_view());
                assert(vcur[0].deep_view() =~= vcur[0]@);
            }
            let item = self.read_and_unused.remove(0);
            proof {
                assert(item == vcur[0]);
                assert(item.deep_view() =~= item@);
                assert(item@ == all[i]);
                assert(self.read_and_unused@ =~= vcur.subrange(1, vcur.len() as int));
                assert forall|j: int| 0 <= j < self.buffered().len() implies self.buffered()[j]
                    == all.skip(i + 1)[j] by {
                    assert(self.read_and_unused@[j] == vcur[j + 1]);
                    assert(self.buffered()[j] == vcur[j + 1].deep_view());
                    assert(all.skip(i)[j + 1] == all[i + 1 + j]);
                    assert(all.skip(i + 1)[j] == all[i + 1 + j]);
                }
                assert(self.buffered() =~= all.skip(i + 1));
                assert(all.take(i).push(all[i]) =~= all.take(i + 1));
            }
            out.push(item);
            proof {
                assert(out.deep_view() =~= all.take(i).push(all[i]));
            }
        }
        proof {
            let m = out@.len() as int;
            if n > all.len() {
                assert(all.skip(m).len() == 0);
                assert(m == all.len());
                assert(all.take(m) =~= all);
                assert(self.buffered() =~= Seq::<Seq<u8>>::empty());
            }
            lemma_records_len_split(all, m);
            lemma_records_len_nonneg(all.take(m));
        }
        out
    }

    /// Takes exactly `n` records as one transactional guard, oldest first —
    /// or nothing, if fewer than `n` are buffered yet: then the caller must
    /// fetch more records and try again. The cursor moves only when the
    /// guard is committed.
    pub fn recv_batch(&mut self, n: usize) -> (r: Option<RecvGuard<Vec<Vec<u8>>>>)
        requires
            old(self).wf(),
        ensures
            old(self).buffered().len() < n ==> (r is None && *final(self) == *old(self)),
            old(self).buffered().len() >= n ==> (r matches Some(g) && g.item.deep_view() == old(
                self,
            ).buffered().take(n as int) && g.len == records_len(
                old(self).buffered().take(n as int),
            ) && final(self).buffered() == old(self).buffered().skip(n as int) && final(self).state
                == old(self).state && final(self).maybe_header == old(self).maybe_header),
            final(self).wf(),
    {
        if n <= self.read_and_unused.len() {
            proof {
                lemma_records_len_split(old(self).buffered(), n as int);
                lemma_records_len_nonneg(old(self).buffered().skip(n as int));
            }
            let items = self.drain(n);
            let g = RecvGuard::batch(items);
            Some(g)
        } else {
            None
        }
    }
}

} // verus!
