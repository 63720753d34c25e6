//! The transactional receive guard: the scoped token of one receive. A
//! record counts as consumed only when its guard is committed — only then
//! does the receiver's cursor advance past its bytes. A guard given up
//! instead is rolled back: the records return to the front of the receiver's
//! buffer and the very next receive delivers them again.

use vstd::prelude::*;

use crate::header::EOF_SENTINEL;
use crate::receiver::Receiver;
use crate::records::{
    lemma_records_len_concat, lemma_records_len_first, lemma_records_len_nonneg,
    lemma_records_len_take_le, lemma_records_len_take_step, payloads_fit, records_len,
};

verus! {

/// One pending receive: the delivered item(s), and the number of segment
/// bytes — four header bytes per record plus the payloads — that committing
/// it consumes.
pub struct RecvGuard<T> {
    /// The segment bytes this receive spans.
    pub len: u64,
    /// What was received: one payload, or a batch of payloads.
    pub item: T,
}

impl<T> RecvGuard<T> {
    /// Commits the receive: the cursor advances past the consumed bytes, and
    /// only through this does it ever advance. Nothing else of the receiver
    /// changes — in particular, later records stay buffered, in order.
    pub fn commit(self, receiver: &mut Receiver)
        requires
            old(receiver).state.position + self.len <= u64::MAX,
        ensures
            final(receiver).state.segment == old(receiver).state.segment,
            final(receiver).state.position == old(receiver).state.position + self.len,
            final(receiver).maybe_header == old(receiver).maybe_header,
            final(receiver).buffered() == old(receiver).buffered(),
    {
        receiver.state.advance_position(self.len);
    }

    /// Commits the receive and hands the item out. Past this point there is
    /// no rolling back.
    pub fn into_inner(self, receiver: &mut Receiver) -> (r: T)
        requires
            old(receiver).state.position + self.len <= u64::MAX,
        ensures
            r == self.item,
            final(receiver).state.segment == old(receiver).state.segment,
            final(receiver).state.position == old(receiver).state.position + self.len,
            final(receiver).maybe_header == old(receiver).maybe_header,
            final(receiver).buffered() == old(receiver).buffered(),
    {
        let RecvGuard { len, item } = self;
        receiver.state.advance_position(len);
        item
    }
}

impl RecvGuard<Vec<u8>> {
    /// Rolls the receive back: the record returns to the front of the
    /// receiver's buffer, so the next receive delivers it again. The cursor
    /// never moved, so there is nothing else to undo.
    pub fn rollback(self, receiver: &mut Receiver)
        requires
            old(receiver).wf(),
            self.item@.len() < EOF_SENTINEL,
            records_len(old(receiver).buffered()) + 4 + self.item@.len() <= u64::MAX,
        ensures
            final(receiver).buffered() == seq![self.item@] + old(receiver).buffered(),
            final(receiver).state == old(receiver).state,
            final(receiver).maybe_header == old(receiver).maybe_header,
            final(receiver).wf(),
    {
        let RecvGuard { len: _, item } = self;
        proof {
            assert(item.deep_view() =~= item@);
        }
        receiver.read_and_unused.insert(0, item);
        proof {
            let restored = seq![self.item@] + old(receiver).buffered();
            assert(receiver.buffered() =~= restored);
            lemma_records_len_first(restored);
            assert(restored.drop_first() =~= old(receiver).buffered());
        }
    }
}

impl RecvGuard<Vec<Vec<u8>>> {
    /// A guard over records just drained from a receiver, with the consumed
    /// bytes accounted: four header bytes per record plus the payloads.
    pub fn batch(items: Vec<Vec<u8>>) -> (g: RecvGuard<Vec<Vec<u8>>>)
        requires
            records_len(items.deep_view()) <= u64::MAX,
        ensures
            g.item == items,
            g.len == records_len(items.deep_view()),
    {
        let ghost all = items.deep_view();
        proof {
            lemma_records_len_nonneg(all);
        }
        let mut total: u64 = 0;
        let n = items.len();
        let mut i: usize = 0;
        while i < n
            invariant
                n == items@.len(),
                all == items.deep_view(),
                records_len(all) <= u64::MAX,
                i <= n,
                total == records_len(all.take(i as int)),
            decreases n - i,
        {
            proof {
                assert(all[i as int] =~= items@[i as int]@);
                lemma_records_len_take_step(all, i as int);
                lemma_records_len_take_le(all, i as int + 1);
                lemma_records_len_nonneg(all.take(i as int));
            }
            total = total + (4 + items[i].len() as u64);
            i = i + 1;
        }
        proof {
            assert(all.take(n as int) =~= all);
        }
        RecvGuard { len: total, item: items }
    }

    /// Rolls a batch receive back: the records return to the front of the
    /// receiver's buffer, in their original order, so the next receives
    /// deliver them again. The cursor never moved.
    pub fn rollback(self, receiver: &mut Receiver)
        requires
            old(receiver).wf(),
            payloads_fit(self.item.deep_view()),
            records_len(self.item.deep_view()) + records_len(old(receiver).buffered())
                <= u64::MAX,
        ensures
            final(receiver).buffered() == self.item.deep_view() + old(receiver).buffered(),
            final(receiver).state == old(receiver).state,
            final(receiver).maybe_header == old(receiver).maybe_header,
            final(receiver).wf(),
    {
        let ghost returned = self.item.deep_view();
        let ghost all = returned + old(receiver).buffered();
        proof {
            lemma_records_len_concat(returned, old(receiver).buffered());
        }
        let RecvGuard { len: _, item } = self;
        let mut rest = item;
        while rest.len() > 0
            invariant
                old(receiver).wf(),
                all == returned + old(receiver).buffered(),
                records_len(all) <= u64::MAX,
                payloads_fit(returned),
                rest@.len() <= returned.len(),
                rest.deep_view() == returned.take(rest@.len() as int),
                receiver.buffered() == returned.skip(rest@.len() as int) + old(
                    receiver,
                ).buffered(),
                receiver.state == old(receiver).state,
                receiver.maybe_header == old(receiver).maybe_header,
            decreases rest@.len(),
        {
            let ghost k = rest@.len() as int;
            proof {
                assert(rest.deep_view()[k - 1] == returned.take(k)[k - 1]);
                assert(rest@[k - 1].deep_view() =~= rest@[k - 1]@);
            }
            let item = match rest.pop() {
                Some(item) => item,
                None => vstd::pervasive::unreached(),
            };
            let ghost vprev = receiver.read_and_unused@;
            let ghost bprev = receiver.buffered();
            proof {
                assert(rest.deep_view() =~= returned.take(k - 1));
                assert(item@ == returned[k - 1]);
            }
            receiver.read_and_unused.insert(0, item);
            proof {
                assert(item.deep_view() =~= item@);
                assert(receiver.read_and_unused@ =~= seq![item] + vprev);
                let target = returned.skip(k - 1) + old(receiver).buffered();
                assert(returned.skip(k).len() == returned.len() - k);
                assert(returned.skip(k - 1).len() == returned.len() - k + 1);
                assert(bprev.len() == vprev.len());
                assert(receiver.buffered().len() == vprev.len() + 1);
                assert(bprev.len() == returned.skip(k).len() + old(receiver).buffered().len());
                assert(target.len() == returned.skip(k - 1).len() + old(
                    receiver,
                ).buffered().len());
                assert forall|j: int| 0 <= j < receiver.buffered().len() implies receiver.buffered()[j]
                    == target[j] by {
                    assert(returned.skip(k).len() == returned.len() - k);
                    assert(returned.skip(k - 1).len() == returned.len() - k + 1);
                    if j == 0 {
                        assert(receiver.buffered()[0] == item.deep_view());
                        assert(target[0] == returned[k - 1]);
                    } else {
                        assert(receiver.read_and_unused@[j] == vprev[j - 1]);
                        assert(receiver.buffered()[j] == vprev[j - 1].deep_view());
                        assert(bprev[j - 1] == vprev[j - 1].deep_view());
                        assert(bprev[j - 1] == (returned.skip(k) + old(receiver).buffered())[j
                            - 1]);
                        let a1 = returned.skip(k);
                        let a0 = returned.skip(k - 1);
                        let b = old(receiver).buffered();
                        assert(j - 1 < a1.len() + b.len());
                        if j - 1 < a1.len() {
                            assert((a1 + b)[j - 1] == a1[j - 1]);
                            assert(a1[j - 1] == returned[k + j - 1]);
                            assert(target[j] == a0[j]);
                            assert(a0[j] == returned[k - 1 + j]);
                        } else {
                            assert((a1 + b)[j - 1] == b[j - 1 - a1.len()]);
                            assert(target[j] == b[j - a0.len()]);
                            assert(j - 1 - a1.len() == j - a0.len());
                        }
                    }
                }
                assert(receiver.buffered() =~= target);
            }
        }
        proof {
            assert(receiver.buffered() =~= all);
            assert(forall|i: int|
                0 <= i < all.len() ==> #[trigger] all[i].len() < EOF_SENTINEL) by {
                assert(forall|i: int|
                    0 <= i < returned.len() ==> #[trigger] returned[i].len() < EOF_SENTINEL);
            }
        }
    }
}

/// Dropping a receive without committing it is invisible: rolling back the
/// guard that `recv` produced restores the receiver exactly — the same
/// buffered records in the same order, the same pending header, and a cursor
/// that never moved. The next receive delivers the same record again.
pub proof fn lemma_rollback_restores(
    r0: Receiver,
    g: RecvGuard<Vec<u8>>,
    r1: Receiver,
    r2: Receiver,
)
    requires
        r0.buffered().len() > 0,
        // what `recv` ensures, receiving g out of r0 and leaving r1
        g.item@ == r0.buffered()[0],
        r1.buffered() == r0.buffered().drop_first(),
        r1.state == r0.state,
        r1.maybe_header == r0.maybe_header,
        // what `rollback` ensures, returning g into r1 and leaving r2
        r2.buffered() == seq![g.item@] + r1.buffered(),
        r2.state == r1.state,
        r2.maybe_header == r1.maybe_header,
    ensures
        r2.buffered() == r0.buffered(),
        r2.state == r0.state,
        r2.maybe_header == r0.maybe_header,
{
    assert(seq![r0.buffered()[0]] + r0.buffered().drop_first() =~= r0.buffered());
}

/// Committing is invisible to the record stream: a commit moves only the
/// cursor, so after receiving and committing one record the next receive
/// delivers the next record — unrelated receives walk the queue in order.
pub proof fn lemma_commit_then_next(
    r0: Receiver,
    g: RecvGuard<Vec<u8>>,
    r1: Receiver,
    r2: Receiver,
)
    requires
        r0.buffered().len() >= 2,
        // what `recv` ensures, receiving g out of r0 and leaving r1
        g.item@ == r0.buffered()[0],
        r1.buffered() == r0.buffered().drop_first(),
        // what `commit` ensures, committing g against r1 and leaving r2
        r2.buffered() == r1.buffered(),
    ensures
        r2.buffered().len() >= 1,
        r2.buffered()[0] == r0.buffered()[1],
{
}

} // verus!
