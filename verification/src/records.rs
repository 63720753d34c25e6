//! The record layout of a segment: each record is a 4-byte little-endian
//! length header followed by that many payload bytes; a sealed segment ends
//! with the end-of-segment sentinel. This module states what a stretch of
//! segment bytes means — which payloads it carries — and proves that framing
//! and parsing are inverse: what the sender frames is exactly what a reader
//! of those bytes gets back, in order.

use vstd::prelude::*;

use crate::encoding::{lemma_u32_le_round_trip, spec_u32_le, spec_u32_of_le};
use crate::header::EOF_SENTINEL;

verus! {

/// The bytes of one record: the length header, then the payload.
pub open spec fn spec_frame(payload: Seq<u8>) -> Seq<u8>
    recommends
        payload.len() < EOF_SENTINEL,
{
    spec_u32_le(payload.len() as u32) + payload
}

/// The four bytes that seal a segment.
pub open spec fn spec_eof_bytes() -> Seq<u8> {
    spec_u32_le(EOF_SENTINEL)
}

/// Every payload is short enough to be framed.
pub open spec fn payloads_fit(payloads: Seq<Seq<u8>>) -> bool {
    forall|i: int| 0 <= i < payloads.len() ==> #[trigger] payloads[i].len() < EOF_SENTINEL
}

/// The bytes of a sequence of records, one frame after the other.
pub open spec fn spec_frames(payloads: Seq<Seq<u8>>) -> Seq<u8>
    decreases payloads.len(),
{
    if payloads.len() == 0 {
        Seq::empty()
    } else {
        spec_frames(payloads.drop_last()) + spec_frame(payloads.last())
    }
}

/// The number of bytes a sequence of records occupies: four header bytes per
/// payload, plus the payload bytes.
pub open spec fn records_len(payloads: Seq<Seq<u8>>) -> int
    decreases payloads.len(),
{
    if payloads.len() == 0 {
        0
    } else {
        records_len(payloads.drop_last()) + 4 + payloads.last().len()
    }
}

/// The payloads stored at the front of `bytes`. Parsing stops at the
/// end-of-segment sentinel, and at a trailing partial record — bytes that a
/// still-appending writer has not completed yet.
pub open spec fn parse_records(bytes: Seq<u8>) -> Seq<Seq<u8>>
    decreases bytes.len(),
{
    if bytes.len() < 4 {
        Seq::empty()
    } else {
        let len = spec_u32_of_le(bytes.subrange(0, 4)) as int;
        if len == EOF_SENTINEL {
            Seq::empty()
        } else if bytes.len() >= 4 + len {
            seq![bytes.subrange(4, 4 + len)] + parse_records(
                bytes.subrange(4 + len, bytes.len() as int),
            )
        } else {
            Seq::empty()
        }
    }
}

/// A sequence of records never occupies a negative number of bytes.
pub proof fn lemma_records_len_nonneg(payloads: Seq<Seq<u8>>)
    ensures
        records_len(payloads) >= 0,
    decreases payloads.len(),
{
    if payloads.len() > 0 {
        lemma_records_len_nonneg(payloads.drop_last());
    }
}

/// Appending one payload adds one frame's worth of bytes.
pub proof fn lemma_records_len_push(payloads: Seq<Seq<u8>>, p: Seq<u8>)
    ensures
        records_len(payloads.push(p)) == records_len(payloads) + 4 + p.len(),
{
    assert(payloads.push(p).drop_last() =~= payloads);
    assert(payloads.push(p).last() == p);
}

/// Extending a prefix by one payload adds one frame's worth of bytes.
pub proof fn lemma_records_len_take_step(payloads: Seq<Seq<u8>>, i: int)
    requires
        0 <= i < payloads.len(),
    ensures
        records_len(payloads.take(i + 1)) == records_len(payloads.take(i)) + 4
            + payloads[i].len(),
{
    assert(payloads.take(i + 1).drop_last() =~= payloads.take(i));
    assert(payloads.take(i + 1).last() == payloads[i]);
}

/// A prefix of a record sequence occupies no more bytes than the whole.
pub proof fn lemma_records_len_take_le(payloads: Seq<Seq<u8>>, i: int)
    requires
        0 <= i <= payloads.len(),
    ensures
        records_len(payloads.take(i)) <= records_len(payloads),
    decreases payloads.len() - i,
{
    if i == payloads.len() {
        assert(payloads.take(i) =~= payloads);
    } else {
        lemma_records_len_take_step(payloads, i);
        lemma_records_len_take_le(payloads, i + 1);
    }
}

/// A non-empty sequence of records occupies its first frame's bytes, then
/// the rest.
pub proof fn lemma_records_len_first(payloads: Seq<Seq<u8>>)
    requires
        payloads.len() > 0,
    ensures
        records_len(payloads) == 4 + payloads[0].len() + records_len(payloads.drop_first()),
    decreases payloads.len(),
{
    if payloads.len() == 1 {
        assert(payloads.drop_last() =~= Seq::<Seq<u8>>::empty());
        assert(payloads.drop_first() =~= Seq::<Seq<u8>>::empty());
    } else {
        let init = payloads.drop_last();
        lemma_records_len_first(init);
        assert(payloads.drop_first().drop_last() =~= init.drop_first());
        assert(payloads.drop_first().last() == payloads.last());
    }
}

/// Record byte counts add up over concatenation.
pub proof fn lemma_records_len_concat(a: Seq<Seq<u8>>, b: Seq<Seq<u8>>)
    ensures
        records_len(a + b) == records_len(a) + records_len(b),
    decreases b.len(),
{
    if b.len() == 0 {
        assert(a + b =~= a);
    } else {
        lemma_records_len_concat(a, b.drop_last());
        assert((a + b).drop_last() =~= a + b.drop_last());
        assert((a + b).last() == b.last());
    }
}

/// Splitting a record sequence splits its byte count.
pub proof fn lemma_records_len_split(payloads: Seq<Seq<u8>>, i: int)
    requires
        0 <= i <= payloads.len(),
    ensures
        records_len(payloads) == records_len(payloads.take(i)) + records_len(payloads.skip(i)),
{
    lemma_records_len_concat(payloads.take(i), payloads.skip(i));
    assert(payloads.take(i) + payloads.skip(i) =~= payloads);
}

/// Framing one more payload appends its frame to the bytes so far.
pub proof fn lemma_frames_push(payloads: Seq<Seq<u8>>, p: Seq<u8>)
    ensures
        spec_frames(payloads.push(p)) == spec_frames(payloads) + spec_frame(p),
{
    assert(payloads.push(p).drop_last() =~= payloads);
    assert(payloads.push(p).last() == p);
}

/// The frames of a non-empty sequence start with the first payload's frame.
proof fn lemma_frames_first(payloads: Seq<Seq<u8>>)
    requires
        payloads.len() > 0,
    ensures
        spec_frames(payloads) == spec_frame(payloads[0]) + spec_frames(payloads.drop_first()),
    decreases payloads.len(),
{
    if payloads.len() == 1 {
        assert(payloads.drop_last() =~= Seq::<Seq<u8>>::empty());
        assert(payloads.drop_first() =~= Seq::<Seq<u8>>::empty());
        assert(spec_frames(payloads) =~= spec_frame(payloads[0]) + spec_frames(
            payloads.drop_first(),
        ));
    } else {
        let init = payloads.drop_last();
        lemma_frames_first(init);
        assert(payloads.drop_first().drop_last() =~= init.drop_first());
        assert(payloads.drop_first().last() == payloads.last());
        assert(spec_frames(payloads) =~= spec_frame(payloads[0]) + spec_frames(
            payloads.drop_first(),
        ));
    }
}

/// The sequencing law of the record layout: the frames of `payloads`,
/// followed by any further bytes, parse to exactly `payloads` followed by
/// whatever the further bytes parse to. What one side frames, the other side
/// reads back — the same bytes, in the same order.
pub proof fn lemma_parse_frames(payloads: Seq<Seq<u8>>, rest: Seq<u8>)
    requires
        payloads_fit(payloads),
    ensures
        parse_records(spec_frames(payloads) + rest) == payloads + parse_records(rest),
    decreases payloads.len(),
{
    if payloads.len() == 0 {
        assert(spec_frames(payloads) + rest =~= rest);
        assert(payloads + parse_records(rest) =~= parse_records(rest));
    } else {
        let p0 = payloads[0];
        let tail = payloads.drop_first();
        let len0 = p0.len() as u32;
        lemma_frames_first(payloads);
        let inner = spec_frames(tail) + rest;
        let b = spec_frames(payloads) + rest;
        assert(b =~= spec_frame(p0) + inner);
        lemma_u32_le_round_trip(len0);
        assert(b.subrange(0, 4) =~= spec_u32_le(len0));
        assert(spec_u32_of_le(b.subrange(0, 4)) == len0);
        assert(len0 != EOF_SENTINEL);
        assert(b.len() >= 4 + len0);
        assert(b.subrange(4, 4 + len0 as int) =~= p0);
        assert(b.subrange(4 + len0 as int, b.len() as int) =~= inner);
        assert(parse_records(b) == seq![p0] + parse_records(inner));
        assert(payloads_fit(tail));
        lemma_parse_frames(tail, rest);
        assert(seq![p0] + (tail + parse_records(rest)) =~= payloads + parse_records(rest));
    }
}

/// Framing and parsing are inverse: a framed payload sequence parses back to
/// itself. Records are delivered exactly as sent, first in, first out.
pub proof fn lemma_frames_round_trip(payloads: Seq<Seq<u8>>)
    requires
        payloads_fit(payloads),
    ensures
        parse_records(spec_frames(payloads)) == payloads,
{
    lemma_parse_frames(payloads, Seq::empty());
    assert(spec_frames(payloads) + Seq::<u8>::empty() =~= spec_frames(payloads));
    assert(payloads + parse_records(Seq::empty()) =~= payloads);
}

/// One sent record comes back as exactly its payload, whether or not the
/// segment was sealed right behind it.
pub proof fn lemma_send_round_trip(payload: Seq<u8>)
    requires
        payload.len() < EOF_SENTINEL,
    ensures
        parse_records(spec_frame(payload)) == seq![payload],
        parse_records(spec_frame(payload) + spec_eof_bytes()) == seq![payload],
{
    assert(seq![payload].drop_last() =~= Seq::<Seq<u8>>::empty());
    assert(seq![payload].last() == payload);
    assert(spec_frames(Seq::<Seq<u8>>::empty()) =~= Seq::<u8>::empty());
    assert(Seq::<u8>::empty() + spec_frame(payload) =~= spec_frame(payload));
    assert(spec_frames(seq![payload]) =~= spec_frame(payload));
    lemma_frames_round_trip(seq![payload]);
    lemma_sealed_segment_round_trip(seq![payload]);
}

/// A sealed segment — frames followed by the end-of-segment sentinel —
/// parses back to exactly the payloads it was written from.
pub proof fn lemma_sealed_segment_round_trip(payloads: Seq<Seq<u8>>)
    requires
        payloads_fit(payloads),
    ensures
        parse_records(spec_frames(payloads) + spec_eof_bytes()) == payloads,
{
    lemma_parse_frames(payloads, spec_eof_bytes());
    lemma_u32_le_round_trip(EOF_SENTINEL);
    assert(spec_eof_bytes().subrange(0, 4) =~= spec_eof_bytes());
    assert(parse_records(spec_eof_bytes()) =~= Seq::<Seq<u8>>::empty());
    assert(payloads + parse_records(spec_eof_bytes()) =~= payloads);
}

} // verus!
