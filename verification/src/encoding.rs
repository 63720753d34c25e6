//! Little-endian byte encodings for the fixed-width integers of the on-disk
//! format: record headers carry a `u32`, the persisted read cursor two `u64`s.

use vstd::prelude::*;

verus! {

/// The four bytes of a 32-bit value, least significant first.
pub open spec fn spec_u32_le(x: u32) -> Seq<u8> {
    seq![
        (x & 0xff) as u8,
        ((x >> 8) & 0xff) as u8,
        ((x >> 16) & 0xff) as u8,
        ((x >> 24) & 0xff) as u8,
    ]
}

/// The 32-bit value stored in four bytes, least significant first.
pub open spec fn spec_u32_of_le(s: Seq<u8>) -> u32
    recommends
        s.len() == 4,
{
    (s[0] as u32) | ((s[1] as u32) << 8) | ((s[2] as u32) << 16) | ((s[3] as u32) << 24)
}

proof fn u32_field_bounds(x: u32)
    by (bit_vector)
    ensures
        x & 0xff < 256,
        (x >> 8) & 0xff < 256,
        (x >> 16) & 0xff < 256,
        (x >> 24) & 0xff < 256,
        ((x & 0xff) | (((x >> 8) & 0xff) << 8) | (((x >> 16) & 0xff) << 16) | (((x >> 24) & 0xff)
            << 24)) == x,
{
}

proof fn u32_field_values(x: u32, a: u32, b: u32, c: u32, d: u32)
    by (bit_vector)
    requires
        a < 256,
        b < 256,
        c < 256,
        d < 256,
        x == a | (b << 8) | (c << 16) | (d << 24),
    ensures
        x & 0xff == a,
        (x >> 8) & 0xff == b,
        (x >> 16) & 0xff == c,
        (x >> 24) & 0xff == d,
{
}

/// A 32-bit value survives the trip through its four-byte encoding.
pub proof fn lemma_u32_le_round_trip(x: u32)
    ensures
        spec_u32_le(x).len() == 4,
        spec_u32_of_le(spec_u32_le(x)) == x,
{
    u32_field_bounds(x);
}

/// Four bytes survive the trip through the 32-bit value they store.
pub proof fn lemma_u32_of_le_round_trip(s: Seq<u8>)
    requires
        s.len() == 4,
    ensures
        spec_u32_le(spec_u32_of_le(s)) == s,
{
    let x = spec_u32_of_le(s);
    u32_field_values(x, s[0] as u32, s[1] as u32, s[2] as u32, s[3] as u32);
    assert(spec_u32_le(x) =~= s);
}

/// Appends the four-byte little-endian encoding of `x`.
pub fn u32_le_write(x: u32, out: &mut Vec<u8>)
    ensures
        final(out)@ == old(out)@ + spec_u32_le(x),
{
    proof {
        u32_field_bounds(x);
    }
    out.push((x & 0xff) as u8);
    out.push(((x >> 8) & 0xff) as u8);
    out.push(((x >> 16) & 0xff) as u8);
    out.push(((x >> 24) & 0xff) as u8);
    assert(out@ =~= old(out)@ + spec_u32_le(x));
}

/// The eight bytes of a 64-bit value, least significant first.
pub open spec fn spec_u64_le(x: u64) -> Seq<u8> {
    seq![
        (x & 0xff) as u8,
        ((x >> 8) & 0xff) as u8,
        ((x >> 16) & 0xff) as u8,
        ((x >> 24) & 0xff) as u8,
        ((x >> 32) & 0xff) as u8,
        ((x >> 40) & 0xff) as u8,
        ((x >> 48) & 0xff) as u8,
        ((x >> 56) & 0xff) as u8,
    ]
}

/// The 64-bit value stored in eight bytes, least significant first.
pub open spec fn spec_u64_of_le(s: Seq<u8>) -> u64
    recommends
        s.len() == 8,
{
    (s[0] as u64) | ((s[1] as u64) << 8) | ((s[2] as u64) << 16) | ((s[3] as u64) << 24) | ((
    s[4] as u64) << 32) | ((s[5] as u64) << 40) | ((s[6] as u64) << 48) | ((s[7] as u64) << 56)
}

proof fn u64_field_bounds(x: u64)
    by (bit_vector)
    ensures
        x & 0xff < 256,
        (x >> 8) & 0xff < 256,
        (x >> 16) & 0xff < 256,
        (x >> 24) & 0xff < 256,
        (x >> 32) & 0xff < 256,
        (x >> 40) & 0xff < 256,
        (x >> 48) & 0xff < 256,
        (x >> 56) & 0xff < 256,
        ((x & 0xff) | (((x >> 8) & 0xff) << 8) | (((x >> 16) & 0xff) << 16) | (((x >> 24) & 0xff)
            << 24) | (((x >> 32) & 0xff) << 32) | (((x >> 40) & 0xff) << 40) | (((x >> 48) & 0xff)
            << 48) | (((x >> 56) & 0xff) << 56)) == x,
{
}

proof fn u64_field_values(x: u64, a: u64, b: u64, c: u64, d: u64, e: u64, f: u64, g: u64, h: u64)
    by (bit_vector)
    requires
        a < 256,
        b < 256,
        c < 256,
        d < 256,
        e < 256,
        f < 256,
        g < 256,
        h < 256,
        x == a | (b << 8) | (c << 16) | (d << 24) | (e << 32) | (f << 40) | (g << 48) | (h << 56),
    ensures
        x & 0xff == a,
        (x >> 8) & 0xff == b,
        (x >> 16) & 0xff == c,
        (x >> 24) & 0xff == d,
        (x >> 32) & 0xff == e,
        (x >> 40) & 0xff == f,
        (x >> 48) & 0xff == g,
        (x >> 56) & 0xff == h,
{
}

/// A 64-bit value survives the trip through its eight-byte encoding.
pub proof fn lemma_u64_le_round_trip(x: u64)
    ensures
        spec_u64_le(x).len() == 8,
        spec_u64_of_le(spec_u64_le(x)) == x,
{
    u64_field_bounds(x);
}

/// Eight bytes survive the trip through the 64-bit value they store.
pub proof fn lemma_u64_of_le_round_trip(s: Seq<u8>)
    requires
        s.len() == 8,
    ensures
        spec_u64_le(spec_u64_of_le(s)) == s,
{
    let x = spec_u64_of_le(s);
    u64_field_values(
        x,
        s[0] as u64,
        s[1] as u64,
        s[2] as u64,
        s[3] as u64,
        s[4] as u64,
        s[5] as u64,
        s[6] as u64,
        s[7] as u64,
    );
    assert(spec_u64_le(x) =~= s);
}

/// Appends the eight-byte little-endian encoding of `x`.
pub fn u64_le_write(x: u64, out: &mut Vec<u8>)
    ensures
        final(out)@ == old(out)@ + spec_u64_le(x),
{
    proof {
        u64_field_bounds(x);
    }
    out.push((x & 0xff) as u8);
    out.push(((x >> 8) & 0xff) as u8);
    out.push(((x >> 16) & 0xff) as u8);
    out.push(((x >> 24) & 0xff) as u8);
    out.push(((x >> 32) & 0xff) as u8);
    out.push(((x >> 40) & 0xff) as u8);
    out.push(((x >> 48) & 0xff) as u8);
    out.push(((x >> 56) & 0xff) as u8);
    assert(out@ =~= old(out)@ + spec_u64_le(x));
}

/// Reads the 64-bit value stored at `offset`, least significant byte first.
pub fn u64_le_read(bytes: &Vec<u8>, offset: usize) -> (x: u64)
    requires
        offset + 8 <= bytes@.len(),
    ensures
        x == spec_u64_of_le(bytes@.subrange(offset as int, offset as int + 8)),
{
    let n = bytes.len();
    assert(offset + 8 <= n);
    let b0 = bytes[offset] as u64;
    let b1 = bytes[offset + 1] as u64;
    let b2 = bytes[offset + 2] as u64;
    let b3 = bytes[offset + 3] as u64;
    let b4 = bytes[offset + 4] as u64;
    let b5 = bytes[offset + 5] as u64;
    let b6 = bytes[offset + 6] as u64;
    let b7 = bytes[offset + 7] as u64;
    b0 | (b1 << 8) | (b2 << 16) | (b3 << 24) | (b4 << 32) | (b5 << 40) | (b6 << 48) | (b7 << 56)
}

/// Reads the 32-bit value stored at `offset`, least significant byte first.
pub fn u32_le_read(bytes: &Vec<u8>, offset: usize) -> (x: u32)
    requires
        offset + 4 <= bytes@.len(),
    ensures
        x == spec_u32_of_le(bytes@.subrange(offset as int, offset as int + 4)),
{
    let n = bytes.len();
    assert(offset + 4 <= n);
    let b0 = bytes[offset] as u32;
    let b1 = bytes[offset + 1] as u32;
    let b2 = bytes[offset + 2] as u32;
    let b3 = bytes[offset + 3] as u32;
    b0 | (b1 << 8) | (b2 << 16) | (b3 << 24)
}

} // verus!
