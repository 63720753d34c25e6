//! The 4-byte record header: a little-endian payload length, with the single
//! value `0xFFFF_FFFF` reserved as the end-of-segment sentinel. The encoding
//! is byte-for-byte stable; it is part of the on-disk interface.

use vstd::prelude::*;

use crate::encoding::{
    lemma_u32_le_round_trip, lemma_u32_of_le_round_trip, spec_u32_le, spec_u32_of_le, u32_le_read,
    u32_le_write,
};

verus! {

/// The reserved header value that seals a segment: no record is this long.
pub const EOF_SENTINEL: u32 = 0xFFFF_FFFF;

/// A decoded record header: either the length of the payload that follows,
/// or the sentinel that marks a sealed segment.
#[derive(Clone, Copy, Debug, PartialEq, Eq, Structural)]
pub enum Header {
    Record(u32),
    Eof,
}

impl Header {
    /// The 32-bit value this header is stored as.
    pub open spec fn spec_value(self) -> u32 {
        match self {
            Header::Record(len) => len,
            Header::Eof => EOF_SENTINEL,
        }
    }

    /// The four bytes this header is stored as.
    pub open spec fn spec_bytes(self) -> Seq<u8> {
        spec_u32_le(self.spec_value())
    }

    /// A record header never carries the sentinel as its length.
    pub open spec fn wf(self) -> bool {
        self matches Header::Record(len) ==> len < EOF_SENTINEL
    }

    /// The header stored in four bytes.
    pub open spec fn spec_decode(s: Seq<u8>) -> Header {
        if spec_u32_of_le(s) == EOF_SENTINEL {
            Header::Eof
        } else {
            Header::Record(spec_u32_of_le(s))
        }
    }

    /// A header for a payload of `len` bytes.
    pub fn new(len: u32) -> (h: Header)
        requires
            len < EOF_SENTINEL,
        ensures
            h == Header::Record(len),
    {
        Header::Record(len)
    }

    /// The payload length, or the sentinel value for an end-of-segment header.
    pub fn len(&self) -> (len: u32)
        ensures
            len == self.spec_value(),
    {
        match self {
            Header::Record(len) => *len,
            Header::Eof => EOF_SENTINEL,
        }
    }

    /// Whether this header seals its segment.
    pub fn is_eof(&self) -> (b: bool)
        ensures
            b == (*self is Eof),
    {
        match self {
            Header::Eof => true,
            Header::Record(_) => false,
        }
    }

    /// The four-byte little-endian encoding of this header.
    pub fn encode(&self) -> (r: Vec<u8>)
        ensures
            r@ == self.spec_bytes(),
            r@.len() == 4,
    {
        let mut out: Vec<u8> = Vec::new();
        u32_le_write(self.len(), &mut out);
        proof {
            lemma_u32_le_round_trip(self.spec_value());
            assert(out@ =~= self.spec_bytes());
        }
        out
    }

    /// The header stored in four bytes. The sentinel is recognized by value
    /// comparison; every other value is a payload length.
    pub fn decode(bytes: &Vec<u8>) -> (h: Header)
        requires
            bytes@.len() == 4,
        ensures
            h == Header::spec_decode(bytes@),
            h.wf(),
    {
        proof {
            assert(bytes@.subrange(0, 4) =~= bytes@);
        }
        let value = u32_le_read(bytes, 0);
        if value == EOF_SENTINEL {
            Header::Eof
        } else {
            Header::Record(value)
        }
    }
}

/// Decoding an encoded header gives the header back; the sentinel stays
/// reserved for the end-of-segment marker.
pub proof fn lemma_header_decode_encode(h: Header)
    requires
        h.wf(),
    ensures
        Header::spec_decode(h.spec_bytes()) == h,
{
    lemma_u32_le_round_trip(h.spec_value());
}

/// Encoding a decoded header reproduces the four bytes it came from.
pub proof fn lemma_header_encode_decode(s: Seq<u8>)
    requires
        s.len() == 4,
    ensures
        Header::spec_decode(s).spec_bytes() == s,
{
    lemma_u32_of_le_round_trip(s);
}

} // verus!
