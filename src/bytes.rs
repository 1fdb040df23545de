//! Byte orders and big-endian words.

use byteorder::{BigEndian, ByteOrder};
use vstd::prelude::*;

verus! {

/// Byte order in which ROM data is stored.
#[derive(Clone, Copy, Debug, PartialEq, Eq, Structural)]
pub enum Endianness {
    /// Canonical order: each 32-bit word is stored most significant byte first.
    Big,
    /// Each 32-bit word is stored reversed.
    Little,
    /// Each 16-bit half of a word has its two bytes exchanged.
    Mixed,
}

impl Endianness {
    /// A readable name of the order.
    pub fn as_str(&self) -> (r: &'static str)
        ensures
            *self == Endianness::Big ==> r@ == "Big Endian"@,
            *self == Endianness::Little ==> r@ == "Little Endian"@,
            *self == Endianness::Mixed ==> r@ == "Mixed"@,
    {
        match self {
            Endianness::Big => "Big Endian",
            Endianness::Little => "Little Endian",
            Endianness::Mixed => "Mixed",
        }
    }
}

/// The 32-bit value of four bytes, the first one most significant.
pub open spec fn be_word(b0: u8, b1: u8, b2: u8, b3: u8) -> u32 {
    (b0 as u32) << 24u32 | (b1 as u32) << 16u32 | (b2 as u32) << 8u32 | (b3 as u32)
}

/// The 32-bit value of the first four bytes of `s`, the first one most significant.
pub open spec fn be_u32(s: Seq<u8>) -> u32 {
    be_word(s[0], s[1], s[2], s[3])
}

/// The four bytes of `n`, most significant first.
pub open spec fn be_bytes(n: u32) -> Seq<u8> {
    seq![(n >> 24u32) as u8, (n >> 16u32) as u8, (n >> 8u32) as u8, n as u8]
}

/// Four bytes read as a word and written back are the same four bytes.
pub proof fn lemma_be_word_bytes(b0: u8, b1: u8, b2: u8, b3: u8)
    ensures
        be_bytes(be_word(b0, b1, b2, b3)) == seq![b0, b1, b2, b3],
{
    let w = be_word(b0, b1, b2, b3);
    assert((w >> 24u32) as u8 == b0 && (w >> 16u32) as u8 == b1 && (w >> 8u32) as u8 == b2
        && w as u8 == b3) by (bit_vector)
        requires
            w == (b0 as u32) << 24u32 | (b1 as u32) << 16u32 | (b2 as u32) << 8u32 | (b3 as u32),
    ;
}

/// Relies on byteorder's `BigEndian::read_u32`: the first four bytes of `buf`
/// as one word, most significant byte first (it panics on fewer than four).
#[verifier::external_body]
pub(crate) fn read_be_u32(buf: &[u8]) -> (r: u32)
    requires
        buf@.len() >= 4,
    ensures
        r == be_u32(buf@),
{
    BigEndian::read_u32(buf)
}

/// Relies on byteorder's `BigEndian::write_u32`: stores `n` in the first four
/// bytes of `buf`, most significant byte first (it panics on fewer than four).
#[verifier::external_body]
pub(crate) fn write_be_u32(buf: &mut [u8], n: u32)
    requires
        old(buf)@.len() >= 4,
    ensures
        final(buf)@ == be_bytes(n) + old(buf)@.subrange(4, old(buf)@.len() as int),
{
    BigEndian::write_u32(buf, n)
}

} // verus!
