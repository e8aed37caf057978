//! Big-endian encoding and decoding of the 16- and 32-bit integers that
//! appear on the wire: in the champion header, in direct and indirect
//! operands, and in every multi-byte memory access of the machine.

use vstd::prelude::*;

verus! {

/// The unsigned 32-bit value denoted by four bytes in big-endian order.
pub open spec fn be32_word(b0: u8, b1: u8, b2: u8, b3: u8) -> u32 {
    ((b0 as u32) << 24) | ((b1 as u32) << 16) | ((b2 as u32) << 8) | (b3 as u32)
}

/// The signed 32-bit value denoted by four bytes in big-endian order.
pub open spec fn be32_of(b0: u8, b1: u8, b2: u8, b3: u8) -> i32 {
    be32_word(b0, b1, b2, b3) as i32
}

/// The unsigned 16-bit value denoted by two bytes in big-endian order.
pub open spec fn be16_word(b0: u8, b1: u8) -> u16 {
    ((b0 as u16) << 8) | (b1 as u16)
}

/// The signed 16-bit value denoted by two bytes in big-endian order.
pub open spec fn be16_of(b0: u8, b1: u8) -> i16 {
    be16_word(b0, b1) as i16
}

/// Byte `k` (0 = most significant) of the big-endian encoding of `v`.
pub open spec fn be32_byte(v: u32, k: int) -> u8 {
    if k == 0 {
        ((v >> 24) & 0xff) as u8
    } else if k == 1 {
        ((v >> 16) & 0xff) as u8
    } else if k == 2 {
        ((v >> 8) & 0xff) as u8
    } else {
        (v & 0xff) as u8
    }
}

/// The four-byte big-endian encoding of `v`.
pub open spec fn be32_bytes(v: u32) -> Seq<u8> {
    seq![be32_byte(v, 0), be32_byte(v, 1), be32_byte(v, 2), be32_byte(v, 3)]
}

/// The two-byte big-endian encoding of the low half of `v`.
pub open spec fn be16_bytes(v: u32) -> Seq<u8> {
    seq![be32_byte(v, 2), be32_byte(v, 3)]
}

/// The `size` lowest bytes of `v`, in big-endian order; `size` is 2 or 4.
/// This is how the assembler emits numeric operands.
pub open spec fn be_bytes_trunc(v: u32, size: int) -> Seq<u8> {
    if size == 2 {
        be16_bytes(v)
    } else {
        be32_bytes(v)
    }
}

pub fn i32_from_be(b0: u8, b1: u8, b2: u8, b3: u8) -> (r: i32)
    ensures
        r == be32_of(b0, b1, b2, b3),
{
    let w: u32 = ((b0 as u32) << 24) | ((b1 as u32) << 16) | ((b2 as u32) << 8) | (b3 as u32);
    #[verifier::truncate] (w as i32)
}

pub fn i16_from_be(b0: u8, b1: u8) -> (r: i16)
    ensures
        r == be16_of(b0, b1),
{
    let w: u16 = ((b0 as u16) << 8) | (b1 as u16);
    #[verifier::truncate] (w as i16)
}

pub fn u32_be_byte(v: u32, k: usize) -> (r: u8)
    requires
        k < 4,
    ensures
        r == be32_byte(v, k as int),
{
    if k == 0 {
        ((v >> 24) & 0xff) as u8
    } else if k == 1 {
        ((v >> 16) & 0xff) as u8
    } else if k == 2 {
        ((v >> 8) & 0xff) as u8
    } else {
        (v & 0xff) as u8
    }
}

/// Reading back the four bytes of a 32-bit word yields the word.
pub proof fn lemma_be32_word_round_trip(v: u32)
    ensures
        be32_word(be32_byte(v, 0), be32_byte(v, 1), be32_byte(v, 2), be32_byte(v, 3)) == v,
{
    assert(((((v >> 24) & 0xff) as u8) as u32) << 24 | ((((v >> 16) & 0xff) as u8) as u32) << 16
        | ((((v >> 8) & 0xff) as u8) as u32) << 8 | (((v & 0xff) as u8) as u32) == v)
        by (bit_vector);
}

/// Reading back the big-endian bytes of a signed 32-bit value yields the value.
pub proof fn lemma_be32_round_trip(v: i32)
    ensures
        be32_of(
            be32_byte(v as u32, 0),
            be32_byte(v as u32, 1),
            be32_byte(v as u32, 2),
            be32_byte(v as u32, 3),
        ) == v,
{
    lemma_be32_word_round_trip(v as u32);
    assert((v as u32) as i32 == v) by (bit_vector);
}

/// Reading back the two low bytes of a word as a signed 16-bit value yields
/// the word truncated to 16 bits.
pub proof fn lemma_be16_round_trip(v: u32)
    ensures
        be16_of(be32_byte(v, 2), be32_byte(v, 3)) == (v as i16),
{
    assert((((((v >> 8) & 0xff) as u8) as u16) << 8 | (((v & 0xff) as u8) as u16)) as i16
        == v as i16) by (bit_vector);
}

} // verus!
