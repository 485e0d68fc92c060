//! Big-endian wire primitives: specification functions that say which bytes
//! encode which integer, executable writers that append those bytes to a
//! byte vector, executable readers that rebuild the integer from bytes, and
//! the round-trip lemmas connecting the two directions.
//!
//! Wider integers are defined by splitting into halves, so each round-trip
//! proof reduces to the one for the next narrower width.

use vstd::prelude::*;

verus! {

/// The two big-endian bytes of `v`.
pub open spec fn be16(v: u16) -> Seq<u8> {
    seq![(v / 0x100) as u8, (v % 0x100) as u8]
}

/// The four big-endian bytes of `v`: high half first.
pub open spec fn be32(v: u32) -> Seq<u8> {
    be16((v / 0x10000) as u16) + be16((v % 0x10000) as u16)
}

/// The eight big-endian bytes of `v`: high half first.
pub open spec fn be64(v: u64) -> Seq<u8> {
    be32((v / 0x1_0000_0000) as u32) + be32((v % 0x1_0000_0000) as u32)
}

/// The value two big-endian bytes stand for.
pub open spec fn be16_val(b0: u8, b1: u8) -> u16 {
    (b0 as int * 0x100 + b1 as int) as u16
}

/// The value four big-endian bytes stand for.
pub open spec fn be32_val(b0: u8, b1: u8, b2: u8, b3: u8) -> u32 {
    (be16_val(b0, b1) as int * 0x10000 + be16_val(b2, b3) as int) as u32
}

/// The value eight big-endian bytes stand for.
pub open spec fn be64_val(b0: u8, b1: u8, b2: u8, b3: u8, b4: u8, b5: u8, b6: u8, b7: u8) -> u64 {
    (be32_val(b0, b1, b2, b3) as int * 0x1_0000_0000 + be32_val(b4, b5, b6, b7) as int) as u64
}

/// `be32_val` read out of a byte sequence at offset `i`.
pub open spec fn be32_at(s: Seq<u8>, i: int) -> u32
    recommends
        0 <= i,
        i + 4 <= s.len(),
{
    be32_val(s[i], s[i + 1], s[i + 2], s[i + 3])
}

/// Decoding the two bytes of `v` gives `v` back.
pub proof fn lemma_be16_roundtrip(v: u16)
    ensures
        be16_val(be16(v)[0], be16(v)[1]) == v,
{
}

/// Decoding the four bytes of `v` gives `v` back.
pub proof fn lemma_be32_roundtrip(v: u32)
    ensures
        be32_val(be32(v)[0], be32(v)[1], be32(v)[2], be32(v)[3]) == v,
{
    lemma_be16_roundtrip((v / 0x10000) as u16);
    lemma_be16_roundtrip((v % 0x10000) as u16);
}

/// Decoding the eight bytes of `v` gives `v` back.
pub proof fn lemma_be64_roundtrip(v: u64)
    ensures
        be64_val(
            be64(v)[0],
            be64(v)[1],
            be64(v)[2],
            be64(v)[3],
            be64(v)[4],
            be64(v)[5],
            be64(v)[6],
            be64(v)[7],
        ) == v,
{
    lemma_be32_roundtrip((v / 0x1_0000_0000) as u32);
    lemma_be32_roundtrip((v % 0x1_0000_0000) as u32);
}

/// Append one byte.
pub fn push_u8(w: &mut Vec<u8>, v: u8)
    ensures
        final(w)@ == old(w)@.push(v),
{
    w.push(v);
}

/// Append the two big-endian bytes of `v`.
pub fn push_u16_be(w: &mut Vec<u8>, v: u16)
    ensures
        final(w)@ == old(w)@ + be16(v),
{
    w.push((v / 0x100) as u8);
    w.push((v % 0x100) as u8);
    proof {
        assert(w@ =~= old(w)@ + be16(v));
    }
}

/// Append the four big-endian bytes of `v`.
pub fn push_u32_be(w: &mut Vec<u8>, v: u32)
    ensures
        final(w)@ == old(w)@ + be32(v),
{
    push_u16_be(w, (v / 0x10000) as u16);
    push_u16_be(w, (v % 0x10000) as u16);
    proof {
        assert(w@ =~= old(w)@ + be32(v));
    }
}

/// Append the eight big-endian bytes of `v`.
pub fn push_u64_be(w: &mut Vec<u8>, v: u64)
    ensures
        final(w)@ == old(w)@ + be64(v),
{
    push_u32_be(w, (v / 0x1_0000_0000) as u32);
    push_u32_be(w, (v % 0x1_0000_0000) as u32);
    proof {
        assert(w@ =~= old(w)@ + be64(v));
    }
}

/// Rebuild a `u16` from its big-endian bytes.
pub fn u16_from_be(b0: u8, b1: u8) -> (r: u16)
    ensures
        r == be16_val(b0, b1),
{
    (b0 as u16) * 0x100 + (b1 as u16)
}

/// Rebuild a `u32` from its big-endian bytes.
pub fn u32_from_be(b0: u8, b1: u8, b2: u8, b3: u8) -> (r: u32)
    ensures
        r == be32_val(b0, b1, b2, b3),
{
    (u16_from_be(b0, b1) as u32) * 0x10000 + (u16_from_be(b2, b3) as u32)
}

/// Rebuild a `u64` from its big-endian bytes.
pub fn u64_from_be(b0: u8, b1: u8, b2: u8, b3: u8, b4: u8, b5: u8, b6: u8, b7: u8) -> (r: u64)
    ensures
        r == be64_val(b0, b1, b2, b3, b4, b5, b6, b7),
{
    (u32_from_be(b0, b1, b2, b3) as u64) * 0x1_0000_0000 + (u32_from_be(b4, b5, b6, b7) as u64)
}

/// The byte a boolean travels as.
pub open spec fn bool_byte(v: bool) -> u8 {
    if v {
        1
    } else {
        0
    }
}

/// The two's-complement byte of `v`.
pub open spec fn i8_as_u8(v: i8) -> u8 {
    if v >= 0 {
        v as u8
    } else {
        (v + 0x100) as u8
    }
}

/// The signed value the byte `u` stands for.
pub open spec fn u8_as_i8(u: u8) -> i8 {
    if u < 0x80 {
        u as i8
    } else {
        (u - 0x100) as i8
    }
}

/// The two's-complement `u16` of `v`.
pub open spec fn i16_as_u16(v: i16) -> u16 {
    if v >= 0 {
        v as u16
    } else {
        (v + 0x10000) as u16
    }
}

/// The signed value `u` stands for.
pub open spec fn u16_as_i16(u: u16) -> i16 {
    if u < 0x8000 {
        u as i16
    } else {
        (u - 0x10000) as i16
    }
}

/// The two's-complement `u32` of `v`.
pub open spec fn i32_as_u32(v: i32) -> u32 {
    if v >= 0 {
        v as u32
    } else {
        (v + 0x1_0000_0000) as u32
    }
}

/// The signed value `u` stands for.
pub open spec fn u32_as_i32(u: u32) -> i32 {
    if u < 0x8000_0000 {
        u as i32
    } else {
        (u - 0x1_0000_0000) as i32
    }
}

/// The two's-complement `u64` of `v`.
pub open spec fn i64_as_u64(v: i64) -> u64 {
    if v >= 0 {
        v as u64
    } else {
        (v + 0x1_0000_0000_0000_0000) as u64
    }
}

/// The signed value `u` stands for.
pub open spec fn u64_as_i64(u: u64) -> i64 {
    if u < 0x8000_0000_0000_0000 {
        u as i64
    } else {
        (u - 0x1_0000_0000_0000_0000) as i64
    }
}

/// Two's-complement conversions invert each other at every width.
pub proof fn lemma_signed_roundtrip(a: i8, b: i16, c: i32, d: i64)
    ensures
        u8_as_i8(i8_as_u8(a)) == a,
        u16_as_i16(i16_as_u16(b)) == b,
        u32_as_i32(i32_as_u32(c)) == c,
        u64_as_i64(i64_as_u64(d)) == d,
{
}

/// Executable two's-complement conversion of an `i8`.
pub fn i8_to_u8(v: i8) -> (r: u8)
    ensures
        r == i8_as_u8(v),
{
    if v >= 0 {
        v as u8
    } else {
        ((v as i16) + 0x100) as u8
    }
}

/// Executable inverse of [`i8_to_u8`].
pub fn u8_to_i8(u: u8) -> (r: i8)
    ensures
        r == u8_as_i8(u),
{
    if u < 0x80 {
        u as i8
    } else {
        ((u as i16) - 0x100) as i8
    }
}

/// Executable two's-complement conversion of an `i16`.
pub fn i16_to_u16(v: i16) -> (r: u16)
    ensures
        r == i16_as_u16(v),
{
    if v >= 0 {
        v as u16
    } else {
        ((v as i32) + 0x10000) as u16
    }
}

/// Executable inverse of [`i16_to_u16`].
pub fn u16_to_i16(u: u16) -> (r: i16)
    ensures
        r == u16_as_i16(u),
{
    if u < 0x8000 {
        u as i16
    } else {
        ((u as i32) - 0x10000) as i16
    }
}

/// Executable two's-complement conversion of an `i32`.
pub fn i32_to_u32(v: i32) -> (r: u32)
    ensures
        r == i32_as_u32(v),
{
    if v >= 0 {
        v as u32
    } else {
        ((v as i64) + 0x1_0000_0000) as u32
    }
}

/// Executable inverse of [`i32_to_u32`].
pub fn u32_to_i32(u: u32) -> (r: i32)
    ensures
        r == u32_as_i32(u),
{
    if u < 0x8000_0000 {
        u as i32
    } else {
        ((u as i64) - 0x1_0000_0000) as i32
    }
}

/// Executable two's-complement conversion of an `i64`.
pub fn i64_to_u64(v: i64) -> (r: u64)
    ensures
        r == i64_as_u64(v),
{
    if v >= 0 {
        v as u64
    } else {
        ((v as i128) + 0x1_0000_0000_0000_0000) as u64
    }
}

/// Executable inverse of [`i64_to_u64`].
pub fn u64_to_i64(u: u64) -> (r: i64)
    ensures
        r == u64_as_i64(u),
{
    if u < 0x8000_0000_0000_0000 {
        u as i64
    } else {
        ((u as i128) - 0x1_0000_0000_0000_0000) as i64
    }
}

} // verus!
