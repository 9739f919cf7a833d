//! Big-endian byte encodings of the machine's integer types.
//!
//! Every multi-byte value that lives in guest memory is stored most
//! significant byte first. Signed values are stored as their two's
//! complement bit patterns.

use vstd::prelude::*;

verus! {

/// The two's complement bit pattern of `v`.
pub open spec fn i8_bits(v: i8) -> u8 {
    if v >= 0 { v as u8 } else { (v + 0x100) as u8 }
}

/// The signed value whose two's complement bit pattern is `u`.
pub open spec fn bits_i8(u: u8) -> i8 {
    if u < 0x80 { u as i8 } else { (u - 0x100) as i8 }
}

/// The two's complement bit pattern of `v`.
pub open spec fn i16_bits(v: i16) -> u16 {
    if v >= 0 { v as u16 } else { (v + 0x1_0000) as u16 }
}

/// The signed value whose two's complement bit pattern is `u`.
pub open spec fn bits_i16(u: u16) -> i16 {
    if u < 0x8000 { u as i16 } else { (u - 0x1_0000) as i16 }
}

/// The two's complement bit pattern of `v`.
pub open spec fn i32_bits(v: i32) -> u32 {
    if v >= 0 { v as u32 } else { (v + 0x1_0000_0000) as u32 }
}

/// The signed value whose two's complement bit pattern is `u`.
pub open spec fn bits_i32(u: u32) -> i32 {
    if u < 0x8000_0000 { u as i32 } else { (u - 0x1_0000_0000) as i32 }
}

/// The two's complement bit pattern of `v`.
pub open spec fn i64_bits(v: i64) -> u64 {
    if v >= 0 { v as u64 } else { (v + 0x1_0000_0000_0000_0000) as u64 }
}

/// The signed value whose two's complement bit pattern is `u`.
pub open spec fn bits_i64(u: u64) -> i64 {
    if u < 0x8000_0000_0000_0000 { u as i64 } else { (u - 0x1_0000_0000_0000_0000) as i64 }
}

/// The two bytes of `v`, most significant first.
pub open spec fn u16_be(v: u16) -> Seq<u8> {
    seq![(v / 0x100) as u8, (v % 0x100) as u8]
}

/// The value whose big-endian bytes are the first two bytes of `s`.
pub open spec fn be_u16(s: Seq<u8>) -> u16 {
    (s[0] * 0x100 + s[1]) as u16
}

/// The four bytes of `v`, most significant first.
pub open spec fn u32_be(v: u32) -> Seq<u8> {
    seq![
        (v / 0x100_0000) as u8,
        (v / 0x1_0000 % 0x100) as u8,
        (v / 0x100 % 0x100) as u8,
        (v % 0x100) as u8,
    ]
}

/// The value whose big-endian bytes are the first four bytes of `s`.
pub open spec fn be_u32(s: Seq<u8>) -> u32 {
    (s[0] * 0x100_0000 + s[1] * 0x1_0000 + s[2] * 0x100 + s[3]) as u32
}

/// The eight bytes of `v`, most significant first.
pub open spec fn u64_be(v: u64) -> Seq<u8> {
    u32_be((v / 0x1_0000_0000) as u32) + u32_be((v % 0x1_0000_0000) as u32)
}

/// The value whose big-endian bytes are the first eight bytes of `s`.
pub open spec fn be_u64(s: Seq<u8>) -> u64 {
    (be_u32(s.subrange(0, 4)) * 0x1_0000_0000 + be_u32(s.subrange(4, 8))) as u64
}

/// Decoding undoes encoding, for every width.
pub proof fn lemma_be_round_trip(a: u16, b: u32, c: u64)
    ensures
        u16_be(a).len() == 2,
        u32_be(b).len() == 4,
        u64_be(c).len() == 8,
        be_u16(u16_be(a)) == a,
        be_u32(u32_be(b)) == b,
        be_u64(u64_be(c)) == c,
{
    let hi: u32 = (c / 0x1_0000_0000) as u32;
    let lo: u32 = (c % 0x1_0000_0000) as u32;
    assert(be_u32(u32_be(hi)) == hi);
    assert(be_u32(u32_be(lo)) == lo);
    assert(u64_be(c).subrange(0, 4) =~= u32_be(hi));
    assert(u64_be(c).subrange(4, 8) =~= u32_be(lo));
}

/// The two's complement pattern of a signed value decodes to that value, and
/// every pattern is the pattern of the value it decodes to.
pub proof fn lemma_bits_round_trip(a: i8, b: i16, c: i32, d: i64)
    ensures
        bits_i8(i8_bits(a)) == a,
        bits_i16(i16_bits(b)) == b,
        bits_i32(i32_bits(c)) == c,
        bits_i64(i64_bits(d)) == d,
        i8_bits(bits_i8(a as u8)) == a as u8,
{
}

/// Reinterprets a signed byte as its bit pattern.
pub fn i8_to_bits(v: i8) -> (u: u8)
    ensures
        u == i8_bits(v),
{
    if v >= 0 {
        v as u8
    } else {
        (v as i16 + 0x100) as u8
    }
}

/// Reinterprets a bit pattern as a signed byte.
pub fn i8_from_bits(u: u8) -> (v: i8)
    ensures
        v == bits_i8(u),
{
    if u < 0x80 {
        u as i8
    } else {
        (u as i16 - 0x100) as i8
    }
}

/// Reinterprets a signed halfword as its bit pattern.
pub fn i16_to_bits(v: i16) -> (u: u16)
    ensures
        u == i16_bits(v),
{
    if v >= 0 {
        v as u16
    } else {
        (v as i32 + 0x1_0000) as u16
    }
}

/// Reinterprets a bit pattern as a signed halfword.
pub fn i16_from_bits(u: u16) -> (v: i16)
    ensures
        v == bits_i16(u),
{
    if u < 0x8000 {
        u as i16
    } else {
        (u as i32 - 0x1_0000) as i16
    }
}

/// Reinterprets a signed word as its bit pattern.
pub fn i32_to_bits(v: i32) -> (u: u32)
    ensures
        u == i32_bits(v),
{
    if v >= 0 {
        v as u32
    } else {
        (v as i64 + 0x1_0000_0000) as u32
    }
}

/// Reinterprets a bit pattern as a signed word.
pub fn i32_from_bits(u: u32) -> (v: i32)
    ensures
        v == bits_i32(u),
{
    if u < 0x8000_0000 {
        u as i32
    } else {
        (u as i64 - 0x1_0000_0000) as i32
    }
}

/// Reinterprets a signed doubleword as its bit pattern.
pub fn i64_to_bits(v: i64) -> (u: u64)
    ensures
        u == i64_bits(v),
{
    if v >= 0 {
        v as u64
    } else {
        (v as i128 + 0x1_0000_0000_0000_0000) as u64
    }
}

/// Reinterprets a bit pattern as a signed doubleword.
pub fn i64_from_bits(u: u64) -> (v: i64)
    ensures
        v == bits_i64(u),
{
    if u < 0x8000_0000_0000_0000 {
        u as i64
    } else {
        (u as i128 - 0x1_0000_0000_0000_0000) as i64
    }
}

/// Appends the big-endian bytes of `v` to `buf`.
pub fn push_u16_be(buf: &mut Vec<u8>, v: u16)
    ensures
        final(buf)@ == old(buf)@ + u16_be(v),
{
    buf.push((v / 0x100) as u8);
    buf.push((v % 0x100) as u8);
    assert(buf@ =~= old(buf)@ + u16_be(v));
}

/// Appends the big-endian bytes of `v` to `buf`.
pub fn push_u32_be(buf: &mut Vec<u8>, v: u32)
    ensures
        final(buf)@ == old(buf)@ + u32_be(v),
{
    buf.push((v / 0x100_0000) as u8);
    buf.push((v / 0x1_0000 % 0x100) as u8);
    buf.push((v / 0x100 % 0x100) as u8);
    buf.push((v % 0x100) as u8);
    assert(buf@ =~= old(buf)@ + u32_be(v));
}

/// Appends the big-endian bytes of `v` to `buf`.
pub fn push_u64_be(buf: &mut Vec<u8>, v: u64)
    ensures
        final(buf)@ == old(buf)@ + u64_be(v),
{
    push_u32_be(buf, (v / 0x1_0000_0000) as u32);
    push_u32_be(buf, (v % 0x1_0000_0000) as u32);
    assert(buf@ =~= old(buf)@ + u64_be(v));
}

/// Reads the big-endian halfword at `buf[at..at + 2]`.
pub fn read_u16_be(buf: &Vec<u8>, at: usize) -> (v: u16)
    requires
        at + 2 <= buf.len(),
    ensures
        v == be_u16(buf@.subrange(at as int, at + 2)),
{
    (buf[at] as u16) * 0x100 + buf[at + 1] as u16
}

/// Reads the big-endian word at `buf[at..at + 4]`.
pub fn read_u32_be(buf: &Vec<u8>, at: usize) -> (v: u32)
    requires
        at + 4 <= buf.len(),
    ensures
        v == be_u32(buf@.subrange(at as int, at + 4)),
{
    (buf[at] as u32) * 0x100_0000 + (buf[at + 1] as u32) * 0x1_0000 + (buf[at + 2] as u32) * 0x100
        + buf[at + 3] as u32
}

/// Reads the big-endian doubleword at `buf[at..at + 8]`.
pub fn read_u64_be(buf: &Vec<u8>, at: usize) -> (v: u64)
    requires
        at + 8 <= buf.len(),
    ensures
        v == be_u64(buf@.subrange(at as int, at + 8)),
{
    let hi: u32 = read_u32_be(buf, at);
    let lo: u32 = read_u32_be(buf, at + 4);
    proof {
        let s = buf@.subrange(at as int, at + 8);
        assert(s.subrange(0, 4) =~= buf@.subrange(at as int, at + 4));
        assert(s.subrange(4, 8) =~= buf@.subrange(at + 4, at + 8));
    }
    (hi as u64) * 0x1_0000_0000 + lo as u64
}

} // verus!
