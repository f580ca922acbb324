//! Fixed-width integers as byte sequences, in both byte orders.
//!
//! Font tables store their scalars big-endian; the outline stream that is
//! handed to the host is little-endian. Everything here is stated with plain
//! arithmetic on `int`, so that the contracts that build on it need no bit
//! reasoning.

use vstd::prelude::*;

verus! {

/// The unsigned 16-bit big-endian number at `s[i..i + 2]`.
pub open spec fn u16_at(s: Seq<u8>, i: int) -> int
    recommends
        0 <= i,
        i + 2 <= s.len(),
{
    s[i] as int * 0x100 + s[i + 1] as int
}

/// The signed (two's complement) 16-bit big-endian number at `s[i..i + 2]`.
pub open spec fn i16_at(s: Seq<u8>, i: int) -> int
    recommends
        0 <= i,
        i + 2 <= s.len(),
{
    if u16_at(s, i) >= 0x8000 {
        u16_at(s, i) - 0x1_0000
    } else {
        u16_at(s, i)
    }
}

/// The unsigned 32-bit big-endian number at `s[i..i + 4]`.
pub open spec fn u32_at(s: Seq<u8>, i: int) -> int
    recommends
        0 <= i,
        i + 4 <= s.len(),
{
    s[i] as int * 0x100_0000 + s[i + 1] as int * 0x1_0000 + s[i + 2] as int * 0x100 + s[i + 3] as int
}

/// The signed (two's complement) 32-bit big-endian number at `s[i..i + 4]`.
pub open spec fn i32_at(s: Seq<u8>, i: int) -> int
    recommends
        0 <= i,
        i + 4 <= s.len(),
{
    if u32_at(s, i) >= 0x8000_0000 {
        u32_at(s, i) - 0x1_0000_0000
    } else {
        u32_at(s, i)
    }
}

/// The signed (two's complement) 64-bit big-endian number at `s[i..i + 8]`.
pub open spec fn i64_at(s: Seq<u8>, i: int) -> int
    recommends
        0 <= i,
        i + 8 <= s.len(),
{
    if u32_at(s, i) >= 0x8000_0000 {
        (u32_at(s, i) - 0x1_0000_0000) * 0x1_0000_0000 + u32_at(s, i + 4)
    } else {
        u32_at(s, i) * 0x1_0000_0000 + u32_at(s, i + 4)
    }
}

/// The signed (two's complement) 8-bit number held in one byte.
pub open spec fn i8_of(b: u8) -> int {
    if b >= 0x80 {
        b as int - 0x100
    } else {
        b as int
    }
}

/// The byte that holds `v` in two's complement.
pub open spec fn i8_byte(v: int) -> u8
    recommends
        -0x80 <= v < 0x80,
{
    if v < 0 {
        (v + 0x100) as u8
    } else {
        v as u8
    }
}

/// Big-endian bytes of an unsigned 16-bit number.
pub open spec fn u16_be(v: int) -> Seq<u8>
    recommends
        0 <= v < 0x1_0000,
{
    seq![(v / 0x100) as u8, (v % 0x100) as u8]
}

/// Big-endian bytes of a signed 16-bit number, in two's complement.
pub open spec fn i16_be(v: int) -> Seq<u8>
    recommends
        -0x8000 <= v < 0x8000,
{
    if v < 0 {
        u16_be(v + 0x1_0000)
    } else {
        u16_be(v)
    }
}

/// Big-endian bytes of an unsigned 32-bit number.
pub open spec fn u32_be(v: int) -> Seq<u8>
    recommends
        0 <= v < 0x1_0000_0000,
{
    seq![
        (v / 0x100_0000) as u8,
        (v / 0x1_0000 % 0x100) as u8,
        (v / 0x100 % 0x100) as u8,
        (v % 0x100) as u8,
    ]
}

/// Big-endian bytes of a signed 32-bit number, in two's complement.
pub open spec fn i32_be(v: int) -> Seq<u8>
    recommends
        -0x8000_0000 <= v < 0x8000_0000,
{
    if v < 0 {
        u32_be(v + 0x1_0000_0000)
    } else {
        u32_be(v)
    }
}

/// Big-endian bytes of a signed 64-bit number, in two's complement: its
/// high half, signed, and its low half.
pub open spec fn i64_be(v: int) -> Seq<u8>
    recommends
        -0x8000_0000_0000_0000 <= v < 0x8000_0000_0000_0000,
{
    i32_be(v / 0x1_0000_0000) + u32_be(v % 0x1_0000_0000)
}

/// Little-endian bytes of an unsigned 16-bit number.
pub open spec fn u16_le(v: int) -> Seq<u8>
    recommends
        0 <= v < 0x1_0000,
{
    seq![(v % 0x100) as u8, (v / 0x100) as u8]
}

/// Little-endian bytes of an unsigned 32-bit number.
pub open spec fn u32_le(v: int) -> Seq<u8>
    recommends
        0 <= v < 0x1_0000_0000,
{
    seq![
        (v % 0x100) as u8,
        (v / 0x100 % 0x100) as u8,
        (v / 0x1_0000 % 0x100) as u8,
        (v / 0x100_0000) as u8,
    ]
}

/// The number that the low 16 bits of `v` stand for in two's complement.
pub open spec fn low_i16(v: int) -> int {
    if v % 0x1_0000 >= 0x8000 {
        v % 0x1_0000 - 0x1_0000
    } else {
        v % 0x1_0000
    }
}

/// `n` zero bytes.
pub open spec fn zeros(n: nat) -> Seq<u8> {
    Seq::new(n, |i: int| 0u8)
}

/// Reads the unsigned 16-bit big-endian number at `pos`.
pub fn read_u16(data: &[u8], pos: usize) -> (r: u16)
    requires
        pos + 2 <= data.len(),
    ensures
        r == u16_at(data@, pos as int),
{
    let hi: u16 = data[pos] as u16;
    let lo: u16 = data[pos + 1] as u16;
    hi * 0x100 + lo
}

/// Reads the signed 16-bit big-endian number at `pos`.
pub fn read_i16(data: &[u8], pos: usize) -> (r: i16)
    requires
        pos + 2 <= data.len(),
    ensures
        r == i16_at(data@, pos as int),
{
    let u: i32 = read_u16(data, pos) as i32;
    if u >= 0x8000 {
        (u - 0x1_0000) as i16
    } else {
        u as i16
    }
}

/// Reads the unsigned 32-bit big-endian number at `pos`.
pub fn read_u32(data: &[u8], pos: usize) -> (r: u32)
    requires
        pos + 4 <= data.len(),
    ensures
        r == u32_at(data@, pos as int),
{
    let b0: u32 = data[pos] as u32;
    let b1: u32 = data[pos + 1] as u32;
    let b2: u32 = data[pos + 2] as u32;
    let b3: u32 = data[pos + 3] as u32;
    b0 * 0x100_0000 + b1 * 0x1_0000 + b2 * 0x100 + b3
}

/// Reads the signed 32-bit big-endian number at `pos`.
pub fn read_i32(data: &[u8], pos: usize) -> (r: i32)
    requires
        pos + 4 <= data.len(),
    ensures
        r == i32_at(data@, pos as int),
{
    let u: i64 = read_u32(data, pos) as i64;
    if u >= 0x8000_0000 {
        (u - 0x1_0000_0000) as i32
    } else {
        u as i32
    }
}

/// Reads the signed 64-bit big-endian number at `pos`.
pub fn read_i64(data: &[u8], pos: usize) -> (r: i64)
    requires
        pos + 8 <= data.len(),
    ensures
        r == i64_at(data@, pos as int),
{
    let high: i64 = read_i32(data, pos) as i64;
    let low: i64 = read_u32(data, pos + 4) as i64;
    high * 0x1_0000_0000 + low
}

/// Reads one byte as a signed 8-bit number.
pub fn read_i8(data: &[u8], pos: usize) -> (r: i8)
    requires
        pos < data.len(),
    ensures
        r == i8_of(data@[pos as int]),
{
    let b: i16 = data[pos] as i16;
    if b >= 0x80 {
        (b - 0x100) as i8
    } else {
        b as i8
    }
}

/// Appends `v` in big-endian order.
pub fn push_u16_be(buf: &mut Vec<u8>, v: u16)
    ensures
        final(buf)@ == old(buf)@ + u16_be(v as int),
{
    buf.push((v / 0x100) as u8);
    buf.push((v % 0x100) as u8);
    assert(buf@ =~= old(buf)@ + u16_be(v as int));
}

/// Appends `v` in big-endian order, two's complement.
pub fn push_i16_be(buf: &mut Vec<u8>, v: i16)
    ensures
        final(buf)@ == old(buf)@ + i16_be(v as int),
{
    let u: u16 = if v < 0 {
        (v as i32 + 0x1_0000) as u16
    } else {
        v as u16
    };
    push_u16_be(buf, u);
}

/// Appends `v` in big-endian order.
pub fn push_u32_be(buf: &mut Vec<u8>, v: u32)
    ensures
        final(buf)@ == old(buf)@ + u32_be(v as int),
{
    buf.push((v / 0x100_0000) as u8);
    buf.push((v / 0x1_0000 % 0x100) as u8);
    buf.push((v / 0x100 % 0x100) as u8);
    buf.push((v % 0x100) as u8);
    assert(buf@ =~= old(buf)@ + u32_be(v as int));
}

/// Appends `v` in little-endian order.
pub fn push_u16_le(buf: &mut Vec<u8>, v: u16)
    ensures
        final(buf)@ == old(buf)@ + u16_le(v as int),
{
    buf.push((v % 0x100) as u8);
    buf.push((v / 0x100) as u8);
    assert(buf@ =~= old(buf)@ + u16_le(v as int));
}

/// Appends `v` in little-endian order.
pub fn push_u32_le(buf: &mut Vec<u8>, v: u32)
    ensures
        final(buf)@ == old(buf)@ + u32_le(v as int),
{
    buf.push((v % 0x100) as u8);
    buf.push((v / 0x100 % 0x100) as u8);
    buf.push((v / 0x1_0000 % 0x100) as u8);
    buf.push((v / 0x100_0000) as u8);
    assert(buf@ =~= old(buf)@ + u32_le(v as int));
}

/// Appends the byte that holds `v` in two's complement.
pub fn push_i8(buf: &mut Vec<u8>, v: i8)
    ensures
        final(buf)@ == old(buf)@.push(i8_byte(v as int)),
{
    let b: u8 = if v < 0 {
        (v as i16 + 0x100) as u8
    } else {
        v as u8
    };
    buf.push(b);
}

/// Where a sequence holds the bytes of `u16_be`, the number is read there.
pub proof fn lemma_reads_u16(s: Seq<u8>, at: int, v: int)
    requires
        0 <= at,
        at + 2 <= s.len(),
        s.subrange(at, at + 2) == u16_be(v),
        0 <= v < 0x1_0000,
    ensures
        u16_at(s, at) == v,
{
    let part = s.subrange(at, at + 2);
    assert(part[0] == s[at] && part[1] == s[at + 1]);
}

/// Where a sequence holds the bytes of `i16_be`, the number is read there.
pub proof fn lemma_reads_i16(s: Seq<u8>, at: int, v: int)
    requires
        0 <= at,
        at + 2 <= s.len(),
        s.subrange(at, at + 2) == i16_be(v),
        -0x8000 <= v < 0x8000,
    ensures
        i16_at(s, at) == v,
{
    let part = s.subrange(at, at + 2);
    assert(part[0] == s[at] && part[1] == s[at + 1]);
}

/// Where a sequence holds the bytes of `u32_be`, the number is read there.
pub proof fn lemma_reads_u32(s: Seq<u8>, at: int, v: int)
    requires
        0 <= at,
        at + 4 <= s.len(),
        s.subrange(at, at + 4) == u32_be(v),
        0 <= v < 0x1_0000_0000,
    ensures
        u32_at(s, at) == v,
{
    let part = s.subrange(at, at + 4);
    assert(part[0] == s[at] && part[1] == s[at + 1] && part[2] == s[at + 2] && part[3] == s[at
        + 3]);
}

/// Where a sequence holds the bytes of `i32_be`, the number is read there.
pub proof fn lemma_reads_i32(s: Seq<u8>, at: int, v: int)
    requires
        0 <= at,
        at + 4 <= s.len(),
        s.subrange(at, at + 4) == i32_be(v),
        -0x8000_0000 <= v < 0x8000_0000,
    ensures
        i32_at(s, at) == v,
{
    if v < 0 {
        lemma_reads_u32(s, at, v + 0x1_0000_0000);
    } else {
        lemma_reads_u32(s, at, v);
    }
}

/// Where a sequence holds the bytes of `i64_be`, the number is read there.
pub proof fn lemma_reads_i64(s: Seq<u8>, at: int, v: int)
    requires
        0 <= at,
        at + 8 <= s.len(),
        s.subrange(at, at + 8) == i64_be(v),
        -0x8000_0000_0000_0000 <= v < 0x8000_0000_0000_0000,
    ensures
        i64_at(s, at) == v,
{
    let hi = v / 0x1_0000_0000;
    let lo = v % 0x1_0000_0000;
    let part = s.subrange(at, at + 8);
    assert(s.subrange(at, at + 4) =~= part.subrange(0, 4));
    assert(s.subrange(at + 4, at + 8) =~= part.subrange(4, 8));
    assert(part.subrange(0, 4) =~= i32_be(hi));
    assert(part.subrange(4, 8) =~= u32_be(lo));
    lemma_reads_i32(s, at, hi);
    lemma_reads_u32(s, at + 4, lo);
}

/// Reading back what `u16_be` wrote gives the number again.
pub proof fn lemma_u16_be_round_trip(s: Seq<u8>, v: int)
    requires
        0 <= v < 0x1_0000,
    ensures
        u16_at(s + u16_be(v), s.len() as int) == v,
{
}

/// Reading back what `u32_be` wrote gives the number again.
pub proof fn lemma_u32_be_round_trip(s: Seq<u8>, v: int)
    requires
        0 <= v < 0x1_0000_0000,
    ensures
        u32_at(s + u32_be(v), s.len() as int) == v,
{
}

} // verus!
