//! Little-endian integers inside byte buffers.

use vstd::prelude::*;

verus! {

/// The little-endian `u16` at `p`.
pub open spec fn u16_le(b: Seq<u8>, p: int) -> int {
    b[p] as int + b[p + 1] as int * 256
}

/// The little-endian `u32` at `p`.
pub open spec fn u32_le(b: Seq<u8>, p: int) -> int {
    b[p] as int + b[p + 1] as int * 256 + b[p + 2] as int * 65536 + b[p + 3] as int * 16777216
}

/// The two's-complement `i32` whose bit pattern is the unsigned `u`.
pub open spec fn as_signed32(u: int) -> int {
    if u >= 0x8000_0000 {
        u - 0x1_0000_0000
    } else {
        u
    }
}

/// The little-endian bytes of a `u16`.
pub open spec fn le16(x: int) -> Seq<u8> {
    seq![(x % 256) as u8, ((x / 256) % 256) as u8]
}

/// The little-endian bytes of a `u32`.
pub open spec fn le32(x: int) -> Seq<u8> {
    seq![
        (x % 256) as u8,
        ((x / 256) % 256) as u8,
        ((x / 65536) % 256) as u8,
        ((x / 16777216) % 256) as u8,
    ]
}

/// The bit pattern of a signed 32-bit value, as an unsigned one.
pub open spec fn as_unsigned32(x: int) -> int {
    if x < 0 {
        x + 0x1_0000_0000
    } else {
        x
    }
}

/// Reading back the bytes of a `u16` gives it again.
pub proof fn lemma_le16_round_trip(x: int)
    requires
        0 <= x < 0x1_0000,
    ensures
        u16_le(le16(x), 0) == x,
        le16(x).len() == 2,
{
    assert(u16_le(le16(x), 0) == x % 256 + ((x / 256) % 256) * 256);
}

/// Reading back the bytes of a `u32` gives it again.
pub proof fn lemma_le32_round_trip(x: int)
    requires
        0 <= x < 0x1_0000_0000,
    ensures
        u32_le(le32(x), 0) == x,
        le32(x).len() == 4,
{
    let b0 = x % 256;
    let b1 = (x / 256) % 256;
    let b2 = (x / 65536) % 256;
    let b3 = (x / 16777216) % 256;
    assert(x == b0 + b1 * 256 + b2 * 65536 + b3 * 16777216) by (nonlinear_arith)
        requires
            0 <= x < 0x1_0000_0000,
            b0 == x % 256,
            b1 == (x / 256) % 256,
            b2 == (x / 65536) % 256,
            b3 == (x / 16777216) % 256,
    ;
}

/// The `u16` at `p`, if two bytes are there.
pub fn read_u16(b: &[u8], p: usize) -> (r: Option<u16>)
    ensures
        r matches Some(v) ==> p + 2 <= b@.len() && v == u16_le(b@, p as int),
        r is None ==> p + 2 > b@.len(),
{
    if p > b.len() || b.len() - p < 2 {
        return None;
    }
    Some((b[p] as u16) + (b[p + 1] as u16) * 256)
}

/// The `u32` at `p`, if four bytes are there.
pub fn read_u32(b: &[u8], p: usize) -> (r: Option<u32>)
    ensures
        r matches Some(v) ==> p + 4 <= b@.len() && v == u32_le(b@, p as int),
        r is None ==> p + 4 > b@.len(),
{
    if p > b.len() || b.len() - p < 4 {
        return None;
    }
    Some((b[p] as u32) + (b[p + 1] as u32) * 256 + (b[p + 2] as u32) * 65536 + (b[p + 3] as u32)
        * 16777216)
}

/// The `i32` at `p`, if four bytes are there.
pub fn read_i32(b: &[u8], p: usize) -> (r: Option<i32>)
    ensures
        r matches Some(v) ==> p + 4 <= b@.len() && v == as_signed32(u32_le(b@, p as int)),
        r is None ==> p + 4 > b@.len(),
{
    match read_u32(b, p) {
        Some(u) => {
            if u >= 0x8000_0000 {
                Some(((u - 0x8000_0000) as i32) - 0x7FFF_FFFF - 1)
            } else {
                Some(u as i32)
            }
        },
        None => None,
    }
}

/// Appends the little-endian bytes of a `u16`.
pub fn push_u16(out: &mut Vec<u8>, x: u16)
    ensures
        final(out)@ == old(out)@ + le16(x as int),
{
    out.push((x % 256) as u8);
    out.push(((x / 256) % 256) as u8);
    assert(final(out)@ =~= old(out)@ + le16(x as int));
}

/// Appends the little-endian bytes of a `u32`.
pub fn push_u32(out: &mut Vec<u8>, x: u32)
    ensures
        final(out)@ == old(out)@ + le32(x as int),
{
    out.push((x % 256) as u8);
    out.push(((x / 256) % 256) as u8);
    out.push(((x / 65536) % 256) as u8);
    out.push(((x / 16777216) % 256) as u8);
    assert(final(out)@ =~= old(out)@ + le32(x as int));
}

/// Appends the little-endian bytes of an `i32`.
pub fn push_i32(out: &mut Vec<u8>, x: i32)
    ensures
        final(out)@ == old(out)@ + le32(as_unsigned32(x as int)),
{
    let u: u32 = if x < 0 {
        ((x as i64) + 0x1_0000_0000i64) as u32
    } else {
        x as u32
    };
    push_u32(out, u);
}

/// The bit pattern of a signed 16-bit value, as an unsigned one.
pub open spec fn as_unsigned16(x: int) -> int {
    if x < 0 {
        x + 0x1_0000
    } else {
        x
    }
}

/// The two's-complement `i16` whose bit pattern is the unsigned `u`.
pub open spec fn as_signed16(u: int) -> int {
    if u >= 0x8000 {
        u - 0x1_0000
    } else {
        u
    }
}

/// Appends the little-endian bytes of an `i16`.
pub fn push_i16(out: &mut Vec<u8>, x: i16)
    ensures
        final(out)@ == old(out)@ + le16(as_unsigned16(x as int)),
{
    let u: u16 = if x < 0 {
        ((x as i32) + 0x1_0000i32) as u16
    } else {
        x as u16
    };
    push_u16(out, u);
}

/// The `i16` at `p`, if two bytes are there.
pub fn read_i16(b: &[u8], p: usize) -> (r: Option<i16>)
    ensures
        r matches Some(v) ==> p + 2 <= b@.len() && v == as_signed16(u16_le(b@, p as int)),
        r is None ==> p + 2 > b@.len(),
{
    match read_u16(b, p) {
        Some(u) => {
            if u >= 0x8000 {
                Some(((u as i32) - 0x1_0000i32) as i16)
            } else {
                Some(u as i16)
            }
        },
        None => None,
    }
}

/// Reading back the bytes of an `i32` gives it again.
pub proof fn lemma_i32_round_trip(x: i32)
    ensures
        as_signed32(u32_le(le32(as_unsigned32(x as int)), 0)) == x,
        le32(as_unsigned32(x as int)).len() == 4,
{
    lemma_le32_round_trip(as_unsigned32(x as int));
}

/// Reading back the bytes of an `i16` gives it again.
pub proof fn lemma_i16_round_trip(x: i16)
    ensures
        as_signed16(u16_le(le16(as_unsigned16(x as int)), 0)) == x,
        le16(as_unsigned16(x as int)).len() == 2,
{
    lemma_le16_round_trip(as_unsigned16(x as int));
}

/// The little-endian bytes of a `u32`, as an array.
pub fn u32_le_bytes(n: u32) -> (r: [u8; 4])
    ensures
        r@ == le32(n as int),
{
    let r = [(n % 256) as u8, ((n / 256) % 256) as u8, ((n / 65536) % 256) as u8, ((n / 16777216)
        % 256) as u8];
    assert(r@ =~= le32(n as int));
    r
}


/// The little-endian `u64` at `p`.
pub open spec fn u64_le(b: Seq<u8>, p: int) -> int {
    u32_le(b, p) + u32_le(b, p + 4) * 0x1_0000_0000
}

/// The little-endian bytes of a `u64`.
pub open spec fn le64(x: int) -> Seq<u8> {
    le32(x % 0x1_0000_0000) + le32(x / 0x1_0000_0000)
}

/// Reading back the bytes of a `u64` gives it again.
pub proof fn lemma_le64_round_trip(x: int)
    requires
        0 <= x < 0x1_0000_0000_0000_0000,
    ensures
        u64_le(le64(x), 0) == x,
        le64(x).len() == 8,
{
    let lo = x % 0x1_0000_0000;
    let hi = x / 0x1_0000_0000;
    lemma_le32_round_trip(lo);
    lemma_le32_round_trip(hi);
    let b = le64(x);
    let l = le32(lo);
    let h = le32(hi);
    assert(b[0] == l[0] && b[1] == l[1] && b[2] == l[2] && b[3] == l[3]);
    assert(b[4] == h[0] && b[5] == h[1] && b[6] == h[2] && b[7] == h[3]);
    assert(u32_le(b, 0) == u32_le(l, 0));
    assert(u32_le(b, 4) == u32_le(h, 0));
}

/// The `u64` at `p`, if eight bytes are there.
pub fn read_u64(b: &[u8], p: usize) -> (r: Option<u64>)
    ensures
        r matches Some(v) ==> p + 8 <= b@.len() && v == u64_le(b@, p as int),
        r is None ==> p + 8 > b@.len(),
{
    if p > b.len() || b.len() - p < 8 {
        return None;
    }
    let lo = read_u32(b, p).unwrap();
    let hi = read_u32(b, p + 4).unwrap();
    Some(lo as u64 + (hi as u64) * 0x1_0000_0000u64)
}

/// Appends the little-endian bytes of a `u64`.
pub fn push_u64(out: &mut Vec<u8>, x: u64)
    ensures
        final(out)@ == old(out)@ + le64(x as int),
{
    push_u32(out, (x % 0x1_0000_0000u64) as u32);
    push_u32(out, (x / 0x1_0000_0000u64) as u32);
    assert(final(out)@ =~= old(out)@ + le64(x as int));
}

/// The bytes of the `u16` read at `p` are the bytes that were there.
pub proof fn lemma_le16_of_read(b: Seq<u8>, p: int)
    requires
        0 <= p,
        p + 2 <= b.len(),
    ensures
        le16(u16_le(b, p)) == b.subrange(p, p + 2),
{
    let a0 = b[p] as int;
    let a1 = b[p + 1] as int;
    let x = u16_le(b, p);
    assert(x % 256 == a0 && (x / 256) % 256 == a1) by (nonlinear_arith)
        requires
            0 <= a0 < 256,
            0 <= a1 < 256,
            x == a0 + a1 * 256,
    ;
    assert(le16(x) =~= b.subrange(p, p + 2));
}

/// The bytes of the `u32` read at `p` are the bytes that were there.
pub proof fn lemma_le32_of_read(b: Seq<u8>, p: int)
    requires
        0 <= p,
        p + 4 <= b.len(),
    ensures
        le32(u32_le(b, p)) == b.subrange(p, p + 4),
        0 <= u32_le(b, p) < 0x1_0000_0000,
{
    let a0 = b[p] as int;
    let a1 = b[p + 1] as int;
    let a2 = b[p + 2] as int;
    let a3 = b[p + 3] as int;
    let x = u32_le(b, p);
    assert(x % 256 == a0 && (x / 256) % 256 == a1 && (x / 65536) % 256 == a2 && (x / 16777216) % 256 == a3
        && 0 <= x < 0x1_0000_0000) by (nonlinear_arith)
        requires
            0 <= a0 < 256,
            0 <= a1 < 256,
            0 <= a2 < 256,
            0 <= a3 < 256,
            x == a0 + a1 * 256 + a2 * 65536 + a3 * 16777216,
    ;
    assert(le32(x) =~= b.subrange(p, p + 4));
}

/// The bytes of the `u64` read at `p` are the bytes that were there.
pub proof fn lemma_le64_of_read(b: Seq<u8>, p: int)
    requires
        0 <= p,
        p + 8 <= b.len(),
    ensures
        le64(u64_le(b, p)) == b.subrange(p, p + 8),
{
    lemma_le32_of_read(b, p);
    lemma_le32_of_read(b, p + 4);
    let lo = u32_le(b, p);
    let hi = u32_le(b, p + 4);
    let x = u64_le(b, p);
    assert(x % 0x1_0000_0000 == lo && x / 0x1_0000_0000 == hi) by (nonlinear_arith)
        requires
            0 <= lo < 0x1_0000_0000,
            0 <= hi < 0x1_0000_0000,
            x == lo + hi * 0x1_0000_0000,
    ;
    assert(le64(x) =~= b.subrange(p, p + 8));
}

} // verus!
