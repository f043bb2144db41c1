//! Binary records of tracks and vias: decoding a record body, encoding a
//! fresh one, and patching the typed fields into a preserved original.

use vstd::prelude::*;

use crate::binary::{
    lemma_common_prefix_round_trip, read_common_prefix, spec_common_prefix, spec_common_prefix_bytes, spec_decode_flags, spec_encode_flags,
    write_common_prefix_full, CommonPrefix, PrimitiveFlags,
};
use crate::bytes::{
    as_signed16, as_signed32, as_unsigned16, as_unsigned32, le16, le32, push_i16, push_i32, push_u16, push_u32,
    lemma_i32_round_trip, lemma_le16_round_trip, read_i16, read_i32, read_u16, u16_le, u32_le,
};
use crate::coord::{Coord, CoordPoint};
use crate::flatten::{push_record, record_bytes};
use crate::primitives::{is_default_track, is_default_via, Track, Via};

verus! {

/// Why a record body could not be decoded.
#[derive(Debug, Clone, Copy, PartialEq, Eq, Structural)]
pub enum ReadError {
    /// The body ends inside a field the record layout requires.
    Truncated,
}

/// Header flag bits the typed fields stand for: locked, polygon outline,
/// tenting, fabrication test points and keepout.
pub const MODELLED_FLAG_BITS: u16 = 0x3E6;

/// The header flag bits no typed field stands for.
pub open spec fn extra_bits(bits: u16) -> u16 {
    bits & 0xFC19u16
}

/// The signed 32-bit value at `p`.
pub open spec fn i32_at(b: Seq<u8>, p: int) -> i32 {
    as_signed32(u32_le(b, p)) as i32
}

/// The little-endian bytes of a signed 32-bit value.
pub open spec fn i32_bytes(x: i32) -> Seq<u8> {
    le32(as_unsigned32(x as int))
}

/// `b` with `bytes` written over it at `off`, when they fit; else `b`.
pub open spec fn patched(b: Seq<u8>, off: int, bytes: Seq<u8>) -> Seq<u8> {
    if 0 <= off && off + bytes.len() <= b.len() {
        b.subrange(0, off) + bytes + b.subrange(off + bytes.len(), b.len() as int)
    } else {
        b
    }
}

/// Writes `bytes` over `b` at `off` when they fit.
pub fn patch_bytes(b: &mut Vec<u8>, off: usize, bytes: &[u8])
    ensures
        final(b)@ == patched(old(b)@, off as int, bytes@),
{
    if off > b.len() || b.len() - off < bytes.len() {
        return;
    }
    let ghost start = b@;
    let mut i: usize = 0;
    while i < bytes.len()
        invariant
            i <= bytes@.len(),
            off + bytes@.len() <= start.len(),
            b@.len() == start.len(),
            start.len() == b.len(),
            forall|k: int| 0 <= k < off ==> b@[k] == start[k],
            forall|k: int| off + bytes@.len() <= k < start.len() ==> b@[k] == start[k],
            forall|k: int| off <= k < off + i ==> b@[k] == bytes@[k - off],
            forall|k: int| off + i <= k < off + bytes@.len() ==> b@[k] == start[k],
        decreases bytes@.len() - i,
    {
        b.set(off + i, bytes[i]);
        i += 1;
    }
    assert(b@ =~= patched(start, off as int, bytes@));
}

pub(crate) fn i32_vec(x: i32) -> (r: Vec<u8>)
    ensures
        r@ == i32_bytes(x),
{
    let mut v: Vec<u8> = Vec::new();
    push_i32(&mut v, x);
    assert(v@ =~= i32_bytes(x));
    v
}

/// The typed fields of the common prefix written over a preserved record:
/// layer, flags, net word and component word; the reserved words stay.
pub open spec fn patched_prefix(b: Seq<u8>, layer: u8, flags: u16, net_index: i32, component_index: i32) -> Seq<u8> {
    let p = spec_common_prefix_bytes(layer, flags, net_index, component_index);
    patched(patched(patched(b, 0, p.subrange(0, 3)), 3, p.subrange(3, 5)), 7, p.subrange(7, 9))
}

pub fn patch_common_prefix(b: &mut Vec<u8>, layer: u8, flags: u16, net_index: i32, component_index: i32)
    ensures
        final(b)@ == patched_prefix(old(b)@, layer, flags, net_index, component_index),
{
    let mut p: Vec<u8> = Vec::new();
    write_common_prefix_full(&mut p, layer, flags, net_index, component_index);
    let ghost ps = spec_common_prefix_bytes(layer, flags, net_index, component_index);
    assert(p@ =~= ps);
    patch_bytes(b, 0, &p.as_slice()[0..3]);
    patch_bytes(b, 3, &p.as_slice()[3..5]);
    patch_bytes(b, 7, &p.as_slice()[7..9]);
}

// ---------------------------------------------------------------------------
// Tracks

/// The header bitfield written for a track.
pub open spec fn track_flag_bits(t: Track) -> u16 {
    spec_encode_flags(
        PrimitiveFlags {
            is_locked: t.is_locked,
            is_tenting_top: t.is_tenting_top,
            is_tenting_bottom: t.is_tenting_bottom,
            is_keepout: t.is_keepout,
        },
    ) | t.flags_extra | (if t.is_polygon_outline { 2u16 } else { 0u16 })
}

fn track_flags(t: &Track) -> (bits: u16)
    ensures
        bits == track_flag_bits(*t),
{
    let f = PrimitiveFlags {
        is_locked: t.is_locked,
        is_tenting_top: t.is_tenting_top,
        is_tenting_bottom: t.is_tenting_bottom,
        is_keepout: t.is_keepout,
    };
    let poly: u16 = if t.is_polygon_outline { 2u16 } else { 0u16 };
    f.encode() | t.flags_extra | poly
}

/// Altium's V7 layer identifier for a legacy layer byte.
pub open spec fn spec_v7_layer_id(layer: i32) -> u32 {
    if layer == 32 {
        0x0100_FFFF
    } else if 1 <= layer <= 31 {
        (0x0100_0000 + layer) as u32
    } else if 39 <= layer <= 54 {
        (0x0101_0000 + layer - 38) as u32
    } else if 57 <= layer <= 72 {
        (0x0102_0000 + layer - 56) as u32
    } else if layer == 33 {
        0x0103_0006
    } else if layer == 34 {
        0x0103_0007
    } else if layer == 35 {
        0x0103_0008
    } else if layer == 36 {
        0x0103_0009
    } else if layer == 37 {
        0x0103_000A
    } else if layer == 38 {
        0x0103_000B
    } else if layer == 55 {
        0x0103_000C
    } else if layer == 56 {
        0x0103_000D
    } else if layer == 73 {
        0x0103_000E
    } else {
        0x0103_000F
    }
}

/// Altium's V7 layer identifier for a legacy layer byte (the value stored in
/// the extended record tails and in `LAYER_V8_*LAYERID`); the multi-layer's
/// id for anything unknown.
pub fn v7_layer_id(layer: i32) -> (r: u32)
    ensures
        r == spec_v7_layer_id(layer),
{
    if layer == 32 {
        0x0100_FFFF
    } else if 1 <= layer && layer <= 31 {
        0x0100_0000 + layer as u32
    } else if 39 <= layer && layer <= 54 {
        0x0101_0000 + (layer - 38) as u32
    } else if 57 <= layer && layer <= 72 {
        0x0102_0000 + (layer - 56) as u32
    } else if layer == 33 {
        0x0103_0006
    } else if layer == 34 {
        0x0103_0007
    } else if layer == 35 {
        0x0103_0008
    } else if layer == 36 {
        0x0103_0009
    } else if layer == 37 {
        0x0103_000A
    } else if layer == 38 {
        0x0103_000B
    } else if layer == 55 {
        0x0103_000C
    } else if layer == 56 {
        0x0103_000D
    } else if layer == 73 {
        0x0103_000E
    } else {
        0x0103_000F
    }
}

/// The 49-byte body Altium writes for a track: common prefix, end points,
/// width, sub-polygon index, pad byte, union index, pad byte, V7 layer id
/// and a reserved word.
pub open spec fn fresh_track_body(t: Track) -> Seq<u8> {
    spec_common_prefix_bytes(t.layer as u8, track_flag_bits(t), t.net_index as i32, t.component_index)
        + i32_bytes(t.start.x.raw) + i32_bytes(t.start.y.raw) + i32_bytes(t.end.x.raw) + i32_bytes(t.end.y.raw)
        + i32_bytes(t.width.raw) + le16(0) + seq![0u8] + le32(0) + seq![0u8] + le32(spec_v7_layer_id(t.layer) as int)
        + le32(0)
}

/// The body written for a track: its preserved record with the typed fields
/// patched in, or a fresh one.
pub open spec fn spec_track_body(t: Track) -> Seq<u8> {
    match t.raw_record {
        Some(raw) => patched(
            patched(
                patched(
                    patched_prefix(raw@, t.layer as u8, track_flag_bits(t), t.net_index as i32, t.component_index),
                    13,
                    i32_bytes(t.start.x.raw) + i32_bytes(t.start.y.raw),
                ),
                21,
                i32_bytes(t.end.x.raw) + i32_bytes(t.end.y.raw),
            ),
            29,
            i32_bytes(t.width.raw),
        ),
        None => fresh_track_body(t),
    }
}

pub(crate) fn point_vec(p: CoordPoint) -> (r: Vec<u8>)
    ensures
        r@ == i32_bytes(p.x.raw) + i32_bytes(p.y.raw),
{
    let mut v: Vec<u8> = Vec::new();
    push_i32(&mut v, p.x.raw);
    push_i32(&mut v, p.y.raw);
    v
}

/// The record body written for a track.
pub fn track_body(t: &Track) -> (r: Vec<u8>)
    ensures
        r@ == spec_track_body(*t),
{
    let flags = track_flags(t);
    match &t.raw_record {
        Some(raw) => {
            let mut b = raw.clone();
            assert(b@ == raw@);
            patch_common_prefix(&mut b, t.layer as u8, flags, t.net_index as i32, t.component_index);
            let s = point_vec(t.start);
            patch_bytes(&mut b, 13, s.as_slice());
            let e = point_vec(t.end);
            patch_bytes(&mut b, 21, e.as_slice());
            let w = i32_vec(t.width.raw);
            patch_bytes(&mut b, 29, w.as_slice());
            b
        },
        None => {
            let mut b: Vec<u8> = Vec::new();
            write_common_prefix_full(&mut b, t.layer as u8, flags, t.net_index as i32, t.component_index);
            push_i32(&mut b, t.start.x.raw);
            push_i32(&mut b, t.start.y.raw);
            push_i32(&mut b, t.end.x.raw);
            push_i32(&mut b, t.end.y.raw);
            push_i32(&mut b, t.width.raw);
            push_u16(&mut b, 0);
            b.push(0u8);
            push_u32(&mut b, 0);
            b.push(0u8);
            push_u32(&mut b, v7_layer_id(t.layer));
            push_u32(&mut b, 0);
            assert(b@ =~= fresh_track_body(*t));
            b
        },
    }
}

/// Every field of `t` that a track record does not carry holds its default.
#[verifier::opaque]
pub open spec fn track_rest_is_default(t: Track) -> bool {
    is_default_track(
        Track {
            start: CoordPoint { x: Coord { raw: 0 }, y: Coord { raw: 0 } },
            end: CoordPoint { x: Coord { raw: 0 }, y: Coord { raw: 0 } },
            width: Coord { raw: 0 },
            layer: 0,
            net_index: 0,
            component_index: -1i32,
            is_locked: false,
            is_tenting_top: false,
            is_tenting_bottom: false,
            is_keepout: false,
            flags_extra: crate::binary::FLAG_ALTIUM_NATIVE,
            is_polygon_outline: false,
            raw_record: None,
            ..t
        },
    )
}

/// The typed fields a track record body holds: the prefix, the end points
/// and the width, the net from the sub-net word when one is there.
pub open spec fn track_fields_from(t: Track, body: Seq<u8>) -> bool {
    let cp = spec_common_prefix(body, 0);
    let subnet: int = if 36 <= body.len() { u16_le(body, 33) } else { 0 };
    let f = spec_decode_flags(cp.flags);
    &&& t.start.x.raw == i32_at(body, 13) && t.start.y.raw == i32_at(body, 17)
    &&& t.end.x.raw == i32_at(body, 21) && t.end.y.raw == i32_at(body, 25)
    &&& t.width.raw == i32_at(body, 29)
    &&& t.layer == cp.layer as i32
    &&& t.component_index == cp.component_index
    &&& t.net_index == (if subnet != 0 && subnet != 0xFFFF {
        subnet
    } else if cp.net_index >= 0 {
        cp.net_index as int
    } else {
        0
    }) as u16
    &&& t.is_locked == f.is_locked && t.is_tenting_top == f.is_tenting_top
    &&& t.is_tenting_bottom == f.is_tenting_bottom && t.is_keepout == f.is_keepout
    &&& t.flags_extra == extra_bits(cp.flags)
    &&& t.is_polygon_outline == (cp.flags & 2u16 != 0u16)
}

/// The track a record body describes: its typed fields, the default
/// everywhere else, and the body kept as the raw record.
pub open spec fn track_read_from(t: Track, body: Seq<u8>) -> bool {
    &&& track_fields_from(t, body)
    &&& track_rest_is_default(t)
    &&& t.raw_record matches Some(raw) && raw@ == body
}

/// Decodes a track record body: `None` for an empty body, an error when it
/// ends before the width.
pub fn read_track(body: Vec<u8>) -> (r: Result<Option<Track>, ReadError>)
    ensures
        body@.len() == 0 ==> r == Ok::<Option<Track>, ReadError>(None),
        0 < body@.len() < 33 ==> r == Err::<Option<Track>, ReadError>(ReadError::Truncated),
        33 <= body@.len() ==> (r matches Ok(Some(t)) && track_read_from(t, body@)),
{
    if body.len() == 0 {
        return Ok(None);
    }
    if body.len() < 33 {
        return Err(ReadError::Truncated);
    }
    let b = body.as_slice();
    let cp = read_common_prefix(b, 0).unwrap();
    let start_x = read_i32(b, 13).unwrap();
    let start_y = read_i32(b, 17).unwrap();
    let end_x = read_i32(b, 21).unwrap();
    let end_y = read_i32(b, 25).unwrap();
    let width = read_i32(b, 29).unwrap();
    let subnet: u16 = if 36 <= b.len() {
        read_u16(b, 33).unwrap()
    } else {
        0
    };
    let net_index: u16 = if subnet != 0 && subnet != 0xFFFF {
        subnet
    } else if cp.net_index >= 0 {
        cp.net_index as u16
    } else {
        0
    };
    let pf = PrimitiveFlags::decode(cp.flags);
    let mut track = Track::default();
    track.start = CoordPoint::new(Coord::from_raw(start_x), Coord::from_raw(start_y));
    track.end = CoordPoint::new(Coord::from_raw(end_x), Coord::from_raw(end_y));
    track.width = Coord::from_raw(width);
    track.layer = cp.layer as i32;
    track.net_index = net_index;
    track.component_index = cp.component_index;
    track.is_locked = pf.is_locked;
    track.is_tenting_top = pf.is_tenting_top;
    track.is_tenting_bottom = pf.is_tenting_bottom;
    track.is_keepout = pf.is_keepout;
    track.flags_extra = cp.flags & 0xFC19u16;
    track.is_polygon_outline = (cp.flags & 2u16) != 0;
    track.raw_record = Some(body);
    proof {
        reveal(track_rest_is_default);
    }
    Ok(Some(track))
}

proof fn lemma_track_flags(t: Track)
    requires
        extra_bits(t.flags_extra) == t.flags_extra,
    ensures
        spec_decode_flags(track_flag_bits(t)) == (PrimitiveFlags {
            is_locked: t.is_locked,
            is_tenting_top: t.is_tenting_top,
            is_tenting_bottom: t.is_tenting_bottom,
            is_keepout: t.is_keepout,
        }),
        extra_bits(track_flag_bits(t)) == t.flags_extra,
        (track_flag_bits(t) & 2u16 != 0u16) == t.is_polygon_outline,
{
    let a: u16 = if t.is_locked { 0u16 } else { 4u16 };
    let b: u16 = if t.is_tenting_top { 0x20u16 } else { 0u16 };
    let c: u16 = if t.is_tenting_bottom { 0x40u16 } else { 0u16 };
    let d: u16 = if t.is_keepout { 0x200u16 } else { 0u16 };
    let p: u16 = if t.is_polygon_outline { 2u16 } else { 0u16 };
    let e: u16 = t.flags_extra;
    assert((a == 0u16 || a == 4u16) && (b == 0u16 || b == 0x20u16) && (c == 0u16 || c == 0x40u16)
        && (d == 0u16 || d == 0x200u16) && (p == 0u16 || p == 2u16) && e & 0xFC19u16 == e ==> {
        let x = a | b | c | d | e | p;
        &&& ((x & 4u16) == 0u16 <==> a == 0u16)
        &&& ((x & 0x20u16) != 0u16 <==> b != 0u16)
        &&& ((x & 0x40u16) != 0u16 <==> c != 0u16)
        &&& ((x & 0x200u16) != 0u16 <==> d != 0u16)
        &&& ((x & 2u16) != 0u16 <==> p != 0u16)
        &&& x & 0xFC19u16 == e
    }) by (bit_vector);
}

/// Reading `n` little-endian bytes at `p` of `a + b` reads `b` when `p`
/// lies past `a`.
pub proof fn lemma_i32_in(body: Seq<u8>, p: int, x: i32)
    requires
        0 <= p,
        p + 4 <= body.len(),
        body.subrange(p, p + 4) == i32_bytes(x),
    ensures
        i32_at(body, p) == x,
{
    lemma_i32_round_trip(x);
    let w = i32_bytes(x);
    assert(body[p] == w[0] && body[p + 1] == w[1] && body[p + 2] == w[2] && body[p + 3] == w[3]);
    assert(u32_le(body, p) == u32_le(w, 0));
}

/// Where each typed field sits in a freshly written track body.
pub(crate) proof fn lemma_fresh_track_layout(t: Track)
    ensures
        fresh_track_body(t).len() == 49,
        fresh_track_body(t).subrange(0, 13) == spec_common_prefix_bytes(
            t.layer as u8,
            track_flag_bits(t),
            t.net_index as i32,
            t.component_index,
        ),
        fresh_track_body(t).subrange(13, 17) == i32_bytes(t.start.x.raw),
        fresh_track_body(t).subrange(17, 21) == i32_bytes(t.start.y.raw),
        fresh_track_body(t).subrange(21, 25) == i32_bytes(t.end.x.raw),
        fresh_track_body(t).subrange(25, 29) == i32_bytes(t.end.y.raw),
        fresh_track_body(t).subrange(29, 33) == i32_bytes(t.width.raw),
        fresh_track_body(t)[33] == 0u8,
        fresh_track_body(t)[34] == 0u8,
{
    let pre = spec_common_prefix_bytes(t.layer as u8, track_flag_bits(t), t.net_index as i32, t.component_index);
    let a = i32_bytes(t.start.x.raw);
    let b = i32_bytes(t.start.y.raw);
    let c = i32_bytes(t.end.x.raw);
    let d = i32_bytes(t.end.y.raw);
    let w = i32_bytes(t.width.raw);
    let tail = le16(0) + seq![0u8] + le32(0) + seq![0u8] + le32(spec_v7_layer_id(t.layer) as int) + le32(0);
    let body = fresh_track_body(t);
    assert(body =~= pre + a + b + c + d + w + tail);
    assert(pre.len() == 13);
    assert(tail.len() == 16);
    assert(body.subrange(0, 13) =~= pre);
    assert(body.subrange(13, 17) =~= a);
    assert(body.subrange(17, 21) =~= b);
    assert(body.subrange(21, 25) =~= c);
    assert(body.subrange(25, 29) =~= d);
    assert(body.subrange(29, 33) =~= w);
    assert(body[33] == tail[0]);
    assert(body[34] == tail[1]);
}

/// Writing a track that has no preserved record and reading the body back
/// gives its end points, width, layer, net, owner and flags again, when the
/// layer fits a byte, the owner index fits its on-disk word and the extra
/// flag bits lie outside the modelled ones.
pub proof fn lemma_track_round_trip(t: Track, back: Track)
    requires
        t.raw_record is None,
        0 <= t.layer <= 255,
        -1 <= t.component_index <= 0xFFFE,
        extra_bits(t.flags_extra) == t.flags_extra,
        track_read_from(back, spec_track_body(t)),
    ensures
        back.start == t.start,
        back.end == t.end,
        back.width == t.width,
        back.layer == t.layer,
        back.net_index == t.net_index,
        back.component_index == t.component_index,
        back.is_locked == t.is_locked,
        back.is_tenting_top == t.is_tenting_top,
        back.is_tenting_bottom == t.is_tenting_bottom,
        back.is_keepout == t.is_keepout,
        back.flags_extra == t.flags_extra,
        back.is_polygon_outline == t.is_polygon_outline,
{
    let body = fresh_track_body(t);
    assert(spec_track_body(t) == body);
    let bits = track_flag_bits(t);
    let pre = spec_common_prefix_bytes(t.layer as u8, bits, t.net_index as i32, t.component_index);
    lemma_fresh_track_layout(t);
    lemma_common_prefix_round_trip(t.layer as u8, bits, t.net_index as i32, t.component_index);
    assert forall|k: int| 0 <= k < 13 implies body[k] == pre[k] by {
        assert(body.subrange(0, 13)[k] == body[k]);
    }
    assert(spec_common_prefix(body, 0) == spec_common_prefix(pre, 0));
    lemma_track_flags(t);
    lemma_i32_in(body, 13, t.start.x.raw);
    lemma_i32_in(body, 17, t.start.y.raw);
    lemma_i32_in(body, 21, t.end.x.raw);
    lemma_i32_in(body, 25, t.end.y.raw);
    lemma_i32_in(body, 29, t.width.raw);
    assert(u16_le(body, 33) == 0);
}

// ---------------------------------------------------------------------------
// Vias

/// The header bitfield written for a via.
pub open spec fn via_flag_bits(v: Via) -> u16 {
    spec_encode_flags(
        PrimitiveFlags {
            is_locked: v.is_locked,
            is_tenting_top: v.is_tenting_top,
            is_tenting_bottom: v.is_tenting_bottom,
            is_keepout: v.is_keepout,
        },
    ) | v.flags_extra | (if v.is_testpoint_fab_top { 0x80u16 } else { 0u16 }) | (if v.is_testpoint_fab_bottom {
        0x100u16
    } else {
        0u16
    })
}

fn via_flags(v: &Via) -> (bits: u16)
    ensures
        bits == via_flag_bits(*v),
{
    let f = PrimitiveFlags {
        is_locked: v.is_locked,
        is_tenting_top: v.is_tenting_top,
        is_tenting_bottom: v.is_tenting_bottom,
        is_keepout: v.is_keepout,
    };
    let top: u16 = if v.is_testpoint_fab_top { 0x80u16 } else { 0u16 };
    let bottom: u16 = if v.is_testpoint_fab_bottom { 0x100u16 } else { 0u16 };
    f.encode() | v.flags_extra | top | bottom
}

/// The bytes of a run of coordinates, each a little-endian `i32`.
pub open spec fn coords_bytes(s: Seq<Coord>) -> Seq<u8>
    decreases s.len(),
{
    if s.len() == 0 {
        seq![]
    } else {
        coords_bytes(s.drop_last()) + i32_bytes(s.last().raw)
    }
}

/// Size of the via record block Altium writes; the bytes after the typed
/// fields are zero.
pub const VIA_BLOCK_TOTAL: usize = 360;

/// The first 31 bytes of a via body: prefix, location, diameter, hole size
/// and the layer span.
pub open spec fn via_head_bytes(v: Via) -> Seq<u8> {
    spec_common_prefix_bytes(v.layer as u8, via_flag_bits(v), v.net_index as i32, v.component_index)
        + i32_bytes(v.location.x.raw) + i32_bytes(v.location.y.raw) + i32_bytes(v.diameter.raw)
        + i32_bytes(v.hole_size.raw) + seq![v.start_layer as u8, v.end_layer as u8]
}

/// Bytes 31 to 75 of a via body: thermal relief, plane, mask and mode fields.
pub open spec fn via_mid_bytes(v: Via) -> Seq<u8> {
    seq![0u8] + i32_bytes(v.thermal_relief_air_gap.raw) + seq![v.thermal_relief_conductors as u8, 0u8]
        + i32_bytes(v.thermal_relief_conductors_width.raw) + i32_bytes(v.power_plane_clearance.raw)
        + i32_bytes(v.power_plane_relief_expansion.raw) + le32(0) + i32_bytes(v.solder_mask_expansion.raw)
        + v.reserved_block_8@ + seq![
        if v.solder_mask_expansion_manual {
            2u8
        } else {
            0u8
        },
        v.reserved_byte_after_mask_flag,
    ] + le16(0) + le32(0) + seq![v.mode as u8]
}

/// The 360-byte body Altium writes for a via.
pub open spec fn fresh_via_body(v: Via) -> Seq<u8> {
    via_head_bytes(v) + via_mid_bytes(v) + coords_bytes(v.diameters@) + le16(
        as_unsigned16(v.trailing_reserved_i16 as int),
    ) + i32_bytes(v.trailing_reserved_i32) + Seq::new(151, |i: int| 0u8)
}

/// The body written for a via: its preserved record with the typed fields
/// patched in, or a fresh one.
pub open spec fn spec_via_body(v: Via) -> Seq<u8> {
    match v.raw_record {
        Some(raw) => patched(
            patched(
                patched(
                    patched(
                        patched(
                            patched_prefix(raw@, v.layer as u8, via_flag_bits(v), v.net_index as i32, v.component_index),
                            13,
                            i32_bytes(v.location.x.raw) + i32_bytes(v.location.y.raw),
                        ),
                        21,
                        i32_bytes(v.diameter.raw),
                    ),
                    25,
                    i32_bytes(v.hole_size.raw),
                ),
                29,
                seq![v.start_layer as u8],
            ),
            30,
            seq![v.end_layer as u8],
        ),
        None => fresh_via_body(v),
    }
}

fn push_coords(out: &mut Vec<u8>, c: &[Coord; 32])
    ensures
        final(out)@ == old(out)@ + coords_bytes(c@),
{
    let ghost start = out@;
    let mut i: usize = 0;
    while i < 32
        invariant
            i <= 32,
            c@.len() == 32,
            out@ == start + coords_bytes(c@.take(i as int)),
        decreases 32 - i,
    {
        push_i32(out, c[i].raw);
        i += 1;
        assert(c@.take(i as int).drop_last() =~= c@.take(i - 1));
        assert(out@ =~= start + coords_bytes(c@.take(i as int)));
    }
    assert(c@.take(32) =~= c@);
}

fn push_via_head(out: &mut Vec<u8>, v: &Via)
    ensures
        final(out)@ == old(out)@ + via_head_bytes(*v),
{
    let flags = via_flags(v);
    write_common_prefix_full(out, v.layer as u8, flags, v.net_index as i32, v.component_index);
    push_i32(out, v.location.x.raw);
    push_i32(out, v.location.y.raw);
    push_i32(out, v.diameter.raw);
    push_i32(out, v.hole_size.raw);
    out.push(v.start_layer as u8);
    out.push(v.end_layer as u8);
    assert(final(out)@ =~= old(out)@ + via_head_bytes(*v));
}

fn push_via_mid(out: &mut Vec<u8>, v: &Via)
    ensures
        final(out)@ == old(out)@ + via_mid_bytes(*v),
{
    out.push(0u8);
    push_i32(out, v.thermal_relief_air_gap.raw);
    out.push(v.thermal_relief_conductors as u8);
    out.push(0u8);
    push_i32(out, v.thermal_relief_conductors_width.raw);
    push_i32(out, v.power_plane_clearance.raw);
    push_i32(out, v.power_plane_relief_expansion.raw);
    push_u32(out, 0);
    push_i32(out, v.solder_mask_expansion.raw);
    let ghost before = out@;
    let mut k: usize = 0;
    while k < 8
        invariant
            k <= 8,
            v.reserved_block_8@.len() == 8,
            out@ == before + v.reserved_block_8@.take(k as int),
        decreases 8 - k,
    {
        out.push(v.reserved_block_8[k]);
        k += 1;
        assert(out@ =~= before + v.reserved_block_8@.take(k as int));
    }
    assert(v.reserved_block_8@.take(8) =~= v.reserved_block_8@);
    out.push(if v.solder_mask_expansion_manual { 2u8 } else { 0u8 });
    out.push(v.reserved_byte_after_mask_flag);
    push_u16(out, 0);
    push_u32(out, 0);
    out.push(v.mode as u8);
    assert(final(out)@ =~= old(out)@ + via_mid_bytes(*v));
}

/// The record body written for a via.
pub fn via_body(v: &Via) -> (r: Vec<u8>)
    ensures
        r@ == spec_via_body(*v),
{
    let flags = via_flags(v);
    match &v.raw_record {
        Some(raw) => {
            let mut b = raw.clone();
            assert(b@ == raw@);
            patch_common_prefix(&mut b, v.layer as u8, flags, v.net_index as i32, v.component_index);
            let l = point_vec(v.location);
            patch_bytes(&mut b, 13, l.as_slice());
            let d = i32_vec(v.diameter.raw);
            patch_bytes(&mut b, 21, d.as_slice());
            let h = i32_vec(v.hole_size.raw);
            patch_bytes(&mut b, 25, h.as_slice());
            let s = vec![v.start_layer as u8];
            patch_bytes(&mut b, 29, s.as_slice());
            let e = vec![v.end_layer as u8];
            patch_bytes(&mut b, 30, e.as_slice());
            b
        },
        None => {
            let mut b: Vec<u8> = Vec::new();
            push_via_head(&mut b, v);
            push_via_mid(&mut b, v);
            push_coords(&mut b, &v.diameters);
            push_i16(&mut b, v.trailing_reserved_i16);
            push_i32(&mut b, v.trailing_reserved_i32);
            let ghost before = b@;
            let mut k: usize = 0;
            while k < 151
                invariant
                    k <= 151,
                    b@ == before + Seq::new(k as nat, |i: int| 0u8),
                decreases 151 - k,
            {
                b.push(0u8);
                k += 1;
                assert(b@ =~= before + Seq::new(k as nat, |i: int| 0u8));
            }
            assert(b@ =~= fresh_via_body(*v));
            b
        },
    }
}

/// Every field of `v` that a via record does not carry holds its default.
pub open spec fn via_rest_is_default(v: Via) -> bool {
    &&& v.net is None
    &&& v.unique_id is None
    &&& !v.is_tented
    &&& !v.is_test_point
    &&& v.paste_mask_expansion.raw == 0
    &&& !v.is_hidden
    &&& !v.allow_global_edit
    &&& !v.moveable
    &&& v.enabled
    &&& v.height.raw == 0
    &&& v.is_plated
    &&& v.power_plane_connect_style == 0
    &&& v.drill_layer_pair_type == 0
    &&& v.hole_positive_tolerance.raw == 0
    &&& v.hole_negative_tolerance.raw == 0
    &&& !v.is_free_primitive
    &&& !v.is_pre_route
    &&& !v.tear_drop
    &&& !v.is_testpoint_top
    &&& !v.is_testpoint_bottom
    &&& !v.is_assy_testpoint_top
    &&& !v.is_assy_testpoint_bottom
    &&& !v.is_electrical_prim
    &&& !v.is_backdrill
    &&& !v.is_counter_hole
    &&& !v.user_routed
    &&& v.union_index == 0
    &&& !v.polygon_outline
    &&& !v.solder_mask_expansion_from_hole_edge
}

/// The typed fields of the first 31 bytes of a via body.
pub open spec fn via_head_from(v: Via, body: Seq<u8>) -> bool {
    let cp = spec_common_prefix(body, 0);
    let f = spec_decode_flags(cp.flags);
    &&& v.location.x.raw == i32_at(body, 13) && v.location.y.raw == i32_at(body, 17)
    &&& v.diameter.raw == i32_at(body, 21) && v.hole_size.raw == i32_at(body, 25)
    &&& v.start_layer == body[29] as i32 && v.end_layer == body[30] as i32
    &&& v.layer == cp.layer as i32
    &&& v.net_index == (if cp.net_index >= 0 { cp.net_index as int } else { 0 }) as u16
    &&& v.component_index == cp.component_index
    &&& v.is_locked == f.is_locked && v.is_tenting_top == f.is_tenting_top
    &&& v.is_tenting_bottom == f.is_tenting_bottom && v.is_keepout == f.is_keepout
    &&& v.flags_extra == extra_bits(cp.flags)
    &&& v.is_testpoint_fab_top == (cp.flags & 0x80u16 != 0u16)
    &&& v.is_testpoint_fab_bottom == (cp.flags & 0x100u16 != 0u16)
}

/// The typed fields of bytes 31 to 209 of a via body.
pub open spec fn via_tail_from(v: Via, body: Seq<u8>) -> bool {
    &&& v.thermal_relief_air_gap.raw == i32_at(body, 32)
    &&& v.thermal_relief_conductors == body[36] as i32
    &&& v.thermal_relief_conductors_width.raw == i32_at(body, 38)
    &&& v.power_plane_clearance.raw == i32_at(body, 42)
    &&& v.power_plane_relief_expansion.raw == i32_at(body, 46)
    &&& v.solder_mask_expansion.raw == i32_at(body, 54)
    &&& v.reserved_block_8@ == body.subrange(58, 66)
    &&& v.solder_mask_expansion_manual == (body[66] == 2u8)
    &&& v.reserved_byte_after_mask_flag == body[67]
    &&& v.mode == body[74] as i32
    &&& forall|i: int| 0 <= i < 32 ==> (#[trigger] v.diameters@[i]).raw == i32_at(body, 75 + 4 * i)
    &&& v.trailing_reserved_i16 == as_signed16(u16_le(body, 203)) as i16
    &&& v.trailing_reserved_i32 == i32_at(body, 205)
}

/// The tail fields as `Via::default()` holds them.
pub open spec fn via_tail_default(v: Via) -> bool {
    &&& v.thermal_relief_air_gap.raw == 0 && v.thermal_relief_conductors == 0
    &&& v.thermal_relief_conductors_width.raw == 0 && v.power_plane_clearance.raw == 0
    &&& v.power_plane_relief_expansion.raw == 0 && v.solder_mask_expansion.raw == 0
    &&& v.reserved_block_8@ == seq![0u8, 0u8, 0u8, 1u8, 1u8, 1u8, 1u8, 0u8]
    &&& !v.solder_mask_expansion_manual && v.reserved_byte_after_mask_flag == 1 && v.mode == 0
    &&& v.diameters@ == Seq::new(32, |i: int| Coord { raw: 0 })
    &&& v.trailing_reserved_i16 == 15 && v.trailing_reserved_i32 == 259
}

/// The via a record body describes: the head fields, the tail fields when
/// the body runs past the head (their defaults when it ends there), the
/// default everywhere else, and the body kept as the raw record.
pub open spec fn via_read_from(v: Via, body: Seq<u8>) -> bool {
    &&& via_head_from(v, body)
    &&& if body.len() > 31 {
        via_tail_from(v, body)
    } else {
        via_tail_default(v)
    }
    &&& via_rest_is_default(v)
    &&& v.raw_record matches Some(raw) && raw@ == body
}

pub(crate) fn read_i32_or_zero(b: &[u8], p: usize) -> (r: i32)
    requires
        p + 4 <= b@.len(),
    ensures
        r == i32_at(b@, p as int),
{
    match read_i32(b, p) {
        Some(v) => v,
        None => 0,
    }
}

/// Decodes a via record body: `None` for an empty body, an error when it
/// ends inside the head, or past the head but before the end of the tail.
pub fn read_via(body: Vec<u8>) -> (r: Result<Option<Via>, ReadError>)
    ensures
        body@.len() == 0 ==> r == Ok::<Option<Via>, ReadError>(None),
        (0 < body@.len() < 31 || 31 < body@.len() < 209) ==> r == Err::<Option<Via>, ReadError>(
            ReadError::Truncated,
        ),
        (body@.len() == 31 || 209 <= body@.len()) ==> (r matches Ok(Some(v)) && via_read_from(v, body@)),
{
    if body.len() == 0 {
        return Ok(None);
    }
    if body.len() < 31 || (31 < body.len() && body.len() < 209) {
        return Err(ReadError::Truncated);
    }
    let b = body.as_slice();
    let cp = read_common_prefix(b, 0).unwrap();
    let pf = PrimitiveFlags::decode(cp.flags);
    let mut rv = Via::default();
    rv.location = CoordPoint::new(Coord::from_raw(read_i32_or_zero(b, 13)), Coord::from_raw(read_i32_or_zero(b, 17)));
    rv.diameter = Coord::from_raw(read_i32_or_zero(b, 21));
    rv.hole_size = Coord::from_raw(read_i32_or_zero(b, 25));
    rv.start_layer = b[29] as i32;
    rv.end_layer = b[30] as i32;
    rv.layer = cp.layer as i32;
    rv.net_index = if cp.net_index >= 0 { cp.net_index as u16 } else { 0 };
    rv.component_index = cp.component_index;
    rv.is_locked = pf.is_locked;
    rv.is_tenting_top = pf.is_tenting_top;
    rv.is_tenting_bottom = pf.is_tenting_bottom;
    rv.is_keepout = pf.is_keepout;
    rv.flags_extra = cp.flags & 0xFC19u16;
    rv.is_testpoint_fab_top = (cp.flags & 0x80u16) != 0;
    rv.is_testpoint_fab_bottom = (cp.flags & 0x100u16) != 0;
    if b.len() > 31 {
        rv.thermal_relief_air_gap = Coord::from_raw(read_i32_or_zero(b, 32));
        rv.thermal_relief_conductors = b[36] as i32;
        rv.thermal_relief_conductors_width = Coord::from_raw(read_i32_or_zero(b, 38));
        rv.power_plane_clearance = Coord::from_raw(read_i32_or_zero(b, 42));
        rv.power_plane_relief_expansion = Coord::from_raw(read_i32_or_zero(b, 46));
        rv.solder_mask_expansion = Coord::from_raw(read_i32_or_zero(b, 54));
        let mut res = rv.reserved_block_8;
        let mut k: usize = 0;
        while k < 8
            invariant
                k <= 8,
                b@.len() >= 209,
                res@.len() == 8,
                forall|j: int| 0 <= j < k ==> res@[j] == b@[58 + j],
            decreases 8 - k,
        {
            res[k] = b[58 + k];
            k += 1;
        }
        assert(res@ =~= b@.subrange(58, 66));
        rv.reserved_block_8 = res;
        rv.solder_mask_expansion_manual = b[66] == 2u8;
        rv.reserved_byte_after_mask_flag = b[67];
        rv.mode = b[74] as i32;
        let mut ds = rv.diameters;
        let mut i: usize = 0;
        while i < 32
            invariant
                i <= 32,
                b@.len() >= 209,
                ds@.len() == 32,
                forall|j: int| 0 <= j < i ==> (#[trigger] ds@[j]).raw == i32_at(b@, 75 + 4 * j),
            decreases 32 - i,
        {
            ds[i] = Coord::from_raw(read_i32_or_zero(b, 75 + 4 * i));
            i += 1;
        }
        rv.diameters = ds;
        rv.trailing_reserved_i16 = read_i16(b, 203).unwrap();
        rv.trailing_reserved_i32 = read_i32_or_zero(b, 205);
    }
    rv.raw_record = Some(body);
    Ok(Some(rv))
}

/// Appends a track record: its body as a length-prefixed block.
pub fn write_track(out: &mut Vec<u8>, t: &Track)
    ensures
        final(out)@ == old(out)@ + record_bytes(spec_track_body(*t)),
{
    let b = track_body(t);
    push_record(out, b.as_slice());
}

/// Appends a via record: its body as a length-prefixed block.
pub fn write_via(out: &mut Vec<u8>, v: &Via)
    ensures
        final(out)@ == old(out)@ + record_bytes(spec_via_body(*v)),
{
    let b = via_body(v);
    push_record(out, b.as_slice());
}

proof fn lemma_via_flags(v: Via)
    requires
        extra_bits(v.flags_extra) == v.flags_extra,
    ensures
        spec_decode_flags(via_flag_bits(v)) == (PrimitiveFlags {
            is_locked: v.is_locked,
            is_tenting_top: v.is_tenting_top,
            is_tenting_bottom: v.is_tenting_bottom,
            is_keepout: v.is_keepout,
        }),
        extra_bits(via_flag_bits(v)) == v.flags_extra,
        (via_flag_bits(v) & 0x80u16 != 0u16) == v.is_testpoint_fab_top,
        (via_flag_bits(v) & 0x100u16 != 0u16) == v.is_testpoint_fab_bottom,
{
    let a: u16 = if v.is_locked { 0u16 } else { 4u16 };
    let b: u16 = if v.is_tenting_top { 0x20u16 } else { 0u16 };
    let c: u16 = if v.is_tenting_bottom { 0x40u16 } else { 0u16 };
    let d: u16 = if v.is_keepout { 0x200u16 } else { 0u16 };
    let t: u16 = if v.is_testpoint_fab_top { 0x80u16 } else { 0u16 };
    let m: u16 = if v.is_testpoint_fab_bottom { 0x100u16 } else { 0u16 };
    let e: u16 = v.flags_extra;
    assert((a == 0u16 || a == 4u16) && (b == 0u16 || b == 0x20u16) && (c == 0u16 || c == 0x40u16)
        && (d == 0u16 || d == 0x200u16) && (t == 0u16 || t == 0x80u16) && (m == 0u16 || m == 0x100u16)
        && e & 0xFC19u16 == e ==> {
        let x = a | b | c | d | e | t | m;
        &&& ((x & 4u16) == 0u16 <==> a == 0u16)
        &&& ((x & 0x20u16) != 0u16 <==> b != 0u16)
        &&& ((x & 0x40u16) != 0u16 <==> c != 0u16)
        &&& ((x & 0x200u16) != 0u16 <==> d != 0u16)
        &&& ((x & 0x80u16) != 0u16 <==> t != 0u16)
        &&& ((x & 0x100u16) != 0u16 <==> m != 0u16)
        &&& x & 0xFC19u16 == e
    }) by (bit_vector);
}

proof fn lemma_coords_bytes_at(s: Seq<Coord>, i: int)
    requires
        0 <= i < s.len(),
    ensures
        coords_bytes(s).len() == 4 * s.len(),
        coords_bytes(s).subrange(4 * i, 4 * i + 4) == i32_bytes(s[i].raw),
    decreases s.len(),
{
    lemma_coords_len(s);
    if i < s.len() - 1 {
        lemma_coords_bytes_at(s.drop_last(), i);
        let d = coords_bytes(s.drop_last());
        assert(coords_bytes(s).subrange(4 * i, 4 * i + 4) =~= d.subrange(4 * i, 4 * i + 4));
    } else {
        let d = coords_bytes(s.drop_last());
        lemma_coords_len(s.drop_last());
        assert(coords_bytes(s).subrange(4 * i, 4 * i + 4) =~= i32_bytes(s.last().raw));
    }
}

proof fn lemma_coords_len(s: Seq<Coord>)
    ensures
        coords_bytes(s).len() == 4 * s.len(),
    decreases s.len(),
{
    if s.len() > 0 {
        lemma_coords_len(s.drop_last());
        lemma_i32_round_trip(s.last().raw);
    }
}

#[verifier::spinoff_prover]
#[verifier::rlimit(40)]
proof fn lemma_fresh_via_layout(v: Via)
    ensures
        fresh_via_body(v).len() == 360,
        fresh_via_body(v).subrange(0, 31) == via_head_bytes(v),
        fresh_via_body(v).subrange(31, 75) == via_mid_bytes(v),
        fresh_via_body(v).subrange(75, 203) == coords_bytes(v.diameters@),
        fresh_via_body(v).subrange(203, 205) == le16(as_unsigned16(v.trailing_reserved_i16 as int)),
        fresh_via_body(v).subrange(205, 209) == i32_bytes(v.trailing_reserved_i32),
        via_head_bytes(v).len() == 31,
        via_mid_bytes(v).len() == 44,
{
    let h = via_head_bytes(v);
    let m = via_mid_bytes(v);
    let c = coords_bytes(v.diameters@);
    let t16 = le16(as_unsigned16(v.trailing_reserved_i16 as int));
    let t32 = i32_bytes(v.trailing_reserved_i32);
    let z = Seq::new(151, |i: int| 0u8);
    lemma_coords_len(v.diameters@);
    assert(v.diameters@.len() == 32);
    assert(v.reserved_block_8@.len() == 8);
    assert(h.len() == 31);
    assert(m.len() == 44);
    let body = fresh_via_body(v);
    assert(body =~= h + m + c + t16 + t32 + z);
    assert(body.subrange(0, 31) =~= h);
    assert(body.subrange(31, 75) =~= m);
    assert(body.subrange(75, 203) =~= c);
    assert(body.subrange(203, 205) =~= t16);
    assert(body.subrange(205, 209) =~= t32);
}

pub(crate) proof fn lemma_transport(body: Seq<u8>, a: int, part: Seq<u8>, i: int, j: int)
    requires
        0 <= a,
        a + part.len() <= body.len(),
        body.subrange(a, a + part.len()) == part,
        0 <= i <= j <= part.len(),
    ensures
        body.subrange(a + i, a + j) == part.subrange(i, j),
{
    assert forall|k: int| 0 <= k < j - i implies body.subrange(a + i, a + j)[k] == part.subrange(i, j)[k] by {
        assert(body.subrange(a, a + part.len())[i + k] == body[a + i + k]);
    }
    assert(body.subrange(a + i, a + j) =~= part.subrange(i, j));
}

proof fn lemma_via_head_layout(v: Via)
    ensures
        via_head_bytes(v).len() == 31,
        via_head_bytes(v).subrange(0, 13) == spec_common_prefix_bytes(
            v.layer as u8,
            via_flag_bits(v),
            v.net_index as i32,
            v.component_index,
        ),
        via_head_bytes(v).subrange(13, 17) == i32_bytes(v.location.x.raw),
        via_head_bytes(v).subrange(17, 21) == i32_bytes(v.location.y.raw),
        via_head_bytes(v).subrange(21, 25) == i32_bytes(v.diameter.raw),
        via_head_bytes(v).subrange(25, 29) == i32_bytes(v.hole_size.raw),
        via_head_bytes(v)[29] == v.start_layer as u8,
        via_head_bytes(v)[30] == v.end_layer as u8,
{
    let pre = spec_common_prefix_bytes(v.layer as u8, via_flag_bits(v), v.net_index as i32, v.component_index);
    let a = i32_bytes(v.location.x.raw);
    let b = i32_bytes(v.location.y.raw);
    let c = i32_bytes(v.diameter.raw);
    let d = i32_bytes(v.hole_size.raw);
    let e = seq![v.start_layer as u8, v.end_layer as u8];
    let h = via_head_bytes(v);
    assert(h =~= pre + a + b + c + d + e);
    assert(h.subrange(0, 13) =~= pre);
    assert(h.subrange(13, 17) =~= a);
    assert(h.subrange(17, 21) =~= b);
    assert(h.subrange(21, 25) =~= c);
    assert(h.subrange(25, 29) =~= d);
    assert(h[29] == e[0] && h[30] == e[1]);
}

proof fn lemma_via_head_fields(v: Via, body: Seq<u8>)
    requires
        body.len() >= 31,
        body.subrange(0, 31) == via_head_bytes(v),
        0 <= v.layer <= 255,
        0 <= v.start_layer <= 255,
        0 <= v.end_layer <= 255,
        -1 <= v.component_index <= 0xFFFE,
        extra_bits(v.flags_extra) == v.flags_extra,
    ensures
        forall|r: Via| #[trigger] via_head_from(r, body) ==> {
            &&& r.location == v.location && r.diameter == v.diameter && r.hole_size == v.hole_size
            &&& r.start_layer == v.start_layer && r.end_layer == v.end_layer && r.layer == v.layer
            &&& r.net_index == v.net_index && r.component_index == v.component_index
            &&& r.is_locked == v.is_locked && r.is_tenting_top == v.is_tenting_top
            &&& r.is_tenting_bottom == v.is_tenting_bottom && r.is_keepout == v.is_keepout
            &&& r.flags_extra == v.flags_extra && r.is_testpoint_fab_top == v.is_testpoint_fab_top
            &&& r.is_testpoint_fab_bottom == v.is_testpoint_fab_bottom
        },
{
    let bits = via_flag_bits(v);
    let pre = spec_common_prefix_bytes(v.layer as u8, bits, v.net_index as i32, v.component_index);
    let h = via_head_bytes(v);
    lemma_via_head_layout(v);
    lemma_common_prefix_round_trip(v.layer as u8, bits, v.net_index as i32, v.component_index);
    lemma_transport(body, 0, h, 0, 13);
    assert forall|k: int| 0 <= k < 13 implies body[k] == pre[k] by {
        assert(body.subrange(0, 13)[k] == body[k]);
    }
    assert(spec_common_prefix(body, 0) == spec_common_prefix(pre, 0));
    lemma_via_flags(v);
    lemma_transport(body, 0, h, 13, 17);
    lemma_transport(body, 0, h, 17, 21);
    lemma_transport(body, 0, h, 21, 25);
    lemma_transport(body, 0, h, 25, 29);
    lemma_i32_in(body, 13, v.location.x.raw);
    lemma_i32_in(body, 17, v.location.y.raw);
    lemma_i32_in(body, 21, v.diameter.raw);
    lemma_i32_in(body, 25, v.hole_size.raw);
    assert(body[29] == body.subrange(0, 31)[29] && body[30] == body.subrange(0, 31)[30]);
    assert forall|r: Via| #[trigger] via_head_from(r, body) implies r.location == v.location && r.diameter
        == v.diameter && r.hole_size == v.hole_size by {
        assert(r.location =~= v.location);
    }
}

proof fn lemma_via_mid_layout(v: Via)
    ensures
        via_mid_bytes(v).len() == 44,
        via_mid_bytes(v).subrange(1, 5) == i32_bytes(v.thermal_relief_air_gap.raw),
        via_mid_bytes(v)[5] == v.thermal_relief_conductors as u8,
        via_mid_bytes(v).subrange(7, 11) == i32_bytes(v.thermal_relief_conductors_width.raw),
        via_mid_bytes(v).subrange(11, 15) == i32_bytes(v.power_plane_clearance.raw),
        via_mid_bytes(v).subrange(15, 19) == i32_bytes(v.power_plane_relief_expansion.raw),
        via_mid_bytes(v).subrange(23, 27) == i32_bytes(v.solder_mask_expansion.raw),
        via_mid_bytes(v).subrange(27, 35) == v.reserved_block_8@,
        via_mid_bytes(v)[35] == (if v.solder_mask_expansion_manual { 2u8 } else { 0u8 }),
        via_mid_bytes(v)[36] == v.reserved_byte_after_mask_flag,
        via_mid_bytes(v)[43] == v.mode as u8,
{
    let z = seq![0u8];
    let air = i32_bytes(v.thermal_relief_air_gap.raw);
    let cnd = seq![v.thermal_relief_conductors as u8, 0u8];
    let cw = i32_bytes(v.thermal_relief_conductors_width.raw);
    let clr = i32_bytes(v.power_plane_clearance.raw);
    let rel = i32_bytes(v.power_plane_relief_expansion.raw);
    let r0 = le32(0);
    let sm = i32_bytes(v.solder_mask_expansion.raw);
    let res = v.reserved_block_8@;
    let man = seq![if v.solder_mask_expansion_manual { 2u8 } else { 0u8 }, v.reserved_byte_after_mask_flag];
    let tail = le16(0) + le32(0) + seq![v.mode as u8];
    let m = via_mid_bytes(v);
    assert(res.len() == 8);
    assert(m =~= z + air + cnd + cw + clr + rel + r0 + sm + res + man + tail);
    assert(m.subrange(1, 5) =~= air);
    assert(m.subrange(7, 11) =~= cw);
    assert(m.subrange(11, 15) =~= clr);
    assert(m.subrange(15, 19) =~= rel);
    assert(m.subrange(23, 27) =~= sm);
    assert(m.subrange(27, 35) =~= res);
    assert(m[5] == cnd[0]);
    assert(m[35] == man[0] && m[36] == man[1]);
    assert(m[43] == tail[6]);
}

proof fn lemma_via_mid_fields(v: Via, body: Seq<u8>)
    requires
        body.len() >= 209,
        body.subrange(31, 75) == via_mid_bytes(v),
        0 <= v.thermal_relief_conductors <= 255,
        0 <= v.mode <= 255,
    ensures
        i32_at(body, 32) == v.thermal_relief_air_gap.raw,
        body[36] as i32 == v.thermal_relief_conductors,
        i32_at(body, 38) == v.thermal_relief_conductors_width.raw,
        i32_at(body, 42) == v.power_plane_clearance.raw,
        i32_at(body, 46) == v.power_plane_relief_expansion.raw,
        i32_at(body, 54) == v.solder_mask_expansion.raw,
        body.subrange(58, 66) == v.reserved_block_8@,
        (body[66] == 2u8) == v.solder_mask_expansion_manual,
        body[67] == v.reserved_byte_after_mask_flag,
        body[74] as i32 == v.mode,
{
    let m = via_mid_bytes(v);
    lemma_via_mid_layout(v);
    lemma_transport(body, 31, m, 1, 5);
    lemma_transport(body, 31, m, 7, 11);
    lemma_transport(body, 31, m, 11, 15);
    lemma_transport(body, 31, m, 15, 19);
    lemma_transport(body, 31, m, 23, 27);
    lemma_transport(body, 31, m, 27, 35);
    lemma_i32_in(body, 32, v.thermal_relief_air_gap.raw);
    lemma_i32_in(body, 38, v.thermal_relief_conductors_width.raw);
    lemma_i32_in(body, 42, v.power_plane_clearance.raw);
    lemma_i32_in(body, 46, v.power_plane_relief_expansion.raw);
    lemma_i32_in(body, 54, v.solder_mask_expansion.raw);
    assert(body[36] == body.subrange(31, 75)[5]);
    assert(body[66] == body.subrange(31, 75)[35]);
    assert(body[67] == body.subrange(31, 75)[36]);
    assert(body[74] == body.subrange(31, 75)[43]);
}

/// Writing a via that has no preserved record and reading the body back
/// gives every field the record carries again, when the layer bytes,
/// thermal-relief conductor count and mode fit a byte, the owner index fits
/// its on-disk word and the extra flag bits lie outside the modelled ones.
pub proof fn lemma_via_round_trip(v: Via, back: Via)
    requires
        v.raw_record is None,
        0 <= v.layer <= 255,
        0 <= v.start_layer <= 255,
        0 <= v.end_layer <= 255,
        0 <= v.thermal_relief_conductors <= 255,
        0 <= v.mode <= 255,
        -1 <= v.component_index <= 0xFFFE,
        extra_bits(v.flags_extra) == v.flags_extra,
        via_read_from(back, spec_via_body(v)),
    ensures
        back.location == v.location && back.diameter == v.diameter && back.hole_size == v.hole_size,
        back.start_layer == v.start_layer && back.end_layer == v.end_layer && back.layer == v.layer,
        back.net_index == v.net_index && back.component_index == v.component_index,
        back.is_locked == v.is_locked && back.is_tenting_top == v.is_tenting_top,
        back.is_tenting_bottom == v.is_tenting_bottom && back.is_keepout == v.is_keepout,
        back.flags_extra == v.flags_extra,
        back.is_testpoint_fab_top == v.is_testpoint_fab_top,
        back.is_testpoint_fab_bottom == v.is_testpoint_fab_bottom,
        back.thermal_relief_air_gap == v.thermal_relief_air_gap,
        back.thermal_relief_conductors == v.thermal_relief_conductors,
        back.thermal_relief_conductors_width == v.thermal_relief_conductors_width,
        back.power_plane_clearance == v.power_plane_clearance,
        back.power_plane_relief_expansion == v.power_plane_relief_expansion,
        back.solder_mask_expansion == v.solder_mask_expansion,
        back.reserved_block_8 == v.reserved_block_8,
        back.solder_mask_expansion_manual == v.solder_mask_expansion_manual,
        back.reserved_byte_after_mask_flag == v.reserved_byte_after_mask_flag,
        back.mode == v.mode,
        back.diameters == v.diameters,
        back.trailing_reserved_i16 == v.trailing_reserved_i16,
        back.trailing_reserved_i32 == v.trailing_reserved_i32,
{
    let body = fresh_via_body(v);
    assert(spec_via_body(v) == body);
    lemma_fresh_via_layout(v);
    lemma_via_head_fields(v, body);
    assert(via_head_from(back, body));
    lemma_via_mid_fields(v, body);
    assert(via_tail_from(back, body));
    assert(back.reserved_block_8@ == v.reserved_block_8@);
    assert(back.reserved_block_8 =~= v.reserved_block_8);
    assert forall|i: int| 0 <= i < 32 implies back.diameters@[i] == v.diameters@[i] by {
        lemma_coords_bytes_at(v.diameters@, i);
        lemma_transport(body, 75, coords_bytes(v.diameters@), 4 * i, 4 * i + 4);
        lemma_i32_in(body, 75 + 4 * i, v.diameters@[i].raw);
        assert(back.diameters@[i].raw == v.diameters@[i].raw);
    }
    assert(back.diameters =~= v.diameters);
    lemma_i32_in(body, 205, v.trailing_reserved_i32);
    crate::bytes::lemma_i16_round_trip(v.trailing_reserved_i16);
    assert(body[203] == body.subrange(203, 205)[0] && body[204] == body.subrange(203, 205)[1]);
    assert(u16_le(body, 203) == u16_le(le16(as_unsigned16(v.trailing_reserved_i16 as int)), 0));
    assert(back.thermal_relief_air_gap =~= v.thermal_relief_air_gap);
}

// ---------------------------------------------------------------------------
// Rewriting what was read

/// Writing over `b` the bytes it already holds leaves it as it is.
pub proof fn lemma_patched_same(b: Seq<u8>, off: int, x: Seq<u8>)
    requires
        0 <= off,
        off + x.len() <= b.len(),
        b.subrange(off, off + x.len()) == x,
    ensures
        patched(b, off, x) == b,
{
    assert(patched(b, off, x) =~= b) by {
        assert forall|k: int| off <= k < off + x.len() implies b[k] == x[k - off] by {
            assert(b.subrange(off, off + x.len())[k - off] == b[k]);
        }
    }
}

/// The bytes of the `i32` read at `p` are the bytes that were there.
pub proof fn lemma_i32_bytes_of_read(b: Seq<u8>, p: int)
    requires
        0 <= p,
        p + 4 <= b.len(),
    ensures
        i32_bytes(i32_at(b, p)) == b.subrange(p, p + 4),
{
    crate::bytes::lemma_le32_of_read(b, p);
    let u = u32_le(b, p);
    assert(as_unsigned32(as_signed32(u)) == u);
    assert((as_signed32(u) as i32) as int == as_signed32(u));
}

/// The net index a reader takes from a prefix.
pub open spec fn prefix_net(cp: CommonPrefix) -> u16 {
    (if cp.net_index >= 0 {
        cp.net_index as int
    } else {
        0
    }) as u16
}

/// Writing the prefix fields a reader took from a record back over it
/// leaves the record as it is.
pub proof fn lemma_prefix_rewrite(b: Seq<u8>)
    requires
        13 <= b.len(),
    ensures
        ({
            let cp = spec_common_prefix(b, 0);
            patched_prefix(b, cp.layer, cp.flags, prefix_net(cp) as i32, cp.component_index) == b
        }),
{
    let cp = spec_common_prefix(b, 0);
    let pb = spec_common_prefix_bytes(cp.layer, cp.flags, prefix_net(cp) as i32, cp.component_index);
    crate::bytes::lemma_le16_of_read(b, 1);
    crate::bytes::lemma_le16_of_read(b, 3);
    crate::bytes::lemma_le16_of_read(b, 7);
    assert(pb.subrange(0, 3) =~= b.subrange(0, 3));
    assert(pb.subrange(3, 5) =~= b.subrange(3, 5));
    assert(pb.subrange(7, 9) =~= b.subrange(7, 9));
    lemma_patched_same(b, 0, pb.subrange(0, 3));
    lemma_patched_same(b, 3, pb.subrange(3, 5));
    lemma_patched_same(b, 7, pb.subrange(7, 9));
}

/// Re-encoding the flags a reader decoded, with the polygon-outline bit kept
/// and the fabrication test-point bits not, gives the bitfield back when the
/// latter are clear.
pub proof fn lemma_outline_flags_rewrite(bits: u16)
    requires
        bits & 0x180u16 == 0u16,
    ensures
        spec_encode_flags(spec_decode_flags(bits)) | (bits & 0xFC19u16) | (if bits & 2u16 != 0u16 {
            2u16
        } else {
            0u16
        }) == bits,
        bits & 2u16 == 0u16 ==> spec_encode_flags(spec_decode_flags(bits)) | (bits & 0xFC19u16) | 0u16 == bits,
{
    let a: u16 = if bits & 4u16 == 0u16 { 0u16 } else { 4u16 };
    let b: u16 = if bits & 0x20u16 != 0u16 { 0x20u16 } else { 0u16 };
    let c: u16 = if bits & 0x40u16 != 0u16 { 0x40u16 } else { 0u16 };
    let d: u16 = if bits & 0x200u16 != 0u16 { 0x200u16 } else { 0u16 };
    let o: u16 = if bits & 2u16 != 0u16 { 2u16 } else { 0u16 };
    assert(a | b | c | d | (bits & 0xFC19u16) | o == bits && (bits & 2u16 == 0u16 ==> a | b | c | d | (bits
        & 0xFC19u16) | 0u16 == bits)) by (bit_vector)
        requires
            bits & 0x180u16 == 0u16,
            a == (if bits & 4u16 == 0u16 { 0u16 } else { 4u16 }),
            b == (if bits & 0x20u16 != 0u16 { 0x20u16 } else { 0u16 }),
            c == (if bits & 0x40u16 != 0u16 { 0x40u16 } else { 0u16 }),
            d == (if bits & 0x200u16 != 0u16 { 0x200u16 } else { 0u16 }),
            o == (if bits & 2u16 != 0u16 { 2u16 } else { 0u16 }),
    ;
}

/// Re-encoding the flags a reader decoded, with the fabrication test-point
/// bits kept and the polygon-outline bit not, gives the bitfield back when
/// the latter is clear.
pub proof fn lemma_fab_flags_rewrite(bits: u16)
    requires
        bits & 2u16 == 0u16,
    ensures
        spec_encode_flags(spec_decode_flags(bits)) | (bits & 0xFC19u16) | (if bits & 0x80u16 != 0u16 {
            0x80u16
        } else {
            0u16
        }) | (if bits & 0x100u16 != 0u16 {
            0x100u16
        } else {
            0u16
        }) == bits,
{
    let a: u16 = if bits & 4u16 == 0u16 { 0u16 } else { 4u16 };
    let b: u16 = if bits & 0x20u16 != 0u16 { 0x20u16 } else { 0u16 };
    let c: u16 = if bits & 0x40u16 != 0u16 { 0x40u16 } else { 0u16 };
    let d: u16 = if bits & 0x200u16 != 0u16 { 0x200u16 } else { 0u16 };
    let t: u16 = if bits & 0x80u16 != 0u16 { 0x80u16 } else { 0u16 };
    let m: u16 = if bits & 0x100u16 != 0u16 { 0x100u16 } else { 0u16 };
    assert(a | b | c | d | (bits & 0xFC19u16) | t | m == bits) by (bit_vector)
        requires
            bits & 2u16 == 0u16,
            a == (if bits & 4u16 == 0u16 { 0u16 } else { 4u16 }),
            b == (if bits & 0x20u16 != 0u16 { 0x20u16 } else { 0u16 }),
            c == (if bits & 0x40u16 != 0u16 { 0x40u16 } else { 0u16 }),
            d == (if bits & 0x200u16 != 0u16 { 0x200u16 } else { 0u16 }),
            t == (if bits & 0x80u16 != 0u16 { 0x80u16 } else { 0u16 }),
            m == (if bits & 0x100u16 != 0u16 { 0x100u16 } else { 0u16 }),
    ;
}

/// Reading a track body and writing the track back gives the body again,
/// when the net the track takes (from the sub-net word, if set) is the
/// prefix's own and the fabrication test-point bits, which no track field
/// keeps, are clear.
pub proof fn lemma_track_rewrite(body: Seq<u8>, t: Track)
    requires
        33 <= body.len(),
        track_read_from(t, body),
        t.net_index == prefix_net(spec_common_prefix(body, 0)),
        spec_common_prefix(body, 0).flags & 0x180u16 == 0u16,
    ensures
        spec_track_body(t) == body,
{
    let cp = spec_common_prefix(body, 0);
    lemma_outline_flags_rewrite(cp.flags);
    assert(track_flag_bits(t) == cp.flags);
    lemma_prefix_rewrite(body);
    lemma_i32_bytes_of_read(body, 13);
    lemma_i32_bytes_of_read(body, 17);
    lemma_i32_bytes_of_read(body, 21);
    lemma_i32_bytes_of_read(body, 25);
    lemma_i32_bytes_of_read(body, 29);
    assert(i32_bytes(t.start.x.raw) + i32_bytes(t.start.y.raw) =~= body.subrange(13, 21));
    assert(i32_bytes(t.end.x.raw) + i32_bytes(t.end.y.raw) =~= body.subrange(21, 29));
    lemma_patched_same(body, 13, body.subrange(13, 21));
    lemma_patched_same(body, 21, body.subrange(21, 29));
    lemma_patched_same(body, 29, body.subrange(29, 33));
}

/// Reading a via body and writing the via back gives the body again, when
/// the polygon-outline bit, which no via field keeps, is clear.
pub proof fn lemma_via_rewrite(body: Seq<u8>, v: Via)
    requires
        body.len() == 31 || 209 <= body.len(),
        via_read_from(v, body),
        spec_common_prefix(body, 0).flags & 2u16 == 0u16,
    ensures
        spec_via_body(v) == body,
{
    let cp = spec_common_prefix(body, 0);
    lemma_fab_flags_rewrite(cp.flags);
    assert(via_flag_bits(v) == cp.flags);
    lemma_prefix_rewrite(body);
    lemma_i32_bytes_of_read(body, 13);
    lemma_i32_bytes_of_read(body, 17);
    lemma_i32_bytes_of_read(body, 21);
    lemma_i32_bytes_of_read(body, 25);
    assert(i32_bytes(v.location.x.raw) + i32_bytes(v.location.y.raw) =~= body.subrange(13, 21));
    lemma_patched_same(body, 13, body.subrange(13, 21));
    lemma_patched_same(body, 21, body.subrange(21, 25));
    lemma_patched_same(body, 25, body.subrange(25, 29));
    assert(seq![v.start_layer as u8] =~= body.subrange(29, 30));
    assert(seq![v.end_layer as u8] =~= body.subrange(30, 31));
    lemma_patched_same(body, 29, body.subrange(29, 30));
    lemma_patched_same(body, 30, body.subrange(30, 31));
}

} // verus!
