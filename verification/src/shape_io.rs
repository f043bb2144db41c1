//! Binary records of arcs and fills: decoding a record body, encoding a
//! fresh one, and patching the typed fields into a preserved original.

use vstd::prelude::*;

use crate::binary::{
    lemma_common_prefix_round_trip, read_common_prefix, spec_common_prefix, spec_common_prefix_bytes, spec_decode_flags, spec_encode_flags,
    write_common_prefix_full, PrimitiveFlags,
};
use crate::bytes::{le16, le32, le64, lemma_le64_round_trip, push_i32, push_u16, push_u32, push_u64, read_i32, read_u64, u64_le};
use crate::coord::{Coord, CoordPoint};
use crate::flatten::{push_record, record_bytes};
use crate::primitive_io::{
    extra_bits, i32_at, i32_bytes, i32_vec, lemma_i32_in, patch_bytes, patch_common_prefix, patched, patched_prefix, point_vec,
    spec_v7_layer_id, v7_layer_id, ReadError,
};
use crate::primitives::{is_default_arc, is_default_fill, Arc, Fill};

verus! {

fn u64_vec(x: u64) -> (r: Vec<u8>)
    ensures
        r@ == le64(x as int),
{
    let mut v: Vec<u8> = Vec::new();
    push_u64(&mut v, x);
    assert(v@ =~= le64(x as int));
    v
}

/// Writing the bytes of a `u64` at `p` and reading there gives it again.
pub(crate) proof fn lemma_u64_in(body: Seq<u8>, p: int, x: u64)
    requires
        0 <= p,
        p + 8 <= body.len(),
        body.subrange(p, p + 8) == le64(x as int),
    ensures
        u64_le(body, p) == x,
{
    lemma_le64_round_trip(x as int);
    let w = le64(x as int);
    assert forall|k: int| 0 <= k < 8 implies body[p + k] == w[k] by {
        assert(body.subrange(p, p + 8)[k] == body[p + k]);
    }
    assert(u64_le(body, p) == u64_le(w, 0));
}

/// Header bits for the four modelled flags, the extra bits and, when set,
/// the polygon-outline bit.
pub open spec fn shape_flag_bits(
    is_locked: bool,
    tent_top: bool,
    tent_bottom: bool,
    keepout: bool,
    extra: u16,
    outline: bool,
) -> u16 {
    spec_encode_flags(
        PrimitiveFlags { is_locked, is_tenting_top: tent_top, is_tenting_bottom: tent_bottom, is_keepout: keepout },
    ) | extra | (if outline { 2u16 } else { 0u16 })
}

fn shape_flags(is_locked: bool, tent_top: bool, tent_bottom: bool, keepout: bool, extra: u16, outline: bool) -> (bits: u16)
    ensures
        bits == shape_flag_bits(is_locked, tent_top, tent_bottom, keepout, extra, outline),
{
    let f = PrimitiveFlags { is_locked, is_tenting_top: tent_top, is_tenting_bottom: tent_bottom, is_keepout: keepout };
    let poly: u16 = if outline { 2u16 } else { 0u16 };
    f.encode() | extra | poly
}

pub(crate) proof fn lemma_shape_flags(is_locked: bool, tent_top: bool, tent_bottom: bool, keepout: bool, extra: u16, outline: bool)
    requires
        extra_bits(extra) == extra,
    ensures
        spec_decode_flags(shape_flag_bits(is_locked, tent_top, tent_bottom, keepout, extra, outline)) == (PrimitiveFlags {
            is_locked,
            is_tenting_top: tent_top,
            is_tenting_bottom: tent_bottom,
            is_keepout: keepout,
        }),
        extra_bits(shape_flag_bits(is_locked, tent_top, tent_bottom, keepout, extra, outline)) == extra,
        (shape_flag_bits(is_locked, tent_top, tent_bottom, keepout, extra, outline) & 2u16 != 0u16) == outline,
{
    let a: u16 = if is_locked { 0u16 } else { 4u16 };
    let b: u16 = if tent_top { 0x20u16 } else { 0u16 };
    let c: u16 = if tent_bottom { 0x40u16 } else { 0u16 };
    let d: u16 = if keepout { 0x200u16 } else { 0u16 };
    let p: u16 = if outline { 2u16 } else { 0u16 };
    let e: u16 = extra;
    assert((a == 0u16 || a == 4u16) && (b == 0u16 || b == 0x20u16) && (c == 0u16 || c == 0x40u16)
        && (d == 0u16 || d == 0x200u16) && (p == 0u16 || p == 2u16) && e & 0xFC19u16 == e ==> {
        let x = a | b | c | d | e | p;
        &&& ((x & 4u16) == 0u16 <==> a == 0u16)
        &&& ((x & 0x20u16) != 0u16 <==> b != 0u16)
        &&& ((x & 0x40u16) != 0u16 <==> c != 0u16)
        &&& ((x & 0x200u16) != 0u16 <==> d != 0u16)
        &&& ((x & 2u16) != 0u16 <==> p != 0u16)
        &&& x & 0xFC19u16 == e
    }) by (bit_vector);
}

/// The net index a record's net word gives: itself when not negative,
/// else none.
pub open spec fn net_from_word(w: i32) -> u16 {
    if w >= 0 {
        w as u16
    } else {
        0u16
    }
}

// ---------------------------------------------------------------------------
// Arcs

pub open spec fn arc_flag_bits(a: Arc) -> u16 {
    shape_flag_bits(a.is_locked, a.is_tenting_top, a.is_tenting_bottom, a.is_keepout, a.flags_extra, a.is_polygon_outline)
}

/// The 60-byte body Altium writes for an arc: common prefix, centre, radius,
/// both angles, width, sub-polygon index, pad byte, union index, V7 layer id
/// and a reserved word.
pub open spec fn fresh_arc_body(a: Arc) -> Seq<u8> {
    spec_common_prefix_bytes(a.layer as u8, arc_flag_bits(a), a.net_index as i32, a.component_index)
        + i32_bytes(a.center.x.raw) + i32_bytes(a.center.y.raw) + i32_bytes(a.radius.raw)
        + le64(a.start_angle_bits as int) + le64(a.end_angle_bits as int) + i32_bytes(a.width.raw)
        + le16(0) + seq![0u8] + le32(0) + le32(spec_v7_layer_id(a.layer) as int) + le32(0)
}

/// The body written for an arc: its preserved record with the typed fields
/// patched in, or a fresh one.
pub open spec fn spec_arc_body(a: Arc) -> Seq<u8> {
    match a.raw_record {
        Some(raw) => patched(
            patched(
                patched(
                    patched(
                        patched(
                            patched_prefix(raw@, a.layer as u8, arc_flag_bits(a), a.net_index as i32, a.component_index),
                            13,
                            i32_bytes(a.center.x.raw) + i32_bytes(a.center.y.raw),
                        ),
                        21,
                        i32_bytes(a.radius.raw),
                    ),
                    25,
                    le64(a.start_angle_bits as int),
                ),
                33,
                le64(a.end_angle_bits as int),
            ),
            41,
            i32_bytes(a.width.raw),
        ),
        None => fresh_arc_body(a),
    }
}

/// The record body written for an arc.
pub fn arc_body(a: &Arc) -> (r: Vec<u8>)
    ensures
        r@ == spec_arc_body(*a),
{
    let flags = shape_flags(a.is_locked, a.is_tenting_top, a.is_tenting_bottom, a.is_keepout, a.flags_extra, a.is_polygon_outline);
    match &a.raw_record {
        Some(raw) => {
            let mut b = raw.clone();
            assert(b@ == raw@);
            patch_common_prefix(&mut b, a.layer as u8, flags, a.net_index as i32, a.component_index);
            let c = point_vec(a.center);
            patch_bytes(&mut b, 13, c.as_slice());
            let r = i32_vec(a.radius.raw);
            patch_bytes(&mut b, 21, r.as_slice());
            let s = u64_vec(a.start_angle_bits);
            patch_bytes(&mut b, 25, s.as_slice());
            let e = u64_vec(a.end_angle_bits);
            patch_bytes(&mut b, 33, e.as_slice());
            let w = i32_vec(a.width.raw);
            patch_bytes(&mut b, 41, w.as_slice());
            b
        },
        None => {
            let mut b: Vec<u8> = Vec::new();
            write_common_prefix_full(&mut b, a.layer as u8, flags, a.net_index as i32, a.component_index);
            push_i32(&mut b, a.center.x.raw);
            push_i32(&mut b, a.center.y.raw);
            push_i32(&mut b, a.radius.raw);
            push_u64(&mut b, a.start_angle_bits);
            push_u64(&mut b, a.end_angle_bits);
            push_i32(&mut b, a.width.raw);
            push_u16(&mut b, 0);
            b.push(0u8);
            push_u32(&mut b, 0);
            push_u32(&mut b, v7_layer_id(a.layer));
            push_u32(&mut b, 0);
            assert(b@ =~= fresh_arc_body(*a));
            b
        },
    }
}

/// Appends an arc record: its body as a length-prefixed block.
pub fn write_arc(out: &mut Vec<u8>, a: &Arc)
    ensures
        final(out)@ == old(out)@ + record_bytes(spec_arc_body(*a)),
{
    let b = arc_body(a);
    push_record(out, b.as_slice());
}

/// Every field of `a` that an arc record does not carry holds its default.
#[verifier::opaque]
pub open spec fn arc_rest_is_default(a: Arc) -> bool {
    is_default_arc(
        Arc {
            center: CoordPoint { x: Coord { raw: 0 }, y: Coord { raw: 0 } },
            radius: Coord { raw: 0 },
            start_angle_bits: 0,
            end_angle_bits: 0,
            width: Coord { raw: 0 },
            layer: 0,
            net_index: 0,
            component_index: -1i32,
            is_locked: false,
            is_tenting_top: false,
            is_tenting_bottom: false,
            is_keepout: false,
            flags_extra: crate::binary::FLAG_ALTIUM_NATIVE,
            is_polygon_outline: false,
            raw_record: None,
            ..a
        },
    )
}

/// The typed fields an arc record body holds.
pub open spec fn arc_fields_from(a: Arc, body: Seq<u8>) -> bool {
    let cp = spec_common_prefix(body, 0);
    let f = spec_decode_flags(cp.flags);
    &&& a.center.x.raw == i32_at(body, 13) && a.center.y.raw == i32_at(body, 17)
    &&& a.radius.raw == i32_at(body, 21)
    &&& a.start_angle_bits == u64_le(body, 25)
    &&& a.end_angle_bits == u64_le(body, 33)
    &&& a.width.raw == i32_at(body, 41)
    &&& a.layer == cp.layer as i32
    &&& a.component_index == cp.component_index
    &&& a.net_index == net_from_word(cp.net_index)
    &&& a.is_locked == f.is_locked && a.is_tenting_top == f.is_tenting_top
    &&& a.is_tenting_bottom == f.is_tenting_bottom && a.is_keepout == f.is_keepout
    &&& a.flags_extra == extra_bits(cp.flags)
    &&& a.is_polygon_outline == (cp.flags & 2u16 != 0u16)
}

/// The arc a record body describes: its typed fields, the default
/// everywhere else, and the body kept as the raw record.
pub open spec fn arc_read_from(a: Arc, body: Seq<u8>) -> bool {
    &&& arc_fields_from(a, body)
    &&& arc_rest_is_default(a)
    &&& a.raw_record matches Some(raw) && raw@ == body
}

/// Decodes an arc record body: `None` for an empty body, an error when it
/// ends before the width.
pub fn read_arc(body: Vec<u8>) -> (r: Result<Option<Arc>, ReadError>)
    ensures
        body@.len() == 0 ==> r == Ok::<Option<Arc>, ReadError>(None),
        0 < body@.len() < 45 ==> r == Err::<Option<Arc>, ReadError>(ReadError::Truncated),
        45 <= body@.len() ==> (r matches Ok(Some(a)) && arc_read_from(a, body@)),
{
    if body.len() == 0 {
        return Ok(None);
    }
    if body.len() < 45 {
        return Err(ReadError::Truncated);
    }
    let b = body.as_slice();
    let cp = read_common_prefix(b, 0).unwrap();
    let cx = read_i32(b, 13).unwrap();
    let cy = read_i32(b, 17).unwrap();
    let radius = read_i32(b, 21).unwrap();
    let start = read_u64(b, 25).unwrap();
    let end = read_u64(b, 33).unwrap();
    let width = read_i32(b, 41).unwrap();
    let pf = PrimitiveFlags::decode(cp.flags);
    let mut arc = Arc::default();
    arc.center = CoordPoint::new(Coord::from_raw(cx), Coord::from_raw(cy));
    arc.radius = Coord::from_raw(radius);
    arc.start_angle_bits = start;
    arc.end_angle_bits = end;
    arc.width = Coord::from_raw(width);
    arc.layer = cp.layer as i32;
    arc.component_index = cp.component_index;
    arc.net_index = if cp.net_index >= 0 { cp.net_index as u16 } else { 0 };
    arc.is_locked = pf.is_locked;
    arc.is_tenting_top = pf.is_tenting_top;
    arc.is_tenting_bottom = pf.is_tenting_bottom;
    arc.is_keepout = pf.is_keepout;
    arc.flags_extra = cp.flags & 0xFC19u16;
    arc.is_polygon_outline = (cp.flags & 2u16) != 0;
    arc.raw_record = Some(body);
    proof {
        reveal(arc_rest_is_default);
    }
    Ok(Some(arc))
}

/// Where each typed field sits in a freshly written arc body.
pub(crate) proof fn lemma_fresh_arc_layout(a: Arc)
    ensures
        fresh_arc_body(a).len() == 60,
        fresh_arc_body(a).subrange(0, 13) == spec_common_prefix_bytes(
            a.layer as u8,
            arc_flag_bits(a),
            a.net_index as i32,
            a.component_index,
        ),
        fresh_arc_body(a).subrange(13, 17) == i32_bytes(a.center.x.raw),
        fresh_arc_body(a).subrange(17, 21) == i32_bytes(a.center.y.raw),
        fresh_arc_body(a).subrange(21, 25) == i32_bytes(a.radius.raw),
        fresh_arc_body(a).subrange(25, 33) == le64(a.start_angle_bits as int),
        fresh_arc_body(a).subrange(33, 41) == le64(a.end_angle_bits as int),
        fresh_arc_body(a).subrange(41, 45) == i32_bytes(a.width.raw),
{
    let pre = spec_common_prefix_bytes(a.layer as u8, arc_flag_bits(a), a.net_index as i32, a.component_index);
    let x = i32_bytes(a.center.x.raw);
    let y = i32_bytes(a.center.y.raw);
    let r = i32_bytes(a.radius.raw);
    let s = le64(a.start_angle_bits as int);
    let e = le64(a.end_angle_bits as int);
    let w = i32_bytes(a.width.raw);
    let tail = le16(0) + seq![0u8] + le32(0) + le32(spec_v7_layer_id(a.layer) as int) + le32(0);
    let body = fresh_arc_body(a);
    assert(body =~= pre + x + y + r + s + e + w + tail);
    assert(body.subrange(0, 13) =~= pre);
    assert(body.subrange(13, 17) =~= x);
    assert(body.subrange(17, 21) =~= y);
    assert(body.subrange(21, 25) =~= r);
    assert(body.subrange(25, 33) =~= s);
    assert(body.subrange(33, 41) =~= e);
    assert(body.subrange(41, 45) =~= w);
}

/// Writing an arc that has no preserved record and reading the body back
/// gives its centre, radius, angles, width, layer, net, owner and flags
/// again, when the layer fits a byte, the owner index fits its on-disk word
/// and the extra flag bits lie outside the modelled ones.
pub proof fn lemma_arc_round_trip(a: Arc, back: Arc)
    requires
        a.raw_record is None,
        0 <= a.layer <= 255,
        -1 <= a.component_index <= 0xFFFE,
        extra_bits(a.flags_extra) == a.flags_extra,
        arc_read_from(back, spec_arc_body(a)),
    ensures
        back.center == a.center,
        back.radius == a.radius,
        back.start_angle_bits == a.start_angle_bits,
        back.end_angle_bits == a.end_angle_bits,
        back.width == a.width,
        back.layer == a.layer,
        back.net_index == a.net_index,
        back.component_index == a.component_index,
        back.is_locked == a.is_locked,
        back.is_tenting_top == a.is_tenting_top,
        back.is_tenting_bottom == a.is_tenting_bottom,
        back.is_keepout == a.is_keepout,
        back.flags_extra == a.flags_extra,
        back.is_polygon_outline == a.is_polygon_outline,
{
    let body = fresh_arc_body(a);
    assert(spec_arc_body(a) == body);
    let bits = arc_flag_bits(a);
    let pre = spec_common_prefix_bytes(a.layer as u8, bits, a.net_index as i32, a.component_index);
    lemma_fresh_arc_layout(a);
    lemma_common_prefix_round_trip(a.layer as u8, bits, a.net_index as i32, a.component_index);
    assert forall|k: int| 0 <= k < 13 implies body[k] == pre[k] by {
        assert(body.subrange(0, 13)[k] == body[k]);
    }
    assert(spec_common_prefix(body, 0) == spec_common_prefix(pre, 0));
    lemma_shape_flags(a.is_locked, a.is_tenting_top, a.is_tenting_bottom, a.is_keepout, a.flags_extra, a.is_polygon_outline);
    lemma_i32_in(body, 13, a.center.x.raw);
    lemma_i32_in(body, 17, a.center.y.raw);
    lemma_i32_in(body, 21, a.radius.raw);
    lemma_u64_in(body, 25, a.start_angle_bits);
    lemma_u64_in(body, 33, a.end_angle_bits);
    lemma_i32_in(body, 41, a.width.raw);
}


// ---------------------------------------------------------------------------
// Fills

pub open spec fn fill_flag_bits(f: Fill) -> u16 {
    shape_flag_bits(f.is_locked, f.is_tenting_top, f.is_tenting_bottom, f.is_keepout, f.flags_extra, false)
}

/// The 50-byte body Altium writes for a fill: common prefix, both corners,
/// rotation, sub-polygon index, pad byte, a reserved word, V7 layer id and
/// a reserved word.
pub open spec fn fresh_fill_body(f: Fill) -> Seq<u8> {
    spec_common_prefix_bytes(f.layer as u8, fill_flag_bits(f), f.net_index as i32, f.component_index)
        + i32_bytes(f.corner1.x.raw) + i32_bytes(f.corner1.y.raw) + i32_bytes(f.corner2.x.raw)
        + i32_bytes(f.corner2.y.raw) + le64(f.rotation_bits as int) + le16(0) + seq![0u8] + le16(0)
        + le32(spec_v7_layer_id(f.layer) as int) + le32(0)
}

/// The body written for a fill: its preserved record with the typed fields
/// patched in, or a fresh one.
pub open spec fn spec_fill_body(f: Fill) -> Seq<u8> {
    match f.raw_record {
        Some(raw) => patched(
            patched(
                patched(
                    patched_prefix(raw@, f.layer as u8, fill_flag_bits(f), f.net_index as i32, f.component_index),
                    13,
                    i32_bytes(f.corner1.x.raw) + i32_bytes(f.corner1.y.raw),
                ),
                21,
                i32_bytes(f.corner2.x.raw) + i32_bytes(f.corner2.y.raw),
            ),
            29,
            le64(f.rotation_bits as int),
        ),
        None => fresh_fill_body(f),
    }
}

/// The record body written for a fill.
pub fn fill_body(f: &Fill) -> (r: Vec<u8>)
    ensures
        r@ == spec_fill_body(*f),
{
    let flags = shape_flags(f.is_locked, f.is_tenting_top, f.is_tenting_bottom, f.is_keepout, f.flags_extra, false);
    match &f.raw_record {
        Some(raw) => {
            let mut b = raw.clone();
            assert(b@ == raw@);
            patch_common_prefix(&mut b, f.layer as u8, flags, f.net_index as i32, f.component_index);
            let c1 = point_vec(f.corner1);
            patch_bytes(&mut b, 13, c1.as_slice());
            let c2 = point_vec(f.corner2);
            patch_bytes(&mut b, 21, c2.as_slice());
            let r = u64_vec(f.rotation_bits);
            patch_bytes(&mut b, 29, r.as_slice());
            b
        },
        None => {
            let mut b: Vec<u8> = Vec::new();
            write_common_prefix_full(&mut b, f.layer as u8, flags, f.net_index as i32, f.component_index);
            push_i32(&mut b, f.corner1.x.raw);
            push_i32(&mut b, f.corner1.y.raw);
            push_i32(&mut b, f.corner2.x.raw);
            push_i32(&mut b, f.corner2.y.raw);
            push_u64(&mut b, f.rotation_bits);
            push_u16(&mut b, 0);
            b.push(0u8);
            push_u16(&mut b, 0);
            push_u32(&mut b, v7_layer_id(f.layer));
            push_u32(&mut b, 0);
            assert(b@ =~= fresh_fill_body(*f));
            b
        },
    }
}

/// Appends a fill record: its body as a length-prefixed block.
pub fn write_fill(out: &mut Vec<u8>, f: &Fill)
    ensures
        final(out)@ == old(out)@ + record_bytes(spec_fill_body(*f)),
{
    let b = fill_body(f);
    push_record(out, b.as_slice());
}

/// Every field of `f` that a fill record does not carry holds its default.
#[verifier::opaque]
pub open spec fn fill_rest_is_default(f: Fill) -> bool {
    is_default_fill(
        Fill {
            corner1: CoordPoint { x: Coord { raw: 0 }, y: Coord { raw: 0 } },
            corner2: CoordPoint { x: Coord { raw: 0 }, y: Coord { raw: 0 } },
            rotation_bits: 0,
            layer: 0,
            net_index: 0,
            component_index: -1i32,
            is_locked: false,
            is_tenting_top: false,
            is_tenting_bottom: false,
            is_keepout: false,
            flags_extra: crate::binary::FLAG_ALTIUM_NATIVE,
            raw_record: None,
            ..f
        },
    )
}

/// The typed fields a fill record body holds.
pub open spec fn fill_fields_from(f: Fill, body: Seq<u8>) -> bool {
    let cp = spec_common_prefix(body, 0);
    let fl = spec_decode_flags(cp.flags);
    &&& f.corner1.x.raw == i32_at(body, 13) && f.corner1.y.raw == i32_at(body, 17)
    &&& f.corner2.x.raw == i32_at(body, 21) && f.corner2.y.raw == i32_at(body, 25)
    &&& f.rotation_bits == u64_le(body, 29)
    &&& f.layer == cp.layer as i32
    &&& f.component_index == cp.component_index
    &&& f.net_index == net_from_word(cp.net_index)
    &&& f.is_locked == fl.is_locked && f.is_tenting_top == fl.is_tenting_top
    &&& f.is_tenting_bottom == fl.is_tenting_bottom && f.is_keepout == fl.is_keepout
    &&& f.flags_extra == extra_bits(cp.flags)
}

/// The fill a record body describes: its typed fields, the default
/// everywhere else, and the body kept as the raw record.
pub open spec fn fill_read_from(f: Fill, body: Seq<u8>) -> bool {
    &&& fill_fields_from(f, body)
    &&& fill_rest_is_default(f)
    &&& f.raw_record matches Some(raw) && raw@ == body
}

/// Decodes a fill record body: `None` for an empty body, an error when it
/// ends before the rotation does.
pub fn read_fill(body: Vec<u8>) -> (r: Result<Option<Fill>, ReadError>)
    ensures
        body@.len() == 0 ==> r == Ok::<Option<Fill>, ReadError>(None),
        0 < body@.len() < 37 ==> r == Err::<Option<Fill>, ReadError>(ReadError::Truncated),
        37 <= body@.len() ==> (r matches Ok(Some(f)) && fill_read_from(f, body@)),
{
    if body.len() == 0 {
        return Ok(None);
    }
    if body.len() < 37 {
        return Err(ReadError::Truncated);
    }
    let b = body.as_slice();
    let cp = read_common_prefix(b, 0).unwrap();
    let x1 = read_i32(b, 13).unwrap();
    let y1 = read_i32(b, 17).unwrap();
    let x2 = read_i32(b, 21).unwrap();
    let y2 = read_i32(b, 25).unwrap();
    let rotation = read_u64(b, 29).unwrap();
    let pf = PrimitiveFlags::decode(cp.flags);
    let mut fill = Fill::default();
    fill.corner1 = CoordPoint::new(Coord::from_raw(x1), Coord::from_raw(y1));
    fill.corner2 = CoordPoint::new(Coord::from_raw(x2), Coord::from_raw(y2));
    fill.rotation_bits = rotation;
    fill.layer = cp.layer as i32;
    fill.component_index = cp.component_index;
    fill.net_index = if cp.net_index >= 0 { cp.net_index as u16 } else { 0 };
    fill.is_locked = pf.is_locked;
    fill.is_tenting_top = pf.is_tenting_top;
    fill.is_tenting_bottom = pf.is_tenting_bottom;
    fill.is_keepout = pf.is_keepout;
    fill.flags_extra = cp.flags & 0xFC19u16;
    fill.raw_record = Some(body);
    proof {
        reveal(fill_rest_is_default);
    }
    Ok(Some(fill))
}

/// Where each typed field sits in a freshly written fill body.
pub(crate) proof fn lemma_fresh_fill_layout(f: Fill)
    ensures
        fresh_fill_body(f).len() == 50,
        fresh_fill_body(f).subrange(0, 13) == spec_common_prefix_bytes(
            f.layer as u8,
            fill_flag_bits(f),
            f.net_index as i32,
            f.component_index,
        ),
        fresh_fill_body(f).subrange(13, 17) == i32_bytes(f.corner1.x.raw),
        fresh_fill_body(f).subrange(17, 21) == i32_bytes(f.corner1.y.raw),
        fresh_fill_body(f).subrange(21, 25) == i32_bytes(f.corner2.x.raw),
        fresh_fill_body(f).subrange(25, 29) == i32_bytes(f.corner2.y.raw),
        fresh_fill_body(f).subrange(29, 37) == le64(f.rotation_bits as int),
{
    let pre = spec_common_prefix_bytes(f.layer as u8, fill_flag_bits(f), f.net_index as i32, f.component_index);
    let a = i32_bytes(f.corner1.x.raw);
    let b = i32_bytes(f.corner1.y.raw);
    let c = i32_bytes(f.corner2.x.raw);
    let d = i32_bytes(f.corner2.y.raw);
    let r = le64(f.rotation_bits as int);
    let tail = le16(0) + seq![0u8] + le16(0) + le32(spec_v7_layer_id(f.layer) as int) + le32(0);
    let body = fresh_fill_body(f);
    assert(body =~= pre + a + b + c + d + r + tail);
    assert(body.subrange(0, 13) =~= pre);
    assert(body.subrange(13, 17) =~= a);
    assert(body.subrange(17, 21) =~= b);
    assert(body.subrange(21, 25) =~= c);
    assert(body.subrange(25, 29) =~= d);
    assert(body.subrange(29, 37) =~= r);
}

/// Writing a fill that has no preserved record and reading the body back
/// gives its corners, rotation, layer, net, owner and flags again, when the
/// layer fits a byte, the owner index fits its on-disk word and the extra
/// flag bits lie outside the modelled ones.
pub proof fn lemma_fill_round_trip(f: Fill, back: Fill)
    requires
        f.raw_record is None,
        0 <= f.layer <= 255,
        -1 <= f.component_index <= 0xFFFE,
        extra_bits(f.flags_extra) == f.flags_extra,
        fill_read_from(back, spec_fill_body(f)),
    ensures
        back.corner1 == f.corner1,
        back.corner2 == f.corner2,
        back.rotation_bits == f.rotation_bits,
        back.layer == f.layer,
        back.net_index == f.net_index,
        back.component_index == f.component_index,
        back.is_locked == f.is_locked,
        back.is_tenting_top == f.is_tenting_top,
        back.is_tenting_bottom == f.is_tenting_bottom,
        back.is_keepout == f.is_keepout,
        back.flags_extra == f.flags_extra,
{
    let body = fresh_fill_body(f);
    assert(spec_fill_body(f) == body);
    let bits = fill_flag_bits(f);
    let pre = spec_common_prefix_bytes(f.layer as u8, bits, f.net_index as i32, f.component_index);
    lemma_fresh_fill_layout(f);
    lemma_common_prefix_round_trip(f.layer as u8, bits, f.net_index as i32, f.component_index);
    assert forall|k: int| 0 <= k < 13 implies body[k] == pre[k] by {
        assert(body.subrange(0, 13)[k] == body[k]);
    }
    assert(spec_common_prefix(body, 0) == spec_common_prefix(pre, 0));
    lemma_shape_flags(f.is_locked, f.is_tenting_top, f.is_tenting_bottom, f.is_keepout, f.flags_extra, false);
    lemma_i32_in(body, 13, f.corner1.x.raw);
    lemma_i32_in(body, 17, f.corner1.y.raw);
    lemma_i32_in(body, 21, f.corner2.x.raw);
    lemma_i32_in(body, 25, f.corner2.y.raw);
    lemma_u64_in(body, 29, f.rotation_bits);
}

/// Reading an arc body and writing the arc back gives the body again, when
/// the fabrication test-point bits, which no arc field keeps, are clear.
pub proof fn lemma_arc_rewrite(body: Seq<u8>, a: Arc)
    requires
        45 <= body.len(),
        arc_read_from(a, body),
        spec_common_prefix(body, 0).flags & 0x180u16 == 0u16,
    ensures
        spec_arc_body(a) == body,
{
    let cp = spec_common_prefix(body, 0);
    crate::primitive_io::lemma_outline_flags_rewrite(cp.flags);
    assert(arc_flag_bits(a) == cp.flags);
    crate::primitive_io::lemma_prefix_rewrite(body);
    assert(a.net_index == crate::primitive_io::prefix_net(cp));
    crate::primitive_io::lemma_i32_bytes_of_read(body, 13);
    crate::primitive_io::lemma_i32_bytes_of_read(body, 17);
    crate::primitive_io::lemma_i32_bytes_of_read(body, 21);
    crate::primitive_io::lemma_i32_bytes_of_read(body, 41);
    crate::bytes::lemma_le64_of_read(body, 25);
    crate::bytes::lemma_le64_of_read(body, 33);
    assert(i32_bytes(a.center.x.raw) + i32_bytes(a.center.y.raw) =~= body.subrange(13, 21));
    crate::primitive_io::lemma_patched_same(body, 13, body.subrange(13, 21));
    crate::primitive_io::lemma_patched_same(body, 21, body.subrange(21, 25));
    crate::primitive_io::lemma_patched_same(body, 25, body.subrange(25, 33));
    crate::primitive_io::lemma_patched_same(body, 33, body.subrange(33, 41));
    crate::primitive_io::lemma_patched_same(body, 41, body.subrange(41, 45));
}

/// Reading a fill body and writing the fill back gives the body again,
/// when the polygon-outline and fabrication test-point bits, which no fill
/// field keeps, are clear.
pub proof fn lemma_fill_rewrite(body: Seq<u8>, f: Fill)
    requires
        37 <= body.len(),
        fill_read_from(f, body),
        spec_common_prefix(body, 0).flags & 0x182u16 == 0u16,
    ensures
        spec_fill_body(f) == body,
{
    let cp = spec_common_prefix(body, 0);
    let bits = cp.flags;
    assert(bits & 0x180u16 == 0u16 && bits & 2u16 == 0u16) by (bit_vector)
        requires
            bits & 0x182u16 == 0u16,
    ;
    crate::primitive_io::lemma_outline_flags_rewrite(cp.flags);
    assert(fill_flag_bits(f) == cp.flags);
    crate::primitive_io::lemma_prefix_rewrite(body);
    assert(f.net_index == crate::primitive_io::prefix_net(cp));
    crate::primitive_io::lemma_i32_bytes_of_read(body, 13);
    crate::primitive_io::lemma_i32_bytes_of_read(body, 17);
    crate::primitive_io::lemma_i32_bytes_of_read(body, 21);
    crate::primitive_io::lemma_i32_bytes_of_read(body, 25);
    crate::bytes::lemma_le64_of_read(body, 29);
    assert(i32_bytes(f.corner1.x.raw) + i32_bytes(f.corner1.y.raw) =~= body.subrange(13, 21));
    assert(i32_bytes(f.corner2.x.raw) + i32_bytes(f.corner2.y.raw) =~= body.subrange(21, 29));
    crate::primitive_io::lemma_patched_same(body, 13, body.subrange(13, 21));
    crate::primitive_io::lemma_patched_same(body, 21, body.subrange(21, 29));
    crate::primitive_io::lemma_patched_same(body, 29, body.subrange(29, 37));
}

} // verus!
