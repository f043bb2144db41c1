//! The pad record: six length-prefixed blocks (designator, reserved, net
//! string, reserved, the 202-byte main block and the 596-byte size/shape
//! block), read into a [`Pad`] and written back.

use vstd::prelude::*;
use vstd::string::StrSliceExecFns;

use crate::binary::{
    lemma_common_prefix_round_trip, read_common_prefix, spec_common_prefix, CommonPrefix, spec_common_prefix_bytes, spec_decode_flags, spec_encode_flags,
    write_common_prefix_full, PrimitiveFlags,
};
use crate::bytes::{
    as_signed16, as_unsigned16, le16, le32, le64, lemma_i16_round_trip, lemma_i32_round_trip, lemma_le32_round_trip, lemma_le64_round_trip, push_i16, push_i32, push_u16, push_u32, push_u64, read_i16, read_u32,
    read_u64, u16_le, u32_le, u64_le,
};
use crate::flatten::{push_record, record_bytes};
use crate::library_writer::{lemma_pascal_block_read, pascal_block, pascal_safe, push_pascal_block};
use crate::coord::{Coord, CoordPoint};
use crate::lint::{pascal_name, pascal_name_exec};
use crate::pad::{is_modelled_shape, pad_unrecorded_default, Pad};
use crate::primitive_io::{
    extra_bits, i32_at, i32_bytes, lemma_i32_in, lemma_transport, patch_bytes, prefix_net, patch_common_prefix, patched, patched_prefix, point_vec, read_i32_or_zero,
    ReadError,
};
use crate::shape_io::lemma_u64_in;
use crate::text::owned;

verus! {

// ---------------------------------------------------------------------------
// Block framing

/// Whether a `[u32 len][len bytes]` block starts at `p` and ends inside `b`.
pub open spec fn block_fits(b: Seq<u8>, p: int) -> bool {
    0 <= p && p + 4 <= b.len() && p + 4 + u32_le(b, p) <= b.len()
}

/// The bytes of the block at `p`.
pub open spec fn block_body(b: Seq<u8>, p: int) -> Seq<u8> {
    b.subrange(p + 4, p + 4 + u32_le(b, p))
}

/// Offset of block `i` of a pad record whose first block starts at 0.
pub open spec fn pad_offset(b: Seq<u8>, i: nat) -> int
    decreases i,
{
    if i == 0 {
        0
    } else {
        let p = pad_offset(b, (i - 1) as nat);
        p + 4 + u32_le(b, p)
    }
}

/// Whether the first `n` blocks of a pad record lie inside `b`.
pub open spec fn pad_frames_fit(b: Seq<u8>, n: nat) -> bool
    decreases n,
{
    if n == 0 {
        true
    } else {
        pad_frames_fit(b, (n - 1) as nat) && block_fits(b, pad_offset(b, (n - 1) as nat))
    }
}

/// The bytes of block `i` of a pad record.
pub open spec fn pad_block(b: Seq<u8>, i: nat) -> Seq<u8> {
    block_body(b, pad_offset(b, i))
}

/// The text of a Pascal string block: up to `n` single-byte characters
/// after the count byte `n`; an empty block holds the empty string.
pub open spec fn pascal_text(block: Seq<u8>) -> Seq<char> {
    if block.len() == 0 {
        seq![]
    } else {
        pascal_name(block)
    }
}

/// The end of the block at `p`, when it fits.
fn block_end(b: &[u8], p: usize) -> (r: Option<usize>)
    ensures
        r matches Some(e) ==> block_fits(b@, p as int) && e == p + 4 + u32_le(b@, p as int),
        r is None <==> !block_fits(b@, p as int),
{
    match read_u32(b, p) {
        Some(len) => {
            if b.len() - (p + 4) < len as usize {
                None
            } else {
                Some(p + 4 + len as usize)
            }
        },
        None => None,
    }
}

pub(crate) fn pascal_text_exec(block: &[u8]) -> (r: String)
    ensures
        r@ == pascal_text(block@),
{
    if block.len() == 0 {
        proof {
            reveal_strlit("");
        }
        owned("")
    } else {
        pascal_name_exec(block)
    }
}

// ---------------------------------------------------------------------------
// Reading

/// The size/shape block as read: the block itself when it is complete,
/// else 596 zero bytes.
pub open spec fn ss_view(s: Seq<u8>) -> Seq<u8> {
    if s.len() >= 596 {
        s
    } else {
        Seq::new(596, |i: int| 0u8)
    }
}

/// The hole type a stored byte names: round, square and slot keep their
/// codes, anything else reads as round.
pub open spec fn hole_code(b: u8) -> i32 {
    if b <= 2 {
        b as i32
    } else {
        0
    }
}

/// The fields of the first 61 bytes of the main block.
pub open spec fn pad_head_from(p: Pad, m: Seq<u8>) -> bool {
    let cp = spec_common_prefix(m, 0);
    let f = spec_decode_flags(cp.flags);
    &&& p.location.x.raw == i32_at(m, 13) && p.location.y.raw == i32_at(m, 17)
    &&& p.size_top.x.raw == i32_at(m, 21) && p.size_top.y.raw == i32_at(m, 25)
    &&& p.size_middle.x.raw == i32_at(m, 29) && p.size_middle.y.raw == i32_at(m, 33)
    &&& p.size_bottom.x.raw == i32_at(m, 37) && p.size_bottom.y.raw == i32_at(m, 41)
    &&& p.hole_size.raw == i32_at(m, 45)
    &&& p.rotation_bits == u64_le(m, 52)
    &&& p.is_plated == (m[60] != 0u8)
    &&& p.layer == cp.layer as i32
    &&& p.net_index == (if cp.net_index >= 0 { cp.net_index as int } else { 0 }) as u16
    &&& p.component_index == cp.component_index
    &&& p.is_locked == f.is_locked && p.is_tenting_top == f.is_tenting_top
    &&& p.is_tenting_bottom == f.is_tenting_bottom && p.is_keepout == f.is_keepout
    &&& p.flags_extra == extra_bits(cp.flags)
    &&& p.is_testpoint_fab_top == (cp.flags & 0x80u16 != 0u16)
    &&& p.is_testpoint_fab_bottom == (cp.flags & 0x100u16 != 0u16)
}

/// Where the optional mask fields of a main block of length `n` start.
pub open spec fn mask_at(n: int) -> int {
    if n >= 86 {
        86
    } else {
        61
    }
}

/// Where the optional drill field group starts.
pub open spec fn drill_at(n: int) -> int {
    if n - mask_at(n) >= 8 {
        mask_at(n) + 8
    } else {
        mask_at(n)
    }
}

/// Where the optional jumper field starts.
pub open spec fn jumper_at(n: int) -> int {
    if n - drill_at(n) >= 16 {
        drill_at(n) + 16
    } else {
        drill_at(n)
    }
}

/// The optional fields after the head: each group is read only when the
/// block still holds it, and keeps its default otherwise.
pub open spec fn pad_ext_from(p: Pad, m: Seq<u8>) -> bool {
    let n = m.len() as int;
    &&& if n >= 86 {
        &&& p.mode == m[62] as i32 && p.power_plane_connect_style == m[63] as i32
        &&& p.relief_air_gap.raw == i32_at(m, 64) && p.relief_conductor_width.raw == i32_at(m, 68)
        &&& p.relief_entries == as_signed16(u16_le(m, 72))
        &&& p.power_plane_clearance.raw == i32_at(m, 74)
        &&& p.power_plane_relief_expansion.raw == i32_at(m, 78)
    } else {
        &&& p.mode == 0 && p.power_plane_connect_style == 0
        &&& p.relief_air_gap.raw == 0 && p.relief_conductor_width.raw == 0
        &&& p.relief_entries == 4
        &&& p.power_plane_clearance.raw == 0 && p.power_plane_relief_expansion.raw == 0
    }
    &&& if n - mask_at(n) >= 8 {
        p.paste_mask_expansion.raw == i32_at(m, mask_at(n)) && p.solder_mask_expansion.raw == i32_at(
            m,
            mask_at(n) + 4,
        )
    } else {
        p.paste_mask_expansion.raw == 0 && p.solder_mask_expansion.raw == 0
    }
    &&& p.drill_type == if n - drill_at(n) >= 16 {
        m[drill_at(n) + 9] as i32
    } else {
        0
    }
    &&& p.jumper_id == if n - jumper_at(n) >= 4 {
        as_signed16(u16_le(m, jumper_at(n)))
    } else {
        0
    }
}

/// The per-layer tables of the size/shape block.
pub open spec fn pad_tables_from(p: Pad, s: Seq<u8>) -> bool {
    let v = ss_view(s);
    &&& forall|i: int| 0 <= i < 29 ==> #[trigger] p.layer_x_sizes@[i] == i32_at(v, 4 * i)
    &&& forall|i: int| 0 <= i < 29 ==> #[trigger] p.layer_y_sizes@[i] == i32_at(v, 116 + 4 * i)
    &&& forall|i: int| 0 <= i < 29 ==> #[trigger] p.internal_layer_shapes@[i] == v[232 + i]
    &&& p.hole_type == hole_code(v[262])
    &&& p.hole_slot_length == i32_at(v, 263)
    &&& p.hole_rotation_bits == u64_le(v, 267)
    &&& forall|i: int| 0 <= i < 32 ==> #[trigger] p.offset_x_from_hole_center@[i] == i32_at(v, 275 + 4 * i)
    &&& forall|i: int| 0 <= i < 32 ==> #[trigger] p.offset_y_from_hole_center@[i] == i32_at(v, 403 + 4 * i)
    &&& p.has_rounded_rect_byte == v[531]
    &&& forall|i: int| 0 <= i < 32 ==> #[trigger] p.per_layer_shapes@[i] == v[532 + i]
    &&& forall|i: int| 0 <= i < 32 ==> #[trigger] p.per_layer_corner_radii@[i] == v[564 + i]
    &&& p.has_size_shape_block == (s.len() > 0)
}

/// Whether some layer's corner radius differs from the top layer's.
pub open spec fn radii_differ(p: Pad) -> bool {
    exists|i: int| 0 <= i < 32 && #[trigger] p.per_layer_corner_radii@[i] != p.per_layer_corner_radii@[0]
}

/// The fields a reader derives: shapes (the per-layer table overrides the
/// head bytes when the rounded-rectangle byte is set), the legacy size and
/// shape copies, the corner radius, SMD and paste coverage, and the custom
/// shape markers.
pub open spec fn pad_derived_from(p: Pad, m: Seq<u8>) -> bool {
    let rr = p.has_rounded_rect_byte != 0u8;
    let pls = p.per_layer_shapes@;
    &&& p.shape_top == (if rr { pls[0] } else { m[49] }) as i32
    &&& p.shape_middle == (if rr { pls[1] } else { m[50] }) as i32
    &&& p.shape_bottom == (if rr {
        if p.mode == 0 {
            pls[0]
        } else {
            pls[31]
        }
    } else {
        m[51]
    }) as i32
    &&& p.top_shape == p.shape_top && p.mid_shape == p.shape_middle && p.bot_shape == p.shape_bottom
    &&& p.top_x_size == p.size_top.x && p.top_y_size == p.size_top.y
    &&& p.mid_x_size == p.size_middle.x && p.mid_y_size == p.size_middle.y
    &&& p.bot_x_size == p.size_bottom.x && p.bot_y_size == p.size_bottom.y
    &&& p.corner_radius_percentage == p.per_layer_corner_radii@[0] as i32
    &&& p.is_surface_mount == (p.hole_size.raw <= 0 && (p.layer == 1 || p.layer == 32))
    &&& p.is_top_paste_enabled == (p.layer == 1 || p.layer == 74)
    &&& p.is_bottom_paste_enabled == (p.layer == 32 || p.layer == 74)
    &&& p.has_rounded_rectangular_shapes == rr
    &&& p.has_custom_rounded_rectangle == (rr && radii_differ(p))
    &&& p.has_custom_shapes == !is_modelled_shape(p.shape_top as int)
}

/// The pad a record describes: the designator (absent when empty), the
/// reserved blocks and net string verbatim, the main and size/shape block
/// fields, the derived fields, the defaults of everything no record holds,
/// and both blocks kept as the preserved record.
pub open spec fn pad_read_from(p: Pad, rec: Seq<u8>) -> bool {
    let d = pascal_text(pad_block(rec, 0));
    let m = pad_block(rec, 4);
    let s = pad_block(rec, 5);
    &&& d.len() == 0 ==> p.designator is None
    &&& d.len() > 0 ==> (p.designator matches Some(t) && t@ == d)
    &&& p.reserved_block_after_designator@ == pad_block(rec, 1)
    &&& p.net_string_block@ == pascal_text(pad_block(rec, 2))
    &&& p.reserved_block_after_net_string@ == pad_block(rec, 3)
    &&& pad_head_from(p, m)
    &&& pad_ext_from(p, m)
    &&& pad_tables_from(p, s)
    &&& pad_derived_from(p, m)
    &&& pad_unrecorded_default(p)
    &&& p.raw_record matches Some(raw) && raw@ == m
    &&& if s.len() == 0 {
        p.raw_size_shape is None
    } else {
        p.raw_size_shape matches Some(raw) && raw@ == s
    }
}

/// The fields of a main block.
struct MainFields {
    location: CoordPoint,
    size_top: CoordPoint,
    size_middle: CoordPoint,
    size_bottom: CoordPoint,
    hole_size: Coord,
    shape_bytes: (u8, u8, u8),
    rotation_bits: u64,
    is_plated: bool,
    layer: i32,
    net_index: u16,
    component_index: i32,
    flags: u16,
    mode: i32,
    power_plane_connect_style: i32,
    relief_air_gap: Coord,
    relief_conductor_width: Coord,
    relief_entries: i32,
    power_plane_clearance: Coord,
    power_plane_relief_expansion: Coord,
    paste_mask_expansion: Coord,
    solder_mask_expansion: Coord,
    drill_type: i32,
    jumper_id: i32,
}

/// The size/shape tables.
struct Tables {
    xs: [i32; 29],
    ys: [i32; 29],
    shapes: [u8; 29],
    hole_type: i32,
    hole_slot_length: i32,
    hole_rotation_bits: u64,
    ox: [i32; 32],
    oy: [i32; 32],
    rr: u8,
    pls: [u8; 32],
    radii: [u8; 32],
}

spec fn main_fields_ok(f: MainFields, m: Seq<u8>) -> bool {
    let cp = spec_common_prefix(m, 0);
    let n = m.len() as int;
    &&& f.location.x.raw == i32_at(m, 13) && f.location.y.raw == i32_at(m, 17)
    &&& f.size_top.x.raw == i32_at(m, 21) && f.size_top.y.raw == i32_at(m, 25)
    &&& f.size_middle.x.raw == i32_at(m, 29) && f.size_middle.y.raw == i32_at(m, 33)
    &&& f.size_bottom.x.raw == i32_at(m, 37) && f.size_bottom.y.raw == i32_at(m, 41)
    &&& f.hole_size.raw == i32_at(m, 45)
    &&& f.shape_bytes == (m[49], m[50], m[51])
    &&& f.rotation_bits == u64_le(m, 52)
    &&& f.is_plated == (m[60] != 0u8)
    &&& f.layer == cp.layer as i32
    &&& f.net_index == (if cp.net_index >= 0 { cp.net_index as int } else { 0 }) as u16
    &&& f.component_index == cp.component_index
    &&& f.flags == cp.flags
    &&& if n >= 86 {
        &&& f.mode == m[62] as i32 && f.power_plane_connect_style == m[63] as i32
        &&& f.relief_air_gap.raw == i32_at(m, 64) && f.relief_conductor_width.raw == i32_at(m, 68)
        &&& f.relief_entries == as_signed16(u16_le(m, 72))
        &&& f.power_plane_clearance.raw == i32_at(m, 74)
        &&& f.power_plane_relief_expansion.raw == i32_at(m, 78)
    } else {
        &&& f.mode == 0 && f.power_plane_connect_style == 0
        &&& f.relief_air_gap.raw == 0 && f.relief_conductor_width.raw == 0
        &&& f.relief_entries == 4
        &&& f.power_plane_clearance.raw == 0 && f.power_plane_relief_expansion.raw == 0
    }
    &&& if n - mask_at(n) >= 8 {
        f.paste_mask_expansion.raw == i32_at(m, mask_at(n)) && f.solder_mask_expansion.raw == i32_at(
            m,
            mask_at(n) + 4,
        )
    } else {
        f.paste_mask_expansion.raw == 0 && f.solder_mask_expansion.raw == 0
    }
    &&& f.drill_type == if n - drill_at(n) >= 16 {
        m[drill_at(n) + 9] as i32
    } else {
        0
    }
    &&& f.jumper_id == if n - jumper_at(n) >= 4 {
        as_signed16(u16_le(m, jumper_at(n)))
    } else {
        0
    }
}

spec fn tables_ok(t: Tables, s: Seq<u8>) -> bool {
    let v = ss_view(s);
    &&& forall|i: int| 0 <= i < 29 ==> #[trigger] t.xs@[i] == i32_at(v, 4 * i)
    &&& forall|i: int| 0 <= i < 29 ==> #[trigger] t.ys@[i] == i32_at(v, 116 + 4 * i)
    &&& forall|i: int| 0 <= i < 29 ==> #[trigger] t.shapes@[i] == v[232 + i]
    &&& t.hole_type == hole_code(v[262])
    &&& t.hole_slot_length == i32_at(v, 263)
    &&& t.hole_rotation_bits == u64_le(v, 267)
    &&& forall|i: int| 0 <= i < 32 ==> #[trigger] t.ox@[i] == i32_at(v, 275 + 4 * i)
    &&& forall|i: int| 0 <= i < 32 ==> #[trigger] t.oy@[i] == i32_at(v, 403 + 4 * i)
    &&& t.rr == v[531]
    &&& forall|i: int| 0 <= i < 32 ==> #[trigger] t.pls@[i] == v[532 + i]
    &&& forall|i: int| 0 <= i < 32 ==> #[trigger] t.radii@[i] == v[564 + i]
}

/// Reads the head and the optional fields of a main block.
fn read_main_fields(m: &[u8]) -> (f: MainFields)
    requires
        m@.len() >= 61,
    ensures
        main_fields_ok(f, m@),
{
    let cp = read_common_prefix(m, 0).unwrap();
    let n = m.len();
    let mut pos: usize = 61;
    let mut mode: i32 = 0;
    let mut ppcs: i32 = 0;
    let mut rag: i32 = 0;
    let mut rcw: i32 = 0;
    let mut entries: i32 = 4;
    let mut ppc: i32 = 0;
    let mut pprexp: i32 = 0;
    let mut paste: i32 = 0;
    let mut solder: i32 = 0;
    let mut drill: i32 = 0;
    let mut jumper: i32 = 0;
    if n - pos >= 25 {
        mode = m[62] as i32;
        ppcs = m[63] as i32;
        rag = read_i32_or_zero(m, 64);
        rcw = read_i32_or_zero(m, 68);
        entries = read_i16(m, 72).unwrap() as i32;
        ppc = read_i32_or_zero(m, 74);
        pprexp = read_i32_or_zero(m, 78);
        pos = 86;
    }
    assert(pos == mask_at(n as int));
    if n - pos >= 8 {
        paste = read_i32_or_zero(m, pos);
        solder = read_i32_or_zero(m, pos + 4);
        pos = pos + 8;
    }
    assert(pos == drill_at(n as int));
    if n - pos >= 16 {
        drill = m[pos + 9] as i32;
        pos = pos + 16;
    }
    assert(pos == jumper_at(n as int));
    if n - pos >= 4 {
        jumper = read_i16(m, pos).unwrap() as i32;
    }
    MainFields {
        location: CoordPoint::new(Coord::from_raw(read_i32_or_zero(m, 13)), Coord::from_raw(read_i32_or_zero(m, 17))),
        size_top: CoordPoint::new(Coord::from_raw(read_i32_or_zero(m, 21)), Coord::from_raw(read_i32_or_zero(m, 25))),
        size_middle: CoordPoint::new(
            Coord::from_raw(read_i32_or_zero(m, 29)),
            Coord::from_raw(read_i32_or_zero(m, 33)),
        ),
        size_bottom: CoordPoint::new(
            Coord::from_raw(read_i32_or_zero(m, 37)),
            Coord::from_raw(read_i32_or_zero(m, 41)),
        ),
        hole_size: Coord::from_raw(read_i32_or_zero(m, 45)),
        shape_bytes: (m[49], m[50], m[51]),
        rotation_bits: read_u64(m, 52).unwrap(),
        is_plated: m[60] != 0,
        layer: cp.layer as i32,
        net_index: if cp.net_index >= 0 { cp.net_index as u16 } else { 0 },
        component_index: cp.component_index,
        flags: cp.flags,
        mode,
        power_plane_connect_style: ppcs,
        relief_air_gap: Coord::from_raw(rag),
        relief_conductor_width: Coord::from_raw(rcw),
        relief_entries: entries,
        power_plane_clearance: Coord::from_raw(ppc),
        power_plane_relief_expansion: Coord::from_raw(pprexp),
        paste_mask_expansion: Coord::from_raw(paste),
        solder_mask_expansion: Coord::from_raw(solder),
        drill_type: drill,
        jumper_id: jumper,
    }
}

/// Reads the size/shape tables; a block shorter than 596 bytes gives zero
/// tables.
fn read_tables(s: &[u8]) -> (t: Tables)
    ensures
        tables_ok(t, s@),
{
    let full = s.len() >= 596;
    let ghost v = ss_view(s@);
    let mut xs = [0i32; 29];
    let mut ys = [0i32; 29];
    let mut shapes = [0u8; 29];
    let mut i: usize = 0;
    while i < 29
        invariant
            i <= 29,
            full == (s@.len() >= 596),
            v == ss_view(s@),
            xs@.len() == 29 && ys@.len() == 29 && shapes@.len() == 29,
            forall|j: int| 0 <= j < i ==> #[trigger] xs@[j] == i32_at(v, 4 * j),
            forall|j: int| 0 <= j < i ==> #[trigger] ys@[j] == i32_at(v, 116 + 4 * j),
            forall|j: int| 0 <= j < i ==> #[trigger] shapes@[j] == v[232 + j],
        decreases 29 - i,
    {
        if full {
            xs[i] = read_i32_or_zero(s, 4 * i);
            ys[i] = read_i32_or_zero(s, 116 + 4 * i);
            shapes[i] = s[232 + i];
        } else {
            xs[i] = 0;
            ys[i] = 0;
            shapes[i] = 0;
            assert(i32_at(v, 4 * i as int) == 0) by {
                assert(v[4 * i as int] == 0 && v[4 * i + 1] == 0 && v[4 * i + 2] == 0 && v[4 * i + 3] == 0);
            }
            assert(i32_at(v, 116 + 4 * i as int) == 0) by {
                assert(v[116 + 4 * i as int] == 0 && v[116 + 4 * i + 1] == 0 && v[116 + 4 * i + 2] == 0 && v[116
                    + 4 * i + 3] == 0);
            }
        }
        i += 1;
    }
    let mut ox = [0i32; 32];
    let mut oy = [0i32; 32];
    let mut pls = [0u8; 32];
    let mut radii = [0u8; 32];
    let mut k: usize = 0;
    while k < 32
        invariant
            k <= 32,
            full == (s@.len() >= 596),
            v == ss_view(s@),
            ox@.len() == 32 && oy@.len() == 32 && pls@.len() == 32 && radii@.len() == 32,
            forall|j: int| 0 <= j < k ==> #[trigger] ox@[j] == i32_at(v, 275 + 4 * j),
            forall|j: int| 0 <= j < k ==> #[trigger] oy@[j] == i32_at(v, 403 + 4 * j),
            forall|j: int| 0 <= j < k ==> #[trigger] pls@[j] == v[532 + j],
            forall|j: int| 0 <= j < k ==> #[trigger] radii@[j] == v[564 + j],
        decreases 32 - k,
    {
        if full {
            ox[k] = read_i32_or_zero(s, 275 + 4 * k);
            oy[k] = read_i32_or_zero(s, 403 + 4 * k);
            pls[k] = s[532 + k];
            radii[k] = s[564 + k];
        } else {
            ox[k] = 0;
            oy[k] = 0;
            pls[k] = 0;
            radii[k] = 0;
            assert(i32_at(v, 275 + 4 * k as int) == 0) by {
                assert(v[275 + 4 * k as int] == 0 && v[275 + 4 * k + 1] == 0 && v[275 + 4 * k + 2] == 0 && v[275
                    + 4 * k + 3] == 0);
            }
            assert(i32_at(v, 403 + 4 * k as int) == 0) by {
                assert(v[403 + 4 * k as int] == 0 && v[403 + 4 * k + 1] == 0 && v[403 + 4 * k + 2] == 0 && v[403
                    + 4 * k + 3] == 0);
            }
        }
        k += 1;
    }
    if full {
        let hb = s[262];
        Tables {
            xs,
            ys,
            shapes,
            hole_type: if hb <= 2 { hb as i32 } else { 0 },
            hole_slot_length: read_i32_or_zero(s, 263),
            hole_rotation_bits: read_u64(s, 267).unwrap(),
            ox,
            oy,
            rr: s[531],
            pls,
            radii,
        }
    } else {
        assert(i32_at(v, 263) == 0) by {
            assert(v[263] == 0 && v[264] == 0 && v[265] == 0 && v[266] == 0);
        }
        assert(u64_le(v, 267) == 0) by {
            assert(v[267] == 0 && v[268] == 0 && v[269] == 0 && v[270] == 0);
            assert(v[271] == 0 && v[272] == 0 && v[273] == 0 && v[274] == 0);
        }
        Tables {
            xs,
            ys,
            shapes,
            hole_type: 0,
            hole_slot_length: 0,
            hole_rotation_bits: 0,
            ox,
            oy,
            rr: 0,
            pls,
            radii,
        }
    }
}

/// Whether some radius of the table differs from its first.
fn any_radius_differs(radii: &[u8; 32]) -> (r: bool)
    ensures
        r == exists|j: int| 0 <= j < 32 && #[trigger] radii@[j] != radii@[0],
{
    let r0 = radii[0];
    let mut differ = false;
    let mut i: usize = 0;
    while i < 32
        invariant
            i <= 32,
            radii@.len() == 32,
            r0 == radii@[0],
            differ == exists|j: int| 0 <= j < i && #[trigger] radii@[j] != r0,
        decreases 32 - i,
    {
        if radii[i] != r0 {
            differ = true;
        }
        i += 1;
    }
    differ
}

/// Decodes a pad record (the bytes after its type byte): an error when one
/// of its first five blocks runs past the end, `None` for an empty main
/// block, an error when the main block ends inside its 61-byte head or the
/// size/shape block runs past the end, else the pad.
#[verifier::spinoff_prover]
#[verifier::rlimit(60)]
pub fn read_pad(rec: &[u8]) -> (r: Result<Option<Pad>, ReadError>)
    ensures
        !pad_frames_fit(rec@, 5) ==> r == Err::<Option<Pad>, ReadError>(ReadError::Truncated),
        pad_frames_fit(rec@, 5) && pad_block(rec@, 4).len() == 0 ==> r == Ok::<Option<Pad>, ReadError>(None),
        pad_frames_fit(rec@, 5) && 0 < pad_block(rec@, 4).len() < 61 ==> r == Err::<Option<Pad>, ReadError>(
            ReadError::Truncated,
        ),
        pad_frames_fit(rec@, 5) && pad_block(rec@, 4).len() >= 61 && !pad_frames_fit(rec@, 6) ==> r == Err::<
            Option<Pad>,
            ReadError,
        >(ReadError::Truncated),
        pad_frames_fit(rec@, 6) && pad_block(rec@, 4).len() >= 61 ==> (r matches Ok(Some(p)) && pad_read_from(
            p,
            rec@,
        )),
{
    let ghost b = rec@;
    proof {
        reveal_with_fuel(pad_frames_fit, 7);
        reveal_with_fuel(pad_offset, 7);
    }
    assert(pad_offset(b, 0) == 0);
    let e0 = match block_end(rec, 0) {
        Some(e) => e,
        None => return Err(ReadError::Truncated),
    };
    assert(pad_offset(b, 1) == e0);
    let e1 = match block_end(rec, e0) {
        Some(e) => e,
        None => return Err(ReadError::Truncated),
    };
    assert(pad_offset(b, 2) == e1);
    let e2 = match block_end(rec, e1) {
        Some(e) => e,
        None => return Err(ReadError::Truncated),
    };
    assert(pad_offset(b, 3) == e2);
    let e3 = match block_end(rec, e2) {
        Some(e) => e,
        None => return Err(ReadError::Truncated),
    };
    assert(pad_offset(b, 4) == e3);
    let e4 = match block_end(rec, e3) {
        Some(e) => e,
        None => return Err(ReadError::Truncated),
    };
    assert(pad_offset(b, 5) == e4);
    assert(pad_frames_fit(b, 5));
    let main = &rec[e3 + 4..e4];
    assert(main@ == pad_block(b, 4));
    if main.len() == 0 {
        return Ok(None);
    }
    if main.len() < 61 {
        return Err(ReadError::Truncated);
    }
    let e5 = match block_end(rec, e4) {
        Some(e) => e,
        None => return Err(ReadError::Truncated),
    };
    assert(pad_frames_fit(b, 6));
    let ss = &rec[e4 + 4..e5];
    assert(ss@ == pad_block(b, 5));
    let designator = pascal_text_exec(&rec[4..e0]);
    assert(rec@.subrange(4, e0 as int) == pad_block(b, 0));
    let net = pascal_text_exec(&rec[e1 + 4..e2]);
    let f = read_main_fields(main);
    let t = read_tables(ss);
    let pf = PrimitiveFlags::decode(f.flags);
    let rr = t.rr != 0;
    let top: u8 = if rr { t.pls[0] } else { f.shape_bytes.0 };
    let middle: u8 = if rr { t.pls[1] } else { f.shape_bytes.1 };
    let bottom: u8 = if rr {
        if f.mode == 0 {
            t.pls[0]
        } else {
            t.pls[31]
        }
    } else {
        f.shape_bytes.2
    };
    let differ = any_radius_differs(&t.radii);
    let top_code = top as i32;
    let custom = !(top_code == 1 || top_code == 2 || top_code == 3 || top_code == 9);
    let mut p = Pad::default();
    p = Pad {
        designator: if designator.as_str().unicode_len() == 0 { None } else { Some(designator) },
        reserved_block_after_designator: vstd::slice::slice_to_vec(&rec[e0 + 4..e1]),
        net_string_block: net,
        reserved_block_after_net_string: vstd::slice::slice_to_vec(&rec[e2 + 4..e3]),
        location: f.location,
        size_top: f.size_top,
        size_middle: f.size_middle,
        size_bottom: f.size_bottom,
        hole_size: f.hole_size,
        rotation_bits: f.rotation_bits,
        is_plated: f.is_plated,
        layer: f.layer,
        net_index: f.net_index,
        component_index: f.component_index,
        is_locked: pf.is_locked,
        is_tenting_top: pf.is_tenting_top,
        is_tenting_bottom: pf.is_tenting_bottom,
        is_keepout: pf.is_keepout,
        flags_extra: f.flags & 0xFC19u16,
        is_testpoint_fab_top: (f.flags & 0x80u16) != 0,
        is_testpoint_fab_bottom: (f.flags & 0x100u16) != 0,
        mode: f.mode,
        power_plane_connect_style: f.power_plane_connect_style,
        relief_air_gap: f.relief_air_gap,
        relief_conductor_width: f.relief_conductor_width,
        relief_entries: f.relief_entries,
        power_plane_clearance: f.power_plane_clearance,
        power_plane_relief_expansion: f.power_plane_relief_expansion,
        paste_mask_expansion: f.paste_mask_expansion,
        solder_mask_expansion: f.solder_mask_expansion,
        drill_type: f.drill_type,
        jumper_id: f.jumper_id,
        layer_x_sizes: t.xs,
        layer_y_sizes: t.ys,
        internal_layer_shapes: t.shapes,
        hole_type: t.hole_type,
        hole_slot_length: t.hole_slot_length,
        hole_rotation_bits: t.hole_rotation_bits,
        offset_x_from_hole_center: t.ox,
        offset_y_from_hole_center: t.oy,
        has_rounded_rect_byte: t.rr,
        per_layer_shapes: t.pls,
        per_layer_corner_radii: t.radii,
        has_size_shape_block: ss.len() > 0,
        shape_top: top_code,
        shape_middle: middle as i32,
        shape_bottom: bottom as i32,
        top_shape: top_code,
        mid_shape: middle as i32,
        bot_shape: bottom as i32,
        top_x_size: f.size_top.x,
        top_y_size: f.size_top.y,
        mid_x_size: f.size_middle.x,
        mid_y_size: f.size_middle.y,
        bot_x_size: f.size_bottom.x,
        bot_y_size: f.size_bottom.y,
        corner_radius_percentage: t.radii[0] as i32,
        is_surface_mount: !(f.hole_size.raw > 0) && (f.layer == 1 || f.layer == 32),
        is_top_paste_enabled: f.layer == 1 || f.layer == 74,
        is_bottom_paste_enabled: f.layer == 32 || f.layer == 74,
        has_rounded_rectangular_shapes: rr,
        has_custom_rounded_rectangle: rr && differ,
        has_custom_shapes: custom,
        raw_record: Some(vstd::slice::slice_to_vec(main)),
        raw_size_shape: if ss.len() == 0 { None } else { Some(vstd::slice::slice_to_vec(ss)) },
        ..p
    };
    assert(radii_differ(p) == differ) by {
        assert(p.per_layer_corner_radii@ == t.radii@);
        if differ {
            let j = choose|j: int| 0 <= j < 32 && #[trigger] t.radii@[j] != t.radii@[0];
            assert(p.per_layer_corner_radii@[j] != p.per_layer_corner_radii@[0]);
        }
    }
    assert(pad_derived_from(p, main@));
    assert(pad_read_from(p, rec@));
    Ok(Some(p))
}

// ---------------------------------------------------------------------------
// Writing

/// The header bitfield written for a pad.
pub open spec fn pad_flag_bits(p: Pad) -> u16 {
    spec_encode_flags(
        PrimitiveFlags {
            is_locked: p.is_locked,
            is_tenting_top: p.is_tenting_top,
            is_tenting_bottom: p.is_tenting_bottom,
            is_keepout: p.is_keepout,
        },
    ) | p.flags_extra | (if p.is_testpoint_fab_top { 0x80u16 } else { 0u16 }) | (if p.is_testpoint_fab_bottom {
        0x100u16
    } else {
        0u16
    })
}

fn pad_flags(p: &Pad) -> (bits: u16)
    ensures
        bits == pad_flag_bits(*p),
{
    let f = PrimitiveFlags {
        is_locked: p.is_locked,
        is_tenting_top: p.is_tenting_top,
        is_tenting_bottom: p.is_tenting_bottom,
        is_keepout: p.is_keepout,
    };
    let top: u16 = if p.is_testpoint_fab_top { 0x80u16 } else { 0u16 };
    let bottom: u16 = if p.is_testpoint_fab_bottom { 0x100u16 } else { 0u16 };
    f.encode() | p.flags_extra | top | bottom
}

/// The bytes of a run of `i32` values, each little-endian.
pub open spec fn i32s_bytes(s: Seq<i32>) -> Seq<u8>
    decreases s.len(),
{
    if s.len() == 0 {
        seq![]
    } else {
        i32s_bytes(s.drop_last()) + i32_bytes(s.last())
    }
}

/// The first 61 bytes of a fresh main block: prefix, location, the three
/// sizes, hole size, shape codes, rotation and the plated byte.
pub open spec fn pad_head_bytes(p: Pad) -> Seq<u8> {
    spec_common_prefix_bytes(p.layer as u8, pad_flag_bits(p), p.net_index as i32, p.component_index)
        + i32_bytes(p.location.x.raw) + i32_bytes(p.location.y.raw) + i32_bytes(p.size_top.x.raw) + i32_bytes(
        p.size_top.y.raw,
    ) + i32_bytes(p.size_middle.x.raw) + i32_bytes(p.size_middle.y.raw) + i32_bytes(p.size_bottom.x.raw)
        + i32_bytes(p.size_bottom.y.raw) + i32_bytes(p.hole_size.raw) + seq![
        p.shape_top as u8,
        p.shape_middle as u8,
        p.shape_bottom as u8,
    ] + le64(p.rotation_bits as int) + seq![if p.is_plated { 1u8 } else { 0u8 }]
}

/// Bytes 61 to 86: stack mode, plane connection and thermal relief.
pub open spec fn pad_ext_bytes(p: Pad) -> Seq<u8> {
    seq![0u8, p.mode as u8, p.power_plane_connect_style as u8] + i32_bytes(p.relief_air_gap.raw) + i32_bytes(
        p.relief_conductor_width.raw,
    ) + le16(as_unsigned16((p.relief_entries as i16) as int)) + i32_bytes(p.power_plane_clearance.raw)
        + i32_bytes(p.power_plane_relief_expansion.raw) + le32(0)
}

/// Bytes 86 to 114: mask expansions with their manual markers, drill type
/// and jumper id.
pub open spec fn pad_tail_bytes(p: Pad) -> Seq<u8> {
    i32_bytes(p.paste_mask_expansion.raw) + i32_bytes(p.solder_mask_expansion.raw) + Seq::new(7, |i: int| 0u8)
        + seq![
        if p.paste_mask_expansion.raw != 0 {
            2u8
        } else {
            0u8
        },
        if p.solder_mask_expansion.raw != 0 {
            2u8
        } else {
            0u8
        },
        p.drill_type as u8,
    ] + le16(0) + le32(0) + le16(as_unsigned16((p.jumper_id as i16) as int)) + le16(0)
}

/// The 202-byte main block Altium writes for a pad; the bytes after the
/// typed fields are zero.
pub open spec fn fresh_pad_main(p: Pad) -> Seq<u8> {
    pad_head_bytes(p) + pad_ext_bytes(p) + pad_tail_bytes(p) + Seq::new(88, |i: int| 0u8)
}

/// The 596-byte size/shape block of a pad.
pub open spec fn fresh_pad_ss(p: Pad) -> Seq<u8> {
    i32s_bytes(p.layer_x_sizes@) + i32s_bytes(p.layer_y_sizes@) + p.internal_layer_shapes@ + seq![
        0u8,
        p.hole_type as u8,
    ] + i32_bytes(p.hole_slot_length) + le64(p.hole_rotation_bits as int) + i32s_bytes(
        p.offset_x_from_hole_center@,
    ) + i32s_bytes(p.offset_y_from_hole_center@) + seq![p.has_rounded_rect_byte] + p.per_layer_shapes@
        + p.per_layer_corner_radii@
}

/// The main block written for a pad: its preserved block with the prefix,
/// location and rotation patched in, or a fresh one.
pub open spec fn spec_pad_main(p: Pad) -> Seq<u8> {
    match p.raw_record {
        Some(raw) => patched(
            patched(
                patched_prefix(raw@, p.layer as u8, pad_flag_bits(p), p.net_index as i32, p.component_index),
                13,
                i32_bytes(p.location.x.raw) + i32_bytes(p.location.y.raw),
            ),
            52,
            le64(p.rotation_bits as int),
        ),
        None => fresh_pad_main(p),
    }
}

/// The size/shape block written for a pad: with a preserved main block the
/// preserved size/shape bytes (empty when there were none), else a fresh
/// block.
pub open spec fn spec_pad_ss(p: Pad) -> Seq<u8> {
    match p.raw_record {
        Some(_) => match p.raw_size_shape {
            Some(ss) => ss@,
            None => seq![],
        },
        None => fresh_pad_ss(p),
    }
}

/// The designator as written: empty when absent.
pub open spec fn designator_text(p: Pad) -> Seq<char> {
    match p.designator {
        Some(d) => d@,
        None => seq![],
    }
}

/// The whole pad record after its type byte.
pub open spec fn spec_pad_record(p: Pad) -> Seq<u8> {
    pascal_block(designator_text(p)) + record_bytes(p.reserved_block_after_designator@) + pascal_block(
        p.net_string_block@,
    ) + record_bytes(p.reserved_block_after_net_string@) + record_bytes(spec_pad_main(p)) + record_bytes(
        spec_pad_ss(p),
    )
}

fn push_i32s(out: &mut Vec<u8>, v: &[i32])
    ensures
        final(out)@ == old(out)@ + i32s_bytes(v@),
{
    let ghost start = out@;
    let mut i: usize = 0;
    while i < v.len()
        invariant
            i <= v@.len(),
            out@ == start + i32s_bytes(v@.take(i as int)),
        decreases v@.len() - i,
    {
        push_i32(out, v[i]);
        i += 1;
        assert(v@.take(i as int).drop_last() =~= v@.take(i - 1));
        assert(out@ =~= start + i32s_bytes(v@.take(i as int)));
    }
    assert(v@.take(v@.len() as int) =~= v@);
}

fn push_bytes(out: &mut Vec<u8>, v: &[u8])
    ensures
        final(out)@ == old(out)@ + v@,
{
    let ghost start = out@;
    let mut i: usize = 0;
    while i < v.len()
        invariant
            i <= v@.len(),
            out@ == start + v@.take(i as int),
        decreases v@.len() - i,
    {
        out.push(v[i]);
        i += 1;
        assert(out@ =~= start + v@.take(i as int));
    }
    assert(v@.take(v@.len() as int) =~= v@);
}

fn push_zeros(out: &mut Vec<u8>, n: usize)
    ensures
        final(out)@ == old(out)@ + Seq::new(n as nat, |i: int| 0u8),
{
    let ghost start = out@;
    let mut k: usize = 0;
    while k < n
        invariant
            k <= n,
            out@ == start + Seq::new(k as nat, |i: int| 0u8),
        decreases n - k,
    {
        out.push(0u8);
        k += 1;
        assert(out@ =~= start + Seq::new(k as nat, |i: int| 0u8));
    }
}

fn push_pad_head(b: &mut Vec<u8>, p: &Pad)
    ensures
        final(b)@ == old(b)@ + pad_head_bytes(*p),
{
    let flags = pad_flags(p);
    write_common_prefix_full(b, p.layer as u8, flags, p.net_index as i32, p.component_index);
    push_i32(b, p.location.x.raw);
    push_i32(b, p.location.y.raw);
    push_i32(b, p.size_top.x.raw);
    push_i32(b, p.size_top.y.raw);
    push_i32(b, p.size_middle.x.raw);
    push_i32(b, p.size_middle.y.raw);
    push_i32(b, p.size_bottom.x.raw);
    push_i32(b, p.size_bottom.y.raw);
    push_i32(b, p.hole_size.raw);
    b.push(p.shape_top as u8);
    b.push(p.shape_middle as u8);
    b.push(p.shape_bottom as u8);
    push_u64(b, p.rotation_bits);
    b.push(if p.is_plated { 1u8 } else { 0u8 });
    assert(final(b)@ =~= old(b)@ + pad_head_bytes(*p));
}

fn push_pad_ext(b: &mut Vec<u8>, p: &Pad)
    ensures
        final(b)@ == old(b)@ + pad_ext_bytes(*p),
{
    b.push(0u8);
    b.push(p.mode as u8);
    b.push(p.power_plane_connect_style as u8);
    push_i32(b, p.relief_air_gap.raw);
    push_i32(b, p.relief_conductor_width.raw);
    push_i16(b, p.relief_entries as i16);
    push_i32(b, p.power_plane_clearance.raw);
    push_i32(b, p.power_plane_relief_expansion.raw);
    push_u32(b, 0);
    assert(final(b)@ =~= old(b)@ + pad_ext_bytes(*p));
}

fn push_pad_tail(b: &mut Vec<u8>, p: &Pad)
    ensures
        final(b)@ == old(b)@ + pad_tail_bytes(*p),
{
    push_i32(b, p.paste_mask_expansion.raw);
    push_i32(b, p.solder_mask_expansion.raw);
    push_zeros(b, 7);
    b.push(if p.paste_mask_expansion.raw != 0 { 2u8 } else { 0u8 });
    b.push(if p.solder_mask_expansion.raw != 0 { 2u8 } else { 0u8 });
    b.push(p.drill_type as u8);
    push_u16(b, 0);
    push_u32(b, 0);
    push_i16(b, p.jumper_id as i16);
    push_u16(b, 0);
    assert(final(b)@ =~= old(b)@ + pad_tail_bytes(*p));
}

fn fresh_main(p: &Pad) -> (r: Vec<u8>)
    ensures
        r@ == fresh_pad_main(*p),
{
    let mut b: Vec<u8> = Vec::new();
    push_pad_head(&mut b, p);
    push_pad_ext(&mut b, p);
    push_pad_tail(&mut b, p);
    push_zeros(&mut b, 88);
    assert(b@ =~= fresh_pad_main(*p));
    b
}

fn patched_main(p: &Pad, raw: &Vec<u8>) -> (r: Vec<u8>)
    requires
        p.raw_record == Some(*raw),
    ensures
        r@ == spec_pad_main(*p),
{
    let flags = pad_flags(p);
    let mut b = vstd::slice::slice_to_vec(raw.as_slice());
    patch_common_prefix(&mut b, p.layer as u8, flags, p.net_index as i32, p.component_index);
    let l = point_vec(p.location);
    patch_bytes(&mut b, 13, l.as_slice());
    let mut r: Vec<u8> = Vec::new();
    push_u64(&mut r, p.rotation_bits);
    patch_bytes(&mut b, 52, r.as_slice());
    b
}

fn fresh_ss(p: &Pad) -> (r: Vec<u8>)
    ensures
        r@ == fresh_pad_ss(*p),
{
    let mut b: Vec<u8> = Vec::new();
    push_i32s(&mut b, p.layer_x_sizes.as_slice());
    push_i32s(&mut b, p.layer_y_sizes.as_slice());
    push_bytes(&mut b, p.internal_layer_shapes.as_slice());
    b.push(0u8);
    b.push(p.hole_type as u8);
    push_i32(&mut b, p.hole_slot_length);
    push_u64(&mut b, p.hole_rotation_bits);
    push_i32s(&mut b, p.offset_x_from_hole_center.as_slice());
    push_i32s(&mut b, p.offset_y_from_hole_center.as_slice());
    b.push(p.has_rounded_rect_byte);
    push_bytes(&mut b, p.per_layer_shapes.as_slice());
    push_bytes(&mut b, p.per_layer_corner_radii.as_slice());
    assert(b@ =~= fresh_pad_ss(*p));
    b
}

/// Appends a pad's 596-byte size/shape block as a length-prefixed block.
pub fn write_pad_size_shape_block(out: &mut Vec<u8>, p: &Pad)
    ensures
        final(out)@ == old(out)@ + record_bytes(fresh_pad_ss(*p)),
{
    let b = fresh_ss(p);
    push_record(out, b.as_slice());
}

/// Appends a pad record (after its type byte): the designator and net
/// string as Pascal blocks, the reserved blocks verbatim, then the main
/// and size/shape blocks — the preserved ones with the typed fields patched
/// in when the pad has a preserved record, fresh ones otherwise.
pub fn write_pad(out: &mut Vec<u8>, p: &Pad)
    ensures
        final(out)@ == old(out)@ + spec_pad_record(*p),
{
    let ghost start = out@;
    match &p.designator {
        Some(d) => push_pascal_block(out, d.as_str()),
        None => {
            proof {
                reveal_strlit("");
            }
            push_pascal_block(out, "");
        },
    }
    push_record(out, p.reserved_block_after_designator.as_slice());
    push_pascal_block(out, p.net_string_block.as_str());
    push_record(out, p.reserved_block_after_net_string.as_slice());
    let ghost framed = out@;
    assert(framed == start + pascal_block(designator_text(*p)) + record_bytes(p.reserved_block_after_designator@)
        + pascal_block(p.net_string_block@) + record_bytes(p.reserved_block_after_net_string@));
    let (main, ss) = match &p.raw_record {
        Some(raw) => {
            let m = patched_main(p, raw);
            let s = match &p.raw_size_shape {
                Some(ss) => vstd::slice::slice_to_vec(ss.as_slice()),
                None => Vec::new(),
            };
            (m, s)
        },
        None => (fresh_main(p), fresh_ss(p)),
    };
    assert(main@ == spec_pad_main(*p));
    assert(ss@ =~= spec_pad_ss(*p));
    push_record(out, main.as_slice());
    push_record(out, ss.as_slice());
    assert(out@ =~= start + spec_pad_record(*p));
}

// ---------------------------------------------------------------------------
// Writing, then reading

proof fn lemma_pad_flags(p: Pad)
    requires
        extra_bits(p.flags_extra) == p.flags_extra,
    ensures
        spec_decode_flags(pad_flag_bits(p)) == (PrimitiveFlags {
            is_locked: p.is_locked,
            is_tenting_top: p.is_tenting_top,
            is_tenting_bottom: p.is_tenting_bottom,
            is_keepout: p.is_keepout,
        }),
        extra_bits(pad_flag_bits(p)) == p.flags_extra,
        (pad_flag_bits(p) & 0x80u16 != 0u16) == p.is_testpoint_fab_top,
        (pad_flag_bits(p) & 0x100u16 != 0u16) == p.is_testpoint_fab_bottom,
{
    let a: u16 = if p.is_locked { 0u16 } else { 4u16 };
    let b: u16 = if p.is_tenting_top { 0x20u16 } else { 0u16 };
    let c: u16 = if p.is_tenting_bottom { 0x40u16 } else { 0u16 };
    let d: u16 = if p.is_keepout { 0x200u16 } else { 0u16 };
    let t: u16 = if p.is_testpoint_fab_top { 0x80u16 } else { 0u16 };
    let m: u16 = if p.is_testpoint_fab_bottom { 0x100u16 } else { 0u16 };
    let e: u16 = p.flags_extra;
    assert((a == 0u16 || a == 4u16) && (b == 0u16 || b == 0x20u16) && (c == 0u16 || c == 0x40u16)
        && (d == 0u16 || d == 0x200u16) && (t == 0u16 || t == 0x80u16) && (m == 0u16 || m == 0x100u16)
        && e & 0xFC19u16 == e ==> {
        let x = a | b | c | d | e | t | m;
        &&& ((x & 4u16) == 0u16 <==> a == 0u16)
        &&& ((x & 0x20u16) != 0u16 <==> b != 0u16)
        &&& ((x & 0x40u16) != 0u16 <==> c != 0u16)
        &&& ((x & 0x200u16) != 0u16 <==> d != 0u16)
        &&& ((x & 0x80u16) != 0u16 <==> t != 0u16)
        &&& ((x & 0x100u16) != 0u16 <==> m != 0u16)
        &&& x & 0xFC19u16 == e
    }) by (bit_vector);
}

proof fn lemma_i32s_len(s: Seq<i32>)
    ensures
        i32s_bytes(s).len() == 4 * s.len(),
    decreases s.len(),
{
    if s.len() > 0 {
        lemma_i32s_len(s.drop_last());
        lemma_i32_round_trip(s.last());
    }
}

proof fn lemma_i32s_at(s: Seq<i32>, i: int)
    requires
        0 <= i < s.len(),
    ensures
        i32s_bytes(s).len() == 4 * s.len(),
        i32s_bytes(s).subrange(4 * i, 4 * i + 4) == i32_bytes(s[i]),
    decreases s.len(),
{
    lemma_i32s_len(s);
    if i < s.len() - 1 {
        lemma_i32s_at(s.drop_last(), i);
        let d = i32s_bytes(s.drop_last());
        assert(i32s_bytes(s).subrange(4 * i, 4 * i + 4) =~= d.subrange(4 * i, 4 * i + 4));
    } else {
        lemma_i32s_len(s.drop_last());
        assert(i32s_bytes(s).subrange(4 * i, 4 * i + 4) =~= i32_bytes(s.last()));
    }
}

#[verifier::spinoff_prover]
#[verifier::rlimit(60)]
proof fn lemma_pad_head_layout(p: Pad)
    ensures
        pad_head_bytes(p).len() == 61,
        pad_head_bytes(p).subrange(0, 13) == spec_common_prefix_bytes(
            p.layer as u8,
            pad_flag_bits(p),
            p.net_index as i32,
            p.component_index,
        ),
        pad_head_bytes(p).subrange(13, 17) == i32_bytes(p.location.x.raw),
        pad_head_bytes(p).subrange(17, 21) == i32_bytes(p.location.y.raw),
        pad_head_bytes(p).subrange(21, 25) == i32_bytes(p.size_top.x.raw),
        pad_head_bytes(p).subrange(25, 29) == i32_bytes(p.size_top.y.raw),
        pad_head_bytes(p).subrange(29, 33) == i32_bytes(p.size_middle.x.raw),
        pad_head_bytes(p).subrange(33, 37) == i32_bytes(p.size_middle.y.raw),
        pad_head_bytes(p).subrange(37, 41) == i32_bytes(p.size_bottom.x.raw),
        pad_head_bytes(p).subrange(41, 45) == i32_bytes(p.size_bottom.y.raw),
        pad_head_bytes(p).subrange(45, 49) == i32_bytes(p.hole_size.raw),
        pad_head_bytes(p)[49] == p.shape_top as u8,
        pad_head_bytes(p)[50] == p.shape_middle as u8,
        pad_head_bytes(p)[51] == p.shape_bottom as u8,
        pad_head_bytes(p).subrange(52, 60) == le64(p.rotation_bits as int),
        pad_head_bytes(p)[60] == (if p.is_plated { 1u8 } else { 0u8 }),
{
    let pre = spec_common_prefix_bytes(p.layer as u8, pad_flag_bits(p), p.net_index as i32, p.component_index);
    let a = i32_bytes(p.location.x.raw);
    let b = i32_bytes(p.location.y.raw);
    let c = i32_bytes(p.size_top.x.raw);
    let d = i32_bytes(p.size_top.y.raw);
    let e = i32_bytes(p.size_middle.x.raw);
    let f = i32_bytes(p.size_middle.y.raw);
    let g = i32_bytes(p.size_bottom.x.raw);
    let k = i32_bytes(p.size_bottom.y.raw);
    let l = i32_bytes(p.hole_size.raw);
    let sh = seq![p.shape_top as u8, p.shape_middle as u8, p.shape_bottom as u8];
    let r = le64(p.rotation_bits as int);
    let pl = seq![if p.is_plated { 1u8 } else { 0u8 }];
    let h = pad_head_bytes(p);
    lemma_le64_round_trip(p.rotation_bits as int);
    let x = pre + a + b;
    let y = c + d + e + f + g + k;
    let w = l + sh + r + pl;
    assert(h =~= x + y + w);
    assert(x.subrange(0, 13) =~= pre && x.subrange(13, 17) =~= a && x.subrange(17, 21) =~= b);
    assert(y.subrange(0, 4) =~= c && y.subrange(4, 8) =~= d && y.subrange(8, 12) =~= e);
    assert(y.subrange(12, 16) =~= f && y.subrange(16, 20) =~= g && y.subrange(20, 24) =~= k);
    assert(w.subrange(0, 4) =~= l && w.subrange(7, 15) =~= r);
    assert(w[4] == sh[0] && w[5] == sh[1] && w[6] == sh[2] && w[15] == pl[0]);
    assert(h.subrange(0, 13) =~= x.subrange(0, 13));
    assert(h.subrange(13, 17) =~= x.subrange(13, 17));
    assert(h.subrange(17, 21) =~= x.subrange(17, 21));
    assert(h.subrange(21, 25) =~= y.subrange(0, 4));
    assert(h.subrange(25, 29) =~= y.subrange(4, 8));
    assert(h.subrange(29, 33) =~= y.subrange(8, 12));
    assert(h.subrange(33, 37) =~= y.subrange(12, 16));
    assert(h.subrange(37, 41) =~= y.subrange(16, 20));
    assert(h.subrange(41, 45) =~= y.subrange(20, 24));
    assert(h.subrange(45, 49) =~= w.subrange(0, 4));
    assert(h[49] == w[4] && h[50] == w[5] && h[51] == w[6]);
    assert(h.subrange(52, 60) =~= w.subrange(7, 15));
    assert(h[60] == w[15]);
}

proof fn lemma_pad_ext_layout(p: Pad)
    ensures
        pad_ext_bytes(p).len() == 25,
        pad_ext_bytes(p)[1] == p.mode as u8,
        pad_ext_bytes(p)[2] == p.power_plane_connect_style as u8,
        pad_ext_bytes(p).subrange(3, 7) == i32_bytes(p.relief_air_gap.raw),
        pad_ext_bytes(p).subrange(7, 11) == i32_bytes(p.relief_conductor_width.raw),
        pad_ext_bytes(p).subrange(11, 13) == le16(as_unsigned16((p.relief_entries as i16) as int)),
        pad_ext_bytes(p).subrange(13, 17) == i32_bytes(p.power_plane_clearance.raw),
        pad_ext_bytes(p).subrange(17, 21) == i32_bytes(p.power_plane_relief_expansion.raw),
{
    let z = seq![0u8, p.mode as u8, p.power_plane_connect_style as u8];
    let a = i32_bytes(p.relief_air_gap.raw);
    let b = i32_bytes(p.relief_conductor_width.raw);
    let c = le16(as_unsigned16((p.relief_entries as i16) as int));
    let d = i32_bytes(p.power_plane_clearance.raw);
    let e = i32_bytes(p.power_plane_relief_expansion.raw);
    let f = le32(0);
    let x = pad_ext_bytes(p);
    assert(x =~= z + a + b + c + d + e + f);
    assert(x[1] == z[1] && x[2] == z[2]);
    assert(x.subrange(3, 7) =~= a);
    assert(x.subrange(7, 11) =~= b);
    assert(x.subrange(11, 13) =~= c);
    assert(x.subrange(13, 17) =~= d);
    assert(x.subrange(17, 21) =~= e);
}

proof fn lemma_pad_tail_layout(p: Pad)
    ensures
        pad_tail_bytes(p).len() == 28,
        pad_tail_bytes(p).subrange(0, 4) == i32_bytes(p.paste_mask_expansion.raw),
        pad_tail_bytes(p).subrange(4, 8) == i32_bytes(p.solder_mask_expansion.raw),
        pad_tail_bytes(p)[17] == p.drill_type as u8,
        pad_tail_bytes(p).subrange(24, 26) == le16(as_unsigned16((p.jumper_id as i16) as int)),
{
    let a = i32_bytes(p.paste_mask_expansion.raw);
    let b = i32_bytes(p.solder_mask_expansion.raw);
    let z = Seq::new(7, |i: int| 0u8);
    let m = seq![
        if p.paste_mask_expansion.raw != 0 {
            2u8
        } else {
            0u8
        },
        if p.solder_mask_expansion.raw != 0 {
            2u8
        } else {
            0u8
        },
        p.drill_type as u8,
    ];
    let c = le16(0) + le32(0);
    let j = le16(as_unsigned16((p.jumper_id as i16) as int));
    let e = le16(0);
    let t = pad_tail_bytes(p);
    assert(t =~= a + b + z + m + c + j + e);
    assert(t.subrange(0, 4) =~= a);
    assert(t.subrange(4, 8) =~= b);
    assert(t[17] == m[2]);
    assert(t.subrange(24, 26) =~= j);
}

/// Where each typed field sits in a fresh main block.
#[verifier::spinoff_prover]
#[verifier::rlimit(40)]
pub(crate) proof fn lemma_fresh_pad_main(p: Pad)
    ensures
        fresh_pad_main(p).len() == 202,
        fresh_pad_main(p).subrange(0, 61) == pad_head_bytes(p),
        fresh_pad_main(p).subrange(61, 86) == pad_ext_bytes(p),
        fresh_pad_main(p).subrange(86, 114) == pad_tail_bytes(p),
{
    lemma_pad_head_layout(p);
    lemma_pad_ext_layout(p);
    lemma_pad_tail_layout(p);
    let m = fresh_pad_main(p);
    assert(m.subrange(0, 61) =~= pad_head_bytes(p));
    assert(m.subrange(61, 86) =~= pad_ext_bytes(p));
    assert(m.subrange(86, 114) =~= pad_tail_bytes(p));
}

proof fn lemma_table_in(s: Seq<u8>, off: int, t: Seq<i32>, i: int)
    requires
        0 <= off,
        0 <= i < t.len(),
        off + 4 * t.len() <= s.len(),
        s.subrange(off, off + 4 * t.len()) == i32s_bytes(t),
    ensures
        i32_at(s, off + 4 * i) == t[i],
{
    lemma_i32s_at(t, i);
    lemma_transport(s, off, i32s_bytes(t), 4 * i, 4 * i + 4);
    lemma_i32_in(s, off + 4 * i, t[i]);
}

/// What each field of a fresh main block reads back as.
#[verifier::spinoff_prover]
#[verifier::rlimit(60)]
proof fn lemma_pad_main_values(p: Pad, m: Seq<u8>)
    requires
        m == fresh_pad_main(p),
        0 <= p.layer <= 255,
        -1 <= p.component_index <= 0xFFFE,
        -0x8000 <= p.relief_entries <= 0x7FFF,
        -0x8000 <= p.jumper_id <= 0x7FFF,
    ensures
        m.len() == 202,
        spec_common_prefix(m, 0) == (CommonPrefix {
            layer: p.layer as u8,
            flags: pad_flag_bits(p),
            net_index: p.net_index as i32,
            component_index: p.component_index,
        }),
        i32_at(m, 13) == p.location.x.raw && i32_at(m, 17) == p.location.y.raw,
        i32_at(m, 21) == p.size_top.x.raw && i32_at(m, 25) == p.size_top.y.raw,
        i32_at(m, 29) == p.size_middle.x.raw && i32_at(m, 33) == p.size_middle.y.raw,
        i32_at(m, 37) == p.size_bottom.x.raw && i32_at(m, 41) == p.size_bottom.y.raw,
        i32_at(m, 45) == p.hole_size.raw,
        m[49] == p.shape_top as u8 && m[50] == p.shape_middle as u8 && m[51] == p.shape_bottom as u8,
        u64_le(m, 52) == p.rotation_bits,
        (m[60] != 0u8) == p.is_plated,
        m[62] == p.mode as u8 && m[63] == p.power_plane_connect_style as u8,
        i32_at(m, 64) == p.relief_air_gap.raw && i32_at(m, 68) == p.relief_conductor_width.raw,
        as_signed16(u16_le(m, 72)) == p.relief_entries,
        i32_at(m, 74) == p.power_plane_clearance.raw && i32_at(m, 78) == p.power_plane_relief_expansion.raw,
        i32_at(m, 86) == p.paste_mask_expansion.raw && i32_at(m, 90) == p.solder_mask_expansion.raw,
        m[103] == p.drill_type as u8,
        as_signed16(u16_le(m, 110)) == p.jumper_id,
{
    lemma_fresh_pad_main(p);
    lemma_pad_head_layout(p);
    lemma_pad_ext_layout(p);
    lemma_pad_tail_layout(p);
    let h = pad_head_bytes(p);
    let x = pad_ext_bytes(p);
    let t = pad_tail_bytes(p);
    let bits = pad_flag_bits(p);
    let pre = spec_common_prefix_bytes(p.layer as u8, bits, p.net_index as i32, p.component_index);
    lemma_common_prefix_round_trip(p.layer as u8, bits, p.net_index as i32, p.component_index);
    lemma_transport(m, 0, h, 0, 13);
    assert forall|k: int| 0 <= k < 13 implies m[k] == pre[k] by {
        assert(m.subrange(0, 13)[k] == m[k]);
    }
    assert(spec_common_prefix(m, 0) == spec_common_prefix(pre, 0));
    lemma_transport(m, 0, h, 13, 17);
    lemma_transport(m, 0, h, 17, 21);
    lemma_transport(m, 0, h, 21, 25);
    lemma_transport(m, 0, h, 25, 29);
    lemma_transport(m, 0, h, 29, 33);
    lemma_transport(m, 0, h, 33, 37);
    lemma_transport(m, 0, h, 37, 41);
    lemma_transport(m, 0, h, 41, 45);
    lemma_transport(m, 0, h, 45, 49);
    lemma_transport(m, 0, h, 52, 60);
    lemma_i32_in(m, 13, p.location.x.raw);
    lemma_i32_in(m, 17, p.location.y.raw);
    lemma_i32_in(m, 21, p.size_top.x.raw);
    lemma_i32_in(m, 25, p.size_top.y.raw);
    lemma_i32_in(m, 29, p.size_middle.x.raw);
    lemma_i32_in(m, 33, p.size_middle.y.raw);
    lemma_i32_in(m, 37, p.size_bottom.x.raw);
    lemma_i32_in(m, 41, p.size_bottom.y.raw);
    lemma_i32_in(m, 45, p.hole_size.raw);
    lemma_u64_in(m, 52, p.rotation_bits);
    assert(m[49] == m.subrange(0, 61)[49] && m[50] == m.subrange(0, 61)[50] && m[51] == m.subrange(0, 61)[51]);
    assert(m[60] == m.subrange(0, 61)[60]);
    assert(m[62] == m.subrange(61, 86)[1] && m[63] == m.subrange(61, 86)[2]);
    lemma_transport(m, 61, x, 3, 7);
    lemma_transport(m, 61, x, 7, 11);
    lemma_transport(m, 61, x, 11, 13);
    lemma_transport(m, 61, x, 13, 17);
    lemma_transport(m, 61, x, 17, 21);
    lemma_i32_in(m, 64, p.relief_air_gap.raw);
    lemma_i32_in(m, 68, p.relief_conductor_width.raw);
    lemma_i32_in(m, 74, p.power_plane_clearance.raw);
    lemma_i32_in(m, 78, p.power_plane_relief_expansion.raw);
    lemma_i16_round_trip(p.relief_entries as i16);
    let re = le16(as_unsigned16((p.relief_entries as i16) as int));
    assert(m[72] == re[0] && m[73] == re[1]) by {
        assert(m.subrange(72, 74)[0] == m[72] && m.subrange(72, 74)[1] == m[73]);
    }
    assert(u16_le(m, 72) == u16_le(re, 0));
    lemma_transport(m, 86, t, 0, 4);
    lemma_transport(m, 86, t, 4, 8);
    lemma_transport(m, 86, t, 24, 26);
    lemma_i32_in(m, 86, p.paste_mask_expansion.raw);
    lemma_i32_in(m, 90, p.solder_mask_expansion.raw);
    assert(m[103] == m.subrange(86, 114)[17]);
    lemma_i16_round_trip(p.jumper_id as i16);
    let je = le16(as_unsigned16((p.jumper_id as i16) as int));
    assert(m[110] == je[0] && m[111] == je[1]) by {
        assert(m.subrange(110, 112)[0] == m[110] && m.subrange(110, 112)[1] == m[111]);
    }
    assert(u16_le(m, 110) == u16_le(je, 0));
}

/// What each field of a fresh size/shape block reads back as.
#[verifier::spinoff_prover]
#[verifier::rlimit(60)]
proof fn lemma_pad_ss_values(p: Pad, s: Seq<u8>)
    requires
        s == fresh_pad_ss(p),
    ensures
        s.len() == 596,
        forall|i: int| 0 <= i < 29 ==> i32_at(s, 4 * i) == #[trigger] p.layer_x_sizes@[i],
        forall|i: int| 0 <= i < 29 ==> i32_at(s, 116 + 4 * i) == #[trigger] p.layer_y_sizes@[i],
        forall|i: int| 0 <= i < 29 ==> s[232 + i] == #[trigger] p.internal_layer_shapes@[i],
        s[262] == p.hole_type as u8,
        i32_at(s, 263) == p.hole_slot_length,
        u64_le(s, 267) == p.hole_rotation_bits,
        forall|i: int| 0 <= i < 32 ==> i32_at(s, 275 + 4 * i) == #[trigger] p.offset_x_from_hole_center@[i],
        forall|i: int| 0 <= i < 32 ==> i32_at(s, 403 + 4 * i) == #[trigger] p.offset_y_from_hole_center@[i],
        s[531] == p.has_rounded_rect_byte,
        forall|i: int| 0 <= i < 32 ==> s[532 + i] == #[trigger] p.per_layer_shapes@[i],
        forall|i: int| 0 <= i < 32 ==> s[564 + i] == #[trigger] p.per_layer_corner_radii@[i],
{
    let xs = i32s_bytes(p.layer_x_sizes@);
    let ys = i32s_bytes(p.layer_y_sizes@);
    let sh = p.internal_layer_shapes@;
    let hb = seq![0u8, p.hole_type as u8];
    let sl = i32_bytes(p.hole_slot_length);
    let hr = le64(p.hole_rotation_bits as int);
    let ox = i32s_bytes(p.offset_x_from_hole_center@);
    let oy = i32s_bytes(p.offset_y_from_hole_center@);
    let rr = seq![p.has_rounded_rect_byte];
    let pls = p.per_layer_shapes@;
    let rad = p.per_layer_corner_radii@;
    lemma_i32s_len(p.layer_x_sizes@);
    lemma_i32s_len(p.layer_y_sizes@);
    lemma_i32s_len(p.offset_x_from_hole_center@);
    lemma_i32s_len(p.offset_y_from_hole_center@);
    lemma_i32_round_trip(p.hole_slot_length);
    lemma_le64_round_trip(p.hole_rotation_bits as int);
    let a = xs + ys;
    let b = sh + hb + sl + hr;
    let c = ox + oy;
    let d = rr + pls + rad;
    assert(s =~= a + b + c + d);
    assert(s.subrange(0, 116) =~= xs);
    assert(s.subrange(116, 232) =~= ys);
    assert(s.subrange(275, 403) =~= ox);
    assert(s.subrange(403, 531) =~= oy);
    assert(s.subrange(263, 267) =~= sl);
    assert(s.subrange(267, 275) =~= hr);
    lemma_i32_in(s, 263, p.hole_slot_length);
    lemma_u64_in(s, 267, p.hole_rotation_bits);
    assert(s[262] == hb[1]);
    assert(s[531] == rr[0]);
    assert forall|i: int| 0 <= i < 29 implies i32_at(s, 4 * i) == #[trigger] p.layer_x_sizes@[i] by {
        lemma_table_in(s, 0, p.layer_x_sizes@, i);
    }
    assert forall|i: int| 0 <= i < 29 implies i32_at(s, 116 + 4 * i) == #[trigger] p.layer_y_sizes@[i] by {
        lemma_table_in(s, 116, p.layer_y_sizes@, i);
    }
    assert forall|i: int| 0 <= i < 32 implies i32_at(s, 275 + 4 * i) == #[trigger] p.offset_x_from_hole_center@[i] by {
        lemma_table_in(s, 275, p.offset_x_from_hole_center@, i);
    }
    assert forall|i: int| 0 <= i < 32 implies i32_at(s, 403 + 4 * i) == #[trigger] p.offset_y_from_hole_center@[i] by {
        lemma_table_in(s, 403, p.offset_y_from_hole_center@, i);
    }
    assert forall|i: int| 0 <= i < 29 implies s[232 + i] == #[trigger] p.internal_layer_shapes@[i] by {
        assert(s[232 + i] == b[i]);
    }
    assert forall|i: int| 0 <= i < 32 implies s[532 + i] == #[trigger] p.per_layer_shapes@[i] by {
        assert(s[532 + i] == d[1 + i]);
    }
    assert forall|i: int| 0 <= i < 32 implies s[564 + i] == #[trigger] p.per_layer_corner_radii@[i] by {
        assert(s[564 + i] == d[33 + i]);
    }
}

proof fn lemma_record_block(d: Seq<u8>, p: int, x: Seq<u8>)
    requires
        0 <= p,
        x.len() < 0x1_0000_0000,
        p + 4 + x.len() <= d.len(),
        d.subrange(p, p + 4 + x.len()) == record_bytes(x),
    ensures
        block_fits(d, p),
        u32_le(d, p) == x.len(),
        block_body(d, p) == x,
{
    lemma_le32_round_trip(x.len() as int);
    let w = le32((x.len() as u32) as int);
    assert((x.len() as u32) as int == x.len());
    assert forall|k: int| 0 <= k < 4 implies d[p + k] == w[k] by {
        assert(d.subrange(p, p + 4 + x.len())[k] == d[p + k]);
    }
    assert(u32_le(d, p) == u32_le(w, 0));
    assert(block_body(d, p) =~= x) by {
        assert forall|k: int| 0 <= k < x.len() implies block_body(d, p)[k] == x[k] by {
            assert(d.subrange(p, p + 4 + x.len())[4 + k] == d[p + 4 + k]);
        }
    }
}

/// The block boundaries of a written pad record.
#[verifier::spinoff_prover]
#[verifier::rlimit(60)]
proof fn lemma_pad_record_blocks(p: Pad)
    requires
        pascal_safe(designator_text(p)),
        pascal_safe(p.net_string_block@),
        p.reserved_block_after_designator@.len() < 0x1_0000_0000,
        p.reserved_block_after_net_string@.len() < 0x1_0000_0000,
        spec_pad_main(p).len() < 0x1_0000_0000,
        spec_pad_ss(p).len() < 0x1_0000_0000,
    ensures
        pad_frames_fit(spec_pad_record(p), 6),
        pascal_text(pad_block(spec_pad_record(p), 0)) == designator_text(p),
        pad_block(spec_pad_record(p), 1) == p.reserved_block_after_designator@,
        pascal_text(pad_block(spec_pad_record(p), 2)) == p.net_string_block@,
        pad_block(spec_pad_record(p), 3) == p.reserved_block_after_net_string@,
        pad_block(spec_pad_record(p), 4) == spec_pad_main(p),
        pad_block(spec_pad_record(p), 5) == spec_pad_ss(p),
{
    reveal_with_fuel(pad_frames_fit, 7);
    reveal_with_fuel(pad_offset, 7);
    let rec = spec_pad_record(p);
    let dt = designator_text(p);
    let a = pascal_block(dt);
    let b = record_bytes(p.reserved_block_after_designator@);
    let c = pascal_block(p.net_string_block@);
    let d = record_bytes(p.reserved_block_after_net_string@);
    let e = record_bytes(spec_pad_main(p));
    let f = record_bytes(spec_pad_ss(p));
    let r1 = p.reserved_block_after_designator@;
    let r3 = p.reserved_block_after_net_string@;
    let o1 = a.len() as int;
    let o2 = o1 + b.len();
    let o3 = o2 + c.len();
    let o4 = o3 + d.len();
    let o5 = o4 + e.len();
    lemma_le32_round_trip(r1.len() as int);
    lemma_le32_round_trip(r3.len() as int);
    lemma_le32_round_trip(spec_pad_main(p).len() as int);
    lemma_le32_round_trip(spec_pad_ss(p).len() as int);
    assert(rec =~= a + b + c + d + e + f);
    assert(rec.subrange(0, o1) =~= a);
    lemma_pascal_block_read(rec, 0, dt);
    assert(block_fits(rec, 0));
    assert(pad_offset(rec, 1) == o1);
    assert(rec.subrange(o1, o1 + 4 + r1.len()) =~= b);
    lemma_record_block(rec, o1, r1);
    assert(pad_offset(rec, 2) == o2);
    assert(rec.subrange(o2, o2 + c.len()) =~= c);
    lemma_pascal_block_read(rec, o2, p.net_string_block@);
    assert(block_fits(rec, o2));
    assert(pad_offset(rec, 3) == o3);
    assert(rec.subrange(o3, o3 + 4 + r3.len()) =~= d);
    lemma_record_block(rec, o3, r3);
    assert(pad_offset(rec, 4) == o4);
    assert(rec.subrange(o4, o4 + 4 + spec_pad_main(p).len()) =~= e);
    lemma_record_block(rec, o4, spec_pad_main(p));
    assert(pad_offset(rec, 5) == o5);
    assert(rec.subrange(o5, o5 + 4 + spec_pad_ss(p).len()) =~= f);
    lemma_record_block(rec, o5, spec_pad_ss(p));
    assert(pad_frames_fit(rec, 6));
    assert(pad_block(rec, 0) == rec.subrange(4, 5 + dt.len() as int));
    assert(pad_block(rec, 2) == rec.subrange(o2 + 4, o2 + 5 + p.net_string_block@.len() as int));
}

/// The fields a pad record gives back, by value: every field the record
/// stores or a reader derives.
pub open spec fn pad_recorded_match(a: Pad, b: Pad) -> bool {
    &&& designator_text(a) == designator_text(b) && (a.designator is Some <==> b.designator is Some)
    &&& a.reserved_block_after_designator@ == b.reserved_block_after_designator@
    &&& a.net_string_block@ == b.net_string_block@
    &&& a.reserved_block_after_net_string@ == b.reserved_block_after_net_string@
    &&& a.location == b.location && a.size_top == b.size_top && a.size_middle == b.size_middle
    &&& a.size_bottom == b.size_bottom && a.hole_size == b.hole_size
    &&& a.rotation_bits == b.rotation_bits && a.is_plated == b.is_plated
    &&& a.layer == b.layer && a.net_index == b.net_index && a.component_index == b.component_index
    &&& a.is_locked == b.is_locked && a.is_tenting_top == b.is_tenting_top
    &&& a.is_tenting_bottom == b.is_tenting_bottom && a.is_keepout == b.is_keepout
    &&& a.flags_extra == b.flags_extra
    &&& a.is_testpoint_fab_top == b.is_testpoint_fab_top && a.is_testpoint_fab_bottom == b.is_testpoint_fab_bottom
    &&& a.mode == b.mode && a.power_plane_connect_style == b.power_plane_connect_style
    &&& a.relief_air_gap == b.relief_air_gap && a.relief_conductor_width == b.relief_conductor_width
    &&& a.relief_entries == b.relief_entries
    &&& a.power_plane_clearance == b.power_plane_clearance
    &&& a.power_plane_relief_expansion == b.power_plane_relief_expansion
    &&& a.paste_mask_expansion == b.paste_mask_expansion && a.solder_mask_expansion == b.solder_mask_expansion
    &&& a.drill_type == b.drill_type && a.jumper_id == b.jumper_id
    &&& a.layer_x_sizes@ == b.layer_x_sizes@ && a.layer_y_sizes@ == b.layer_y_sizes@
    &&& a.internal_layer_shapes@ == b.internal_layer_shapes@
    &&& a.hole_type == b.hole_type && a.hole_slot_length == b.hole_slot_length
    &&& a.hole_rotation_bits == b.hole_rotation_bits
    &&& a.offset_x_from_hole_center@ == b.offset_x_from_hole_center@
    &&& a.offset_y_from_hole_center@ == b.offset_y_from_hole_center@
    &&& a.has_rounded_rect_byte == b.has_rounded_rect_byte
    &&& a.per_layer_shapes@ == b.per_layer_shapes@ && a.per_layer_corner_radii@ == b.per_layer_corner_radii@
    &&& a.shape_top == b.shape_top && a.shape_middle == b.shape_middle && a.shape_bottom == b.shape_bottom
    &&& a.top_shape == b.top_shape && a.mid_shape == b.mid_shape && a.bot_shape == b.bot_shape
    &&& a.top_x_size == b.top_x_size && a.top_y_size == b.top_y_size
    &&& a.mid_x_size == b.mid_x_size && a.mid_y_size == b.mid_y_size
    &&& a.bot_x_size == b.bot_x_size && a.bot_y_size == b.bot_y_size
    &&& a.corner_radius_percentage == b.corner_radius_percentage
    &&& a.is_surface_mount == b.is_surface_mount
    &&& a.is_top_paste_enabled == b.is_top_paste_enabled && a.is_bottom_paste_enabled == b.is_bottom_paste_enabled
    &&& a.has_rounded_rectangular_shapes == b.has_rounded_rectangular_shapes
    &&& a.has_custom_rounded_rectangle == b.has_custom_rounded_rectangle
    &&& a.has_custom_shapes == b.has_custom_shapes
}

/// The ranges within which every typed field of a pad survives a write:
/// a designator, when present, is non-empty; designator and net string are
/// Pascal-safe; the reserved blocks fit a length word; layer, shape codes,
/// stack mode, plane style and drill type fit a byte; relief entries and
/// jumper id fit an `i16`; the owner index fits its word; the hole type is
/// round, square or slot; the extra flag bits lie outside the modelled ones.
pub open spec fn pad_writable(p: Pad) -> bool {
    &&& p.designator matches Some(d) ==> d@.len() > 0
    &&& pascal_safe(designator_text(p))
    &&& pascal_safe(p.net_string_block@)
    &&& p.reserved_block_after_designator@.len() < 0x1_0000_0000
    &&& p.reserved_block_after_net_string@.len() < 0x1_0000_0000
    &&& 0 <= p.layer <= 255
    &&& -1 <= p.component_index <= 0xFFFE
    &&& extra_bits(p.flags_extra) == p.flags_extra
    &&& 0 <= p.shape_top <= 255 && 0 <= p.shape_middle <= 255 && 0 <= p.shape_bottom <= 255
    &&& 0 <= p.mode <= 255 && 0 <= p.power_plane_connect_style <= 255
    &&& -0x8000 <= p.relief_entries <= 0x7FFF && -0x8000 <= p.jumper_id <= 0x7FFF
    &&& 0 <= p.drill_type <= 255
    &&& 0 <= p.hole_type <= 2
}

/// The derived fields of a pad agree with the others as a reader derives
/// them: with the rounded-rectangle byte set the shapes come from the
/// per-layer table; the legacy size and shape copies, the corner radius,
/// SMD and paste coverage and the custom-shape markers follow.
pub open spec fn pad_derived_consistent(p: Pad) -> bool {
    let rr = p.has_rounded_rect_byte != 0u8;
    let pls = p.per_layer_shapes@;
    &&& rr ==> p.shape_top == pls[0] as i32 && p.shape_middle == pls[1] as i32 && p.shape_bottom == (if p.mode
        == 0 {
        pls[0]
    } else {
        pls[31]
    }) as i32
    &&& p.top_shape == p.shape_top && p.mid_shape == p.shape_middle && p.bot_shape == p.shape_bottom
    &&& p.top_x_size == p.size_top.x && p.top_y_size == p.size_top.y
    &&& p.mid_x_size == p.size_middle.x && p.mid_y_size == p.size_middle.y
    &&& p.bot_x_size == p.size_bottom.x && p.bot_y_size == p.size_bottom.y
    &&& p.corner_radius_percentage == p.per_layer_corner_radii@[0] as i32
    &&& p.is_surface_mount == (p.hole_size.raw <= 0 && (p.layer == 1 || p.layer == 32))
    &&& p.is_top_paste_enabled == (p.layer == 1 || p.layer == 74)
    &&& p.is_bottom_paste_enabled == (p.layer == 32 || p.layer == 74)
    &&& p.has_rounded_rectangular_shapes == rr
    &&& p.has_custom_rounded_rectangle == (rr && radii_differ(p))
    &&& p.has_custom_shapes == !is_modelled_shape(p.shape_top as int)
}

/// Writing a pad that has no preserved record and reading the record back
/// gives the same pad: the record splits into its six blocks, the main
/// block is long enough to be read, and the pad read from it matches the
/// written one in every stored and derived field, holds the defaults
/// everywhere else, and keeps the two written blocks as its preserved
/// record.
#[verifier::spinoff_prover]
#[verifier::rlimit(80)]
pub proof fn lemma_pad_round_trip(p: Pad, back: Pad)
    requires
        p.raw_record is None,
        pad_writable(p),
        pad_derived_consistent(p),
        pad_read_from(back, spec_pad_record(p)),
    ensures
        pad_frames_fit(spec_pad_record(p), 6),
        pad_block(spec_pad_record(p), 4).len() >= 61,
        pad_recorded_match(back, p),
        pad_unrecorded_default(back),
        back.raw_record matches Some(r) && r@ == fresh_pad_main(p),
        back.raw_size_shape matches Some(s) && s@ == fresh_pad_ss(p),
        back.has_size_shape_block,
{
    let m = fresh_pad_main(p);
    let s = fresh_pad_ss(p);
    lemma_pad_main_values(p, m);
    lemma_pad_ss_values(p, s);
    lemma_pad_record_blocks(p);
    lemma_pad_flags(p);
    let rec = spec_pad_record(p);
    assert(pad_block(rec, 4) == m);
    assert(pad_block(rec, 5) == s);
    assert(ss_view(s) == s);
    assert(mask_at(202) == 86 && drill_at(202) == 94 && jumper_at(202) == 110);
    assert(back.layer_x_sizes@ =~= p.layer_x_sizes@);
    assert(back.layer_y_sizes@ =~= p.layer_y_sizes@);
    assert(back.internal_layer_shapes@ =~= p.internal_layer_shapes@);
    assert(back.offset_x_from_hole_center@ =~= p.offset_x_from_hole_center@);
    assert(back.offset_y_from_hole_center@ =~= p.offset_y_from_hole_center@);
    assert(back.per_layer_shapes@ =~= p.per_layer_shapes@);
    assert(back.per_layer_corner_radii@ =~= p.per_layer_corner_radii@);
    assert(radii_differ(back) == radii_differ(p)) by {
        if radii_differ(p) {
            let j = choose|j: int| 0 <= j < 32 && #[trigger] p.per_layer_corner_radii@[j] != p.per_layer_corner_radii@[0];
            assert(back.per_layer_corner_radii@[j] != back.per_layer_corner_radii@[0]);
        }
        if radii_differ(back) {
            let j = choose|j: int| 0 <= j < 32 && #[trigger] back.per_layer_corner_radii@[j]
                != back.per_layer_corner_radii@[0];
            assert(p.per_layer_corner_radii@[j] != p.per_layer_corner_radii@[0]);
        }
    }
    assert(back.location =~= p.location);
    assert(back.size_top =~= p.size_top);
    assert(back.size_middle =~= p.size_middle);
    assert(back.size_bottom =~= p.size_bottom);
    assert(back.hole_size =~= p.hole_size);
    assert(back.relief_air_gap =~= p.relief_air_gap);
    assert(back.relief_conductor_width =~= p.relief_conductor_width);
    assert(back.power_plane_clearance =~= p.power_plane_clearance);
    assert(back.power_plane_relief_expansion =~= p.power_plane_relief_expansion);
    assert(back.paste_mask_expansion =~= p.paste_mask_expansion);
    assert(back.solder_mask_expansion =~= p.solder_mask_expansion);
    assert(back.top_x_size =~= p.top_x_size && back.top_y_size =~= p.top_y_size);
    assert(back.mid_x_size =~= p.mid_x_size && back.mid_y_size =~= p.mid_y_size);
    assert(back.bot_x_size =~= p.bot_x_size && back.bot_y_size =~= p.bot_y_size);
    assert(designator_text(back) == designator_text(p));
}

// ---------------------------------------------------------------------------
// Reading, then writing

/// Whether a block is a well-formed Pascal string block: a count byte equal
/// to the number of text bytes after it.
pub open spec fn pascal_canonical(block: Seq<u8>) -> bool {
    block.len() > 0 && block[0] as int == block.len() - 1
}

proof fn lemma_pad_flags_rewrite(bits: u16)
    requires
        bits & 2u16 == 0u16,
    ensures
        ({
            let f = spec_decode_flags(bits);
            spec_encode_flags(f) | (bits & 0xFC19u16) | (if bits & 0x80u16 != 0u16 { 0x80u16 } else { 0u16 }) | (
            if bits & 0x100u16 != 0u16 {
                0x100u16
            } else {
                0u16
            }) == bits
        }),
{
    let a: u16 = if bits & 4u16 == 0u16 { 0u16 } else { 4u16 };
    let b: u16 = if bits & 0x20u16 != 0u16 { 0x20u16 } else { 0u16 };
    let c: u16 = if bits & 0x40u16 != 0u16 { 0x40u16 } else { 0u16 };
    let d: u16 = if bits & 0x200u16 != 0u16 { 0x200u16 } else { 0u16 };
    let t: u16 = if bits & 0x80u16 != 0u16 { 0x80u16 } else { 0u16 };
    let m: u16 = if bits & 0x100u16 != 0u16 { 0x100u16 } else { 0u16 };
    assert(a | b | c | d | (bits & 0xFC19u16) | t | m == bits) by (bit_vector)
        requires
            bits & 2u16 == 0u16,
            a == (if bits & 4u16 == 0u16 { 0u16 } else { 4u16 }),
            b == (if bits & 0x20u16 != 0u16 { 0x20u16 } else { 0u16 }),
            c == (if bits & 0x40u16 != 0u16 { 0x40u16 } else { 0u16 }),
            d == (if bits & 0x200u16 != 0u16 { 0x200u16 } else { 0u16 }),
            t == (if bits & 0x80u16 != 0u16 { 0x80u16 } else { 0u16 }),
            m == (if bits & 0x100u16 != 0u16 { 0x100u16 } else { 0u16 }),
    ;
}

proof fn lemma_block_bytes(rec: Seq<u8>, o: int)
    requires
        block_fits(rec, o),
    ensures
        rec.subrange(o, o + 4 + u32_le(rec, o)) == record_bytes(block_body(rec, o)),
{
    crate::bytes::lemma_le32_of_read(rec, o);
    let x = block_body(rec, o);
    assert((x.len() as u32) as int == x.len());
    assert(rec.subrange(o, o + 4 + u32_le(rec, o)) =~= rec.subrange(o, o + 4) + x);
}

proof fn lemma_pascal_rewrite(block: Seq<u8>)
    requires
        pascal_canonical(block),
    ensures
        pascal_block(pascal_text(block)) == record_bytes(block),
{
    let t = pascal_text(block);
    let body = block.subrange(1, block.len() as int);
    assert(block.subrange(1, 1 + crate::lint::min_int(block[0] as int, block.len() - 1)) =~= body);
    crate::encoding::lemma_decode_encode(body);
    let lb = crate::encoding::latin1_bytes(t);
    assert(lb == body);
    assert(((1 + lb.len()) % 0x1_0000_0000) as int == (block.len() as u32) as int);
    assert((lb.len() % 256) as u8 == block[0]);
    assert(pascal_block(t) =~= record_bytes(block));
}

/// The main block written for a pad read from `m` is `m` itself, when the
/// header's polygon-outline bit (which no pad field keeps) is clear.
proof fn lemma_pad_main_rewrite(p: Pad, m: Seq<u8>)
    requires
        m.len() >= 61,
        pad_head_from(p, m),
        p.raw_record matches Some(raw) && raw@ == m,
        spec_common_prefix(m, 0).flags & 2u16 == 0u16,
    ensures
        spec_pad_main(p) == m,
{
    let cp = spec_common_prefix(m, 0);
    lemma_pad_flags_rewrite(cp.flags);
    assert(pad_flag_bits(p) == cp.flags);
    assert(p.layer as u8 == cp.layer);
    assert(p.net_index == prefix_net(cp));
    crate::primitive_io::lemma_prefix_rewrite(m);
    let m1 = patched_prefix(m, p.layer as u8, pad_flag_bits(p), p.net_index as i32, p.component_index);
    assert(m1 == m);
    crate::primitive_io::lemma_i32_bytes_of_read(m, 13);
    crate::primitive_io::lemma_i32_bytes_of_read(m, 17);
    assert(i32_bytes(p.location.x.raw) + i32_bytes(p.location.y.raw) =~= m.subrange(13, 21));
    crate::primitive_io::lemma_patched_same(m, 13, m.subrange(13, 21));
    crate::bytes::lemma_le64_of_read(m, 52);
    crate::primitive_io::lemma_patched_same(m, 52, m.subrange(52, 60));
}

/// Reading a pad record and writing the pad back gives the record's bytes
/// again, when the record ends with its size/shape block, its designator
/// and net-string blocks are well-formed Pascal strings, and the header's
/// polygon-outline bit, which no pad field keeps, is clear.
#[verifier::spinoff_prover]
#[verifier::rlimit(80)]
pub proof fn lemma_pad_rewrite(rec: Seq<u8>, p: Pad)
    requires
        pad_frames_fit(rec, 6),
        pad_block(rec, 4).len() >= 61,
        pad_read_from(p, rec),
        pad_offset(rec, 6) == rec.len(),
        pascal_canonical(pad_block(rec, 0)),
        pascal_canonical(pad_block(rec, 2)),
        spec_common_prefix(pad_block(rec, 4), 0).flags & 2u16 == 0u16,
    ensures
        spec_pad_record(p) == rec,
{
    reveal_with_fuel(pad_frames_fit, 7);
    reveal_with_fuel(pad_offset, 7);
    let m = pad_block(rec, 4);
    let ss = pad_block(rec, 5);
    lemma_pad_main_rewrite(p, m);
    assert(spec_pad_ss(p) == ss);
    lemma_pascal_rewrite(pad_block(rec, 0));
    lemma_pascal_rewrite(pad_block(rec, 2));
    assert(designator_text(p) == pascal_text(pad_block(rec, 0)));
    let o1 = pad_offset(rec, 1);
    let o2 = pad_offset(rec, 2);
    let o3 = pad_offset(rec, 3);
    let o4 = pad_offset(rec, 4);
    let o5 = pad_offset(rec, 5);
    let o6 = pad_offset(rec, 6);
    lemma_block_bytes(rec, 0);
    lemma_block_bytes(rec, o1);
    lemma_block_bytes(rec, o2);
    lemma_block_bytes(rec, o3);
    lemma_block_bytes(rec, o4);
    lemma_block_bytes(rec, o5);
    assert(rec =~= rec.subrange(0, o1) + rec.subrange(o1, o2) + rec.subrange(o2, o3) + rec.subrange(o3, o4)
        + rec.subrange(o4, o5) + rec.subrange(o5, o6));
    assert(spec_pad_record(p) =~= rec);
}

} // verus!
