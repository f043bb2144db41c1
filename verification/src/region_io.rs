//! Region records: the common prefix, a parameter block, then the outline
//! and holes. Decoding splits a body into its shape (ownership, header flags,
//! geometry) and its parameters; encoding writes a fresh body or splices the
//! typed fields into a preserved one.

use vstd::prelude::*;

use crate::binary::{read_common_prefix, spec_common_prefix, spec_common_prefix_bytes, spec_decode_flags, write_common_prefix_full, PrimitiveFlags};
use crate::bytes::{le32, push_u32, read_u32, u32_le};
use crate::coord::CoordPoint;
use crate::default_streams::{c_string_block, c_string_block_bytes};
use crate::flatten::{push_record, record_bytes};
use crate::parameter::{block_bytes, block_safe_name, block_safe_value, byte_char, entry_bytes, keys_unique, lemma_block_round_trip, lemma_first_pos_at, map_get, parse_block, Entries, ParameterMap};
use crate::encoding::latin1_bytes;
use crate::binary::lemma_common_prefix_round_trip;
use crate::bytes::lemma_le32_round_trip;
use crate::primitive_io::{patch_common_prefix, patched_prefix, ReadError};
use crate::reader_parts::{before_nul, strip_nulls};
use crate::region_geometry::{
    geometry_bytes, holes_at, holes_view, lemma_vertex_list_round_trip, parse_region_geometry, push_region_geometry, push_vertex_list, spec_geometry_at, vertex_at,
    vertex_list_bytes, RegionGeometry,
};
use crate::shape_io::{net_from_word, shape_flag_bits};
use crate::coord::Coord;
use crate::parameter::{map_insert, map_insert_all, pairs_view};
use crate::binary::{layer_byte_to_name, layer_name_for_byte};
use crate::text::{dec_int, dec_string_signed, chars_of, eq_ignore_case, owned, parse_i32, parse_i64, parse_i64_chars, str_eq_ignore_case, trim, trim_chars};

verus! {

/// What a region record holds outside its parameter block: owner, net,
/// header flags, outline and holes.
#[derive(Debug, Clone, PartialEq)]
pub struct RegionShape {
    pub layer: i32,
    /// Index into the document's net table; `0` means no net.
    pub net_index: u16,
    /// Index into the document's `components` list, `-1` for free regions.
    pub component_index: i32,
    pub is_locked: bool,
    pub is_tenting_top: bool,
    pub is_tenting_bottom: bool,
    pub is_keepout: bool,
    /// Unmodelled flag bits from the record header, preserved verbatim.
    pub flags_extra: u16,
    /// The region is a teardrop (flag bit 4).
    pub is_teardrop: bool,
    pub outline: Vec<CoordPoint>,
    /// Hole outlines (cutouts), following the main outline on disk.
    pub holes: Vec<Vec<CoordPoint>>,
}

/// The header bits no typed field of a region stands for.
pub open spec fn region_extra_bits(bits: u16) -> u16 {
    bits & 0xFC09u16
}

/// The header bitfield written for a region.
pub open spec fn region_flag_bits(s: RegionShape) -> u16 {
    shape_flag_bits(s.is_locked, s.is_tenting_top, s.is_tenting_bottom, s.is_keepout, s.flags_extra, false) | (if s.is_teardrop {
        0x10u16
    } else {
        0u16
    })
}

fn region_flags(s: &RegionShape) -> (bits: u16)
    ensures
        bits == region_flag_bits(*s),
{
    let f = PrimitiveFlags {
        is_locked: s.is_locked,
        is_tenting_top: s.is_tenting_top,
        is_tenting_bottom: s.is_tenting_bottom,
        is_keepout: s.is_keepout,
    };
    let tear: u16 = if s.is_teardrop {
        0x10u16
    } else {
        0u16
    };
    f.encode() | s.flags_extra | 0u16 | tear
}

/// Where the geometry of a region body starts: after the prefix, five
/// reserved bytes and the length-prefixed parameter block.
pub open spec fn geometry_start(body: Seq<u8>) -> int {
    22 + u32_le(body, 18)
}

/// The parameters of a region body: its parameter block up to the first NUL.
pub open spec fn region_params_of(body: Seq<u8>) -> Entries {
    parse_block(before_nul(body.subrange(22, geometry_start(body))), '|' as u8)
}

/// The number of holes the parameters announce (`HOLECOUNT`, else none).
pub open spec fn announced_holes(e: Entries) -> i32 {
    match map_get(e, "HOLECOUNT"@) {
        Some(v) => match parse_i32(trim(v)) {
            Some(n) => n,
            None => 0,
        },
        None => 0,
    }
}

/// The shape a region body describes, with its geometry.
pub open spec fn shape_read_from(s: RegionShape, body: Seq<u8>, outline: Seq<CoordPoint>, holes: Seq<Seq<CoordPoint>>) -> bool {
    let cp = spec_common_prefix(body, 0);
    let f = spec_decode_flags(cp.flags);
    &&& s.layer == cp.layer as i32
    &&& s.net_index == net_from_word(cp.net_index)
    &&& s.component_index == cp.component_index
    &&& s.is_locked == f.is_locked && s.is_tenting_top == f.is_tenting_top
    &&& s.is_tenting_bottom == f.is_tenting_bottom && s.is_keepout == f.is_keepout
    &&& s.flags_extra == region_extra_bits(cp.flags)
    &&& s.is_teardrop == (cp.flags & 0x10u16 != 0u16)
    &&& s.outline@ == outline
    &&& holes_view(s.holes@) == holes
}

/// Whether a region body is complete: prefix and parameter block present,
/// and the outline it announces fits.
pub open spec fn region_body_complete(body: Seq<u8>) -> bool {
    &&& 22 <= body.len()
    &&& geometry_start(body) <= body.len()
    &&& spec_geometry_at(body, geometry_start(body), announced_holes(region_params_of(body))) is Some
}

/// A shape and parameters decoded from a complete region body.
pub open spec fn region_decoded(s: RegionShape, e: Entries, body: Seq<u8>) -> bool {
    &&& e == region_params_of(body)
    &&& spec_geometry_at(body, geometry_start(body), announced_holes(e)) matches Some((o, h)) && shape_read_from(s, body, o, h)
}

/// Decodes a region record body into its shape and its parameters: `None`
/// for an empty body, an error when the body ends inside the prefix, the
/// parameter block or the outline. Holes are read, up to `HOLECOUNT` of
/// them, while they fit.
pub fn read_region_shape(body: &[u8]) -> (r: Result<Option<(RegionShape, ParameterMap)>, ReadError>)
    ensures
        body@.len() == 0 ==> r matches Ok(None),
        body@.len() > 0 && !region_body_complete(body@) ==> r is Err,
        body@.len() > 0 && region_body_complete(body@) ==> (r matches Ok(Some((s, m))) && m.wf() && region_decoded(
            s,
            m@,
            body@,
        )),
{
    if body.len() == 0 {
        return Ok(None);
    }
    if body.len() < 22 {
        return Err(ReadError::Truncated);
    }
    let plen = read_u32(body, 18).unwrap();
    if (body.len() - 22) < plen as usize {
        return Err(ReadError::Truncated);
    }
    let start: usize = 22 + plen as usize;
    let block = &body[22..start];
    assert(block@ == body@.subrange(22, start as int));
    let text = strip_nulls(block);
    let params = ParameterMap::parse_bytes(text.as_slice(), '|' as u8);
    let holes: i32 = match params.get_i32("HOLECOUNT") {
        Some(n) => n,
        None => 0,
    };
    let geo = match parse_region_geometry(body, start, holes) {
        Ok(g) => g,
        Err(e) => return Err(e),
    };
    let cp = read_common_prefix(body, 0).unwrap();
    let pf = PrimitiveFlags::decode(cp.flags);
    let RegionGeometry { outline, holes } = geo;
    let shape = RegionShape {
        layer: cp.layer as i32,
        net_index: if cp.net_index >= 0 {
            cp.net_index as u16
        } else {
            0
        },
        component_index: cp.component_index,
        is_locked: pf.is_locked,
        is_tenting_top: pf.is_tenting_top,
        is_tenting_bottom: pf.is_tenting_bottom,
        is_keepout: pf.is_keepout,
        flags_extra: cp.flags & 0xFC09u16,
        is_teardrop: (cp.flags & 0x10u16) != 0,
        outline,
        holes,
    };
    Ok(Some((shape, params)))
}

/// The body Altium-style writers produce for a region without a preserved
/// record: the prefix, five zero bytes, the parameter block (with its
/// leading separator, NUL-terminated) and the outline. Holes are carried
/// only by the parameters and a preserved record.
pub open spec fn fresh_region_body(s: RegionShape, params: Entries) -> Seq<u8> {
    spec_common_prefix_bytes(s.layer as u8, region_flag_bits(s), s.net_index as i32, s.component_index) + le32(0)
        + seq![0u8] + c_string_block(block_bytes(params, '|' as u8)) + vertex_list_bytes(s.outline@)
}

/// The fresh record body for a region.
pub fn fresh_region_body_bytes(s: &RegionShape, params: &ParameterMap) -> (r: Vec<u8>)
    ensures
        r@ == fresh_region_body(*s, params@),
{
    let mut b: Vec<u8> = Vec::new();
    write_common_prefix_full(&mut b, s.layer as u8, region_flags(s), s.net_index as i32, s.component_index);
    push_u32(&mut b, 0);
    b.push(0u8);
    let mut text: Vec<u8> = Vec::new();
    params.write_block_bytes(&mut text, '|' as u8);
    assert(text@ =~= block_bytes(params@, '|' as u8));
    let block = c_string_block_bytes(text.as_slice());
    let ghost mid = b@;
    b.extend_from_slice(block.as_slice());
    push_vertex_list(&mut b, s.outline.as_slice());
    assert(b@ =~= fresh_region_body(*s, params@));
    b
}


/// Where the vertex lists of a preserved body end: from `off`, each of up
/// to `count` lists is skipped while its count word is there.
pub open spec fn walk_lists(b: Seq<u8>, off: int, count: nat) -> int
    decreases count,
{
    if count == 0 || off < 0 || off + 4 > b.len() {
        off
    } else {
        walk_lists(b, off + 4 + 16 * u32_le(b, off), (count - 1) as nat)
    }
}

/// The vertex list at `o` holds exactly `vs`, to integer precision.
pub open spec fn list_matches(b: Seq<u8>, o: int, vs: Seq<CoordPoint>) -> bool {
    &&& 0 <= o
    &&& o + 4 <= b.len()
    &&& u32_le(b, o) == vs.len()
    &&& o + 4 + 16 * vs.len() <= b.len()
    &&& forall|i: int| 0 <= i < vs.len() ==> vertex_at(b, o + 4 + 16 * i) == #[trigger] vs[i]
}

/// The vertex lists from `o` on hold exactly `hs`, one after another.
pub open spec fn lists_match(b: Seq<u8>, o: int, hs: Seq<Seq<CoordPoint>>) -> bool
    decreases hs.len(),
{
    if hs.len() == 0 {
        true
    } else {
        list_matches(b, o, hs[0]) && lists_match(b, o + 4 + 16 * hs[0].len(), hs.skip(1))
    }
}

/// The stored geometry equals the typed one to integer precision.
pub open spec fn geometry_unchanged(b: Seq<u8>, start: int, outline: Seq<CoordPoint>, holes: Seq<Seq<CoordPoint>>) -> bool {
    list_matches(b, start, outline) && lists_match(b, start + 4 + 16 * outline.len(), holes)
}

/// A preserved region body with the typed fields of `s` spliced in: the
/// prefix fields patched, the parameter block kept; the stored geometry
/// kept when it still equals the typed one, else rewritten from the typed
/// outline and holes with whatever followed the old geometry kept. `None`
/// when the body is too short to hold the parts it announces.
pub open spec fn spec_splice_region(raw: Seq<u8>, s: RegionShape) -> Option<Seq<u8>> {
    if raw.len() < 22 {
        None
    } else {
        let gs = geometry_start(raw);
        if gs + 4 > raw.len() {
            None
        } else {
            let off = walk_lists(raw, gs + 4 + 16 * u32_le(raw, gs), s.holes@.len());
            if off > raw.len() {
                None
            } else {
                let head = patched_prefix(
                    raw.subrange(0, gs),
                    s.layer as u8,
                    region_flag_bits(s),
                    s.net_index as i32,
                    s.component_index,
                );
                if geometry_unchanged(raw, gs, s.outline@, holes_view(s.holes@)) {
                    Some(head + raw.subrange(gs, raw.len() as int))
                } else {
                    Some(head + geometry_bytes(s.outline@, holes_view(s.holes@)) + raw.subrange(off, raw.len() as int))
                }
            }
        }
    }
}

fn list_matches_at(raw: &[u8], o: usize, vs: &[CoordPoint]) -> (r: bool)
    ensures
        r == list_matches(raw@, o as int, vs@),
{
    let n = match read_u32(raw, o) {
        Some(n) => n,
        None => return false,
    };
    if n as usize != vs.len() {
        return false;
    }
    if (raw.len() - o - 4) / 16 < vs.len() {
        return false;
    }
    let mut i: usize = 0;
    let mut q: usize = o + 4;
    while i < vs.len()
        invariant
            i <= vs@.len(),
            q == o + 4 + 16 * i,
            o + 4 + 16 * vs@.len() <= raw@.len(),
            forall|j: int| 0 <= j < i ==> vertex_at(raw@, o + 4 + 16 * j) == #[trigger] vs@[j],
        decreases vs@.len() - i,
    {
        assert(q + 16 <= raw@.len()) by (nonlinear_arith)
            requires
                q == o + 4 + 16 * i,
                i < vs@.len(),
                o + 4 + 16 * vs@.len() <= raw@.len(),
        ;
        assert(raw@.len() == raw.len());
        let v = crate::region_geometry::read_vertex_at(raw, q);
        if v.x.raw != vs[i].x.raw || v.y.raw != vs[i].y.raw {
            return false;
        }
        i += 1;
        q = q + 16;
    }
    true
}

fn lists_match_at(raw: &[u8], o: usize, hs: &[Vec<CoordPoint>]) -> (r: bool)
    ensures
        r == lists_match(raw@, o as int, holes_view(hs@)),
{
    let mut i: usize = 0;
    let mut q: usize = o;
    assert(holes_view(hs@).skip(0) =~= holes_view(hs@));
    while i < hs.len()
        invariant
            i <= hs@.len(),
            raw@.len() == raw.len(),
            lists_match(raw@, o as int, holes_view(hs@)) == lists_match(raw@, q as int, holes_view(hs@).skip(i as int)),
        decreases hs@.len() - i,
    {
        let ghost rest = holes_view(hs@).skip(i as int);
        assert(rest[0] == hs@[i as int]@);
        assert(rest.skip(1) =~= holes_view(hs@).skip(i + 1));
        if !list_matches_at(raw, q, hs[i].as_slice()) {
            return false;
        }
        q = q + 4 + 16 * hs[i].len();
        i += 1;
    }
    assert(holes_view(hs@).skip(hs@.len() as int) =~= seq![]);
    true
}

/// Splices the typed fields of `s` into a preserved region body (see
/// `spec_splice_region`).
pub fn splice_region_raw(raw: &[u8], s: &RegionShape) -> (r: Option<Vec<u8>>)
    ensures
        r matches Some(v) ==> spec_splice_region(raw@, *s) == Some(v@),
        r is None ==> spec_splice_region(raw@, *s) is None,
{
    if raw.len() < 22 {
        return None;
    }
    let plen = read_u32(raw, 18).unwrap();
    let gs: u128 = 22 + plen as u128;
    if gs + 4 > raw.len() as u128 {
        return None;
    }
    let gs = gs as usize;
    let n = read_u32(raw, gs).unwrap();
    let mut off: u128 = gs as u128 + 4 + 16 * (n as u128);
    let mut i: usize = 0;
    let count = s.holes.len();
    while i < count
        invariant_except_break
            i <= count,
            raw@.len() == raw.len(),
            off <= raw@.len() + 4 + 16 * 0xFFFF_FFFF,
            walk_lists(raw@, gs + 4 + 16 * u32_le(raw@, gs as int), count as nat) == walk_lists(raw@, off as int, (count - i) as nat),
        ensures
            walk_lists(raw@, gs + 4 + 16 * u32_le(raw@, gs as int), count as nat) == off,
        decreases count - i,
    {
        if off + 4 > raw.len() as u128 {
            break;
        }
        let k = read_u32(raw, off as usize).unwrap();
        off = off + 4 + 16 * (k as u128);
        i += 1;
    }
    if off > raw.len() as u128 {
        return None;
    }
    let mut b: Vec<u8> = Vec::new();
    b.extend_from_slice(&raw[0..gs]);
    assert(b@ =~= raw@.subrange(0, gs as int));
    patch_common_prefix(&mut b, s.layer as u8, region_flags(s), s.net_index as i32, s.component_index);
    let first = gs + 4 + 16 * (n as usize);
    let unchanged = list_matches_at(raw, gs, s.outline.as_slice()) && lists_match_at(raw, first, s.holes.as_slice());
    if unchanged {
        let ghost head = b@;
        b.extend_from_slice(&raw[gs..raw.len()]);
        assert(b@ =~= head + raw@.subrange(gs as int, raw@.len() as int));
        return Some(b);
    }
    push_region_geometry(&mut b, s.outline.as_slice(), s.holes.as_slice());
    let ghost head = b@;
    b.extend_from_slice(&raw[off as usize..raw.len()]);
    assert(b@ =~= head + raw@.subrange(off as int, raw@.len() as int));
    Some(b)
}


// ---------------------------------------------------------------------------
// Region attributes carried by the parameter block

/// The attributes of a region that its parameter block carries, apart from
/// the arc resolution (a double) and the parameters no field stands for.
#[derive(Debug, Clone, PartialEq)]
pub struct RegionAttributes {
    pub net: Option<String>,
    pub name: Option<String>,
    pub unique_id: Option<String>,
    pub kind: i32,
    pub sub_poly_index: i32,
    pub union_index: i32,
    pub power_plane_connect_style: i32,
    pub relief_entries: i32,
    pub hole_count: i32,
    pub total_vertex_count: i32,
    pub paste_mask_expansion: Coord,
    pub solder_mask_expansion: Coord,
    pub cavity_height: Coord,
    pub power_plane_clearance: Coord,
    pub power_plane_relief_expansion: Coord,
    pub relief_air_gap: Coord,
    pub relief_conductor_width: Coord,
    pub arc_approximation: Coord,
    pub area: i64,
    pub is_shape_based: bool,
    pub enabled: bool,
    pub user_routed: bool,
    pub is_free_primitive: bool,
    pub is_electrical_prim: bool,
    pub is_pre_route: bool,
    pub tear_drop: bool,
    pub polygon_outline: bool,
    pub is_tenting: bool,
    pub is_testpoint_top: bool,
    pub is_testpoint_bottom: bool,
    pub is_assy_testpoint_top: bool,
    pub is_assy_testpoint_bottom: bool,
    pub is_hidden: bool,
    pub allow_global_edit: bool,
    pub moveable: bool,
    pub is_simple_region: bool,
    pub virtual_cutout: bool,
}

/// The text under `key`, if any.
pub open spec fn text_or_none(e: Entries, key: Seq<char>) -> Option<Seq<char>> {
    map_get(e, key)
}

/// The view of an optional string.
pub open spec fn opt_text(o: Option<String>) -> Option<Seq<char>> {
    match o {
        Some(s) => Some(s@),
        None => None,
    }
}

/// The `i32` under `key` when it parses, else `d`.
pub open spec fn i32_or(e: Entries, key: Seq<char>, d: i32) -> i32 {
    match map_get(e, key) {
        Some(v) => match parse_i32(trim(v)) {
            Some(n) => n,
            None => d,
        },
        None => d,
    }
}

/// The `i64` under `key` when it parses, else `d`.
pub open spec fn i64_or(e: Entries, key: Seq<char>, d: i64) -> i64 {
    match map_get(e, key) {
        Some(v) => match parse_i64(trim(v)) {
            Some(n) => n,
            None => d,
        },
        None => d,
    }
}

/// Whether the value under `key` is `TRUE` (any case); `d` when absent.
pub open spec fn bool_or(e: Entries, key: Seq<char>, d: bool) -> bool {
    match map_get(e, key) {
        Some(v) => eq_ignore_case(v, "TRUE"@),
        None => d,
    }
}

/// The attributes a region's parameters give; absent or unreadable values
/// leave the default (`sub_poly_index` `-1`, `enabled` set, all else zero,
/// false or none).
pub open spec fn attributes_from(a: RegionAttributes, e: Entries) -> bool {
    &&& opt_text(a.net) == text_or_none(e, "NET"@)
    &&& opt_text(a.name) == text_or_none(e, "NAME"@)
    &&& opt_text(a.unique_id) == text_or_none(e, "UNIQUEID"@)
    &&& a.kind == i32_or(e, "KIND"@, 0i32)
    &&& a.sub_poly_index == i32_or(e, "SUBPOLYINDEX"@, -1i32)
    &&& a.union_index == i32_or(e, "UNIONINDEX"@, 0i32)
    &&& a.power_plane_connect_style == i32_or(e, "POWERPLANECONNECTSTYLE"@, 0i32)
    &&& a.relief_entries == i32_or(e, "RELIEFENTRIES"@, 0i32)
    &&& a.hole_count == i32_or(e, "HOLECOUNT"@, 0i32)
    &&& a.total_vertex_count == i32_or(e, "TOTALVERTEXCOUNT"@, 0i32)
    &&& a.paste_mask_expansion.raw == i32_or(e, "PASTEMASKEXPANSION"@, 0i32)
    &&& a.solder_mask_expansion.raw == i32_or(e, "SOLDERMASKEXPANSION"@, 0i32)
    &&& a.cavity_height.raw == i32_or(e, "CAVITYHEIGHT"@, 0i32)
    &&& a.power_plane_clearance.raw == i32_or(e, "POWERPLANECLEARANCE"@, 0i32)
    &&& a.power_plane_relief_expansion.raw == i32_or(e, "POWERPLANERELIEFEXPANSION"@, 0i32)
    &&& a.relief_air_gap.raw == i32_or(e, "RELIEFAIRGAP"@, 0i32)
    &&& a.relief_conductor_width.raw == i32_or(e, "RELIEFCONDUCTORWIDTH"@, 0i32)
    &&& a.arc_approximation.raw == i32_or(e, "ARCAPPROXIMATION"@, 0i32)
    &&& a.area == i64_or(e, "AREA"@, 0i64)
    &&& a.is_shape_based == bool_or(e, "ISSHAPEBASED"@, false)
    &&& a.enabled == bool_or(e, "ENABLED"@, true)
    &&& a.user_routed == bool_or(e, "USERROUTED"@, false)
    &&& a.is_free_primitive == bool_or(e, "ISFREEPRIM"@, false)
    &&& a.is_electrical_prim == bool_or(e, "ISELECTRICALPRIM"@, false)
    &&& a.is_pre_route == bool_or(e, "ISPREROUTE"@, false)
    &&& a.tear_drop == bool_or(e, "TEARDROP"@, false)
    &&& a.polygon_outline == bool_or(e, "POLYGONOUTLINE"@, false)
    &&& a.is_tenting == bool_or(e, "ISTENTING"@, false)
    &&& a.is_testpoint_top == bool_or(e, "ISTESTPOINTTOP"@, false)
    &&& a.is_testpoint_bottom == bool_or(e, "ISTESTPOINTBOTTOM"@, false)
    &&& a.is_assy_testpoint_top == bool_or(e, "ISASSEMBLYTESTPOINTTOP"@, false)
    &&& a.is_assy_testpoint_bottom == bool_or(e, "ISASSEMBLYTESTPOINTBOTTOM"@, false)
    &&& a.is_hidden == bool_or(e, "ISHIDDEN"@, false)
    &&& a.allow_global_edit == bool_or(e, "ALLOWGLOBALEDIT"@, false)
    &&& a.moveable == bool_or(e, "MOVEABLE"@, false)
    &&& a.is_simple_region == bool_or(e, "ISSIMPLEREGION"@, false)
    &&& a.virtual_cutout == bool_or(e, "VIRTUALCUTOUT"@, false)
}

pub(crate) fn text_of(params: &ParameterMap, key: &str) -> (r: Option<String>)
    ensures
        opt_text(r) == text_or_none(params@, key@),
{
    match params.get(key) {
        Some(v) => Some(owned(v)),
        None => None,
    }
}

pub(crate) fn i32_of(params: &ParameterMap, key: &str, d: i32) -> (r: i32)
    ensures
        r == i32_or(params@, key@, d),
{
    match params.get_i32(key) {
        Some(n) => n,
        None => d,
    }
}

fn i64_of(params: &ParameterMap, key: &str, d: i64) -> (r: i64)
    ensures
        r == i64_or(params@, key@, d),
{
    match params.get(key) {
        Some(v) => {
            let c = chars_of(v);
            let t = trim_chars(&c);
            match parse_i64_chars(&t) {
                Some(n) => n,
                None => d,
            }
        },
        None => d,
    }
}

pub(crate) fn bool_of(params: &ParameterMap, key: &str, d: bool) -> (r: bool)
    ensures
        r == bool_or(params@, key@, d),
{
    match params.get(key) {
        Some(v) => str_eq_ignore_case(v, "TRUE"),
        None => d,
    }
}

/// Reads a region's attributes from its parameters.
pub fn region_attributes_from_params(params: &ParameterMap) -> (a: RegionAttributes)
    ensures
        attributes_from(a, params@),
{
    RegionAttributes {
        net: text_of(params, "NET"),
        name: text_of(params, "NAME"),
        unique_id: text_of(params, "UNIQUEID"),
        kind: i32_of(params, "KIND", 0),
        sub_poly_index: i32_of(params, "SUBPOLYINDEX", -1),
        union_index: i32_of(params, "UNIONINDEX", 0),
        power_plane_connect_style: i32_of(params, "POWERPLANECONNECTSTYLE", 0),
        relief_entries: i32_of(params, "RELIEFENTRIES", 0),
        hole_count: i32_of(params, "HOLECOUNT", 0),
        total_vertex_count: i32_of(params, "TOTALVERTEXCOUNT", 0),
        paste_mask_expansion: Coord { raw: i32_of(params, "PASTEMASKEXPANSION", 0) },
        solder_mask_expansion: Coord { raw: i32_of(params, "SOLDERMASKEXPANSION", 0) },
        cavity_height: Coord { raw: i32_of(params, "CAVITYHEIGHT", 0) },
        power_plane_clearance: Coord { raw: i32_of(params, "POWERPLANECLEARANCE", 0) },
        power_plane_relief_expansion: Coord { raw: i32_of(params, "POWERPLANERELIEFEXPANSION", 0) },
        relief_air_gap: Coord { raw: i32_of(params, "RELIEFAIRGAP", 0) },
        relief_conductor_width: Coord { raw: i32_of(params, "RELIEFCONDUCTORWIDTH", 0) },
        arc_approximation: Coord { raw: i32_of(params, "ARCAPPROXIMATION", 0) },
        area: i64_of(params, "AREA", 0),
        is_shape_based: bool_of(params, "ISSHAPEBASED", false),
        enabled: bool_of(params, "ENABLED", true),
        user_routed: bool_of(params, "USERROUTED", false),
        is_free_primitive: bool_of(params, "ISFREEPRIM", false),
        is_electrical_prim: bool_of(params, "ISELECTRICALPRIM", false),
        is_pre_route: bool_of(params, "ISPREROUTE", false),
        tear_drop: bool_of(params, "TEARDROP", false),
        polygon_outline: bool_of(params, "POLYGONOUTLINE", false),
        is_tenting: bool_of(params, "ISTENTING", false),
        is_testpoint_top: bool_of(params, "ISTESTPOINTTOP", false),
        is_testpoint_bottom: bool_of(params, "ISTESTPOINTBOTTOM", false),
        is_assy_testpoint_top: bool_of(params, "ISASSEMBLYTESTPOINTTOP", false),
        is_assy_testpoint_bottom: bool_of(params, "ISASSEMBLYTESTPOINTBOTTOM", false),
        is_hidden: bool_of(params, "ISHIDDEN", false),
        allow_global_edit: bool_of(params, "ALLOWGLOBALEDIT", false),
        moveable: bool_of(params, "MOVEABLE", false),
        is_simple_region: bool_of(params, "ISSIMPLEREGION", false),
        virtual_cutout: bool_of(params, "VIRTUALCUTOUT", false),
    }
}

/// Whether `name` is one of the parameters a region field stands for
/// (ASCII case ignored).
pub open spec fn is_region_key(name: Seq<char>) -> bool {
    eq_ignore_case(name, "KIND"@)
    || eq_ignore_case(name, "NET"@)
    || eq_ignore_case(name, "UNIQUEID"@)
    || eq_ignore_case(name, "NAME"@)
    || eq_ignore_case(name, "SUBPOLYINDEX"@)
    || eq_ignore_case(name, "UNIONINDEX"@)
    || eq_ignore_case(name, "ARCRESOLUTION"@)
    || eq_ignore_case(name, "PASTEMASKEXPANSION"@)
    || eq_ignore_case(name, "SOLDERMASKEXPANSION"@)
    || eq_ignore_case(name, "CAVITYHEIGHT"@)
    || eq_ignore_case(name, "POWERPLANECLEARANCE"@)
    || eq_ignore_case(name, "POWERPLANECONNECTSTYLE"@)
    || eq_ignore_case(name, "POWERPLANERELIEFEXPANSION"@)
    || eq_ignore_case(name, "RELIEFAIRGAP"@)
    || eq_ignore_case(name, "RELIEFCONDUCTORWIDTH"@)
    || eq_ignore_case(name, "RELIEFENTRIES"@)
    || eq_ignore_case(name, "HOLECOUNT"@)
    || eq_ignore_case(name, "TOTALVERTEXCOUNT"@)
    || eq_ignore_case(name, "AREA"@)
    || eq_ignore_case(name, "ARCAPPROXIMATION"@)
    || eq_ignore_case(name, "ISSHAPEBASED"@)
    || eq_ignore_case(name, "ENABLED"@)
    || eq_ignore_case(name, "USERROUTED"@)
    || eq_ignore_case(name, "ISFREEPRIM"@)
    || eq_ignore_case(name, "ISELECTRICALPRIM"@)
    || eq_ignore_case(name, "ISPREROUTE"@)
    || eq_ignore_case(name, "TEARDROP"@)
    || eq_ignore_case(name, "POLYGONOUTLINE"@)
    || eq_ignore_case(name, "ISTENTING"@)
    || eq_ignore_case(name, "ISTESTPOINTTOP"@)
    || eq_ignore_case(name, "ISTESTPOINTBOTTOM"@)
    || eq_ignore_case(name, "ISASSEMBLYTESTPOINTTOP"@)
    || eq_ignore_case(name, "ISASSEMBLYTESTPOINTBOTTOM"@)
    || eq_ignore_case(name, "ISHIDDEN"@)
    || eq_ignore_case(name, "ALLOWGLOBALEDIT"@)
    || eq_ignore_case(name, "MOVEABLE"@)
    || eq_ignore_case(name, "ISSIMPLEREGION"@)
    || eq_ignore_case(name, "VIRTUALCUTOUT"@)
}

fn region_key(name: &str) -> (r: bool)
    ensures
        r == is_region_key(name@),
{
    str_eq_ignore_case(name, "KIND")
        || str_eq_ignore_case(name, "NET")
        || str_eq_ignore_case(name, "UNIQUEID")
        || str_eq_ignore_case(name, "NAME")
        || str_eq_ignore_case(name, "SUBPOLYINDEX")
        || str_eq_ignore_case(name, "UNIONINDEX")
        || str_eq_ignore_case(name, "ARCRESOLUTION")
        || str_eq_ignore_case(name, "PASTEMASKEXPANSION")
        || str_eq_ignore_case(name, "SOLDERMASKEXPANSION")
        || str_eq_ignore_case(name, "CAVITYHEIGHT")
        || str_eq_ignore_case(name, "POWERPLANECLEARANCE")
        || str_eq_ignore_case(name, "POWERPLANECONNECTSTYLE")
        || str_eq_ignore_case(name, "POWERPLANERELIEFEXPANSION")
        || str_eq_ignore_case(name, "RELIEFAIRGAP")
        || str_eq_ignore_case(name, "RELIEFCONDUCTORWIDTH")
        || str_eq_ignore_case(name, "RELIEFENTRIES")
        || str_eq_ignore_case(name, "HOLECOUNT")
        || str_eq_ignore_case(name, "TOTALVERTEXCOUNT")
        || str_eq_ignore_case(name, "AREA")
        || str_eq_ignore_case(name, "ARCAPPROXIMATION")
        || str_eq_ignore_case(name, "ISSHAPEBASED")
        || str_eq_ignore_case(name, "ENABLED")
        || str_eq_ignore_case(name, "USERROUTED")
        || str_eq_ignore_case(name, "ISFREEPRIM")
        || str_eq_ignore_case(name, "ISELECTRICALPRIM")
        || str_eq_ignore_case(name, "ISPREROUTE")
        || str_eq_ignore_case(name, "TEARDROP")
        || str_eq_ignore_case(name, "POLYGONOUTLINE")
        || str_eq_ignore_case(name, "ISTENTING")
        || str_eq_ignore_case(name, "ISTESTPOINTTOP")
        || str_eq_ignore_case(name, "ISTESTPOINTBOTTOM")
        || str_eq_ignore_case(name, "ISASSEMBLYTESTPOINTTOP")
        || str_eq_ignore_case(name, "ISASSEMBLYTESTPOINTBOTTOM")
        || str_eq_ignore_case(name, "ISHIDDEN")
        || str_eq_ignore_case(name, "ALLOWGLOBALEDIT")
        || str_eq_ignore_case(name, "MOVEABLE")
        || str_eq_ignore_case(name, "ISSIMPLEREGION")
        || str_eq_ignore_case(name, "VIRTUALCUTOUT")
}

/// The parameters no region field stands for, in block order.
pub open spec fn region_extra_entries(e: Entries) -> Entries {
    e.filter(|p: (Seq<char>, Seq<char>)| !is_region_key(p.0))
}

/// The parameters of a region that no field stands for, in block order.
pub fn region_extra_parameters(params: &ParameterMap) -> (r: Vec<(String, String)>)
    ensures
        pairs_view(r@) == region_extra_entries(params@),
{
    let entries = params.entries();
    let mut r: Vec<(String, String)> = Vec::new();
    let mut i: usize = 0;
    while i < entries.len()
        invariant
            i <= entries@.len(),
            pairs_view(entries@) == params@,
            pairs_view(r@) == region_extra_entries(params@.take(i as int)),
        decreases entries@.len() - i,
    {
        let ghost e = params@;
        assert(e.take(i + 1).drop_last() =~= e.take(i as int));
        assert(e[i as int] == (entries@[i as int].0@, entries@[i as int].1@));
        reveal(Seq::filter);
        if !region_key(entries[i].0.as_str()) {
            r.push((owned(entries[i].0.as_str()), owned(entries[i].1.as_str())));
            assert(pairs_view(r@) =~= region_extra_entries(e.take(i as int)).push(e[i as int]));
        } else {
            assert(region_extra_entries(e.take(i + 1)) =~= region_extra_entries(e.take(i as int)));
        }
        i += 1;
    }
    assert(params@.take(entries@.len() as int) =~= params@);
    r
}


// ---------------------------------------------------------------------------
// The parameter block of a freshly written region

/// `e` with `key=value` inserted when `cond` holds.
pub open spec fn insert_if(e: Entries, cond: bool, key: Seq<char>, value: Seq<char>) -> Entries {
    if cond {
        map_insert(e, key, value)
    } else {
        e
    }
}

/// The always-written head of a region's parameters: layer name, name (a
/// space when there is none), kind, sub-polygon and union indices, arc
/// resolution, shape-based flag, then net and unique id when present.
pub open spec fn region_param_head(s: RegionShape, a: RegionAttributes, arc_resolution: Seq<char>) -> Entries {
    let e = map_insert(Seq::empty(), "V7_LAYER"@, layer_name_for_byte(s.layer as u8));
    let e = map_insert(e, "NAME"@, match a.name {
        Some(n) => n@,
        None => " "@,
    });
    let e = map_insert(e, "KIND"@, dec_int(a.kind as int));
    let e = map_insert(e, "SUBPOLYINDEX"@, dec_int(a.sub_poly_index as int));
    let e = map_insert(e, "UNIONINDEX"@, dec_int(a.union_index as int));
    let e = map_insert(e, "ARCRESOLUTION"@, arc_resolution);
    let e = map_insert(e, "ISSHAPEBASED"@, if a.is_shape_based {
        "TRUE"@
    } else {
        "FALSE"@
    });
    let e = insert_if(e, a.net is Some, "NET"@, opt_text(a.net)->0);
    insert_if(e, a.unique_id is Some, "UNIQUEID"@, opt_text(a.unique_id)->0)
}

/// The numeric parameters, each written only when not zero.
pub open spec fn region_param_numbers(e: Entries, a: RegionAttributes) -> Entries {
    let e = insert_if(e, a.paste_mask_expansion.raw != 0, "PASTEMASKEXPANSION"@, dec_int(a.paste_mask_expansion.raw as int));
    let e = insert_if(e, a.solder_mask_expansion.raw != 0, "SOLDERMASKEXPANSION"@, dec_int(a.solder_mask_expansion.raw as int));
    let e = insert_if(e, a.cavity_height.raw != 0, "CAVITYHEIGHT"@, dec_int(a.cavity_height.raw as int));
    let e = insert_if(e, a.power_plane_clearance.raw != 0, "POWERPLANECLEARANCE"@, dec_int(a.power_plane_clearance.raw as int));
    let e = insert_if(e, a.power_plane_connect_style != 0, "POWERPLANECONNECTSTYLE"@, dec_int(a.power_plane_connect_style as int));
    let e = insert_if(e, a.power_plane_relief_expansion.raw != 0, "POWERPLANERELIEFEXPANSION"@, dec_int(a.power_plane_relief_expansion.raw as int));
    let e = insert_if(e, a.relief_air_gap.raw != 0, "RELIEFAIRGAP"@, dec_int(a.relief_air_gap.raw as int));
    let e = insert_if(e, a.relief_conductor_width.raw != 0, "RELIEFCONDUCTORWIDTH"@, dec_int(a.relief_conductor_width.raw as int));
    let e = insert_if(e, a.relief_entries != 0, "RELIEFENTRIES"@, dec_int(a.relief_entries as int));
    let e = insert_if(e, a.hole_count != 0, "HOLECOUNT"@, dec_int(a.hole_count as int));
    let e = insert_if(e, a.total_vertex_count != 0, "TOTALVERTEXCOUNT"@, dec_int(a.total_vertex_count as int));
    let e = insert_if(e, a.area != 0, "AREA"@, dec_int(a.area as int));
    let e = insert_if(e, a.arc_approximation.raw != 0, "ARCAPPROXIMATION"@, dec_int(a.arc_approximation.raw as int));
    e
}

/// The flags: `ENABLED=FALSE` when disabled, then each set flag as `TRUE`.
pub open spec fn region_param_flags(e: Entries, a: RegionAttributes) -> Entries {
    let e = insert_if(e, !a.enabled, "ENABLED"@, "FALSE"@);
    let e = insert_if(e, a.user_routed, "USERROUTED"@, "TRUE"@);
    let e = insert_if(e, a.is_free_primitive, "ISFREEPRIM"@, "TRUE"@);
    let e = insert_if(e, a.is_electrical_prim, "ISELECTRICALPRIM"@, "TRUE"@);
    let e = insert_if(e, a.is_pre_route, "ISPREROUTE"@, "TRUE"@);
    let e = insert_if(e, a.tear_drop, "TEARDROP"@, "TRUE"@);
    let e = insert_if(e, a.polygon_outline, "POLYGONOUTLINE"@, "TRUE"@);
    let e = insert_if(e, a.is_tenting, "ISTENTING"@, "TRUE"@);
    let e = insert_if(e, a.is_testpoint_top, "ISTESTPOINTTOP"@, "TRUE"@);
    let e = insert_if(e, a.is_testpoint_bottom, "ISTESTPOINTBOTTOM"@, "TRUE"@);
    let e = insert_if(e, a.is_assy_testpoint_top, "ISASSEMBLYTESTPOINTTOP"@, "TRUE"@);
    let e = insert_if(e, a.is_assy_testpoint_bottom, "ISASSEMBLYTESTPOINTBOTTOM"@, "TRUE"@);
    let e = insert_if(e, a.is_hidden, "ISHIDDEN"@, "TRUE"@);
    let e = insert_if(e, a.allow_global_edit, "ALLOWGLOBALEDIT"@, "TRUE"@);
    let e = insert_if(e, a.moveable, "MOVEABLE"@, "TRUE"@);
    let e = insert_if(e, a.is_simple_region, "ISSIMPLEREGION"@, "TRUE"@);
    let e = insert_if(e, a.virtual_cutout, "VIRTUALCUTOUT"@, "TRUE"@);
    e
}

/// The parameters written for a region without a preserved record: the
/// head, the non-zero numbers, the flags, then the extra parameters in
/// order.
pub open spec fn spec_region_params(s: RegionShape, a: RegionAttributes, arc_resolution: Seq<char>, extra: Entries) -> Entries {
    map_insert_all(region_param_flags(region_param_numbers(region_param_head(s, a, arc_resolution), a), a), extra)
}

fn insert_number(params: &mut ParameterMap, key: &str, v: i64)
    ensures
        final(params)@ == insert_if(old(params)@, v != 0, key@, dec_int(v as int)),
        old(params).wf() ==> final(params).wf(),
{
    if v != 0 {
        let t = dec_string_signed(v);
        params.insert(key, t.as_str());
    }
}

pub(crate) fn insert_flag(params: &mut ParameterMap, cond: bool, key: &str, value: &str)
    ensures
        final(params)@ == insert_if(old(params)@, cond, key@, value@),
        old(params).wf() ==> final(params).wf(),
{
    if cond {
        params.insert(key, value);
    }
}

fn region_params_head(s: &RegionShape, a: &RegionAttributes, arc_resolution: &str) -> (m: ParameterMap)
    ensures
        m@ == region_param_head(*s, *a, arc_resolution@),
        m.wf(),
{
    let mut m = ParameterMap::new();
    let layer = layer_byte_to_name(s.layer as u8);
    m.insert("V7_LAYER", layer.as_str());
    match &a.name {
        Some(n) => m.insert("NAME", n.as_str()),
        None => m.insert("NAME", " "),
    }
    let t = dec_string_signed(a.kind as i64);
    m.insert("KIND", t.as_str());
    let t = dec_string_signed(a.sub_poly_index as i64);
    m.insert("SUBPOLYINDEX", t.as_str());
    let t = dec_string_signed(a.union_index as i64);
    m.insert("UNIONINDEX", t.as_str());
    m.insert("ARCRESOLUTION", arc_resolution);
    if a.is_shape_based {
        m.insert("ISSHAPEBASED", "TRUE");
    } else {
        m.insert("ISSHAPEBASED", "FALSE");
    }
    if let Some(n) = &a.net {
        m.insert("NET", n.as_str());
    }
    if let Some(u) = &a.unique_id {
        m.insert("UNIQUEID", u.as_str());
    }
    m
}

fn region_params_numbers(m: &mut ParameterMap, a: &RegionAttributes)
    ensures
        final(m)@ == region_param_numbers(old(m)@, *a),
        old(m).wf() ==> final(m).wf(),
{
    insert_number(m, "PASTEMASKEXPANSION", a.paste_mask_expansion.raw as i64);
    insert_number(m, "SOLDERMASKEXPANSION", a.solder_mask_expansion.raw as i64);
    insert_number(m, "CAVITYHEIGHT", a.cavity_height.raw as i64);
    insert_number(m, "POWERPLANECLEARANCE", a.power_plane_clearance.raw as i64);
    insert_number(m, "POWERPLANECONNECTSTYLE", a.power_plane_connect_style as i64);
    insert_number(m, "POWERPLANERELIEFEXPANSION", a.power_plane_relief_expansion.raw as i64);
    insert_number(m, "RELIEFAIRGAP", a.relief_air_gap.raw as i64);
    insert_number(m, "RELIEFCONDUCTORWIDTH", a.relief_conductor_width.raw as i64);
    insert_number(m, "RELIEFENTRIES", a.relief_entries as i64);
    insert_number(m, "HOLECOUNT", a.hole_count as i64);
    insert_number(m, "TOTALVERTEXCOUNT", a.total_vertex_count as i64);
    insert_number(m, "AREA", a.area as i64);
    insert_number(m, "ARCAPPROXIMATION", a.arc_approximation.raw as i64);
}

fn region_params_flags(m: &mut ParameterMap, a: &RegionAttributes)
    ensures
        final(m)@ == region_param_flags(old(m)@, *a),
        old(m).wf() ==> final(m).wf(),
{
    insert_flag(m, !a.enabled, "ENABLED", "FALSE");
    insert_flag(m, a.user_routed, "USERROUTED", "TRUE");
    insert_flag(m, a.is_free_primitive, "ISFREEPRIM", "TRUE");
    insert_flag(m, a.is_electrical_prim, "ISELECTRICALPRIM", "TRUE");
    insert_flag(m, a.is_pre_route, "ISPREROUTE", "TRUE");
    insert_flag(m, a.tear_drop, "TEARDROP", "TRUE");
    insert_flag(m, a.polygon_outline, "POLYGONOUTLINE", "TRUE");
    insert_flag(m, a.is_tenting, "ISTENTING", "TRUE");
    insert_flag(m, a.is_testpoint_top, "ISTESTPOINTTOP", "TRUE");
    insert_flag(m, a.is_testpoint_bottom, "ISTESTPOINTBOTTOM", "TRUE");
    insert_flag(m, a.is_assy_testpoint_top, "ISASSEMBLYTESTPOINTTOP", "TRUE");
    insert_flag(m, a.is_assy_testpoint_bottom, "ISASSEMBLYTESTPOINTBOTTOM", "TRUE");
    insert_flag(m, a.is_hidden, "ISHIDDEN", "TRUE");
    insert_flag(m, a.allow_global_edit, "ALLOWGLOBALEDIT", "TRUE");
    insert_flag(m, a.moveable, "MOVEABLE", "TRUE");
    insert_flag(m, a.is_simple_region, "ISSIMPLEREGION", "TRUE");
    insert_flag(m, a.virtual_cutout, "VIRTUALCUTOUT", "TRUE");
}

/// The parameters written for a region without a preserved record; the
/// arc resolution comes as its text (`0.5mil` when unset).
pub fn region_params(
    s: &RegionShape,
    a: &RegionAttributes,
    arc_resolution: &str,
    extra: &[(String, String)],
) -> (m: ParameterMap)
    ensures
        m@ == spec_region_params(*s, *a, arc_resolution@, pairs_view(extra@)),
        m.wf(),
{
    let mut m = region_params_head(s, a, arc_resolution);
    region_params_numbers(&mut m, a);
    region_params_flags(&mut m, a);
    m.insert_all(extra);
    m
}

/// The record body written for a region: the preserved record with the
/// typed fields spliced in when there is one and it splices, else a fresh
/// body with the given parameters.
pub open spec fn spec_region_body(s: RegionShape, raw: Option<Seq<u8>>, params: Entries) -> Seq<u8> {
    match raw {
        Some(r) => match spec_splice_region(r, s) {
            Some(b) => b,
            None => fresh_region_body(s, params),
        },
        None => fresh_region_body(s, params),
    }
}

/// Appends a region record: its body as a length-prefixed block.
pub fn write_region(out: &mut Vec<u8>, s: &RegionShape, raw: Option<&[u8]>, params: &ParameterMap)
    ensures
        final(out)@ == old(out)@ + record_bytes(spec_region_body(*s, match raw {
            Some(r) => Some(r@),
            None => None,
        }, params@)),
{
    let body = match raw {
        Some(r) => match splice_region_raw(r, s) {
            Some(b) => b,
            None => fresh_region_body_bytes(s, params),
        },
        None => fresh_region_body_bytes(s, params),
    };
    push_record(out, body.as_slice());
}


// ---------------------------------------------------------------------------
// Reading back a fresh region

/// No character of `s` is NUL.
pub open spec fn nul_free(s: Seq<char>) -> bool {
    forall|i: int| 0 <= i < s.len() ==> (#[trigger] s[i]) as u32 != 0
}

/// Parameters that a block carries unchanged: unique names, single-byte
/// characters, no NUL, names without `|` or `=`, values without `|`.
pub open spec fn params_block_safe(e: Entries) -> bool {
    &&& keys_unique(e)
    &&& forall|i: int| 0 <= i < e.len() ==> block_safe_name(#[trigger] e[i].0, '|' as u8) && block_safe_value(e[i].1, '|' as u8)
        && nul_free(e[i].0) && nul_free(e[i].1)
}

proof fn lemma_latin1_no_nul(s: Seq<char>)
    requires
        nul_free(s),
        forall|i: int| 0 <= i < s.len() ==> byte_char(#[trigger] s[i]),
    ensures
        forall|k: int| 0 <= k < latin1_bytes(s).len() ==> #[trigger] latin1_bytes(s)[k] != 0u8,
{
    assert forall|k: int| 0 <= k < latin1_bytes(s).len() implies #[trigger] latin1_bytes(s)[k] != 0u8 by {
        assert(byte_char(s[k]));
        assert(s[k] as u32 != 0);
    }
}

pub(crate) proof fn lemma_block_no_nul(e: Entries)
    requires
        forall|i: int| 0 <= i < e.len() ==> block_safe_name(#[trigger] e[i].0, '|' as u8) && block_safe_value(e[i].1, '|' as u8)
            && nul_free(e[i].0) && nul_free(e[i].1),
    ensures
        forall|k: int| 0 <= k < block_bytes(e, '|' as u8).len() ==> #[trigger] block_bytes(e, '|' as u8)[k] != 0u8,
    decreases e.len(),
{
    if e.len() > 0 {
        let init = e.drop_last();
        assert forall|i: int| 0 <= i < init.len() implies block_safe_name(#[trigger] init[i].0, '|' as u8) && block_safe_value(
            init[i].1,
            '|' as u8,
        ) && nul_free(init[i].0) && nul_free(init[i].1) by {
            assert(init[i] == e[i]);
        }
        lemma_block_no_nul(init);
        let last = e.last();
        assert(block_safe_name(e[e.len() - 1].0, '|' as u8));
        assert(block_safe_value(e[e.len() - 1].1, '|' as u8));
        lemma_latin1_no_nul(last.0);
        lemma_latin1_no_nul(last.1);
        let b = block_bytes(e, '|' as u8);
        let head = block_bytes(init, '|' as u8);
        let eb = entry_bytes(last, '|' as u8);
        assert(b == head + eb);
        assert forall|k: int| 0 <= k < b.len() implies #[trigger] b[k] != 0u8 by {
            if k < head.len() {
                assert(b[k] == head[k]);
            } else {
                let j = k - head.len();
                let n0 = latin1_bytes(last.0);
                if j == 0 {
                } else if j < 1 + n0.len() {
                    assert(eb[j] == n0[j - 1]);
                } else if j == 1 + n0.len() {
                } else {
                    assert(eb[j] == latin1_bytes(last.1)[j - 2 - n0.len()]);
                }
            }
        }
    }
}

proof fn lemma_region_flags(s: RegionShape)
    requires
        region_extra_bits(s.flags_extra) == s.flags_extra,
    ensures
        spec_decode_flags(region_flag_bits(s)) == (PrimitiveFlags {
            is_locked: s.is_locked,
            is_tenting_top: s.is_tenting_top,
            is_tenting_bottom: s.is_tenting_bottom,
            is_keepout: s.is_keepout,
        }),
        region_extra_bits(region_flag_bits(s)) == s.flags_extra,
        (region_flag_bits(s) & 0x10u16 != 0u16) == s.is_teardrop,
{
    let a: u16 = if s.is_locked { 0u16 } else { 4u16 };
    let b: u16 = if s.is_tenting_top { 0x20u16 } else { 0u16 };
    let c: u16 = if s.is_tenting_bottom { 0x40u16 } else { 0u16 };
    let d: u16 = if s.is_keepout { 0x200u16 } else { 0u16 };
    let t: u16 = if s.is_teardrop { 0x10u16 } else { 0u16 };
    let e: u16 = s.flags_extra;
    assert((a == 0u16 || a == 4u16) && (b == 0u16 || b == 0x20u16) && (c == 0u16 || c == 0x40u16)
        && (d == 0u16 || d == 0x200u16) && (t == 0u16 || t == 0x10u16) && e & 0xFC09u16 == e ==> {
        let x = a | b | c | d | e | 0u16 | t;
        &&& ((x & 4u16) == 0u16 <==> a == 0u16)
        &&& ((x & 0x20u16) != 0u16 <==> b != 0u16)
        &&& ((x & 0x40u16) != 0u16 <==> c != 0u16)
        &&& ((x & 0x200u16) != 0u16 <==> d != 0u16)
        &&& ((x & 0x10u16) != 0u16 <==> t != 0u16)
        &&& x & 0xFC09u16 == e
    }) by (bit_vector);
}

proof fn lemma_fresh_region_layout(s: RegionShape, e: Entries)
    requires
        block_bytes(e, '|' as u8).len() + 1 < 0x1_0000_0000,
    ensures
        fresh_region_body(s, e).len() == 22 + block_bytes(e, '|' as u8).len() + 1 + vertex_list_bytes(s.outline@).len(),
        geometry_start(fresh_region_body(s, e)) == 22 + block_bytes(e, '|' as u8).len() + 1,
        fresh_region_body(s, e).subrange(22, geometry_start(fresh_region_body(s, e))) == block_bytes(e, '|' as u8).push(0u8),
        fresh_region_body(s, e).subrange(
            geometry_start(fresh_region_body(s, e)),
            fresh_region_body(s, e).len() as int,
        ) == vertex_list_bytes(s.outline@),
        fresh_region_body(s, e).subrange(0, 13) == spec_common_prefix_bytes(
            s.layer as u8,
            region_flag_bits(s),
            s.net_index as i32,
            s.component_index,
        ),
{
    let pre = spec_common_prefix_bytes(s.layer as u8, region_flag_bits(s), s.net_index as i32, s.component_index);
    let t = block_bytes(e, '|' as u8);
    let c = c_string_block(t);
    let v = vertex_list_bytes(s.outline@);
    let body = fresh_region_body(s, e);
    assert(body =~= pre + le32(0) + seq![0u8] + c + v);
    let l: int = t.len() as int + 1;
    lemma_le32_round_trip(l);
    assert(((t.len() + 1) % 0x1_0000_0000) as int == l);
    assert(body.subrange(18, 22) =~= le32(l));
    assert(u32_le(body, 18) == u32_le(le32(l), 0));
    assert(body.subrange(22, 22 + l) =~= t.push(0u8));
    assert(body.subrange(22 + l, body.len() as int) =~= v);
    assert(body.subrange(0, 13) =~= pre);
}

proof fn lemma_fresh_region_params(s: RegionShape, e: Entries)
    requires
        params_block_safe(e),
        block_bytes(e, '|' as u8).len() + 1 < 0x1_0000_0000,
    ensures
        region_params_of(fresh_region_body(s, e)) == e,
{
    let t = block_bytes(e, '|' as u8);
    lemma_fresh_region_layout(s, e);
    lemma_block_no_nul(e);
    lemma_first_pos_at(t, 0u8, seq![]);
    assert(t.push(0u8) + seq![] =~= t.push(0u8));
    assert(before_nul(t.push(0u8)) =~= t);
    assert(forall|i: int| 0 <= i < e.len() ==> block_safe_name(#[trigger] e[i].0, '|' as u8) && block_safe_value(e[i].1, '|' as u8));
    lemma_block_round_trip(e, '|' as u8);
}

proof fn lemma_fresh_region_geometry(s: RegionShape, e: Entries)
    requires
        s.outline@.len() < 0x1_0000_0000,
        block_bytes(e, '|' as u8).len() + 1 < 0x1_0000_0000,
    ensures
        spec_geometry_at(fresh_region_body(s, e), geometry_start(fresh_region_body(s, e)), announced_holes(e)) == Some(
            (s.outline@, Seq::<Seq<CoordPoint>>::empty()),
        ),
{
    let body = fresh_region_body(s, e);
    let v = vertex_list_bytes(s.outline@);
    lemma_fresh_region_layout(s, e);
    let gs = geometry_start(body);
    lemma_vertex_list_round_trip(body, gs, s.outline@);
    let n: int = s.outline@.len() as int;
    assert(gs + 4 + 16 * n == body.len());
    let k: nat = (if announced_holes(e) < 0 {
        0
    } else {
        announced_holes(e) as int
    }) as nat;
    assert(holes_at(body, gs + 4 + 16 * n, k) =~= Seq::<Seq<CoordPoint>>::empty());
}

/// Reading back a region written without a preserved record gives its
/// layer, net, owner, header flags and outline, no holes (a fresh body
/// carries none), and the parameters it was written with, when the layer
/// fits a byte, the owner index fits its word, the extra flag bits lie
/// outside the modelled ones, the outline's count fits a `u32` and the
/// parameters survive a block.
#[verifier::spinoff_prover]
pub proof fn lemma_fresh_region_round_trip(s: RegionShape, e: Entries, back: RegionShape, e2: Entries)
    requires
        0 <= s.layer <= 255,
        -1 <= s.component_index <= 0xFFFE,
        region_extra_bits(s.flags_extra) == s.flags_extra,
        s.outline@.len() < 0x1_0000_0000,
        params_block_safe(e),
        block_bytes(e, '|' as u8).len() + 1 < 0x1_0000_0000,
        region_decoded(back, e2, fresh_region_body(s, e)),
    ensures
        region_body_complete(fresh_region_body(s, e)),
        e2 == e,
        back.layer == s.layer,
        back.net_index == s.net_index,
        back.component_index == s.component_index,
        back.is_locked == s.is_locked,
        back.is_tenting_top == s.is_tenting_top,
        back.is_tenting_bottom == s.is_tenting_bottom,
        back.is_keepout == s.is_keepout,
        back.flags_extra == s.flags_extra,
        back.is_teardrop == s.is_teardrop,
        back.outline@ == s.outline@,
        back.holes@.len() == 0,
{
    let body = fresh_region_body(s, e);
    let bits = region_flag_bits(s);
    let pre = spec_common_prefix_bytes(s.layer as u8, bits, s.net_index as i32, s.component_index);
    lemma_fresh_region_layout(s, e);
    lemma_fresh_region_params(s, e);
    lemma_fresh_region_geometry(s, e);
    lemma_common_prefix_round_trip(s.layer as u8, bits, s.net_index as i32, s.component_index);
    assert forall|k: int| 0 <= k < 13 implies body[k] == pre[k] by {
        assert(body.subrange(0, 13)[k] == body[k]);
    }
    assert(spec_common_prefix(body, 0) == spec_common_prefix(pre, 0));
    lemma_region_flags(s);
    assert(holes_view(back.holes@).len() == back.holes@.len());
}

proof fn lemma_holes_match(b: Seq<u8>, p: int, k: nat)
    requires
        0 <= p <= b.len(),
    ensures
        lists_match(b, p, holes_at(b, p, k)),
        walk_lists(b, p, holes_at(b, p, k).len()) <= b.len(),
    decreases k,
{
    let h = holes_at(b, p, k);
    if k == 0 || p < 0 || b.len() - p < 4 {
        assert(h.len() == 0);
    } else {
        let n = u32_le(b, p);
        if n * 16 > b.len() - (p + 4) {
            assert(h.len() == 0);
        } else {
            let q = p + 4 + 16 * n;
            let rest = holes_at(b, q, (k - 1) as nat);
            lemma_holes_match(b, q, (k - 1) as nat);
            assert(h == seq![crate::region_geometry::vertices_at(b, p + 4, n as nat)] + rest);
            assert(h[0] == crate::region_geometry::vertices_at(b, p + 4, n as nat));
            assert(h.skip(1) =~= rest);
            assert(list_matches(b, p, h[0]));
            assert(walk_lists(b, p, h.len()) == walk_lists(b, q, rest.len()));
        }
    }
}

/// Reading a region body and writing the region back with that body as its
/// preserved record gives the body again, when the polygon-outline and
/// fabrication test-point bits, which no region field keeps, are clear.
#[verifier::spinoff_prover]
#[verifier::rlimit(40)]
pub proof fn lemma_region_rewrite(body: Seq<u8>, s: RegionShape, e: Entries)
    requires
        region_body_complete(body),
        region_decoded(s, e, body),
        spec_common_prefix(body, 0).flags & 0x182u16 == 0u16,
    ensures
        spec_region_body(s, Some(body), e) == body,
{
    let gs = geometry_start(body);
    let cp = spec_common_prefix(body, 0);
    let bits = cp.flags;
    let (o, h) = spec_geometry_at(body, gs, announced_holes(e))->0;
    let n = u32_le(body, gs);
    assert(o == crate::region_geometry::vertices_at(body, gs + 4, n as nat));
    let k: nat = (if announced_holes(e) < 0 { 0 } else { announced_holes(e) as int }) as nat;
    assert(h == holes_at(body, gs + 4 + 16 * n, k));
    lemma_holes_match(body, gs + 4 + 16 * n, k);
    assert(holes_view(s.holes@).len() == s.holes@.len());
    assert(s.holes@.len() == h.len());
    assert(list_matches(body, gs, s.outline@));
    assert(geometry_unchanged(body, gs, s.outline@, holes_view(s.holes@)));
    // the flags the reader decoded encode back to the stored ones
    assert(bits & 0x182u16 == 0u16 ==> ((if bits & 4u16 == 0u16 { 0u16 } else { 4u16 }) | (if bits & 0x20u16 != 0u16 {
        0x20u16
    } else {
        0u16
    }) | (if bits & 0x40u16 != 0u16 { 0x40u16 } else { 0u16 }) | (if bits & 0x200u16 != 0u16 { 0x200u16 } else { 0u16 })
        | (bits & 0xFC09u16) | 0u16 | (if bits & 0x10u16 != 0u16 { 0x10u16 } else { 0u16 })) == bits) by (bit_vector);
    assert(region_flag_bits(s) == bits);
    let head = body.subrange(0, gs);
    assert forall|i: int| 0 <= i < 13 implies head[i] == body[i] by {}
    assert(spec_common_prefix(head, 0) == cp);
    crate::primitive_io::lemma_prefix_rewrite(head);
    assert(s.net_index as i32 == crate::primitive_io::prefix_net(cp) as i32);
    assert(head + body.subrange(gs, body.len() as int) =~= body);
}

} // verus!
