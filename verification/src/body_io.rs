//! Component-body records (the outline and 3D-model reference of a
//! footprint body): the common prefix, a parameter block, then the outline.
//! The parameters that hold doubles or mil-string coordinates are kept as
//! text at this level; everything else is decoded and encoded here.

use vstd::prelude::*;
use vstd::string::StrSliceExecFns;

use crate::binary::{
    layer_byte_for_name, layer_name_to_byte, read_common_prefix, spec_common_prefix, spec_common_prefix_bytes,
    spec_decode_flags, write_common_prefix_full, PrimitiveFlags,
};
use crate::bytes::{push_u32, read_u32, u32_le};
use crate::coord::{Coord, CoordPoint};
use crate::doc_codec::{format_mil_coord, spec_mil_coord};
use crate::flatten::{push_record, record_bytes};
use crate::guids::{brace_core, brace_core_chars, drop_dashes, is_hex};
use crate::parameter::{block_bytes, map_get, map_insert, map_insert_all, pairs_view, parse_block, Entries, ParameterMap};
use crate::primitive_io::ReadError;
use crate::reader_parts::{before_nul, strip_nulls};
use crate::region_geometry::{parse_region_geometry, push_vertex_list, vertex_list_bytes, vertices_at, RegionGeometry};
use crate::region_io::{bool_of, bool_or, i32_of, i32_or, opt_text, text_of, text_or_none};
use crate::shape_io::{net_from_word, shape_flag_bits};
use crate::text::{
    chars_of, dec, dec_int, dec_string, dec_string_signed, eq_ignore_case, owned, parse_i64, parse_i64_chars,
    parse_u64, parse_u64_chars, push_char, push_chars, push_str, str_eq_ignore_case, trim, trim_chars, upper_chars,
    upper_seq,
};

verus! {

/// What a body record holds outside its parameter block: owner, net,
/// header flags and outline.
#[derive(Debug, Clone, PartialEq)]
pub struct BodyShape {
    pub layer: i32,
    /// Index into the document's net table; `0` means no net.
    pub net_index: u16,
    /// Index into the document's `components` list, `-1` for free bodies.
    pub component_index: i32,
    pub is_locked: bool,
    pub is_tenting_top: bool,
    pub is_tenting_bottom: bool,
    pub is_keepout: bool,
    /// Unmodelled flag bits from the record header, preserved verbatim.
    pub flags_extra: u16,
    pub outline: Vec<CoordPoint>,
}

/// The body's header bitfield.
pub open spec fn body_flag_bits(s: BodyShape) -> u16 {
    shape_flag_bits(s.is_locked, s.is_tenting_top, s.is_tenting_bottom, s.is_keepout, s.flags_extra, false)
}

fn body_flags(s: &BodyShape) -> (bits: u16)
    ensures
        bits == body_flag_bits(*s),
{
    let f = PrimitiveFlags {
        is_locked: s.is_locked,
        is_tenting_top: s.is_tenting_top,
        is_tenting_bottom: s.is_tenting_bottom,
        is_keepout: s.is_keepout,
    };
    f.encode() | s.flags_extra | 0u16
}

/// The attributes of a body its parameter block carries as text, integers
/// or flags (doubles and mil-string coordinates aside).
#[derive(Debug, Clone, PartialEq)]
pub struct BodyAttributes {
    /// The `V7_LAYER` name the body sits on.
    pub layer_name: String,
    pub name: Option<String>,
    pub kind: i32,
    pub sub_poly_index: i32,
    pub union_index: i32,
    pub is_shape_based: bool,
    pub body_color_3d: i32,
    pub body_projection: i32,
    pub model_id: Option<String>,
    pub model_embed: bool,
    pub model_type: i32,
    pub model_name: Option<String>,
    /// The model checksum's bit pattern (Altium writes it unsigned).
    pub model_checksum: i32,
    pub model_source: Option<String>,
    pub identifier: Option<String>,
    pub texture: Option<String>,
}

/// The coordinate-valued parameters of a body, written as mil strings.
#[derive(Debug, Clone, Copy, PartialEq, Eq)]
pub struct BodyMeasures {
    pub cavity_height: Coord,
    pub standoff_height: Coord,
    pub overall_height: Coord,
    pub model_2d_location: CoordPoint,
    pub model_3d_dz: Coord,
}

/// The double-valued parameters of a body, as the texts to write: the arc
/// resolution with its unit, the opacity and the four rotations.
#[derive(Debug, Clone, PartialEq)]
pub struct BodyFloatTexts {
    pub arc_resolution: String,
    pub opacity: String,
    pub rotation_2d: String,
    pub rotation_x: String,
    pub rotation_y: String,
    pub rotation_z: String,
}

// ---------------------------------------------------------------------------
// Reading

/// Where the outline of a body starts: after the prefix, five reserved
/// bytes and the length-prefixed parameter block.
pub open spec fn body_geometry_start(body: Seq<u8>) -> int {
    22 + u32_le(body, 18)
}

/// The parameters of a body: its parameter block up to the first NUL.
pub open spec fn body_params_of(body: Seq<u8>) -> Entries {
    parse_block(before_nul(body.subrange(22, body_geometry_start(body))), '|' as u8)
}

/// Whether a body record is complete: prefix and parameter block present,
/// and the outline it announces fits.
pub open spec fn body_complete(body: Seq<u8>) -> bool {
    &&& 22 <= body.len()
    &&& body_geometry_start(body) + 4 <= body.len()
    &&& body_geometry_start(body) + 4 + 16 * u32_le(body, body_geometry_start(body)) <= body.len()
}

/// The shape a complete body record describes.
pub open spec fn body_shape_from(s: BodyShape, body: Seq<u8>) -> bool {
    let cp = spec_common_prefix(body, 0);
    let f = spec_decode_flags(cp.flags);
    let g = body_geometry_start(body);
    &&& s.layer == cp.layer as i32
    &&& s.net_index == net_from_word(cp.net_index)
    &&& s.component_index == cp.component_index
    &&& s.is_locked == f.is_locked && s.is_tenting_top == f.is_tenting_top
    &&& s.is_tenting_bottom == f.is_tenting_bottom && s.is_keepout == f.is_keepout
    &&& s.flags_extra == crate::primitive_io::extra_bits(cp.flags)
    &&& s.outline@ == vertices_at(body, g + 4, u32_le(body, g) as nat)
}

/// Decodes a body record into its shape and its parameters: `None` for an
/// empty record, an error when it ends inside the prefix, the parameter
/// block or the outline it announces.
pub fn read_body_shape(body: &[u8]) -> (r: Result<Option<(BodyShape, ParameterMap)>, ReadError>)
    ensures
        body@.len() == 0 ==> r matches Ok(None),
        body@.len() > 0 && !body_complete(body@) ==> r is Err,
        body@.len() > 0 && body_complete(body@) ==> (r matches Ok(Some((s, m))) && m.wf() && m@ == body_params_of(
            body@,
        ) && body_shape_from(s, body@)),
{
    if body.len() == 0 {
        return Ok(None);
    }
    if body.len() < 22 {
        return Err(ReadError::Truncated);
    }
    let plen = read_u32(body, 18).unwrap();
    if (body.len() - 22) < plen as usize {
        return Err(ReadError::Truncated);
    }
    let start: usize = 22 + plen as usize;
    let block = &body[22..start];
    assert(block@ == body@.subrange(22, start as int));
    let text = strip_nulls(block);
    let params = ParameterMap::parse_bytes(text.as_slice(), '|' as u8);
    let geo = match parse_region_geometry(body, start, 0) {
        Ok(g) => g,
        Err(e) => return Err(e),
    };
    let cp = read_common_prefix(body, 0).unwrap();
    let pf = PrimitiveFlags::decode(cp.flags);
    let RegionGeometry { outline, holes } = geo;
    let shape = BodyShape {
        layer: cp.layer as i32,
        net_index: if cp.net_index >= 0 {
            cp.net_index as u16
        } else {
            0
        },
        component_index: cp.component_index,
        is_locked: pf.is_locked,
        is_tenting_top: pf.is_tenting_top,
        is_tenting_bottom: pf.is_tenting_bottom,
        is_keepout: pf.is_keepout,
        flags_extra: cp.flags & 0xFC19u16,
        outline,
    };
    Ok(Some((shape, params)))
}

/// The checksum a `MODEL.CHECKSUM` text gives: its decimal value's low 32
/// bits, as a signed bit pattern; 0 when absent or unreadable.
pub open spec fn checksum_from(e: Entries) -> i32 {
    match map_get(e, "MODEL.CHECKSUM"@) {
        Some(v) => match parse_i64(trim(v)) {
            Some(n) => (n as u32) as i32,
            None => 0,
        },
        None => 0,
    }
}

/// The attributes a body's parameters give; absent or unreadable values
/// leave the default (`MECHANICAL1`, body colour `0xE0E0E0`, model embedded,
/// model type 1, all else zero, false or none).
pub open spec fn body_attributes_from(a: BodyAttributes, e: Entries) -> bool {
    &&& a.layer_name@ == match map_get(e, "V7_LAYER"@) {
        Some(v) => v,
        None => "MECHANICAL1"@,
    }
    &&& opt_text(a.name) == text_or_none(e, "NAME"@)
    &&& a.kind == i32_or(e, "KIND"@, 0i32)
    &&& a.sub_poly_index == i32_or(e, "SUBPOLYINDEX"@, 0i32)
    &&& a.union_index == i32_or(e, "UNIONINDEX"@, 0i32)
    &&& a.is_shape_based == bool_or(e, "ISSHAPEBASED"@, false)
    &&& a.body_color_3d == i32_or(e, "BODYCOLOR3D"@, 0xE0E0E0i32)
    &&& a.body_projection == i32_or(e, "BODYPROJECTION"@, 0i32)
    &&& opt_text(a.model_id) == text_or_none(e, "MODELID"@)
    &&& a.model_embed == bool_or(e, "MODEL.EMBED"@, true)
    &&& a.model_type == i32_or(e, "MODEL.MODELTYPE"@, 1i32)
    &&& opt_text(a.model_name) == text_or_none(e, "MODEL.NAME"@)
    &&& a.model_checksum == checksum_from(e)
    &&& opt_text(a.model_source) == text_or_none(e, "MODEL.MODELSOURCE"@)
    &&& opt_text(a.identifier) == text_or_none(e, "IDENTIFIER"@)
    &&& opt_text(a.texture) == text_or_none(e, "TEXTURE"@)
}

fn checksum_of(params: &ParameterMap) -> (r: i32)
    ensures
        r == checksum_from(params@),
{
    match params.get("MODEL.CHECKSUM") {
        Some(v) => {
            let c = chars_of(v);
            let t = trim_chars(&c);
            match parse_i64_chars(&t) {
                Some(n) => (n as u32) as i32,
                None => 0,
            }
        },
        None => 0,
    }
}

/// Reads a body's attributes from its parameters.
pub fn body_attributes_from_params(params: &ParameterMap) -> (a: BodyAttributes)
    ensures
        body_attributes_from(a, params@),
{
    let layer_name = match params.get("V7_LAYER") {
        Some(v) => owned(v),
        None => {
            proof {
                reveal_strlit("MECHANICAL1");
            }
            owned("MECHANICAL1")
        },
    };
    BodyAttributes {
        layer_name,
        name: text_of(params, "NAME"),
        kind: i32_of(params, "KIND", 0),
        sub_poly_index: i32_of(params, "SUBPOLYINDEX", 0),
        union_index: i32_of(params, "UNIONINDEX", 0),
        is_shape_based: bool_of(params, "ISSHAPEBASED", false),
        body_color_3d: i32_of(params, "BODYCOLOR3D", 0xE0E0E0),
        body_projection: i32_of(params, "BODYPROJECTION", 0),
        model_id: text_of(params, "MODELID"),
        model_embed: bool_of(params, "MODEL.EMBED", true),
        model_type: i32_of(params, "MODEL.MODELTYPE", 1),
        model_name: text_of(params, "MODEL.NAME"),
        model_checksum: checksum_of(params),
        model_source: text_of(params, "MODEL.MODELSOURCE"),
        identifier: text_of(params, "IDENTIFIER"),
        texture: text_of(params, "TEXTURE"),
    }
}

/// Whether `name` is one of the parameters a body field stands for (ASCII
/// case ignored).
pub open spec fn is_body_key(name: Seq<char>) -> bool {
    eq_ignore_case(name, "V7_LAYER"@) || eq_ignore_case(name, "NAME"@) || eq_ignore_case(name, "KIND"@)
        || eq_ignore_case(name, "SUBPOLYINDEX"@) || eq_ignore_case(name, "UNIONINDEX"@) || eq_ignore_case(
        name,
        "ARCRESOLUTION"@,
    ) || eq_ignore_case(name, "ISSHAPEBASED"@) || eq_ignore_case(name, "CAVITYHEIGHT"@) || eq_ignore_case(
        name,
        "STANDOFFHEIGHT"@,
    ) || eq_ignore_case(name, "OVERALLHEIGHT"@) || eq_ignore_case(name, "BODYCOLOR3D"@) || eq_ignore_case(
        name,
        "BODYOPACITY3D"@,
    ) || eq_ignore_case(name, "BODYPROJECTION"@) || eq_ignore_case(name, "MODELID"@) || eq_ignore_case(
        name,
        "MODEL.EMBED"@,
    ) || eq_ignore_case(name, "MODEL.2D.X"@) || eq_ignore_case(name, "MODEL.2D.Y"@) || eq_ignore_case(
        name,
        "MODEL.2D.ROTATION"@,
    ) || eq_ignore_case(name, "MODEL.3D.ROTX"@) || eq_ignore_case(name, "MODEL.3D.ROTY"@) || eq_ignore_case(
        name,
        "MODEL.3D.ROTZ"@,
    ) || eq_ignore_case(name, "MODEL.3D.DZ"@) || eq_ignore_case(name, "MODEL.CHECKSUM"@) || eq_ignore_case(
        name,
        "MODEL.NAME"@,
    ) || eq_ignore_case(name, "MODEL.MODELTYPE"@) || eq_ignore_case(name, "MODEL.MODELSOURCE"@)
        || eq_ignore_case(name, "IDENTIFIER"@) || eq_ignore_case(name, "TEXTURE"@)
}

fn body_key(name: &str) -> (r: bool)
    ensures
        r == is_body_key(name@),
{
    str_eq_ignore_case(name, "V7_LAYER") || str_eq_ignore_case(name, "NAME") || str_eq_ignore_case(name, "KIND")
        || str_eq_ignore_case(name, "SUBPOLYINDEX") || str_eq_ignore_case(name, "UNIONINDEX")
        || str_eq_ignore_case(name, "ARCRESOLUTION") || str_eq_ignore_case(name, "ISSHAPEBASED")
        || str_eq_ignore_case(name, "CAVITYHEIGHT") || str_eq_ignore_case(name, "STANDOFFHEIGHT")
        || str_eq_ignore_case(name, "OVERALLHEIGHT") || str_eq_ignore_case(name, "BODYCOLOR3D")
        || str_eq_ignore_case(name, "BODYOPACITY3D") || str_eq_ignore_case(name, "BODYPROJECTION")
        || str_eq_ignore_case(name, "MODELID") || str_eq_ignore_case(name, "MODEL.EMBED") || str_eq_ignore_case(
        name,
        "MODEL.2D.X",
    ) || str_eq_ignore_case(name, "MODEL.2D.Y") || str_eq_ignore_case(name, "MODEL.2D.ROTATION")
        || str_eq_ignore_case(name, "MODEL.3D.ROTX") || str_eq_ignore_case(name, "MODEL.3D.ROTY")
        || str_eq_ignore_case(name, "MODEL.3D.ROTZ") || str_eq_ignore_case(name, "MODEL.3D.DZ")
        || str_eq_ignore_case(name, "MODEL.CHECKSUM") || str_eq_ignore_case(name, "MODEL.NAME")
        || str_eq_ignore_case(name, "MODEL.MODELTYPE") || str_eq_ignore_case(name, "MODEL.MODELSOURCE")
        || str_eq_ignore_case(name, "IDENTIFIER") || str_eq_ignore_case(name, "TEXTURE")
}

/// The parameters no body field stands for, in block order.
pub open spec fn body_extra_entries(e: Entries) -> Entries {
    e.filter(|p: (Seq<char>, Seq<char>)| !is_body_key(p.0))
}

/// The parameters of a body that no field stands for, in block order.
pub fn body_extra_parameters(params: &ParameterMap) -> (r: Vec<(String, String)>)
    ensures
        pairs_view(r@) == body_extra_entries(params@),
{
    let entries = params.entries();
    let mut r: Vec<(String, String)> = Vec::new();
    let mut i: usize = 0;
    while i < entries.len()
        invariant
            i <= entries@.len(),
            pairs_view(entries@) == params@,
            pairs_view(r@) == body_extra_entries(params@.take(i as int)),
        decreases entries@.len() - i,
    {
        let ghost e = params@;
        assert(e.take(i + 1).drop_last() =~= e.take(i as int));
        assert(e[i as int] == (entries@[i as int].0@, entries@[i as int].1@));
        reveal(Seq::filter);
        if !body_key(entries[i].0.as_str()) {
            r.push((owned(entries[i].0.as_str()), owned(entries[i].1.as_str())));
            assert(pairs_view(r@) =~= body_extra_entries(e.take(i as int)).push(e[i as int]));
        } else {
            assert(body_extra_entries(e.take(i + 1)) =~= body_extra_entries(e.take(i as int)));
        }
        i += 1;
    }
    assert(params@.take(entries@.len() as int) =~= params@);
    r
}

// ---------------------------------------------------------------------------
// Texts written into the parameter block

/// The UTF-8 bytes of one character.
pub open spec fn utf8_char(c: char) -> Seq<u8> {
    let u = c as u32 as int;
    if u < 0x80 {
        seq![u as u8]
    } else if u < 0x800 {
        seq![(0xC0 + u / 64) as u8, (0x80 + u % 64) as u8]
    } else if u < 0x10000 {
        seq![(0xE0 + u / 4096) as u8, (0x80 + (u / 64) % 64) as u8, (0x80 + u % 64) as u8]
    } else {
        seq![
            (0xF0 + u / 262144) as u8,
            (0x80 + (u / 4096) % 64) as u8,
            (0x80 + (u / 64) % 64) as u8,
            (0x80 + u % 64) as u8,
        ]
    }
}

/// The UTF-8 bytes of a text (`str::bytes`).
pub open spec fn utf8_bytes(s: Seq<char>) -> Seq<u8>
    decreases s.len(),
{
    if s.len() == 0 {
        seq![]
    } else {
        utf8_bytes(s.drop_last()) + utf8_char(s.last())
    }
}

fn push_utf8_char(out: &mut Vec<u8>, c: char)
    ensures
        final(out)@ == old(out)@ + utf8_char(c),
{
    let u = c as u32;
    if u < 0x80 {
        out.push(u as u8);
    } else if u < 0x800 {
        out.push((0xC0 + u / 64) as u8);
        out.push((0x80 + u % 64) as u8);
    } else if u < 0x10000 {
        out.push((0xE0 + u / 4096) as u8);
        out.push((0x80 + (u / 64) % 64) as u8);
        out.push((0x80 + u % 64) as u8);
    } else {
        assert(u <= 0x10FFFF);
        out.push((0xF0 + u / 262144) as u8);
        out.push((0x80 + (u / 4096) % 64) as u8);
        out.push((0x80 + (u / 64) % 64) as u8);
        out.push((0x80 + u % 64) as u8);
    }
    assert(final(out)@ =~= old(out)@ + utf8_char(c));
}

/// Appends the UTF-8 bytes of a run of characters.
fn push_utf8(out: &mut Vec<u8>, s: &[char])
    ensures
        final(out)@ == old(out)@ + utf8_bytes(s@),
{
    let ghost start = out@;
    let mut i: usize = 0;
    while i < s.len()
        invariant
            i <= s@.len(),
            out@ == start + utf8_bytes(s@.take(i as int)),
        decreases s@.len() - i,
    {
        push_utf8_char(out, s[i]);
        i += 1;
        assert(s@.take(i as int).drop_last() =~= s@.take(i - 1));
        assert(out@ =~= start + utf8_bytes(s@.take(i as int)));
    }
    assert(s@.take(s@.len() as int) =~= s@);
}

/// Whether every character is a hex digit.
pub open spec fn all_hex(s: Seq<char>) -> bool {
    forall|i: int| 0 <= i < s.len() ==> is_hex(#[trigger] s[i])
}

/// A model id in Altium's canonical `{XXXXXXXX-XXXX-XXXX-XXXX-XXXXXXXXXXXX}`
/// form: when the text, without surrounding space and braces and apart
/// from dashes, is a UUID (exactly 32 hex digits), they are grouped
/// 8-4-4-4-12 in upper case; any other text is kept as it is.
pub open spec fn spec_format_model_id(raw: Seq<char>) -> Seq<char> {
    let h = drop_dashes(brace_core(raw));
    if h.len() != 32 || !all_hex(h) {
        raw
    } else {
        let u = upper_seq(h);
        seq!['{'] + u.subrange(0, 8) + seq!['-'] + u.subrange(8, 12) + seq!['-'] + u.subrange(12, 16) + seq!['-']
            + u.subrange(16, 20) + seq!['-'] + u.subrange(20, 32) + seq!['}']
    }
}

/// Normalises a UUID model id to Altium's canonical form; any other text
/// comes back unchanged (see [`spec_format_model_id`]).
pub fn format_model_id(raw: &str) -> (r: String)
    ensures
        r@ == spec_format_model_id(raw@),
{
    let core = brace_core_chars(raw);
    let mut h: Vec<char> = Vec::new();
    let mut hex = true;
    let mut i: usize = 0;
    while i < core.len()
        invariant
            i <= core@.len(),
            h@ == drop_dashes(core@.take(i as int)),
            hex == all_hex(h@),
        decreases core@.len() - i,
    {
        assert(core@.take(i + 1).drop_last() =~= core@.take(i as int));
        let c = core[i];
        if c != '-' {
            let ghost before = h@;
            if !(('0' <= c && c <= '9') || ('a' <= c && c <= 'f') || ('A' <= c && c <= 'F')) {
                hex = false;
            }
            h.push(c);
            proof {
                assert(h@ == before.push(c));
                if all_hex(h@) {
                    assert forall|j: int| 0 <= j < before.len() implies is_hex(#[trigger] before[j]) by {
                        assert(h@[j] == before[j]);
                    }
                    assert(is_hex(h@[before.len() as int]));
                }
            }
        }
        i += 1;
    }
    assert(core@.take(core@.len() as int) =~= core@);
    if h.len() != 32 || !hex {
        return owned(raw);
    }
    let u = upper_chars(&h);
    let mut s = String::new();
    push_char(&mut s, '{');
    push_chars(&mut s, &u.as_slice()[0..8]);
    push_char(&mut s, '-');
    push_chars(&mut s, &u.as_slice()[8..12]);
    push_char(&mut s, '-');
    push_chars(&mut s, &u.as_slice()[12..16]);
    push_char(&mut s, '-');
    push_chars(&mut s, &u.as_slice()[16..20]);
    push_char(&mut s, '-');
    push_chars(&mut s, &u.as_slice()[20..32]);
    push_char(&mut s, '}');
    assert(s@ =~= spec_format_model_id(raw@));
    s
}

/// The value stored under exactly `key` in a list of pairs (the first such).
pub open spec fn exact_get(e: Entries, key: Seq<char>) -> Option<Seq<char>>
    decreases e.len(),
{
    if e.len() == 0 {
        None
    } else if e[0].0 == key {
        Some(e[0].1)
    } else {
        exact_get(e.skip(1), key)
    }
}

fn exact_get_exec(extra: &[(String, String)], key: &str) -> (r: Option<String>)
    ensures
        opt_text(r) == exact_get(pairs_view(extra@), key@),
{
    let ghost e = pairs_view(extra@);
    let k = chars_of(key);
    let mut i: usize = 0;
    assert(e.skip(0) =~= e);
    while i < extra.len()
        invariant
            i <= extra@.len(),
            e == pairs_view(extra@),
            k@ == key@,
            exact_get(e, key@) == exact_get(e.skip(i as int), key@),
        decreases extra@.len() - i,
    {
        let name = chars_of(extra[i].0.as_str());
        assert(e.skip(i as int)[0] == (extra@[i as int].0@, extra@[i as int].1@));
        if crate::text::seq_eq(&name, &k) {
            return Some(owned(extra[i].1.as_str()));
        }
        assert(e.skip(i as int).skip(1) =~= e.skip(i + 1));
        i += 1;
    }
    None
}

/// `e` with the extra parameter stored under exactly `key` copied in, when
/// there is one.
pub open spec fn copy_from(e: Entries, extra: Entries, key: Seq<char>) -> Entries {
    match exact_get(extra, key) {
        Some(v) => map_insert(e, key, v),
        None => e,
    }
}

fn copy_key(m: &mut ParameterMap, extra: &[(String, String)], key: &str)
    ensures
        final(m)@ == copy_from(old(m)@, pairs_view(extra@), key@),
        old(m).wf() ==> final(m).wf(),
{
    if let Some(v) = exact_get_exec(extra, key) {
        m.insert(key, v.as_str());
    }
}

// ---------------------------------------------------------------------------
// The parameters of a written body

/// The text of an optional string, empty when absent.
pub open spec fn text_or_empty(o: Option<String>) -> Seq<char> {
    match o {
        Some(s) => s@,
        None => seq![],
    }
}

/// The name written for a body: a single space when it has none or an
/// empty one.
pub open spec fn body_name_text(a: BodyAttributes) -> Seq<char> {
    match a.name {
        Some(n) => if n@.len() > 0 {
            n@
        } else {
            " "@
        },
        None => " "@,
    }
}

/// `TRUE` or `FALSE`.
pub open spec fn flag_text(b: bool) -> Seq<char> {
    if b {
        "TRUE"@
    } else {
        "FALSE"@
    }
}

/// The first parameters of a body: layer, name, kind, indices, arc
/// resolution, shape flag, heights, projection, colour and opacity.
pub open spec fn body_param_head(a: BodyAttributes, m: BodyMeasures, f: BodyFloatTexts) -> Entries {
    let e = map_insert(seq![], "V7_LAYER"@, a.layer_name@);
    let e = map_insert(e, "NAME"@, body_name_text(a));
    let e = map_insert(e, "KIND"@, dec_int(a.kind as int));
    let e = map_insert(e, "SUBPOLYINDEX"@, dec_int(a.sub_poly_index as int));
    let e = map_insert(e, "UNIONINDEX"@, dec_int(a.union_index as int));
    let e = map_insert(e, "ARCRESOLUTION"@, f.arc_resolution@);
    let e = map_insert(e, "ISSHAPEBASED"@, flag_text(a.is_shape_based));
    let e = map_insert(e, "CAVITYHEIGHT"@, spec_mil_coord(m.cavity_height.raw));
    let e = map_insert(e, "STANDOFFHEIGHT"@, spec_mil_coord(m.standoff_height.raw));
    let e = map_insert(e, "OVERALLHEIGHT"@, spec_mil_coord(m.overall_height.raw));
    let e = map_insert(e, "BODYPROJECTION"@, dec_int(a.body_projection as int));
    let e = map_insert(e, "BODYCOLOR3D"@, dec_int(a.body_color_3d as int));
    map_insert(e, "BODYOPACITY3D"@, f.opacity@)
}

/// The model parameters: override colour and texture from the extra
/// parameters, identifier, texture, model id, checksum (unsigned), embed
/// flag, name, 2D placement and the rotations and 3D offset.
pub open spec fn body_param_model(e: Entries, a: BodyAttributes, m: BodyMeasures, f: BodyFloatTexts, x: Entries) -> Entries {
    body_param_placement(body_param_texture(e, a, x), a, m, f)
}

/// Override colour, identifier and texture.
pub open spec fn body_param_texture(e: Entries, a: BodyAttributes, x: Entries) -> Entries {
    let e = copy_from(e, x, "BODYOVERRIDECOLOR"@);
    let e = map_insert(e, "IDENTIFIER"@, text_or_empty(a.identifier));
    let e = map_insert(e, "TEXTURE"@, text_or_empty(a.texture));
    let e = copy_from(e, x, "TEXTURECENTERX"@);
    let e = copy_from(e, x, "TEXTURECENTERY"@);
    let e = copy_from(e, x, "TEXTURESIZEX"@);
    let e = copy_from(e, x, "TEXTURESIZEY"@);
    copy_from(e, x, "TEXTUREROTATION"@)
}

/// Model id, checksum, embed flag, name, 2D placement, rotations and 3D
/// offset.
pub open spec fn body_param_placement(e: Entries, a: BodyAttributes, m: BodyMeasures, f: BodyFloatTexts) -> Entries {
    let e = map_insert(e, "MODELID"@, spec_format_model_id(text_or_empty(a.model_id)));
    let e = map_insert(e, "MODEL.CHECKSUM"@, dec((a.model_checksum as u32) as nat));
    let e = map_insert(e, "MODEL.EMBED"@, flag_text(a.model_embed));
    let e = map_insert(e, "MODEL.NAME"@, text_or_empty(a.model_name));
    let e = map_insert(e, "MODEL.2D.X"@, spec_mil_coord(m.model_2d_location.x.raw));
    let e = map_insert(e, "MODEL.2D.Y"@, spec_mil_coord(m.model_2d_location.y.raw));
    let e = map_insert(e, "MODEL.2D.ROTATION"@, f.rotation_2d@);
    let e = map_insert(e, "MODEL.3D.ROTX"@, f.rotation_x@);
    let e = map_insert(e, "MODEL.3D.ROTY"@, f.rotation_y@);
    let e = map_insert(e, "MODEL.3D.ROTZ"@, f.rotation_z@);
    map_insert(e, "MODEL.3D.DZ"@, spec_mil_coord(m.model_3d_dz.raw))
}

/// The key of coordinate `axis` of snap point `i`.
pub open spec fn snap_key(i: nat, axis: char) -> Seq<char> {
    "MODEL.S"@ + dec(i) + seq![axis]
}

/// The snap points copied from the extra parameters, from point `i` on,
/// while `MODEL.S<i>X` is there, for at most `fuel` points.
pub open spec fn copy_snaps(e: Entries, x: Entries, i: nat, fuel: nat) -> Entries
    decreases fuel,
{
    if fuel == 0 || exact_get(x, snap_key(i, 'X')) is None {
        e
    } else {
        copy_snaps(
            copy_from(copy_from(copy_from(e, x, snap_key(i, 'X')), x, snap_key(i, 'Y')), x, snap_key(i, 'Z')),
            x,
            i + 1,
            (fuel - 1) as nat,
        )
    }
}

/// The contour keys of vertex `i`, in the order Altium writes them.
pub open spec fn copy_contour_vertex(e: Entries, x: Entries, i: nat) -> Entries {
    let d = dec(i);
    let e = copy_from(e, x, "KIND"@ + d);
    let e = copy_from(e, x, "VX"@ + d);
    let e = copy_from(e, x, "VY"@ + d);
    let e = copy_from(e, x, "CX"@ + d);
    let e = copy_from(e, x, "CY"@ + d);
    let e = copy_from(e, x, "SA"@ + d);
    let e = copy_from(e, x, "EA"@ + d);
    copy_from(e, x, "R"@ + d)
}

/// The contour keys of the first `n` vertices.
pub open spec fn copy_contour(e: Entries, x: Entries, n: nat) -> Entries
    decreases n,
{
    if n == 0 {
        e
    } else {
        copy_contour_vertex(copy_contour(e, x, (n - 1) as nat), x, (n - 1) as nat)
    }
}

/// The last parameters: snap points (after their count), model type, model
/// source when known, the extrusion range and contour count, and the
/// contour vertices the count announces.
pub open spec fn body_param_tail(e: Entries, a: BodyAttributes, x: Entries) -> Entries {
    let e = match exact_get(x, "MODEL.SNAPCOUNT"@) {
        Some(v) => copy_snaps(map_insert(e, "MODEL.SNAPCOUNT"@, v), x, 0, x.len()),
        None => e,
    };
    let e = map_insert(e, "MODEL.MODELTYPE"@, dec_int(a.model_type as int));
    let e = match a.model_source {
        Some(src) => map_insert(e, "MODEL.MODELSOURCE"@, src@),
        None => e,
    };
    let e = copy_from(e, x, "MODEL.EXTRUDED.MINZ"@);
    let e = copy_from(e, x, "MODEL.EXTRUDED.MAXZ"@);
    let e = copy_from(e, x, "MAINCONTOURVERTEXCOUNT"@);
    match exact_get(x, "MAINCONTOURVERTEXCOUNT"@) {
        Some(v) => match parse_u64(v) {
            Some(n) => copy_contour(e, x, n as nat),
            None => e,
        },
        None => e,
    }
}

/// The parameters written for a body, in Altium's key order, with every
/// extra parameter inserted last (replacing a value or appended).
pub open spec fn spec_body_params(a: BodyAttributes, m: BodyMeasures, f: BodyFloatTexts, x: Entries) -> Entries {
    map_insert_all(body_param_tail(body_param_model(body_param_head(a, m, f), a, m, f, x), a, x), x)
}

fn body_params_head(a: &BodyAttributes, m: &BodyMeasures, f: &BodyFloatTexts) -> (p: ParameterMap)
    ensures
        p@ == body_param_head(*a, *m, *f),
        p.wf(),
{
    let mut p = ParameterMap::new();
    p.insert("V7_LAYER", a.layer_name.as_str());
    let name_written = match &a.name {
        Some(n) => n.as_str().unicode_len() > 0,
        None => false,
    };
    if name_written {
        p.insert("NAME", a.name.as_ref().unwrap().as_str());
    } else {
        p.insert("NAME", " ");
    }
    let t = dec_string_signed(a.kind as i64);
    p.insert("KIND", t.as_str());
    let t = dec_string_signed(a.sub_poly_index as i64);
    p.insert("SUBPOLYINDEX", t.as_str());
    let t = dec_string_signed(a.union_index as i64);
    p.insert("UNIONINDEX", t.as_str());
    p.insert("ARCRESOLUTION", f.arc_resolution.as_str());
    p.insert("ISSHAPEBASED", if a.is_shape_based { "TRUE" } else { "FALSE" });
    let t = format_mil_coord(m.cavity_height);
    p.insert("CAVITYHEIGHT", t.as_str());
    let t = format_mil_coord(m.standoff_height);
    p.insert("STANDOFFHEIGHT", t.as_str());
    let t = format_mil_coord(m.overall_height);
    p.insert("OVERALLHEIGHT", t.as_str());
    let t = dec_string_signed(a.body_projection as i64);
    p.insert("BODYPROJECTION", t.as_str());
    let t = dec_string_signed(a.body_color_3d as i64);
    p.insert("BODYCOLOR3D", t.as_str());
    p.insert("BODYOPACITY3D", f.opacity.as_str());
    proof {
        reveal_strlit("TRUE");
        reveal_strlit("FALSE");
    }
    p
}

fn body_params_texture(p: &mut ParameterMap, a: &BodyAttributes, x: &[(String, String)])
    ensures
        final(p)@ == body_param_texture(old(p)@, *a, pairs_view(x@)),
        old(p).wf() ==> final(p).wf(),
{
    proof {
        reveal_strlit("");
        assert(""@ =~= Seq::<char>::empty());
    }
    let ghost xv = pairs_view(x@);
    let ghost e0 = p@;
    copy_key(p, x, "BODYOVERRIDECOLOR");
    let ghost e1 = p@;
    assert(e1 == copy_from(e0, xv, "BODYOVERRIDECOLOR"@));
    match &a.identifier {
        Some(v) => p.insert("IDENTIFIER", v.as_str()),
        None => p.insert("IDENTIFIER", ""),
    }
    let ghost e2 = p@;
    assert(e2 == map_insert(e1, "IDENTIFIER"@, text_or_empty(a.identifier)));
    match &a.texture {
        Some(v) => p.insert("TEXTURE", v.as_str()),
        None => p.insert("TEXTURE", ""),
    }
    let ghost e3 = p@;
    assert(e3 == map_insert(e2, "TEXTURE"@, text_or_empty(a.texture)));
    copy_key(p, x, "TEXTURECENTERX");
    copy_key(p, x, "TEXTURECENTERY");
    copy_key(p, x, "TEXTURESIZEX");
    copy_key(p, x, "TEXTURESIZEY");
    copy_key(p, x, "TEXTUREROTATION");
}

fn body_params_placement(p: &mut ParameterMap, a: &BodyAttributes, m: &BodyMeasures, f: &BodyFloatTexts)
    ensures
        final(p)@ == body_param_placement(old(p)@, *a, *m, *f),
        old(p).wf() ==> final(p).wf(),
{
    proof {
        reveal_strlit("");
        reveal_strlit("TRUE");
        reveal_strlit("FALSE");
        assert(""@ =~= Seq::<char>::empty());
    }
    let id = match &a.model_id {
        Some(v) => format_model_id(v.as_str()),
        None => format_model_id(""),
    };
    assert(id@ == spec_format_model_id(text_or_empty(a.model_id)));
    p.insert("MODELID", id.as_str());
    let t = dec_string((a.model_checksum as u32) as u64);
    p.insert("MODEL.CHECKSUM", t.as_str());
    p.insert("MODEL.EMBED", if a.model_embed { "TRUE" } else { "FALSE" });
    match &a.model_name {
        Some(v) => p.insert("MODEL.NAME", v.as_str()),
        None => p.insert("MODEL.NAME", ""),
    }
    let t = format_mil_coord(m.model_2d_location.x);
    p.insert("MODEL.2D.X", t.as_str());
    let t = format_mil_coord(m.model_2d_location.y);
    p.insert("MODEL.2D.Y", t.as_str());
    p.insert("MODEL.2D.ROTATION", f.rotation_2d.as_str());
    p.insert("MODEL.3D.ROTX", f.rotation_x.as_str());
    p.insert("MODEL.3D.ROTY", f.rotation_y.as_str());
    p.insert("MODEL.3D.ROTZ", f.rotation_z.as_str());
    let t = format_mil_coord(m.model_3d_dz);
    p.insert("MODEL.3D.DZ", t.as_str());
}

fn numbered_key(prefix: &str, i: u64, suffix: &str) -> (k: String)
    ensures
        k@ == prefix@ + dec(i as nat) + suffix@,
{
    let mut k = owned(prefix);
    let d = dec_string(i);
    push_str(&mut k, d.as_str());
    push_str(&mut k, suffix);
    k
}

fn copy_snap_points(p: &mut ParameterMap, x: &[(String, String)])
    ensures
        final(p)@ == copy_snaps(old(p)@, pairs_view(x@), 0, x@.len()),
        old(p).wf() ==> final(p).wf(),
{
    let ghost xv = pairs_view(x@);
    let ghost start = p@;
    let ghost w0 = p.wf();
    let mut i: usize = 0;
    while i < x.len()
        invariant_except_break
            i <= x@.len(),
            xv == pairs_view(x@),
            copy_snaps(start, xv, 0, x@.len()) == copy_snaps(p@, xv, i as nat, (x@.len() - i) as nat),
            w0 ==> p.wf(),
        ensures
            copy_snaps(start, xv, 0, x@.len()) == p@,
            w0 ==> p.wf(),
        decreases x@.len() - i,
    {
        let kx = numbered_key("MODEL.S", i as u64, "X");
        proof {
            reveal_strlit("X");
            reveal_strlit("Y");
            reveal_strlit("Z");
            reveal_strlit("MODEL.S");
        }
        assert(kx@ == snap_key(i as nat, 'X'));
        match exact_get_exec(x, kx.as_str()) {
            None => {
                break;
            },
            Some(_) => {},
        }
        copy_key(p, x, kx.as_str());
        let ky = numbered_key("MODEL.S", i as u64, "Y");
        assert(ky@ == snap_key(i as nat, 'Y'));
        copy_key(p, x, ky.as_str());
        let kz = numbered_key("MODEL.S", i as u64, "Z");
        assert(kz@ == snap_key(i as nat, 'Z'));
        copy_key(p, x, kz.as_str());
        i += 1;
    }
}

fn copy_contour_keys(p: &mut ParameterMap, x: &[(String, String)], n: u64)
    ensures
        final(p)@ == copy_contour(old(p)@, pairs_view(x@), n as nat),
        old(p).wf() ==> final(p).wf(),
{
    let ghost xv = pairs_view(x@);
    let ghost start = p@;
    let ghost w0 = p.wf();
    let mut i: u64 = 0;
    while i < n
        invariant
            i <= n,
            xv == pairs_view(x@),
            p@ == copy_contour(start, xv, i as nat),
            w0 ==> p.wf(),
        decreases n - i,
    {
        proof {
            reveal_strlit("");
            reveal_strlit("KIND");
            reveal_strlit("VX");
            reveal_strlit("VY");
            reveal_strlit("CX");
            reveal_strlit("CY");
            reveal_strlit("SA");
            reveal_strlit("EA");
            reveal_strlit("R");
        }
        let k = numbered_key("KIND", i, "");
        assert(k@ =~= "KIND"@ + dec(i as nat));
        copy_key(p, x, k.as_str());
        let k = numbered_key("VX", i, "");
        assert(k@ =~= "VX"@ + dec(i as nat));
        copy_key(p, x, k.as_str());
        let k = numbered_key("VY", i, "");
        assert(k@ =~= "VY"@ + dec(i as nat));
        copy_key(p, x, k.as_str());
        let k = numbered_key("CX", i, "");
        assert(k@ =~= "CX"@ + dec(i as nat));
        copy_key(p, x, k.as_str());
        let k = numbered_key("CY", i, "");
        assert(k@ =~= "CY"@ + dec(i as nat));
        copy_key(p, x, k.as_str());
        let k = numbered_key("SA", i, "");
        assert(k@ =~= "SA"@ + dec(i as nat));
        copy_key(p, x, k.as_str());
        let k = numbered_key("EA", i, "");
        assert(k@ =~= "EA"@ + dec(i as nat));
        copy_key(p, x, k.as_str());
        let k = numbered_key("R", i, "");
        assert(k@ =~= "R"@ + dec(i as nat));
        copy_key(p, x, k.as_str());
        i += 1;
    }
}

fn body_params_tail(p: &mut ParameterMap, a: &BodyAttributes, x: &[(String, String)])
    ensures
        final(p)@ == body_param_tail(old(p)@, *a, pairs_view(x@)),
        old(p).wf() ==> final(p).wf(),
{
    if let Some(v) = exact_get_exec(x, "MODEL.SNAPCOUNT") {
        p.insert("MODEL.SNAPCOUNT", v.as_str());
        copy_snap_points(p, x);
    }
    let t = dec_string_signed(a.model_type as i64);
    p.insert("MODEL.MODELTYPE", t.as_str());
    if let Some(src) = &a.model_source {
        p.insert("MODEL.MODELSOURCE", src.as_str());
    }
    copy_key(p, x, "MODEL.EXTRUDED.MINZ");
    copy_key(p, x, "MODEL.EXTRUDED.MAXZ");
    copy_key(p, x, "MAINCONTOURVERTEXCOUNT");
    if let Some(v) = exact_get_exec(x, "MAINCONTOURVERTEXCOUNT") {
        let c = chars_of(v.as_str());
        if let Some(n) = parse_u64_chars(&c) {
            copy_contour_keys(p, x, n);
        }
    }
}

/// The parameters written for a body, from its attributes, measures, the
/// texts of its doubles and its extra parameters (in their stored order).
pub fn body_params(a: &BodyAttributes, m: &BodyMeasures, f: &BodyFloatTexts, extra: &[(String, String)]) -> (p: ParameterMap)
    ensures
        p@ == spec_body_params(*a, *m, *f, pairs_view(extra@)),
        p.wf(),
{
    let mut p = body_params_head(a, m, f);
    body_params_texture(&mut p, a, extra);
    body_params_placement(&mut p, a, m, f);
    body_params_tail(&mut p, a, extra);
    p.insert_all(extra);
    p
}

// ---------------------------------------------------------------------------
// The body record

/// The first position from `i` on where `needle` occurs in `hay`.
pub open spec fn find_from(hay: Seq<u8>, needle: Seq<u8>, i: int) -> Option<int>
    decreases hay.len() + 1 - i,
{
    if i < 0 || i + needle.len() > hay.len() {
        None
    } else if hay.subrange(i, i + needle.len()) == needle {
        Some(i)
    } else {
        find_from(hay, needle, i + 1)
    }
}

fn find_bytes(hay: &[u8], needle: &[u8]) -> (r: Option<usize>)
    ensures
        r matches Some(i) ==> find_from(hay@, needle@, 0) == Some(i as int) && i + needle@.len() <= hay@.len(),
        r is None ==> find_from(hay@, needle@, 0) is None,
{
    let mut i: usize = 0;
    if needle.len() > hay.len() {
        return None;
    }
    while i <= hay.len() - needle.len()
        invariant
            needle@.len() <= hay@.len(),
            i <= hay@.len(),
            find_from(hay@, needle@, 0) == find_from(hay@, needle@, i as int),
        decreases hay@.len() + 1 - i,
    {
        let mut k: usize = 0;
        let mut same = true;
        while k < needle.len()
            invariant
                k <= needle@.len(),
                i + needle@.len() <= hay@.len(),
                hay@.len() == hay.len(),
                needle@.len() == needle.len(),
                same == forall|j: int| 0 <= j < k ==> hay@[i + j] == needle@[j],
            decreases needle@.len() - k,
        {
            assert(i + k < hay@.len());
            if hay[i + k] != needle[k] {
                same = false;
            }
            k += 1;
        }
        if same {
            assert(hay@.subrange(i as int, i + needle@.len()) =~= needle@);
            return Some(i);
        }
        assert(hay@.subrange(i as int, i + needle@.len()) != needle@) by {
            let j = choose|j: int| 0 <= j < needle@.len() && hay@[i + j] != needle@[j];
            assert(hay@.subrange(i as int, i + needle@.len())[j] != needle@[j]);
        }
        i += 1;
    }
    None
}

proof fn lemma_first_pos_extend(f: Seq<u8>, n: int, x: u8)
    requires
        0 <= n <= f.len(),
        crate::parameter::first_pos(f.take(n), x) is Some,
    ensures
        crate::parameter::first_pos(f, x) == crate::parameter::first_pos(f.take(n), x),
    decreases f.len() - n,
{
    if n < f.len() {
        assert(f.take(n + 1).drop_last() =~= f.take(n));
        lemma_first_pos_extend(f, n + 1, x);
    } else {
        assert(f.take(n) =~= f);
    }
}

fn first_pos_from(b: &[u8], from: usize, x: u8) -> (r: Option<usize>)
    requires
        from <= b@.len(),
    ensures
        r matches Some(i) ==> crate::parameter::first_pos(b@.skip(from as int), x) == Some(i as int) && from + i
            < b@.len(),
        r is None ==> crate::parameter::first_pos(b@.skip(from as int), x) is None,
{
    let ghost t = b@.skip(from as int);
    let mut i: usize = from;
    while i < b.len()
        invariant
            from <= i <= b@.len(),
            t == b@.skip(from as int),
            crate::parameter::first_pos(t.take(i - from), x) is None,
        decreases b@.len() - i,
    {
        assert(t.take(i - from + 1).drop_last() =~= t.take(i - from));
        if b[i] == x {
            proof {
                lemma_first_pos_extend(t, i - from + 1, x);
            }
            return Some(i - from);
        }
        i += 1;
    }
    assert(t.take(i - from) =~= t);
    None
}

/// The parameter text of a body block: the entries without the leading
/// separator, and a second `ARCRESOLUTION` entry (its UTF-8 text) right
/// after the `BODYPROJECTION` entry when both are there.
pub open spec fn body_block_text(e: Entries) -> Seq<u8> {
    let bytes = block_bytes(e, '|' as u8);
    let body = if bytes.len() > 0 && bytes[0] == 124u8 {
        bytes.skip(1)
    } else {
        bytes
    };
    match map_get(e, "ARCRESOLUTION"@) {
        Some(res) => match find_from(body, crate::encoding::latin1_bytes("|BODYPROJECTION="@), 0) {
            Some(pos) => {
                let end = match crate::parameter::first_pos(body.skip(pos + 1), 124u8) {
                    Some(i) => pos + 1 + i,
                    None => body.len() as int,
                };
                body.take(end) + utf8_bytes("|ARCRESOLUTION="@ + res) + body.skip(end)
            },
            None => body,
        },
        None => body,
    }
}

/// The parameter text of a body block (see [`body_block_text`]).
pub fn body_block_bytes(params: &ParameterMap) -> (r: Vec<u8>)
    ensures
        r@ == body_block_text(params@),
{
    let mut bytes: Vec<u8> = Vec::new();
    params.write_block_bytes(&mut bytes, '|' as u8);
    let body: Vec<u8> = if bytes.len() > 0 && bytes[0] == 124u8 {
        vstd::slice::slice_to_vec(&bytes.as_slice()[1..bytes.len()])
    } else {
        bytes
    };
    assert(bytes.len() > 0 && bytes@[0] == 124u8 ==> body@ =~= bytes@.skip(1));
    match params.get("ARCRESOLUTION") {
        Some(res) => {
            let key = crate::encoding::encode("|BODYPROJECTION=");
            proof {
                reveal_strlit("|BODYPROJECTION=");
            }
            assert(key@.len() > 0);
            match find_bytes(body.as_slice(), key.as_slice()) {
                Some(pos) => {
                    let end = match first_pos_from(body.as_slice(), pos + 1, 124u8) {
                        Some(i) => pos + 1 + i,
                        None => body.len(),
                    };
                    let mut dup_text = owned("|ARCRESOLUTION=");
                    push_str(&mut dup_text, res);
                    let dup_chars = chars_of(dup_text.as_str());
                    let mut out = vstd::slice::slice_to_vec(&body.as_slice()[0..end]);
                    push_utf8(&mut out, &dup_chars);
                    let rest = &body.as_slice()[end..body.len()];
                    let mut k: usize = 0;
                    let ghost mid = out@;
                    while k < rest.len()
                        invariant
                            k <= rest@.len(),
                            out@ == mid + rest@.take(k as int),
                        decreases rest@.len() - k,
                    {
                        out.push(rest[k]);
                        k += 1;
                        assert(out@ =~= mid + rest@.take(k as int));
                    }
                    assert(rest@.take(rest@.len() as int) =~= rest@);
                    assert(out@ =~= body_block_text(params@));
                    out
                },
                None => body,
            }
        },
        None => body,
    }
}

/// The body Altium-style writers produce: the prefix (on the layer the
/// `V7_LAYER` name gives), five zero bytes, the parameter block (NUL
/// terminated) and the outline.
pub open spec fn fresh_body(s: BodyShape, layer_name: Seq<char>, e: Entries) -> Seq<u8> {
    spec_common_prefix_bytes(layer_byte_for_name(layer_name), body_flag_bits(s), s.net_index as i32, s.component_index)
        + crate::bytes::le32(0) + seq![0u8] + record_bytes(body_block_text(e) + seq![0u8]) + vertex_list_bytes(
        s.outline@,
    )
}

/// Appends a component-body record: its body as a length-prefixed block.
pub fn write_component_body(out: &mut Vec<u8>, s: &BodyShape, layer_name: &str, params: &ParameterMap)
    ensures
        final(out)@ == old(out)@ + record_bytes(fresh_body(*s, layer_name@, params@)),
{
    let mut b: Vec<u8> = Vec::new();
    let layer = layer_name_to_byte(layer_name);
    write_common_prefix_full(&mut b, layer, body_flags(s), s.net_index as i32, s.component_index);
    push_u32(&mut b, 0);
    b.push(0u8);
    let mut text = body_block_bytes(params);
    text.push(0u8);
    push_record(&mut b, text.as_slice());
    push_vertex_list(&mut b, s.outline.as_slice());
    assert(b@ =~= fresh_body(*s, layer_name@, params@));
    push_record(out, b.as_slice());
}

/// Reading back a body written fresh gives the layer its layer name stands
/// for, its net, owner, header flags and outline, and the parameters it was
/// written with, when the owner index fits its word, the extra flag bits lie
/// outside the modelled ones, the outline's count fits a `u32`, and the
/// parameters survive a block and hold no `ARCRESOLUTION` (whose value the
/// writer repeats in a second entry).
#[verifier::spinoff_prover]
#[verifier::rlimit(40)]
pub proof fn lemma_fresh_body_round_trip(s: BodyShape, layer_name: Seq<char>, e: Entries, back: BodyShape)
    requires
        -1 <= s.component_index <= 0xFFFE,
        crate::primitive_io::extra_bits(s.flags_extra) == s.flags_extra,
        s.outline@.len() < 0x1_0000_0000,
        crate::region_io::params_block_safe(e),
        map_get(e, "ARCRESOLUTION"@) is None,
        block_bytes(e, '|' as u8).len() + 1 < 0x1_0000_0000,
        body_shape_from(back, fresh_body(s, layer_name, e)),
    ensures
        body_complete(fresh_body(s, layer_name, e)),
        body_params_of(fresh_body(s, layer_name, e)) == e,
        back.layer == layer_byte_for_name(layer_name) as i32,
        back.net_index == s.net_index,
        back.component_index == s.component_index,
        back.is_locked == s.is_locked,
        back.is_tenting_top == s.is_tenting_top,
        back.is_tenting_bottom == s.is_tenting_bottom,
        back.is_keepout == s.is_keepout,
        back.flags_extra == s.flags_extra,
        back.outline@ == s.outline@,
{
    let t0 = block_bytes(e, '|' as u8);
    let t = body_block_text(e);
    assert(t == (if t0.len() > 0 && t0[0] == 124u8 { t0.skip(1) } else { t0 }));
    let body = fresh_body(s, layer_name, e);
    let bits = body_flag_bits(s);
    let lb = layer_byte_for_name(layer_name);
    let pre = spec_common_prefix_bytes(lb, bits, s.net_index as i32, s.component_index);
    let v = vertex_list_bytes(s.outline@);
    let blk = t + seq![0u8];
    assert(body =~= pre + crate::bytes::le32(0) + seq![0u8] + record_bytes(blk) + v);
    let l: int = blk.len() as int;
    crate::bytes::lemma_le32_round_trip(l);
    assert((blk.len() as u32) as int == l);
    assert(body.subrange(18, 22) =~= crate::bytes::le32(l));
    assert(u32_le(body, 18) == u32_le(crate::bytes::le32(l), 0));
    let g = 22 + l;
    assert(body_geometry_start(body) == g);
    assert(body.subrange(22, g) =~= blk);
    assert(body.subrange(g, body.len() as int) =~= v);
    crate::region_io::lemma_block_no_nul(e);
    assert forall|i: int| 0 <= i < t.len() implies t[i] != 0u8 by {
        if t0.len() > 0 && t0[0] == 124u8 {
            assert(t[i] == t0[i + 1]);
        }
    }
    crate::parameter::lemma_first_pos_at(t, 0u8, seq![]);
    assert(t.push(0u8) + seq![] =~= blk);
    assert(before_nul(blk) =~= t);
    assert(forall|i: int| 0 <= i < e.len() ==> crate::parameter::block_safe_name(#[trigger] e[i].0, '|' as u8)
        && crate::parameter::block_safe_value(e[i].1, '|' as u8));
    crate::parameter::lemma_block_round_trip(e, 124u8);
    if t0.len() > 0 && t0[0] == 124u8 {
        crate::parameter::lemma_parse_block_skip_sep(t0, 124u8);
    }
    crate::region_geometry::lemma_vertex_list_round_trip(body, g, s.outline@);
    crate::binary::lemma_common_prefix_round_trip(lb, bits, s.net_index as i32, s.component_index);
    assert forall|k: int| 0 <= k < 13 implies body[k] == pre[k] by {
        assert(body.subrange(0, 13)[k] == body[k]);
    }
    assert(body.subrange(0, 13) =~= pre);
    assert(spec_common_prefix(body, 0) == spec_common_prefix(pre, 0));
    crate::shape_io::lemma_shape_flags(s.is_locked, s.is_tenting_top, s.is_tenting_bottom, s.is_keepout, s.flags_extra, false);
}

proof fn lemma_exact_get_some(e: Entries, k: Seq<char>)
    ensures
        exact_get(e, k) is Some <==> exists|i: int| 0 <= i < e.len() && #[trigger] e[i].0 == k,
    decreases e.len(),
{
    if e.len() > 0 {
        lemma_exact_get_some(e.skip(1), k);
        if exists|i: int| 0 <= i < e.len() && #[trigger] e[i].0 == k {
            let i = choose|i: int| 0 <= i < e.len() && #[trigger] e[i].0 == k;
            if i > 0 {
                assert(e.skip(1)[i - 1] == e[i]);
            }
        }
        if exists|i: int| 0 <= i < e.skip(1).len() && #[trigger] e.skip(1)[i].0 == k {
            let i = choose|i: int| 0 <= i < e.skip(1).len() && #[trigger] e.skip(1)[i].0 == k;
            assert(e[i + 1] == e.skip(1)[i]);
        }
    }
}

proof fn lemma_exact_keys_bound(e: Entries, ks: Seq<Seq<char>>)
    requires
        forall|i: int, j: int| 0 <= i < j < ks.len() ==> #[trigger] ks[i] != #[trigger] ks[j],
        forall|i: int| 0 <= i < ks.len() ==> exact_get(e, #[trigger] ks[i]) is Some,
    ensures
        ks.len() <= e.len(),
    decreases ks.len(),
{
    if ks.len() > 0 {
        let m = ks.len() - 1;
        lemma_exact_get_some(e, ks[m]);
        let p = choose|i: int| 0 <= i < e.len() && #[trigger] e[i].0 == ks[m];
        let e2 = e.remove(p);
        let ks2 = ks.drop_last();
        assert forall|i: int| 0 <= i < ks2.len() implies exact_get(e2, #[trigger] ks2[i]) is Some by {
            assert(ks2[i] == ks[i]);
            lemma_exact_get_some(e, ks[i]);
            let q = choose|q: int| 0 <= q < e.len() && #[trigger] e[q].0 == ks[i];
            assert(q != p);
            let q2 = if q < p { q } else { q - 1 };
            assert(e2[q2] == e[q]);
            lemma_exact_get_some(e2, ks[i]);
        }
        assert forall|i: int, j: int| 0 <= i < j < ks2.len() implies #[trigger] ks2[i] != #[trigger] ks2[j] by {
            assert(ks2[i] == ks[i] && ks2[j] == ks[j]);
        }
        lemma_exact_keys_bound(e2, ks2);
    }
}

proof fn lemma_snap_key_injective(i: nat, j: nat)
    requires
        snap_key(i, 'X') == snap_key(j, 'X'),
    ensures
        i == j,
{
    reveal_strlit("MODEL.S");
    crate::binary::lemma_dec_digits(i);
    crate::binary::lemma_dec_digits(j);
    let a = snap_key(i, 'X');
    let b = snap_key(j, 'X');
    let pl: int = "MODEL.S"@.len() as int;
    assert(a.len() == pl + dec(i).len() + 1);
    assert(b.len() == pl + dec(j).len() + 1);
    assert(dec(i).len() == dec(j).len());
    assert(dec(i) =~= a.subrange(pl, pl + dec(i).len()));
    assert(dec(j) =~= a.subrange(pl, pl + dec(j).len()));
}

/// The snap points copied from `i` on with more room than `fuel` are the
/// same, when the key of point `i + fuel` is absent.
proof fn lemma_snaps_room(e: Entries, x: Entries, i: nat, fuel: nat, more: nat)
    requires
        exact_get(x, snap_key(i + fuel, 'X')) is None,
    ensures
        copy_snaps(e, x, i, fuel) == copy_snaps(e, x, i, fuel + more),
    decreases fuel,
{
    if fuel == 0 {
        assert(i + 0 == i);
    } else if exact_get(x, snap_key(i, 'X')) is Some {
        let e1 = copy_from(copy_from(copy_from(e, x, snap_key(i, 'X')), x, snap_key(i, 'Y')), x, snap_key(i, 'Z'));
        assert(i + 1 + (fuel - 1) == i + fuel);
        lemma_snaps_room(e1, x, i + 1, (fuel - 1) as nat, more);
        assert((fuel + more - 1) as nat == (fuel - 1) as nat + more);
    }
}

/// Copying the snap points never runs out of room: as many points are
/// copied as with any larger bound, because no list of pairs holds the keys
/// of more points than it has entries.
pub proof fn lemma_snaps_never_capped(e: Entries, x: Entries, more: nat)
    ensures
        copy_snaps(e, x, 0, x.len()) == copy_snaps(e, x, 0, x.len() + more),
{
    let n = x.len();
    if exact_get(x, snap_key(n, 'X')) is Some {
        if forall|k: nat| k <= n ==> exact_get(x, #[trigger] snap_key(k, 'X')) is Some {
            let ks = Seq::new(n + 1, |k: int| snap_key(k as nat, 'X'));
            assert forall|a: int, b: int| 0 <= a < b < ks.len() implies #[trigger] ks[a] != #[trigger] ks[b] by {
                if ks[a] == ks[b] {
                    lemma_snap_key_injective(a as nat, b as nat);
                }
            }
            assert forall|a: int| 0 <= a < ks.len() implies exact_get(x, #[trigger] ks[a]) is Some by {
                assert(ks[a] == snap_key(a as nat, 'X'));
            }
            lemma_exact_keys_bound(x, ks);
        }
        let g = choose|k: nat| k <= n && exact_get(x, #[trigger] snap_key(k, 'X')) is None;
        lemma_snaps_gap(e, x, 0, n, g);
    } else {
        lemma_snaps_room(e, x, 0, n, more);
        assert(0 + n == n);
    }
}

/// A gap at point `g` within the bound ends the copy there, whatever the
/// room beyond it.
proof fn lemma_snaps_gap(e: Entries, x: Entries, i: nat, fuel: nat, g: nat)
    requires
        i <= g <= i + fuel,
        exact_get(x, snap_key(g, 'X')) is None,
    ensures
        forall|more: nat| #[trigger] copy_snaps(e, x, i, fuel + more) == copy_snaps(e, x, i, fuel),
    decreases fuel,
{
    assert forall|more: nat| #[trigger] copy_snaps(e, x, i, fuel + more) == copy_snaps(e, x, i, fuel) by {
        if g == i {
        } else if exact_get(x, snap_key(i, 'X')) is Some {
            let e1 = copy_from(copy_from(copy_from(e, x, snap_key(i, 'X')), x, snap_key(i, 'Y')), x, snap_key(i, 'Z'));
            lemma_snaps_gap(e1, x, i + 1, (fuel - 1) as nat, g);
            let f1 = (fuel - 1) as nat;
            assert((fuel + more - 1) as nat == (f1 + more) as nat);
            assert(copy_snaps(e1, x, i + 1, (f1 + more) as nat) == copy_snaps(e1, x, i + 1, f1));
            assert(copy_snaps(e, x, i, fuel + more) == copy_snaps(e1, x, i + 1, (f1 + more) as nat));
            assert(copy_snaps(e, x, i, fuel) == copy_snaps(e1, x, i + 1, f1));
        }
    }
}

} // verus!
