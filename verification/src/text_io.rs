//! Binary text records: the fixed stroke-font part, the TrueType extension
//! that follows it in longer records, the barcode and snap-point tail of the
//! full-size record, and the Pascal string that carries the text itself.

use vstd::prelude::*;

use crate::binary::{read_common_prefix, spec_common_prefix, spec_decode_flags, PrimitiveFlags};
use crate::bytes::{as_signed16, read_i16, read_i32, read_u32, read_u64, u16_le, u32_le, u64_le};
use crate::coord::{Coord, CoordPoint};
use crate::pad_io::pascal_text;
use crate::primitive_io::{extra_bits, i32_at, spec_v7_layer_id, v7_layer_id, ReadError};
use crate::text::{chars_of, owned};

verus! {

/// How a text is drawn.
#[derive(Debug, Clone, Copy, PartialEq, Eq, Structural)]
pub enum PcbTextKind {
    Stroke,
    TrueType,
    BarCode,
}

/// The kind a stored kind byte names, if any.
pub open spec fn spec_text_kind(code: u8) -> Option<PcbTextKind> {
    if code == 0 {
        Some(PcbTextKind::Stroke)
    } else if code == 1 {
        Some(PcbTextKind::TrueType)
    } else if code == 2 {
        Some(PcbTextKind::BarCode)
    } else {
        None
    }
}

pub fn text_kind_from_code(code: u8) -> (k: Option<PcbTextKind>)
    ensures
        k == spec_text_kind(code),
{
    if code == 0 {
        Some(PcbTextKind::Stroke)
    } else if code == 1 {
        Some(PcbTextKind::TrueType)
    } else if code == 2 {
        Some(PcbTextKind::BarCode)
    } else {
        None
    }
}

/// A PCB text as its binary record stores it. The stroke-font number, the
/// autoposition byte and the rotation are kept as stored; the two font names
/// are kept as the fixed-size byte fields the record holds.
pub struct Text {
    pub text: String,
    pub location: CoordPoint,
    pub height: Coord,
    pub stroke_width: Coord,
    /// The IEEE-754 bits of the rotation in degrees.
    pub rotation_bits: u64,
    pub layer: i32,
    /// Index into the document's `Nets6` table; `0` means "no net".
    pub net_index: u16,
    /// Index into the document's `Components6` table; `-1` for free text.
    pub component_index: i32,
    pub is_mirrored: bool,
    /// The stroke-font number as stored.
    pub stroke_font_code: i16,
    pub text_kind: PcbTextKind,
    pub is_truetype: bool,
    pub font_bold: bool,
    pub font_italic: bool,
    /// The font-name field of the TrueType extension.
    pub font_name_raw: Option<Vec<u8>>,
    pub is_inverted: bool,
    pub inverted_border: Coord,
    pub use_inverted_rectangle: bool,
    pub inverted_rect_width: Coord,
    pub inverted_rect_height: Coord,
    /// The autoposition byte: the justification of the text and of its
    /// inverted rectangle.
    pub justification_code: u8,
    pub inverted_rect_text_offset: Coord,
    pub wide_string_index: i32,
    pub is_comment: bool,
    pub is_designator: bool,
    pub union_index: i32,
    pub bar_code_full_width: Coord,
    pub bar_code_full_height: Coord,
    pub bar_code_x_margin: Coord,
    pub bar_code_y_margin: Coord,
    pub bar_code_min_width: Coord,
    pub bar_code_kind: i32,
    pub bar_code_render_mode: i32,
    pub bar_code_inverted: bool,
    /// The barcode font-name field of the full-size tail.
    pub bar_code_font_name_raw: Option<Vec<u8>>,
    pub bar_code_show_text: bool,
    pub is_frame: bool,
    pub is_offset_border: bool,
    pub justification_valid: bool,
    pub advance_snapping: bool,
    pub snap_point_x: Coord,
    pub snap_point_y: Coord,
    pub is_locked: bool,
    pub is_tenting_top: bool,
    pub is_tenting_bottom: bool,
    pub is_keepout: bool,
    /// Header flag bits no typed field stands for.
    pub flags_extra: u16,
    /// The V7 layer id of the tail when it differs from the one `layer`
    /// gives; zero otherwise.
    pub layer_v7: u32,
}

/// Bytes of the stroke-font part of a text record.
pub const TEXT_BASE_LEN: usize = 40;

/// Bytes up to the end of the TrueType extension.
pub const TEXT_EXTENSION_END: usize = 137;

/// Block sizes from which a record carries the TrueType extension.
pub const TEXT_EXTENSION_MIN: usize = 123;

/// Size of the full record with its barcode and snap-point tail.
pub const TEXT_FULL_LEN: usize = 252;

/// Whether a text record body can be decoded: the stroke-font part is whole,
/// and so is the TrueType extension when the size announces one.
pub open spec fn text_complete(body: Seq<u8>) -> bool {
    &&& body.len() >= 40
    &&& body.len() >= 123 ==> body.len() >= 137
}

/// The text a record shows: the wide string its index names, when in range,
/// else the Pascal string after the record.
pub open spec fn text_value(body: Seq<u8>, ascii_block: Seq<u8>, wide: Seq<Seq<char>>) -> Seq<char> {
    let idx: int = if body.len() >= 123 { i32_at(body, 115) as int } else { -1 };
    if 0 <= idx < wide.len() {
        wide[idx]
    } else {
        pascal_text(ascii_block)
    }
}

/// The fields of the stroke-font part and of the record header.
pub open spec fn text_base_from(t: Text, body: Seq<u8>) -> bool {
    let cp = spec_common_prefix(body, 0);
    let f = spec_decode_flags(cp.flags);
    &&& t.location.x.raw == i32_at(body, 13) && t.location.y.raw == i32_at(body, 17)
    &&& t.height.raw == i32_at(body, 21)
    &&& t.stroke_font_code as int == as_signed16(u16_le(body, 25))
    &&& t.rotation_bits as int == u64_le(body, 27)
    &&& t.is_mirrored == (body[35] != 0)
    &&& t.stroke_width.raw == i32_at(body, 36)
    &&& t.layer == cp.layer as i32
    &&& t.net_index as int == (if cp.net_index >= 0 { cp.net_index as int } else { 0 })
    &&& t.component_index == cp.component_index
    &&& t.is_locked == f.is_locked && t.is_tenting_top == f.is_tenting_top
    &&& t.is_tenting_bottom == f.is_tenting_bottom && t.is_keepout == f.is_keepout
    &&& t.flags_extra == extra_bits(cp.flags)
}

/// The fields of the TrueType extension, or their defaults without one.
pub open spec fn text_extension_from(t: Text, body: Seq<u8>) -> bool {
    if body.len() >= 123 {
        &&& t.is_comment == (body[40] != 0) && t.is_designator == (body[41] != 0)
        &&& t.font_bold == (body[44] != 0) && t.font_italic == (body[45] != 0)
        &&& t.font_name_raw matches Some(n) && n@ == body.subrange(46, 110)
        &&& t.is_inverted == (body[110] != 0)
        &&& t.inverted_border.raw == i32_at(body, 111)
        &&& t.wide_string_index == i32_at(body, 115)
        &&& t.union_index == i32_at(body, 119)
        &&& t.use_inverted_rectangle == (body[123] != 0)
        &&& t.inverted_rect_width.raw == i32_at(body, 124)
        &&& t.inverted_rect_height.raw == i32_at(body, 128)
        &&& t.justification_code == body[132]
        &&& t.inverted_rect_text_offset.raw == i32_at(body, 133)
    } else {
        &&& !t.is_comment && !t.is_designator && !t.font_bold && !t.font_italic
        &&& t.font_name_raw is None
        &&& !t.is_inverted && t.inverted_border.raw == 0
        &&& t.wide_string_index == -1 && t.union_index == 0
        &&& !t.use_inverted_rectangle
        &&& t.inverted_rect_width.raw == 0 && t.inverted_rect_height.raw == 0
        &&& t.justification_code == 0 && t.inverted_rect_text_offset.raw == 0
    }
}

/// The kind: the tail's byte when it names one, else the extension's byte
/// when it names one, else stroke.
pub open spec fn text_kind_of(body: Seq<u8>) -> PcbTextKind {
    let first = if body.len() >= 123 {
        match spec_text_kind(body[43]) {
            Some(k) => k,
            None => PcbTextKind::Stroke,
        }
    } else {
        PcbTextKind::Stroke
    };
    if body.len() >= 252 {
        match spec_text_kind(body[160]) {
            Some(k) => k,
            None => first,
        }
    } else {
        first
    }
}

/// The fields of the full-size tail, or their defaults without one.
pub open spec fn text_tail_from(t: Text, body: Seq<u8>) -> bool {
    if body.len() >= 252 {
        let v7 = u32_le(body, 226);
        &&& t.bar_code_full_width.raw == i32_at(body, 137)
        &&& t.bar_code_full_height.raw == i32_at(body, 141)
        &&& t.bar_code_x_margin.raw == i32_at(body, 145)
        &&& t.bar_code_y_margin.raw == i32_at(body, 149)
        &&& t.bar_code_min_width.raw == i32_at(body, 153)
        &&& t.bar_code_kind == body[157] as i32
        &&& t.bar_code_render_mode == body[158] as i32
        &&& t.bar_code_inverted == (body[159] != 0)
        &&& t.bar_code_font_name_raw matches Some(n) && n@ == body.subrange(161, 225)
        &&& t.bar_code_show_text == (body[225] != 0)
        &&& t.is_frame == (body[230] != 0)
        &&& t.is_offset_border == (body[231] != 0)
        &&& t.justification_valid == (body[240] != 0)
        &&& t.advance_snapping == (body[241] != 0)
        &&& t.snap_point_x.raw == i32_at(body, 244)
        &&& t.snap_point_y.raw == i32_at(body, 248)
        &&& t.layer_v7 as int == (if v7 == spec_v7_layer_id(t.layer) as int { 0 } else { v7 })
    } else {
        &&& t.bar_code_full_width.raw == 0 && t.bar_code_full_height.raw == 0
        &&& t.bar_code_x_margin.raw == 0 && t.bar_code_y_margin.raw == 0
        &&& t.bar_code_min_width.raw == 0
        &&& t.bar_code_kind == 0 && t.bar_code_render_mode == 0
        &&& !t.bar_code_inverted
        &&& t.bar_code_font_name_raw is None
        &&& !t.bar_code_show_text && !t.is_frame && !t.is_offset_border
        &&& !t.justification_valid && !t.advance_snapping
        &&& t.snap_point_x.raw == 0 && t.snap_point_y.raw == 0
        &&& t.layer_v7 == 0
    }
}

/// The text a complete record body, the Pascal string block after it and
/// the wide-string table describe.
pub open spec fn text_read_from(t: Text, body: Seq<u8>, ascii_block: Seq<u8>, wide: Seq<Seq<char>>) -> bool {
    &&& t.text@ == text_value(body, ascii_block, wide)
    &&& text_base_from(t, body)
    &&& text_extension_from(t, body)
    &&& t.text_kind == text_kind_of(body)
    &&& t.is_truetype == (text_kind_of(body) == PcbTextKind::TrueType)
    &&& text_tail_from(t, body)
}

fn copy_range(b: &[u8], lo: usize, hi: usize) -> (r: Vec<u8>)
    requires
        lo <= hi <= b@.len(),
    ensures
        r@ == b@.subrange(lo as int, hi as int),
{
    let mut r: Vec<u8> = Vec::new();
    let mut i = lo;
    while i < hi
        invariant
            lo <= i <= hi <= b@.len(),
            r@ == b@.subrange(lo as int, i as int),
        decreases hi - i,
    {
        r.push(b[i]);
        i += 1;
        assert(r@ =~= b@.subrange(lo as int, i as int));
    }
    r
}

fn byte_flag(b: &[u8], p: usize) -> (r: bool)
    requires
        p < b@.len(),
    ensures
        r == (b@[p as int] != 0),
{
    b[p] != 0
}

/// Decodes a text record: `body` is the record block, `ascii_block` the
/// Pascal string block after it, `wide` the document's wide-string table.
/// `None` for an empty body or an empty text; an error when the body ends
/// inside the stroke-font part or inside an announced TrueType extension.
pub fn read_text(body: &[u8], ascii_block: &[u8], wide: &[String]) -> (r: Result<Option<Text>, ReadError>)
    ensures
        body@.len() == 0 ==> r matches Ok(None),
        body@.len() > 0 && !text_complete(body@) ==> r == Err::<Option<Text>, ReadError>(ReadError::Truncated),
        body@.len() > 0 && text_complete(body@) ==> match r {
            Ok(Some(t)) => text_value(body@, ascii_block@, wide@.map_values(|s: String| s@)).len() > 0
                && text_read_from(t, body@, ascii_block@, wide@.map_values(|s: String| s@)),
            Ok(None) => text_value(body@, ascii_block@, wide@.map_values(|s: String| s@)).len() == 0,
            Err(_) => false,
        },
{
    let n = body.len();
    if n == 0 {
        return Ok(None);
    }
    if n < TEXT_BASE_LEN || (n >= TEXT_EXTENSION_MIN && n < TEXT_EXTENSION_END) {
        return Err(ReadError::Truncated);
    }
    let ghost ws = wide@.map_values(|s: String| s@);
    let cp = read_common_prefix(body, 0).unwrap();
    let x = read_i32(body, 13).unwrap();
    let y = read_i32(body, 17).unwrap();
    let height = read_i32(body, 21).unwrap();
    let stroke_font = read_i16(body, 25).unwrap();
    let rotation = read_u64(body, 27).unwrap();
    let mirrored = byte_flag(body, 35);
    let stroke_width = read_i32(body, 36).unwrap();

    let has_ext = n >= TEXT_EXTENSION_MIN;
    let mut kind = PcbTextKind::Stroke;
    let mut is_comment = false;
    let mut is_designator = false;
    let mut bold = false;
    let mut italic = false;
    let mut font_name: Option<Vec<u8>> = None;
    let mut inverted = false;
    let mut border: i32 = 0;
    let mut wide_index: i32 = -1;
    let mut union_index: i32 = 0;
    let mut rect = false;
    let mut rect_w: i32 = 0;
    let mut rect_h: i32 = 0;
    let mut just: u8 = 0;
    let mut rect_offset: i32 = 0;
    if has_ext {
        is_comment = byte_flag(body, 40);
        is_designator = byte_flag(body, 41);
        kind = match text_kind_from_code(body[43]) {
            Some(k) => k,
            None => PcbTextKind::Stroke,
        };
        bold = byte_flag(body, 44);
        italic = byte_flag(body, 45);
        font_name = Some(copy_range(body, 46, 110));
        inverted = byte_flag(body, 110);
        border = read_i32(body, 111).unwrap();
        wide_index = read_i32(body, 115).unwrap();
        union_index = read_i32(body, 119).unwrap();
        rect = byte_flag(body, 123);
        rect_w = read_i32(body, 124).unwrap();
        rect_h = read_i32(body, 128).unwrap();
        just = body[132];
        rect_offset = read_i32(body, 133).unwrap();
    }

    let has_tail = n >= TEXT_FULL_LEN;
    let mut bc_w: i32 = 0;
    let mut bc_h: i32 = 0;
    let mut bc_xm: i32 = 0;
    let mut bc_ym: i32 = 0;
    let mut bc_min: i32 = 0;
    let mut bc_kind: i32 = 0;
    let mut bc_mode: i32 = 0;
    let mut bc_inv = false;
    let mut bc_font: Option<Vec<u8>> = None;
    let mut bc_show = false;
    let mut v7: u32 = 0;
    let mut frame = false;
    let mut offset_border = false;
    let mut just_valid = false;
    let mut snapping = false;
    let mut snap_x: i32 = 0;
    let mut snap_y: i32 = 0;
    if has_tail {
        bc_w = read_i32(body, 137).unwrap();
        bc_h = read_i32(body, 141).unwrap();
        bc_xm = read_i32(body, 145).unwrap();
        bc_ym = read_i32(body, 149).unwrap();
        bc_min = read_i32(body, 153).unwrap();
        bc_kind = body[157] as i32;
        bc_mode = body[158] as i32;
        bc_inv = byte_flag(body, 159);
        kind = match text_kind_from_code(body[160]) {
            Some(k) => k,
            None => kind,
        };
        bc_font = Some(copy_range(body, 161, 225));
        bc_show = byte_flag(body, 225);
        v7 = read_u32(body, 226).unwrap();
        frame = byte_flag(body, 230);
        offset_border = byte_flag(body, 231);
        just_valid = byte_flag(body, 240);
        snapping = byte_flag(body, 241);
        snap_x = read_i32(body, 244).unwrap();
        snap_y = read_i32(body, 248).unwrap();
    }

    let value: String = if 0 <= wide_index && (wide_index as usize) < wide.len() {
        assert(ws[wide_index as int] == wide@[wide_index as int]@);
        owned(wide[wide_index as usize].as_str())
    } else {
        crate::pad_io::pascal_text_exec(ascii_block)
    };
    if chars_of(value.as_str()).len() == 0 {
        return Ok(None);
    }

    let layer = cp.layer as i32;
    let net_index: u16 = if cp.net_index >= 0 {
        cp.net_index as u16
    } else {
        0
    };
    let derived = v7_layer_id(layer);
    let layer_v7: u32 = if v7 == derived {
        0
    } else {
        v7
    };
    let pf = PrimitiveFlags::decode(cp.flags);
    let is_truetype = kind == PcbTextKind::TrueType;
    let t = Text {
        text: value,
        location: CoordPoint::new(Coord::from_raw(x), Coord::from_raw(y)),
        height: Coord::from_raw(height),
        stroke_width: Coord::from_raw(stroke_width),
        rotation_bits: rotation,
        layer,
        net_index,
        component_index: cp.component_index,
        is_mirrored: mirrored,
        stroke_font_code: stroke_font,
        text_kind: kind,
        is_truetype,
        font_bold: bold,
        font_italic: italic,
        font_name_raw: font_name,
        is_inverted: inverted,
        inverted_border: Coord::from_raw(border),
        use_inverted_rectangle: rect,
        inverted_rect_width: Coord::from_raw(rect_w),
        inverted_rect_height: Coord::from_raw(rect_h),
        justification_code: just,
        inverted_rect_text_offset: Coord::from_raw(rect_offset),
        wide_string_index: wide_index,
        is_comment,
        is_designator,
        union_index,
        bar_code_full_width: Coord::from_raw(bc_w),
        bar_code_full_height: Coord::from_raw(bc_h),
        bar_code_x_margin: Coord::from_raw(bc_xm),
        bar_code_y_margin: Coord::from_raw(bc_ym),
        bar_code_min_width: Coord::from_raw(bc_min),
        bar_code_kind: bc_kind,
        bar_code_render_mode: bc_mode,
        bar_code_inverted: bc_inv,
        bar_code_font_name_raw: bc_font,
        bar_code_show_text: bc_show,
        is_frame: frame,
        is_offset_border: offset_border,
        justification_valid: just_valid,
        advance_snapping: snapping,
        snap_point_x: Coord::from_raw(snap_x),
        snap_point_y: Coord::from_raw(snap_y),
        is_locked: pf.is_locked,
        is_tenting_top: pf.is_tenting_top,
        is_tenting_bottom: pf.is_tenting_bottom,
        is_keepout: pf.is_keepout,
        flags_extra: cp.flags & 0xFC19u16,
        layer_v7,
    };
    Ok(Some(t))
}

} // verus!
