//! Embedded-board references read from their parameter records: the sub
//! document, its placement and array layout, its viewport title, and every
//! parameter no typed field stands for.

use vstd::prelude::*;

use crate::coord::Coord;
use crate::doc_codec::{parse_layer, spec_parse_layer};
use crate::parameter::{map_get, pairs_view, Entries, ParameterMap};
use crate::polygon_io::{bool_or, coord_or, coord_param, flag_or, i32_or, int_or, is_lit, opt_string};
use crate::sorted_entries::{entries_map, sorted_by_name, strictly_sorted};
use crate::text::{owned, to_ascii_upper, upper_seq};

verus! {

/// A reference to another PCB document placed in this one. The rotation and
/// the viewport scale are decimal numbers, kept as written.
pub struct EmbeddedBoard {
    pub document_path: Option<String>,
    pub viewport_title: Option<String>,
    pub title_font_name: Option<String>,
    pub layer: i32,
    pub rotation_text: Option<String>,
    pub scale_text: Option<String>,
    pub mirror_flag: bool,
    pub is_keepout: bool,
    pub polygon_outline: bool,
    pub user_routed: bool,
    pub is_viewport: bool,
    pub viewport_visible: bool,
    pub origin_mode: i32,
    pub col_count: i32,
    pub row_count: i32,
    pub union_index: i32,
    pub title_font_size: i32,
    pub title_font_color: i32,
    pub x_location: Coord,
    pub y_location: Coord,
    pub x1_location: Coord,
    pub y1_location: Coord,
    pub x2_location: Coord,
    pub y2_location: Coord,
    pub col_spacing: Coord,
    pub row_spacing: Coord,
    /// The parameters no typed field stands for, sorted by name.
    pub additional_parameters: Vec<(String, String)>,
}

/// Whether an upper-cased key is one an embedded-board field stands for.
pub open spec fn is_board_key(u: Seq<char>) -> bool {
    ||| u == "DOCUMENTPATH"@ || u == "VIEWPORTTITLE"@ || u == "FONTNAME"@ || u == "LAYER"@
    ||| u == "ROTATION"@ || u == "VIEWPORTSCALE"@ || u == "MIRROR"@ || u == "KEEPOUT"@
    ||| u == "POLYGONOUTLINE"@ || u == "USERROUTED"@ || u == "ISVIEWPORT"@ || u == "VIEWPORTVISIBLE"@
    ||| u == "ORIGINMODE"@ || u == "COLCOUNT"@ || u == "ROWCOUNT"@ || u == "UNIONINDEX"@
    ||| u == "FONTSIZE"@ || u == "FONTCOLOR"@ || u == "X"@ || u == "Y"@
    ||| u == "X1"@ || u == "Y1"@ || u == "X2"@ || u == "Y2"@
    ||| u == "COLSPACING"@ || u == "ROWSPACING"@
}

/// The entries no embedded-board field stands for, in order.
pub open spec fn board_extra(e: Entries) -> Entries
    decreases e.len(),
{
    if e.len() == 0 {
        e
    } else if is_board_key(upper_seq(e.last().0)) {
        board_extra(e.drop_last())
    } else {
        board_extra(e.drop_last()).push(e.last())
    }
}

fn board_key(n: &str) -> (r: bool)
    ensures
        r == is_board_key(upper_seq(n@)),
{
    let u = to_ascii_upper(n);
    is_lit(&u, "DOCUMENTPATH") || is_lit(&u, "VIEWPORTTITLE") || is_lit(&u, "FONTNAME") || is_lit(&u, "LAYER")
        || is_lit(&u, "ROTATION") || is_lit(&u, "VIEWPORTSCALE") || is_lit(&u, "MIRROR") || is_lit(&u, "KEEPOUT")
        || is_lit(&u, "POLYGONOUTLINE") || is_lit(&u, "USERROUTED") || is_lit(&u, "ISVIEWPORT") || is_lit(
        &u,
        "VIEWPORTVISIBLE",
    ) || is_lit(&u, "ORIGINMODE") || is_lit(&u, "COLCOUNT") || is_lit(&u, "ROWCOUNT") || is_lit(&u, "UNIONINDEX")
        || is_lit(&u, "FONTSIZE") || is_lit(&u, "FONTCOLOR") || is_lit(&u, "X") || is_lit(&u, "Y") || is_lit(&u, "X1")
        || is_lit(&u, "Y1") || is_lit(&u, "X2") || is_lit(&u, "Y2") || is_lit(&u, "COLSPACING") || is_lit(
        &u,
        "ROWSPACING",
    )
}

fn board_extra_params(params: &ParameterMap) -> (r: Vec<(String, String)>)
    ensures
        strictly_sorted(pairs_view(r@)),
        entries_map(pairs_view(r@)) == entries_map(board_extra(params@)),
{
    let es = params.entries();
    let mut v: Vec<(String, String)> = Vec::new();
    let mut i: usize = 0;
    while i < es.len()
        invariant
            i <= es@.len(),
            pairs_view(es@) == params@,
            pairs_view(v@) == board_extra(pairs_view(es@).take(i as int)),
        decreases es@.len() - i,
    {
        let ghost e = pairs_view(es@);
        assert(e.take(i + 1).drop_last() =~= e.take(i as int));
        assert(e.take(i + 1).last() == e[i as int]);
        assert(e[i as int] == (es@[i as int].0@, es@[i as int].1@));
        if !board_key(es[i].0.as_str()) {
            let ghost before = v@;
            v.push((owned(es[i].0.as_str()), owned(es[i].1.as_str())));
            assert(pairs_view(v@) =~= pairs_view(before).push(e[i as int]));
        }
        i += 1;
    }
    assert(pairs_view(es@).take(es@.len() as int) =~= pairs_view(es@));
    sorted_by_name(&v)
}

/// An optional text field: the value under `key` when present.
pub open spec fn text_from(t: Option<String>, e: Entries, key: Seq<char>) -> bool {
    match t {
        Some(s) => map_get(e, key) == Some(s@),
        None => map_get(e, key) is None,
    }
}

/// The embedded board a parameter record describes.
pub open spec fn embedded_board_from(b: EmbeddedBoard, e: Entries) -> bool {
    &&& text_from(b.document_path, e, "DOCUMENTPATH"@)
    &&& text_from(b.viewport_title, e, "VIEWPORTTITLE"@)
    &&& text_from(b.title_font_name, e, "FONTNAME"@)
    &&& b.layer == (match map_get(e, "LAYER"@) {
        Some(v) => spec_parse_layer(v),
        None => 0,
    })
    &&& text_from(b.rotation_text, e, "ROTATION"@)
    &&& text_from(b.scale_text, e, "VIEWPORTSCALE"@)
    &&& b.mirror_flag == bool_or(e, "MIRROR"@, false)
    &&& b.is_keepout == bool_or(e, "KEEPOUT"@, false)
    &&& b.polygon_outline == bool_or(e, "POLYGONOUTLINE"@, false)
    &&& b.user_routed == bool_or(e, "USERROUTED"@, false)
    &&& b.is_viewport == bool_or(e, "ISVIEWPORT"@, false)
    &&& b.viewport_visible == bool_or(e, "VIEWPORTVISIBLE"@, false)
    &&& b.origin_mode == i32_or(e, "ORIGINMODE"@, 0)
    &&& b.col_count == i32_or(e, "COLCOUNT"@, 0)
    &&& b.row_count == i32_or(e, "ROWCOUNT"@, 0)
    &&& b.union_index == i32_or(e, "UNIONINDEX"@, 0)
    &&& b.title_font_size == i32_or(e, "FONTSIZE"@, 0)
    &&& b.title_font_color == i32_or(e, "FONTCOLOR"@, 0)
    &&& b.x_location.raw == coord_or(e, "X"@, 0)
    &&& b.y_location.raw == coord_or(e, "Y"@, 0)
    &&& b.x1_location.raw == coord_or(e, "X1"@, 0)
    &&& b.y1_location.raw == coord_or(e, "Y1"@, 0)
    &&& b.x2_location.raw == coord_or(e, "X2"@, 0)
    &&& b.y2_location.raw == coord_or(e, "Y2"@, 0)
    &&& b.col_spacing.raw == coord_or(e, "COLSPACING"@, 0)
    &&& b.row_spacing.raw == coord_or(e, "ROWSPACING"@, 0)
    &&& strictly_sorted(pairs_view(b.additional_parameters@))
    &&& entries_map(pairs_view(b.additional_parameters@)) == entries_map(board_extra(e))
}

/// Decodes an embedded-board parameter record.
pub fn embedded_board_from_params(params: &ParameterMap) -> (b: EmbeddedBoard)
    ensures
        embedded_board_from(b, params@),
{
    let layer = match params.get("LAYER") {
        Some(v) => parse_layer(v),
        None => 0,
    };
    EmbeddedBoard {
        document_path: opt_string(params, "DOCUMENTPATH"),
        viewport_title: opt_string(params, "VIEWPORTTITLE"),
        title_font_name: opt_string(params, "FONTNAME"),
        layer,
        rotation_text: opt_string(params, "ROTATION"),
        scale_text: opt_string(params, "VIEWPORTSCALE"),
        mirror_flag: flag_or(params, "MIRROR", false),
        is_keepout: flag_or(params, "KEEPOUT", false),
        polygon_outline: flag_or(params, "POLYGONOUTLINE", false),
        user_routed: flag_or(params, "USERROUTED", false),
        is_viewport: flag_or(params, "ISVIEWPORT", false),
        viewport_visible: flag_or(params, "VIEWPORTVISIBLE", false),
        origin_mode: int_or(params, "ORIGINMODE", 0),
        col_count: int_or(params, "COLCOUNT", 0),
        row_count: int_or(params, "ROWCOUNT", 0),
        union_index: int_or(params, "UNIONINDEX", 0),
        title_font_size: int_or(params, "FONTSIZE", 0),
        title_font_color: int_or(params, "FONTCOLOR", 0),
        x_location: coord_param(params, "X", 0),
        y_location: coord_param(params, "Y", 0),
        x1_location: coord_param(params, "X1", 0),
        y1_location: coord_param(params, "Y1", 0),
        x2_location: coord_param(params, "X2", 0),
        y2_location: coord_param(params, "Y2", 0),
        col_spacing: coord_param(params, "COLSPACING", 0),
        row_spacing: coord_param(params, "ROWSPACING", 0),
        additional_parameters: board_extra_params(params),
    }
}

} // verus!
