//! Writing embedded boards and components back into parameter records. A
//! record's decimal numbers (rotations, scales) are given to the writers
//! already formatted.

use vstd::prelude::*;

use crate::body_io::flag_text;
use crate::component_io::Component;
use crate::coord::Coord;
use crate::doc_codec::{format_mil_coord, layer_byte_to_name, spec_doc_layer_name, spec_mil_coord};
use crate::embedded_io::EmbeddedBoard;
use crate::polygon_io::{vkey, vkey_string, Polygon};
use crate::parameter::{map_get, map_insert, map_insert_all, pairs_view, Entries, ParameterMap};
use crate::text::{chars_of, dec_int, dec_string_signed};

verus! {

// ---------------------------------------------------------------------------
// Single entries

/// `e` with an optional text inserted when it is there and not empty.
pub open spec fn insert_opt(e: Entries, key: Seq<char>, v: Option<String>) -> Entries {
    match v {
        Some(s) => if s@.len() > 0 {
            map_insert(e, key, s@)
        } else {
            e
        },
        None => e,
    }
}

/// `e` with an optional text inserted when it is there, even empty.
pub open spec fn insert_some(e: Entries, key: Seq<char>, v: Option<String>) -> Entries {
    match v {
        Some(s) => map_insert(e, key, s@),
        None => e,
    }
}

pub(crate) fn put_opt(params: &mut ParameterMap, key: &str, v: &Option<String>)
    ensures
        final(params)@ == insert_opt(old(params)@, key@, *v),
        old(params).wf() ==> final(params).wf(),
{
    if let Some(s) = v {
        if chars_of(s.as_str()).len() > 0 {
            params.insert(key, s.as_str());
        }
    }
}

pub(crate) fn put_some(params: &mut ParameterMap, key: &str, v: &Option<String>)
    ensures
        final(params)@ == insert_some(old(params)@, key@, *v),
        old(params).wf() ==> final(params).wf(),
{
    if let Some(s) = v {
        params.insert(key, s.as_str());
    }
}

pub(crate) fn put_flag(params: &mut ParameterMap, key: &str, b: bool)
    ensures
        final(params)@ == map_insert(old(params)@, key@, flag_text(b)),
        old(params).wf() ==> final(params).wf(),
{
    if b {
        params.insert(key, "TRUE");
    } else {
        params.insert(key, "FALSE");
    }
}

pub(crate) fn put_int(params: &mut ParameterMap, key: &str, n: i64)
    ensures
        final(params)@ == map_insert(old(params)@, key@, dec_int(n as int)),
        old(params).wf() ==> final(params).wf(),
{
    let s = dec_string_signed(n);
    params.insert(key, s.as_str());
}

pub(crate) fn put_coord(params: &mut ParameterMap, key: &str, c: Coord)
    ensures
        final(params)@ == map_insert(old(params)@, key@, spec_mil_coord(c.raw)),
        old(params).wf() ==> final(params).wf(),
{
    let s = format_mil_coord(c);
    params.insert(key, s.as_str());
}

// ---------------------------------------------------------------------------
// Embedded boards

/// What writing an embedded board into a map gives: the selection and lock
/// defaults, the additional parameters, then the typed fields (later
/// entries win). `rotation` and `scale` are the formatted rotation and the
/// formatted viewport scale, `None` for a zero scale.
pub open spec fn spec_embedded_to_params(
    b: EmbeddedBoard,
    rotation: Seq<char>,
    scale: Option<String>,
    e: Entries,
) -> Entries {
    let e = map_insert(e, "SELECTION"@, "FALSE"@);
    let e = map_insert(e, "LOCKED"@, "FALSE"@);
    let e = map_insert_all(e, pairs_view(b.additional_parameters@));
    let e = map_insert(e, "POLYGONOUTLINE"@, flag_text(b.polygon_outline));
    let e = map_insert(e, "USERROUTED"@, flag_text(b.user_routed));
    let e = map_insert(e, "KEEPOUT"@, flag_text(b.is_keepout));
    let e = map_insert(e, "MIRROR"@, flag_text(b.mirror_flag));
    let e = map_insert(e, "LAYER"@, spec_doc_layer_name(b.layer));
    let e = map_insert(e, "UNIONINDEX"@, dec_int(b.union_index as int));
    let e = map_insert(e, "ORIGINMODE"@, dec_int(b.origin_mode as int));
    let e = map_insert(e, "COLCOUNT"@, dec_int(b.col_count as int));
    let e = map_insert(e, "ROWCOUNT"@, dec_int(b.row_count as int));
    let e = map_insert(e, "X1"@, spec_mil_coord(b.x1_location.raw));
    let e = map_insert(e, "Y1"@, spec_mil_coord(b.y1_location.raw));
    let e = map_insert(e, "X2"@, spec_mil_coord(b.x2_location.raw));
    let e = map_insert(e, "Y2"@, spec_mil_coord(b.y2_location.raw));
    let e = map_insert(e, "X"@, spec_mil_coord(b.x_location.raw));
    let e = map_insert(e, "Y"@, spec_mil_coord(b.y_location.raw));
    let e = map_insert(e, "COLSPACING"@, spec_mil_coord(b.col_spacing.raw));
    let e = map_insert(e, "ROWSPACING"@, spec_mil_coord(b.row_spacing.raw));
    let e = map_insert(e, "ROTATION"@, rotation);
    let e = map_insert(e, "ISVIEWPORT"@, flag_text(b.is_viewport));
    let e = map_insert(e, "VIEWPORTVISIBLE"@, flag_text(b.viewport_visible));
    let e = insert_opt(e, "VIEWPORTTITLE"@, b.viewport_title);
    let e = insert_some(e, "VIEWPORTSCALE"@, scale);
    let e = insert_opt(e, "FONTNAME"@, b.title_font_name);
    let e = if b.title_font_size != 0 { map_insert(e, "FONTSIZE"@, dec_int(b.title_font_size as int)) } else { e };
    let e = if b.title_font_color != 0 { map_insert(e, "FONTCOLOR"@, dec_int(b.title_font_color as int)) } else { e };
    insert_opt(e, "DOCUMENTPATH"@, b.document_path)
}

/// Writes an embedded board into a parameter map (see
/// [`spec_embedded_to_params`]).
pub fn embedded_board_to_params(b: &EmbeddedBoard, rotation: &str, scale: &Option<String>, params: &mut ParameterMap)
    ensures
        final(params)@ == spec_embedded_to_params(*b, rotation@, *scale, old(params)@),
        old(params).wf() ==> final(params).wf(),
{
    params.insert("SELECTION", "FALSE");
    params.insert("LOCKED", "FALSE");
    params.insert_all(b.additional_parameters.as_slice());
    put_flag(params, "POLYGONOUTLINE", b.polygon_outline);
    put_flag(params, "USERROUTED", b.user_routed);
    put_flag(params, "KEEPOUT", b.is_keepout);
    put_flag(params, "MIRROR", b.mirror_flag);
    let layer = layer_byte_to_name(b.layer);
    params.insert("LAYER", layer.as_str());
    put_int(params, "UNIONINDEX", b.union_index as i64);
    put_int(params, "ORIGINMODE", b.origin_mode as i64);
    put_int(params, "COLCOUNT", b.col_count as i64);
    put_int(params, "ROWCOUNT", b.row_count as i64);
    put_coord(params, "X1", b.x1_location);
    put_coord(params, "Y1", b.y1_location);
    put_coord(params, "X2", b.x2_location);
    put_coord(params, "Y2", b.y2_location);
    put_coord(params, "X", b.x_location);
    put_coord(params, "Y", b.y_location);
    put_coord(params, "COLSPACING", b.col_spacing);
    put_coord(params, "ROWSPACING", b.row_spacing);
    params.insert("ROTATION", rotation);
    put_flag(params, "ISVIEWPORT", b.is_viewport);
    put_flag(params, "VIEWPORTVISIBLE", b.viewport_visible);
    put_opt(params, "VIEWPORTTITLE", &b.viewport_title);
    put_some(params, "VIEWPORTSCALE", scale);
    put_opt(params, "FONTNAME", &b.title_font_name);
    if b.title_font_size != 0 {
        put_int(params, "FONTSIZE", b.title_font_size as i64);
    }
    if b.title_font_color != 0 {
        put_int(params, "FONTCOLOR", b.title_font_color as i64);
    }
    put_opt(params, "DOCUMENTPATH", &b.document_path);
}

// ---------------------------------------------------------------------------
// Components

/// The legacy `COMPONENTKIND` value of a component kind: the kind itself
/// for the two it knows, else `0`.
pub open spec fn legacy_kind(kind: i32) -> i32 {
    if kind == 1 || kind == 2 {
        kind
    } else {
        0
    }
}

/// The source references of a component, written when set and not empty.
pub open spec fn insert_sources(e: Entries, c: Component) -> Entries {
    let e = insert_opt(e, "SOURCEDESIGNATOR"@, c.source_designator);
    let e = insert_opt(e, "SOURCELIBREFERENCE"@, c.source_lib_reference);
    let e = insert_opt(e, "SOURCECOMPONENTLIBRARY"@, c.source_component_library);
    let e = insert_opt(e, "SOURCEDESCRIPTION"@, c.source_description);
    let e = insert_opt(e, "SOURCEFOOTPRINTLIBRARY"@, c.source_footprint_library);
    let e = insert_opt(e, "SOURCEUNIQUEID"@, c.source_unique_id);
    let e = insert_opt(e, "SOURCEHIERARCHICALPATH"@, c.source_hierarchical_path);
    let e = insert_opt(e, "SOURCECOMPDESIGNITEMID"@, c.source_comp_design_item_id);
    let e = insert_opt(e, "ITEMGUID"@, c.item_guid);
    let e = insert_opt(e, "REVISIONGUID"@, c.item_revision_guid);
    let e = insert_opt(e, "VAULTGUID"@, c.vault_guid);
    let e = insert_opt(e, "UNIQUEID"@, c.unique_id);
    let e = insert_opt(e, "MODELHASH"@, c.model_hash);
    let e = insert_opt(e, "PACKAGESPECIFICHASH"@, c.package_specific_hash);
    insert_opt(e, "DEFAULTPCB3DMODEL"@, c.default_pcb_3d_model)
}

/// The component kind keys: written only for a kind other than standard
/// when neither key is there yet (a record read from a file carries them
/// among its additional parameters).
pub open spec fn insert_kind(e: Entries, kind: i32) -> Entries {
    if kind != 0 && map_get(e, "COMPONENTKIND"@) is None && map_get(e, "COMPONENTKINDVERSION2"@) is None {
        map_insert(
            map_insert(e, "COMPONENTKIND"@, dec_int(legacy_kind(kind) as int)),
            "COMPONENTKINDVERSION2"@,
            dec_int(kind as int),
        )
    } else {
        e
    }
}

/// What writing a component into a map gives: the additional parameters,
/// then the typed fields; switches that default to off only when on, and
/// integers that default to zero only when not zero. `rotation` is the
/// formatted rotation.
pub open spec fn spec_component_to_params(c: Component, rotation: Seq<char>, e: Entries) -> Entries {
    let e = map_insert_all(e, pairs_view(c.additional_parameters@));
    let e = map_insert(e, "PATTERN"@, c.name@);
    let e = insert_some(e, "DESCRIPTION"@, c.description);
    let e = if c.height.raw != 0 { map_insert(e, "HEIGHT"@, spec_mil_coord(c.height.raw)) } else { e };
    let e = insert_some(e, "COMMENT"@, c.comment);
    let e = map_insert(e, "X"@, spec_mil_coord(c.x.raw));
    let e = map_insert(e, "Y"@, spec_mil_coord(c.y.raw));
    let e = map_insert(e, "ROTATION"@, rotation);
    let e = map_insert(e, "LAYER"@, spec_doc_layer_name(c.layer));
    let e = map_insert(e, "COMMENTON"@, flag_text(c.comment_on));
    let e = map_insert(e, "NAMEON"@, flag_text(c.name_on));
    let e = if c.comment_auto_position != 0 {
        map_insert(e, "COMMENTAUTOPOSITION"@, dec_int(c.comment_auto_position as int))
    } else {
        e
    };
    let e = if c.name_auto_position != 0 {
        map_insert(e, "NAMEAUTOPOSITION"@, dec_int(c.name_auto_position as int))
    } else {
        e
    };
    let e = if c.group_num != 0 { map_insert(e, "GROUPNUM"@, dec_int(c.group_num as int)) } else { e };
    let e = if c.channel_offset != 0 { map_insert(e, "CHANNELOFFSET"@, dec_int(c.channel_offset as int)) } else { e };
    let e = if c.lock_strings { map_insert(e, "LOCKSTRINGS"@, "TRUE"@) } else { e };
    let e = insert_kind(e, c.component_kind);
    let e = if !c.enabled { map_insert(e, "ENABLED"@, "FALSE"@) } else { e };
    let e = if c.flipped_on_layer { map_insert(e, "FLIPPEDONLAYER"@, "TRUE"@) } else { e };
    let e = if c.is_bga { map_insert(e, "ISBGA"@, "TRUE"@) } else { e };
    insert_sources(e, c)
}

fn put_sources(params: &mut ParameterMap, c: &Component)
    ensures
        final(params)@ == insert_sources(old(params)@, *c),
        old(params).wf() ==> final(params).wf(),
{
    put_opt(params, "SOURCEDESIGNATOR", &c.source_designator);
    put_opt(params, "SOURCELIBREFERENCE", &c.source_lib_reference);
    put_opt(params, "SOURCECOMPONENTLIBRARY", &c.source_component_library);
    put_opt(params, "SOURCEDESCRIPTION", &c.source_description);
    put_opt(params, "SOURCEFOOTPRINTLIBRARY", &c.source_footprint_library);
    put_opt(params, "SOURCEUNIQUEID", &c.source_unique_id);
    put_opt(params, "SOURCEHIERARCHICALPATH", &c.source_hierarchical_path);
    put_opt(params, "SOURCECOMPDESIGNITEMID", &c.source_comp_design_item_id);
    put_opt(params, "ITEMGUID", &c.item_guid);
    put_opt(params, "REVISIONGUID", &c.item_revision_guid);
    put_opt(params, "VAULTGUID", &c.vault_guid);
    put_opt(params, "UNIQUEID", &c.unique_id);
    put_opt(params, "MODELHASH", &c.model_hash);
    put_opt(params, "PACKAGESPECIFICHASH", &c.package_specific_hash);
    put_opt(params, "DEFAULTPCB3DMODEL", &c.default_pcb_3d_model);
}

fn put_kind(params: &mut ParameterMap, kind: i32)
    ensures
        final(params)@ == insert_kind(old(params)@, kind),
        old(params).wf() ==> final(params).wf(),
{
    if kind != 0 && !params.contains_key("COMPONENTKIND") && !params.contains_key("COMPONENTKINDVERSION2") {
        let legacy: i32 = if kind == 1 || kind == 2 {
            kind
        } else {
            0
        };
        put_int(params, "COMPONENTKIND", legacy as i64);
        put_int(params, "COMPONENTKINDVERSION2", kind as i64);
    }
}

/// Writes a component into a parameter map (see
/// [`spec_component_to_params`]).
pub fn component_to_params(c: &Component, rotation: &str, params: &mut ParameterMap)
    ensures
        final(params)@ == spec_component_to_params(*c, rotation@, old(params)@),
        old(params).wf() ==> final(params).wf(),
{
    params.insert_all(c.additional_parameters.as_slice());
    params.insert("PATTERN", c.name.as_str());
    put_some(params, "DESCRIPTION", &c.description);
    if c.height.raw != 0 {
        put_coord(params, "HEIGHT", c.height);
    }
    put_some(params, "COMMENT", &c.comment);
    put_coord(params, "X", c.x);
    put_coord(params, "Y", c.y);
    params.insert("ROTATION", rotation);
    let layer = layer_byte_to_name(c.layer);
    params.insert("LAYER", layer.as_str());
    put_flag(params, "COMMENTON", c.comment_on);
    put_flag(params, "NAMEON", c.name_on);
    if c.comment_auto_position != 0 {
        put_int(params, "COMMENTAUTOPOSITION", c.comment_auto_position as i64);
    }
    if c.name_auto_position != 0 {
        put_int(params, "NAMEAUTOPOSITION", c.name_auto_position as i64);
    }
    if c.group_num != 0 {
        put_int(params, "GROUPNUM", c.group_num as i64);
    }
    if c.channel_offset != 0 {
        put_int(params, "CHANNELOFFSET", c.channel_offset as i64);
    }
    if c.lock_strings {
        params.insert("LOCKSTRINGS", "TRUE");
    }
    put_kind(params, c.component_kind);
    if !c.enabled {
        params.insert("ENABLED", "FALSE");
    }
    if c.flipped_on_layer {
        params.insert("FLIPPEDONLAYER", "TRUE");
    }
    if c.is_bga {
        params.insert("ISBGA", "TRUE");
    }
    put_sources(params, c);
}

// ---------------------------------------------------------------------------
// Polygons

/// The `POLYGONTYPE` name of a polygon type.
pub open spec fn polygon_type_name(t: i32) -> Seq<char> {
    if t == 1 {
        "Cutout"@
    } else if t == 2 {
        "BoardOutline"@
    } else if t == 3 {
        "Split Plane"@
    } else {
        "Polygon"@
    }
}

fn polygon_type_name_of(t: i32) -> (s: &'static str)
    ensures
        s@ == polygon_type_name(t),
{
    if t == 1 {
        "Cutout"
    } else if t == 2 {
        "BoardOutline"
    } else if t == 3 {
        "Split Plane"
    } else {
        "Polygon"
    }
}

/// The `HATCHSTYLE` name of a hatch style.
pub open spec fn hatch_style_name(h: i32) -> Seq<char> {
    if h == 0 {
        "None"@
    } else if h == 2 {
        "45Degree"@
    } else if h == 3 {
        "90Degree"@
    } else if h == 4 {
        "Horizontal"@
    } else if h == 5 {
        "Vertical"@
    } else {
        "Solid"@
    }
}

fn hatch_style_name_of(h: i32) -> (s: &'static str)
    ensures
        s@ == hatch_style_name(h),
{
    if h == 0 {
        "None"
    } else if h == 2 {
        "45Degree"
    } else if h == 3 {
        "90Degree"
    } else if h == 4 {
        "Horizontal"
    } else if h == 5 {
        "Vertical"
    } else {
        "Solid"
    }
}

/// `e` with a coordinate written as mils when it is not zero.
pub open spec fn insert_coord_nonzero(e: Entries, key: Seq<char>, c: Coord) -> Entries {
    if c.raw != 0 {
        map_insert(e, key, spec_mil_coord(c.raw))
    } else {
        e
    }
}

fn put_coord_nonzero(params: &mut ParameterMap, key: &str, c: Coord)
    ensures
        final(params)@ == insert_coord_nonzero(old(params)@, key@, c),
        old(params).wf() ==> final(params).wf(),
{
    if c.raw != 0 {
        put_coord(params, key, c);
    }
}

/// `e` with an integer written when it is not zero.
pub open spec fn insert_int_nonzero(e: Entries, key: Seq<char>, n: int) -> Entries {
    if n != 0 {
        map_insert(e, key, dec_int(n))
    } else {
        e
    }
}

fn put_int_nonzero(params: &mut ParameterMap, key: &str, n: i64)
    ensures
        final(params)@ == insert_int_nonzero(old(params)@, key@, n as int),
        old(params).wf() ==> final(params).wf(),
{
    if n != 0 {
        put_int(params, key, n);
    }
}

/// The settings a polygon built from scratch writes (one read from a file
/// carries them among its additional parameters).
pub open spec fn scratch_settings(e: Entries, p: Polygon) -> Entries {
    let e = map_insert(e, "POLYGONTYPE"@, polygon_type_name(p.polygon_type));
    let e = map_insert(e, "HATCHSTYLE"@, hatch_style_name(p.poly_hatch_style));
    let e = map_insert(e, "POUROVER"@, flag_text(p.pour_over != 0));
    let e = map_insert(e, "REMOVEISLANDSBYAREA"@, flag_text(p.remove_islands_by_area));
    let e = map_insert(e, "REMOVEDEAD"@, flag_text(p.remove_dead));
    let e = map_insert(e, "REMOVENECKS"@, flag_text(p.remove_narrow_necks));
    let e = map_insert(e, "USEOCTAGONS"@, flag_text(p.use_octagons));
    let e = map_insert(e, "AVOIDOBST"@, flag_text(p.avoid_obstacles));
    let e = map_insert(e, "LOCKED"@, "FALSE"@);
    let e = map_insert(e, "KEEPOUT"@, flag_text(p.is_keepout));
    let e = map_insert(e, "POLYGONOUTLINE"@, flag_text(p.polygon_outline));
    let e = map_insert(e, "PRIMITIVELOCK"@, flag_text(p.primitive_lock));
    let e = insert_coord_nonzero(e, "GRIDSIZE"@, p.grid);
    let e = insert_coord_nonzero(e, "TRACKWIDTH"@, p.track_size);
    let e = insert_coord_nonzero(e, "MINPRIMLENGTH"@, p.min_track);
    let e = insert_coord_nonzero(e, "NECKWIDTH"@, p.neck_width_threshold);
    let e = insert_coord_nonzero(e, "ARCAPPROXIMATION"@, p.arc_approximation);
    let e = insert_coord_nonzero(e, "BORDERWIDTH"@, p.border_width);
    let e = insert_coord_nonzero(e, "SOLDERMASKEXPANSION"@, p.solder_mask_expansion);
    let e = insert_coord_nonzero(e, "PASTEMASKEXPANSION"@, p.paste_mask_expansion);
    let e = insert_coord_nonzero(e, "RELIEFAIRGAP"@, p.relief_air_gap);
    let e = insert_coord_nonzero(e, "RELIEFCONDUCTORWIDTH"@, p.relief_conductor_width);
    let e = insert_coord_nonzero(e, "POWERPLANECLEARANCE"@, p.power_plane_clearance);
    let e = insert_coord_nonzero(e, "POWERPLANERELIEFEXPANSION"@, p.power_plane_relief_expansion);
    let e = insert_int_nonzero(e, "POURORDER"@, p.pour_index as int);
    let e = insert_int_nonzero(e, "RELIEFENTRIES"@, p.relief_entries as int);
    let e = insert_int_nonzero(e, "POWERPLANECONNECTSTYLE"@, p.power_plane_connect_style as int);
    let e = insert_int_nonzero(e, "REPOURAREA"@, p.area_size as int);
    let e = if p.is_hidden { map_insert(e, "SHELVED"@, "TRUE"@) } else { e };
    if !p.enabled { map_insert(e, "ENABLED"@, "FALSE"@) } else { e }
}

fn put_scratch_settings(params: &mut ParameterMap, p: &Polygon)
    ensures
        final(params)@ == scratch_settings(old(params)@, *p),
        old(params).wf() ==> final(params).wf(),
{
    params.insert("POLYGONTYPE", polygon_type_name_of(p.polygon_type));
    params.insert("HATCHSTYLE", hatch_style_name_of(p.poly_hatch_style));
    put_flag(params, "POUROVER", p.pour_over != 0);
    put_flag(params, "REMOVEISLANDSBYAREA", p.remove_islands_by_area);
    put_flag(params, "REMOVEDEAD", p.remove_dead);
    put_flag(params, "REMOVENECKS", p.remove_narrow_necks);
    put_flag(params, "USEOCTAGONS", p.use_octagons);
    put_flag(params, "AVOIDOBST", p.avoid_obstacles);
    params.insert("LOCKED", "FALSE");
    put_flag(params, "KEEPOUT", p.is_keepout);
    put_flag(params, "POLYGONOUTLINE", p.polygon_outline);
    put_flag(params, "PRIMITIVELOCK", p.primitive_lock);
    put_coord_nonzero(params, "GRIDSIZE", p.grid);
    put_coord_nonzero(params, "TRACKWIDTH", p.track_size);
    put_coord_nonzero(params, "MINPRIMLENGTH", p.min_track);
    put_coord_nonzero(params, "NECKWIDTH", p.neck_width_threshold);
    put_coord_nonzero(params, "ARCAPPROXIMATION", p.arc_approximation);
    put_coord_nonzero(params, "BORDERWIDTH", p.border_width);
    put_coord_nonzero(params, "SOLDERMASKEXPANSION", p.solder_mask_expansion);
    put_coord_nonzero(params, "PASTEMASKEXPANSION", p.paste_mask_expansion);
    put_coord_nonzero(params, "RELIEFAIRGAP", p.relief_air_gap);
    put_coord_nonzero(params, "RELIEFCONDUCTORWIDTH", p.relief_conductor_width);
    put_coord_nonzero(params, "POWERPLANECLEARANCE", p.power_plane_clearance);
    put_coord_nonzero(params, "POWERPLANERELIEFEXPANSION", p.power_plane_relief_expansion);
    put_int_nonzero(params, "POURORDER", p.pour_index as i64);
    put_int_nonzero(params, "RELIEFENTRIES", p.relief_entries as i64);
    put_int_nonzero(params, "POWERPLANECONNECTSTYLE", p.power_plane_connect_style as i64);
    put_int_nonzero(params, "REPOURAREA", p.area_size);
    if p.is_hidden {
        params.insert("SHELVED", "TRUE");
    }
    if !p.enabled {
        params.insert("ENABLED", "FALSE");
    }
}

/// The keys of vertex `i` from `i` on, in the layout the polygon came in:
/// the legacy `KIND/VX/VY/CX/CY/SA/EA/R` keys with the given formatted
/// angles, or `SA<i>.X/Y` in raw units.
pub open spec fn insert_vertices(e: Entries, p: Polygon, angles: Seq<(Seq<char>, Seq<char>)>, i: nat) -> Entries
    decreases p.vertices@.len() - i,
{
    if i >= p.vertices@.len() {
        e
    } else {
        let v = p.vertices@[i as int];
        let e1 = if p.vertices_use_legacy_form {
            let e = map_insert(e, vkey("KIND"@, i, ""@), dec_int(v.kind as int));
            let e = map_insert(e, vkey("VX"@, i, ""@), spec_mil_coord(v.point.x.raw));
            let e = map_insert(e, vkey("VY"@, i, ""@), spec_mil_coord(v.point.y.raw));
            let e = map_insert(e, vkey("CX"@, i, ""@), spec_mil_coord(v.arc_center.x.raw));
            let e = map_insert(e, vkey("CY"@, i, ""@), spec_mil_coord(v.arc_center.y.raw));
            let e = map_insert(e, vkey("SA"@, i, ""@), angles[i as int].0);
            let e = map_insert(e, vkey("EA"@, i, ""@), angles[i as int].1);
            map_insert(e, vkey("R"@, i, ""@), spec_mil_coord(v.radius.raw))
        } else {
            map_insert(
                map_insert(e, vkey("SA"@, i, ".X"@), dec_int(v.point.x.raw as int)),
                vkey("SA"@, i, ".Y"@),
                dec_int(v.point.y.raw as int),
            )
        };
        insert_vertices(e1, p, angles, i + 1)
    }
}

/// What writing a polygon into a map gives: its additional parameters, the
/// layer, net, name and id, the settings when it was built from scratch,
/// then its vertices (after `POINTCOUNT` in the current layout).
pub open spec fn spec_polygon_to_params(p: Polygon, angles: Seq<(Seq<char>, Seq<char>)>, e: Entries) -> Entries {
    let e = match p.additional_parameters {
        Some(x) => map_insert_all(e, pairs_view(x@)),
        None => e,
    };
    let e = map_insert(e, "LAYER"@, spec_doc_layer_name(p.layer));
    let e = map_insert(e, "NET"@, match p.net {
        Some(n) => n@,
        None => Seq::<char>::empty(),
    });
    let e = insert_opt(e, "NAME"@, p.name);
    let e = insert_opt(e, "UNIQUEID"@, p.unique_id);
    let e = if p.additional_parameters is None { scratch_settings(e, p) } else { e };
    let e = if p.vertices_use_legacy_form {
        e
    } else {
        map_insert(e, "POINTCOUNT"@, dec_int(p.vertices@.len() as int))
    };
    insert_vertices(e, p, angles, 0)
}

/// Writes a polygon into a parameter map (see [`spec_polygon_to_params`]).
/// `angles` holds the formatted start and end angle of each vertex, used in
/// the legacy layout.
pub fn polygon_to_params(p: &Polygon, angles: &[(String, String)], params: &mut ParameterMap)
    requires
        p.vertices_use_legacy_form ==> angles@.len() == p.vertices@.len(),
        p.vertices@.len() <= i64::MAX,
    ensures
        final(params)@ == spec_polygon_to_params(*p, pairs_view(angles@), old(params)@),
        old(params).wf() ==> final(params).wf(),
{
    if let Some(x) = &p.additional_parameters {
        params.insert_all(x.as_slice());
    }
    let layer = layer_byte_to_name(p.layer);
    params.insert("LAYER", layer.as_str());
    match &p.net {
        Some(n) => params.insert("NET", n.as_str()),
        None => {
            proof {
                reveal_strlit("");
            }
            params.insert("NET", "");
            assert(""@ =~= Seq::<char>::empty());
        },
    }
    put_opt(params, "NAME", &p.name);
    put_opt(params, "UNIQUEID", &p.unique_id);
    if p.additional_parameters.is_none() {
        put_scratch_settings(params, p);
    }
    if !p.vertices_use_legacy_form {
        put_int(params, "POINTCOUNT", p.vertices.len() as i64);
    }
    let ghost av = pairs_view(angles@);
    let ghost start = params@;
    let mut i: usize = 0;
    while i < p.vertices.len()
        invariant
            i <= p.vertices@.len(),
            p.vertices@.len() <= i64::MAX,
            p.vertices_use_legacy_form ==> angles@.len() == p.vertices@.len(),
            av == pairs_view(angles@),
            insert_vertices(start, *p, av, 0) == insert_vertices(params@, *p, av, i as nat),
            old(params).wf() ==> params.wf(),
        decreases p.vertices@.len() - i,
    {
        let v = &p.vertices[i];
        let k = i as u64;
        if p.vertices_use_legacy_form {
            assert(av[i as int] == (angles@[i as int].0@, angles@[i as int].1@));
            put_int(params, vkey_string("KIND", k, "").as_str(), v.kind as i64);
            put_coord(params, vkey_string("VX", k, "").as_str(), v.point.x);
            put_coord(params, vkey_string("VY", k, "").as_str(), v.point.y);
            put_coord(params, vkey_string("CX", k, "").as_str(), v.arc_center.x);
            put_coord(params, vkey_string("CY", k, "").as_str(), v.arc_center.y);
            params.insert(vkey_string("SA", k, "").as_str(), angles[i].0.as_str());
            params.insert(vkey_string("EA", k, "").as_str(), angles[i].1.as_str());
            put_coord(params, vkey_string("R", k, "").as_str(), v.radius);
        } else {
            put_int(params, vkey_string("SA", k, ".X").as_str(), v.point.x.raw as i64);
            put_int(params, vkey_string("SA", k, ".Y").as_str(), v.point.y.raw as i64);
        }
        i += 1;
    }
}

} // verus!
