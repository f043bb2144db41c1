//! Polygon pours read from their parameter records: typed settings under
//! current and legacy key spellings, the vertex list in either of its two
//! layouts, and every parameter the typed fields do not stand for.

use vstd::prelude::*;

use crate::coord::{Coord, CoordPoint};
use crate::coord_text::{parse_coord_loose, spec_coord_loose};
use crate::doc_codec::{get_bool_explicit, parse_layer, spec_bool_explicit, spec_parse_layer};
use crate::parameter::{find_key, lemma_find_key_props, map_get, pairs_view, Entries, ParameterMap};
use crate::sorted_entries::{entries_map, sorted_by_name, strictly_sorted};
use crate::text::{
    chars_of, dec, has_prefix, has_suffix, owned, parse_i32, parse_i32_chars, parse_i64, parse_i64_chars, push_dec,
    push_str, seq_eq, to_ascii_upper, trim, trim_chars, upper_seq,
};

verus! {

/// One corner of a polygon outline. The legacy layout stores the arc's
/// angles as decimal text, kept here as written.
pub struct PolygonVertex {
    pub point: CoordPoint,
    /// `0` for a straight edge, `1` for an arc.
    pub kind: i32,
    pub arc_center: CoordPoint,
    pub start_angle_text: Option<String>,
    pub end_angle_text: Option<String>,
    pub radius: Coord,
}

/// A copper-polygon pour as its parameter record describes it.
pub struct Polygon {
    pub vertices: Vec<PolygonVertex>,
    pub layer: i32,
    pub name: Option<String>,
    pub net: Option<String>,
    pub unique_id: Option<String>,
    pub enabled: bool,
    pub is_keepout: bool,
    pub polygon_outline: bool,
    pub power_plane_clearance: Coord,
    pub power_plane_connect_style: i32,
    pub power_plane_relief_expansion: Coord,
    pub relief_air_gap: Coord,
    pub relief_conductor_width: Coord,
    pub relief_entries: i32,
    pub solder_mask_expansion: Coord,
    pub primitive_lock: bool,
    pub polygon_type: i32,
    pub poly_hatch_style: i32,
    pub pour_over: i32,
    pub border_width: Coord,
    pub track_size: Coord,
    pub grid: Coord,
    pub min_track: Coord,
    pub avoid_obstacles: bool,
    pub avoid_obstacles_uses_legacy_key: bool,
    pub pour_over_uses_legacy_key: bool,
    pub poly_hatch_uses_legacy_key: bool,
    pub remove_necks_uses_legacy_key: bool,
    pub vertices_use_legacy_form: bool,
    pub arc_pour_mode: bool,
    pub auto_generate_name: bool,
    pub clip_acute_corners: bool,
    pub draw_dead_copper: bool,
    pub draw_removed_islands: bool,
    pub draw_removed_necks: bool,
    pub expand_outline: bool,
    pub ignore_violations: bool,
    pub island_area_threshold: i32,
    pub mitre_corners: bool,
    pub neck_width_threshold: Coord,
    pub obey_polygon_cutout: bool,
    pub optimal_void_rotation: bool,
    pub point_count: i32,
    pub remove_dead: bool,
    pub remove_islands_by_area: bool,
    pub remove_narrow_necks: bool,
    pub use_octagons: bool,
    pub allow_global_edit: bool,
    pub moveable: bool,
    pub paste_mask_expansion: Coord,
    pub is_hidden: bool,
    pub poured: bool,
    pub pour_index: i32,
    pub area_size: i64,
    pub arc_approximation: Coord,
    pub pour_over_same_net_polygons: bool,
    /// The parameters no typed field stands for, sorted by name; `None` when
    /// there are none.
    pub additional_parameters: Option<Vec<(String, String)>>,
}

// ---------------------------------------------------------------------------
// Reading single values

/// Whether `key` is present.
pub open spec fn has(e: Entries, key: Seq<char>) -> bool {
    map_get(e, key) is Some
}

/// An explicit boolean under `key`, else `d`.
pub open spec fn bool_or(e: Entries, key: Seq<char>, d: bool) -> bool {
    match spec_bool_explicit(e, key) {
        Some(b) => b,
        None => d,
    }
}

/// The trimmed value under `key` read as an `i32`.
pub open spec fn get_i32(e: Entries, key: Seq<char>) -> Option<i32> {
    match map_get(e, key) {
        Some(v) => parse_i32(trim(v)),
        None => None,
    }
}

pub open spec fn i32_or(e: Entries, key: Seq<char>, d: i32) -> i32 {
    match get_i32(e, key) {
        Some(n) => n,
        None => d,
    }
}

/// The value under `key` read as a coordinate, else `d`.
pub open spec fn coord_or(e: Entries, key: Seq<char>, d: i32) -> i32 {
    match map_get(e, key) {
        Some(v) => match spec_coord_loose(v) {
            Some(r) => r,
            None => d,
        },
        None => d,
    }
}

pub(crate) fn flag_or(params: &ParameterMap, key: &str, d: bool) -> (r: bool)
    ensures
        r == bool_or(params@, key@, d),
{
    match get_bool_explicit(params, key) {
        Some(b) => b,
        None => d,
    }
}

pub(crate) fn int_or(params: &ParameterMap, key: &str, d: i32) -> (r: i32)
    ensures
        r == i32_or(params@, key@, d),
{
    match params.get_i32(key) {
        Some(n) => n,
        None => d,
    }
}

pub(crate) fn coord_param(params: &ParameterMap, key: &str, d: i32) -> (r: Coord)
    ensures
        r.raw == coord_or(params@, key@, d),
{
    let raw = match params.get(key) {
        Some(v) => match parse_coord_loose(v) {
            Some(r) => r,
            None => d,
        },
        None => d,
    };
    Coord::from_raw(raw)
}

pub(crate) fn opt_string(params: &ParameterMap, key: &str) -> (r: Option<String>)
    ensures
        r matches Some(s) ==> map_get(params@, key@) == Some(s@),
        r is None ==> map_get(params@, key@) is None,
{
    match params.get(key) {
        Some(v) => Some(owned(v)),
        None => None,
    }
}

fn is_text(t: &Vec<char>, lit: &str) -> (r: bool)
    ensures
        r == (t@ == lit@),
{
    let l = chars_of(lit);
    seq_eq(t.as_slice(), l.as_slice())
}

// ---------------------------------------------------------------------------
// Named settings

/// `POLYGONTYPE`: a name, else a number, else `0`.
pub open spec fn spec_polygon_type(v: Seq<char>) -> i32 {
    let t = trim(v);
    if t.len() == 0 || t == "Polygon"@ {
        0
    } else if t == "PolygonCutout"@ || t == "Cutout"@ {
        1
    } else if t == "BoardOutline"@ {
        2
    } else if t == "Split Plane"@ {
        3
    } else {
        match parse_i32(t) {
            Some(n) => n,
            None => 0,
        }
    }
}

fn polygon_type_of(v: &str) -> (r: i32)
    ensures
        r == spec_polygon_type(v@),
{
    let c = chars_of(v);
    let t = trim_chars(&c);
    if t.len() == 0 || is_text(&t, "Polygon") {
        0
    } else if is_text(&t, "PolygonCutout") || is_text(&t, "Cutout") {
        1
    } else if is_text(&t, "BoardOutline") {
        2
    } else if is_text(&t, "Split Plane") {
        3
    } else {
        match parse_i32_chars(&t) {
            Some(n) => n,
            None => 0,
        }
    }
}

/// `HATCHSTYLE`: a name, else a number, else `0`.
pub open spec fn spec_hatch_style(v: Seq<char>) -> i32 {
    let t = trim(v);
    if t == "None"@ {
        0
    } else if t == "Solid"@ {
        1
    } else if t == "45Degree"@ {
        2
    } else if t == "90Degree"@ {
        3
    } else if t == "Horizontal"@ {
        4
    } else if t == "Vertical"@ {
        5
    } else {
        match parse_i32(t) {
            Some(n) => n,
            None => 0,
        }
    }
}

fn hatch_style_of(v: &str) -> (r: i32)
    ensures
        r == spec_hatch_style(v@),
{
    let c = chars_of(v);
    let t = trim_chars(&c);
    if is_text(&t, "None") {
        0
    } else if is_text(&t, "Solid") {
        1
    } else if is_text(&t, "45Degree") {
        2
    } else if is_text(&t, "90Degree") {
        3
    } else if is_text(&t, "Horizontal") {
        4
    } else if is_text(&t, "Vertical") {
        5
    } else {
        match parse_i32_chars(&t) {
            Some(n) => n,
            None => 0,
        }
    }
}

/// The hatch style and whether it came from the legacy key.
pub open spec fn spec_hatch(e: Entries) -> (i32, bool) {
    match map_get(e, "HATCHSTYLE"@) {
        Some(v) => (spec_hatch_style(v), false),
        None => match get_i32(e, "POLYHATCHSTYLE"@) {
            Some(n) => (n, true),
            None => (0, false),
        },
    }
}

/// The pour-over mode and whether it came from the legacy key: `POURMODE`,
/// else `POUROVER` as a number, else `POUROVER` as a boolean.
pub open spec fn spec_pour_over(e: Entries) -> (i32, bool) {
    match get_i32(e, "POURMODE"@) {
        Some(n) => (n, false),
        None => match get_i32(e, "POUROVER"@) {
            Some(n) => (n, true),
            None => match spec_bool_explicit(e, "POUROVER"@) {
                Some(b) => (if b { 1 } else { 0 }, true),
                None => (0, false),
            },
        },
    }
}

/// A boolean under its current key, else under its legacy key (noting the
/// legacy spelling), else `false`.
pub open spec fn spec_bool_pair(e: Entries, key: Seq<char>, legacy: Seq<char>) -> (bool, bool) {
    match spec_bool_explicit(e, key) {
        Some(b) => (b, false),
        None => match spec_bool_explicit(e, legacy) {
            Some(b) => (b, true),
            None => (false, false),
        },
    }
}

fn bool_pair(params: &ParameterMap, key: &str, legacy: &str) -> (r: (bool, bool))
    ensures
        r == spec_bool_pair(params@, key@, legacy@),
{
    match get_bool_explicit(params, key) {
        Some(b) => (b, false),
        None => match get_bool_explicit(params, legacy) {
            Some(b) => (b, true),
            None => (false, false),
        },
    }
}

// ---------------------------------------------------------------------------
// Vertices

/// A vertex key: `prefix`, the index in decimal, `suffix`.
pub open spec fn vkey(prefix: Seq<char>, i: nat, suffix: Seq<char>) -> Seq<char> {
    prefix + dec(i) + suffix
}

pub(crate) fn vkey_string(prefix: &str, i: u64, suffix: &str) -> (k: String)
    ensures
        k@ == vkey(prefix@, i as nat, suffix@),
{
    let mut k = String::new();
    push_str(&mut k, prefix);
    push_dec(&mut k, i);
    push_str(&mut k, suffix);
    k
}

/// Whether vertex `c` is present in the current layout (`SA<c>.X`) or in
/// the legacy one (`VX<c>` or `KIND<c>`).
pub open spec fn vertex_present(e: Entries, c: nat, legacy: bool) -> bool {
    if legacy {
        has(e, vkey("VX"@, c, ""@)) || has(e, vkey("KIND"@, c, ""@))
    } else {
        has(e, vkey("SA"@, c, ".X"@))
    }
}

/// The number of consecutive vertices present from `c` on, at most `fuel`
/// more.
pub open spec fn count_present(e: Entries, c: nat, fuel: nat, legacy: bool) -> nat
    decreases fuel,
{
    if fuel == 0 {
        c
    } else if vertex_present(e, c, legacy) {
        count_present(e, c + 1, (fuel - 1) as nat, legacy)
    } else {
        c
    }
}

/// The current layout: `SA0.X` or `POINTCOUNT` is present.
pub open spec fn new_form(e: Entries) -> bool {
    has(e, "SA0.X"@) || has(e, "POINTCOUNT"@)
}

/// The legacy layout: not the current one, and `VX0` or `KIND0` present.
pub open spec fn old_form(e: Entries) -> bool {
    !new_form(e) && (has(e, "VX0"@) || has(e, "KIND0"@))
}

/// The vertex count: the declared count of the layout in use, else the
/// number of consecutive vertices present.
pub open spec fn vertex_count(e: Entries) -> int {
    if new_form(e) {
        match get_i32(e, "POINTCOUNT"@) {
            Some(n) => n as int,
            None => count_present(e, 0, (e.len() + 1) as nat, false) as int,
        }
    } else if old_form(e) {
        match get_i32(e, "NV"@) {
            Some(n) => n as int,
            None => count_present(e, 0, (e.len() + 1) as nat, true) as int,
        }
    } else {
        match get_i32(e, "NV"@) {
            Some(n) => n as int,
            None => match get_i32(e, "POINTCOUNT"@) {
                Some(n) => n as int,
                None => 0,
            },
        }
    }
}

/// Vertex `i` as the record stores it, in the layout in use.
pub open spec fn vertex_from(v: PolygonVertex, e: Entries, i: nat) -> bool {
    if new_form(e) {
        &&& v.point.x.raw == i32_or(e, vkey("SA"@, i, ".X"@), 0)
        &&& v.point.y.raw == i32_or(e, vkey("SA"@, i, ".Y"@), 0)
        &&& v.kind == 0
        &&& v.arc_center.x.raw == 0 && v.arc_center.y.raw == 0
        &&& v.start_angle_text is None && v.end_angle_text is None
        &&& v.radius.raw == 0
    } else {
        &&& v.kind == i32_or(e, vkey("KIND"@, i, ""@), 0)
        &&& v.point.x.raw == coord_or(e, vkey("VX"@, i, ""@), 0)
        &&& v.point.y.raw == coord_or(e, vkey("VY"@, i, ""@), 0)
        &&& v.arc_center.x.raw == coord_or(e, vkey("CX"@, i, ""@), 0)
        &&& v.arc_center.y.raw == coord_or(e, vkey("CY"@, i, ""@), 0)
        &&& (match v.start_angle_text {
            Some(t) => map_get(e, vkey("SA"@, i, ""@)) == Some(t@),
            None => map_get(e, vkey("SA"@, i, ""@)) is None,
        })
        &&& (match v.end_angle_text {
            Some(t) => map_get(e, vkey("EA"@, i, ""@)) == Some(t@),
            None => map_get(e, vkey("EA"@, i, ""@)) is None,
        })
        &&& v.radius.raw == coord_or(e, vkey("R"@, i, ""@), 0)
    }
}

/// How many vertices are read: the count, when positive and a layout is in
/// use.
pub open spec fn vertices_read(e: Entries) -> int {
    if vertex_count(e) > 0 && (new_form(e) || old_form(e)) {
        vertex_count(e)
    } else {
        0
    }
}

fn count_scan(params: &ParameterMap, legacy: bool) -> (c: i32)
    requires
        params@.len() < 0x7fff_ffff,
    ensures
        c as int == count_present(params@, 0, (params@.len() + 1) as nat, legacy),
{
    let n = params.len();
    let ghost e = params@;
    let mut c: u64 = 0;
    while c <= n as u64
        invariant_except_break
            c <= n + 1,
            count_present(e, c as nat, (n + 1 - c) as nat, legacy) == count_present(e, 0, (n + 1) as nat, legacy),
        invariant
            e == params@,
            n == params@.len(),
            n < 0x7fff_ffff,
        ensures
            c <= n + 1,
            c == count_present(e, 0, (n + 1) as nat, legacy),
        decreases n + 1 - c,
    {
        let present = if legacy {
            let a = vkey_string("VX", c, "");
            let b = vkey_string("KIND", c, "");
            params.contains_key(a.as_str()) || params.contains_key(b.as_str())
        } else {
            let a = vkey_string("SA", c, ".X");
            params.contains_key(a.as_str())
        };
        if !present {
            break;
        }
        c += 1;
    }
    c as i32
}

fn read_vertex(params: &ParameterMap, i: u64, legacy: bool) -> (v: PolygonVertex)
    requires
        legacy == !new_form(params@),
    ensures
        vertex_from(v, params@, i as nat),
{
    if !legacy {
        let x = int_or(params, vkey_string("SA", i, ".X").as_str(), 0);
        let y = int_or(params, vkey_string("SA", i, ".Y").as_str(), 0);
        PolygonVertex {
            point: CoordPoint::new(Coord::from_raw(x), Coord::from_raw(y)),
            kind: 0,
            arc_center: CoordPoint::new(Coord::zero(), Coord::zero()),
            start_angle_text: None,
            end_angle_text: None,
            radius: Coord::zero(),
        }
    } else {
        let kind = int_or(params, vkey_string("KIND", i, "").as_str(), 0);
        let vx = coord_param(params, vkey_string("VX", i, "").as_str(), 0);
        let vy = coord_param(params, vkey_string("VY", i, "").as_str(), 0);
        let cx = coord_param(params, vkey_string("CX", i, "").as_str(), 0);
        let cy = coord_param(params, vkey_string("CY", i, "").as_str(), 0);
        let sa = opt_string(params, vkey_string("SA", i, "").as_str());
        let ea = opt_string(params, vkey_string("EA", i, "").as_str());
        let r = coord_param(params, vkey_string("R", i, "").as_str(), 0);
        PolygonVertex {
            point: CoordPoint::new(vx, vy),
            kind,
            arc_center: CoordPoint::new(cx, cy),
            start_angle_text: sa,
            end_angle_text: ea,
            radius: r,
        }
    }
}

// ---------------------------------------------------------------------------
// Parameters no typed field stands for

/// Whether an upper-cased key is one of vertex `i`'s keys in either layout.
pub open spec fn is_vertex_key(u: Seq<char>, i: nat) -> bool {
    ||| u == vkey("SA"@, i, ".X"@)
    ||| u == vkey("SA"@, i, ".Y"@)
    ||| u == vkey("VX"@, i, ""@)
    ||| u == vkey("VY"@, i, ""@)
    ||| u == vkey("KIND"@, i, ""@)
    ||| u == vkey("CX"@, i, ""@)
    ||| u == vkey("CY"@, i, ""@)
    ||| u == vkey("SA"@, i, ""@)
    ||| u == vkey("EA"@, i, ""@)
    ||| u == vkey("R"@, i, ""@)
}

/// Whether an upper-cased key is one the reader consumes: the writer-owned
/// keys, the counts, and the keys of each of the `count` vertices.
pub open spec fn is_consumed(u: Seq<char>, count: int) -> bool {
    ||| u == "LAYER"@
    ||| u == "NET"@
    ||| u == "NAME"@
    ||| u == "UNIQUEID"@
    ||| u == "POINTCOUNT"@
    ||| u == "NV"@
    ||| exists|i: int| 0 <= i < count && #[trigger] is_vertex_key(u, i as nat)
}

/// Whether a parameter is left out of the additional ones: a current-layout
/// coordinate key of any vertex, or a consumed key.
pub open spec fn left_out(n: Seq<char>, count: int) -> bool {
    (has_prefix(n, "SA"@) && (has_suffix(n, ".X"@) || has_suffix(n, ".Y"@))) || is_consumed(upper_seq(n), count)
}

/// The entries kept as additional parameters, in order.
pub open spec fn kept(e: Entries, count: int) -> Entries
    decreases e.len(),
{
    if e.len() == 0 {
        e
    } else if left_out(e.last().0, count) {
        kept(e.drop_last(), count)
    } else {
        kept(e.drop_last(), count).push(e.last())
    }
}

pub(crate) fn is_lit(s: &String, lit: &str) -> (r: bool)
    ensures
        r == (s@ == lit@),
{
    let a = chars_of(s.as_str());
    let b = chars_of(lit);
    seq_eq(a.as_slice(), b.as_slice())
}

fn vertex_key_below(u: &String, count: i32) -> (r: bool)
    ensures
        r == exists|i: int| 0 <= i < count && #[trigger] is_vertex_key(u@, i as nat),
{
    let mut i: i32 = 0;
    while i < count
        invariant
            0 <= i,
            i <= count || count < 0,
            forall|j: int| 0 <= j < i ==> !#[trigger] is_vertex_key(u@, j as nat),
        decreases count - i,
    {
        let k = i as u64;
        if is_lit(u, vkey_string("SA", k, ".X").as_str()) || is_lit(u, vkey_string("SA", k, ".Y").as_str())
            || is_lit(u, vkey_string("VX", k, "").as_str()) || is_lit(u, vkey_string("VY", k, "").as_str())
            || is_lit(u, vkey_string("KIND", k, "").as_str()) || is_lit(u, vkey_string("CX", k, "").as_str())
            || is_lit(u, vkey_string("CY", k, "").as_str()) || is_lit(u, vkey_string("SA", k, "").as_str())
            || is_lit(u, vkey_string("EA", k, "").as_str()) || is_lit(u, vkey_string("R", k, "").as_str()) {
            assert(is_vertex_key(u@, i as nat));
            return true;
        }
        i += 1;
    }
    false
}

fn starts_ends(n: &str) -> (r: bool)
    ensures
        r == (has_prefix(n@, "SA"@) && (has_suffix(n@, ".X"@) || has_suffix(n@, ".Y"@))),
{
    let c = chars_of(n);
    let sa = chars_of("SA");
    let x = chars_of(".X");
    let y = chars_of(".Y");
    crate::text::starts_with(&c, &sa) && (crate::text::ends_with(&c, &x) || crate::text::ends_with(&c, &y))
}

fn is_left_out(n: &str, count: i32) -> (r: bool)
    ensures
        r == left_out(n@, count as int),
{
    if starts_ends(n) {
        return true;
    }
    let u = to_ascii_upper(n);
    is_lit(&u, "LAYER") || is_lit(&u, "NET") || is_lit(&u, "NAME") || is_lit(&u, "UNIQUEID") || is_lit(
        &u,
        "POINTCOUNT",
    ) || is_lit(&u, "NV") || vertex_key_below(&u, count)
}

/// The additional parameters as they are kept: sorted by name, one entry per
/// name, and only when there are any.
pub open spec fn additional_from(a: Option<Vec<(String, String)>>, e: Entries, count: int) -> bool {
    match a {
        Some(v) => strictly_sorted(pairs_view(v@)) && entries_map(pairs_view(v@)) == entries_map(kept(e, count))
            && kept(e, count).len() > 0,
        None => kept(e, count).len() == 0,
    }
}

fn additional(params: &ParameterMap, count: i32) -> (r: Option<Vec<(String, String)>>)
    ensures
        additional_from(r, params@, count as int),
{
    let es = params.entries();
    let mut v: Vec<(String, String)> = Vec::new();
    let mut i: usize = 0;
    while i < es.len()
        invariant
            i <= es@.len(),
            pairs_view(es@) == params@,
            pairs_view(v@) == kept(pairs_view(es@).take(i as int), count as int),
        decreases es@.len() - i,
    {
        let ghost e = pairs_view(es@);
        assert(e.take(i + 1).drop_last() =~= e.take(i as int));
        assert(e.take(i + 1).last() == e[i as int]);
        assert(e[i as int] == (es@[i as int].0@, es@[i as int].1@));
        if !is_left_out(es[i].0.as_str(), count) {
            let ghost before = v@;
            v.push((owned(es[i].0.as_str()), owned(es[i].1.as_str())));
            assert(pairs_view(v@) =~= pairs_view(before).push(e[i as int]));
        }
        i += 1;
    }
    assert(pairs_view(es@).take(es@.len() as int) =~= pairs_view(es@));
    if v.len() == 0 {
        None
    } else {
        Some(sorted_by_name(&v))
    }
}

// ---------------------------------------------------------------------------
// The record

/// The typed settings of a polygon record.
pub open spec fn polygon_settings_from(p: Polygon, e: Entries) -> bool {
    &&& p.layer == (match map_get(e, "LAYER"@) {
        Some(v) => spec_parse_layer(v),
        None => 0,
    })
    &&& (match p.net {
        Some(s) => map_get(e, "NET"@) == Some(s@),
        None => map_get(e, "NET"@) is None,
    })
    &&& (match p.name {
        Some(s) => map_get(e, "NAME"@) == Some(s@),
        None => map_get(e, "NAME"@) is None,
    })
    &&& (match p.unique_id {
        Some(s) => map_get(e, "UNIQUEID"@) == Some(s@),
        None => map_get(e, "UNIQUEID"@) is None,
    })
    &&& p.polygon_type == (match map_get(e, "POLYGONTYPE"@) {
        Some(v) => spec_polygon_type(v),
        None => 0,
    })
    &&& (p.poly_hatch_style, p.poly_hatch_uses_legacy_key) == spec_hatch(e)
    &&& (p.pour_over, p.pour_over_uses_legacy_key) == spec_pour_over(e)
    &&& p.remove_islands_by_area == bool_or(e, "REMOVEISLANDSBYAREA"@, false)
    &&& p.island_area_threshold == i32_or(e, "ISLANDAREATHRESHOLD"@, 0)
    &&& p.remove_dead == bool_or(e, "REMOVEDEAD"@, false)
    &&& (p.remove_narrow_necks, p.remove_necks_uses_legacy_key) == spec_bool_pair(
        e,
        "REMOVENECKS"@,
        "REMOVENARROWNECKS"@,
    )
    &&& p.use_octagons == bool_or(e, "USEOCTAGONS"@, false)
    &&& (p.avoid_obstacles, p.avoid_obstacles_uses_legacy_key) == spec_bool_pair(e, "AVOIDOBST"@, "AVOIDOBSTICLES"@)
    &&& p.grid.raw == coord_or(e, "GRIDSIZE"@, 0)
    &&& p.track_size.raw == coord_or(e, "TRACKWIDTH"@, 0)
    &&& p.min_track.raw == coord_or(e, "MINPRIMLENGTH"@, 0)
    &&& p.neck_width_threshold.raw == coord_or(e, "NECKWIDTH"@, 0)
    &&& p.arc_approximation.raw == coord_or(e, "ARCAPPROXIMATION"@, 0)
    &&& p.border_width.raw == coord_or(e, "BORDERWIDTH"@, 0)
    &&& p.solder_mask_expansion.raw == coord_or(e, "SOLDERMASKEXPANSION"@, 0)
    &&& p.paste_mask_expansion.raw == coord_or(e, "PASTEMASKEXPANSION"@, 0)
    &&& p.relief_air_gap.raw == coord_or(e, "RELIEFAIRGAP"@, 0)
    &&& p.relief_conductor_width.raw == coord_or(e, "RELIEFCONDUCTORWIDTH"@, 0)
    &&& p.power_plane_clearance.raw == coord_or(e, "POWERPLANECLEARANCE"@, 0)
    &&& p.power_plane_relief_expansion.raw == coord_or(e, "POWERPLANERELIEFEXPANSION"@, 0)
    &&& p.pour_index == i32_or(e, "POURORDER"@, 0)
    &&& p.relief_entries == i32_or(e, "RELIEFENTRIES"@, 0)
    &&& p.power_plane_connect_style == i32_or(e, "POWERPLANECONNECTSTYLE"@, 0)
    &&& p.area_size == (match map_get(e, "REPOURAREA"@) {
        Some(v) => match parse_i64(trim(v)) {
            Some(n) => n,
            None => 0,
        },
        None => 0,
    })
}

/// The boolean switches of a polygon record.
pub open spec fn polygon_switches_from(p: Polygon, e: Entries) -> bool {
    &&& p.primitive_lock == bool_or(e, "PRIMITIVELOCK"@, false)
    &&& p.is_hidden == bool_or(e, "SHELVED"@, false)
    &&& p.pour_over_same_net_polygons == bool_or(e, "POUROVERSAMENETPOLYGONS"@, false)
    &&& p.enabled == bool_or(e, "ENABLED"@, true)
    &&& p.is_keepout == bool_or(e, "KEEPOUT"@, false)
    &&& p.polygon_outline == bool_or(e, "POLYGONOUTLINE"@, false)
    &&& p.poured == bool_or(e, "POURED"@, false)
    &&& p.auto_generate_name == bool_or(e, "AUTOGENERATENAME"@, false)
    &&& p.clip_acute_corners == bool_or(e, "CLIPACUTECORNERS"@, false)
    &&& p.draw_dead_copper == bool_or(e, "DRAWDEADCOPPER"@, false)
    &&& p.draw_removed_islands == bool_or(e, "DRAWREMOVEDISLANDS"@, false)
    &&& p.draw_removed_necks == bool_or(e, "DRAWREMOVEDNECKS"@, false)
    &&& p.expand_outline == bool_or(e, "EXPANDOUTLINE"@, false)
    &&& p.ignore_violations == bool_or(e, "IGNOREVIOLATIONS"@, false)
    &&& p.mitre_corners == bool_or(e, "MITRECORNERS"@, false)
    &&& p.obey_polygon_cutout == bool_or(e, "OBEYPOLYGONCUTOUT"@, false)
    &&& p.optimal_void_rotation == bool_or(e, "OPTIMALVOIDROTATION"@, false)
    &&& p.allow_global_edit == bool_or(e, "ALLOWGLOBALEDIT"@, false)
    &&& p.moveable == bool_or(e, "MOVEABLE"@, false)
    &&& p.arc_pour_mode == bool_or(e, "ARCPOURMODE"@, false)
}

/// The polygon a parameter record describes.
pub open spec fn polygon_from(p: Polygon, e: Entries) -> bool {
    &&& polygon_settings_from(p, e)
    &&& polygon_switches_from(p, e)
    &&& p.vertices_use_legacy_form == old_form(e)
    &&& p.point_count as int == (if vertex_count(e) > 0 { vertex_count(e) } else { 0 })
    &&& p.vertices@.len() == vertices_read(e)
    &&& forall|i: int| 0 <= i < p.vertices@.len() ==> vertex_from(#[trigger] p.vertices@[i], e, i as nat)
    &&& additional_from(p.additional_parameters, e, vertex_count(e))
}

fn vertex_count_exec(params: &ParameterMap) -> (r: (i32, bool, bool))
    requires
        params@.len() < 0x7fff_ffff,
    ensures
        r.0 as int == vertex_count(params@),
        r.1 == new_form(params@),
        r.2 == old_form(params@),
{
    let nf = params.contains_key("SA0.X") || params.contains_key("POINTCOUNT");
    let of = !nf && (params.contains_key("VX0") || params.contains_key("KIND0"));
    let count = if nf {
        match params.get_i32("POINTCOUNT") {
            Some(n) => n,
            None => count_scan(params, false),
        }
    } else if of {
        match params.get_i32("NV") {
            Some(n) => n,
            None => count_scan(params, true),
        }
    } else {
        match params.get_i32("NV") {
            Some(n) => n,
            None => match params.get_i32("POINTCOUNT") {
                Some(n) => n,
                None => 0,
            },
        }
    };
    (count, nf, of)
}

/// Decodes a polygon parameter record.
pub fn polygon_from_params(params: &ParameterMap) -> (p: Polygon)
    requires
        params@.len() < 0x7fff_ffff,
    ensures
        polygon_from(p, params@),
{
    let (count, nf, of) = vertex_count_exec(params);
    let mut vertices: Vec<PolygonVertex> = Vec::new();
    if count > 0 && (nf || of) {
        let mut i: i32 = 0;
        while i < count
            invariant
                0 <= i <= count,
                count as int == vertex_count(params@),
                nf == new_form(params@),
                vertices@.len() == i,
                forall|j: int| 0 <= j < i ==> vertex_from(#[trigger] vertices@[j], params@, j as nat),
            decreases count - i,
        {
            let v = read_vertex(params, i as u64, !nf);
            vertices.push(v);
            i += 1;
        }
    }
    let layer = match params.get("LAYER") {
        Some(v) => parse_layer(v),
        None => 0,
    };
    let polygon_type = match params.get("POLYGONTYPE") {
        Some(v) => polygon_type_of(v),
        None => 0,
    };
    let (hatch, hatch_legacy) = match params.get("HATCHSTYLE") {
        Some(v) => (hatch_style_of(v), false),
        None => match params.get_i32("POLYHATCHSTYLE") {
            Some(n) => (n, true),
            None => (0, false),
        },
    };
    let (pour_over, pour_legacy) = match params.get_i32("POURMODE") {
        Some(n) => (n, false),
        None => match params.get_i32("POUROVER") {
            Some(n) => (n, true),
            None => match get_bool_explicit(params, "POUROVER") {
                Some(b) => (
                    if b {
                        1
                    } else {
                        0
                    },
                    true,
                ),
                None => (0, false),
            },
        },
    };
    let (necks, necks_legacy) = bool_pair(params, "REMOVENECKS", "REMOVENARROWNECKS");
    let (avoid, avoid_legacy) = bool_pair(params, "AVOIDOBST", "AVOIDOBSTICLES");
    let area_size: i64 = match params.get("REPOURAREA") {
        Some(v) => {
            let c = chars_of(v);
            let t = trim_chars(&c);
            match parse_i64_chars(&t) {
                Some(n) => n,
                None => 0,
            }
        },
        None => 0,
    };
    let extra = additional(params, count);
    Polygon {
        vertices,
        layer,
        name: opt_string(params, "NAME"),
        net: opt_string(params, "NET"),
        unique_id: opt_string(params, "UNIQUEID"),
        enabled: flag_or(params, "ENABLED", true),
        is_keepout: flag_or(params, "KEEPOUT", false),
        polygon_outline: flag_or(params, "POLYGONOUTLINE", false),
        power_plane_clearance: coord_param(params, "POWERPLANECLEARANCE", 0),
        power_plane_connect_style: int_or(params, "POWERPLANECONNECTSTYLE", 0),
        power_plane_relief_expansion: coord_param(params, "POWERPLANERELIEFEXPANSION", 0),
        relief_air_gap: coord_param(params, "RELIEFAIRGAP", 0),
        relief_conductor_width: coord_param(params, "RELIEFCONDUCTORWIDTH", 0),
        relief_entries: int_or(params, "RELIEFENTRIES", 0),
        solder_mask_expansion: coord_param(params, "SOLDERMASKEXPANSION", 0),
        primitive_lock: flag_or(params, "PRIMITIVELOCK", false),
        polygon_type,
        poly_hatch_style: hatch,
        pour_over,
        border_width: coord_param(params, "BORDERWIDTH", 0),
        track_size: coord_param(params, "TRACKWIDTH", 0),
        grid: coord_param(params, "GRIDSIZE", 0),
        min_track: coord_param(params, "MINPRIMLENGTH", 0),
        avoid_obstacles: avoid,
        avoid_obstacles_uses_legacy_key: avoid_legacy,
        pour_over_uses_legacy_key: pour_legacy,
        poly_hatch_uses_legacy_key: hatch_legacy,
        remove_necks_uses_legacy_key: necks_legacy,
        vertices_use_legacy_form: of,
        arc_pour_mode: flag_or(params, "ARCPOURMODE", false),
        auto_generate_name: flag_or(params, "AUTOGENERATENAME", false),
        clip_acute_corners: flag_or(params, "CLIPACUTECORNERS", false),
        draw_dead_copper: flag_or(params, "DRAWDEADCOPPER", false),
        draw_removed_islands: flag_or(params, "DRAWREMOVEDISLANDS", false),
        draw_removed_necks: flag_or(params, "DRAWREMOVEDNECKS", false),
        expand_outline: flag_or(params, "EXPANDOUTLINE", false),
        ignore_violations: flag_or(params, "IGNOREVIOLATIONS", false),
        island_area_threshold: int_or(params, "ISLANDAREATHRESHOLD", 0),
        mitre_corners: flag_or(params, "MITRECORNERS", false),
        neck_width_threshold: coord_param(params, "NECKWIDTH", 0),
        obey_polygon_cutout: flag_or(params, "OBEYPOLYGONCUTOUT", false),
        optimal_void_rotation: flag_or(params, "OPTIMALVOIDROTATION", false),
        point_count: if count > 0 {
            count
        } else {
            0
        },
        remove_dead: flag_or(params, "REMOVEDEAD", false),
        remove_islands_by_area: flag_or(params, "REMOVEISLANDSBYAREA", false),
        remove_narrow_necks: necks,
        use_octagons: flag_or(params, "USEOCTAGONS", false),
        allow_global_edit: flag_or(params, "ALLOWGLOBALEDIT", false),
        moveable: flag_or(params, "MOVEABLE", false),
        paste_mask_expansion: coord_param(params, "PASTEMASKEXPANSION", 0),
        is_hidden: flag_or(params, "SHELVED", false),
        poured: flag_or(params, "POURED", false),
        pour_index: int_or(params, "POURORDER", 0),
        area_size,
        arc_approximation: coord_param(params, "ARCAPPROXIMATION", 0),
        pour_over_same_net_polygons: flag_or(params, "POUROVERSAMENETPOLYGONS", false),
        additional_parameters: extra,
    }
}

// ---------------------------------------------------------------------------
// The vertex scan always ends at a gap

/// No more keys that differ pairwise (ASCII case ignored) can be present
/// in a map than it has entries.
pub proof fn lemma_present_keys_bound(e: Entries, ks: Seq<Seq<char>>)
    requires
        forall|i: int, j: int| 0 <= i < j < ks.len() ==> !crate::text::eq_ignore_case(#[trigger] ks[i], #[trigger] ks[j]),
        forall|i: int| 0 <= i < ks.len() ==> map_get(e, #[trigger] ks[i]) is Some,
    ensures
        ks.len() <= e.len(),
    decreases ks.len(),
{
    if ks.len() > 0 {
        let m = ks.len() - 1;
        let last = ks[m];
        lemma_find_key_props(e, last);
        let p = find_key(e, last)->0;
        let e2 = e.remove(p);
        let ks2 = ks.drop_last();
        assert forall|i: int| 0 <= i < ks2.len() implies map_get(e2, #[trigger] ks2[i]) is Some by {
            assert(ks2[i] == ks[i]);
            assert(map_get(e, ks[i]) is Some);
            lemma_find_key_props(e, ks[i]);
            let q = find_key(e, ks[i])->0;
            if q == p {
                assert(crate::text::eq_ignore_case(ks[i], ks[m]));
            }
            let q2 = if q < p { q } else { q - 1 };
            assert(e2[q2] == e[q]);
            lemma_find_key_props(e2, ks[i]);
        }
        assert forall|i: int, j: int| 0 <= i < j < ks2.len() implies !crate::text::eq_ignore_case(
            #[trigger] ks2[i],
            #[trigger] ks2[j],
        ) by {
            assert(ks2[i] == ks[i] && ks2[j] == ks[j]);
        }
        lemma_present_keys_bound(e2, ks2);
    }
}

/// The key that shows vertex `c` present.
pub open spec fn present_key(e: Entries, c: nat, legacy: bool) -> Seq<char> {
    if !legacy {
        vkey("SA"@, c, ".X"@)
    } else if has(e, vkey("VX"@, c, ""@)) {
        vkey("VX"@, c, ""@)
    } else {
        vkey("KIND"@, c, ""@)
    }
}

pub(crate) proof fn lemma_upper_vkey(prefix: Seq<char>, i: nat, suffix: Seq<char>)
    requires
        crate::text::upper_seq(prefix) == prefix,
        crate::text::upper_seq(suffix) == suffix,
    ensures
        crate::text::upper_seq(vkey(prefix, i, suffix)) == vkey(prefix, i, suffix),
{
    crate::binary::lemma_dec_chars(i);
    let k = vkey(prefix, i, suffix);
    assert forall|j: int| 0 <= j < k.len() implies crate::text::upper_char(#[trigger] k[j]) == k[j] by {
        if j < prefix.len() {
            assert(k[j] == prefix[j]);
            assert(crate::text::upper_seq(prefix)[j] == crate::text::upper_char(prefix[j]));
        } else if j < prefix.len() + dec(i).len() {
            assert(k[j] == dec(i)[j - prefix.len()]);
        } else {
            assert(k[j] == suffix[j - prefix.len() - dec(i).len()]);
            assert(crate::text::upper_seq(suffix)[j - prefix.len() - dec(i).len()] == crate::text::upper_char(
                suffix[j - prefix.len() - dec(i).len()],
            ));
        }
    }
    assert(crate::text::upper_seq(k) =~= k);
}

pub(crate) proof fn lemma_vkey_injective(prefix: Seq<char>, i: nat, j: nat, suffix: Seq<char>)
    requires
        vkey(prefix, i, suffix) == vkey(prefix, j, suffix),
    ensures
        i == j,
{
    crate::binary::lemma_dec_digits(i);
    crate::binary::lemma_dec_digits(j);
    let a = vkey(prefix, i, suffix);
    assert(a.len() == prefix.len() + dec(i).len() + suffix.len());
    assert(dec(i).len() == dec(j).len());
    assert(dec(i) =~= a.subrange(prefix.len() as int, (prefix.len() + dec(i).len()) as int));
    assert(dec(j) =~= a.subrange(prefix.len() as int, (prefix.len() + dec(j).len()) as int));
}

proof fn lemma_present_keys_distinct(e: Entries, i: nat, j: nat, legacy: bool)
    requires
        i != j,
    ensures
        !crate::text::eq_ignore_case(present_key(e, i, legacy), present_key(e, j, legacy)),
{
    reveal_strlit("SA");
    reveal_strlit(".X");
    reveal_strlit("VX");
    reveal_strlit("KIND");
    reveal_strlit("");
    assert(crate::text::upper_seq("SA"@) =~= "SA"@);
    assert(crate::text::upper_seq(".X"@) =~= ".X"@);
    assert(crate::text::upper_seq("VX"@) =~= "VX"@);
    assert(crate::text::upper_seq("KIND"@) =~= "KIND"@);
    assert(crate::text::upper_seq(""@) =~= ""@);
    let a = present_key(e, i, legacy);
    let b = present_key(e, j, legacy);
    lemma_upper_vkey("SA"@, i, ".X"@);
    lemma_upper_vkey("SA"@, j, ".X"@);
    lemma_upper_vkey("VX"@, i, ""@);
    lemma_upper_vkey("VX"@, j, ""@);
    lemma_upper_vkey("KIND"@, i, ""@);
    lemma_upper_vkey("KIND"@, j, ""@);
    if a == b {
        if !legacy {
            lemma_vkey_injective("SA"@, i, j, ".X"@);
        } else {
            if a[0] == 'V' && b[0] == 'V' {
                lemma_vkey_injective("VX"@, i, j, ""@);
            } else if a[0] == 'K' && b[0] == 'K' {
                lemma_vkey_injective("KIND"@, i, j, ""@);
            }
        }
    }
}

proof fn lemma_count_present_run(e: Entries, c: nat, fuel: nat, legacy: bool)
    ensures
        c <= count_present(e, c, fuel, legacy) <= c + fuel,
        forall|k: nat| c <= k < count_present(e, c, fuel, legacy) ==> #[trigger] vertex_present(e, k, legacy),
        count_present(e, c, fuel, legacy) < c + fuel ==> !vertex_present(e, count_present(e, c, fuel, legacy), legacy),
    decreases fuel,
{
    if fuel > 0 && vertex_present(e, c, legacy) {
        lemma_count_present_run(e, c + 1, (fuel - 1) as nat, legacy);
    }
}

/// Counting the vertices present never runs out of room: it stops at the
/// first absent vertex, so the count is the number of consecutive vertices
/// present from the first.
pub proof fn lemma_vertex_scan_ends_at_gap(e: Entries, legacy: bool)
    ensures
        ({
            let n = count_present(e, 0, (e.len() + 1) as nat, legacy);
            &&& forall|k: nat| k < n ==> #[trigger] vertex_present(e, k, legacy)
            &&& !vertex_present(e, n, legacy)
        }),
{
    let fuel = (e.len() + 1) as nat;
    lemma_count_present_run(e, 0, fuel, legacy);
    let n = count_present(e, 0, fuel, legacy);
    if n == fuel {
        let ks = Seq::new(fuel, |k: int| present_key(e, k as nat, legacy));
        assert forall|i: int, j: int| 0 <= i < j < ks.len() implies !crate::text::eq_ignore_case(
            #[trigger] ks[i],
            #[trigger] ks[j],
        ) by {
            lemma_present_keys_distinct(e, i as nat, j as nat, legacy);
        }
        assert forall|i: int| 0 <= i < ks.len() implies map_get(e, #[trigger] ks[i]) is Some by {
            assert(vertex_present(e, i as nat, legacy));
        }
        lemma_present_keys_bound(e, ks);
    }
}

} // verus!
