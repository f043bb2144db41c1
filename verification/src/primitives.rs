//! Copper primitives read straight from fixed-layout records: tracks, vias,
//! arcs and fills, with their defaults and bounding boxes. Angles are kept
//! as the IEEE-754 bit patterns the records store.

use vstd::prelude::*;

use crate::binary::FLAG_ALTIUM_NATIVE;
use crate::coord::{half_toward_zero, Coord, CoordPoint, CoordRect};

verus! {

/// A copper trace segment.
#[derive(Debug, Clone, PartialEq)]
pub struct Track {
    pub start: CoordPoint,
    pub end: CoordPoint,
    pub width: Coord,
    pub layer: i32,
    pub net: Option<String>,
    /// Index into the document's net table; `0` means no net.
    pub net_index: u16,
    /// Index into the document's `components` list, `-1` for free primitives.
    pub component_index: i32,
    pub unique_id: Option<String>,
    pub user_routed: bool,
    pub union_index: i32,
    pub enabled: bool,
    pub is_locked: bool,
    pub is_keepout: bool,
    /// Unmodelled flag bits from the record header, preserved verbatim.
    pub flags_extra: u16,
    /// Outline segment of a polygon pour (flag bit 1).
    pub is_polygon_outline: bool,
    pub polygon_outline: bool,
    pub is_free_primitive: bool,
    pub is_electrical_prim: bool,
    pub is_pre_route: bool,
    pub tear_drop: bool,
    pub is_tenting: bool,
    pub is_tenting_top: bool,
    pub is_tenting_bottom: bool,
    pub is_testpoint_top: bool,
    pub is_testpoint_bottom: bool,
    pub is_assy_testpoint_top: bool,
    pub is_assy_testpoint_bottom: bool,
    pub power_plane_clearance: Coord,
    pub power_plane_connect_style: i32,
    pub power_plane_relief_expansion: Coord,
    pub relief_air_gap: Coord,
    pub relief_conductor_width: Coord,
    pub relief_entries: i32,
    pub solder_mask_expansion: Coord,
    pub paste_mask_expansion: Coord,
    pub is_hidden: bool,
    pub allow_global_edit: bool,
    pub moveable: bool,
    /// Original on-disk record body, preserved so unmodelled bytes survive
    /// write-back; the writer patches the typed fields into it when present.
    pub raw_record: Option<Vec<u8>>,
}

/// What `Track::default()` holds: a zero-length, zero-width segment on no
/// layer, enabled, unowned and without a net.
pub open spec fn is_default_track(t: Track) -> bool {
    &&& t.start.x.raw == 0 && t.start.y.raw == 0
    &&& t.end.x.raw == 0 && t.end.y.raw == 0
    &&& t.width.raw == 0
    &&& t.layer == 0
    &&& t.net is None
    &&& t.net_index == 0
    &&& t.component_index == -1
    &&& t.unique_id is None
    &&& !t.user_routed
    &&& t.union_index == 0
    &&& t.enabled
    &&& !t.is_locked
    &&& !t.is_keepout
    &&& t.flags_extra == FLAG_ALTIUM_NATIVE
    &&& !t.is_polygon_outline
    &&& !t.polygon_outline
    &&& !t.is_free_primitive
    &&& !t.is_electrical_prim
    &&& !t.is_pre_route
    &&& !t.tear_drop
    &&& !t.is_tenting
    &&& !t.is_tenting_top
    &&& !t.is_tenting_bottom
    &&& !t.is_testpoint_top
    &&& !t.is_testpoint_bottom
    &&& !t.is_assy_testpoint_top
    &&& !t.is_assy_testpoint_bottom
    &&& t.power_plane_clearance.raw == 0
    &&& t.power_plane_connect_style == 0
    &&& t.power_plane_relief_expansion.raw == 0
    &&& t.relief_air_gap.raw == 0
    &&& t.relief_conductor_width.raw == 0
    &&& t.relief_entries == 0
    &&& t.solder_mask_expansion.raw == 0
    &&& t.paste_mask_expansion.raw == 0
    &&& !t.is_hidden
    &&& !t.allow_global_edit
    &&& !t.moveable
    &&& t.raw_record is None
}

impl Default for Track {
    /// `enabled` is set, as Altium emits it: copper without it is read but
    /// drawn invisible.
    fn default() -> (r: Track)
        ensures
            is_default_track(r),
    {
        Track {
            start: CoordPoint { x: Coord { raw: 0 }, y: Coord { raw: 0 } },
            end: CoordPoint { x: Coord { raw: 0 }, y: Coord { raw: 0 } },
            width: Coord { raw: 0 },
            layer: 0,
            net: None,
            net_index: 0,
            component_index: -1,
            unique_id: None,
            user_routed: false,
            union_index: 0,
            enabled: true,
            is_locked: false,
            is_keepout: false,
            flags_extra: FLAG_ALTIUM_NATIVE,
            is_polygon_outline: false,
            polygon_outline: false,
            is_free_primitive: false,
            is_electrical_prim: false,
            is_pre_route: false,
            tear_drop: false,
            is_tenting: false,
            is_tenting_top: false,
            is_tenting_bottom: false,
            is_testpoint_top: false,
            is_testpoint_bottom: false,
            is_assy_testpoint_top: false,
            is_assy_testpoint_bottom: false,
            power_plane_clearance: Coord { raw: 0 },
            power_plane_connect_style: 0,
            power_plane_relief_expansion: Coord { raw: 0 },
            relief_air_gap: Coord { raw: 0 },
            relief_conductor_width: Coord { raw: 0 },
            relief_entries: 0,
            solder_mask_expansion: Coord { raw: 0 },
            paste_mask_expansion: Coord { raw: 0 },
            is_hidden: false,
            allow_global_edit: false,
            moveable: false,
            raw_record: None,
        }
    }
}

/// A via: a plated hole joining a span of layers.
#[derive(Debug, Clone, PartialEq)]
pub struct Via {
    pub location: CoordPoint,
    pub diameter: Coord,
    pub hole_size: Coord,
    pub start_layer: i32,
    pub end_layer: i32,
    pub layer: i32,
    /// Index into the document's net table; `0` means no net.
    pub net_index: u16,
    /// Index into the document's `components` list, `-1` for free primitives.
    pub component_index: i32,
    pub net: Option<String>,
    pub unique_id: Option<String>,
    pub is_tented: bool,
    pub is_test_point: bool,
    pub solder_mask_expansion: Coord,
    pub solder_mask_expansion_manual: bool,
    pub paste_mask_expansion: Coord,
    pub is_hidden: bool,
    pub allow_global_edit: bool,
    pub moveable: bool,
    pub is_tenting_top: bool,
    pub is_tenting_bottom: bool,
    pub enabled: bool,
    pub is_locked: bool,
    pub is_keepout: bool,
    /// Unmodelled flag bits from the record header, preserved verbatim.
    pub flags_extra: u16,
    /// Fabrication test point, top side (flag bit 7).
    pub is_testpoint_fab_top: bool,
    /// Fabrication test point, bottom side (flag bit 8).
    pub is_testpoint_fab_bottom: bool,
    pub mode: i32,
    pub height: Coord,
    pub is_plated: bool,
    pub thermal_relief_air_gap: Coord,
    pub thermal_relief_conductors: i32,
    pub thermal_relief_conductors_width: Coord,
    pub power_plane_clearance: Coord,
    pub power_plane_relief_expansion: Coord,
    pub power_plane_connect_style: i32,
    pub drill_layer_pair_type: i32,
    pub hole_positive_tolerance: Coord,
    pub hole_negative_tolerance: Coord,
    pub is_free_primitive: bool,
    pub is_pre_route: bool,
    pub tear_drop: bool,
    pub is_testpoint_top: bool,
    pub is_testpoint_bottom: bool,
    pub is_assy_testpoint_top: bool,
    pub is_assy_testpoint_bottom: bool,
    pub is_electrical_prim: bool,
    pub is_backdrill: bool,
    pub is_counter_hole: bool,
    pub user_routed: bool,
    pub union_index: i32,
    pub polygon_outline: bool,
    pub solder_mask_expansion_from_hole_edge: bool,
    /// Per-layer diameter values (32 entries).
    pub diameters: [Coord; 32],
    /// 8-byte reserved field that Altium emits as `[0,0,0,1,1,1,1,0]`.
    pub reserved_block_8: [u8; 8],
    /// Reserved byte after the solder-mask-manual flag (default `1`).
    pub reserved_byte_after_mask_flag: u8,
    /// Reserved `i16` after the per-layer diameters (default `15`).
    pub trailing_reserved_i16: i16,
    /// Reserved `i32` at the end of the via record (default `259`).
    pub trailing_reserved_i32: i32,
    /// Original on-disk record body, preserved so unmodelled bytes survive
    /// write-back; the writer patches the typed fields into it when present.
    pub raw_record: Option<Vec<u8>>,
}

/// What `Via::default()` holds: a plated through-via (layers 1 to 32, on
/// the multi-layer) with zero sizes and Altium's reserved bytes.
pub open spec fn is_default_via(v: Via) -> bool {
    &&& v.location.x.raw == 0 && v.location.y.raw == 0
    &&& v.diameter.raw == 0
    &&& v.hole_size.raw == 0
    &&& v.start_layer == 1
    &&& v.end_layer == 32
    &&& v.layer == 74
    &&& v.net_index == 0
    &&& v.component_index == -1
    &&& v.net is None
    &&& v.unique_id is None
    &&& !v.is_tented
    &&& !v.is_test_point
    &&& v.solder_mask_expansion.raw == 0
    &&& !v.solder_mask_expansion_manual
    &&& v.paste_mask_expansion.raw == 0
    &&& !v.is_hidden
    &&& !v.allow_global_edit
    &&& !v.moveable
    &&& !v.is_tenting_top
    &&& !v.is_tenting_bottom
    &&& v.enabled
    &&& !v.is_locked
    &&& !v.is_keepout
    &&& v.flags_extra == FLAG_ALTIUM_NATIVE
    &&& !v.is_testpoint_fab_top
    &&& !v.is_testpoint_fab_bottom
    &&& v.mode == 0
    &&& v.height.raw == 0
    &&& v.is_plated
    &&& v.thermal_relief_air_gap.raw == 0
    &&& v.thermal_relief_conductors == 0
    &&& v.thermal_relief_conductors_width.raw == 0
    &&& v.power_plane_clearance.raw == 0
    &&& v.power_plane_relief_expansion.raw == 0
    &&& v.power_plane_connect_style == 0
    &&& v.drill_layer_pair_type == 0
    &&& v.hole_positive_tolerance.raw == 0
    &&& v.hole_negative_tolerance.raw == 0
    &&& !v.is_free_primitive
    &&& !v.is_pre_route
    &&& !v.tear_drop
    &&& !v.is_testpoint_top
    &&& !v.is_testpoint_bottom
    &&& !v.is_assy_testpoint_top
    &&& !v.is_assy_testpoint_bottom
    &&& !v.is_electrical_prim
    &&& !v.is_backdrill
    &&& !v.is_counter_hole
    &&& !v.user_routed
    &&& v.union_index == 0
    &&& !v.polygon_outline
    &&& !v.solder_mask_expansion_from_hole_edge
    &&& v.diameters@ == Seq::new(32, |i: int| Coord { raw: 0 })
    &&& v.reserved_block_8@ == seq![0u8, 0u8, 0u8, 1u8, 1u8, 1u8, 1u8, 0u8]
    &&& v.reserved_byte_after_mask_flag == 1
    &&& v.trailing_reserved_i16 == 15
    &&& v.trailing_reserved_i32 == 259
    &&& v.raw_record is None
}

impl Default for Via {
    fn default() -> (r: Via)
        ensures
            is_default_via(r),
    {
        let z = Coord { raw: 0 };
        let diameters = [z, z, z, z, z, z, z, z, z, z, z, z, z, z, z, z, z, z, z, z, z, z, z, z, z, z, z, z, z, z, z, z];
        assert(diameters@ =~= Seq::new(32, |i: int| Coord { raw: 0 }));
        let reserved = [0u8, 0u8, 0u8, 1u8, 1u8, 1u8, 1u8, 0u8];
        assert(reserved@ =~= seq![0u8, 0u8, 0u8, 1u8, 1u8, 1u8, 1u8, 0u8]);
        Via {
            location: CoordPoint { x: Coord { raw: 0 }, y: Coord { raw: 0 } },
            diameter: Coord { raw: 0 },
            hole_size: Coord { raw: 0 },
            start_layer: 1,
            end_layer: 32,
            layer: 74,
            net_index: 0,
            component_index: -1,
            net: None,
            unique_id: None,
            is_tented: false,
            is_test_point: false,
            solder_mask_expansion: Coord { raw: 0 },
            solder_mask_expansion_manual: false,
            paste_mask_expansion: Coord { raw: 0 },
            is_hidden: false,
            allow_global_edit: false,
            moveable: false,
            is_tenting_top: false,
            is_tenting_bottom: false,
            enabled: true,
            is_locked: false,
            is_keepout: false,
            flags_extra: FLAG_ALTIUM_NATIVE,
            is_testpoint_fab_top: false,
            is_testpoint_fab_bottom: false,
            mode: 0,
            height: Coord { raw: 0 },
            is_plated: true,
            thermal_relief_air_gap: Coord { raw: 0 },
            thermal_relief_conductors: 0,
            thermal_relief_conductors_width: Coord { raw: 0 },
            power_plane_clearance: Coord { raw: 0 },
            power_plane_relief_expansion: Coord { raw: 0 },
            power_plane_connect_style: 0,
            drill_layer_pair_type: 0,
            hole_positive_tolerance: Coord { raw: 0 },
            hole_negative_tolerance: Coord { raw: 0 },
            is_free_primitive: false,
            is_pre_route: false,
            tear_drop: false,
            is_testpoint_top: false,
            is_testpoint_bottom: false,
            is_assy_testpoint_top: false,
            is_assy_testpoint_bottom: false,
            is_electrical_prim: false,
            is_backdrill: false,
            is_counter_hole: false,
            user_routed: false,
            union_index: 0,
            polygon_outline: false,
            solder_mask_expansion_from_hole_edge: false,
            diameters,
            reserved_block_8: reserved,
            reserved_byte_after_mask_flag: 1,
            trailing_reserved_i16: 15,
            trailing_reserved_i32: 259,
            raw_record: None,
        }
    }
}

impl Track {
    /// The box covering both end points, widened by half the track width.
    pub fn bounds(&self) -> (r: CoordRect)
        ensures
            r.x1 == min(self.start.x.raw as int, self.end.x.raw as int) - half_toward_zero(self.width.raw as int),
            r.y1 == min(self.start.y.raw as int, self.end.y.raw as int) - half_toward_zero(self.width.raw as int),
            r.x2 == max(self.start.x.raw as int, self.end.x.raw as int) + half_toward_zero(self.width.raw as int),
            r.y2 == max(self.start.y.raw as int, self.end.y.raw as int) + half_toward_zero(self.width.raw as int),
    {
        let half: i64 = (self.width.raw / 2) as i64;
        let x_lo: i64 = if self.start.x.raw < self.end.x.raw { self.start.x.raw as i64 } else { self.end.x.raw as i64 };
        let y_lo: i64 = if self.start.y.raw < self.end.y.raw { self.start.y.raw as i64 } else { self.end.y.raw as i64 };
        let x_hi: i64 = if self.start.x.raw < self.end.x.raw { self.end.x.raw as i64 } else { self.start.x.raw as i64 };
        let y_hi: i64 = if self.start.y.raw < self.end.y.raw { self.end.y.raw as i64 } else { self.start.y.raw as i64 };
        CoordRect::from_xyxy(x_lo - half, y_lo - half, x_hi + half, y_hi + half)
    }
}

impl Via {
    /// The square of side `diameter` centred on the via.
    pub fn bounds(&self) -> (r: CoordRect)
        ensures
            r.x1 == self.location.x.raw - half_toward_zero(self.diameter.raw as int),
            r.x2 == self.location.x.raw + half_toward_zero(self.diameter.raw as int),
            r.y1 == self.location.y.raw - half_toward_zero(self.diameter.raw as int),
            r.y2 == self.location.y.raw + half_toward_zero(self.diameter.raw as int),
    {
        CoordRect::from_center(self.location, self.diameter, self.diameter)
    }
}

pub open spec fn min(a: int, b: int) -> int {
    if a < b {
        a
    } else {
        b
    }
}

pub open spec fn max(a: int, b: int) -> int {
    if a < b {
        b
    } else {
        a
    }
}


/// A circular arc; a full circle runs from 0 to 360 degrees.
#[derive(Debug, Clone, PartialEq)]
pub struct Arc {
    pub center: CoordPoint,
    pub radius: Coord,
    /// Bit pattern of the start angle (an IEEE-754 double, degrees).
    pub start_angle_bits: u64,
    /// Bit pattern of the end angle (an IEEE-754 double, degrees).
    pub end_angle_bits: u64,
    pub width: Coord,
    pub layer: i32,
    pub net: Option<String>,
    pub net_index: u16,
    /// Index into the document's `components` list, `-1` for free primitives.
    pub component_index: i32,
    pub unique_id: Option<String>,
    pub user_routed: bool,
    pub union_index: i32,
    pub enabled: bool,
    pub is_locked: bool,
    pub is_keepout: bool,
    /// Unmodelled flag bits from the record header, preserved verbatim.
    pub flags_extra: u16,
    /// Outline segment of a polygon pour (flag bit 1).
    pub is_polygon_outline: bool,
    pub polygon_outline: bool,
    pub is_free_primitive: bool,
    pub is_electrical_prim: bool,
    pub is_pre_route: bool,
    pub tear_drop: bool,
    pub is_tenting: bool,
    pub is_tenting_top: bool,
    pub is_tenting_bottom: bool,
    pub is_testpoint_top: bool,
    pub is_testpoint_bottom: bool,
    pub is_assy_testpoint_top: bool,
    pub is_assy_testpoint_bottom: bool,
    pub power_plane_clearance: Coord,
    pub power_plane_connect_style: i32,
    pub power_plane_relief_expansion: Coord,
    pub relief_air_gap: Coord,
    pub relief_conductor_width: Coord,
    pub relief_entries: i32,
    pub solder_mask_expansion: Coord,
    pub paste_mask_expansion: Coord,
    pub is_hidden: bool,
    pub allow_global_edit: bool,
    pub moveable: bool,
    /// Original on-disk record body, preserved so unmodelled bytes survive
    /// write-back; the writer patches the typed fields into it when present.
    pub raw_record: Option<Vec<u8>>,
}

/// What `Arc::default()` holds: a zero arc on no layer, enabled, unowned,
/// without a net; both angles are `0.0`, whose bit pattern is zero.
pub open spec fn is_default_arc(a: Arc) -> bool {
    &&& a.center.x.raw == 0 && a.center.y.raw == 0
    &&& a.radius.raw == 0
    &&& a.start_angle_bits == 0 && a.end_angle_bits == 0
    &&& a.width.raw == 0
    &&& a.layer == 0
    &&& a.net is None
    &&& a.net_index == 0
    &&& a.component_index == -1
    &&& a.unique_id is None
    &&& !a.user_routed
    &&& a.union_index == 0
    &&& a.enabled
    &&& !a.is_locked
    &&& !a.is_keepout
    &&& a.flags_extra == FLAG_ALTIUM_NATIVE
    &&& !a.is_polygon_outline
    &&& !a.polygon_outline
    &&& !a.is_free_primitive
    &&& !a.is_electrical_prim
    &&& !a.is_pre_route
    &&& !a.tear_drop
    &&& !a.is_tenting
    &&& !a.is_tenting_top
    &&& !a.is_tenting_bottom
    &&& !a.is_testpoint_top
    &&& !a.is_testpoint_bottom
    &&& !a.is_assy_testpoint_top
    &&& !a.is_assy_testpoint_bottom
    &&& a.power_plane_clearance.raw == 0
    &&& a.power_plane_connect_style == 0
    &&& a.power_plane_relief_expansion.raw == 0
    &&& a.relief_air_gap.raw == 0
    &&& a.relief_conductor_width.raw == 0
    &&& a.relief_entries == 0
    &&& a.solder_mask_expansion.raw == 0
    &&& a.paste_mask_expansion.raw == 0
    &&& !a.is_hidden
    &&& !a.allow_global_edit
    &&& !a.moveable
    &&& a.raw_record is None
}

impl Default for Arc {
    fn default() -> (r: Arc)
        ensures
            is_default_arc(r),
    {
        Arc {
            center: CoordPoint { x: Coord { raw: 0 }, y: Coord { raw: 0 } },
            radius: Coord { raw: 0 },
            start_angle_bits: 0,
            end_angle_bits: 0,
            width: Coord { raw: 0 },
            layer: 0,
            net: None,
            net_index: 0,
            component_index: -1,
            unique_id: None,
            user_routed: false,
            union_index: 0,
            enabled: true,
            is_locked: false,
            is_keepout: false,
            flags_extra: FLAG_ALTIUM_NATIVE,
            is_polygon_outline: false,
            polygon_outline: false,
            is_free_primitive: false,
            is_electrical_prim: false,
            is_pre_route: false,
            tear_drop: false,
            is_tenting: false,
            is_tenting_top: false,
            is_tenting_bottom: false,
            is_testpoint_top: false,
            is_testpoint_bottom: false,
            is_assy_testpoint_top: false,
            is_assy_testpoint_bottom: false,
            power_plane_clearance: Coord { raw: 0 },
            power_plane_connect_style: 0,
            power_plane_relief_expansion: Coord { raw: 0 },
            relief_air_gap: Coord { raw: 0 },
            relief_conductor_width: Coord { raw: 0 },
            relief_entries: 0,
            solder_mask_expansion: Coord { raw: 0 },
            paste_mask_expansion: Coord { raw: 0 },
            is_hidden: false,
            allow_global_edit: false,
            moveable: false,
            raw_record: None,
        }
    }
}

impl Arc {
    /// The square around the full circle, widened by half the arc width.
    pub fn bounds(&self) -> (r: CoordRect)
        requires
            i32::MIN <= 2 * arc_extent(*self) <= i32::MAX,
        ensures
            r.x1 == self.center.x.raw - arc_extent(*self),
            r.x2 == self.center.x.raw + arc_extent(*self),
            r.y1 == self.center.y.raw - arc_extent(*self),
            r.y2 == self.center.y.raw + arc_extent(*self),
    {
        let half: i32 = self.width.raw / 2;
        assert(half == half_toward_zero(self.width.raw as int));
        let extent: i32 = self.radius.raw + half;
        let side = Coord { raw: extent * 2 };
        let r = CoordRect::from_center(self.center, side, side);
        assert(half_toward_zero(2 * extent as int) == extent);
        r
    }
}

/// The radius plus half the width, the half rounded toward zero.
pub open spec fn arc_extent(a: Arc) -> int {
    a.radius.raw + half_toward_zero(a.width.raw as int)
}

/// A filled rectangle between two corners, rotatable about its centre.
#[derive(Debug, Clone, PartialEq)]
pub struct Fill {
    pub corner1: CoordPoint,
    pub corner2: CoordPoint,
    pub layer: i32,
    /// Bit pattern of the rotation (an IEEE-754 double, degrees).
    pub rotation_bits: u64,
    pub net: Option<String>,
    pub net_index: u16,
    /// Index into the document's `components` list, `-1` for free fills.
    pub component_index: i32,
    pub unique_id: Option<String>,
    pub is_locked: bool,
    pub user_routed: bool,
    pub union_index: i32,
    pub enabled: bool,
    pub is_keepout: bool,
    /// Unmodelled flag bits from the record header, preserved verbatim.
    pub flags_extra: u16,
    pub is_free_primitive: bool,
    pub is_electrical_prim: bool,
    pub is_pre_route: bool,
    pub tear_drop: bool,
    pub polygon_outline: bool,
    pub is_tenting: bool,
    pub is_tenting_top: bool,
    pub is_tenting_bottom: bool,
    pub is_testpoint_top: bool,
    pub is_testpoint_bottom: bool,
    pub is_assy_testpoint_top: bool,
    pub is_assy_testpoint_bottom: bool,
    pub power_plane_clearance: Coord,
    pub power_plane_connect_style: i32,
    pub power_plane_relief_expansion: Coord,
    pub relief_air_gap: Coord,
    pub relief_conductor_width: Coord,
    pub relief_entries: i32,
    pub solder_mask_expansion: Coord,
    pub paste_mask_expansion: Coord,
    pub is_hidden: bool,
    pub allow_global_edit: bool,
    pub moveable: bool,
    pub is_redundant: bool,
    /// Original on-disk record body, preserved so unmodelled bytes survive
    /// write-back; the writer patches the typed fields into it when present.
    pub raw_record: Option<Vec<u8>>,
}

/// What `Fill::default()` holds: a degenerate fill at the origin on no
/// layer, unrotated, enabled, unowned and without a net.
pub open spec fn is_default_fill(f: Fill) -> bool {
    &&& f.corner1.x.raw == 0 && f.corner1.y.raw == 0
    &&& f.corner2.x.raw == 0 && f.corner2.y.raw == 0
    &&& f.layer == 0
    &&& f.rotation_bits == 0
    &&& f.net is None
    &&& f.net_index == 0
    &&& f.component_index == -1
    &&& f.unique_id is None
    &&& !f.is_locked
    &&& !f.user_routed
    &&& f.union_index == 0
    &&& f.enabled
    &&& !f.is_keepout
    &&& f.flags_extra == FLAG_ALTIUM_NATIVE
    &&& !f.is_free_primitive
    &&& !f.is_electrical_prim
    &&& !f.is_pre_route
    &&& !f.tear_drop
    &&& !f.polygon_outline
    &&& !f.is_tenting
    &&& !f.is_tenting_top
    &&& !f.is_tenting_bottom
    &&& !f.is_testpoint_top
    &&& !f.is_testpoint_bottom
    &&& !f.is_assy_testpoint_top
    &&& !f.is_assy_testpoint_bottom
    &&& f.power_plane_clearance.raw == 0
    &&& f.power_plane_connect_style == 0
    &&& f.power_plane_relief_expansion.raw == 0
    &&& f.relief_air_gap.raw == 0
    &&& f.relief_conductor_width.raw == 0
    &&& f.relief_entries == 0
    &&& f.solder_mask_expansion.raw == 0
    &&& f.paste_mask_expansion.raw == 0
    &&& !f.is_hidden
    &&& !f.allow_global_edit
    &&& !f.moveable
    &&& !f.is_redundant
    &&& f.raw_record is None
}

impl Default for Fill {
    fn default() -> (r: Fill)
        ensures
            is_default_fill(r),
    {
        Fill {
            corner1: CoordPoint { x: Coord { raw: 0 }, y: Coord { raw: 0 } },
            corner2: CoordPoint { x: Coord { raw: 0 }, y: Coord { raw: 0 } },
            layer: 0,
            rotation_bits: 0,
            net: None,
            net_index: 0,
            component_index: -1,
            unique_id: None,
            is_locked: false,
            user_routed: false,
            union_index: 0,
            enabled: true,
            is_keepout: false,
            flags_extra: FLAG_ALTIUM_NATIVE,
            is_free_primitive: false,
            is_electrical_prim: false,
            is_pre_route: false,
            tear_drop: false,
            polygon_outline: false,
            is_tenting: false,
            is_tenting_top: false,
            is_tenting_bottom: false,
            is_testpoint_top: false,
            is_testpoint_bottom: false,
            is_assy_testpoint_top: false,
            is_assy_testpoint_bottom: false,
            power_plane_clearance: Coord { raw: 0 },
            power_plane_connect_style: 0,
            power_plane_relief_expansion: Coord { raw: 0 },
            relief_air_gap: Coord { raw: 0 },
            relief_conductor_width: Coord { raw: 0 },
            relief_entries: 0,
            solder_mask_expansion: Coord { raw: 0 },
            paste_mask_expansion: Coord { raw: 0 },
            is_hidden: false,
            allow_global_edit: false,
            moveable: false,
            is_redundant: false,
            raw_record: None,
        }
    }
}

impl Fill {
    /// The box spanned by the two corners.
    pub fn bounds(&self) -> (r: CoordRect)
        ensures
            r.x1 == min(self.corner1.x.raw as int, self.corner2.x.raw as int),
            r.y1 == min(self.corner1.y.raw as int, self.corner2.y.raw as int),
            r.x2 == max(self.corner1.x.raw as int, self.corner2.x.raw as int),
            r.y2 == max(self.corner1.y.raw as int, self.corner2.y.raw as int),
    {
        let (ax, bx) = (self.corner1.x.raw as i64, self.corner2.x.raw as i64);
        let (ay, by) = (self.corner1.y.raw as i64, self.corner2.y.raw as i64);
        CoordRect::from_xyxy(
            if ax < bx { ax } else { bx },
            if ay < by { ay } else { by },
            if ax < bx { bx } else { ax },
            if ay < by { by } else { ay },
        )
    }

    /// The horizontal distance between the corners.
    pub fn width(&self) -> (w: Coord)
        requires
            self.corner2.x.raw - self.corner1.x.raw <= i32::MAX,
            self.corner1.x.raw - self.corner2.x.raw <= i32::MAX,
        ensures
            w.raw == abs(self.corner2.x.raw - self.corner1.x.raw),
    {
        let d: i32 = self.corner2.x.raw - self.corner1.x.raw;
        Coord { raw: if d < 0 { -d } else { d } }
    }

    /// The vertical distance between the corners.
    pub fn height(&self) -> (h: Coord)
        requires
            self.corner2.y.raw - self.corner1.y.raw <= i32::MAX,
            self.corner1.y.raw - self.corner2.y.raw <= i32::MAX,
        ensures
            h.raw == abs(self.corner2.y.raw - self.corner1.y.raw),
    {
        let d: i32 = self.corner2.y.raw - self.corner1.y.raw;
        Coord { raw: if d < 0 { -d } else { d } }
    }
}

pub open spec fn abs(v: int) -> int {
    if v < 0 {
        -v
    } else {
        v
    }
}

} // verus!
