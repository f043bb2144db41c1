//! Pads: the copper land of a footprint pin, with its per-layer size and
//! shape tables. Shape and hole-type values are kept as the codes the
//! records store, rotations as the IEEE-754 bit patterns.

use vstd::prelude::*;

use crate::binary::FLAG_ALTIUM_NATIVE;
use crate::coord::{half_toward_zero, Coord, CoordPoint, CoordRect};
use crate::text::owned;

verus! {

/// Shape code of a round (circle, oval) pad.
pub const PAD_SHAPE_ROUND: i32 = 1;

/// Shape code of a rectangular pad.
pub const PAD_SHAPE_RECTANGULAR: i32 = 2;

/// Shape code of an octagonal pad.
pub const PAD_SHAPE_OCTAGONAL: i32 = 3;

/// Shape code of a rounded-rectangle pad.
pub const PAD_SHAPE_ROUNDED_RECTANGLE: i32 = 9;

/// Hole-type code of a round hole.
pub const PAD_HOLE_ROUND: i32 = 0;

/// Hole-type code of a square hole.
pub const PAD_HOLE_SQUARE: i32 = 1;

/// Hole-type code of a slot.
pub const PAD_HOLE_SLOT: i32 = 2;

/// Whether a shape code is one the library draws as such (round,
/// rectangular, octagonal, rounded rectangle); any other code marks a
/// custom-shape pad whose outline lives in a region.
pub open spec fn is_modelled_shape(code: int) -> bool {
    code == 1 || code == 2 || code == 3 || code == 9
}

/// A footprint or board pad.
#[derive(Debug, Clone, PartialEq)]
pub struct Pad {
    pub designator: Option<String>,
    pub name: Option<String>,
    pub net: Option<String>,
    pub net_index: u16,
    pub component_index: i32,
    pub unique_id: Option<String>,
    pub location: CoordPoint,
    pub layer: i32,
    /// Bit pattern of the rotation (an IEEE-754 double, degrees).
    pub rotation_bits: u64,
    /// Top-layer pad size.
    pub size_top: CoordPoint,
    /// Mid-layer pad size (used when `mode != 0`).
    pub size_middle: CoordPoint,
    /// Bottom-layer pad size.
    pub size_bottom: CoordPoint,
    /// Shape code of the top layer (see the `PAD_SHAPE_*` codes).
    pub shape_top: i32,
    pub shape_middle: i32,
    pub shape_bottom: i32,
    pub hole_size: Coord,
    /// Hole-type code (see the `PAD_HOLE_*` codes).
    pub hole_type: i32,
    pub hole_width: Coord,
    /// Bit pattern of the hole rotation (an IEEE-754 double, degrees).
    pub hole_rotation_bits: u64,
    pub hole_slot_length: i32,
    pub drill_type: i32,
    pub is_plated: bool,
    pub is_hole_size_valid: bool,
    pub hole_positive_tolerance: Coord,
    pub hole_negative_tolerance: Coord,
    /// Stack mode (0 simple, 1 top-middle-bottom, 2 full stack).
    pub mode: i32,
    pub corner_radius_percentage: i32,
    pub power_plane_connect_style: i32,
    pub power_plane_clearance: Coord,
    pub power_plane_relief_expansion: Coord,
    pub relief_air_gap: Coord,
    pub relief_conductor_width: Coord,
    pub relief_entries: i32,
    pub paste_mask_expansion: Coord,
    pub solder_mask_expansion: Coord,
    pub solder_mask_expansion_from_hole_edge: bool,
    pub solder_mask_expansion_from_hole_edge_with_rule: bool,
    pub is_tenting_top: bool,
    pub is_tenting_bottom: bool,
    pub is_tenting: bool,
    pub is_top_paste_enabled: bool,
    pub is_bottom_paste_enabled: bool,
    pub swap_id_pad: Option<String>,
    pub swap_id_part: Option<String>,
    pub swapped_pad_name: Option<String>,
    pub jumper_id: i32,
    pub owner_part_id: i32,
    pub daisy_chain_style: i32,
    pub enabled: bool,
    pub is_locked: bool,
    pub is_keepout: bool,
    /// Unmodelled flag bits from the record header, preserved verbatim.
    pub flags_extra: u16,
    /// Fabrication test point, top side (flag bit 7).
    pub is_testpoint_fab_top: bool,
    /// Fabrication test point, bottom side (flag bit 8).
    pub is_testpoint_fab_bottom: bool,
    pub is_hidden: bool,
    pub is_test_point_top: bool,
    pub is_test_point_bottom: bool,
    pub is_assy_testpoint_top: bool,
    pub is_assy_testpoint_bottom: bool,
    pub user_routed: bool,
    pub union_index: i32,
    pub is_free_primitive: bool,
    pub is_electrical_prim: bool,
    pub is_pre_route: bool,
    pub tear_drop: bool,
    pub polygon_outline: bool,
    pub is_surface_mount: bool,
    pub is_pad_stack: bool,
    pub is_virtual_pin: bool,
    pub is_counter_hole: bool,
    pub allow_global_edit: bool,
    pub moveable: bool,
    pub has_corner_radius_chamfer: bool,
    pub has_custom_chamfered_rectangle: bool,
    pub has_custom_donut: bool,
    pub has_custom_mask_donut_shapes: bool,
    pub has_custom_mask_shapes: bool,
    pub has_custom_rounded_rectangle: bool,
    pub has_custom_shapes: bool,
    pub has_rounded_rectangular_shapes: bool,
    pub multi_layer_high_bits: i32,
    pub pad_has_offset_on_any: bool,
    pub x_pad_offset_all: Coord,
    pub y_pad_offset_all: Coord,
    pub pin_package_length: Coord,
    pub max_c_signal_layers: Coord,
    pub max_x_signal_layers: Coord,
    pub max_y_signal_layers: Coord,
    pub top_x_size: Coord,
    pub top_y_size: Coord,
    pub mid_x_size: Coord,
    pub mid_y_size: Coord,
    pub bot_x_size: Coord,
    pub bot_y_size: Coord,
    pub top_shape: i32,
    pub mid_shape: i32,
    pub bot_shape: i32,
    /// Per-layer X sizes for the 29 internal copper layers (raw values).
    pub layer_x_sizes: [i32; 29],
    /// Per-layer Y sizes for the 29 internal copper layers (raw values).
    pub layer_y_sizes: [i32; 29],
    /// Per-layer shape codes of the 29 internal layers.
    pub internal_layer_shapes: [u8; 29],
    /// Per-layer X offsets from the hole centre (32 layers, raw).
    pub offset_x_from_hole_center: [i32; 32],
    /// Per-layer Y offsets from the hole centre (32 layers, raw).
    pub offset_y_from_hole_center: [i32; 32],
    /// Non-zero when the per-layer shape and radius tables are authoritative.
    pub has_rounded_rect_byte: u8,
    /// Per-layer shape overrides (32 layers).
    pub per_layer_shapes: [u8; 32],
    /// Per-layer corner-radius percentages (32 layers).
    pub per_layer_corner_radii: [u8; 32],
    /// Whether the record carried a size/shape block.
    pub has_size_shape_block: bool,
    /// Bytes of the reserved block between the designator and the net
    /// string; Altium writes a single zero byte.
    pub reserved_block_after_designator: Vec<u8>,
    /// Bytes of the reserved block after the net string.
    pub reserved_block_after_net_string: Vec<u8>,
    /// The pad's net-string block, `|&|0` in Altium's own files.
    pub net_string_block: String,
    /// Original main record block, preserved so unmodelled bytes survive
    /// write-back; the writer patches the typed fields into it when present.
    pub raw_record: Option<Vec<u8>>,
    /// Original size/shape block bytes (see `raw_record`).
    pub raw_size_shape: Option<Vec<u8>>,
}

/// The characters of the net-string block Altium writes for a fresh pad.
pub open spec fn default_net_string() -> Seq<char> {
    seq!['|', '&', '|', '0']
}

/// The fields of `Pad::default()` that no pad record carries.
pub open spec fn pad_unrecorded_default(p: Pad) -> bool {
    &&& p.name is None && p.net is None && p.unique_id is None
    &&& p.hole_width.raw == 0
    &&& !p.is_hole_size_valid
    &&& p.hole_positive_tolerance.raw == 0 && p.hole_negative_tolerance.raw == 0
    &&& !p.solder_mask_expansion_from_hole_edge && !p.solder_mask_expansion_from_hole_edge_with_rule
    &&& !p.is_tenting
    &&& p.swap_id_pad is None && p.swap_id_part is None && p.swapped_pad_name is None
    &&& p.owner_part_id == 0 && p.daisy_chain_style == 0
    &&& p.enabled
    &&& !p.is_hidden
    &&& !p.is_test_point_top && !p.is_test_point_bottom
    &&& !p.is_assy_testpoint_top && !p.is_assy_testpoint_bottom
    &&& !p.user_routed
    &&& p.union_index == 0
    &&& !p.is_free_primitive && !p.is_electrical_prim && !p.is_pre_route
    &&& !p.tear_drop && !p.polygon_outline
    &&& !p.is_pad_stack && !p.is_virtual_pin && !p.is_counter_hole
    &&& !p.allow_global_edit && !p.moveable
    &&& !p.has_corner_radius_chamfer && !p.has_custom_chamfered_rectangle
    &&& !p.has_custom_donut && !p.has_custom_mask_donut_shapes && !p.has_custom_mask_shapes
    &&& p.multi_layer_high_bits == 0
    &&& !p.pad_has_offset_on_any
    &&& p.x_pad_offset_all.raw == 0 && p.y_pad_offset_all.raw == 0
    &&& p.pin_package_length.raw == 0
    &&& p.max_c_signal_layers.raw == 0 && p.max_x_signal_layers.raw == 0 && p.max_y_signal_layers.raw == 0
}

/// What `Pad::default()` holds: a plated, round, zero-size pad on no layer,
/// unowned, without a net, with Altium's four-spoke relief, a 50 % corner
/// radius, zeroed tables, the reserved blocks Altium writes and no
/// preserved record.
pub open spec fn is_default_pad(p: Pad) -> bool {
    &&& pad_unrecorded_default(p)
    &&& p.designator is None
    &&& p.net_index == 0
    &&& p.component_index == -1
    &&& p.location.x.raw == 0 && p.location.y.raw == 0
    &&& p.layer == 0
    &&& p.rotation_bits == 0
    &&& p.size_top.x.raw == 0 && p.size_top.y.raw == 0
    &&& p.size_middle.x.raw == 0 && p.size_middle.y.raw == 0
    &&& p.size_bottom.x.raw == 0 && p.size_bottom.y.raw == 0
    &&& p.shape_top == PAD_SHAPE_ROUND && p.shape_middle == PAD_SHAPE_ROUND && p.shape_bottom == PAD_SHAPE_ROUND
    &&& p.hole_size.raw == 0
    &&& p.hole_type == PAD_HOLE_ROUND
    &&& p.hole_rotation_bits == 0
    &&& p.hole_slot_length == 0
    &&& p.drill_type == 0
    &&& p.is_plated
    &&& p.mode == 0
    &&& p.corner_radius_percentage == 50
    &&& p.power_plane_connect_style == 0
    &&& p.power_plane_clearance.raw == 0 && p.power_plane_relief_expansion.raw == 0
    &&& p.relief_air_gap.raw == 0 && p.relief_conductor_width.raw == 0
    &&& p.relief_entries == 4
    &&& p.paste_mask_expansion.raw == 0 && p.solder_mask_expansion.raw == 0
    &&& !p.is_tenting_top && !p.is_tenting_bottom
    &&& !p.is_top_paste_enabled && !p.is_bottom_paste_enabled
    &&& p.jumper_id == 0
    &&& !p.is_locked && !p.is_keepout
    &&& p.flags_extra == FLAG_ALTIUM_NATIVE
    &&& !p.is_testpoint_fab_top && !p.is_testpoint_fab_bottom
    &&& !p.is_surface_mount
    &&& !p.has_custom_rounded_rectangle && !p.has_custom_shapes && !p.has_rounded_rectangular_shapes
    &&& p.top_x_size.raw == 0 && p.top_y_size.raw == 0
    &&& p.mid_x_size.raw == 0 && p.mid_y_size.raw == 0
    &&& p.bot_x_size.raw == 0 && p.bot_y_size.raw == 0
    &&& p.top_shape == 0 && p.mid_shape == 0 && p.bot_shape == 0
    &&& p.layer_x_sizes@ == Seq::new(29, |i: int| 0i32)
    &&& p.layer_y_sizes@ == Seq::new(29, |i: int| 0i32)
    &&& p.internal_layer_shapes@ == Seq::new(29, |i: int| 0u8)
    &&& p.offset_x_from_hole_center@ == Seq::new(32, |i: int| 0i32)
    &&& p.offset_y_from_hole_center@ == Seq::new(32, |i: int| 0i32)
    &&& p.has_rounded_rect_byte == 0
    &&& p.per_layer_shapes@ == Seq::new(32, |i: int| 0u8)
    &&& p.per_layer_corner_radii@ == Seq::new(32, |i: int| 0u8)
    &&& !p.has_size_shape_block
    &&& p.reserved_block_after_designator@ == seq![0u8]
    &&& p.reserved_block_after_net_string@ == seq![0u8]
    &&& p.net_string_block@ == default_net_string()
    &&& p.raw_record is None
    &&& p.raw_size_shape is None
}

impl Default for Pad {
    fn default() -> (r: Pad)
        ensures
            is_default_pad(r),
    {
        let z = Coord { raw: 0 };
        let origin = CoordPoint { x: z, y: z };
        let zeros29 = [0i32; 29];
        assert(zeros29@ =~= Seq::new(29, |i: int| 0i32));
        let bytes29 = [0u8; 29];
        assert(bytes29@ =~= Seq::new(29, |i: int| 0u8));
        let zeros32 = [0i32; 32];
        assert(zeros32@ =~= Seq::new(32, |i: int| 0i32));
        let bytes32 = [0u8; 32];
        assert(bytes32@ =~= Seq::new(32, |i: int| 0u8));
        let mut reserved_a: Vec<u8> = Vec::new();
        reserved_a.push(0u8);
        let mut reserved_b: Vec<u8> = Vec::new();
        reserved_b.push(0u8);
        let net_string = owned("|&|0");
        proof {
            reveal_strlit("|&|0");
        }
        let r = Pad {
            designator: None,
            name: None,
            net: None,
            net_index: 0,
            component_index: -1,
            unique_id: None,
            location: origin,
            layer: 0,
            rotation_bits: 0,
            size_top: origin,
            size_middle: origin,
            size_bottom: origin,
            shape_top: PAD_SHAPE_ROUND,
            shape_middle: PAD_SHAPE_ROUND,
            shape_bottom: PAD_SHAPE_ROUND,
            hole_size: z,
            hole_type: PAD_HOLE_ROUND,
            hole_width: z,
            hole_rotation_bits: 0,
            hole_slot_length: 0,
            drill_type: 0,
            is_plated: true,
            is_hole_size_valid: false,
            hole_positive_tolerance: z,
            hole_negative_tolerance: z,
            mode: 0,
            corner_radius_percentage: 50,
            power_plane_connect_style: 0,
            power_plane_clearance: z,
            power_plane_relief_expansion: z,
            relief_air_gap: z,
            relief_conductor_width: z,
            relief_entries: 4,
            paste_mask_expansion: z,
            solder_mask_expansion: z,
            solder_mask_expansion_from_hole_edge: false,
            solder_mask_expansion_from_hole_edge_with_rule: false,
            is_tenting_top: false,
            is_tenting_bottom: false,
            is_tenting: false,
            is_top_paste_enabled: false,
            is_bottom_paste_enabled: false,
            swap_id_pad: None,
            swap_id_part: None,
            swapped_pad_name: None,
            jumper_id: 0,
            owner_part_id: 0,
            daisy_chain_style: 0,
            enabled: true,
            is_locked: false,
            is_keepout: false,
            flags_extra: FLAG_ALTIUM_NATIVE,
            is_testpoint_fab_top: false,
            is_testpoint_fab_bottom: false,
            is_hidden: false,
            is_test_point_top: false,
            is_test_point_bottom: false,
            is_assy_testpoint_top: false,
            is_assy_testpoint_bottom: false,
            user_routed: false,
            union_index: 0,
            is_free_primitive: false,
            is_electrical_prim: false,
            is_pre_route: false,
            tear_drop: false,
            polygon_outline: false,
            is_surface_mount: false,
            is_pad_stack: false,
            is_virtual_pin: false,
            is_counter_hole: false,
            allow_global_edit: false,
            moveable: false,
            has_corner_radius_chamfer: false,
            has_custom_chamfered_rectangle: false,
            has_custom_donut: false,
            has_custom_mask_donut_shapes: false,
            has_custom_mask_shapes: false,
            has_custom_rounded_rectangle: false,
            has_custom_shapes: false,
            has_rounded_rectangular_shapes: false,
            multi_layer_high_bits: 0,
            pad_has_offset_on_any: false,
            x_pad_offset_all: z,
            y_pad_offset_all: z,
            pin_package_length: z,
            max_c_signal_layers: z,
            max_x_signal_layers: z,
            max_y_signal_layers: z,
            top_x_size: z,
            top_y_size: z,
            mid_x_size: z,
            mid_y_size: z,
            bot_x_size: z,
            bot_y_size: z,
            top_shape: 0,
            mid_shape: 0,
            bot_shape: 0,
            layer_x_sizes: zeros29,
            layer_y_sizes: zeros29,
            internal_layer_shapes: bytes29,
            offset_x_from_hole_center: zeros32,
            offset_y_from_hole_center: zeros32,
            has_rounded_rect_byte: 0,
            per_layer_shapes: bytes32,
            per_layer_corner_radii: bytes32,
            has_size_shape_block: false,
            reserved_block_after_designator: reserved_a,
            reserved_block_after_net_string: reserved_b,
            net_string_block: net_string,
            raw_record: None,
            raw_size_shape: None,
        };
        assert(r.net_string_block@ =~= default_net_string());
        assert(r.reserved_block_after_designator@ =~= seq![0u8]);
        assert(r.reserved_block_after_net_string@ =~= seq![0u8]);
        r
    }
}

impl Pad {
    /// The box of the top-layer land, centred on the pad.
    pub fn bounds(&self) -> (r: CoordRect)
        ensures
            r.x1 == self.location.x.raw - half_toward_zero(self.size_top.x.raw as int),
            r.x2 == self.location.x.raw + half_toward_zero(self.size_top.x.raw as int),
            r.y1 == self.location.y.raw - half_toward_zero(self.size_top.y.raw as int),
            r.y2 == self.location.y.raw + half_toward_zero(self.size_top.y.raw as int),
    {
        CoordRect::from_center(self.location, self.size_top.x, self.size_top.y)
    }
}

} // verus!
