use altium::builders::{ArcBuilder, PadBuilder, TrackBuilder, ViaBuilder};
use altium::pad::PAD_SHAPE_RECTANGULAR;
use altium::coord::Coord;
use altium::primitives::{Track, Via};

#[test]
fn track_builder_chains_cleanly() {
    let track = TrackBuilder::new()
        .from(Coord::zero(), Coord::zero())
        .to(Coord::from_mils(100), Coord::zero())
        .width(Coord::from_mils(8))
        .layer(32)
        .build();
    assert_eq!(track.layer, 32);
    assert_eq!(track.width, Coord::from_mils(8));
}

#[test]
fn via_builder_uses_through_via_default() {
    let via = ViaBuilder::new()
        .at(Coord::zero(), Coord::zero())
        .diameter(Coord::from_mils(28))
        .hole_size(Coord::from_mils(14))
        .build();
    assert_eq!(via.start_layer, 1);
    assert_eq!(via.end_layer, 32);
    assert!(via.is_plated);
}

#[test]
fn track_builder_defaults_and_end_points() {
    let track = TrackBuilder::new().build();
    assert_eq!(track.layer, 1);
    assert_eq!(track.width, Coord::from_mils(10));
    assert_eq!(track.component_index, -1);
    assert!(track.enabled);
    assert_eq!(track.flags_extra, 8);
    let t = TrackBuilder::new()
        .from(Coord::from_raw(5), Coord::from_raw(6))
        .to(Coord::from_raw(7), Coord::from_raw(8))
        .build();
    assert_eq!(t.start.x.to_raw(), 5);
    assert_eq!(t.start.y.to_raw(), 6);
    assert_eq!(t.end.x.to_raw(), 7);
    assert_eq!(t.end.y.to_raw(), 8);
}

#[test]
fn via_builder_layers_override() {
    let v = ViaBuilder::new().layers(1, 2).build();
    assert_eq!((v.start_layer, v.end_layer), (1, 2));
    assert_eq!(v.layer, 74);
    assert_eq!(v.reserved_block_8, [0, 0, 0, 1, 1, 1, 1, 0]);
    assert_eq!(v.trailing_reserved_i32, 259);
}

#[test]
fn bounds_of_track_and_via() {
    let mut t = Track::default();
    t.start = altium::coord::CoordPoint::new(Coord::from_raw(100), Coord::from_raw(-50));
    t.end = altium::coord::CoordPoint::new(Coord::from_raw(-20), Coord::from_raw(30));
    t.width = Coord::from_raw(11);
    let b = t.bounds();
    assert_eq!((b.x1, b.y1, b.x2, b.y2), (-25, -55, 105, 35));
    let mut v = Via::default();
    v.location = altium::coord::CoordPoint::new(Coord::from_raw(10), Coord::from_raw(20));
    v.diameter = Coord::from_raw(8);
    let b = v.bounds();
    assert_eq!((b.x1, b.y1, b.x2, b.y2), (6, 16, 14, 24));
}

#[test]
fn pad_builder_sets_defaults_and_overrides() {
    let pad = PadBuilder::new()
        .at(Coord::from_mils(10), Coord::from_mils(20))
        .size(Coord::from_mils(40), Coord::from_mils(60))
        .shape(PAD_SHAPE_RECTANGULAR)
        .designator("1")
        .layer(1)
        .build();
    assert_eq!(pad.designator.as_deref(), Some("1"));
    assert_eq!(pad.shape_top, PAD_SHAPE_RECTANGULAR);
    assert_eq!(pad.size_top.x, Coord::from_mils(40));
    assert!(pad.is_plated, "default plated=true");
}

#[test]
fn arc_builder_full_circle_default() {
    let arc = ArcBuilder::new()
        .at(Coord::zero(), Coord::zero())
        .radius(Coord::from_mils(20))
        .build();
    assert_eq!(f64::from_bits(arc.start_angle_bits), 0.0);
    assert_eq!(f64::from_bits(arc.end_angle_bits), 360.0);
}

#[test]
fn pad_builder_rotation_and_plating() {
    let pad = PadBuilder::new()
        .rotation(90.0f64.to_bits())
        .plated(false)
        .hole_size(Coord::from_mils(12))
        .build();
    assert_eq!(f64::from_bits(pad.rotation_bits), 90.0);
    assert!(!pad.is_plated);
    assert_eq!(pad.hole_size, Coord::from_mils(12));
    assert_eq!(pad.layer, 1);
    assert_eq!(pad.shape_bottom, 1);
}

#[test]
fn arc_builder_angles_width_layer() {
    let arc = ArcBuilder::new()
        .angles(45.0f64.to_bits(), 135.0f64.to_bits())
        .width(Coord::from_mils(6))
        .layer(32)
        .build();
    assert_eq!(f64::from_bits(arc.start_angle_bits), 45.0);
    assert_eq!(f64::from_bits(arc.end_angle_bits), 135.0);
    assert_eq!(arc.width, Coord::from_mils(6));
    assert_eq!(arc.layer, 32);
}
