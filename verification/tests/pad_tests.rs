use altium::coord::{Coord, CoordPoint};
use altium::pad::{Pad, PAD_HOLE_SLOT, PAD_SHAPE_RECTANGULAR, PAD_SHAPE_ROUND};
use altium::pad_io::{read_pad, write_pad, write_pad_size_shape_block};
use altium::primitive_io::ReadError;

fn block(out: &mut Vec<u8>, body: &[u8]) {
    out.extend_from_slice(&(body.len() as u32).to_le_bytes());
    out.extend_from_slice(body);
}

fn through_hole_pad() -> Pad {
    let mut p = Pad::default();
    p.designator = Some("A7".to_string());
    p.location = CoordPoint::new(Coord::from_mils(100), Coord::from_mils(-50));
    p.size_top = CoordPoint::new(Coord::from_mils(60), Coord::from_mils(40));
    p.size_middle = p.size_top;
    p.size_bottom = p.size_top;
    p.top_x_size = p.size_top.x;
    p.top_y_size = p.size_top.y;
    p.mid_x_size = p.size_middle.x;
    p.mid_y_size = p.size_middle.y;
    p.bot_x_size = p.size_bottom.x;
    p.bot_y_size = p.size_bottom.y;
    p.shape_top = PAD_SHAPE_RECTANGULAR;
    p.shape_middle = PAD_SHAPE_ROUND;
    p.shape_bottom = PAD_SHAPE_RECTANGULAR;
    p.top_shape = p.shape_top;
    p.mid_shape = p.shape_middle;
    p.bot_shape = p.shape_bottom;
    p.hole_size = Coord::from_mils(30);
    p.hole_type = PAD_HOLE_SLOT;
    p.hole_slot_length = 123456;
    p.hole_rotation_bits = 45.0f64.to_bits();
    p.rotation_bits = 90.0f64.to_bits();
    p.layer = 74;
    p.is_top_paste_enabled = true;
    p.is_bottom_paste_enabled = true;
    p.net_index = 3;
    p.component_index = 2;
    p.mode = 1;
    p.relief_entries = -2;
    p.jumper_id = 7;
    p.drill_type = 1;
    p.paste_mask_expansion = Coord::from_mils(2);
    p.solder_mask_expansion = Coord::from_mils(-1);
    p.is_locked = true;
    p.is_tenting_top = true;
    p.is_testpoint_fab_bottom = true;
    p.layer_x_sizes[3] = -9;
    p.layer_y_sizes[28] = 77;
    p.internal_layer_shapes[0] = 2;
    p.offset_x_from_hole_center[31] = 5;
    p.offset_y_from_hole_center[0] = -5;
    p.per_layer_corner_radii = [0; 32];
    p.corner_radius_percentage = 0;
    p
}

#[test]
fn pad_default_matches_altium_fresh_pad() {
    let p = Pad::default();
    assert_eq!(p.designator, None);
    assert_eq!(p.shape_top, PAD_SHAPE_ROUND);
    assert!(p.is_plated);
    assert_eq!(p.corner_radius_percentage, 50);
    assert_eq!(p.relief_entries, 4);
    assert_eq!(p.component_index, -1);
    assert_eq!(p.net_string_block, "|&|0");
    assert_eq!(p.reserved_block_after_designator, vec![0u8]);
    assert_eq!(p.reserved_block_after_net_string, vec![0u8]);
    assert!(p.raw_record.is_none() && p.raw_size_shape.is_none());
}

#[test]
fn pad_bounds_centre_on_location() {
    let mut p = Pad::default();
    p.location = CoordPoint::new(Coord::from_raw(1000), Coord::from_raw(-1000));
    p.size_top = CoordPoint::new(Coord::from_raw(401), Coord::from_raw(200));
    let r = p.bounds();
    assert_eq!((r.x1, r.y1, r.x2, r.y2), (800, -1100, 1200, -900));
}

#[test]
fn fresh_pad_record_has_six_blocks_of_altium_sizes() {
    let p = through_hole_pad();
    let mut out = Vec::new();
    write_pad(&mut out, &p);
    // designator block: length 3, count 2, "A7"
    assert_eq!(&out[0..7], &[3, 0, 0, 0, 2, b'A', b'7']);
    // reserved block, net string "|&|0", reserved block
    assert_eq!(&out[7..12], &[1, 0, 0, 0, 0]);
    assert_eq!(&out[12..21], &[5, 0, 0, 0, 4, b'|', b'&', b'|', b'0']);
    assert_eq!(&out[21..26], &[1, 0, 0, 0, 0]);
    assert_eq!(u32::from_le_bytes([out[26], out[27], out[28], out[29]]), 202);
    let ss_at = 30 + 202;
    assert_eq!(u32::from_le_bytes([out[ss_at], out[ss_at + 1], out[ss_at + 2], out[ss_at + 3]]), 596);
    assert_eq!(out.len(), ss_at + 4 + 596);
    // main block: layer byte, location, rotation, plated byte
    let main = &out[30..232];
    assert_eq!(main[0], 74);
    assert_eq!(i32::from_le_bytes([main[13], main[14], main[15], main[16]]), 1_000_000);
    assert_eq!(u64::from_le_bytes(main[52..60].try_into().unwrap()), 90.0f64.to_bits());
    assert_eq!(main[60], 1);
    assert_eq!(main[62], 1);
    // manual mask markers and drill type
    assert_eq!(main[101], 2);
    assert_eq!(main[102], 2);
    assert_eq!(main[103], 1);
}

#[test]
fn pad_write_then_read_gives_the_pad_back() {
    let p = through_hole_pad();
    let mut out = Vec::new();
    write_pad(&mut out, &p);
    let back = read_pad(&out).unwrap().unwrap();
    assert_eq!(back.designator.as_deref(), Some("A7"));
    assert_eq!(back.location, p.location);
    assert_eq!(back.size_top, p.size_top);
    assert_eq!(back.shape_top, PAD_SHAPE_RECTANGULAR);
    assert_eq!(back.shape_middle, PAD_SHAPE_ROUND);
    assert_eq!(back.hole_size, p.hole_size);
    assert_eq!(back.hole_type, PAD_HOLE_SLOT);
    assert_eq!(back.hole_slot_length, 123456);
    assert_eq!(f64::from_bits(back.hole_rotation_bits), 45.0);
    assert_eq!(f64::from_bits(back.rotation_bits), 90.0);
    assert_eq!(back.net_index, 3);
    assert_eq!(back.component_index, 2);
    assert_eq!(back.mode, 1);
    assert_eq!(back.relief_entries, -2);
    assert_eq!(back.jumper_id, 7);
    assert_eq!(back.drill_type, 1);
    assert_eq!(back.paste_mask_expansion, p.paste_mask_expansion);
    assert_eq!(back.solder_mask_expansion, p.solder_mask_expansion);
    assert!(back.is_locked && back.is_tenting_top && back.is_testpoint_fab_bottom);
    assert!(!back.is_keepout && !back.is_tenting_bottom && !back.is_testpoint_fab_top);
    assert_eq!(back.layer_x_sizes, p.layer_x_sizes);
    assert_eq!(back.layer_y_sizes, p.layer_y_sizes);
    assert_eq!(back.internal_layer_shapes, p.internal_layer_shapes);
    assert_eq!(back.offset_x_from_hole_center, p.offset_x_from_hole_center);
    assert_eq!(back.offset_y_from_hole_center, p.offset_y_from_hole_center);
    assert!(!back.is_surface_mount);
    assert!(back.is_top_paste_enabled && back.is_bottom_paste_enabled);
    assert!(back.has_size_shape_block);
    assert!(!back.has_custom_shapes);
    assert_eq!(back.net_string_block, "|&|0");
    assert_eq!(back.raw_record.as_ref().unwrap().len(), 202);
    assert_eq!(back.raw_size_shape.as_ref().unwrap().len(), 596);
}

#[test]
fn pad_with_preserved_record_is_rewritten_byte_for_byte() {
    let p = through_hole_pad();
    let mut out = Vec::new();
    write_pad(&mut out, &p);
    let back = read_pad(&out).unwrap().unwrap();
    let mut again = Vec::new();
    write_pad(&mut again, &back);
    assert_eq!(again, out);
}

#[test]
fn pad_preserved_record_gets_moved_location_and_rotation() {
    let p = through_hole_pad();
    let mut out = Vec::new();
    write_pad(&mut out, &p);
    let mut back = read_pad(&out).unwrap().unwrap();
    back.location = CoordPoint::new(Coord::from_raw(5), Coord::from_raw(6));
    back.rotation_bits = 180.0f64.to_bits();
    let mut again = Vec::new();
    write_pad(&mut again, &back);
    let moved = read_pad(&again).unwrap().unwrap();
    assert_eq!(moved.location, back.location);
    assert_eq!(f64::from_bits(moved.rotation_bits), 180.0);
    assert_eq!(moved.size_top, p.size_top);
}

#[test]
fn pad_smd_on_top_layer_with_rounded_rect_table() {
    let mut rec = Vec::new();
    block(&mut rec, &[1, b'1']);
    block(&mut rec, &[0]);
    block(&mut rec, &[0]);
    block(&mut rec, &[0]);
    let mut main = vec![0u8; 61];
    main[0] = 1; // top layer
    main[49] = 1;
    main[50] = 1;
    main[51] = 1;
    block(&mut rec, &main);
    let mut ss = vec![0u8; 596];
    ss[531] = 1; // per-layer table authoritative
    ss[532] = 9; // top: rounded rectangle
    ss[533] = 2;
    ss[564] = 40; // top radius
    ss[565] = 25;
    block(&mut rec, &ss);
    let p = read_pad(&rec).unwrap().unwrap();
    assert_eq!(p.designator.as_deref(), Some("1"));
    assert!(p.is_surface_mount);
    assert!(p.is_top_paste_enabled && !p.is_bottom_paste_enabled);
    assert_eq!(p.shape_top, 9);
    assert_eq!(p.shape_middle, 2);
    // stack mode 0: bottom follows top
    assert_eq!(p.shape_bottom, 9);
    assert_eq!(p.corner_radius_percentage, 40);
    assert!(p.has_rounded_rectangular_shapes);
    assert!(p.has_custom_rounded_rectangle);
    assert!(!p.has_custom_shapes);
    // short main block: the optional groups keep their defaults
    assert_eq!(p.relief_entries, 4);
    assert_eq!(p.mode, 0);
    assert_eq!(p.net_string_block, "");
}

#[test]
fn pad_unmodelled_shape_is_custom() {
    let mut rec = Vec::new();
    block(&mut rec, &[0]);
    block(&mut rec, &[]);
    block(&mut rec, &[]);
    block(&mut rec, &[]);
    let mut main = vec![0u8; 61];
    main[49] = 5;
    block(&mut rec, &main);
    block(&mut rec, &[]);
    let p = read_pad(&rec).unwrap().unwrap();
    assert_eq!(p.designator, None);
    assert!(p.has_custom_shapes);
    assert!(!p.has_size_shape_block);
    assert!(p.raw_size_shape.is_none());
    assert_eq!(p.corner_radius_percentage, 0);
}

#[test]
fn pad_empty_main_block_is_no_pad() {
    let mut rec = Vec::new();
    for _ in 0..4 {
        block(&mut rec, &[0]);
    }
    block(&mut rec, &[]);
    assert_eq!(read_pad(&rec), Ok(None));
}

#[test]
fn pad_truncated_records_are_errors() {
    let mut rec = Vec::new();
    for _ in 0..4 {
        block(&mut rec, &[0]);
    }
    assert_eq!(read_pad(&rec), Err(ReadError::Truncated));
    let mut short = rec.clone();
    block(&mut short, &[0u8; 60]);
    block(&mut short, &[]);
    assert_eq!(read_pad(&short), Err(ReadError::Truncated));
    let mut no_ss = rec.clone();
    block(&mut no_ss, &[0u8; 61]);
    assert_eq!(read_pad(&no_ss), Err(ReadError::Truncated));
    let mut cut = rec.clone();
    cut.extend_from_slice(&[10, 0, 0, 0, 1, 2]);
    assert_eq!(read_pad(&cut), Err(ReadError::Truncated));
}

#[test]
fn pad_size_shape_block_layout() {
    let p = through_hole_pad();
    let mut out = Vec::new();
    write_pad_size_shape_block(&mut out, &p);
    assert_eq!(out.len(), 600);
    assert_eq!(u32::from_le_bytes([out[0], out[1], out[2], out[3]]), 596);
    let s = &out[4..];
    assert_eq!(i32::from_le_bytes([s[12], s[13], s[14], s[15]]), -9);
    assert_eq!(s[262], 2);
    assert_eq!(i32::from_le_bytes([s[263], s[264], s[265], s[266]]), 123456);
}
