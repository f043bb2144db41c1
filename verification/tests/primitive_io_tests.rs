use altium::coord::{Coord, CoordPoint};
use altium::primitive_io::{read_track, read_via, track_body, v7_layer_id, via_body, write_track, ReadError};
use altium::primitives::{Track, Via};

fn sample_track() -> Track {
    let mut t = Track::default();
    t.start = CoordPoint::new(Coord::from_raw(-1000), Coord::from_raw(2000));
    t.end = CoordPoint::new(Coord::from_raw(3000), Coord::from_raw(-4000));
    t.width = Coord::from_raw(100_000);
    t.layer = 32;
    t.net_index = 5;
    t.component_index = 2;
    t.is_locked = true;
    t.is_keepout = true;
    t.is_polygon_outline = true;
    t
}

#[test]
fn track_body_is_49_bytes_and_reads_back() {
    let t = sample_track();
    let body = track_body(&t);
    assert_eq!(body.len(), 49);
    assert_eq!(body[0], 32);
    let back = read_track(body.clone()).unwrap().unwrap();
    assert_eq!(back.start, t.start);
    assert_eq!(back.end, t.end);
    assert_eq!(back.width, t.width);
    assert_eq!(back.layer, 32);
    assert_eq!(back.net_index, 5);
    assert_eq!(back.component_index, 2);
    assert!(back.is_locked && back.is_keepout && back.is_polygon_outline);
    assert!(!back.is_tenting_top && !back.is_tenting_bottom);
    assert_eq!(back.flags_extra, 8);
    assert_eq!(back.raw_record, Some(body));
}

#[test]
fn track_write_is_length_prefixed() {
    let mut out = vec![7u8];
    write_track(&mut out, &sample_track());
    assert_eq!(out.len(), 1 + 4 + 49);
    assert_eq!(&out[1..5], &[49, 0, 0, 0]);
}

#[test]
fn track_read_errors_and_empty() {
    assert_eq!(read_track(Vec::new()), Ok(None));
    assert_eq!(read_track(vec![0u8; 32]), Err(ReadError::Truncated));
}

#[test]
fn track_subnet_word_overrides_prefix_net() {
    let mut body = track_body(&sample_track());
    body[33] = 9;
    body[34] = 0;
    assert_eq!(read_track(body).unwrap().unwrap().net_index, 9);
}

#[test]
fn preserved_track_record_is_patched() {
    let mut t = sample_track();
    let mut raw = track_body(&t);
    raw[5] = 0xAB; // reserved word survives
    raw.push(0xCD); // unmodelled tail survives
    t.raw_record = Some(raw.clone());
    t.width = Coord::from_raw(7);
    let b = track_body(&t);
    assert_eq!(b.len(), 50);
    assert_eq!(b[5], 0xAB);
    assert_eq!(b[49], 0xCD);
    assert_eq!(&b[29..33], &[7, 0, 0, 0]);
}

#[test]
fn v7_layer_ids() {
    assert_eq!(v7_layer_id(1), 0x0100_0001);
    assert_eq!(v7_layer_id(32), 0x0100_FFFF);
    assert_eq!(v7_layer_id(39), 0x0101_0001);
    assert_eq!(v7_layer_id(57), 0x0102_0001);
    assert_eq!(v7_layer_id(33), 0x0103_0006);
    assert_eq!(v7_layer_id(74), 0x0103_000F);
    assert_eq!(v7_layer_id(-3), 0x0103_000F);
}

#[test]
fn via_body_is_360_bytes_and_reads_back() {
    let mut v = Via::default();
    v.location = CoordPoint::new(Coord::from_raw(10), Coord::from_raw(-20));
    v.diameter = Coord::from_raw(500);
    v.hole_size = Coord::from_raw(250);
    v.start_layer = 1;
    v.end_layer = 2;
    v.net_index = 3;
    v.thermal_relief_conductors = 4;
    v.solder_mask_expansion_manual = true;
    v.mode = 1;
    v.diameters[31] = Coord::from_raw(-5);
    v.is_testpoint_fab_bottom = true;
    let body = via_body(&v);
    assert_eq!(body.len(), 360);
    assert!(body[209..].iter().all(|&b| b == 0));
    let back = read_via(body).unwrap().unwrap();
    assert_eq!(back.location, v.location);
    assert_eq!(back.diameter, v.diameter);
    assert_eq!(back.hole_size, v.hole_size);
    assert_eq!((back.start_layer, back.end_layer, back.layer), (1, 2, 74));
    assert_eq!(back.net_index, 3);
    assert_eq!(back.thermal_relief_conductors, 4);
    assert!(back.solder_mask_expansion_manual);
    assert_eq!(back.mode, 1);
    assert_eq!(back.diameters[31], Coord::from_raw(-5));
    assert!(back.is_testpoint_fab_bottom && !back.is_testpoint_fab_top);
    assert_eq!(back.reserved_block_8, [0, 0, 0, 1, 1, 1, 1, 0]);
    assert_eq!(back.trailing_reserved_i16, 15);
    assert_eq!(back.trailing_reserved_i32, 259);
}

#[test]
fn via_read_short_forms() {
    assert_eq!(read_via(Vec::new()), Ok(None));
    assert_eq!(read_via(vec![0u8; 30]), Err(ReadError::Truncated));
    assert_eq!(read_via(vec![0u8; 100]), Err(ReadError::Truncated));
    let head = via_body(&Via::default())[..31].to_vec();
    let v = read_via(head).unwrap().unwrap();
    assert_eq!(v.trailing_reserved_i32, 259);
    assert_eq!(v.end_layer, 32);
}

#[test]
fn track_and_via_bodies_rewrite_byte_for_byte() {
    let mut body: Vec<u8> = (0u8..40).collect();
    body[1] = 0x0C; // flags: unlocked, native; no test-point bits
    body[2] = 0;
    body[33] = 0;
    body[34] = 0; // no sub-net word
    let t = read_track(body.clone()).unwrap().unwrap();
    assert_eq!(track_body(&t), body);

    let mut vb: Vec<u8> = (0u8..=255).cycle().take(220).collect();
    vb[1] = 0x85; // locked bit clear, test-point top, bit 0; polygon-outline bit clear
    vb[2] = 0x01;
    let v = read_via(vb.clone()).unwrap().unwrap();
    assert_eq!(via_body(&v), vb);
}
