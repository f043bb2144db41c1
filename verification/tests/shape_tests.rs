use altium::coord::{Coord, CoordPoint};
use altium::ieee754::{f64_bits_to_i32, i32_to_f64_bits};
use altium::parameter::ParameterMap;
use altium::primitive_io::ReadError;
use altium::primitives::{Arc, Fill};
use altium::region_geometry::{parse_region_geometry, push_region_geometry, push_vertex_list};
use altium::region_io::{
    fresh_region_body_bytes, read_region_shape, region_attributes_from_params, region_extra_parameters, region_params,
    splice_region_raw, write_region, RegionShape,
};
use altium::shape_io::{arc_body, fill_body, read_arc, read_fill, write_arc};

fn pt(x: i32, y: i32) -> CoordPoint {
    CoordPoint::new(Coord::from_raw(x), Coord::from_raw(y))
}

#[test]
fn doubles_convert_as_rust_does() {
    for v in [0.0f64, 1.0, -1.0, 2.5, -2.5, 0.999, 123456.75, -2147483648.0, 2147483647.0, 3e9, -3e9, 1e300] {
        assert_eq!(f64_bits_to_i32(v.to_bits()), v as i32, "value {}", v);
    }
    assert_eq!(f64_bits_to_i32(f64::NAN.to_bits()), 0);
    assert_eq!(f64_bits_to_i32(f64::INFINITY.to_bits()), i32::MAX);
    assert_eq!(f64_bits_to_i32(f64::NEG_INFINITY.to_bits()), i32::MIN);
    for x in [0i32, 1, -1, 2, 3, 1000, -123456, 0x4000_0000, i32::MAX, i32::MIN] {
        assert_eq!(i32_to_f64_bits(x), (x as f64).to_bits(), "value {}", x);
        assert_eq!(f64_bits_to_i32(i32_to_f64_bits(x)), x);
    }
    assert_eq!(i32_to_f64_bits(1), 0x3FF0_0000_0000_0000);
    assert_eq!(i32_to_f64_bits(-2), 0xC000_0000_0000_0000);
}

fn sample_arc() -> Arc {
    let mut a = Arc::default();
    a.center = pt(1000, -2000);
    a.radius = Coord::from_raw(50_000);
    a.start_angle_bits = 90.0f64.to_bits();
    a.end_angle_bits = 270.5f64.to_bits();
    a.width = Coord::from_raw(2540);
    a.layer = 1;
    a.net_index = 3;
    a.component_index = 7;
    a.is_locked = true;
    a.is_tenting_top = true;
    a
}

#[test]
fn arc_body_is_60_bytes_and_reads_back() {
    let a = sample_arc();
    let body = arc_body(&a);
    assert_eq!(body.len(), 60);
    assert_eq!(&body[25..33], &90.0f64.to_le_bytes());
    let back = read_arc(body.clone()).unwrap().unwrap();
    assert_eq!(back.center, a.center);
    assert_eq!(back.radius, a.radius);
    assert_eq!(f64::from_bits(back.end_angle_bits), 270.5);
    assert_eq!(back.width, a.width);
    assert_eq!(back.layer, 1);
    assert_eq!(back.net_index, 3);
    assert_eq!(back.component_index, 7);
    assert!(back.is_locked && back.is_tenting_top && !back.is_keepout);
    assert_eq!(back.raw_record, Some(body));
}

#[test]
fn arc_reading_edges() {
    assert_eq!(read_arc(Vec::new()), Ok(None));
    assert_eq!(read_arc(vec![0u8; 44]), Err(ReadError::Truncated));
    let mut a = sample_arc();
    a.raw_record = Some(arc_body(&a));
    a.radius = Coord::from_raw(77);
    let patched = arc_body(&a);
    assert_eq!(patched.len(), 60);
    assert_eq!(read_arc(patched).unwrap().unwrap().radius.raw, 77);
    let mut out = Vec::new();
    write_arc(&mut out, &sample_arc());
    assert_eq!(&out[0..4], &60u32.to_le_bytes());
    let b = sample_arc().bounds();
    assert_eq!((b.x1, b.y1, b.x2, b.y2), (1000 - 51_270, -2000 - 51_270, 1000 + 51_270, -2000 + 51_270));
}

#[test]
fn fill_body_is_50_bytes_and_reads_back() {
    let mut f = Fill::default();
    f.corner1 = pt(10, 20);
    f.corner2 = pt(-30, 40);
    f.rotation_bits = 45.0f64.to_bits();
    f.layer = 13;
    f.is_keepout = true;
    let body = fill_body(&f);
    assert_eq!(body.len(), 50);
    let back = read_fill(body).unwrap().unwrap();
    assert_eq!(back.corner1, f.corner1);
    assert_eq!(back.corner2, f.corner2);
    assert_eq!(f64::from_bits(back.rotation_bits), 45.0);
    assert_eq!(back.layer, 13);
    assert!(back.is_keepout);
    assert_eq!(read_fill(vec![1u8; 36]), Err(ReadError::Truncated));
    assert_eq!(f.width().raw, 40);
    assert_eq!(f.height().raw, 20);
    let b = f.bounds();
    assert_eq!((b.x1, b.y1, b.x2, b.y2), (-30, 20, 10, 40));
}

#[test]
fn region_geometry_round_trips() {
    let outline = vec![pt(0, 0), pt(100, 0), pt(100, -50)];
    let holes = vec![vec![pt(10, 10), pt(20, 10)], vec![]];
    let mut b = Vec::new();
    push_region_geometry(&mut b, &outline, &holes);
    assert_eq!(b.len(), 4 + 48 + 4 + 32 + 4);
    b.extend_from_slice(&[9, 9]);
    let g = parse_region_geometry(&b, 0, 2).unwrap();
    assert_eq!(g.outline, outline);
    assert_eq!(g.holes, holes);
    // asking for fewer holes reads fewer; a negative count reads none
    assert_eq!(parse_region_geometry(&b, 0, 1).unwrap().holes.len(), 1);
    assert_eq!(parse_region_geometry(&b, 0, -3).unwrap().holes.len(), 0);
    // asking for more stops where the bytes run out
    assert_eq!(parse_region_geometry(&b, 0, 9).unwrap().holes, holes);
    // a truncated outline is an error
    assert!(parse_region_geometry(&b[0..40], 0, 0).is_err());
    // vertices stored with fractions truncate toward zero
    let mut v = Vec::new();
    v.extend_from_slice(&1u32.to_le_bytes());
    v.extend_from_slice(&(-2.75f64).to_le_bytes());
    v.extend_from_slice(&(3.99f64).to_le_bytes());
    assert_eq!(parse_region_geometry(&v, 0, 0).unwrap().outline, vec![pt(-2, 3)]);
}

fn sample_shape() -> RegionShape {
    RegionShape {
        layer: 1,
        net_index: 2,
        component_index: -1,
        is_locked: true,
        is_tenting_top: false,
        is_tenting_bottom: false,
        is_keepout: false,
        flags_extra: 8,
        is_teardrop: true,
        outline: vec![pt(0, 0), pt(1000, 0), pt(1000, 1000)],
        holes: vec![],
    }
}

#[test]
fn fresh_region_reads_back() {
    let s = sample_shape();
    let mut p = ParameterMap::new();
    p.insert("KIND", "0");
    p.insert("NAME", "Pour");
    let body = fresh_region_body_bytes(&s, &p);
    let (back, params) = read_region_shape(&body).unwrap().unwrap();
    assert_eq!(back, s);
    assert_eq!(params.get("NAME"), Some("Pour"));
    assert_eq!(params.len(), 2);
    assert!(matches!(read_region_shape(&[]), Ok(None)));
    assert!(read_region_shape(&body[0..21]).is_err());
    let mut out = Vec::new();
    write_region(&mut out, &s, None, &p);
    assert_eq!(&out[4..], &body[..]);
}

#[test]
fn splicing_keeps_unchanged_geometry_and_rewrites_moved_geometry() {
    let s = sample_shape();
    let p = ParameterMap::new();
    let mut raw = fresh_region_body_bytes(&s, &p);
    raw.extend_from_slice(&[0xAB, 0xCD]);
    let same = splice_region_raw(&raw, &s).unwrap();
    assert_eq!(same, raw);
    let mut moved = s.clone();
    moved.outline[1] = pt(2000, 0);
    moved.is_locked = false;
    let spliced = splice_region_raw(&raw, &moved).unwrap();
    assert_eq!(spliced.len(), raw.len());
    assert_eq!(&spliced[spliced.len() - 2..], &[0xAB, 0xCD]);
    let (back, _) = read_region_shape(&spliced).unwrap().unwrap();
    assert_eq!(back.outline, moved.outline);
    assert!(!back.is_locked);
    assert_eq!(splice_region_raw(&raw[0..10], &s), None);
    let mut out = Vec::new();
    write_region(&mut out, &moved, Some(&raw), &p);
    assert_eq!(&out[4..], &spliced[..]);
    let mut list = Vec::new();
    push_vertex_list(&mut list, &[pt(1, 2)]);
    assert_eq!(list.len(), 20);
}

#[test]
fn region_attributes_and_parameters() {
    let mut p = ParameterMap::new();
    p.insert("KIND", "2");
    p.insert("net", "GND");
    p.insert("SUBPOLYINDEX", "bad");
    p.insert("AREA", " 123456789012 ");
    p.insert("ENABLED", "false");
    p.insert("ISSHAPEBASED", "True");
    p.insert("CUSTOM", "x");
    let a = region_attributes_from_params(&p);
    assert_eq!(a.kind, 2);
    assert_eq!(a.net.as_deref(), Some("GND"));
    assert_eq!(a.sub_poly_index, -1);
    assert_eq!(a.area, 123456789012);
    assert!(!a.enabled);
    assert!(a.is_shape_based);
    assert_eq!(a.name, None);
    let extra = region_extra_parameters(&p);
    assert_eq!(extra, vec![("CUSTOM".to_string(), "x".to_string())]);
    let m = region_params(&sample_shape(), &a, "0.5mil", &extra);
    assert_eq!(m.get("V7_LAYER"), Some("TOPLAYER"));
    assert_eq!(m.get("NAME"), Some(" "));
    assert_eq!(m.get("KIND"), Some("2"));
    assert_eq!(m.get("ARCRESOLUTION"), Some("0.5mil"));
    assert_eq!(m.get("ISSHAPEBASED"), Some("TRUE"));
    assert_eq!(m.get("AREA"), Some("123456789012"));
    assert_eq!(m.get("ENABLED"), Some("FALSE"));
    assert_eq!(m.get("CAVITYHEIGHT"), None);
    assert_eq!(m.get("CUSTOM"), Some("x"));
}

#[test]
fn arc_and_fill_bodies_rewrite_byte_for_byte() {
    let mut ab: Vec<u8> = (100u8..160).collect();
    ab[1] = 0x26; // outline, unlocked, tenting top
    ab[2] = 0x00;
    let a = read_arc(ab.clone()).unwrap().unwrap();
    assert_eq!(arc_body(&a), ab);

    let mut fb: Vec<u8> = (7u8..57).collect();
    fb[1] = 0x44;
    fb[2] = 0x02;
    let f = read_fill(fb.clone()).unwrap().unwrap();
    assert_eq!(fill_body(&f), fb);
}

#[test]
fn region_read_and_written_back_gives_its_bytes() {
    let s = sample_shape();
    let mut p = ParameterMap::new();
    p.insert("HOLECOUNT", "0");
    p.insert("NAME", "Keep");
    let mut raw = fresh_region_body_bytes(&s, &p);
    raw.extend_from_slice(&[1, 2, 3]);
    let (back, params) = read_region_shape(&raw).unwrap().unwrap();
    let mut out = Vec::new();
    write_region(&mut out, &back, Some(&raw), &params);
    assert_eq!(&out[4..], &raw[..]);
}
