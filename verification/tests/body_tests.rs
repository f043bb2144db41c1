use altium::body_io::{
    body_attributes_from_params, body_block_bytes, body_extra_parameters, body_params, format_model_id,
    read_body_shape, write_component_body, BodyAttributes, BodyFloatTexts, BodyMeasures, BodyShape,
};
use altium::coord::{Coord, CoordPoint};
use altium::parameter::ParameterMap;
use altium::primitive_io::ReadError;

fn attrs() -> BodyAttributes {
    BodyAttributes {
        layer_name: "MECHANICAL13".to_string(),
        name: None,
        kind: 0,
        sub_poly_index: -1,
        union_index: 0,
        is_shape_based: false,
        body_color_3d: 0xE0E0E0,
        body_projection: 0,
        model_id: Some("{a1b2c3d4-0000-1111-2222-333344445555}".to_string()),
        model_embed: true,
        model_type: 1,
        model_name: Some("R0603.step".to_string()),
        model_checksum: -1,
        model_source: Some("Undefined".to_string()),
        identifier: None,
        texture: None,
    }
}

fn measures() -> BodyMeasures {
    BodyMeasures {
        cavity_height: Coord::from_raw(0),
        standoff_height: Coord::from_raw(5000),
        overall_height: Coord::from_mils(20),
        model_2d_location: CoordPoint::new(Coord::from_raw(-629921), Coord::from_raw(0)),
        model_3d_dz: Coord::from_raw(0),
    }
}

fn floats() -> BodyFloatTexts {
    BodyFloatTexts {
        arc_resolution: "0.5mil".to_string(),
        opacity: "1.000".to_string(),
        rotation_2d: "0.000".to_string(),
        rotation_x: "0.000".to_string(),
        rotation_y: "0.000".to_string(),
        rotation_z: "90.000".to_string(),
    }
}

fn get(m: &ParameterMap, k: &str) -> String {
    m.get(k).unwrap().to_string()
}

#[test]
fn model_id_is_canonicalised() {
    assert_eq!(
        format_model_id(" {a1b2c3d4-0000-1111-2222-333344445555} "),
        "{A1B2C3D4-0000-1111-2222-333344445555}"
    );
    assert_eq!(format_model_id("a1b2c3d4000011112222333344445555"), "{A1B2C3D4-0000-1111-2222-333344445555}");
    assert_eq!(format_model_id("not-a-guid"), "not-a-guid");
    assert_eq!(format_model_id("zz0123456789abcdef0123456789abcdef"), "zz0123456789abcdef0123456789abcdef");
    assert_eq!(format_model_id("{01234567-89ab-cdef-0123-456789abcdef}"), "{01234567-89AB-CDEF-0123-456789ABCDEF}");
    assert_eq!(format_model_id(""), "");
}

#[test]
fn body_params_follow_altium_key_order() {
    let extra = vec![
        ("MODEL.SNAPCOUNT".to_string(), "1".to_string()),
        ("MODEL.S0X".to_string(), "1mil".to_string()),
        ("MODEL.S0Y".to_string(), "2mil".to_string()),
        ("MODEL.S0Z".to_string(), "3mil".to_string()),
        ("ZZZ".to_string(), "last".to_string()),
    ];
    let p = body_params(&attrs(), &measures(), &floats(), &extra);
    let keys: Vec<&str> = p.entries().iter().map(|(k, _)| k.as_str()).collect();
    assert_eq!(&keys[0..6], &["V7_LAYER", "NAME", "KIND", "SUBPOLYINDEX", "UNIONINDEX", "ARCRESOLUTION"]);
    assert_eq!(*keys.last().unwrap(), "ZZZ");
    let snap = keys.iter().position(|k| *k == "MODEL.SNAPCOUNT").unwrap();
    assert_eq!(&keys[snap..snap + 5], &["MODEL.SNAPCOUNT", "MODEL.S0X", "MODEL.S0Y", "MODEL.S0Z", "MODEL.MODELTYPE"]);
    assert_eq!(get(&p, "NAME"), " ");
    assert_eq!(get(&p, "SUBPOLYINDEX"), "-1");
    assert_eq!(get(&p, "STANDOFFHEIGHT"), "0.5mil");
    assert_eq!(get(&p, "OVERALLHEIGHT"), "20mil");
    assert_eq!(get(&p, "MODEL.2D.X"), "-62.9921mil");
    assert_eq!(get(&p, "MODEL.CHECKSUM"), "4294967295");
    assert_eq!(get(&p, "MODELID"), "{A1B2C3D4-0000-1111-2222-333344445555}");
    assert_eq!(get(&p, "IDENTIFIER"), "");
    assert_eq!(get(&p, "MODEL.3D.ROTZ"), "90.000");
    assert_eq!(get(&p, "BODYCOLOR3D"), "14737632");
}

#[test]
fn body_block_repeats_arc_resolution_after_projection() {
    let p = body_params(&attrs(), &measures(), &floats(), &[]);
    let text = String::from_utf8(body_block_bytes(&p)).unwrap();
    assert!(text.starts_with("V7_LAYER=MECHANICAL13|NAME= |"));
    assert!(text.contains("|BODYPROJECTION=0|ARCRESOLUTION=0.5mil|BODYCOLOR3D="));
    assert_eq!(text.matches("ARCRESOLUTION=0.5mil").count(), 2);
}

#[test]
fn contour_keys_are_copied_per_vertex() {
    let extra = vec![
        ("MAINCONTOURVERTEXCOUNT".to_string(), "2".to_string()),
        ("VX0".to_string(), "a".to_string()),
        ("VX1".to_string(), "b".to_string()),
        ("KIND1".to_string(), "0".to_string()),
    ];
    let p = body_params(&attrs(), &measures(), &floats(), &extra);
    let keys: Vec<&str> = p.entries().iter().map(|(k, _)| k.as_str()).collect();
    let c = keys.iter().position(|k| *k == "MAINCONTOURVERTEXCOUNT").unwrap();
    assert_eq!(&keys[c..c + 4], &["MAINCONTOURVERTEXCOUNT", "VX0", "KIND1", "VX1"]);
}

#[test]
fn body_write_then_read() {
    let shape = BodyShape {
        layer: 0,
        net_index: 0,
        component_index: 3,
        is_locked: true,
        is_tenting_top: false,
        is_tenting_bottom: false,
        is_keepout: false,
        flags_extra: 0x08,
        outline: vec![
            CoordPoint::new(Coord::from_raw(-100), Coord::from_raw(200)),
            CoordPoint::new(Coord::from_raw(300), Coord::from_raw(-400)),
        ],
    };
    let a = attrs();
    let params = body_params(&a, &measures(), &floats(), &[("EXTRA".to_string(), "1".to_string())]);
    let mut out = Vec::new();
    write_component_body(&mut out, &shape, &a.layer_name, &params);
    let len = u32::from_le_bytes([out[0], out[1], out[2], out[3]]) as usize;
    assert_eq!(len, out.len() - 4);
    let body = &out[4..];
    assert_eq!(body[0], 69, "MECHANICAL13 is layer byte 69");
    let (s, m) = read_body_shape(body).unwrap().unwrap();
    assert_eq!(s.layer, 69);
    assert_eq!(s.component_index, 3);
    assert!(s.is_locked);
    assert_eq!(s.flags_extra, 0x08);
    assert_eq!(s.outline, shape.outline);
    let back = body_attributes_from_params(&m);
    assert_eq!(back.layer_name, "MECHANICAL13");
    assert_eq!(back.name.as_deref(), Some(" "));
    assert_eq!(back.sub_poly_index, -1);
    assert_eq!(back.model_checksum, -1);
    assert_eq!(back.model_id.as_deref(), Some("{A1B2C3D4-0000-1111-2222-333344445555}"));
    assert_eq!(back.model_name.as_deref(), Some("R0603.step"));
    assert_eq!(back.model_source.as_deref(), Some("Undefined"));
    assert!(back.model_embed);
    let extra = body_extra_parameters(&m);
    assert_eq!(extra, vec![("EXTRA".to_string(), "1".to_string())]);
}

#[test]
fn body_defaults_when_parameters_absent() {
    let m = ParameterMap::new();
    let a = body_attributes_from_params(&m);
    assert_eq!(a.layer_name, "MECHANICAL1");
    assert_eq!(a.body_color_3d, 0xE0E0E0);
    assert_eq!(a.model_type, 1);
    assert!(a.model_embed);
    assert!(a.model_source.is_none());
}

#[test]
fn body_truncated_and_empty() {
    assert!(matches!(read_body_shape(&[]), Ok(None)));
    assert!(matches!(read_body_shape(&[0u8; 10]), Err(ReadError::Truncated)));
    let mut b = vec![0u8; 22];
    b.extend_from_slice(&5u32.to_le_bytes());
    assert!(matches!(read_body_shape(&b), Err(ReadError::Truncated)));
}
