use altium::component_io::{component_from_params, f64_text_ok};
use altium::coord_text::parse_coord_loose;
use altium::embedded_io::embedded_board_from_params;
use altium::param_writers::{component_to_params, embedded_board_to_params, polygon_to_params};
use altium::parameter::ParameterMap;
use altium::polygon_io::polygon_from_params;

#[test]
fn coordinates_read_as_mils_or_raw_units() {
    assert_eq!(parse_coord_loose("10mil"), Some(100000));
    assert_eq!(parse_coord_loose(" 0.5mil "), Some(5000));
    assert_eq!(parse_coord_loose("-56.2992mil"), Some(-562992));
    assert_eq!(parse_coord_loose("12345"), Some(12345));
    assert_eq!(parse_coord_loose(""), None);
    assert_eq!(parse_coord_loose("abc"), None);
    assert_eq!(parse_coord_loose("1.23456mil"), None);
    assert_eq!(parse_coord_loose("300000mil"), None);
}

#[test]
fn polygon_reads_settings_under_current_and_legacy_keys() {
    let mut p = ParameterMap::new();
    p.insert("LAYER", "TOP");
    p.insert("NET", "GND");
    p.insert("POLYGONTYPE", "Split Plane");
    p.insert("POLYHATCHSTYLE", "3");
    p.insert("POUROVER", "TRUE");
    p.insert("REMOVENARROWNECKS", "TRUE");
    p.insert("AVOIDOBST", "FALSE");
    p.insert("GRIDSIZE", "20mil");
    p.insert("TRACKWIDTH", "80000");
    p.insert("REPOURAREA", "123456789012");
    let g = polygon_from_params(&p);
    assert_eq!(g.layer, 1);
    assert_eq!(g.net.as_deref(), Some("GND"));
    assert_eq!(g.name, None);
    assert_eq!(g.polygon_type, 3);
    assert_eq!(g.poly_hatch_style, 3);
    assert!(g.poly_hatch_uses_legacy_key);
    assert_eq!(g.pour_over, 1);
    assert!(g.pour_over_uses_legacy_key);
    assert!(g.remove_narrow_necks && g.remove_necks_uses_legacy_key);
    assert!(!g.avoid_obstacles && !g.avoid_obstacles_uses_legacy_key);
    assert_eq!(g.grid.raw, 200000);
    assert_eq!(g.track_size.raw, 80000);
    assert_eq!(g.area_size, 123456789012);
    assert!(g.enabled);
    assert!(g.vertices.is_empty());
    assert_eq!(g.point_count, 0);
    let extra = g.additional_parameters.unwrap();
    let names: Vec<&str> = extra.iter().map(|(k, _)| k.as_str()).collect();
    assert_eq!(
        names,
        vec![
            "AVOIDOBST",
            "GRIDSIZE",
            "POLYGONTYPE",
            "POLYHATCHSTYLE",
            "POUROVER",
            "REMOVENARROWNECKS",
            "REPOURAREA",
            "TRACKWIDTH"
        ]
    );
}

#[test]
fn polygon_reads_current_layout_vertices() {
    let mut p = ParameterMap::new();
    p.insert("HATCHSTYLE", "Solid");
    p.insert("POINTCOUNT", "2");
    p.insert("SA0.X", "100");
    p.insert("SA0.Y", "200");
    p.insert("SA1.X", "300");
    p.insert("SA1.Y", "-400");
    let g = polygon_from_params(&p);
    assert_eq!(g.poly_hatch_style, 1);
    assert!(!g.poly_hatch_uses_legacy_key);
    assert!(!g.vertices_use_legacy_form);
    assert_eq!(g.point_count, 2);
    assert_eq!(g.vertices.len(), 2);
    assert_eq!(g.vertices[1].point.x.raw, 300);
    assert_eq!(g.vertices[1].point.y.raw, -400);
    assert_eq!(g.vertices[0].kind, 0);
    let extra = g.additional_parameters.unwrap();
    assert_eq!(extra.len(), 1);
    assert_eq!(extra[0].0, "HATCHSTYLE");
}

#[test]
fn polygon_reads_legacy_layout_vertices_until_a_gap() {
    let mut p = ParameterMap::new();
    p.insert("VX0", "10mil");
    p.insert("VY0", "20mil");
    p.insert("KIND0", "1");
    p.insert("CX0", "5mil");
    p.insert("SA0", "45.5");
    p.insert("R0", "1mil");
    p.insert("VX1", "30mil");
    p.insert("VY1", "40mil");
    p.insert("VX3", "99mil");
    p.insert("NAME", "Pour");
    let g = polygon_from_params(&p);
    assert!(g.vertices_use_legacy_form);
    assert_eq!(g.point_count, 2);
    assert_eq!(g.vertices.len(), 2);
    assert_eq!(g.vertices[0].point.x.raw, 100000);
    assert_eq!(g.vertices[0].kind, 1);
    assert_eq!(g.vertices[0].arc_center.x.raw, 50000);
    assert_eq!(g.vertices[0].start_angle_text.as_deref(), Some("45.5"));
    assert_eq!(g.vertices[0].end_angle_text, None);
    assert_eq!(g.vertices[0].radius.raw, 10000);
    assert_eq!(g.vertices[1].point.y.raw, 400000);
    assert_eq!(g.name.as_deref(), Some("Pour"));
    let extra = g.additional_parameters.unwrap();
    assert_eq!(extra.len(), 1);
    assert_eq!(extra[0].0, "VX3");
}

#[test]
fn embedded_board_reads_its_fields_and_keeps_the_rest_sorted() {
    let mut p = ParameterMap::new();
    p.insert("DOCUMENTPATH", "Sub.PcbDoc");
    p.insert("ROTATION", "90.000");
    p.insert("COLCOUNT", "3");
    p.insert("X", "100mil");
    p.insert("ColSpacing", "250000");
    p.insert("MIRROR", "TRUE");
    p.insert("VISIBLELAYERS", "1,2");
    p.insert("SELECTION", "FALSE");
    let b = embedded_board_from_params(&p);
    assert_eq!(b.document_path.as_deref(), Some("Sub.PcbDoc"));
    assert_eq!(b.rotation_text.as_deref(), Some("90.000"));
    assert_eq!(b.scale_text, None);
    assert_eq!(b.col_count, 3);
    assert_eq!(b.row_count, 0);
    assert_eq!(b.x_location.raw, 1000000);
    assert_eq!(b.col_spacing.raw, 250000);
    assert!(b.mirror_flag && !b.is_keepout);
    assert_eq!(
        b.additional_parameters,
        vec![
            ("SELECTION".to_string(), "FALSE".to_string()),
            ("VISIBLELAYERS".to_string(), "1,2".to_string())
        ]
    );
}

#[test]
fn decimal_text_is_recognised_as_rust_parses_it() {
    for t in ["0", "90", "-45.5", "+1e3", "2.", ".5", "1E-7", "inf", "-Infinity", "NaN", "12.5e+2"] {
        assert!(f64_text_ok(t), "{t}");
        assert!(t.parse::<f64>().is_ok(), "{t}");
    }
    for t in ["", ".", "e5", "1e", "1.2.3", "abc", "1,5", " 1", "--1", "1e+"] {
        assert!(!f64_text_ok(t), "{t}");
        assert!(t.parse::<f64>().is_err(), "{t}");
    }
}

#[test]
fn component_reads_its_fields_and_keeps_the_rest_sorted() {
    let mut p = ParameterMap::new();
    p.insert("PATTERN", "R0603");
    p.insert("X", "1000mil");
    p.insert("Y", "bad");
    p.insert("ROTATION", " 90.000 ");
    p.insert("LAYER", "TOP");
    p.insert("COMPONENTKIND", "1");
    p.insert("COMPONENTKINDVERSION2", "5");
    p.insert("SOURCEDESIGNATOR", "R1");
    p.insert("HEIGHT", "20mil");
    p.insert("NAMEON", "TRUE");
    let c = component_from_params(&p);
    assert_eq!(c.name, "R0603");
    assert_eq!(c.pattern.as_deref(), Some("R0603"));
    assert_eq!(c.x.raw, 10000000);
    assert_eq!(c.y.raw, 0);
    assert_eq!(c.origin().x.raw, 10000000);
    assert_eq!(c.rotation_text.as_deref(), Some("90.000"));
    assert_eq!(c.layer, 1);
    assert_eq!(c.component_kind, 5);
    assert!(c.enabled && c.name_on && !c.comment_on);
    assert_eq!(c.height.raw, 200000);
    assert_eq!(c.source_designator.as_deref(), Some("R1"));
    let names: Vec<&str> = c.additional_parameters.iter().map(|(k, _)| k.as_str()).collect();
    assert_eq!(names, vec!["COMPONENTKIND", "COMPONENTKINDVERSION2", "HEIGHT", "Y"]);
}

#[test]
fn polygon_read_from_a_record_writes_back_its_values() {
    let mut p = ParameterMap::new();
    p.insert("LAYER", "TOP");
    p.insert("NET", "GND");
    p.insert("NAME", "Pour");
    p.insert("HATCHSTYLE", "Solid");
    p.insert("GRIDSIZE", "20mil");
    p.insert("POINTCOUNT", "2");
    p.insert("SA0.X", "100");
    p.insert("SA0.Y", "-200");
    p.insert("SA1.X", "300");
    p.insert("SA1.Y", "400");
    let g = polygon_from_params(&p);
    let mut out = ParameterMap::new();
    polygon_to_params(&g, &[], &mut out);
    assert_eq!(out.len(), p.len());
    for (k, v) in p.entries() {
        assert_eq!(out.get(k), Some(v.as_str()), "{k}");
    }
}

#[test]
fn polygon_built_from_scratch_writes_its_settings_and_legacy_vertices() {
    let mut p = ParameterMap::new();
    p.insert("VX0", "10mil");
    p.insert("VY0", "20mil");
    p.insert("KIND0", "1");
    let mut g = polygon_from_params(&p);
    g.additional_parameters = None;
    g.polygon_type = 2;
    g.poly_hatch_style = 4;
    g.grid = altium::coord::Coord::from_raw(0);
    g.track_size = altium::coord::Coord::from_raw(5000);
    g.enabled = false;
    let mut out = ParameterMap::new();
    polygon_to_params(&g, &[("45".to_string(), "90".to_string())], &mut out);
    assert_eq!(out.get("POLYGONTYPE"), Some("BoardOutline"));
    assert_eq!(out.get("HATCHSTYLE"), Some("Horizontal"));
    assert_eq!(out.get("TRACKWIDTH"), Some("0.5mil"));
    assert_eq!(out.get("GRIDSIZE"), None);
    assert_eq!(out.get("ENABLED"), Some("FALSE"));
    assert_eq!(out.get("NET"), Some(""));
    assert_eq!(out.get("POINTCOUNT"), None);
    assert_eq!(out.get("KIND0"), Some("1"));
    assert_eq!(out.get("VX0"), Some("10mil"));
    assert_eq!(out.get("SA0"), Some("45"));
    assert_eq!(out.get("EA0"), Some("90"));
    assert_eq!(out.get("R0"), Some("0mil"));
}

#[test]
fn component_and_embedded_board_write_their_fields() {
    let mut p = ParameterMap::new();
    p.insert("PATTERN", "R0603");
    p.insert("X", "1000mil");
    p.insert("Y", "0mil");
    p.insert("ROTATION", "90");
    p.insert("LAYER", "TOP");
    p.insert("COMMENTON", "FALSE");
    p.insert("NAMEON", "TRUE");
    p.insert("SOURCEDESIGNATOR", "R1");
    p.insert("VENDOR", "x");
    let c = component_from_params(&p);
    let mut out = ParameterMap::new();
    component_to_params(&c, "90", &mut out);
    for (k, v) in p.entries() {
        assert_eq!(out.get(k), Some(v.as_str()), "{k}");
    }
    assert_eq!(out.get("ENABLED"), None);
    let mut fresh = component_from_params(&ParameterMap::new());
    fresh.component_kind = 5;
    let mut out2 = ParameterMap::new();
    component_to_params(&fresh, "0", &mut out2);
    assert_eq!(out2.get("COMPONENTKIND"), Some("0"));
    assert_eq!(out2.get("COMPONENTKINDVERSION2"), Some("5"));

    let mut q = ParameterMap::new();
    q.insert("DOCUMENTPATH", "Sub.PcbDoc");
    q.insert("COLCOUNT", "2");
    q.insert("VISIBLELAYERS", "1,2");
    let b = embedded_board_from_params(&q);
    let mut out3 = ParameterMap::new();
    embedded_board_to_params(&b, " 0E0", &None, &mut out3);
    assert_eq!(out3.get("SELECTION"), Some("FALSE"));
    assert_eq!(out3.get("VISIBLELAYERS"), Some("1,2"));
    assert_eq!(out3.get("COLCOUNT"), Some("2"));
    assert_eq!(out3.get("ROTATION"), Some(" 0E0"));
    assert_eq!(out3.get("X"), Some("0mil"));
    assert_eq!(out3.get("VIEWPORTSCALE"), None);
    assert_eq!(out3.get("DOCUMENTPATH"), Some("Sub.PcbDoc"));
}
