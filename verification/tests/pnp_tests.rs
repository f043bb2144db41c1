use altium::pnp::{csv_field, designator_key, pnp_header, pnp_row, PnpFormat, PnpUnits};

#[test]
fn quotes_fields_with_commas() {
    assert_eq!(csv_field("10K, 1%"), "\"10K, 1%\"");
    assert_eq!(csv_field("plain"), "plain");
}

#[test]
fn quotes_are_doubled_and_newlines_quoted() {
    assert_eq!(csv_field("a\"b"), "\"a\"\"b\"");
    assert_eq!(csv_field("x\ny"), "\"x\ny\"");
    assert_eq!(csv_field(""), "");
}

#[test]
fn designator_keys_split_trailing_numbers() {
    assert_eq!(designator_key("R16"), ("R".to_string(), 16));
    assert_eq!(designator_key("r2"), ("R".to_string(), 2));
    assert_eq!(designator_key("TP"), ("TP".to_string(), 0));
    assert_eq!(designator_key("U1A3"), ("U1A".to_string(), 3));
    assert_eq!(designator_key(""), ("".to_string(), 0));
    assert!(designator_key("R2") < designator_key("R16"));
    // A suffix too large for u64 counts as 0.
    assert_eq!(designator_key("C99999999999999999999"), ("C".to_string(), 0));
}

#[test]
fn dialect_rows_and_headers() {
    assert_eq!(
        pnp_header(PnpFormat::Altium, PnpUnits::Mm),
        "Designator,Comment,Layer,Footprint,Center-X(mm),Center-Y(mm),Rotation,Description\n"
    );
    assert_eq!(pnp_header(PnpFormat::Jlc, PnpUnits::Mil), "Designator,Val,Package,Mid X,Mid Y,Rotation,Layer\n");
    assert_eq!(pnp_header(PnpFormat::Kicad, PnpUnits::Mm), "Ref,Val,Package,PosX,PosY,Rot,Side\n");
    assert_eq!(
        pnp_row(PnpFormat::Altium, "R1", "10K", "R0402", "0.0000", "0.0000", "90", false, ""),
        "R1,10K,TopLayer,R0402,0.0000,0.0000,90,\n"
    );
    assert_eq!(
        pnp_row(PnpFormat::Jlc, "R1", "10K", "R0402", "0.0000", "0.0000", "90", false, "x"),
        "R1,10K,R0402,0.0000,0.0000,90,Top\n"
    );
    assert_eq!(
        pnp_row(PnpFormat::Kicad, "R1", "10K", "R0402", "0.00", "0.00", "90", true, ""),
        "R1,10K,R0402,0.00,0.00,90,bottom\n"
    );
    assert_eq!(
        pnp_row(PnpFormat::Altium, "C1", "1u, 10V", "C0603", "1", "2", "0", true, "cap"),
        "C1,\"1u, 10V\",BottomLayer,C0603,1,2,0,cap\n"
    );
}

fn placed(designator: &str, comment: &str, kind: &str, layer: &str) -> altium::component_io::Component {
    let mut p = altium::parameter::ParameterMap::new();
    p.insert("PATTERN", "R0603");
    p.insert("SOURCEDESIGNATOR", designator);
    p.insert("SOURCELIBREFERENCE", "Res");
    if !comment.is_empty() {
        p.insert("COMMENT", comment);
    }
    p.insert("COMPONENTKINDVERSION2", kind);
    p.insert("LAYER", layer);
    p.insert("X", "10mil");
    p.insert("Y", "20mil");
    p.insert("ROTATION", "90");
    altium::component_io::component_from_params(&p)
}

#[test]
fn placement_rows_are_filtered_and_ordered_by_designator() {
    let comps = vec![
        placed("R16", "10k", "0", "TOP"),
        placed("R2", "", "0", "BOTTOM"),
        placed("M1", "x", "1", "TOP"),
        placed("C1", "1u", "5", "TOP"),
        placed("r2", "dup", "0", "TOP"),
    ];
    let origin = altium::coord::CoordPoint::new(altium::coord::Coord::from_raw(100000), altium::coord::Coord::from_raw(0));
    let rows = altium::pnp_entries::pnp_entries(&comps, origin, false);
    let names: Vec<&str> = rows.iter().map(|r| r.designator.as_str()).collect();
    assert_eq!(names, vec!["R2", "r2", "R16"]);
    assert_eq!(rows[0].comment, "Res");
    assert!(rows[0].bottom);
    assert_eq!(rows[0].footprint, "R0603");
    assert_eq!(rows[0].location.x.raw, 0);
    assert_eq!(rows[0].location.y.raw, 200000);
    assert_eq!(rows[0].rotation_text.as_deref(), Some("90"));
    assert_eq!(rows[2].comment, "10k");
    let with_no_bom = altium::pnp_entries::pnp_entries(&comps, origin, true);
    assert_eq!(with_no_bom[0].designator, "C1");
    assert_eq!(with_no_bom.len(), 4);
}
