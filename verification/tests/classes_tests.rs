use altium::doc_stubs::{
    default_layer_kind_mapping_data, default_pad_via_library_data, default_param_block, default_root_streams, default_root_stubs,
};
use altium::doc_codec::{object_class_from_params, object_class_to_params};
use altium::parameter::ParameterMap;
use altium::rule::ObjectClass;
use altium::svg::{dominant_baseline, text_anchor, TextAnchorH, TextAnchorV};

#[test]
fn object_class_reads_members_until_a_gap() {
    let mut p = ParameterMap::new();
    p.insert("NAME", "Power");
    p.insert("KIND", "0");
    p.insert("MEMBER0", "GND");
    p.insert("member1", "VCC");
    p.insert("MEMBER3", "skipped");
    p.insert("ENABLED", "True");
    let o = object_class_from_params(&p);
    assert_eq!(o.name, "Power");
    assert_eq!(o.kind, "0");
    assert_eq!(o.members, vec!["GND".to_string(), "VCC".to_string()]);
    assert!(o.enabled);
    assert_eq!(o.super_class, "");
    assert_eq!(o.parameters.len(), 6);
}

#[test]
fn object_class_writes_back_what_it_read() {
    let mut p = ParameterMap::new();
    p.insert("NAME", "Power");
    p.insert("MEMBER0", "GND");
    p.insert("ENABLED", "FALSE");
    let mut o = object_class_from_params(&p);
    o.name = "Supply".to_string();
    o.members.push("VCC".to_string());
    o.enabled = true;
    o.sub_class = "ignored".to_string();
    let mut out = ParameterMap::new();
    object_class_to_params(&o, &mut out);
    assert_eq!(out.get("NAME"), Some("Supply"));
    assert_eq!(out.get("MEMBER0"), Some("GND"));
    assert_eq!(out.get("MEMBER1"), Some("VCC"));
    assert_eq!(out.get("ENABLED"), Some("TRUE"));
    assert_eq!(out.get("SUBCLASS"), None);
    // without source parameters only the typed members that were read come out
    let bare = ObjectClass { members: vec!["A".to_string()], ..ObjectClass::default() };
    let mut out = ParameterMap::new();
    object_class_to_params(&bare, &mut out);
    assert_eq!(out.len(), 0);
}

#[test]
fn text_anchors_map_to_svg_attributes() {
    assert_eq!(TextAnchorH::default(), TextAnchorH::Left);
    assert_eq!(TextAnchorV::default(), TextAnchorV::Baseline);
    assert_eq!(text_anchor(TextAnchorH::Center), "middle");
    assert_eq!(text_anchor(TextAnchorH::Right), "end");
    assert_eq!(dominant_baseline(TextAnchorV::Top), "text-before-edge");
    assert_eq!(dominant_baseline(TextAnchorV::Middle), "central");
}

#[test]
fn default_storages() {
    assert_eq!(default_param_block(&[("A", "1"), ("B", "")]), vec![8, 0, 0, 0, b'|', b'A', b'=', b'1', b'|', b'B', b'=', 0]);
    let stubs = default_root_stubs();
    assert_eq!(stubs.len(), 45);
    assert_eq!(stubs[0], ("Arcs6".to_string(), 0, Vec::new()));
    assert_eq!(stubs[44], ("LayerKindMapping".to_string(), 1, default_layer_kind_mapping_data()));
    let placer = &stubs[40];
    assert_eq!(placer.0, "Advanced Placer Options6");
    assert!(placer.2.starts_with(&(placer.2.len() as u32 - 4).to_le_bytes()));
    assert!(String::from_utf8_lossy(&placer.2).contains("|RECORD=AdvancedPlacerOptions|PLACELARGECLEAR=50mil"));
    assert_eq!(default_layer_kind_mapping_data(), vec![8, 0, 0, 0, 0x31, 0, 0x2E, 0, 0x30, 0, 0, 0, 0, 0, 0, 0, 0, 0, 0, 0]);
    let pv = default_pad_via_library_data();
    let body = b"|PADVIALIBRARY.LIBRARYID={4F499044-D65D-4DA6-9273-7355F5C6609C}|PADVIALIBRARY.LIBRARYNAME=<Local>|PADVIALIBRARY.DISPLAYUNITS=1\0";
    assert_eq!(&pv[0..4], &(body.len() as u32).to_le_bytes());
    assert_eq!(&pv[4..], &body[..]);
}

#[test]
fn document_file_gets_the_default_streams_it_lacks() {
    let stubs = default_root_stubs();
    let all = default_root_streams(&[], &[]);
    assert_eq!(all.len(), 2 + 2 * stubs.len() + 2);
    assert_eq!(all[0], ("FileVersionInfo/Header".to_string(), vec![1, 0, 0, 0]));
    assert_eq!(all[1].0, "FileVersionInfo/Data");
    assert_eq!(all[2].0, format!("{}/Header", stubs[0].0));
    assert_eq!(all[all.len() - 2], ("Texts/Header".to_string(), vec![3, 0, 0, 0]));
    let first = stubs[0].0.clone();
    let doc = vec!["FileVersionInfo/Header".to_string(), format!("{first}/Header")];
    let storages = vec!["Texts".to_string(), stubs[1].0.clone()];
    let some = default_root_streams(&doc, &storages);
    assert_eq!(some.len(), 1 + 2 * (stubs.len() - 2));
    assert_eq!(some[0].0, "FileVersionInfo/Data");
    assert_eq!(some[1].0, format!("{}/Header", stubs[2].0));
}
