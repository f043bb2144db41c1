use altium::flatten::{push_record, PrimBases};
use altium::merge::{
    append_remapped, merge_models, merge_nets, merge_smart_unions, merge_union_entries, model_record_id, remap_component,
    remap_net,
};

fn records(rs: &[&[u8]]) -> Vec<u8> {
    let mut out = Vec::new();
    for r in rs {
        push_record(&mut out, r);
    }
    out
}

#[test]
fn union_names_merge_keeps_parent_first() {
    let parent = vec![(1u32, b"A".to_vec()), (2, b"B".to_vec())];
    let sub = vec![(1u32, b"A".to_vec()), (2, b"Other".to_vec()), (3, b"C".to_vec())];
    let (merged, clashes) = merge_union_entries(&parent, &sub);
    assert_eq!(
        merged,
        vec![(1, b"A".to_vec()), (2, b"B".to_vec()), (2, b"Other".to_vec()), (3, b"C".to_vec())]
    );
    assert_eq!(clashes, vec![2]);
}

#[test]
fn smart_unions_skip_duplicates_and_report_reused_indices() {
    let parent = records(&[b"|UNIONINDEX=1|KIND=0", b"|UNIONINDEX=2|KIND=0"]);
    let sub = records(&[b"|UNIONINDEX=1|KIND=0", b"|UNIONINDEX=2|KIND=5", b"|UNIONINDEX=9"]);
    let (data, count, clashes) = merge_smart_unions(&parent, &sub);
    assert_eq!(count, 4);
    let mut expected = parent.clone();
    push_record(&mut expected, b"|UNIONINDEX=2|KIND=5");
    push_record(&mut expected, b"|UNIONINDEX=9");
    assert_eq!(data, expected);
    assert_eq!(clashes, vec![b"2".to_vec()]);
}

#[test]
fn per_primitive_records_are_shifted() {
    let bases = PrimBases {
        pads: 10,
        vias: 20,
        tracks: 30,
        arcs: 0,
        texts: 0,
        fills: 0,
        regions: 0,
        bodies: 0,
        polygons: 0,
        components: 0,
    };
    let parent = records(&[b"|X=1"]);
    let sub = records(&[b"|PRIMITIVEOBJECTID=Track|PRIMITIVEINDEX=2"]);
    let data = append_remapped(&parent, &sub, &bases);
    let mut expected = parent.clone();
    push_record(&mut expected, b"|PRIMITIVEOBJECTID=Track|PRIMITIVEINDEX=32");
    assert_eq!(data, expected);
}

#[test]
fn models_merge_by_guid_and_payload() {
    assert_eq!(model_record_id(b"ID={ab-1}|NAME=x"), Some(b"{AB-1}".to_vec()));
    assert_eq!(model_record_id(b"NAME=x"), None);
    let parent = records(&[b"ID={AA}|NAME=p"]);
    let sub = records(&[b"ID={aa}|NAME=dup", b"ID={BB}|NAME=new", b"NAME=anon", b"ID={CC}"]);
    let (data, taken) = merge_models(&parent, &sub, &[true, true, true, false]);
    assert_eq!(taken, vec![1, 2]);
    let mut expected = parent.clone();
    push_record(&mut expected, b"ID={BB}|NAME=new");
    push_record(&mut expected, b"NAME=anon");
    assert_eq!(data, expected);
}

fn net(name: &str) -> altium::rule::Net {
    altium::rule::Net { name: name.to_string(), parameters: vec![("NAME".to_string(), name.to_string())] }
}

#[test]
fn nets_merge_by_name_and_indices_follow() {
    let mut out = vec![net("GND"), net("VCC")];
    let src = vec![net("VCC"), net("SIG"), net("GND"), net("SIG")];
    let map = merge_nets(&mut out, &src);
    let names: Vec<&str> = out.iter().map(|n| n.name.as_str()).collect();
    assert_eq!(names, vec!["GND", "VCC", "SIG"]);
    assert_eq!(map, vec![0, 2, 3, 1, 3]);
    assert_eq!(out[2].parameters, vec![("NAME".to_string(), "SIG".to_string())]);
    assert_eq!(remap_net(&map, 2), 3);
    assert_eq!(remap_net(&map, 0), 0);
    assert_eq!(remap_net(&map, 9), 0);
    assert_eq!(remap_component(2, 5), 7);
    assert_eq!(remap_component(-1, 5), -1);
}
