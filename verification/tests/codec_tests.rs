use altium::coord::Coord;
use altium::default_streams::{c_string_block_bytes, default_file_version_info_data, push_codepoints};
use altium::doc_codec::{format_mil_coord, layer_byte_to_name, parse_layer};
use altium::flatten::{
    find_value, param_records, parse_union_names, push_record, remap_record_indices, serialize_union_names,
    PrimBases,
};
use altium::guid_tables::{build_guid_table, build_unique_id_table, entry_slots, pad_of_ordinal, pad_unique_ids, primitive_guid_table};
use altium::guids::{
    entry_index, format_guid, guid_from_random, guid_type_code, pad_ordinals, parse_entries, parse_guid,
    record_slots, unique_id_from_random, with_index,
};
use altium::lint::{c_string_block, check_model, expected_len, param_value, step_checksum};
use altium::parameter::ParameterMap;

#[test]
fn guid_text_round_trips() {
    let b: [u8; 16] = [
        0x33, 0x22, 0x11, 0x00, 0x55, 0x44, 0x77, 0x66, 0x88, 0x99, 0xAA, 0xBB, 0xCC, 0xDD, 0xEE, 0xFF,
    ];
    let s = format_guid(&b);
    assert_eq!(s, "{00112233-4455-6677-8899-AABBCCDDEEFF}");
    assert_eq!(parse_guid(&s), Some(b));
    assert_eq!(parse_guid("00112233-4455-6677-8899-aabbccddeeff"), Some(b));
    assert_eq!(parse_guid("{0011}"), None);
    let mut plus = b;
    plus[3] = 0x0F;
    assert_eq!(parse_guid("{+F112233-4455-6677-8899-AABBCCDDEEFF}"), Some(plus));
    assert_eq!(parse_guid("{-F112233-4455-6677-8899-AABBCCDDEEFF}"), None);
}

#[test]
fn guid_codes_and_fresh_ids() {
    assert_eq!(guid_type_code(11), 89);
    assert_eq!(guid_type_code(12), 90);
    assert_eq!(guid_type_code(2), 2);
    assert_eq!(guid_from_random(0, 0), "{00000000-0000-4000-8000-000000000000}");
    assert_eq!(unique_id_from_random(0), "AAAAAAAA");
    assert_eq!(unique_id_from_random(27), "BBAAAAAA");
}

#[test]
fn unique_id_entries_are_indexed() {
    assert_eq!(entry_index("|PRIMITIVEINDEX= 7 |X=1"), Some(7));
    assert_eq!(entry_index("X=1"), None);
    assert_eq!(with_index("A=1|PRIMITIVEINDEX=3|B", 9), "A=1|PRIMITIVEINDEX=9|B");
    let data = [3u8, 0, 0, 0, b'a', b'b', 0, 1, 0, 0, 0, b'c'];
    assert_eq!(parse_entries(&data, false), vec!["ab".to_string(), "c".to_string()]);
    assert_eq!(record_slots(&[2, 4, 2]), vec![(2, 0), (4, 0), (2, 1)]);
    assert_eq!(pad_ordinals(&[2, 4, 2]), vec![1, 3]);
}

#[test]
fn lint_helpers() {
    assert_eq!(step_checksum(&[1, 2, 3]), 9);
    assert_eq!(step_checksum(&[]), 0);
    assert_eq!(expected_len(1), Some(60));
    assert_eq!(expected_len(3), None);
    assert_eq!(altium::lint::guid_type_code(3), None);
    assert_eq!(altium::lint::guid_type_code(11), Some(89));
    assert_eq!(param_value(b"|NAME=abc|X=1", "NAME"), Some(&b"abc"[..]));
    assert_eq!(param_value(b"NAME=q", "NAME"), Some(&b"q"[..]));
    assert_eq!(param_value(b"|XNAME=1", "NAME"), None);
    assert_eq!(c_string_block(&[3, 0, 0, 0, b'a', b'b', 0]), Some(&b"ab"[..]));
    assert_eq!(c_string_block(&[9, 0, 0, 0, b'a']), None);
    assert_eq!(check_model(0, b"|EMBED=TRUE", None), Some("model 0 has no payload stream".to_string()));
    assert_eq!(check_model(1, b"|EMBED=FALSE", Some(&[1, 2])), None);
}

#[test]
fn parameter_blocks_parse_and_write() {
    let m = ParameterMap::parse_bytes(b"|A=1|B=x=y||C", b'|');
    assert_eq!(m.len(), 2);
    assert_eq!(m.get("a"), Some("1"));
    assert_eq!(m.get("B"), Some("x=y"));
    assert_eq!(m.get("C"), None);
    let mut out = Vec::new();
    m.write_block_bytes(&mut out, b'|');
    assert_eq!(out, b"|A=1|B=x=y".to_vec());
    let again = ParameterMap::parse_bytes(&out, b'|');
    assert_eq!(again.entries(), m.entries());
    // A later duplicate replaces the value in place.
    let d = ParameterMap::parse_bytes(b"|K=1|J=2|k=3", b'|');
    assert_eq!(d.entries(), &vec![("K".to_string(), "3".to_string()), ("J".to_string(), "2".to_string())]);
}

#[test]
fn parameter_map_insert_and_get() {
    let mut m = ParameterMap::new();
    m.insert("Name", "x");
    m.insert("NAME", "y");
    assert_eq!(m.len(), 1);
    assert_eq!(m.get("name"), Some("y"));
    assert_eq!(m.entries()[0].0, "Name");
    m.insert("N2", " -12 ");
    assert_eq!(m.get_i32("n2"), Some(-12));
    assert!(m.contains_key("N2"));
    assert!(!m.contains_key("N3"));
}

#[test]
fn doc_codec_scalars() {
    assert_eq!(format_mil_coord(Coord::from_raw(0)), "0mil");
    assert_eq!(format_mil_coord(Coord::from_raw(5000)), "0.5mil");
    assert_eq!(format_mil_coord(Coord::from_raw(562992)), "56.2992mil");
    assert_eq!(format_mil_coord(Coord::from_raw(-5000)), "-0.5mil");
    assert_eq!(format_mil_coord(Coord::from_raw(10000)), "1mil");
    assert_eq!(layer_byte_to_name(2), "MID1");
    assert_eq!(layer_byte_to_name(39), "PLANE1");
    assert_eq!(layer_byte_to_name(57), "MECHANICAL1");
    assert_eq!(layer_byte_to_name(100), "100");
    assert_eq!(parse_layer(" 7 "), 7);
    assert_eq!(parse_layer("TOP"), 1);
    assert_eq!(parse_layer("nonsense"), 0);
}

fn bases() -> PrimBases {
    PrimBases {
        pads: 10,
        vias: 20,
        tracks: 30,
        arcs: 40,
        texts: 50,
        fills: 60,
        regions: 70,
        bodies: 80,
        polygons: 90,
        components: 100,
    }
}

#[test]
fn record_streams_and_index_rebasing() {
    let mut data = Vec::new();
    push_record(&mut data, b"|A=1");
    push_record(&mut data, b"");
    data.extend_from_slice(&[9, 0, 0, 0, 1]); // cut off
    let recs = param_records(&data);
    assert_eq!(recs, vec![&b"|A=1"[..], &b""[..]]);
    assert_eq!(find_value(b"|primitiveobjectid=Pad|X=1", b"|PRIMITIVEOBJECTID="), Some((19, 22)));
    assert_eq!(find_value(b"|X=1", b"|Y="), None);
    let r = remap_record_indices(b"|PRIMITIVEOBJECTID=Pad|PRIMITIVEINDEX=5|ID=Via#3|ID=Foo#1|ID=Track#x", &bases());
    assert_eq!(r, b"|PRIMITIVEOBJECTID=Pad|PRIMITIVEINDEX=15|ID=Via#23|ID=Foo#1|ID=Track#x".to_vec());
    assert_eq!(bases().for_object("ComponentBody"), Some(80));
    assert_eq!(bases().for_object("Nope"), None);
}

#[test]
fn union_names_round_trip() {
    let entries = vec![(7u32, vec![1u8, 0, 2, 0]), (9u32, vec![])];
    let bytes = serialize_union_names(&entries);
    assert_eq!(&bytes[..4], &[2, 0, 0, 0]);
    assert_eq!(parse_union_names(&bytes), Some(entries));
    assert_eq!(parse_union_names(&[1, 0, 0, 0, 7, 0, 0, 0, 5, 0, 0, 0]), None);
}

#[test]
fn version_info_and_blocks() {
    let mut s = String::new();
    push_codepoints(&mut s, "6.3");
    assert_eq!(s, "54,46,51");
    assert_eq!(c_string_block_bytes(b"ab"), vec![3, 0, 0, 0, b'a', b'b', 0]);
    let d = default_file_version_info_data();
    let len = u32::from_le_bytes([d[0], d[1], d[2], d[3]]) as usize;
    assert_eq!(len + 4, d.len());
    assert_eq!(*d.last().unwrap(), 0);
    let text = String::from_utf8(d[4..d.len() - 1].to_vec()).unwrap();
    assert!(text.starts_with("|COUNT=34|VER0=54,46,51|FWDMSG0=60,98,62"));
    assert!(text.ends_with("|VER33=82,101,108,101,97,115,101,32,50,48,46,48|FWDMSG33=|BKMSG33="));
}

#[test]
fn guid_text_parses_in_lower_case_too() {
    let b: [u8; 16] = [0xDE, 0xAD, 0xBE, 0xEF, 1, 2, 3, 4, 5, 6, 7, 8, 9, 0xAB, 0xCD, 0xEF];
    let t = format_guid(&b);
    assert_eq!(parse_guid(&t.to_lowercase()), Some(b));
    assert_eq!(parse_guid(&t), Some(b));
}

fn guid_row(code: u32, index: u32, fill: u8) -> Vec<u8> {
    let mut r = Vec::new();
    r.extend_from_slice(&code.to_le_bytes());
    r.extend_from_slice(&index.to_le_bytes());
    r.extend_from_slice(&[fill; 16]);
    r
}

#[test]
fn guid_table_assigns_rows_by_record_index() {
    let mut g = guid_row(85, 0, 0x11);
    g.extend(guid_row(4, 0, 0xAB));
    g.extend(guid_row(1, 5, 0xCD));
    g.extend_from_slice(&[1, 2, 3]);
    let (component, guids, skipped) = primitive_guid_table(&g, 3);
    assert_eq!(component.as_deref(), Some("{11111111-1111-1111-1111-111111111111}"));
    assert_eq!(guids.len(), 3);
    assert_eq!(guids[0].as_deref(), Some("{ABABABAB-ABAB-ABAB-ABAB-ABABABABABAB}"));
    assert_eq!(guids[1], None);
    assert_eq!(guids[2], None);
    assert_eq!(skipped, 2);
}

#[test]
fn guid_table_without_primitive_rows_skips_nothing() {
    let g = guid_row(3, 0, 0x22);
    let (component, guids, skipped) = primitive_guid_table(&g, 2);
    assert_eq!(component, None);
    assert_eq!(guids, vec![None, None]);
    assert_eq!(skipped, 0);
    let (component, guids, skipped) = primitive_guid_table(&[], 0);
    assert_eq!(component, None);
    assert!(guids.is_empty());
    assert_eq!(skipped, 0);
}

fn entry_table(entries: &[&str]) -> Vec<u8> {
    let mut u = Vec::new();
    for e in entries {
        u.extend_from_slice(&((e.len() + 1) as u32).to_le_bytes());
        u.extend_from_slice(e.as_bytes());
        u.push(0);
    }
    u
}

#[test]
fn unique_ids_go_to_the_pads_they_name() {
    let order = [4u8, 2, 2];
    let u = entry_table(&[
        "|PRIMITIVEINDEX=1|PRIMITIVEOBJECTID=Pad|UNIQUEID=ABCDEFGH",
        "|PRIMITIVEINDEX=0|PRIMITIVEOBJECTID=Pad|UNIQUEID=XXXXXXXX",
        "|PRIMITIVEINDEX= 2 |PRIMITIVEOBJECTID=Pad|UNIQUEID=IJKLMNOP",
        "|PRIMITIVEINDEX=2|PRIMITIVEOBJECTID=Track|UNIQUEID=QRSTUVWX",
        "|PRIMITIVEINDEX=7|PRIMITIVEOBJECTID=Pad|UNIQUEID=YYYYYYYY",
    ]);
    let (ids, misses) = pad_unique_ids(&order, &u);
    assert_eq!(ids, vec![(0, "ABCDEFGH".to_string()), (1, "IJKLMNOP".to_string())]);
    assert_eq!(misses, 3);
    let (ids, misses) = pad_unique_ids(&order, &[]);
    assert!(ids.is_empty());
    assert_eq!(misses, 0);
}

#[test]
fn side_table_entries_find_their_records() {
    let order = [2u8, 4, 2, 12];
    let entries = vec![
        "|PRIMITIVEINDEX=2|CORNERRADIUS=10".to_string(),
        "|PRIMITIVEINDEX=3|X=1".to_string(),
        "|PRIMITIVEINDEX=4".to_string(),
        "|NOINDEX=1".to_string(),
    ];
    assert_eq!(entry_slots(&order, &entries), vec![Some((2, 1)), Some((12, 0)), None, None]);
}

#[test]
fn pad_index_values_name_pads_by_record_ordinal() {
    let order = [4u8, 2, 2];
    assert_eq!(pad_of_ordinal(&order, "3"), Some(1));
    assert_eq!(pad_of_ordinal(&order, " 2 "), Some(0));
    assert_eq!(pad_of_ordinal(&order, "1"), None);
    assert_eq!(pad_of_ordinal(&order, "0"), None);
    assert_eq!(pad_of_ordinal(&order, "4"), None);
    assert_eq!(pad_of_ordinal(&order, "x"), None);
}

#[test]
fn guid_table_written_reads_back() {
    let comp = Some("{00112233-4455-6677-8899-AABBCCDDEEFF}".to_string());
    let guids = vec![Some("{01234567-89ab-cdef-0123-456789abcdef}".to_string()), None, Some("bad".to_string())];
    let t = build_guid_table(&comp, &[4, 11, 2], &guids);
    assert_eq!(t.len(), 96);
    assert_eq!(&t[0..8], &[85, 0, 0, 0, 0, 0, 0, 0]);
    assert_eq!(&t[24..32], &[4, 0, 0, 0, 0, 0, 0, 0]);
    assert_eq!(&t[48..56], &[89, 0, 0, 0, 1, 0, 0, 0]);
    assert_eq!(&t[72..80], &[2, 0, 0, 0, 2, 0, 0, 0]);
    let (component, read, skipped) = primitive_guid_table(&t, 3);
    assert_eq!(component, comp);
    assert_eq!(read[0].as_deref(), Some("{01234567-89AB-CDEF-0123-456789ABCDEF}"));
    let fresh = read[1].clone().unwrap();
    assert_eq!(fresh.len(), 38);
    assert_eq!(fresh.as_bytes()[15], b'4');
    assert!(read[2].is_some());
    assert_eq!(skipped, 0);
}

#[test]
fn unique_id_table_written_reads_back() {
    let order = [4u8, 2, 6, 2, 2];
    let ids = vec![Some("ABCDEFGH".to_string()), None];
    let (u, count) = build_unique_id_table(&order, &ids);
    assert_eq!(count, 3);
    let first = b"|PRIMITIVEINDEX=1|PRIMITIVEOBJECTID=Pad|UNIQUEID=ABCDEFGH\0";
    assert_eq!(&u[0..4], &(first.len() as u32).to_le_bytes());
    assert_eq!(&u[4..4 + first.len()], &first[..]);
    let (read, misses) = pad_unique_ids(&order, &u);
    assert_eq!(misses, 0);
    assert_eq!(read.len(), 3);
    assert_eq!(read[0], (0, "ABCDEFGH".to_string()));
    assert_eq!(read[1].0, 1);
    assert_eq!(read[1].1.len(), 8);
    assert!(read[1].1.chars().all(|c| c.is_ascii_uppercase()));
    assert_eq!(read[2].0, 2);
}
