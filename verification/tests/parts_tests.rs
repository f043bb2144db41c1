use altium::records::DataError;
use altium::library_writer::{
    file_header_bytes, file_header_unique_id, library_data, push_pascal_block, section_key_entries, section_keys_data,
};
use altium::parameter::ParameterMap;
use altium::lint::{
    header_model_count, library_names, missing_model_refs, model_ids, model_records, not_in, section_key_pairs,
    storage_findings, storage_key_exec, toc_names,
};
use altium::reader_parts::{
    board_pairs, decode_utf16_lossy, decode_wide_string, detect_record_prefix, parse_param_records, section_key_from_name,
    strip_nulls, wide_table,
};

fn block(payload: &[u8]) -> Vec<u8> {
    let mut v = (payload.len() as u32).to_le_bytes().to_vec();
    v.extend_from_slice(payload);
    v
}

fn pascal(name: &str) -> Vec<u8> {
    let mut p = vec![name.len() as u8];
    p.extend_from_slice(name.as_bytes());
    block(&p)
}

#[test]
fn library_header_names() {
    // header block, then a count and one block per footprint
    let mut d = block(b"|HEADER=PCB|");
    d.extend_from_slice(&3u32.to_le_bytes());
    d.extend_from_slice(&pascal("R0603"));
    d.extend_from_slice(&block(&[]));
    d.extend_from_slice(&pascal("C0805"));
    assert_eq!(library_names(&d), Some(vec!["R0603".to_string(), "C0805".to_string()]));
    assert_eq!(library_names(&[1, 2]), None);
}

#[test]
fn section_keys_and_storages() {
    let mut d = 2u32.to_le_bytes().to_vec();
    d.extend_from_slice(&pascal("A/B"));
    d.extend_from_slice(&pascal("A_B"));
    d.extend_from_slice(&pascal("LONG"));
    let pairs = section_key_pairs(&d);
    assert_eq!(pairs, vec![("A/B".to_string(), "A_B".to_string())]);
    let names = vec!["A/B".to_string(), "C".to_string()];
    let storages = vec!["A_B".to_string(), "ORPHAN".to_string()];
    let (missing, unlisted) = storage_findings(&names, &pairs, &storages);
    assert_eq!(missing, vec![("C".to_string(), "C".to_string())]);
    assert_eq!(unlisted, vec!["ORPHAN".to_string()]);
    assert_eq!(
        not_in(&["a".to_string(), "b".to_string()], &["b".to_string()]),
        vec!["a".to_string()]
    );
}

#[test]
fn toc_and_model_records() {
    let toc = block(b"Name=R1|Pads=2\r\n\nName=C1|Pads=2\n\0");
    assert_eq!(toc_names(&toc), vec!["R1".to_string(), "C1".to_string()]);
    let mut md = block(b"|ID={A}|NAME=x\0");
    md.extend_from_slice(&block(b"|NAME=y\0"));
    let recs = model_records(&md);
    assert_eq!(recs, vec![b"|ID={A}|NAME=x".to_vec(), b"|NAME=y".to_vec()]);
    assert_eq!(model_ids(&recs), vec!["{A}".to_string()]);
}

#[test]
fn reader_helpers() {
    assert_eq!(strip_nulls(b"abc\0def"), b"abc".to_vec());
    assert_eq!(strip_nulls(b"abc"), b"abc".to_vec());
    assert_eq!(section_key_from_name("SOT-23/5"), "SOT-23_5");
    assert_eq!(section_key_from_name("ABCDEFGHIJKLMNOPQRSTUVWXYZ0123456789"), "ABCDEFGHIJKLMNOPQRSTUVWXYZ01234");
    assert_eq!(decode_wide_string("72,105,x,33"), "Hi!");
    assert_eq!(decode_wide_string(""), "");
    assert_eq!(decode_utf16_lossy(&[0x48, 0xD83D, 0xDE00, 0xDC00]), "H\u{1F600}\u{FFFD}");
    assert_eq!(
        board_pairs("|A=1|B|C=x=y"),
        vec![("A".to_string(), "1".to_string()), ("C".to_string(), "x=y".to_string())]
    );
}

#[test]
fn parameter_record_streams() {
    let plain = block(b"|A=1|B=2\0");
    assert_eq!(detect_record_prefix(&plain), 0);
    let mut versioned = 7u16.to_le_bytes().to_vec();
    versioned.extend_from_slice(&block(b"|A=1\0"));
    assert_eq!(detect_record_prefix(&versioned), 2);
    let recs = parse_param_records(&plain, 0);
    assert_eq!(recs.len(), 1);
    assert_eq!(recs[0].0, 0);
    assert_eq!(recs[0].1.get("b"), Some("2"));
    let recs = parse_param_records(&versioned, 2);
    assert_eq!(recs[0].0, 7);
    assert_eq!(recs[0].1.get("A"), Some("1"));
}

#[test]
fn wide_string_table() {
    let mut d = Vec::new();
    d.extend_from_slice(&1u32.to_le_bytes());
    let text: Vec<u8> = "Hi".encode_utf16().flat_map(|u| u.to_le_bytes()).chain([0, 0]).collect();
    d.extend_from_slice(&(text.len() as u32).to_le_bytes());
    d.extend_from_slice(&text);
    assert_eq!(wide_table(&d), vec!["".to_string(), "Hi".to_string()]);
}

#[test]
fn library_data_reads_back() {
    let mut p = ParameterMap::new();
    p.insert("HEADER", "PCB 6.0 Binary Library File");
    let names = vec!["R0603".to_string(), "SOT-23".to_string()];
    let d = library_data(&p, &names);
    assert_eq!(library_names(&d), Some(names.clone()));
    let mut b = Vec::new();
    push_pascal_block(&mut b, "AB");
    assert_eq!(b, vec![3, 0, 0, 0, 2, b'A', b'B']);
}

#[test]
fn file_header_records_the_unique_id() {
    let h = file_header_bytes("QWERTYUI");
    assert_eq!(&h[0..5], &[27, 0, 0, 0, 27]);
    assert_eq!(&h[5..32], b"PCB 6.0 Binary Library File");
    assert_eq!(&h[32..40], &5.01f64.to_le_bytes());
    assert_eq!(file_header_unique_id(&h), Ok(Some("QWERTYUI".to_string())));
    let d = file_header_bytes("");
    assert_eq!(file_header_unique_id(&d), Ok(Some("AAAAAAAA".to_string())));
    assert_eq!(file_header_unique_id(&[0, 0, 0, 0]), Ok(None));
    assert!(file_header_unique_id(&[1, 0]).is_err());
    assert!(file_header_unique_id(&h[0..46]).is_err());
}

fn s(x: &str) -> String {
    x.to_string()
}

#[test]
fn section_keys_are_ordered_and_read_back() {
    let names = vec![s("A/1"), s("Plain"), s("B/2"), s("C/3")];
    let keys = vec![(s("C/3"), s("C_3")), (s("A/1"), s("A_1")), (s("B/2"), s("B_2")), (s("A/1"), s("A_1x"))];
    let order = vec![s("B/2"), s("Gone"), s("A/1"), s("B/2")];
    let entries = section_key_entries(&names, &keys, &order);
    assert_eq!(entries, vec![(s("B/2"), s("B_2")), (s("A/1"), s("A_1x")), (s("C/3"), s("C_3"))]);
    let d = section_keys_data(&entries);
    assert_eq!(&d[0..4], &3u32.to_le_bytes());
    assert_eq!(section_key_pairs(&d), entries);
}

#[test]
fn data_error_messages() {
    assert_eq!(DataError::MissingNameBlock.message(), "missing name block");
    assert_eq!(DataError::TruncatedNameBlock.message(), "truncated name block");
    assert_eq!(DataError::TruncatedBlockLength.message(), "truncated block length");
    assert_eq!(DataError::BlockPastEnd.message(), "block runs past the end of the stream");
}

#[test]
fn wide_string_encoded_form_decodes_back() {
    let s = "Ω café ✓";
    let enc = s.chars().map(|c| (c as u32).to_string()).collect::<Vec<_>>().join(",");
    assert_eq!(decode_wide_string(&enc), s);
    assert_eq!(decode_wide_string("72,x,105"), "Hi");
}

#[test]
fn footprint_storage_key_takes_the_last_section_key_pair() {
    let keys = vec![
        ("A/B".to_string(), "A_B".to_string()),
        ("C".to_string(), "C1".to_string()),
        ("A/B".to_string(), "A_B2".to_string()),
    ];
    assert_eq!(storage_key_exec(&keys, "A/B"), "A_B2");
    assert_eq!(storage_key_exec(&keys, "C"), "C1");
    assert_eq!(storage_key_exec(&keys, "D"), "D");
}

#[test]
fn model_header_count_and_missing_model_references() {
    assert_eq!(header_model_count(&[3, 0, 0, 0, 9]), 3);
    assert_eq!(header_model_count(&[3, 0]), 0);
    let refs = vec![
        ("FP1".to_string(), "{M1}".to_string()),
        ("FP2".to_string(), "{M2}".to_string()),
        ("FP3".to_string(), "{M1}".to_string()),
    ];
    let ids = vec!["{M1}".to_string()];
    assert_eq!(missing_model_refs(&refs, &ids), vec![("FP2".to_string(), "{M2}".to_string())]);
}
