use altium::primitive_io::ReadError;
use altium::text_io::{read_text, PcbTextKind};

fn put_i32(b: &mut [u8], p: usize, v: i32) {
    b[p..p + 4].copy_from_slice(&v.to_le_bytes());
}

fn base_body(len: usize) -> Vec<u8> {
    let mut b = vec![0u8; len];
    b[0] = 33; // layer
    b[1] = 0x04; // unlocked
    b[3] = 0xFF;
    b[4] = 0xFF; // no net
    b[7] = 0xFF;
    b[8] = 0xFF; // no component
    put_i32(&mut b, 13, 1000);
    put_i32(&mut b, 17, -2000);
    put_i32(&mut b, 21, 600000);
    b[25] = 1;
    b[27..35].copy_from_slice(&90.0f64.to_bits().to_le_bytes());
    b[35] = 1;
    put_i32(&mut b, 36, 100000);
    b
}

fn pascal(s: &str) -> Vec<u8> {
    let mut v = vec![s.len() as u8];
    v.extend_from_slice(s.as_bytes());
    v
}

#[test]
fn empty_text_body_reads_as_nothing() {
    assert!(matches!(read_text(&[], &pascal("X"), &[]), Ok(None)));
}

#[test]
fn stroke_text_record_reads_its_fields() {
    let body = base_body(40);
    let t = read_text(&body, &pascal("Hello"), &[]).unwrap().unwrap();
    assert_eq!(t.text, "Hello");
    assert_eq!(t.location.x.raw, 1000);
    assert_eq!(t.location.y.raw, -2000);
    assert_eq!(t.height.raw, 600000);
    assert_eq!(t.stroke_font_code, 1);
    assert_eq!(f64::from_bits(t.rotation_bits), 90.0);
    assert!(t.is_mirrored);
    assert_eq!(t.stroke_width.raw, 100000);
    assert_eq!(t.layer, 33);
    assert_eq!(t.net_index, 0);
    assert_eq!(t.component_index, -1);
    assert!(!t.is_locked);
    assert_eq!(t.text_kind, PcbTextKind::Stroke);
    assert!(!t.is_truetype);
    assert_eq!(t.wide_string_index, -1);
    assert!(t.font_name_raw.is_none());
    assert_eq!(t.layer_v7, 0);
}

#[test]
fn text_record_ending_inside_its_fixed_part_is_refused() {
    let body = base_body(40);
    assert!(matches!(read_text(&body[..39], &pascal("A"), &[]), Err(ReadError::Truncated)));
}

#[test]
fn text_record_ending_inside_an_announced_extension_is_refused() {
    let body = base_body(130);
    assert!(matches!(read_text(&body, &pascal("A"), &[]), Err(ReadError::Truncated)));
}

#[test]
fn empty_text_string_reads_as_nothing() {
    let body = base_body(40);
    assert!(matches!(read_text(&body, &pascal(""), &[]), Ok(None)));
    assert!(matches!(read_text(&body, &[], &[]), Ok(None)));
}

#[test]
fn full_text_record_reads_extension_and_tail() {
    let mut body = base_body(252);
    body[40] = 1; // comment
    body[43] = 0; // stroke in the extension
    body[44] = 1; // bold
    body[46] = b'A';
    body[110] = 1;
    put_i32(&mut body, 111, 5000);
    put_i32(&mut body, 115, 1); // wide string 1
    put_i32(&mut body, 119, 7);
    body[123] = 1;
    put_i32(&mut body, 124, 300);
    put_i32(&mut body, 128, 400);
    body[132] = 5;
    put_i32(&mut body, 133, 20);
    put_i32(&mut body, 137, 11);
    put_i32(&mut body, 153, 15);
    body[157] = 2;
    body[160] = 1; // TrueType in the tail
    body[161] = b'B';
    body[225] = 1;
    put_i32(&mut body, 226, 99);
    body[230] = 1;
    body[240] = 1;
    put_i32(&mut body, 244, -8);
    put_i32(&mut body, 248, 9);
    let wide = vec!["first".to_string(), "wide text".to_string()];
    let t = read_text(&body, &pascal("ascii"), &wide).unwrap().unwrap();
    assert_eq!(t.text, "wide text");
    assert!(t.is_comment && !t.is_designator && t.font_bold && !t.font_italic);
    assert_eq!(t.text_kind, PcbTextKind::TrueType);
    assert!(t.is_truetype);
    let name = t.font_name_raw.clone().unwrap();
    assert_eq!(name.len(), 64);
    assert_eq!(name[0], b'A');
    assert!(t.is_inverted);
    assert_eq!(t.inverted_border.raw, 5000);
    assert_eq!(t.wide_string_index, 1);
    assert_eq!(t.union_index, 7);
    assert!(t.use_inverted_rectangle);
    assert_eq!(t.inverted_rect_width.raw, 300);
    assert_eq!(t.inverted_rect_height.raw, 400);
    assert_eq!(t.justification_code, 5);
    assert_eq!(t.inverted_rect_text_offset.raw, 20);
    assert_eq!(t.bar_code_full_width.raw, 11);
    assert_eq!(t.bar_code_min_width.raw, 15);
    assert_eq!(t.bar_code_kind, 2);
    assert_eq!(t.bar_code_font_name_raw.clone().unwrap()[0], b'B');
    assert!(t.bar_code_show_text && t.is_frame && t.justification_valid);
    assert_eq!(t.snap_point_x.raw, -8);
    assert_eq!(t.snap_point_y.raw, 9);
    assert_eq!(t.layer_v7, 99);
}

#[test]
fn out_of_range_wide_index_falls_back_to_the_pascal_string() {
    let mut body = base_body(137);
    put_i32(&mut body, 115, 5);
    let t = read_text(&body, &pascal("ascii"), &["w".to_string()]).unwrap().unwrap();
    assert_eq!(t.text, "ascii");
    assert_eq!(t.wide_string_index, 5);
}
