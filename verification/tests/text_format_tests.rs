use altium::overline::parse;
use altium::svg::base64_encode;

fn segs(input: &str) -> Vec<(String, bool)> {
    parse(input).into_iter().map(|s| (s.text, s.overline)).collect()
}

#[test]
fn plain_text_unchanged() {
    assert_eq!(segs("Reset"), vec![("Reset".into(), false)]);
}

#[test]
fn last_char_overlined() {
    assert_eq!(segs("RESET\\"), vec![("RESE".into(), false), ("T".into(), true),]);
}

#[test]
fn fully_overlined() {
    assert_eq!(segs("R\\E\\S\\E\\T\\"), vec![("RESET".into(), true)]);
}

#[test]
fn first_char_overlined() {
    assert_eq!(segs("R\\ESET"), vec![("R".into(), true), ("ESET".into(), false),]);
}

#[test]
fn empty() {
    assert_eq!(segs(""), Vec::<(String, bool)>::new());
}

#[test]
fn dangling_backslash() {
    assert_eq!(segs("\\"), Vec::<(String, bool)>::new());
}

#[test]
fn overline_runs_alternate() {
    let runs = segs("A\\B\\CD\\E");
    assert_eq!(runs, vec![("AB".into(), true), ("C".into(), false), ("D".into(), true), ("E".into(), false)]);
}

#[test]
fn round_trip_known_strings() {
    assert_eq!(base64_encode(b""), "");
    assert_eq!(base64_encode(b"f"), "Zg==");
    assert_eq!(base64_encode(b"fo"), "Zm8=");
    assert_eq!(base64_encode(b"foo"), "Zm9v");
    assert_eq!(base64_encode(b"foob"), "Zm9vYg==");
    assert_eq!(base64_encode(b"fooba"), "Zm9vYmE=");
    assert_eq!(base64_encode(b"foobar"), "Zm9vYmFy");
}

#[test]
fn base64_uses_the_whole_alphabet() {
    assert_eq!(base64_encode(&[0xFB, 0xFF, 0xBF]), "+/+/");
    assert_eq!(base64_encode(&[0, 0x10, 0x83]), "ABCD");
}
