use altium::footprint_io::{read_footprint_primitives, FootprintError, Primitive};
use altium::doc_primitives::{read_doc_primitive_stream, DocStreamError};
use altium::records::DataError;

fn block(out: &mut Vec<u8>, body: &[u8]) {
    out.extend_from_slice(&(body.len() as u32).to_le_bytes());
    out.extend_from_slice(body);
}

fn stream(records: &[(u8, Vec<Vec<u8>>)]) -> Vec<u8> {
    let mut d = Vec::new();
    block(&mut d, &[3, b'R', b'0', b'6']);
    for (kind, blocks) in records {
        d.push(*kind);
        for b in blocks {
            block(&mut d, b);
        }
    }
    d
}

fn prefix(layer: u8) -> Vec<u8> {
    let mut b = vec![0u8; 13];
    b[0] = layer;
    b[1] = 0x04;
    b[3] = 0xFF;
    b[4] = 0xFF;
    b[7] = 0xFF;
    b[8] = 0xFF;
    b
}

#[test]
fn footprint_primitives_decode_in_stream_order() {
    let mut track = prefix(1);
    track.extend_from_slice(&[0u8; 20]);
    track[29..33].copy_from_slice(&1000i32.to_le_bytes());
    let mut text = prefix(33);
    text.extend_from_slice(&[0u8; 27]);
    let d = stream(&[
        (4, vec![track]),
        (1, vec![vec![]]),
        (9, vec![vec![1, 2, 3]]),
        (5, vec![text, vec![2, b'H', b'i']]),
    ]);
    let ps = match read_footprint_primitives(&d, &[]) {
        Ok(ps) => ps,
        Err(_) => panic!("stream should decode"),
    };
    assert_eq!(ps.len(), 2);
    match &ps[0] {
        Primitive::Track(t) => {
            assert_eq!(t.layer, 1);
            assert_eq!(t.width.raw, 1000);
        }
        _ => panic!("first primitive should be the track"),
    }
    match &ps[1] {
        Primitive::Text(t) => {
            assert_eq!(t.text, "Hi");
            assert_eq!(t.layer, 33);
        }
        _ => panic!("second primitive should be the text"),
    }
}

#[test]
fn footprint_primitive_errors_name_the_record() {
    let d = stream(&[(4, vec![vec![0u8; 33]]), (6, vec![vec![0u8; 10]])]);
    assert!(matches!(read_footprint_primitives(&d, &[]), Err(FootprintError::Record(1, _))));
    assert!(matches!(read_footprint_primitives(&[1, 0], &[]), Err(FootprintError::Records(DataError::MissingNameBlock))));
}

fn doc_stream(records: &[(u8, Vec<Vec<u8>>)]) -> Vec<u8> {
    let mut d = Vec::new();
    for (kind, blocks) in records {
        d.push(*kind);
        for b in blocks {
            block(&mut d, b);
        }
    }
    d
}

#[test]
fn doc_stream_reads_its_own_type_and_passes_over_others() {
    let mut track = prefix(7);
    track.extend_from_slice(&[0u8; 20]);
    track[29..33].copy_from_slice(&2500i32.to_le_bytes());
    // A pad record in a track stream takes one block, not six.
    let d = doc_stream(&[(2, vec![vec![1, 2, 3]]), (4, vec![track]), (9, vec![vec![]])]);
    let ps = match read_doc_primitive_stream(&d, 4, &[]) {
        Ok(ps) => ps,
        Err(_) => panic!("stream should decode"),
    };
    assert_eq!(ps.len(), 1);
    match &ps[0] {
        Primitive::Track(t) => {
            assert_eq!(t.layer, 7);
            assert_eq!(t.width.raw, 2500);
        }
        _ => panic!("the primitive should be the track"),
    }
    assert_eq!(read_doc_primitive_stream(&[], 4, &[]).ok().map(|v| v.len()), Some(0));
}

#[test]
fn doc_stream_errors() {
    let d = doc_stream(&[(6, vec![vec![0u8; 10]])]);
    assert!(matches!(read_doc_primitive_stream(&d, 6, &[]), Err(DocStreamError::Record(0, _))));
    // A track record among fills is only passed over.
    let d = doc_stream(&[(4, vec![vec![0u8; 10]]), (6, vec![vec![]])]);
    assert_eq!(read_doc_primitive_stream(&d, 6, &[]).ok().map(|v| v.len()), Some(0));
    // Bytes left that cannot hold a block length.
    let mut d = doc_stream(&[(6, vec![vec![]])]);
    d.extend_from_slice(&[6, 0]);
    assert!(matches!(
        read_doc_primitive_stream(&d, 6, &[]),
        Err(DocStreamError::Records(DataError::TruncatedBlockLength))
    ));
    assert!(matches!(
        read_doc_primitive_stream(&[6, 9, 0, 0, 0, 1], 6, &[]),
        Err(DocStreamError::Records(DataError::BlockPastEnd))
    ));
}
