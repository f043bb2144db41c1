use altium::binary::{layer_byte_to_name, layer_name_to_byte, ObjectId, PrimitiveFlags};
use altium::binary::{read_common_prefix, write_common_prefix_full, CommonPrefix};

#[test]
fn flags_round_trip() {
    for &(locked, t_top, t_bot, keepout) in &[
        (false, false, false, false),
        (true, true, false, false),
        (false, false, true, true),
        (true, true, true, true),
    ] {
        let f = PrimitiveFlags {
            is_locked: locked,
            is_tenting_top: t_top,
            is_tenting_bottom: t_bot,
            is_keepout: keepout,
        };
        let bits = f.encode();
        let decoded = PrimitiveFlags::decode(bits);
        assert_eq!(decoded.is_locked, locked);
        assert_eq!(decoded.is_tenting_top, t_top);
        assert_eq!(decoded.is_tenting_bottom, t_bot);
        assert_eq!(decoded.is_keepout, keepout);
    }
}

#[test]
fn unlocked_clear_means_locked() {
    let f = PrimitiveFlags::decode(0);
    assert!(f.is_locked);
    assert!(!f.is_tenting_top);
    assert!(!f.is_tenting_bottom);
    assert!(!f.is_keepout);
}

#[test]
fn layer_names_map_correctly() {
    assert_eq!(layer_name_to_byte("MECHANICAL1"), 57);
    assert_eq!(layer_name_to_byte("Mechanical 16"), 72);
    assert_eq!(layer_name_to_byte("TOP"), 1);
    assert_eq!(layer_name_to_byte("BOTTOMLAYER"), 32);
    assert_eq!(layer_name_to_byte("MIDLAYER1"), 2);
    assert_eq!(layer_name_to_byte("Mid30"), 31);
    assert_eq!(layer_name_to_byte("INTERNALPLANE3"), 41);
    assert_eq!(layer_name_to_byte("MULTILAYER"), 74);
    assert_eq!(layer_name_to_byte(""), 0);
    assert_eq!(layer_name_to_byte("UNKNOWN"), 0);
}

#[test]
fn layer_names_round_trip_for_every_layer() {
    for b in 1u8..=74 {
        assert_eq!(layer_name_to_byte(&layer_byte_to_name(b)), b);
    }
    assert_eq!(layer_byte_to_name(5), "MID4");
    assert_eq!(layer_byte_to_name(41), "INTERNALPLANE3");
    assert_eq!(layer_byte_to_name(200), "MECHANICAL1");
    assert_eq!(layer_name_to_byte("mid-layer 7"), 8);
    assert_eq!(layer_name_to_byte("MECHANICAL17"), 0);
}

#[test]
fn encoded_flag_bits() {
    let f = PrimitiveFlags { is_locked: false, is_tenting_top: true, is_tenting_bottom: false, is_keepout: true };
    assert_eq!(f.encode(), 0x04 | 0x20 | 0x200);
}

#[test]
fn object_ids_from_bytes() {
    assert_eq!(ObjectId::from_byte(1), Some(ObjectId::Arc));
    assert_eq!(ObjectId::from_byte(11), Some(ObjectId::Region));
    assert_eq!(ObjectId::from_byte(12), Some(ObjectId::ComponentBody));
    assert_eq!(ObjectId::from_byte(7), None);
    assert_eq!(ObjectId::from_byte(0), None);
}

#[test]
fn common_prefix_round_trip_and_sentinels() {
    let mut out = Vec::new();
    write_common_prefix_full(&mut out, 1, 0x0204, 3, 7);
    assert_eq!(out, vec![1, 0x04, 0x02, 2, 0, 0xFF, 0xFF, 7, 0, 0xFF, 0xFF, 0xFF, 0xFF]);
    assert_eq!(
        read_common_prefix(&out, 0),
        Some(CommonPrefix { layer: 1, flags: 0x0204, net_index: 3, component_index: 7 })
    );
    let mut none = Vec::new();
    write_common_prefix_full(&mut none, 32, 0, 0, -1);
    let p = read_common_prefix(&none, 0).unwrap();
    assert_eq!(p.net_index, 0);
    assert_eq!(p.component_index, -1);
    assert_eq!(read_common_prefix(&none[..12], 0), None);
}
