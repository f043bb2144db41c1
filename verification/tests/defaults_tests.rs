use altium::defaults::{current_date_time, days_to_ymd, format_date_time, format_date_time_us};

#[test]
fn date_format_is_dd_mm_yyyy() {
    let (date, _time) = current_date_time();
    let parts: Vec<&str> = date.split('/').collect();
    assert_eq!(parts.len(), 3, "date has three /-separated parts");
    assert_eq!(parts[0].len(), 2, "day is two digits");
    assert_eq!(parts[1].len(), 2, "month is two digits");
    assert_eq!(parts[2].len(), 4, "year is four digits");
}

#[test]
fn days_to_ymd_known_values() {
    assert_eq!(days_to_ymd(0), (1970, 1, 1));
    assert_eq!(days_to_ymd(31), (1970, 2, 1));
    assert_eq!(days_to_ymd(365), (1971, 1, 1));
    // 56 years × 365 + 14 leap days = 20454 → 2026-01-01.
    assert_eq!(days_to_ymd(20454), (2026, 1, 1));
    assert_eq!(days_to_ymd(20467), (2026, 1, 14));
    // Leap-year sanity: 2024-02-29 is day 19782 (1970-01-01 + 19782).
    assert_eq!(days_to_ymd(19782), (2024, 2, 29));
}

#[test]
fn days_before_the_epoch() {
    assert_eq!(days_to_ymd(-1), (1969, 12, 31));
    assert_eq!(days_to_ymd(-365), (1969, 1, 1));
}

#[test]
fn formatted_date_and_time_of_known_instants() {
    let (d, t) = format_date_time(0);
    assert_eq!(d, "01/01/1970");
    assert_eq!(t, "00:00:00");
    // 2024-02-29 13:05:09 UTC.
    let secs = 19782u64 * 86400 + 13 * 3600 + 5 * 60 + 9;
    let (d, t) = format_date_time(secs);
    assert_eq!(d, "29/02/2024");
    assert_eq!(t, "13:05:09");
    let (d, t) = format_date_time_us(secs);
    assert_eq!(d, "2/29/2024");
    assert_eq!(t, "1:05:09 PM");
    let (d, t) = format_date_time_us(0);
    assert_eq!(d, "1/1/1970");
    assert_eq!(t, "12:00:00 AM");
}

use altium::defaults::{
    ensure_pcblib_parameters_complete, layer_guid_from_hash, populate_default_pcblib_parameters, stable_layer_guid,
};
use altium::parameter::ParameterMap;
use std::collections::BTreeMap;

#[test]
fn populate_emits_master_stack_and_layers() {
    let mut params = ParameterMap::new();
    populate_default_pcblib_parameters(&mut params, 0);
    assert!(params.contains_key("HEADER"));
    assert!(params.contains_key("V9_MASTERSTACK_STYLE"));
    assert!(params.contains_key("V9_STACK_LAYER0_NAME"));
    assert!(params.contains_key("V9_STACK_LAYER8_NAME")); // bottom paste
    assert_eq!(
        params.get("V9_STACK_LAYER3_NAME"),
        Some("Top Layer"),
        "layer 3 is Top Layer in 2-layer stack"
    );
    assert_eq!(params.get("V9_STACK_LAYER4_NAME"), Some("Dielectric 1"));
    assert_eq!(params.get("V9_STACK_LAYER5_NAME"), Some("Bottom Layer"));
    assert_eq!(
        params.get("V9_MASTERSTACK_NAME"),
        Some("Master layer stack")
    );
}

#[test]
fn ensure_complete_only_fills_missing() {
    let mut user = BTreeMap::new();
    user.insert("HEADER".to_string(), "Custom".to_string());
    user.insert("KIND".to_string(), "MyKind".to_string());
    let user: Vec<(String, String)> = user.into_iter().collect();

    let mut out = ParameterMap::new();
    ensure_pcblib_parameters_complete(&user, 0, &mut out);

    // User-supplied values are preserved untouched.
    assert_eq!(out.get("HEADER"), Some("Custom"));
    assert_eq!(out.get("KIND"), Some("MyKind"));
    // Missing defaults still get filled in.
    assert!(out.contains_key("V9_MASTERSTACK_NAME"));
    assert!(out.contains_key("V9_STACK_LAYER0_NAME"));
}

#[test]
fn library_defaults_in_detail() {
    let mut params = ParameterMap::new();
    populate_default_pcblib_parameters(&mut params, 3);
    assert_eq!(params.get("WEIGHT"), Some("3"));
    assert_eq!(params.get("VERSION"), Some("3.00"));
    assert_eq!(params.get("V9_STACK_LAYER2_DIELMATERIAL"), Some("Solder Resist"));
    assert_eq!(params.get("V9_STACK_LAYER3_LAYERID"), Some("16777217"));
    assert_eq!(params.get("V9_CACHE_LAYER11_NAME"), Some("Bottom Pad Master"));
    assert_eq!(params.get("V9_CACHE_LAYER4_LAYERID"), Some("16973850"));
    assert_eq!(params.get("V9_CACHE_LAYER0_USEDBYPRIMS"), Some("FALSE"));
    // 6 header + 6 master-stack + 9 layers * 3 + 27 extras + 12 cache * 4.
    assert_eq!(params.len(), 6 + 6 + 27 + 27 + 48);
    let id = params.get("V9_STACK_LAYER0_ID").unwrap();
    assert_eq!(id.len(), 38);
    assert!(id.starts_with('{') && id.ends_with('}'));
}

#[test]
fn layer_guid_text_of_a_hash() {
    assert_eq!(layer_guid_from_hash(0), "{00000000-0000-0000-0000-000000000000}");
    // lo = 0x89ABCDEF, hi = 0x01234567.
    assert_eq!(
        layer_guid_from_hash(0x0123_4567_89AB_CDEF),
        "{89ABCDEF-4567-0123-8888-000088888888}"
    );
    let g = stable_layer_guid(b"stack", 0);
    assert_eq!(g.len(), 38);
    assert_eq!(g, stable_layer_guid(b"stack", 0));
    assert_ne!(g, stable_layer_guid(b"stack", 1));
}

use altium::defaults::{ensure_pcbdoc_board_parameters_complete, is_v9_v8_stack_key, populate_default_pcbdoc_parameters};

#[test]
fn board_defaults_hold_outline_planes_and_stack() {
    let mut p = ParameterMap::new();
    populate_default_pcbdoc_parameters(&mut p);
    assert_eq!(p.get("KIND"), Some("Protel_Advanced_PCB"));
    assert_eq!(p.get("VERSION"), Some("5.01"));
    assert_eq!(p.get("PLANE16NETNAME"), Some("(No Net)"));
    assert_eq!(p.get("VX2"), Some("3937.0079mil"));
    assert_eq!(p.get("SA3"), Some(" 0.00000000000000E+0000"));
    assert_eq!(p.get("RECORD"), Some("Board"));
    assert_eq!(p.get("V9_STACK_LAYER5_NAME"), Some("Bottom Layer"));
    let date = p.get("DATE").unwrap();
    assert_eq!(date.split('/').count(), 3);
    assert!(p.get("TIME").unwrap().ends_with('M'));
}

#[test]
fn stack_keys_are_recognised() {
    assert!(is_v9_v8_stack_key("V9_STACK_LAYER3_NAME"));
    assert!(is_v9_v8_stack_key("v9_masterstack_style"));
    assert!(is_v9_v8_stack_key("LAYER_V8_0NAME"));
    assert!(is_v9_v8_stack_key("LayerStackStyle"));
    assert!(!is_v9_v8_stack_key("LAYERSTACKSTYLE2"));
    assert!(!is_v9_v8_stack_key("SHEETX"));
}

#[test]
fn board_entries_keep_user_values_and_stack() {
    let user = vec![
        ("sheetx".to_string(), "5mil".to_string()),
        ("V9_MASTERSTACK_STYLE".to_string(), "1".to_string()),
    ];
    let out = ensure_pcbdoc_board_parameters_complete(Some(&user));
    assert_eq!(out[0], ("sheetx".to_string(), "5mil".to_string()));
    assert_eq!(out[1].0, "V9_MASTERSTACK_STYLE");
    assert!(!out.iter().any(|(k, _)| k == "SHEETX"));
    assert!(!out.iter().any(|(k, _)| k.starts_with("V9_STACK_LAYER")));
    assert!(out.iter().any(|(k, v)| k == "SHEETY" && v == "1000mil"));

    let all = ensure_pcbdoc_board_parameters_complete(None);
    assert!(all.iter().any(|(k, v)| k == "V9_STACK_LAYER3_NAME" && v == "Top Layer"));
    assert_eq!(all[0], ("SELECTION".to_string(), "FALSE".to_string()));
}
