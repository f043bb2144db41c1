//! Default parameter sets emitted when authoring a PcbLib or PcbDoc from
//! scratch, and the date and time stamps they carry.

use vstd::prelude::*;

use std::hash::BuildHasher;

use crate::guids::{hex_digit, hex_digit_of};
use crate::parameter::{
    lemma_find_key_props, lemma_insert_get, map_get, map_insert, map_insert_all, pairs_view, Entries, ParameterMap,
};
use crate::text::{
    chars_of, dec, dec_string, has_prefix, owned, push_char, push_dec, push_dec_padded, push_str, seq_eq, starts_with,
    upper_chars, upper_seq, zero_pad,
};

verus! {

// ---------------------------------------------------------------------------
// Calendar

/// Days since 1970-01-01 to `(year, month, day)` in the proleptic Gregorian
/// calendar, by eras of 400 years (Howard Hinnant's `civil_from_days`).
pub open spec fn civil_from_days(days: int) -> (int, int, int) {
    let z = days + 719468;
    let era = z / 146097;
    let doe = z - era * 146097;
    let yoe = (doe - doe / 1460 + doe / 36524 - doe / 146096) / 365;
    let y = yoe + era * 400;
    let doy = doe - (365 * yoe + yoe / 4 - yoe / 100);
    let mp = (5 * doy + 2) / 153;
    let d = doy - (153 * mp + 2) / 5 + 1;
    let m = if mp < 10 { mp + 3 } else { mp - 9 };
    (if m <= 2 { y + 1 } else { y }, m, d)
}

/// Within a 400-year era the day of the year lies in `0..=365`, so months
/// come out in `1..=12` and days in `1..=31`.
pub proof fn lemma_era_day(doe: int)
    requires
        0 <= doe <= 146096,
    ensures
        ({
            let yoe = (doe - doe / 1460 + doe / 36524 - doe / 146096) / 365;
            let doy = doe - (365 * yoe + yoe / 4 - yoe / 100);
            let mp = (5 * doy + 2) / 153;
            let d = doy - (153 * mp + 2) / 5 + 1;
            &&& 0 <= yoe <= 399
            &&& 0 <= doy <= 365
            &&& 0 <= mp <= 11
            &&& 1 <= d <= 31
        }),
{
    let a = doe / 1460;
    let b = doe / 36524;
    let c = doe / 146096;
    let x = doe - a + b - c;
    let yoe = x / 365;
    let q = yoe / 4;
    let r = yoe / 100;
    assert(1460 * a <= doe < 1460 * a + 1460);
    assert(36524 * b <= doe < 36524 * b + 36524);
    assert(146096 * c <= doe < 146096 * c + 146096);
    assert(0 <= b <= 4);
    assert(0 <= c <= 1);
    assert(365 * yoe <= x < 365 * yoe + 365);
    assert(4 * q <= yoe < 4 * q + 4);
    assert(100 * r <= yoe < 100 * r + 100);
    let doy = doe - (365 * yoe + q - r);
    assert(0 <= doy <= 365);
    let mp = (5 * doy + 2) / 153;
    assert(153 * mp <= 5 * doy + 2 < 153 * mp + 153);
    let t = (153 * mp + 2) / 5;
    assert(5 * t <= 153 * mp + 2 < 5 * t + 5);
}

/// Days since `1970-01-01` to `(year, month, day)`. Works for any year
/// >= -32767.
#[verifier::spinoff_prover]
#[verifier::rlimit(40)]
pub fn days_to_ymd(days_since_epoch: i64) -> (r: (i32, u32, u32))
    requires
        days_since_epoch <= i64::MAX - 719468,
    ensures
        r.0 == civil_from_days(days_since_epoch as int).0 as i32,
        r.1 == civil_from_days(days_since_epoch as int).1 as u32,
        r.2 == civil_from_days(days_since_epoch as int).2 as u32,
{
    let z: i64 = days_since_epoch + 719_468;
    let era: i64 = if z >= 0 {
        z / 146_097
    } else {
        let n: u64 = (-(z as i128) + 146_096) as u64;
        -((n / 146_097) as i64)
    };
    proof {
        if z < 0 {
            let n = -(z as int) + 146096;
            assert(-(n / 146097) == z / 146097) by (nonlinear_arith)
                requires
                    z < 0,
                    n == -z + 146096,
            {
                let q = z / 146097;
                let r = z % 146097;
                assert(z == 146097 * q + r && 0 <= r < 146097);
                assert(n == 146097 * (-q) + (146096 - r));
            }
        }
    }
    let doe: i64 = z - era * 146_097;
    let yoe: i64 = (doe - doe / 1460 + doe / 36_524 - doe / 146_096) / 365;
    let y: i64 = yoe + era * 400;
    let doy: i64 = doe - (365 * yoe + yoe / 4 - yoe / 100);
    let mp: i64 = (5 * doy + 2) / 153;
    let d: i64 = doy - (153 * mp + 2) / 5 + 1;
    let m: i64 = if mp < 10 {
        mp + 3
    } else {
        mp - 9
    };
    let y2: i64 = if m <= 2 {
        y + 1
    } else {
        y
    };
    (y2 as i32, m as u32, d as u32)
}

/// Seconds since the Unix epoch on the system clock (0 when the clock reads
/// before the epoch). Nothing is promised of the value.
#[verifier::external_body]
fn unix_seconds() -> u64 {
    std::time::SystemTime::now().duration_since(std::time::UNIX_EPOCH).map(|d| d.as_secs()).unwrap_or(0)
}

/// `DD/MM/YYYY` and `HH:MM:SS` for a moment given in seconds since the epoch.
pub open spec fn spec_date_time(secs: nat) -> (Seq<char>, Seq<char>) {
    let (y, m, d) = civil_from_days((secs / 86400) as int);
    let t = secs % 86400;
    (
        zero_pad(dec(d as nat), 2) + seq!['/'] + zero_pad(dec(m as nat), 2) + seq!['/'] + pad_signed((y as i32) as int, 4),
        zero_pad(dec(t / 3600), 2) + seq![':'] + zero_pad(dec((t % 3600) / 60), 2) + seq![':'] + zero_pad(dec(t % 60), 2),
    )
}

/// `M/D/YYYY` and `H:MM:SS AM|PM` (12-hour clock) for a moment given in
/// seconds since the epoch.
pub open spec fn spec_date_time_us(secs: nat) -> (Seq<char>, Seq<char>) {
    let (y, m, d) = civil_from_days((secs / 86400) as int);
    let t = secs % 86400;
    let h24 = t / 3600;
    let h12 = if h24 % 12 == 0 { 12 } else { h24 % 12 };
    (
        dec(m as nat) + seq!['/'] + dec(d as nat) + seq!['/'] + pad_signed((y as i32) as int, 4),
        dec(h12) + seq![':'] + zero_pad(dec((t % 3600) / 60), 2) + seq![':'] + zero_pad(dec(t % 60), 2)
            + if h24 < 12 { " AM"@ } else { " PM"@ },
    )
}

/// For a day count that is not negative the month lies in `1..=12`, the
/// day in `1..=31`, and the year is at least 1600.
pub proof fn lemma_civil_nonneg(days: int)
    requires
        days >= 0,
    ensures
        civil_from_days(days).0 >= 1600,
        1 <= civil_from_days(days).1 <= 12,
        1 <= civil_from_days(days).2 <= 31,
{
    let z = days + 719468;
    let era = z / 146097;
    let doe = z - era * 146097;
    assert(146097 * era <= z < 146097 * era + 146097);
    assert(era >= 4);
    lemma_era_day(doe);
}

/// Every day count names a real calendar position: a month in `1..=12` and
/// a day in `1..=31`.
pub proof fn lemma_civil_date_valid(days: int)
    ensures
        1 <= civil_from_days(days).1 <= 12,
        1 <= civil_from_days(days).2 <= 31,
{
    let z = days + 719468;
    let era = z / 146097;
    let doe = z - era * 146097;
    assert(146097 * era <= z < 146097 * era + 146097);
    lemma_era_day(doe);
}

/// `{:0w}` of a signed value: a minus sign counts toward the width.
pub open spec fn pad_signed(v: int, width: nat) -> Seq<char> {
    if v < 0 {
        seq!['-'] + zero_pad(dec((-v) as nat), (width - 1) as nat)
    } else {
        zero_pad(dec(v as nat), width)
    }
}

fn push_padded_signed(s: &mut String, v: i32, width: usize)
    requires
        width >= 1,
    ensures
        final(s)@ == old(s)@ + pad_signed(v as int, width as nat),
{
    if v < 0 {
        push_char(s, '-');
        let m: u64 = (-(v as i64)) as u64;
        push_dec_padded(s, m, width - 1);
        assert(final(s)@ =~= old(s)@ + pad_signed(v as int, width as nat));
    } else {
        push_dec_padded(s, v as u64, width);
    }
}

/// The date and time of a moment given in seconds since the epoch, as
/// `DD/MM/YYYY` and `HH:MM:SS`.
pub fn format_date_time(secs: u64) -> (r: (String, String))
    ensures
        r.0@ == spec_date_time(secs as nat).0,
        r.1@ == spec_date_time(secs as nat).1,
{
    let days: u64 = secs / 86_400;
    let secs_in_day: u64 = secs % 86_400;
    let (y, m, d) = days_to_ymd(days as i64);
    let ghost c = civil_from_days(days as int);
    proof {
        lemma_civil_nonneg(days as int);
    }
    let mut date = String::new();
    push_dec_padded(&mut date, d as u64, 2);
    push_char(&mut date, '/');
    push_dec_padded(&mut date, m as u64, 2);
    push_char(&mut date, '/');
    push_padded_signed(&mut date, y, 4);
    let h = secs_in_day / 3600;
    let mi = (secs_in_day % 3600) / 60;
    let s = secs_in_day % 60;
    let mut time = String::new();
    push_dec_padded(&mut time, h, 2);
    push_char(&mut time, ':');
    push_dec_padded(&mut time, mi, 2);
    push_char(&mut time, ':');
    push_dec_padded(&mut time, s, 2);
    (date, time)
}

/// The date and time of a moment given in seconds since the epoch, as
/// `M/D/YYYY` and `H:MM:SS AM|PM`.
pub fn format_date_time_us(secs: u64) -> (r: (String, String))
    ensures
        r.0@ == spec_date_time_us(secs as nat).0,
        r.1@ == spec_date_time_us(secs as nat).1,
{
    let days: u64 = secs / 86_400;
    let secs_in_day: u64 = secs % 86_400;
    let (y, m, d) = days_to_ymd(days as i64);
    proof {
        lemma_civil_nonneg(days as int);
    }
    let mut date = String::new();
    push_dec(&mut date, m as u64);
    push_char(&mut date, '/');
    push_dec(&mut date, d as u64);
    push_char(&mut date, '/');
    push_padded_signed(&mut date, y, 4);
    let h24 = secs_in_day / 3600;
    let mi = (secs_in_day % 3600) / 60;
    let s = secs_in_day % 60;
    let h12: u64 = if h24 % 12 == 0 {
        12
    } else {
        h24 % 12
    };
    let mut time = String::new();
    push_dec(&mut time, h12);
    push_char(&mut time, ':');
    push_dec_padded(&mut time, mi, 2);
    push_char(&mut time, ':');
    push_dec_padded(&mut time, s, 2);
    if h24 < 12 {
        push_str(&mut time, " AM");
    } else {
        push_str(&mut time, " PM");
    }
    (date, time)
}

/// Today's date and the time now (UTC), as `DD/MM/YYYY` and `HH:MM:SS`.
pub fn current_date_time() -> (r: (String, String))
    ensures
        exists|secs: u64| r.0@ == spec_date_time(secs as nat).0 && r.1@ == spec_date_time(secs as nat).1,
{
    let secs = unix_seconds();
    format_date_time(secs)
}

/// Today's date and the time now (UTC), as `M/D/YYYY` and `H:MM:SS AM|PM`.
pub fn current_date_time_us() -> (r: (String, String))
    ensures
        exists|secs: u64| r.0@ == spec_date_time_us(secs as nat).0 && r.1@ == spec_date_time_us(secs as nat).1,
{
    let secs = unix_seconds();
    format_date_time_us(secs)
}

// ---------------------------------------------------------------------------
// Layer GUIDs

/// The last `w` upper-case hex digits of `v`, zero-padded.
pub open spec fn hex_fixed(v: nat, w: nat) -> Seq<char>
    decreases w,
{
    if w == 0 {
        seq![]
    } else {
        hex_fixed(v / 16, (w - 1) as nat).push(hex_digit((v % 16) as int))
    }
}

fn push_hex_fixed(s: &mut String, v: u64, w: usize)
    ensures
        final(s)@ == old(s)@ + hex_fixed(v as nat, w as nat),
    decreases w,
{
    if w > 0 {
        push_hex_fixed(s, v / 16, w - 1);
        push_char(s, hex_digit_of((v % 16) as u8));
        assert(final(s)@ =~= old(s)@ + hex_fixed(v as nat, w as nat));
    }
}

/// The GUID-shaped text made from a 64-bit hash `h`: its low and high words
/// and combinations of them, as `{XXXXXXXX-XXXX-XXXX-XXXX-XXXXXXXXXXXX}`.
pub open spec fn layer_guid_text(h: u64) -> Seq<char> {
    let lo = h as u32;
    let hi = (h >> 32u64) as u32;
    seq!['{'] + hex_fixed(lo as nat, 8) + seq!['-'] + hex_fixed((hi & 0xFFFFu32) as nat, 4) + seq!['-']
        + hex_fixed(((hi >> 16u32) & 0xFFFFu32) as nat, 4) + seq!['-'] + hex_fixed(((lo ^ hi) & 0xFFFFu32) as nat, 4)
        + seq!['-'] + hex_fixed((lo ^ hi) as nat, 12) + seq!['}']
}

/// The GUID-shaped text of a 64-bit hash.
pub fn layer_guid_from_hash(h: u64) -> (r: String)
    ensures
        r@ == layer_guid_text(h),
{
    let lo = h as u32;
    let hi = (h >> 32u64) as u32;
    let mut s = String::new();
    push_char(&mut s, '{');
    push_hex_fixed(&mut s, lo as u64, 8);
    push_char(&mut s, '-');
    push_hex_fixed(&mut s, (hi & 0xFFFFu32) as u64, 4);
    push_char(&mut s, '-');
    push_hex_fixed(&mut s, ((hi >> 16u32) & 0xFFFFu32) as u64, 4);
    push_char(&mut s, '-');
    push_hex_fixed(&mut s, ((lo ^ hi) & 0xFFFFu32) as u64, 4);
    push_char(&mut s, '-');
    push_hex_fixed(&mut s, (lo ^ hi) as u64, 12);
    push_char(&mut s, '}');
    assert(s@ =~= layer_guid_text(h));
    s
}

/// The 64-bit hash of `(namespace, index)` under std's default hasher with
/// its fixed keys.
pub uninterp spec fn layer_hash(namespace: Seq<u8>, index: usize) -> u64;

/// `BuildHasher::hash_one` of `(namespace, index)` on
/// `BuildHasherDefault<DefaultHasher>`: every hasher it builds is
/// `DefaultHasher::new()`, whose keys std documents as fixed, so the value
/// is a function of the namespace bytes and the index; the hash algorithm
/// itself is std's and is not restated.
#[verifier::external_body]
fn fixed_key_hash(namespace: &[u8], index: usize) -> (h: u64)
    ensures
        h == layer_hash(namespace@, index),
{
    std::hash::BuildHasherDefault::<std::hash::DefaultHasher>::default().hash_one((namespace, index))
}

/// A deterministic GUID-shaped identifier for a generated layer entry: the
/// same namespace and index give the same text, so writes are reproducible.
pub fn stable_layer_guid(namespace: &[u8], index: usize) -> (r: String)
    ensures
        r@ == layer_guid_text(layer_hash(namespace@, index)),
{
    let h = fixed_key_hash(namespace, index);
    layer_guid_from_hash(h)
}


// ---------------------------------------------------------------------------
// Default layer stack

/// A stack layer: name, Altium layer id, and extra `KEY=value` settings.
pub type LayerSpec = (Seq<char>, u32, Seq<(Seq<char>, Seq<char>)>);

/// The generic 2-layer stack-up: paste, overlay, solder and copper on each
/// side of one dielectric.
pub open spec fn default_stack() -> Seq<LayerSpec> {
    seq![
        ("Top Paste"@, 16973832u32, seq![("USEDBYPRIMS"@, "FALSE"@)]),
        ("Top Overlay"@, 16973830u32, seq![("USEDBYPRIMS"@, "TRUE"@)]),
        ("Top Solder"@, 16973834u32, seq![("USEDBYPRIMS"@, "FALSE"@), ("DIELTYPE"@, "3"@), ("DIELCONST"@, "3.500"@), ("DIELHEIGHT"@, "0.4mil"@), ("DIELMATERIAL"@, "Solder Resist"@), ("COVERLAY_EXPANSION"@, "0mil"@)]),
        ("Top Layer"@, 16777217u32, seq![("USEDBYPRIMS"@, "TRUE"@), ("COPTHICK"@, "1.4mil"@), ("COMPONENTPLACEMENT"@, "1"@)]),
        ("Dielectric 1"@, 17039361u32, seq![("USEDBYPRIMS"@, "FALSE"@), ("DIELTYPE"@, "0"@), ("DIELCONST"@, "4.800"@), ("DIELHEIGHT"@, "12.6mil"@), ("DIELMATERIAL"@, "FR-4"@)]),
        ("Bottom Layer"@, 16842751u32, seq![("USEDBYPRIMS"@, "TRUE"@), ("COPTHICK"@, "1.4mil"@), ("COMPONENTPLACEMENT"@, "2"@)]),
        ("Bottom Solder"@, 16973835u32, seq![("USEDBYPRIMS"@, "FALSE"@), ("DIELTYPE"@, "3"@), ("DIELCONST"@, "3.500"@), ("DIELHEIGHT"@, "0.4mil"@), ("DIELMATERIAL"@, "Solder Resist"@), ("COVERLAY_EXPANSION"@, "0mil"@)]),
        ("Bottom Overlay"@, 16973831u32, seq![("USEDBYPRIMS"@, "FALSE"@)]),
        ("Bottom Paste"@, 16973833u32, seq![("USEDBYPRIMS"@, "FALSE"@)]),
    ]
}

/// The utility cache layers Altium expects to find.
pub open spec fn default_cache() -> Seq<(Seq<char>, u32)> {
    seq![
        ("Multi-Layer"@, 16973839u32),
        ("Connections"@, 16973840u32),
        ("Background"@, 16973841u32),
        ("DRC Error Markers"@, 16973842u32),
        ("DRC Detail Markers"@, 16973850u32),
        ("Selections"@, 16973843u32),
        ("Visible Grid 1"@, 16973844u32),
        ("Visible Grid 2"@, 16973845u32),
        ("Pad Holes"@, 16973846u32),
        ("Via Holes"@, 16973847u32),
        ("Top Pad Master"@, 16973848u32),
        ("Bottom Pad Master"@, 16973849u32),
    ]
}

/// The view of an executable stack table.
pub open spec fn stack_view(v: Seq<(&str, u32, Vec<(&str, &str)>)>) -> Seq<LayerSpec> {
    v.map_values(|e: (&str, u32, Vec<(&str, &str)>)| (e.0@, e.1, e.2@.map_values(|p: (&str, &str)| (p.0@, p.1@))))
}

/// The view of an executable cache table.
pub open spec fn cache_view(v: Seq<(&str, u32)>) -> Seq<(Seq<char>, u32)> {
    v.map_values(|e: (&str, u32)| (e.0@, e.1))
}

fn stack_table() -> (r: Vec<(&'static str, u32, Vec<(&'static str, &'static str)>)>)
    ensures
        stack_view(r@) == default_stack(),
{
    let r = vec![
        ("Top Paste", 16973832u32, vec![("USEDBYPRIMS", "FALSE")]),
        ("Top Overlay", 16973830u32, vec![("USEDBYPRIMS", "TRUE")]),
        ("Top Solder", 16973834u32, vec![("USEDBYPRIMS", "FALSE"), ("DIELTYPE", "3"), ("DIELCONST", "3.500"), ("DIELHEIGHT", "0.4mil"), ("DIELMATERIAL", "Solder Resist"), ("COVERLAY_EXPANSION", "0mil")]),
        ("Top Layer", 16777217u32, vec![("USEDBYPRIMS", "TRUE"), ("COPTHICK", "1.4mil"), ("COMPONENTPLACEMENT", "1")]),
        ("Dielectric 1", 17039361u32, vec![("USEDBYPRIMS", "FALSE"), ("DIELTYPE", "0"), ("DIELCONST", "4.800"), ("DIELHEIGHT", "12.6mil"), ("DIELMATERIAL", "FR-4")]),
        ("Bottom Layer", 16842751u32, vec![("USEDBYPRIMS", "TRUE"), ("COPTHICK", "1.4mil"), ("COMPONENTPLACEMENT", "2")]),
        ("Bottom Solder", 16973835u32, vec![("USEDBYPRIMS", "FALSE"), ("DIELTYPE", "3"), ("DIELCONST", "3.500"), ("DIELHEIGHT", "0.4mil"), ("DIELMATERIAL", "Solder Resist"), ("COVERLAY_EXPANSION", "0mil")]),
        ("Bottom Overlay", 16973831u32, vec![("USEDBYPRIMS", "FALSE")]),
        ("Bottom Paste", 16973833u32, vec![("USEDBYPRIMS", "FALSE")]),
    ];
    assert(stack_view(r@) =~~= default_stack());
    r
}

fn cache_table() -> (r: Vec<(&'static str, u32)>)
    ensures
        cache_view(r@) == default_cache(),
{
    let r = vec![
        ("Multi-Layer", 16973839u32),
        ("Connections", 16973840u32),
        ("Background", 16973841u32),
        ("DRC Error Markers", 16973842u32),
        ("DRC Detail Markers", 16973850u32),
        ("Selections", 16973843u32),
        ("Visible Grid 1", 16973844u32),
        ("Visible Grid 2", 16973845u32),
        ("Pad Holes", 16973846u32),
        ("Via Holes", 16973847u32),
        ("Top Pad Master", 16973848u32),
        ("Bottom Pad Master", 16973849u32),
    ];
    assert(cache_view(r@) =~= default_cache());
    r
}


/// The pairs of one layer entry: its id, name and layer id, then its extra
/// settings, each key prefixed with `<prefix><i>_`.
pub open spec fn layer_entry_pairs(prefix: Seq<char>, i: nat, id: Seq<char>, l: LayerSpec) -> Entries {
    let p = prefix + dec(i) + seq!['_'];
    seq![(p + "ID"@, id), (p + "NAME"@, l.0), (p + "LAYERID"@, dec(l.1 as nat))] + l.2.map_values(
        |kv: (Seq<char>, Seq<char>)| (p + kv.0, kv.1),
    )
}

/// The pairs of the first `n` layers, numbered from 0, with the given ids.
pub open spec fn layers_pairs(prefix: Seq<char>, layers: Seq<LayerSpec>, ids: Seq<Seq<char>>, n: nat) -> Entries
    decreases n,
{
    if n == 0 {
        seq![]
    } else {
        layers_pairs(prefix, layers, ids, (n - 1) as nat) + layer_entry_pairs(
            prefix,
            (n - 1) as nat,
            ids[n - 1],
            layers[n - 1],
        )
    }
}

/// The cache layers as layer entries: each marked unused by primitives.
pub open spec fn cache_as_layers() -> Seq<LayerSpec> {
    default_cache().map_values(|c: (Seq<char>, u32)| (c.0, c.1, seq![("USEDBYPRIMS"@, "FALSE"@)]))
}

/// The master-stack metadata entries.
pub open spec fn master_stack_pairs() -> Entries {
    seq![
        ("V9_MASTERSTACK_STYLE"@, "0"@),
        ("V9_MASTERSTACK_ID"@, "{00000000-0000-0000-0000-000000000001}"@),
        ("V9_MASTERSTACK_NAME"@, "Master layer stack"@),
        ("V9_MASTERSTACK_SHOWTOPDIELECTRIC"@, "FALSE"@),
        ("V9_MASTERSTACK_SHOWBOTTOMDIELECTRIC"@, "FALSE"@),
        ("V9_MASTERSTACK_ISFLEX"@, "FALSE"@),
    ]
}

/// The file header entries of a library written at `date` `time` holding
/// `count` footprints.
pub open spec fn lib_header_pairs(date: Seq<char>, time: Seq<char>, count: nat) -> Entries {
    seq![
        ("HEADER"@, "PCB 6.0 Binary Library File"@),
        ("KIND"@, "Protel_Advanced_PCB_Library"@),
        ("VERSION"@, "3.00"@),
        ("DATE"@, date),
        ("TIME"@, time),
        ("WEIGHT"@, dec(count)),
    ]
}

/// Every default library entry, in the order they are inserted.
pub open spec fn pcblib_default_pairs(
    date: Seq<char>,
    time: Seq<char>,
    count: nat,
    stack_ids: Seq<Seq<char>>,
    cache_ids: Seq<Seq<char>>,
) -> Entries {
    lib_header_pairs(date, time, count) + master_stack_pairs() + layers_pairs(
        "V9_STACK_LAYER"@,
        default_stack(),
        stack_ids,
        9,
    ) + layers_pairs("V9_CACHE_LAYER"@, cache_as_layers(), cache_ids, 12)
}

/// Text in the shape of a generated layer GUID.
pub open spec fn is_layer_guid(s: Seq<char>) -> bool {
    exists|h: u64| s == layer_guid_text(h)
}

fn push_pair(v: &mut Vec<(String, String)>, k: &str, val: &str)
    ensures
        pairs_view(final(v)@) == pairs_view(old(v)@).push((k@, val@)),
{
    v.push((owned(k), owned(val)));
    assert(pairs_view(final(v)@) =~= pairs_view(old(v)@).push((k@, val@)));
}

fn entry_key(prefix: &str, i: usize, suffix: &str) -> (r: String)
    ensures
        r@ == prefix@ + dec(i as nat) + seq!['_'] + suffix@,
{
    let mut s = owned(prefix);
    push_dec(&mut s, i as u64);
    push_char(&mut s, '_');
    push_str(&mut s, suffix);
    s
}

fn push_layer_entry(
    v: &mut Vec<(String, String)>,
    prefix: &str,
    i: usize,
    id: &str,
    name: &str,
    layer_id: u32,
    extras: &Vec<(&str, &str)>,
)
    ensures
        pairs_view(final(v)@) == pairs_view(old(v)@) + layer_entry_pairs(
            prefix@,
            i as nat,
            id@,
            (name@, layer_id, extras@.map_values(|p: (&str, &str)| (p.0@, p.1@))),
        ),
{
    let ghost p = prefix@ + dec(i as nat) + seq!['_'];
    let ghost ex = extras@.map_values(|p: (&str, &str)| (p.0@, p.1@));
    let ghost start = pairs_view(v@);
    let k = entry_key(prefix, i, "ID");
    push_pair(v, k.as_str(), id);
    let k = entry_key(prefix, i, "NAME");
    push_pair(v, k.as_str(), name);
    let k = entry_key(prefix, i, "LAYERID");
    let lid = dec_string(layer_id as u64);
    push_pair(v, k.as_str(), lid.as_str());
    let ghost head = pairs_view(v@);
    assert(head =~= start + seq![(p + "ID"@, id@), (p + "NAME"@, name@), (p + "LAYERID"@, dec(layer_id as nat))]);
    let mut j: usize = 0;
    while j < extras.len()
        invariant
            j <= extras@.len(),
            ex == extras@.map_values(|p: (&str, &str)| (p.0@, p.1@)),
            p == prefix@ + dec(i as nat) + seq!['_'],
            pairs_view(v@) == head + ex.take(j as int).map_values(|kv: (Seq<char>, Seq<char>)| (p + kv.0, kv.1)),
        decreases extras@.len() - j,
    {
        let (ek, ev) = extras[j];
        let k = entry_key(prefix, i, ek);
        push_pair(v, k.as_str(), ev);
        j += 1;
        assert(ex.take(j as int).map_values(|kv: (Seq<char>, Seq<char>)| (p + kv.0, kv.1)) =~= ex.take(j - 1).map_values(
            |kv: (Seq<char>, Seq<char>)| (p + kv.0, kv.1),
        ).push((p + ex[j - 1].0, ex[j - 1].1)));
        assert(pairs_view(v@) =~= head + ex.take(j as int).map_values(|kv: (Seq<char>, Seq<char>)| (p + kv.0, kv.1)));
    }
    assert(ex.take(extras@.len() as int) =~= ex);
    assert(pairs_view(v@) =~= start + layer_entry_pairs(prefix@, i as nat, id@, (name@, layer_id, ex)));
}

/// Every id in `ids` is in the shape of a generated layer GUID.
pub open spec fn all_layer_guids(ids: Seq<Seq<char>>) -> bool {
    forall|i: int| 0 <= i < ids.len() ==> is_layer_guid(#[trigger] ids[i])
}

/// Appends the entries of every layer of `table`, each with a fresh id
/// hashed from `namespace` and its index.
fn push_layers(
    v: &mut Vec<(String, String)>,
    prefix: &str,
    namespace: &str,
    table: &Vec<(&str, u32, Vec<(&str, &str)>)>,
)
    ensures
        exists|ids: Seq<Seq<char>>|
            #![trigger layers_pairs(prefix@, stack_view(table@), ids, table@.len() as nat)]
            ids.len() == table@.len() && all_layer_guids(ids) && pairs_view(final(v)@) == pairs_view(old(v)@)
                + layers_pairs(prefix@, stack_view(table@), ids, table@.len() as nat),
{
    let ns = crate::encoding::encode(namespace);
    let ghost start = pairs_view(v@);
    let ghost mut ids: Seq<Seq<char>> = seq![];
    let mut i: usize = 0;
    while i < table.len()
        invariant
            i <= table@.len(),
            ids.len() == i,
            all_layer_guids(ids),
            pairs_view(v@) == start + layers_pairs(prefix@, stack_view(table@), ids, i as nat),
        decreases table@.len() - i,
    {
        let id = stable_layer_guid(ns.as_slice(), i);
        let (name, layer_id, extras) = (table[i].0, table[i].1, &table[i].2);
        push_layer_entry(v, prefix, i, id.as_str(), name, layer_id, extras);
        let ghost old_ids = ids;
        proof {
            ids = ids.push(id@);
            assert forall|k: int| 0 <= k < ids.len() implies is_layer_guid(#[trigger] ids[k]) by {
                if k < old_ids.len() {
                    assert(ids[k] == old_ids[k]);
                }
            }
            assert(layers_pairs(prefix@, stack_view(table@), old_ids, i as nat) == layers_pairs(
                prefix@,
                stack_view(table@),
                ids,
                i as nat,
            )) by {
                lemma_layers_pairs_prefix(prefix@, stack_view(table@), old_ids, ids, i as nat);
            }
        }
        i += 1;
    }
}

proof fn lemma_layers_pairs_prefix(prefix: Seq<char>, layers: Seq<LayerSpec>, a: Seq<Seq<char>>, b: Seq<Seq<char>>, n: nat)
    requires
        n <= a.len(),
        n <= b.len(),
        forall|k: int| 0 <= k < n ==> a[k] == b[k],
    ensures
        layers_pairs(prefix, layers, a, n) == layers_pairs(prefix, layers, b, n),
    decreases n,
{
    if n > 0 {
        lemma_layers_pairs_prefix(prefix, layers, a, b, (n - 1) as nat);
    }
}

fn cache_layer_table() -> (r: Vec<(&'static str, u32, Vec<(&'static str, &'static str)>)>)
    ensures
        stack_view(r@) == cache_as_layers(),
{
    let c = cache_table();
    let mut r: Vec<(&'static str, u32, Vec<(&'static str, &'static str)>)> = Vec::new();
    let mut i: usize = 0;
    while i < c.len()
        invariant
            i <= c@.len(),
            cache_view(c@) == default_cache(),
            stack_view(r@) == cache_as_layers().take(i as int),
        decreases c@.len() - i,
    {
        let extras = vec![("USEDBYPRIMS", "FALSE")];
        assert(extras@.map_values(|p: (&str, &str)| (p.0@, p.1@)) =~= seq![("USEDBYPRIMS"@, "FALSE"@)]);
        let ghost before = r@;
        r.push((c[i].0, c[i].1, extras));
        assert(cache_view(c@)[i as int] == default_cache()[i as int]);
        assert(stack_view(r@) =~= stack_view(before).push(cache_as_layers()[i as int]));
        i += 1;
        assert(stack_view(r@) =~= cache_as_layers().take(i as int));
    }
    assert(cache_as_layers().take(c@.len() as int) =~= cache_as_layers());
    r
}

/// A date and time as `current_date_time` writes them, for some moment.
pub open spec fn is_date_time(date: Seq<char>, time: Seq<char>) -> bool {
    exists|secs: u64| date == spec_date_time(secs as nat).0 && time == spec_date_time(secs as nat).1
}

/// Appends a 2-layer master stack to `params`, as the Altium editor writes
/// it for a fresh blank library: file header entries stamped with the
/// current date and time, the master-stack metadata, nine stack layers and
/// twelve cache layers, each layer with a generated id.
pub fn populate_default_pcblib_parameters(params: &mut ParameterMap, component_count: usize)
    ensures
        exists|date: Seq<char>, time: Seq<char>, sids: Seq<Seq<char>>, cids: Seq<Seq<char>>|
            #![trigger pcblib_default_pairs(date, time, component_count as nat, sids, cids)]
            is_date_time(date, time) && sids.len() == 9 && cids.len() == 12 && all_layer_guids(sids)
                && all_layer_guids(cids) && final(params)@ == map_insert_all(
                old(params)@,
                pcblib_default_pairs(date, time, component_count as nat, sids, cids),
            ),
        old(params).wf() ==> final(params).wf(),
{
    let (date, time) = current_date_time();
    let mut pairs: Vec<(String, String)> = Vec::new();
    push_pair(&mut pairs, "HEADER", "PCB 6.0 Binary Library File");
    push_pair(&mut pairs, "KIND", "Protel_Advanced_PCB_Library");
    push_pair(&mut pairs, "VERSION", "3.00");
    push_pair(&mut pairs, "DATE", date.as_str());
    push_pair(&mut pairs, "TIME", time.as_str());
    let weight = dec_string(component_count as u64);
    push_pair(&mut pairs, "WEIGHT", weight.as_str());
    push_pair(&mut pairs, "V9_MASTERSTACK_STYLE", "0");
    push_pair(&mut pairs, "V9_MASTERSTACK_ID", "{00000000-0000-0000-0000-000000000001}");
    push_pair(&mut pairs, "V9_MASTERSTACK_NAME", "Master layer stack");
    push_pair(&mut pairs, "V9_MASTERSTACK_SHOWTOPDIELECTRIC", "FALSE");
    push_pair(&mut pairs, "V9_MASTERSTACK_SHOWBOTTOMDIELECTRIC", "FALSE");
    push_pair(&mut pairs, "V9_MASTERSTACK_ISFLEX", "FALSE");
    let ghost head = pairs_view(pairs@);
    assert(head =~= lib_header_pairs(date@, time@, component_count as nat) + master_stack_pairs());
    let stack = stack_table();
    assert(stack_view(stack@).len() == 9);
    push_layers(&mut pairs, "V9_STACK_LAYER", "stack", &stack);
    let ghost mid = pairs_view(pairs@);
    let cache = cache_layer_table();
    assert(stack_view(cache@).len() == 12);
    push_layers(&mut pairs, "V9_CACHE_LAYER", "cache", &cache);
    proof {
        let sids = choose|ids: Seq<Seq<char>>|
            #![trigger layers_pairs("V9_STACK_LAYER"@, stack_view(stack@), ids, stack@.len() as nat)]
            ids.len() == stack@.len() && all_layer_guids(ids) && mid == head + layers_pairs(
                "V9_STACK_LAYER"@,
                stack_view(stack@),
                ids,
                stack@.len() as nat,
            );
        let cids = choose|ids: Seq<Seq<char>>|
            #![trigger layers_pairs("V9_CACHE_LAYER"@, stack_view(cache@), ids, cache@.len() as nat)]
            ids.len() == cache@.len() && all_layer_guids(ids) && pairs_view(pairs@) == mid + layers_pairs(
                "V9_CACHE_LAYER"@,
                stack_view(cache@),
                ids,
                cache@.len() as nat,
            );
        assert(pairs_view(pairs@) =~= pcblib_default_pairs(date@, time@, component_count as nat, sids, cids));
    }
    params.insert_all(pairs.as_slice());
}

/// `e` with each pair of `pairs` inserted, in order, unless its key is
/// already present.
pub open spec fn insert_missing(e: Entries, pairs: Entries) -> Entries
    decreases pairs.len(),
{
    if pairs.len() == 0 {
        e
    } else {
        let m = insert_missing(e, pairs.drop_last());
        if map_get(m, pairs.last().0) is Some {
            m
        } else {
            map_insert(m, pairs.last().0, pairs.last().1)
        }
    }
}

/// Filling in missing keys never changes a value already present, and
/// leaves every key of `pairs` present.
pub proof fn lemma_insert_missing(e: Entries, pairs: Entries, k: Seq<char>)
    requires
        crate::parameter::keys_unique(e),
    ensures
        map_get(e, k) is Some ==> map_get(insert_missing(e, pairs), k) == map_get(e, k),
        (exists|i: int| 0 <= i < pairs.len() && pairs[i].0 == k) ==> map_get(insert_missing(e, pairs), k) is Some,
        crate::parameter::keys_unique(insert_missing(e, pairs)),
    decreases pairs.len(),
{
    if pairs.len() > 0 {
        let d = pairs.drop_last();
        lemma_insert_missing(e, d, k);
        let m = insert_missing(e, d);
        let (n, v) = pairs.last();
        lemma_insert_get(m, n, v, k);
        if map_get(m, n) is None {
            if map_get(m, k) is Some {
                if crate::text::eq_ignore_case(k, n) {
                    lemma_find_key_props(m, k);
                    lemma_find_key_props(m, n);
                    let i = crate::parameter::find_key(m, k)->0;
                    assert(crate::text::eq_ignore_case(m[i].0, n)) by {
                        assert(crate::text::upper_seq(m[i].0) == crate::text::upper_seq(k));
                    }
                }
            }
        }
        if exists|i: int| 0 <= i < pairs.len() && pairs[i].0 == k {
            let i = choose|i: int| 0 <= i < pairs.len() && pairs[i].0 == k;
            if i < pairs.len() - 1 {
                assert(d[i].0 == k);
            } else if map_get(m, n) is Some {
                assert(n == k);
            }
        }
    }
}

/// Merges the library defaults into `out` after the user's entries: the
/// user's pairs are inserted first, then every default entry whose key is
/// still missing.
pub fn ensure_pcblib_parameters_complete(user: &[(String, String)], component_count: usize, out: &mut ParameterMap)
    ensures
        exists|date: Seq<char>, time: Seq<char>, sids: Seq<Seq<char>>, cids: Seq<Seq<char>>|
            #![trigger pcblib_default_pairs(date, time, component_count as nat, sids, cids)]
            is_date_time(date, time) && sids.len() == 9 && cids.len() == 12 && all_layer_guids(sids)
                && all_layer_guids(cids) && final(out)@ == insert_missing(
                map_insert_all(old(out)@, pairs_view(user@)),
                map_insert_all(
                    Seq::<(Seq<char>, Seq<char>)>::empty(),
                    pcblib_default_pairs(date, time, component_count as nat, sids, cids),
                ),
            ),
        old(out).wf() ==> final(out).wf(),
{
    out.insert_all(user);
    let ghost after_user = out@;
    let mut defaults = ParameterMap::new();
    populate_default_pcblib_parameters(&mut defaults, component_count);
    let entries = defaults.entries();
    let ghost d = pairs_view(entries@);
    let mut i: usize = 0;
    while i < entries.len()
        invariant
            i <= entries@.len(),
            d == pairs_view(entries@),
            out@ == insert_missing(after_user, d.take(i as int)),
            old(out).wf() ==> out.wf(),
        decreases entries@.len() - i,
    {
        assert(d.take(i + 1).drop_last() =~= d.take(i as int));
        if !out.contains_key(entries[i].0.as_str()) {
            out.insert(entries[i].0.as_str(), entries[i].1.as_str());
        }
        i += 1;
    }
    assert(d.take(entries@.len() as int) =~= d);
}


// ---------------------------------------------------------------------------
// Board defaults

/// Board header and format-marker entries before the date stamp.
pub open spec fn board_head_pairs() -> Entries {
    seq![
        ("SELECTION"@, "FALSE"@),
        ("LAYER"@, "UNKNOWN"@),
        ("LOCKED"@, "FALSE"@),
        ("POLYGONOUTLINE"@, "FALSE"@),
        ("USERROUTED"@, "TRUE"@),
        ("KEEPOUT"@, "FALSE"@),
        ("UNIONINDEX"@, "0"@),
        ("KIND"@, "Protel_Advanced_PCB"@),
        ("VERSION"@, "5.01"@),
    ]
}

/// Grid, polygon and sheet settings after the date stamp, ending with
/// `RECORD=Board`.
pub open spec fn board_settings_pairs() -> Entries {
    seq![
        ("ORIGINX"@, "0mil"@),
        ("ORIGINY"@, "0mil"@),
        ("BIGVISIBLEGRIDSIZE"@, "0.000"@),
        ("VISIBLEGRIDSIZE"@, "0.000"@),
        ("ELECTRICALGRIDRANGE"@, "3.937mil"@),
        ("ELECTRICALGRIDENABLED"@, "TRUE"@),
        ("SNAPGRIDSIZE"@, "39370.078740"@),
        ("SNAPGRIDSIZEX"@, "39370.078740"@),
        ("SNAPGRIDSIZEY"@, "39370.078740"@),
        ("TRACKGRIDSIZE"@, "200000.000000"@),
        ("VIAGRIDSIZE"@, "200000.000000"@),
        ("COMPONENTGRIDSIZE"@, "39370.078740"@),
        ("COMPONENTGRIDSIZEX"@, "39370.078740"@),
        ("COMPONENTGRIDSIZEY"@, "39370.078740"@),
        ("DOTGRID"@, "TRUE"@),
        ("DISPLAYUNIT"@, "0"@),
        ("DESIGNATORDISPLAYMODE"@, "0"@),
        ("PRIMITIVELOCK"@, "TRUE"@),
        ("POLYGONTYPE"@, "Polygon"@),
        ("POUROVER"@, "FALSE"@),
        ("REMOVEDEAD"@, "FALSE"@),
        ("GRIDSIZE"@, "10mil"@),
        ("TRACKWIDTH"@, "10mil"@),
        ("HATCHSTYLE"@, "None"@),
        ("USEOCTAGONS"@, "FALSE"@),
        ("MINPRIMLENGTH"@, "3mil"@),
        ("SHEETX"@, "1000mil"@),
        ("SHEETY"@, "1000mil"@),
        ("SHEETWIDTH"@, "10000mil"@),
        ("SHEETHEIGHT"@, "8000mil"@),
        ("SHOWSHEET"@, "FALSE"@),
        ("LOCKSHEET"@, "TRUE"@),
        ("SPLITLINECOUNT"@, "0"@),
        ("RECORD"@, "Board"@),
    ]
}

#[verifier::spinoff_prover]
fn push_board_head(v: &mut Vec<(String, String)>)
    ensures
        pairs_view(final(v)@) == pairs_view(old(v)@) + board_head_pairs(),
{
    push_pair(v, "SELECTION", "FALSE");
    push_pair(v, "LAYER", "UNKNOWN");
    push_pair(v, "LOCKED", "FALSE");
    push_pair(v, "POLYGONOUTLINE", "FALSE");
    push_pair(v, "USERROUTED", "TRUE");
    push_pair(v, "KEEPOUT", "FALSE");
    push_pair(v, "UNIONINDEX", "0");
    push_pair(v, "KIND", "Protel_Advanced_PCB");
    push_pair(v, "VERSION", "5.01");
    assert(pairs_view(final(v)@) =~= pairs_view(old(v)@) + board_head_pairs());
}

#[verifier::spinoff_prover]
#[verifier::rlimit(60)]
fn push_board_settings(v: &mut Vec<(String, String)>)
    ensures
        pairs_view(final(v)@) == pairs_view(old(v)@) + board_settings_pairs(),
{
    push_pair(v, "ORIGINX", "0mil");
    push_pair(v, "ORIGINY", "0mil");
    push_pair(v, "BIGVISIBLEGRIDSIZE", "0.000");
    push_pair(v, "VISIBLEGRIDSIZE", "0.000");
    push_pair(v, "ELECTRICALGRIDRANGE", "3.937mil");
    push_pair(v, "ELECTRICALGRIDENABLED", "TRUE");
    push_pair(v, "SNAPGRIDSIZE", "39370.078740");
    push_pair(v, "SNAPGRIDSIZEX", "39370.078740");
    push_pair(v, "SNAPGRIDSIZEY", "39370.078740");
    push_pair(v, "TRACKGRIDSIZE", "200000.000000");
    push_pair(v, "VIAGRIDSIZE", "200000.000000");
    push_pair(v, "COMPONENTGRIDSIZE", "39370.078740");
    push_pair(v, "COMPONENTGRIDSIZEX", "39370.078740");
    push_pair(v, "COMPONENTGRIDSIZEY", "39370.078740");
    push_pair(v, "DOTGRID", "TRUE");
    push_pair(v, "DISPLAYUNIT", "0");
    push_pair(v, "DESIGNATORDISPLAYMODE", "0");
    push_pair(v, "PRIMITIVELOCK", "TRUE");
    push_pair(v, "POLYGONTYPE", "Polygon");
    push_pair(v, "POUROVER", "FALSE");
    push_pair(v, "REMOVEDEAD", "FALSE");
    push_pair(v, "GRIDSIZE", "10mil");
    push_pair(v, "TRACKWIDTH", "10mil");
    push_pair(v, "HATCHSTYLE", "None");
    push_pair(v, "USEOCTAGONS", "FALSE");
    push_pair(v, "MINPRIMLENGTH", "3mil");
    push_pair(v, "SHEETX", "1000mil");
    push_pair(v, "SHEETY", "1000mil");
    push_pair(v, "SHEETWIDTH", "10000mil");
    push_pair(v, "SHEETHEIGHT", "8000mil");
    push_pair(v, "SHOWSHEET", "FALSE");
    push_pair(v, "LOCKSHEET", "TRUE");
    push_pair(v, "SPLITLINECOUNT", "0");
    push_pair(v, "RECORD", "Board");
    assert(pairs_view(final(v)@) =~= pairs_view(old(v)@) + board_settings_pairs());
}


/// `PLANE<i>NETNAME=(No Net)` for planes 1 to `n`.
pub open spec fn plane_pairs(n: nat) -> Entries
    decreases n,
{
    if n == 0 {
        seq![]
    } else {
        plane_pairs((n - 1) as nat).push(("PLANE"@ + dec(n) + "NETNAME"@, "(No Net)"@))
    }
}

/// The corners of the default outline, a 3937-mil square.
pub open spec fn outline_vertices() -> Seq<(Seq<char>, Seq<char>)> {
    seq![
        ("0mil"@, "0mil"@),
        ("3937.0079mil"@, "0mil"@),
        ("3937.0079mil"@, "3937.0079mil"@),
        ("0mil"@, "3937.0079mil"@),
    ]
}

/// The entries of outline segment `i`: a straight segment from `(vx, vy)`.
pub open spec fn outline_segment_pairs(i: nat, vx: Seq<char>, vy: Seq<char>) -> Entries {
    let n = dec(i);
    seq![
        ("KIND"@ + n, "0"@),
        ("VX"@ + n, vx),
        ("VY"@ + n, vy),
        ("CX"@ + n, "0mil"@),
        ("CY"@ + n, "0mil"@),
        ("SA"@ + n, " 0.00000000000000E+0000"@),
        ("EA"@ + n, " 0.00000000000000E+0000"@),
        ("R"@ + n, "0mil"@),
    ]
}

/// The entries of the first `n` outline segments.
pub open spec fn outline_pairs(n: nat) -> Entries
    decreases n,
{
    if n == 0 {
        seq![]
    } else {
        outline_pairs((n - 1) as nat) + outline_segment_pairs(
            (n - 1) as nat,
            outline_vertices()[n - 1].0,
            outline_vertices()[n - 1].1,
        )
    }
}

/// Every default board entry but the layer stack, in insertion order.
pub open spec fn board_base_pairs(date: Seq<char>, time: Seq<char>) -> Entries {
    board_head_pairs() + seq![("DATE"@, date), ("TIME"@, time)] + board_settings_pairs() + plane_pairs(16)
        + outline_pairs(4)
}

fn keyed(prefix: &str, n: usize, suffix: &str) -> (r: String)
    ensures
        r@ == prefix@ + dec(n as nat) + suffix@,
{
    let mut s = owned(prefix);
    push_dec(&mut s, n as u64);
    push_str(&mut s, suffix);
    s
}

fn push_planes(v: &mut Vec<(String, String)>)
    ensures
        pairs_view(final(v)@) == pairs_view(old(v)@) + plane_pairs(16),
{
    let ghost start = pairs_view(v@);
    let mut i: usize = 1;
    while i <= 16
        invariant
            1 <= i <= 17,
            pairs_view(v@) == start + plane_pairs((i - 1) as nat),
        decreases 17 - i,
    {
        let k = keyed("PLANE", i, "NETNAME");
        push_pair(v, k.as_str(), "(No Net)");
        assert(pairs_view(v@) =~= start + plane_pairs(i as nat));
        i += 1;
    }
}

fn push_outline(v: &mut Vec<(String, String)>)
    ensures
        pairs_view(final(v)@) == pairs_view(old(v)@) + outline_pairs(4),
{
    let verts = vec![("0mil", "0mil"), ("3937.0079mil", "0mil"), ("3937.0079mil", "3937.0079mil"), ("0mil", "3937.0079mil")];
    assert(verts@.map_values(|p: (&str, &str)| (p.0@, p.1@)) =~= outline_vertices());
    let ghost start = pairs_view(v@);
    let mut i: usize = 0;
    while i < 4
        invariant
            i <= 4,
            verts@.len() == 4,
            verts@.map_values(|p: (&str, &str)| (p.0@, p.1@)) == outline_vertices(),
            pairs_view(v@) == start + outline_pairs(i as nat),
        decreases 4 - i,
    {
        let (vx, vy) = verts[i];
        assert(outline_vertices()[i as int] == (vx@, vy@));
        let ghost before = pairs_view(v@);
        let k = keyed("KIND", i, "");
        push_pair(v, k.as_str(), "0");
        let k = keyed("VX", i, "");
        push_pair(v, k.as_str(), vx);
        let k = keyed("VY", i, "");
        push_pair(v, k.as_str(), vy);
        let k = keyed("CX", i, "");
        push_pair(v, k.as_str(), "0mil");
        let k = keyed("CY", i, "");
        push_pair(v, k.as_str(), "0mil");
        let k = keyed("SA", i, "");
        push_pair(v, k.as_str(), " 0.00000000000000E+0000");
        let k = keyed("EA", i, "");
        push_pair(v, k.as_str(), " 0.00000000000000E+0000");
        let k = keyed("R", i, "");
        push_pair(v, k.as_str(), "0mil");
        proof {
            reveal_strlit("");
        }
        assert(pairs_view(v@) =~= before + outline_segment_pairs(i as nat, vx@, vy@));
        i += 1;
    }
}

/// Adds the 2-layer fallback stack (master-stack metadata and nine stack
/// layers with generated ids) unless `params` already holds
/// `V9_MASTERSTACK_STYLE`.
pub fn populate_default_pcbdoc_v9_stack(params: &mut ParameterMap)
    ensures
        map_get(old(params)@, "V9_MASTERSTACK_STYLE"@) is Some ==> final(params)@ == old(params)@,
        map_get(old(params)@, "V9_MASTERSTACK_STYLE"@) is None ==> exists|ids: Seq<Seq<char>>|
            #![trigger layers_pairs("V9_STACK_LAYER"@, default_stack(), ids, 9)]
            ids.len() == 9 && all_layer_guids(ids) && final(params)@ == map_insert_all(
                old(params)@,
                master_stack_pairs() + layers_pairs("V9_STACK_LAYER"@, default_stack(), ids, 9),
            ),
        old(params).wf() ==> final(params).wf(),
{
    if params.contains_key("V9_MASTERSTACK_STYLE") {
        return;
    }
    let mut pairs: Vec<(String, String)> = Vec::new();
    push_pair(&mut pairs, "V9_MASTERSTACK_STYLE", "0");
    push_pair(&mut pairs, "V9_MASTERSTACK_ID", "{00000000-0000-0000-0000-000000000001}");
    push_pair(&mut pairs, "V9_MASTERSTACK_NAME", "Master layer stack");
    push_pair(&mut pairs, "V9_MASTERSTACK_SHOWTOPDIELECTRIC", "FALSE");
    push_pair(&mut pairs, "V9_MASTERSTACK_SHOWBOTTOMDIELECTRIC", "FALSE");
    push_pair(&mut pairs, "V9_MASTERSTACK_ISFLEX", "FALSE");
    let ghost head = pairs_view(pairs@);
    assert(head =~= master_stack_pairs());
    let stack = stack_table();
    assert(stack_view(stack@).len() == 9);
    push_layers(&mut pairs, "V9_STACK_LAYER", "doc_stack", &stack);
    proof {
        let ids = choose|ids: Seq<Seq<char>>|
            #![trigger layers_pairs("V9_STACK_LAYER"@, stack_view(stack@), ids, stack@.len() as nat)]
            ids.len() == stack@.len() && all_layer_guids(ids) && pairs_view(pairs@) == head + layers_pairs(
                "V9_STACK_LAYER"@,
                stack_view(stack@),
                ids,
                stack@.len() as nat,
            );
        assert(pairs_view(pairs@) =~= master_stack_pairs() + layers_pairs("V9_STACK_LAYER"@, default_stack(), ids, 9));
    }
    params.insert_all(pairs.as_slice());
}

/// A date and time as `current_date_time_us` writes them, for some moment.
pub open spec fn is_date_time_us(date: Seq<char>, time: Seq<char>) -> bool {
    exists|secs: u64| date == spec_date_time_us(secs as nat).0 && time == spec_date_time_us(secs as nat).1
}

/// The default Board6 entries of a freshly authored board: header and
/// format markers, the current date and time, grid, polygon and sheet
/// settings, sixteen unnamed planes, a square outline, and the fallback
/// layer stack when none is present yet.
pub fn populate_default_pcbdoc_parameters(params: &mut ParameterMap)
    ensures
        exists|date: Seq<char>, time: Seq<char>|
            #![trigger board_base_pairs(date, time)]
            is_date_time_us(date, time) && {
                let base = map_insert_all(old(params)@, board_base_pairs(date, time));
                if map_get(base, "V9_MASTERSTACK_STYLE"@) is Some {
                    final(params)@ == base
                } else {
                    exists|ids: Seq<Seq<char>>|
                        #![trigger layers_pairs("V9_STACK_LAYER"@, default_stack(), ids, 9)]
                        ids.len() == 9 && all_layer_guids(ids) && final(params)@ == map_insert_all(
                            base,
                            master_stack_pairs() + layers_pairs("V9_STACK_LAYER"@, default_stack(), ids, 9),
                        )
                }
            },
        old(params).wf() ==> final(params).wf(),
{
    let (date, time) = current_date_time_us();
    let mut pairs: Vec<(String, String)> = Vec::new();
    push_board_head(&mut pairs);
    push_pair(&mut pairs, "DATE", date.as_str());
    push_pair(&mut pairs, "TIME", time.as_str());
    push_board_settings(&mut pairs);
    push_planes(&mut pairs);
    push_outline(&mut pairs);
    assert(pairs_view(pairs@) =~= board_base_pairs(date@, time@));
    params.insert_all(pairs.as_slice());
    populate_default_pcbdoc_v9_stack(params);
}

/// Name prefixes of the V9/V8 layer-stack entries.
pub open spec fn stack_key_prefixes() -> Seq<Seq<char>> {
    seq![
        "V9_MASTERSTACK"@,
        "V9_STACK_LAYER"@,
        "V9_CACHE_LAYER"@,
        "V9_SUBSTACK"@,
        "V9_TRACEIMPEDANCE"@,
        "LAYERMASTERSTACK"@,
        "LAYERSUBSTACK_V8"@,
        "LAYER_V8_"@,
    ]
}

/// Whether a board entry belongs to a V9/V8 layer stack (ASCII case ignored).
pub open spec fn spec_is_stack_key(name: Seq<char>) -> bool {
    let n = upper_seq(name);
    (exists|i: int| 0 <= i < 8 && has_prefix(n, #[trigger] stack_key_prefixes()[i])) || n == "LAYERSTACKSTYLE"@
}

/// Whether a board entry belongs to a V9/V8 layer stack (ASCII case ignored).
pub fn is_v9_v8_stack_key(name: &str) -> (r: bool)
    ensures
        r == spec_is_stack_key(name@),
{
    let c = chars_of(name);
    let n = upper_chars(&c);
    let prefixes = vec![
        "V9_MASTERSTACK",
        "V9_STACK_LAYER",
        "V9_CACHE_LAYER",
        "V9_SUBSTACK",
        "V9_TRACEIMPEDANCE",
        "LAYERMASTERSTACK",
        "LAYERSUBSTACK_V8",
        "LAYER_V8_",
    ];
    assert(prefixes@.map_values(|p: &str| p@) =~= stack_key_prefixes());
    let mut i: usize = 0;
    while i < prefixes.len()
        invariant
            i <= prefixes@.len(),
            prefixes@.len() == 8,
            prefixes@.map_values(|p: &str| p@) == stack_key_prefixes(),
            n@ == upper_seq(name@),
            forall|j: int| 0 <= j < i ==> !has_prefix(n@, #[trigger] stack_key_prefixes()[j]),
        decreases prefixes@.len() - i,
    {
        let p = chars_of(prefixes[i]);
        assert(stack_key_prefixes()[i as int] == p@);
        if starts_with(&n, &p) {
            return true;
        }
        i += 1;
    }
    let lss = chars_of("LAYERSTACKSTYLE");
    seq_eq(&n, &lss)
}

/// Whether some user entry's name equals `k` up to ASCII case.
pub open spec fn user_has(u: Entries, k: Seq<char>) -> bool {
    exists|j: int| 0 <= j < u.len() && upper_seq(#[trigger] u[j].0) == upper_seq(k)
}

/// The default entries that survive next to the user's: those whose name
/// the user does not already have, and, when the user supplies a layer
/// stack, none of the stack entries.
pub open spec fn kept_defaults(d: Entries, u: Entries) -> Entries
    decreases d.len(),
{
    if d.len() == 0 {
        seq![]
    } else {
        let rest = kept_defaults(d.drop_last(), u);
        let n = d.last().0;
        if user_has(u, n) || (user_has(u, "V9_MASTERSTACK_STYLE"@) && spec_is_stack_key(n)) {
            rest
        } else {
            rest.push(d.last())
        }
    }
}

/// The board defaults as a fresh map holds them.
pub open spec fn board_default_entries(date: Seq<char>, time: Seq<char>, ids: Seq<Seq<char>>) -> Entries {
    let base = map_insert_all(Seq::<(Seq<char>, Seq<char>)>::empty(), board_base_pairs(date, time));
    if map_get(base, "V9_MASTERSTACK_STYLE"@) is Some {
        base
    } else {
        map_insert_all(base, master_stack_pairs() + layers_pairs("V9_STACK_LAYER"@, default_stack(), ids, 9))
    }
}

fn user_has_exec(seen: &Vec<Vec<char>>, k: &str) -> (r: bool)
    ensures
        r == exists|j: int| 0 <= j < seen@.len() && (#[trigger] seen@[j])@ == upper_seq(k@),
{
    let c = chars_of(k);
    let u = upper_chars(&c);
    let mut j: usize = 0;
    while j < seen.len()
        invariant
            j <= seen@.len(),
            u@ == upper_seq(k@),
            forall|i: int| 0 <= i < j ==> (#[trigger] seen@[i])@ != upper_seq(k@),
        decreases seen@.len() - j,
    {
        if seq_eq(seen[j].as_slice(), &u) {
            return true;
        }
        j += 1;
    }
    false
}

/// The Board6 entry list: the user's pairs verbatim first, then each
/// default entry the user did not already cover. When the user supplies a
/// layer stack (signalled by `V9_MASTERSTACK_STYLE`), the fallback stack's
/// entries are left out altogether.
pub fn ensure_pcbdoc_board_parameters_complete(user: Option<&[(String, String)]>) -> (r: Vec<(String, String)>)
    ensures
        exists|date: Seq<char>, time: Seq<char>, ids: Seq<Seq<char>>|
            #![trigger board_default_entries(date, time, ids)]
            is_date_time_us(date, time) && ids.len() == 9 && all_layer_guids(ids) && {
                let u = match user {
                    Some(p) => pairs_view(p@),
                    None => Seq::<(Seq<char>, Seq<char>)>::empty(),
                };
                pairs_view(r@) == u + kept_defaults(board_default_entries(date, time, ids), u)
            },
{
    let mut out: Vec<(String, String)> = Vec::new();
    let mut seen: Vec<Vec<char>> = Vec::new();
    let ghost u = match user {
        Some(p) => pairs_view(p@),
        None => Seq::<(Seq<char>, Seq<char>)>::empty(),
    };
    if let Some(pairs) = user {
        let mut i: usize = 0;
        while i < pairs.len()
            invariant
                i <= pairs@.len(),
                u == pairs_view(pairs@),
                pairs_view(out@) == u.take(i as int),
                seen@.len() == i,
                forall|j: int| 0 <= j < i ==> (#[trigger] seen@[j])@ == upper_seq(u[j].0),
            decreases pairs@.len() - i,
        {
            let c = chars_of(pairs[i].0.as_str());
            seen.push(upper_chars(&c));
            push_pair(&mut out, pairs[i].0.as_str(), pairs[i].1.as_str());
            i += 1;
            assert(pairs_view(out@) =~= u.take(i as int));
        }
        assert(u.take(pairs@.len() as int) =~= u);
    } else {
        assert(pairs_view(out@) =~= u);
    }
    assert forall|k: Seq<char>| user_has(u, k) == (exists|j: int| 0 <= j < seen@.len() && (#[trigger] seen@[j])@
        == upper_seq(k)) by {
        if user_has(u, k) {
            let j = choose|j: int| 0 <= j < u.len() && upper_seq(#[trigger] u[j].0) == upper_seq(k);
            assert(seen@[j]@ == upper_seq(k));
        }
        if exists|j: int| 0 <= j < seen@.len() && (#[trigger] seen@[j])@ == upper_seq(k) {
            let j = choose|j: int| 0 <= j < seen@.len() && (#[trigger] seen@[j])@ == upper_seq(k);
            assert(upper_seq(u[j].0) == upper_seq(k));
        }
    }
    let has_stack = user_has_exec(&seen, "V9_MASTERSTACK_STYLE");
    let mut defaults = ParameterMap::new();
    populate_default_pcbdoc_parameters(&mut defaults);
    let entries = defaults.entries();
    let ghost d = pairs_view(entries@);
    let ghost start = pairs_view(out@);
    let mut i: usize = 0;
    while i < entries.len()
        invariant
            i <= entries@.len(),
            d == pairs_view(entries@),
            start == u,
            has_stack == user_has(u, "V9_MASTERSTACK_STYLE"@),
            forall|k: Seq<char>| user_has(u, k) == (exists|j: int| 0 <= j < seen@.len() && (#[trigger] seen@[j])@
                == upper_seq(k)),
            pairs_view(out@) == start + kept_defaults(d.take(i as int), u),
        decreases entries@.len() - i,
    {
        assert(d.take(i + 1).drop_last() =~= d.take(i as int));
        let name = entries[i].0.as_str();
        let skip = user_has_exec(&seen, name) || (has_stack && is_v9_v8_stack_key(name));
        if !skip {
            push_pair(&mut out, name, entries[i].1.as_str());
        }
        i += 1;
        assert(pairs_view(out@) =~= start + kept_defaults(d.take(i as int), u));
    }
    assert(d.take(entries@.len() as int) =~= d);
    proof {
        let (date, time) = choose|date: Seq<char>, time: Seq<char>|
            #![trigger board_base_pairs(date, time)]
            is_date_time_us(date, time) && {
                let base = map_insert_all(Seq::<(Seq<char>, Seq<char>)>::empty(), board_base_pairs(date, time));
                if map_get(base, "V9_MASTERSTACK_STYLE"@) is Some {
                    d == base
                } else {
                    exists|ids: Seq<Seq<char>>|
                        #![trigger layers_pairs("V9_STACK_LAYER"@, default_stack(), ids, 9)]
                        ids.len() == 9 && all_layer_guids(ids) && d == map_insert_all(
                            base,
                            master_stack_pairs() + layers_pairs("V9_STACK_LAYER"@, default_stack(), ids, 9),
                        )
                }
            };
        let base = map_insert_all(Seq::<(Seq<char>, Seq<char>)>::empty(), board_base_pairs(date, time));
        if map_get(base, "V9_MASTERSTACK_STYLE"@) is Some {
            let ids = Seq::new(9, |i: int| layer_guid_text(0));
            assert forall|k: int| 0 <= k < ids.len() implies is_layer_guid(#[trigger] ids[k]) by {
                assert(ids[k] == layer_guid_text(0));
            }
            assert(d == board_default_entries(date, time, ids));
        } else {
            let ids = choose|ids: Seq<Seq<char>>|
                #![trigger layers_pairs("V9_STACK_LAYER"@, default_stack(), ids, 9)]
                ids.len() == 9 && all_layer_guids(ids) && d == map_insert_all(
                    base,
                    master_stack_pairs() + layers_pairs("V9_STACK_LAYER"@, default_stack(), ids, 9),
                );
            assert(d == board_default_entries(date, time, ids));
        }
    }
    out
}

} // verus!