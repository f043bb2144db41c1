//! Parameter-block codec for PcbDoc-only storages (`Rules6`, `Classes6`,
//! `DifferentialPairs6`, `Rooms6`, `Nets6`).

use vstd::prelude::*;

use crate::binary::{layer_byte_for_name, layer_name_to_byte};
use crate::coord::Coord;
use crate::parameter::{
    find_key, keys_unique, lemma_find_key_props, lemma_insert_all_rebuilds, lemma_insert_same,
    map_get, map_insert,
    map_insert_all, pairs_view, Entries, ParameterMap,
};
use crate::rule::{DifferentialPair, Net, ObjectClass, Room, Rule};
use crate::text::{
    chars_of, dec, dec_int, eq_ignore_case, has_prefix, owned, parse_i32, parse_i32_chars, push_char, push_dec,
    push_dec_signed, push_str, str_eq_ignore_case, trim, trim_chars, upper_seq,
};

verus! {

/// The value under `key`, or empty.
pub open spec fn get_or_empty(e: Entries, key: Seq<char>) -> Seq<char> {
    match map_get(e, key) {
        Some(v) => v,
        None => Seq::empty(),
    }
}

/// Whether a value equals `TRUE` up to ASCII case.
pub open spec fn is_true(v: Seq<char>) -> bool {
    eq_ignore_case(v, "TRUE"@)
}

/// An explicit boolean under `key`: present values read as `TRUE` or not.
pub open spec fn spec_bool_explicit(e: Entries, key: Seq<char>) -> Option<bool> {
    match map_get(e, key) {
        Some(v) => Some(is_true(v)),
        None => None,
    }
}

fn get_string(params: &ParameterMap, key: &str) -> (s: String)
    ensures
        s@ == get_or_empty(params@, key@),
{
    match params.get(key) {
        Some(v) => owned(v),
        None => String::new(),
    }
}

pub fn get_bool_explicit(params: &ParameterMap, key: &str) -> (r: Option<bool>)
    ensures
        r == spec_bool_explicit(params@, key@),
{
    match params.get(key) {
        Some(v) => Some(str_eq_ignore_case(v, "TRUE")),
        None => None,
    }
}

/// A layer given as a number or a name.
pub open spec fn spec_parse_layer(s: Seq<char>) -> i32 {
    match parse_i32(trim(s)) {
        Some(n) => n,
        None => layer_byte_for_name(s) as i32,
    }
}

pub fn parse_layer(s: &str) -> (l: i32)
    ensures
        l == spec_parse_layer(s@),
{
    let c = chars_of(s);
    let t = trim_chars(&c);
    if let Some(n) = parse_i32_chars(&t) {
        return n;
    }
    layer_name_to_byte(s) as i32
}

/// The decimal digits of `|raw|` as mils with up to four decimals, trailing
/// zeros and a bare point trimmed.
pub open spec fn mil_digits(m: nat) -> Seq<char> {
    let whole = dec(m / 10000);
    let frac = m % 10000;
    if frac == 0 {
        whole
    } else {
        let f4 = crate::text::zero_pad(dec(frac), 4);
        whole + seq!['.'] + trim_zeros(f4)
    }
}

/// `s` without trailing `'0'`s.
pub open spec fn trim_zeros(s: Seq<char>) -> Seq<char>
    decreases s.len(),
{
    if s.len() > 0 && s.last() == '0' {
        trim_zeros(s.drop_last())
    } else {
        s
    }
}

/// The `<n>mil` text Altium writes for a coordinate: up to four decimals,
/// trailing zeros and a bare point trimmed, no sign on zero.
pub open spec fn spec_mil_coord(raw: i32) -> Seq<char> {
    if raw < 0 {
        seq!['-'] + mil_digits((-raw) as nat) + "mil"@
    } else {
        mil_digits(raw as nat) + "mil"@
    }
}

fn trim_zeros_chars(v: &[char]) -> (r: Vec<char>)
    ensures
        r@ == trim_zeros(v@),
{
    let mut n = v.len();
    assert(v@.take(n as int) =~= v@);
    while n > 0 && v[n - 1] == '0'
        invariant
            n <= v@.len(),
            trim_zeros(v@) == trim_zeros(v@.take(n as int)),
        decreases n,
    {
        assert(v@.take(n as int).drop_last() =~= v@.take(n - 1));
        n -= 1;
    }
    crate::text::slice_chars(v, 0, n)
}

/// Formats a coordinate in mils the way Altium writes it: `"0mil"`,
/// `"0.5mil"`, `"56.2992mil"`.
pub fn format_mil_coord(c: Coord) -> (s: String)
    ensures
        s@ == spec_mil_coord(c.raw),
{
    let raw = c.to_raw();
    let mut s = String::new();
    let m: u64 = if raw < 0 {
        push_char(&mut s, '-');
        (-(raw as i64)) as u64
    } else {
        raw as u64
    };
    let ghost start = s@;
    push_dec(&mut s, m / 10000);
    let frac = m % 10000;
    if frac != 0 {
        push_char(&mut s, '.');
        let mut f = String::new();
        crate::text::push_dec_padded(&mut f, frac, 4);
        let fc = chars_of(f.as_str());
        let t = trim_zeros_chars(&fc);
        crate::text::push_chars(&mut s, &t);
    }
    push_str(&mut s, "mil");
    assert(s@ =~= spec_mil_coord(raw));
    s
}

/// The short layer name used inside PcbDoc parameter records ("MID2",
/// "PLANE1"); other numbers are written as they are.
pub open spec fn spec_doc_layer_name(layer: i32) -> Seq<char> {
    if layer == 1 {
        "TOP"@
    } else if layer == 32 {
        "BOTTOM"@
    } else if layer == 33 {
        "TOPOVERLAY"@
    } else if layer == 34 {
        "BOTTOMOVERLAY"@
    } else if layer == 35 {
        "TOPPASTE"@
    } else if layer == 36 {
        "BOTTOMPASTE"@
    } else if layer == 37 {
        "TOPSOLDER"@
    } else if layer == 38 {
        "BOTTOMSOLDER"@
    } else if layer == 55 {
        "DRILLGUIDE"@
    } else if layer == 56 {
        "KEEPOUT"@
    } else if layer == 73 {
        "DRILLDRAWING"@
    } else if layer == 74 {
        "MULTILAYER"@
    } else if 2 <= layer <= 31 {
        "MID"@ + dec((layer - 1) as nat)
    } else if 39 <= layer <= 54 {
        "PLANE"@ + dec((layer - 38) as nat)
    } else if 57 <= layer <= 72 {
        "MECHANICAL"@ + dec((layer - 56) as nat)
    } else {
        dec_int(layer as int)
    }
}

fn named(prefix: &str, n: i32) -> (s: String)
    requires
        n >= 0,
    ensures
        s@ == prefix@ + dec(n as nat),
{
    let mut s = owned(prefix);
    push_dec(&mut s, n as u64);
    s
}

/// The short layer name used inside PcbDoc parameter records.
pub fn layer_byte_to_name(layer: i32) -> (s: String)
    ensures
        s@ == spec_doc_layer_name(layer),
{
    match layer {
        1 => owned("TOP"),
        32 => owned("BOTTOM"),
        33 => owned("TOPOVERLAY"),
        34 => owned("BOTTOMOVERLAY"),
        35 => owned("TOPPASTE"),
        36 => owned("BOTTOMPASTE"),
        37 => owned("TOPSOLDER"),
        38 => owned("BOTTOMSOLDER"),
        55 => owned("DRILLGUIDE"),
        56 => owned("KEEPOUT"),
        73 => owned("DRILLDRAWING"),
        74 => owned("MULTILAYER"),
        n if 2 <= n && n <= 31 => named("MID", n - 1),
        n if 39 <= n && n <= 54 => named("PLANE", n - 38),
        n if 57 <= n && n <= 72 => named("MECHANICAL", n - 56),
        _ => crate::text::dec_string_signed(layer as i64),
    }
}

// ---------------------------------------------------------------------------
// Coordinates read back

/// `n` zeros.
pub open spec fn zeros(n: nat) -> Seq<char> {
    Seq::new(n, |i: int| '0')
}

proof fn lemma_digits_value_append(a: Seq<char>, b: Seq<char>)
    ensures
        crate::text::digits_value(a + b) == crate::text::digits_value(a) * crate::coord_text::pow10(b.len())
            + crate::text::digits_value(b),
    decreases b.len(),
{
    if b.len() == 0 {
        assert(a + b =~= a);
        assert(crate::coord_text::pow10(0) == 1);
        assert(crate::text::digits_value(b) == 0);
        assert(crate::text::digits_value(a) * 1 == crate::text::digits_value(a));
    } else {
        let c = b.drop_last();
        lemma_digits_value_append(a, c);
        assert((a + b).drop_last() =~= a + c);
        assert((a + b).last() == b.last());
        let x = crate::text::digits_value(a);
        let p = crate::coord_text::pow10(c.len());
        let y = crate::text::digits_value(c);
        let z = crate::text::digit_value(b.last());
        assert((x * p + y) * 10 + z == x * (10 * p) + (y * 10 + z)) by (nonlinear_arith);
        assert(crate::text::digits_value(b) == y * 10 + z);
        assert(crate::coord_text::pow10(b.len()) == 10 * p);
        assert(crate::text::digits_value(a + b) == crate::text::digits_value(a + c) * 10 + z);
    }
}

proof fn lemma_zeros_value(n: nat)
    ensures
        crate::text::digits_value(zeros(n)) == 0,
        crate::text::all_digits(zeros(n)),
    decreases n,
{
    if n > 0 {
        lemma_zeros_value((n - 1) as nat);
        assert(zeros(n).drop_last() =~= zeros((n - 1) as nat));
        assert(crate::text::digit_value('0') == 0);
    }
}

proof fn lemma_trim_zeros_split(s: Seq<char>)
    ensures
        trim_zeros(s).len() <= s.len(),
        s == trim_zeros(s) + zeros((s.len() - trim_zeros(s).len()) as nat),
    decreases s.len(),
{
    if s.len() > 0 && s.last() == '0' {
        lemma_trim_zeros_split(s.drop_last());
        let t = trim_zeros(s);
        assert(t == trim_zeros(s.drop_last()));
        let k = (s.len() - t.len()) as nat;
        assert(zeros((k - 1) as nat).push('0') =~= zeros(k));
        assert(s =~= s.drop_last().push('0'));
        assert(s =~= t + zeros(k));
    } else {
        assert(s =~= s + zeros(0));
    }
}

proof fn lemma_dec_short(n: nat, k: nat)
    requires
        n < crate::coord_text::pow10(k),
        k >= 1,
    ensures
        dec(n).len() <= k,
    decreases n,
{
    if n >= 10 {
        let p = crate::coord_text::pow10((k - 1) as nat);
        assert(n / 10 < p) by (nonlinear_arith)
            requires
                n < 10 * p,
        ;
        if k == 1 {
            assert(false);
        } else {
            lemma_dec_short(n / 10, (k - 1) as nat);
        }
    }
}

proof fn lemma_all_digits_prefix(s: Seq<char>, t: Seq<char>, z: Seq<char>)
    requires
        s == t + z,
        crate::text::all_digits(s),
    ensures
        crate::text::all_digits(t),
{
    assert forall|j: int| 0 <= j < t.len() implies crate::text::is_digit(#[trigger] t[j]) by {
        assert(s[j] == t[j]);
    }
}

/// The digits before `mil`, as the reader splits them: whole part and
/// fraction, with the raw units they stand for.
proof fn lemma_mil_digits_value(m: nat)
    requires
        m <= 0x8000_0000,
    ensures
        crate::coord_text::spec_decimal_mils(mil_digits(m)) == Some(m as int),
        mil_digits(m).len() > 0,
        crate::text::is_digit(mil_digits(m)[0]),
{
    let w = m / 10000;
    let frac = m % 10000;
    let whole = dec(w);
    crate::guid_tables::lemma_dec_digits(w);
    assert(crate::text::is_digit(whole[0]));
    assert(forall|j: int| 0 <= j < whole.len() ==> #[trigger] whole[j] != '.' && !(whole[j] == '.')) by {
        assert forall|j: int| 0 <= j < whole.len() implies #[trigger] whole[j] != '.' by {
            assert(crate::text::is_digit(whole[j]));
        }
    }
    if frac == 0 {
        crate::coord_text::lemma_first_dot_prefix(whole, whole.len() as int);
        assert(crate::text::all_digits(Seq::<char>::empty()));
        assert(crate::text::digits_value(Seq::<char>::empty()) == 0);
        assert(w * 10000 == m);
        assert(mil_digits(m) == whole);
        assert(!(whole[0] == '-' || whole[0] == '+'));
        assert(crate::text::digits_value(whole) == w);
        assert(crate::text::digits_value(whole) * 10000 + 0 * crate::coord_text::pow10(4) == m);
    } else {
        let d = dec(frac);
        crate::guid_tables::lemma_dec_digits(frac);
        assert(crate::coord_text::pow10(4) == 10000) by {
            reveal_with_fuel(crate::coord_text::pow10, 5);
        }
        lemma_dec_short(frac, 4);
        let f4 = crate::text::zero_pad(d, 4);
        let zk = (4 - d.len()) as nat;
        if d.len() < 4 {
            assert(f4 == zeros(zk) + d);
        } else {
            assert(zk == 0);
            assert(f4 =~= zeros(zk) + d);
        }
        lemma_zeros_value(zk);
        lemma_digits_value_append(zeros(zk), d);
        assert(crate::text::digits_value(f4) == frac);
        assert(f4.len() == 4);
        assert(crate::text::all_digits(f4)) by {
            assert forall|j: int| 0 <= j < f4.len() implies crate::text::is_digit(#[trigger] f4[j]) by {
                if j >= zk {
                    assert(f4[j] == d[j - zk]);
                } else {
                    assert(f4[j] == zeros(zk)[j]);
                }
            }
        }
        let fp = trim_zeros(f4);
        lemma_trim_zeros_split(f4);
        let k = (4 - fp.len()) as nat;
        lemma_zeros_value(k);
        lemma_digits_value_append(fp, zeros(k));
        lemma_all_digits_prefix(f4, fp, zeros(k));
        assert(crate::text::digits_value(fp) * crate::coord_text::pow10(k) == frac);
        let body = whole + seq!['.'] + fp;
        assert(mil_digits(m) == body);
        assert forall|j: int| 0 <= j < whole.len() implies body[j] != '.' by {
            assert(body[j] == whole[j]);
        }
        crate::coord_text::lemma_first_dot_prefix(body, whole.len() as int);
        assert(body.take(whole.len() as int) =~= whole);
        assert(body.skip(whole.len() + 1int) =~= fp);
        assert(w * 10000 + frac == m);
        assert(body[0] == whole[0]);
        assert(!(body[0] == '-' || body[0] == '+'));
        assert(crate::coord_text::first_dot(body) == Some(whole.len() as int));
        assert(fp.len() <= 4);
        assert(crate::text::digits_value(whole) * 10000 + crate::text::digits_value(fp) * crate::coord_text::pow10(
            (4 - fp.len()) as nat,
        ) == m);
    }
}

/// Reading back the text written for a coordinate gives the coordinate:
/// `<mils>mil` with up to four decimals loses nothing of the raw value.
pub proof fn lemma_mil_coord_round_trip(raw: i32)
    ensures
        crate::coord_text::spec_coord_loose(spec_mil_coord(raw)) == Some(raw),
{
    reveal_strlit("mil");
    let m: nat = if raw < 0 { (-raw) as nat } else { raw as nat };
    lemma_mil_digits_value(m);
    let md = mil_digits(m);
    let u = if raw < 0 { seq!['-'] + md } else { md };
    let t = spec_mil_coord(raw);
    assert(t =~= u + "mil"@);
    assert(!crate::text::is_space(t[0])) by {
        if raw >= 0 {
            assert(t[0] == md[0]);
        }
    }
    assert(!crate::text::is_space(t.last()));
    assert(crate::text::trim_start(t) == t);
    assert(crate::text::trim_end(t) == t);
    assert(trim(t) == t);
    assert(t.subrange(t.len() - 3, t.len() as int) =~= seq!['m', 'i', 'l']);
    assert(t.take(t.len() - 3) =~= u);
    if raw < 0 {
        assert(u.drop_first() =~= md);
    } else {
        assert(u[0] == md[0]);
    }
    assert(crate::coord_text::spec_decimal_mils(u) == Some(raw as int));
}

// ---------------------------------------------------------------------------
// Layer names read back

/// Whether every character is an ASCII capital or digit, the first a capital.
pub open spec fn capital_word(s: Seq<char>) -> bool {
    &&& s.len() > 0
    &&& 'A' <= s[0] && s[0] <= 'Z'
    &&& forall|j: int| 0 <= j < s.len() ==> ('A' <= #[trigger] s[j] && s[j] <= 'Z') || ('0' <= s[j] && s[j] <= '9')
}

proof fn lemma_drop_spaces_dashes_id(s: Seq<char>)
    requires
        forall|j: int| 0 <= j < s.len() ==> #[trigger] s[j] != ' ' && s[j] != '-',
    ensures
        crate::binary::drop_spaces_dashes(s) == s,
    decreases s.len(),
{
    if s.len() > 0 {
        lemma_drop_spaces_dashes_id(s.drop_last());
        assert(s.drop_last().push(s.last()) =~= s);
    }
}

/// A capital word is its own normal form, has no surrounding space and is
/// no number.
proof fn lemma_capital_word(s: Seq<char>)
    requires
        capital_word(s),
    ensures
        crate::binary::normalise_layer_name(s) == s,
        trim(s) == s,
        parse_i32(trim(s)) is None,
{
    lemma_drop_spaces_dashes_id(s);
    assert(upper_seq(s) =~= s);
    assert(!crate::text::is_space(s[0]));
    assert(!crate::text::is_space(s.last()));
    assert(crate::text::trim_start(s) == s);
    assert(crate::text::trim_end(s) == s);
    assert(!crate::text::all_digits(s));
}

proof fn lemma_parse_int_dec(n: nat)
    ensures
        crate::text::parse_int(dec(n), false) == Some(n as int),
{
    crate::guid_tables::lemma_dec_digits(n);
    assert(crate::text::is_digit(dec(n)[0]));
}

proof fn lemma_numbered_word(prefix: Seq<char>, n: nat)
    requires
        capital_word(prefix),
    ensures
        capital_word(prefix + dec(n)),
        (prefix + dec(n)).take(prefix.len() as int) == prefix,
        (prefix + dec(n)).skip(prefix.len() as int) == dec(n),
        forall|j: int| 0 <= j < dec(n).len() ==> '0' <= #[trigger] (prefix + dec(n))[prefix.len() + j] && (prefix
            + dec(n))[prefix.len() + j] <= '9',
{
    crate::guid_tables::lemma_dec_digits(n);
    let w = prefix + dec(n);
    assert forall|j: int| 0 <= j < w.len() implies ('A' <= #[trigger] w[j] && w[j] <= 'Z') || ('0' <= w[j] && w[j]
        <= '9') by {
        if j >= prefix.len() {
            assert(crate::text::is_digit(dec(n)[j - prefix.len()]));
        }
    }
    assert forall|j: int| 0 <= j < dec(n).len() implies '0' <= #[trigger] w[prefix.len() + j] && w[prefix.len() + j]
        <= '9' by {
        assert(crate::text::is_digit(dec(n)[j]));
    }
    assert(w.take(prefix.len() as int) =~= prefix);
    assert(w.skip(prefix.len() as int) =~= dec(n));
}

/// `TOP` reads back as layer 1.
proof fn lemma_layer_name_1()
    ensures
        spec_parse_layer("TOP"@) == 1,
{
    reveal_strlit("BOTTOM");
    reveal_strlit("BOTTOMLAYER");
    reveal_strlit("BOTTOMOVERLAY");
    reveal_strlit("BOTTOMPASTE");
    reveal_strlit("BOTTOMSOLDER");
    reveal_strlit("DRILLDRAWING");
    reveal_strlit("DRILLGUIDE");
    reveal_strlit("INTERNALPLANE");
    reveal_strlit("KEEPOUT");
    reveal_strlit("KEEPOUTLAYER");
    reveal_strlit("MECHANICAL");
    reveal_strlit("MID");
    reveal_strlit("MIDLAYER");
    reveal_strlit("MULTILAYER");
    reveal_strlit("TOP");
    reveal_strlit("TOPLAYER");
    reveal_strlit("TOPOVERLAY");
    reveal_strlit("TOPPASTE");
    reveal_strlit("TOPSOLDER");
    assert(capital_word("TOP"@));
    lemma_capital_word("TOP"@);
    assert(!has_prefix("TOP"@, "MECHANICAL"@)) by {
        if "MECHANICAL"@.len() <= "TOP"@.len() {
            assert("TOP"@.take("MECHANICAL"@.len() as int)[0] != "MECHANICAL"@[0]);
        }
    }
    assert(!has_prefix("TOP"@, "MIDLAYER"@)) by {
        if "MIDLAYER"@.len() <= "TOP"@.len() {
            assert("TOP"@.take("MIDLAYER"@.len() as int)[0] != "MIDLAYER"@[0]);
        }
    }
    assert(!has_prefix("TOP"@, "MID"@)) by {
        if "MID"@.len() <= "TOP"@.len() {
            assert("TOP"@.take("MID"@.len() as int)[0] != "MID"@[0]);
        }
    }
    assert(!has_prefix("TOP"@, "INTERNALPLANE"@)) by {
        if "INTERNALPLANE"@.len() <= "TOP"@.len() {
            assert("TOP"@.take("INTERNALPLANE"@.len() as int)[0] != "INTERNALPLANE"@[0]);
        }
    }
    assert("TOP"@ != "TOPLAYER"@) by { assert("TOP"@.len() != "TOPLAYER"@.len()); }
}

/// `BOTTOM` reads back as layer 32.
proof fn lemma_layer_name_32()
    ensures
        spec_parse_layer("BOTTOM"@) == 32,
{
    reveal_strlit("BOTTOM");
    reveal_strlit("BOTTOMLAYER");
    reveal_strlit("BOTTOMOVERLAY");
    reveal_strlit("BOTTOMPASTE");
    reveal_strlit("BOTTOMSOLDER");
    reveal_strlit("DRILLDRAWING");
    reveal_strlit("DRILLGUIDE");
    reveal_strlit("INTERNALPLANE");
    reveal_strlit("KEEPOUT");
    reveal_strlit("KEEPOUTLAYER");
    reveal_strlit("MECHANICAL");
    reveal_strlit("MID");
    reveal_strlit("MIDLAYER");
    reveal_strlit("MULTILAYER");
    reveal_strlit("TOP");
    reveal_strlit("TOPLAYER");
    reveal_strlit("TOPOVERLAY");
    reveal_strlit("TOPPASTE");
    reveal_strlit("TOPSOLDER");
    assert(capital_word("BOTTOM"@));
    lemma_capital_word("BOTTOM"@);
    assert(!has_prefix("BOTTOM"@, "MECHANICAL"@)) by {
        if "MECHANICAL"@.len() <= "BOTTOM"@.len() {
            assert("BOTTOM"@.take("MECHANICAL"@.len() as int)[0] != "MECHANICAL"@[0]);
        }
    }
    assert(!has_prefix("BOTTOM"@, "MIDLAYER"@)) by {
        if "MIDLAYER"@.len() <= "BOTTOM"@.len() {
            assert("BOTTOM"@.take("MIDLAYER"@.len() as int)[0] != "MIDLAYER"@[0]);
        }
    }
    assert(!has_prefix("BOTTOM"@, "MID"@)) by {
        if "MID"@.len() <= "BOTTOM"@.len() {
            assert("BOTTOM"@.take("MID"@.len() as int)[0] != "MID"@[0]);
        }
    }
    assert(!has_prefix("BOTTOM"@, "INTERNALPLANE"@)) by {
        if "INTERNALPLANE"@.len() <= "BOTTOM"@.len() {
            assert("BOTTOM"@.take("INTERNALPLANE"@.len() as int)[0] != "INTERNALPLANE"@[0]);
        }
    }
    assert("BOTTOM"@ != "TOPLAYER"@) by { assert("BOTTOM"@[0] != "TOPLAYER"@[0]); }
    assert("BOTTOM"@ != "TOP"@) by { assert("BOTTOM"@[0] != "TOP"@[0]); }
    assert("BOTTOM"@ != "BOTTOMLAYER"@) by { assert("BOTTOM"@.len() != "BOTTOMLAYER"@.len()); }
}

/// `TOPOVERLAY` reads back as layer 33.
proof fn lemma_layer_name_33()
    ensures
        spec_parse_layer("TOPOVERLAY"@) == 33,
{
    reveal_strlit("BOTTOM");
    reveal_strlit("BOTTOMLAYER");
    reveal_strlit("BOTTOMOVERLAY");
    reveal_strlit("BOTTOMPASTE");
    reveal_strlit("BOTTOMSOLDER");
    reveal_strlit("DRILLDRAWING");
    reveal_strlit("DRILLGUIDE");
    reveal_strlit("INTERNALPLANE");
    reveal_strlit("KEEPOUT");
    reveal_strlit("KEEPOUTLAYER");
    reveal_strlit("MECHANICAL");
    reveal_strlit("MID");
    reveal_strlit("MIDLAYER");
    reveal_strlit("MULTILAYER");
    reveal_strlit("TOP");
    reveal_strlit("TOPLAYER");
    reveal_strlit("TOPOVERLAY");
    reveal_strlit("TOPPASTE");
    reveal_strlit("TOPSOLDER");
    assert(capital_word("TOPOVERLAY"@));
    lemma_capital_word("TOPOVERLAY"@);
    assert(!has_prefix("TOPOVERLAY"@, "MECHANICAL"@)) by {
        if "MECHANICAL"@.len() <= "TOPOVERLAY"@.len() {
            assert("TOPOVERLAY"@.take("MECHANICAL"@.len() as int)[0] != "MECHANICAL"@[0]);
        }
    }
    assert(!has_prefix("TOPOVERLAY"@, "MIDLAYER"@)) by {
        if "MIDLAYER"@.len() <= "TOPOVERLAY"@.len() {
            assert("TOPOVERLAY"@.take("MIDLAYER"@.len() as int)[0] != "MIDLAYER"@[0]);
        }
    }
    assert(!has_prefix("TOPOVERLAY"@, "MID"@)) by {
        if "MID"@.len() <= "TOPOVERLAY"@.len() {
            assert("TOPOVERLAY"@.take("MID"@.len() as int)[0] != "MID"@[0]);
        }
    }
    assert(!has_prefix("TOPOVERLAY"@, "INTERNALPLANE"@)) by {
        if "INTERNALPLANE"@.len() <= "TOPOVERLAY"@.len() {
            assert("TOPOVERLAY"@.take("INTERNALPLANE"@.len() as int)[0] != "INTERNALPLANE"@[0]);
        }
    }
    assert("TOPOVERLAY"@ != "TOPLAYER"@) by { assert("TOPOVERLAY"@[3] != "TOPLAYER"@[3]); }
    assert("TOPOVERLAY"@ != "TOP"@) by { assert("TOPOVERLAY"@.len() != "TOP"@.len()); }
    assert("TOPOVERLAY"@ != "BOTTOMLAYER"@) by { assert("TOPOVERLAY"@[0] != "BOTTOMLAYER"@[0]); }
    assert("TOPOVERLAY"@ != "BOTTOM"@) by { assert("TOPOVERLAY"@[0] != "BOTTOM"@[0]); }
}

/// `BOTTOMOVERLAY` reads back as layer 34.
proof fn lemma_layer_name_34()
    ensures
        spec_parse_layer("BOTTOMOVERLAY"@) == 34,
{
    reveal_strlit("BOTTOM");
    reveal_strlit("BOTTOMLAYER");
    reveal_strlit("BOTTOMOVERLAY");
    reveal_strlit("BOTTOMPASTE");
    reveal_strlit("BOTTOMSOLDER");
    reveal_strlit("DRILLDRAWING");
    reveal_strlit("DRILLGUIDE");
    reveal_strlit("INTERNALPLANE");
    reveal_strlit("KEEPOUT");
    reveal_strlit("KEEPOUTLAYER");
    reveal_strlit("MECHANICAL");
    reveal_strlit("MID");
    reveal_strlit("MIDLAYER");
    reveal_strlit("MULTILAYER");
    reveal_strlit("TOP");
    reveal_strlit("TOPLAYER");
    reveal_strlit("TOPOVERLAY");
    reveal_strlit("TOPPASTE");
    reveal_strlit("TOPSOLDER");
    assert(capital_word("BOTTOMOVERLAY"@));
    lemma_capital_word("BOTTOMOVERLAY"@);
    assert(!has_prefix("BOTTOMOVERLAY"@, "MECHANICAL"@)) by {
        if "MECHANICAL"@.len() <= "BOTTOMOVERLAY"@.len() {
            assert("BOTTOMOVERLAY"@.take("MECHANICAL"@.len() as int)[0] != "MECHANICAL"@[0]);
        }
    }
    assert(!has_prefix("BOTTOMOVERLAY"@, "MIDLAYER"@)) by {
        if "MIDLAYER"@.len() <= "BOTTOMOVERLAY"@.len() {
            assert("BOTTOMOVERLAY"@.take("MIDLAYER"@.len() as int)[0] != "MIDLAYER"@[0]);
        }
    }
    assert(!has_prefix("BOTTOMOVERLAY"@, "MID"@)) by {
        if "MID"@.len() <= "BOTTOMOVERLAY"@.len() {
            assert("BOTTOMOVERLAY"@.take("MID"@.len() as int)[0] != "MID"@[0]);
        }
    }
    assert(!has_prefix("BOTTOMOVERLAY"@, "INTERNALPLANE"@)) by {
        if "INTERNALPLANE"@.len() <= "BOTTOMOVERLAY"@.len() {
            assert("BOTTOMOVERLAY"@.take("INTERNALPLANE"@.len() as int)[0] != "INTERNALPLANE"@[0]);
        }
    }
    assert("BOTTOMOVERLAY"@ != "TOPLAYER"@) by { assert("BOTTOMOVERLAY"@[0] != "TOPLAYER"@[0]); }
    assert("BOTTOMOVERLAY"@ != "TOP"@) by { assert("BOTTOMOVERLAY"@[0] != "TOP"@[0]); }
    assert("BOTTOMOVERLAY"@ != "BOTTOMLAYER"@) by { assert("BOTTOMOVERLAY"@[6] != "BOTTOMLAYER"@[6]); }
    assert("BOTTOMOVERLAY"@ != "BOTTOM"@) by { assert("BOTTOMOVERLAY"@.len() != "BOTTOM"@.len()); }
    assert("BOTTOMOVERLAY"@ != "TOPOVERLAY"@) by { assert("BOTTOMOVERLAY"@[0] != "TOPOVERLAY"@[0]); }
}

/// `TOPPASTE` reads back as layer 35.
proof fn lemma_layer_name_35()
    ensures
        spec_parse_layer("TOPPASTE"@) == 35,
{
    reveal_strlit("BOTTOM");
    reveal_strlit("BOTTOMLAYER");
    reveal_strlit("BOTTOMOVERLAY");
    reveal_strlit("BOTTOMPASTE");
    reveal_strlit("BOTTOMSOLDER");
    reveal_strlit("DRILLDRAWING");
    reveal_strlit("DRILLGUIDE");
    reveal_strlit("INTERNALPLANE");
    reveal_strlit("KEEPOUT");
    reveal_strlit("KEEPOUTLAYER");
    reveal_strlit("MECHANICAL");
    reveal_strlit("MID");
    reveal_strlit("MIDLAYER");
    reveal_strlit("MULTILAYER");
    reveal_strlit("TOP");
    reveal_strlit("TOPLAYER");
    reveal_strlit("TOPOVERLAY");
    reveal_strlit("TOPPASTE");
    reveal_strlit("TOPSOLDER");
    assert(capital_word("TOPPASTE"@));
    lemma_capital_word("TOPPASTE"@);
    assert(!has_prefix("TOPPASTE"@, "MECHANICAL"@)) by {
        if "MECHANICAL"@.len() <= "TOPPASTE"@.len() {
            assert("TOPPASTE"@.take("MECHANICAL"@.len() as int)[0] != "MECHANICAL"@[0]);
        }
    }
    assert(!has_prefix("TOPPASTE"@, "MIDLAYER"@)) by {
        if "MIDLAYER"@.len() <= "TOPPASTE"@.len() {
            assert("TOPPASTE"@.take("MIDLAYER"@.len() as int)[0] != "MIDLAYER"@[0]);
        }
    }
    assert(!has_prefix("TOPPASTE"@, "MID"@)) by {
        if "MID"@.len() <= "TOPPASTE"@.len() {
            assert("TOPPASTE"@.take("MID"@.len() as int)[0] != "MID"@[0]);
        }
    }
    assert(!has_prefix("TOPPASTE"@, "INTERNALPLANE"@)) by {
        if "INTERNALPLANE"@.len() <= "TOPPASTE"@.len() {
            assert("TOPPASTE"@.take("INTERNALPLANE"@.len() as int)[0] != "INTERNALPLANE"@[0]);
        }
    }
    assert("TOPPASTE"@ != "TOPLAYER"@) by { assert("TOPPASTE"@[3] != "TOPLAYER"@[3]); }
    assert("TOPPASTE"@ != "TOP"@) by { assert("TOPPASTE"@.len() != "TOP"@.len()); }
    assert("TOPPASTE"@ != "BOTTOMLAYER"@) by { assert("TOPPASTE"@[0] != "BOTTOMLAYER"@[0]); }
    assert("TOPPASTE"@ != "BOTTOM"@) by { assert("TOPPASTE"@[0] != "BOTTOM"@[0]); }
    assert("TOPPASTE"@ != "TOPOVERLAY"@) by { assert("TOPPASTE"@[3] != "TOPOVERLAY"@[3]); }
    assert("TOPPASTE"@ != "BOTTOMOVERLAY"@) by { assert("TOPPASTE"@[0] != "BOTTOMOVERLAY"@[0]); }
}

/// `BOTTOMPASTE` reads back as layer 36.
proof fn lemma_layer_name_36()
    ensures
        spec_parse_layer("BOTTOMPASTE"@) == 36,
{
    reveal_strlit("BOTTOM");
    reveal_strlit("BOTTOMLAYER");
    reveal_strlit("BOTTOMOVERLAY");
    reveal_strlit("BOTTOMPASTE");
    reveal_strlit("BOTTOMSOLDER");
    reveal_strlit("DRILLDRAWING");
    reveal_strlit("DRILLGUIDE");
    reveal_strlit("INTERNALPLANE");
    reveal_strlit("KEEPOUT");
    reveal_strlit("KEEPOUTLAYER");
    reveal_strlit("MECHANICAL");
    reveal_strlit("MID");
    reveal_strlit("MIDLAYER");
    reveal_strlit("MULTILAYER");
    reveal_strlit("TOP");
    reveal_strlit("TOPLAYER");
    reveal_strlit("TOPOVERLAY");
    reveal_strlit("TOPPASTE");
    reveal_strlit("TOPSOLDER");
    assert(capital_word("BOTTOMPASTE"@));
    lemma_capital_word("BOTTOMPASTE"@);
    assert(!has_prefix("BOTTOMPASTE"@, "MECHANICAL"@)) by {
        if "MECHANICAL"@.len() <= "BOTTOMPASTE"@.len() {
            assert("BOTTOMPASTE"@.take("MECHANICAL"@.len() as int)[0] != "MECHANICAL"@[0]);
        }
    }
    assert(!has_prefix("BOTTOMPASTE"@, "MIDLAYER"@)) by {
        if "MIDLAYER"@.len() <= "BOTTOMPASTE"@.len() {
            assert("BOTTOMPASTE"@.take("MIDLAYER"@.len() as int)[0] != "MIDLAYER"@[0]);
        }
    }
    assert(!has_prefix("BOTTOMPASTE"@, "MID"@)) by {
        if "MID"@.len() <= "BOTTOMPASTE"@.len() {
            assert("BOTTOMPASTE"@.take("MID"@.len() as int)[0] != "MID"@[0]);
        }
    }
    assert(!has_prefix("BOTTOMPASTE"@, "INTERNALPLANE"@)) by {
        if "INTERNALPLANE"@.len() <= "BOTTOMPASTE"@.len() {
            assert("BOTTOMPASTE"@.take("INTERNALPLANE"@.len() as int)[0] != "INTERNALPLANE"@[0]);
        }
    }
    assert("BOTTOMPASTE"@ != "TOPLAYER"@) by { assert("BOTTOMPASTE"@[0] != "TOPLAYER"@[0]); }
    assert("BOTTOMPASTE"@ != "TOP"@) by { assert("BOTTOMPASTE"@[0] != "TOP"@[0]); }
    assert("BOTTOMPASTE"@ != "BOTTOMLAYER"@) by { assert("BOTTOMPASTE"@[6] != "BOTTOMLAYER"@[6]); }
    assert("BOTTOMPASTE"@ != "BOTTOM"@) by { assert("BOTTOMPASTE"@.len() != "BOTTOM"@.len()); }
    assert("BOTTOMPASTE"@ != "TOPOVERLAY"@) by { assert("BOTTOMPASTE"@[0] != "TOPOVERLAY"@[0]); }
    assert("BOTTOMPASTE"@ != "BOTTOMOVERLAY"@) by { assert("BOTTOMPASTE"@[6] != "BOTTOMOVERLAY"@[6]); }
    assert("BOTTOMPASTE"@ != "TOPPASTE"@) by { assert("BOTTOMPASTE"@[0] != "TOPPASTE"@[0]); }
}

/// `TOPSOLDER` reads back as layer 37.
proof fn lemma_layer_name_37()
    ensures
        spec_parse_layer("TOPSOLDER"@) == 37,
{
    reveal_strlit("BOTTOM");
    reveal_strlit("BOTTOMLAYER");
    reveal_strlit("BOTTOMOVERLAY");
    reveal_strlit("BOTTOMPASTE");
    reveal_strlit("BOTTOMSOLDER");
    reveal_strlit("DRILLDRAWING");
    reveal_strlit("DRILLGUIDE");
    reveal_strlit("INTERNALPLANE");
    reveal_strlit("KEEPOUT");
    reveal_strlit("KEEPOUTLAYER");
    reveal_strlit("MECHANICAL");
    reveal_strlit("MID");
    reveal_strlit("MIDLAYER");
    reveal_strlit("MULTILAYER");
    reveal_strlit("TOP");
    reveal_strlit("TOPLAYER");
    reveal_strlit("TOPOVERLAY");
    reveal_strlit("TOPPASTE");
    reveal_strlit("TOPSOLDER");
    assert(capital_word("TOPSOLDER"@));
    lemma_capital_word("TOPSOLDER"@);
    assert(!has_prefix("TOPSOLDER"@, "MECHANICAL"@)) by {
        if "MECHANICAL"@.len() <= "TOPSOLDER"@.len() {
            assert("TOPSOLDER"@.take("MECHANICAL"@.len() as int)[0] != "MECHANICAL"@[0]);
        }
    }
    assert(!has_prefix("TOPSOLDER"@, "MIDLAYER"@)) by {
        if "MIDLAYER"@.len() <= "TOPSOLDER"@.len() {
            assert("TOPSOLDER"@.take("MIDLAYER"@.len() as int)[0] != "MIDLAYER"@[0]);
        }
    }
    assert(!has_prefix("TOPSOLDER"@, "MID"@)) by {
        if "MID"@.len() <= "TOPSOLDER"@.len() {
            assert("TOPSOLDER"@.take("MID"@.len() as int)[0] != "MID"@[0]);
        }
    }
    assert(!has_prefix("TOPSOLDER"@, "INTERNALPLANE"@)) by {
        if "INTERNALPLANE"@.len() <= "TOPSOLDER"@.len() {
            assert("TOPSOLDER"@.take("INTERNALPLANE"@.len() as int)[0] != "INTERNALPLANE"@[0]);
        }
    }
    assert("TOPSOLDER"@ != "TOPLAYER"@) by { assert("TOPSOLDER"@[3] != "TOPLAYER"@[3]); }
    assert("TOPSOLDER"@ != "TOP"@) by { assert("TOPSOLDER"@.len() != "TOP"@.len()); }
    assert("TOPSOLDER"@ != "BOTTOMLAYER"@) by { assert("TOPSOLDER"@[0] != "BOTTOMLAYER"@[0]); }
    assert("TOPSOLDER"@ != "BOTTOM"@) by { assert("TOPSOLDER"@[0] != "BOTTOM"@[0]); }
    assert("TOPSOLDER"@ != "TOPOVERLAY"@) by { assert("TOPSOLDER"@[3] != "TOPOVERLAY"@[3]); }
    assert("TOPSOLDER"@ != "BOTTOMOVERLAY"@) by { assert("TOPSOLDER"@[0] != "BOTTOMOVERLAY"@[0]); }
    assert("TOPSOLDER"@ != "TOPPASTE"@) by { assert("TOPSOLDER"@[3] != "TOPPASTE"@[3]); }
    assert("TOPSOLDER"@ != "BOTTOMPASTE"@) by { assert("TOPSOLDER"@[0] != "BOTTOMPASTE"@[0]); }
}

/// `BOTTOMSOLDER` reads back as layer 38.
proof fn lemma_layer_name_38()
    ensures
        spec_parse_layer("BOTTOMSOLDER"@) == 38,
{
    reveal_strlit("BOTTOM");
    reveal_strlit("BOTTOMLAYER");
    reveal_strlit("BOTTOMOVERLAY");
    reveal_strlit("BOTTOMPASTE");
    reveal_strlit("BOTTOMSOLDER");
    reveal_strlit("DRILLDRAWING");
    reveal_strlit("DRILLGUIDE");
    reveal_strlit("INTERNALPLANE");
    reveal_strlit("KEEPOUT");
    reveal_strlit("KEEPOUTLAYER");
    reveal_strlit("MECHANICAL");
    reveal_strlit("MID");
    reveal_strlit("MIDLAYER");
    reveal_strlit("MULTILAYER");
    reveal_strlit("TOP");
    reveal_strlit("TOPLAYER");
    reveal_strlit("TOPOVERLAY");
    reveal_strlit("TOPPASTE");
    reveal_strlit("TOPSOLDER");
    assert(capital_word("BOTTOMSOLDER"@));
    lemma_capital_word("BOTTOMSOLDER"@);
    assert(!has_prefix("BOTTOMSOLDER"@, "MECHANICAL"@)) by {
        if "MECHANICAL"@.len() <= "BOTTOMSOLDER"@.len() {
            assert("BOTTOMSOLDER"@.take("MECHANICAL"@.len() as int)[0] != "MECHANICAL"@[0]);
        }
    }
    assert(!has_prefix("BOTTOMSOLDER"@, "MIDLAYER"@)) by {
        if "MIDLAYER"@.len() <= "BOTTOMSOLDER"@.len() {
            assert("BOTTOMSOLDER"@.take("MIDLAYER"@.len() as int)[0] != "MIDLAYER"@[0]);
        }
    }
    assert(!has_prefix("BOTTOMSOLDER"@, "MID"@)) by {
        if "MID"@.len() <= "BOTTOMSOLDER"@.len() {
            assert("BOTTOMSOLDER"@.take("MID"@.len() as int)[0] != "MID"@[0]);
        }
    }
    assert(!has_prefix("BOTTOMSOLDER"@, "INTERNALPLANE"@)) by {
        if "INTERNALPLANE"@.len() <= "BOTTOMSOLDER"@.len() {
            assert("BOTTOMSOLDER"@.take("INTERNALPLANE"@.len() as int)[0] != "INTERNALPLANE"@[0]);
        }
    }
    assert("BOTTOMSOLDER"@ != "TOPLAYER"@) by { assert("BOTTOMSOLDER"@[0] != "TOPLAYER"@[0]); }
    assert("BOTTOMSOLDER"@ != "TOP"@) by { assert("BOTTOMSOLDER"@[0] != "TOP"@[0]); }
    assert("BOTTOMSOLDER"@ != "BOTTOMLAYER"@) by { assert("BOTTOMSOLDER"@[6] != "BOTTOMLAYER"@[6]); }
    assert("BOTTOMSOLDER"@ != "BOTTOM"@) by { assert("BOTTOMSOLDER"@.len() != "BOTTOM"@.len()); }
    assert("BOTTOMSOLDER"@ != "TOPOVERLAY"@) by { assert("BOTTOMSOLDER"@[0] != "TOPOVERLAY"@[0]); }
    assert("BOTTOMSOLDER"@ != "BOTTOMOVERLAY"@) by { assert("BOTTOMSOLDER"@[6] != "BOTTOMOVERLAY"@[6]); }
    assert("BOTTOMSOLDER"@ != "TOPPASTE"@) by { assert("BOTTOMSOLDER"@[0] != "TOPPASTE"@[0]); }
    assert("BOTTOMSOLDER"@ != "BOTTOMPASTE"@) by { assert("BOTTOMSOLDER"@[6] != "BOTTOMPASTE"@[6]); }
    assert("BOTTOMSOLDER"@ != "TOPSOLDER"@) by { assert("BOTTOMSOLDER"@[0] != "TOPSOLDER"@[0]); }
}

/// `DRILLGUIDE` reads back as layer 55.
proof fn lemma_layer_name_55()
    ensures
        spec_parse_layer("DRILLGUIDE"@) == 55,
{
    reveal_strlit("BOTTOM");
    reveal_strlit("BOTTOMLAYER");
    reveal_strlit("BOTTOMOVERLAY");
    reveal_strlit("BOTTOMPASTE");
    reveal_strlit("BOTTOMSOLDER");
    reveal_strlit("DRILLDRAWING");
    reveal_strlit("DRILLGUIDE");
    reveal_strlit("INTERNALPLANE");
    reveal_strlit("KEEPOUT");
    reveal_strlit("KEEPOUTLAYER");
    reveal_strlit("MECHANICAL");
    reveal_strlit("MID");
    reveal_strlit("MIDLAYER");
    reveal_strlit("MULTILAYER");
    reveal_strlit("TOP");
    reveal_strlit("TOPLAYER");
    reveal_strlit("TOPOVERLAY");
    reveal_strlit("TOPPASTE");
    reveal_strlit("TOPSOLDER");
    assert(capital_word("DRILLGUIDE"@));
    lemma_capital_word("DRILLGUIDE"@);
    assert(!has_prefix("DRILLGUIDE"@, "MECHANICAL"@)) by {
        if "MECHANICAL"@.len() <= "DRILLGUIDE"@.len() {
            assert("DRILLGUIDE"@.take("MECHANICAL"@.len() as int)[0] != "MECHANICAL"@[0]);
        }
    }
    assert(!has_prefix("DRILLGUIDE"@, "MIDLAYER"@)) by {
        if "MIDLAYER"@.len() <= "DRILLGUIDE"@.len() {
            assert("DRILLGUIDE"@.take("MIDLAYER"@.len() as int)[0] != "MIDLAYER"@[0]);
        }
    }
    assert(!has_prefix("DRILLGUIDE"@, "MID"@)) by {
        if "MID"@.len() <= "DRILLGUIDE"@.len() {
            assert("DRILLGUIDE"@.take("MID"@.len() as int)[0] != "MID"@[0]);
        }
    }
    assert(!has_prefix("DRILLGUIDE"@, "INTERNALPLANE"@)) by {
        if "INTERNALPLANE"@.len() <= "DRILLGUIDE"@.len() {
            assert("DRILLGUIDE"@.take("INTERNALPLANE"@.len() as int)[0] != "INTERNALPLANE"@[0]);
        }
    }
    assert("DRILLGUIDE"@ != "TOPLAYER"@) by { assert("DRILLGUIDE"@[0] != "TOPLAYER"@[0]); }
    assert("DRILLGUIDE"@ != "TOP"@) by { assert("DRILLGUIDE"@[0] != "TOP"@[0]); }
    assert("DRILLGUIDE"@ != "BOTTOMLAYER"@) by { assert("DRILLGUIDE"@[0] != "BOTTOMLAYER"@[0]); }
    assert("DRILLGUIDE"@ != "BOTTOM"@) by { assert("DRILLGUIDE"@[0] != "BOTTOM"@[0]); }
    assert("DRILLGUIDE"@ != "TOPOVERLAY"@) by { assert("DRILLGUIDE"@[0] != "TOPOVERLAY"@[0]); }
    assert("DRILLGUIDE"@ != "BOTTOMOVERLAY"@) by { assert("DRILLGUIDE"@[0] != "BOTTOMOVERLAY"@[0]); }
    assert("DRILLGUIDE"@ != "TOPPASTE"@) by { assert("DRILLGUIDE"@[0] != "TOPPASTE"@[0]); }
    assert("DRILLGUIDE"@ != "BOTTOMPASTE"@) by { assert("DRILLGUIDE"@[0] != "BOTTOMPASTE"@[0]); }
    assert("DRILLGUIDE"@ != "TOPSOLDER"@) by { assert("DRILLGUIDE"@[0] != "TOPSOLDER"@[0]); }
    assert("DRILLGUIDE"@ != "BOTTOMSOLDER"@) by { assert("DRILLGUIDE"@[0] != "BOTTOMSOLDER"@[0]); }
}

/// `KEEPOUT` reads back as layer 56.
proof fn lemma_layer_name_56()
    ensures
        spec_parse_layer("KEEPOUT"@) == 56,
{
    reveal_strlit("BOTTOM");
    reveal_strlit("BOTTOMLAYER");
    reveal_strlit("BOTTOMOVERLAY");
    reveal_strlit("BOTTOMPASTE");
    reveal_strlit("BOTTOMSOLDER");
    reveal_strlit("DRILLDRAWING");
    reveal_strlit("DRILLGUIDE");
    reveal_strlit("INTERNALPLANE");
    reveal_strlit("KEEPOUT");
    reveal_strlit("KEEPOUTLAYER");
    reveal_strlit("MECHANICAL");
    reveal_strlit("MID");
    reveal_strlit("MIDLAYER");
    reveal_strlit("MULTILAYER");
    reveal_strlit("TOP");
    reveal_strlit("TOPLAYER");
    reveal_strlit("TOPOVERLAY");
    reveal_strlit("TOPPASTE");
    reveal_strlit("TOPSOLDER");
    assert(capital_word("KEEPOUT"@));
    lemma_capital_word("KEEPOUT"@);
    assert(!has_prefix("KEEPOUT"@, "MECHANICAL"@)) by {
        if "MECHANICAL"@.len() <= "KEEPOUT"@.len() {
            assert("KEEPOUT"@.take("MECHANICAL"@.len() as int)[0] != "MECHANICAL"@[0]);
        }
    }
    assert(!has_prefix("KEEPOUT"@, "MIDLAYER"@)) by {
        if "MIDLAYER"@.len() <= "KEEPOUT"@.len() {
            assert("KEEPOUT"@.take("MIDLAYER"@.len() as int)[0] != "MIDLAYER"@[0]);
        }
    }
    assert(!has_prefix("KEEPOUT"@, "MID"@)) by {
        if "MID"@.len() <= "KEEPOUT"@.len() {
            assert("KEEPOUT"@.take("MID"@.len() as int)[0] != "MID"@[0]);
        }
    }
    assert(!has_prefix("KEEPOUT"@, "INTERNALPLANE"@)) by {
        if "INTERNALPLANE"@.len() <= "KEEPOUT"@.len() {
            assert("KEEPOUT"@.take("INTERNALPLANE"@.len() as int)[0] != "INTERNALPLANE"@[0]);
        }
    }
    assert("KEEPOUT"@ != "TOPLAYER"@) by { assert("KEEPOUT"@[0] != "TOPLAYER"@[0]); }
    assert("KEEPOUT"@ != "TOP"@) by { assert("KEEPOUT"@[0] != "TOP"@[0]); }
    assert("KEEPOUT"@ != "BOTTOMLAYER"@) by { assert("KEEPOUT"@[0] != "BOTTOMLAYER"@[0]); }
    assert("KEEPOUT"@ != "BOTTOM"@) by { assert("KEEPOUT"@[0] != "BOTTOM"@[0]); }
    assert("KEEPOUT"@ != "TOPOVERLAY"@) by { assert("KEEPOUT"@[0] != "TOPOVERLAY"@[0]); }
    assert("KEEPOUT"@ != "BOTTOMOVERLAY"@) by { assert("KEEPOUT"@[0] != "BOTTOMOVERLAY"@[0]); }
    assert("KEEPOUT"@ != "TOPPASTE"@) by { assert("KEEPOUT"@[0] != "TOPPASTE"@[0]); }
    assert("KEEPOUT"@ != "BOTTOMPASTE"@) by { assert("KEEPOUT"@[0] != "BOTTOMPASTE"@[0]); }
    assert("KEEPOUT"@ != "TOPSOLDER"@) by { assert("KEEPOUT"@[0] != "TOPSOLDER"@[0]); }
    assert("KEEPOUT"@ != "BOTTOMSOLDER"@) by { assert("KEEPOUT"@[0] != "BOTTOMSOLDER"@[0]); }
    assert("KEEPOUT"@ != "DRILLGUIDE"@) by { assert("KEEPOUT"@[0] != "DRILLGUIDE"@[0]); }
    assert("KEEPOUT"@ != "KEEPOUTLAYER"@) by { assert("KEEPOUT"@.len() != "KEEPOUTLAYER"@.len()); }
}

/// `DRILLDRAWING` reads back as layer 73.
proof fn lemma_layer_name_73()
    ensures
        spec_parse_layer("DRILLDRAWING"@) == 73,
{
    reveal_strlit("BOTTOM");
    reveal_strlit("BOTTOMLAYER");
    reveal_strlit("BOTTOMOVERLAY");
    reveal_strlit("BOTTOMPASTE");
    reveal_strlit("BOTTOMSOLDER");
    reveal_strlit("DRILLDRAWING");
    reveal_strlit("DRILLGUIDE");
    reveal_strlit("INTERNALPLANE");
    reveal_strlit("KEEPOUT");
    reveal_strlit("KEEPOUTLAYER");
    reveal_strlit("MECHANICAL");
    reveal_strlit("MID");
    reveal_strlit("MIDLAYER");
    reveal_strlit("MULTILAYER");
    reveal_strlit("TOP");
    reveal_strlit("TOPLAYER");
    reveal_strlit("TOPOVERLAY");
    reveal_strlit("TOPPASTE");
    reveal_strlit("TOPSOLDER");
    assert(capital_word("DRILLDRAWING"@));
    lemma_capital_word("DRILLDRAWING"@);
    assert(!has_prefix("DRILLDRAWING"@, "MECHANICAL"@)) by {
        if "MECHANICAL"@.len() <= "DRILLDRAWING"@.len() {
            assert("DRILLDRAWING"@.take("MECHANICAL"@.len() as int)[0] != "MECHANICAL"@[0]);
        }
    }
    assert(!has_prefix("DRILLDRAWING"@, "MIDLAYER"@)) by {
        if "MIDLAYER"@.len() <= "DRILLDRAWING"@.len() {
            assert("DRILLDRAWING"@.take("MIDLAYER"@.len() as int)[0] != "MIDLAYER"@[0]);
        }
    }
    assert(!has_prefix("DRILLDRAWING"@, "MID"@)) by {
        if "MID"@.len() <= "DRILLDRAWING"@.len() {
            assert("DRILLDRAWING"@.take("MID"@.len() as int)[0] != "MID"@[0]);
        }
    }
    assert(!has_prefix("DRILLDRAWING"@, "INTERNALPLANE"@)) by {
        if "INTERNALPLANE"@.len() <= "DRILLDRAWING"@.len() {
            assert("DRILLDRAWING"@.take("INTERNALPLANE"@.len() as int)[0] != "INTERNALPLANE"@[0]);
        }
    }
    assert("DRILLDRAWING"@ != "TOPLAYER"@) by { assert("DRILLDRAWING"@[0] != "TOPLAYER"@[0]); }
    assert("DRILLDRAWING"@ != "TOP"@) by { assert("DRILLDRAWING"@[0] != "TOP"@[0]); }
    assert("DRILLDRAWING"@ != "BOTTOMLAYER"@) by { assert("DRILLDRAWING"@[0] != "BOTTOMLAYER"@[0]); }
    assert("DRILLDRAWING"@ != "BOTTOM"@) by { assert("DRILLDRAWING"@[0] != "BOTTOM"@[0]); }
    assert("DRILLDRAWING"@ != "TOPOVERLAY"@) by { assert("DRILLDRAWING"@[0] != "TOPOVERLAY"@[0]); }
    assert("DRILLDRAWING"@ != "BOTTOMOVERLAY"@) by { assert("DRILLDRAWING"@[0] != "BOTTOMOVERLAY"@[0]); }
    assert("DRILLDRAWING"@ != "TOPPASTE"@) by { assert("DRILLDRAWING"@[0] != "TOPPASTE"@[0]); }
    assert("DRILLDRAWING"@ != "BOTTOMPASTE"@) by { assert("DRILLDRAWING"@[0] != "BOTTOMPASTE"@[0]); }
    assert("DRILLDRAWING"@ != "TOPSOLDER"@) by { assert("DRILLDRAWING"@[0] != "TOPSOLDER"@[0]); }
    assert("DRILLDRAWING"@ != "BOTTOMSOLDER"@) by { assert("DRILLDRAWING"@[0] != "BOTTOMSOLDER"@[0]); }
    assert("DRILLDRAWING"@ != "DRILLGUIDE"@) by { assert("DRILLDRAWING"@[5] != "DRILLGUIDE"@[5]); }
    assert("DRILLDRAWING"@ != "KEEPOUTLAYER"@) by { assert("DRILLDRAWING"@[0] != "KEEPOUTLAYER"@[0]); }
    assert("DRILLDRAWING"@ != "KEEPOUT"@) by { assert("DRILLDRAWING"@[0] != "KEEPOUT"@[0]); }
}

/// `MULTILAYER` reads back as layer 74.
proof fn lemma_layer_name_74()
    ensures
        spec_parse_layer("MULTILAYER"@) == 74,
{
    reveal_strlit("BOTTOM");
    reveal_strlit("BOTTOMLAYER");
    reveal_strlit("BOTTOMOVERLAY");
    reveal_strlit("BOTTOMPASTE");
    reveal_strlit("BOTTOMSOLDER");
    reveal_strlit("DRILLDRAWING");
    reveal_strlit("DRILLGUIDE");
    reveal_strlit("INTERNALPLANE");
    reveal_strlit("KEEPOUT");
    reveal_strlit("KEEPOUTLAYER");
    reveal_strlit("MECHANICAL");
    reveal_strlit("MID");
    reveal_strlit("MIDLAYER");
    reveal_strlit("MULTILAYER");
    reveal_strlit("TOP");
    reveal_strlit("TOPLAYER");
    reveal_strlit("TOPOVERLAY");
    reveal_strlit("TOPPASTE");
    reveal_strlit("TOPSOLDER");
    assert(capital_word("MULTILAYER"@));
    lemma_capital_word("MULTILAYER"@);
    assert(!has_prefix("MULTILAYER"@, "MECHANICAL"@)) by {
        if "MECHANICAL"@.len() <= "MULTILAYER"@.len() {
            assert("MULTILAYER"@.take("MECHANICAL"@.len() as int)[1] != "MECHANICAL"@[1]);
        }
    }
    assert(!has_prefix("MULTILAYER"@, "MIDLAYER"@)) by {
        if "MIDLAYER"@.len() <= "MULTILAYER"@.len() {
            assert("MULTILAYER"@.take("MIDLAYER"@.len() as int)[1] != "MIDLAYER"@[1]);
        }
    }
    assert(!has_prefix("MULTILAYER"@, "MID"@)) by {
        if "MID"@.len() <= "MULTILAYER"@.len() {
            assert("MULTILAYER"@.take("MID"@.len() as int)[1] != "MID"@[1]);
        }
    }
    assert(!has_prefix("MULTILAYER"@, "INTERNALPLANE"@)) by {
        if "INTERNALPLANE"@.len() <= "MULTILAYER"@.len() {
            assert("MULTILAYER"@.take("INTERNALPLANE"@.len() as int)[0] != "INTERNALPLANE"@[0]);
        }
    }
    assert("MULTILAYER"@ != "TOPLAYER"@) by { assert("MULTILAYER"@[0] != "TOPLAYER"@[0]); }
    assert("MULTILAYER"@ != "TOP"@) by { assert("MULTILAYER"@[0] != "TOP"@[0]); }
    assert("MULTILAYER"@ != "BOTTOMLAYER"@) by { assert("MULTILAYER"@[0] != "BOTTOMLAYER"@[0]); }
    assert("MULTILAYER"@ != "BOTTOM"@) by { assert("MULTILAYER"@[0] != "BOTTOM"@[0]); }
    assert("MULTILAYER"@ != "TOPOVERLAY"@) by { assert("MULTILAYER"@[0] != "TOPOVERLAY"@[0]); }
    assert("MULTILAYER"@ != "BOTTOMOVERLAY"@) by { assert("MULTILAYER"@[0] != "BOTTOMOVERLAY"@[0]); }
    assert("MULTILAYER"@ != "TOPPASTE"@) by { assert("MULTILAYER"@[0] != "TOPPASTE"@[0]); }
    assert("MULTILAYER"@ != "BOTTOMPASTE"@) by { assert("MULTILAYER"@[0] != "BOTTOMPASTE"@[0]); }
    assert("MULTILAYER"@ != "TOPSOLDER"@) by { assert("MULTILAYER"@[0] != "TOPSOLDER"@[0]); }
    assert("MULTILAYER"@ != "BOTTOMSOLDER"@) by { assert("MULTILAYER"@[0] != "BOTTOMSOLDER"@[0]); }
    assert("MULTILAYER"@ != "DRILLGUIDE"@) by { assert("MULTILAYER"@[0] != "DRILLGUIDE"@[0]); }
    assert("MULTILAYER"@ != "KEEPOUTLAYER"@) by { assert("MULTILAYER"@[0] != "KEEPOUTLAYER"@[0]); }
    assert("MULTILAYER"@ != "KEEPOUT"@) by { assert("MULTILAYER"@[0] != "KEEPOUT"@[0]); }
    assert("MULTILAYER"@ != "DRILLDRAWING"@) by { assert("MULTILAYER"@[0] != "DRILLDRAWING"@[0]); }
}

proof fn lemma_mid_layer_name(n: nat)
    requires
        1 <= n <= 30,
    ensures
        spec_parse_layer("MID"@ + dec(n)) == n + 1,
{
    reveal_strlit("MID");
    reveal_strlit("MIDLAYER");
    reveal_strlit("MECHANICAL");
    let w = "MID"@ + dec(n);
    assert(capital_word("MID"@));
    lemma_numbered_word("MID"@, n);
    lemma_capital_word(w);
    lemma_parse_int_dec(n);
    crate::guid_tables::lemma_dec_digits(n);
    assert(!has_prefix(w, "MECHANICAL"@)) by {
        if "MECHANICAL"@.len() <= w.len() {
            assert(w.take(10)[1] != "MECHANICAL"@[1]);
        }
    }
    assert(!has_prefix(w, "MIDLAYER"@)) by {
        if "MIDLAYER"@.len() <= w.len() {
            assert('0' <= w["MID"@.len() + 0int] && w["MID"@.len() + 0int] <= '9');
            assert(w.take(8)[3] != "MIDLAYER"@[3]);
        }
    }
    assert(has_prefix(w, "MID"@));
}

proof fn lemma_mechanical_layer_name(n: nat)
    requires
        1 <= n <= 16,
    ensures
        spec_parse_layer("MECHANICAL"@ + dec(n)) == n + 56,
{
    reveal_strlit("MECHANICAL");
    let w = "MECHANICAL"@ + dec(n);
    assert(capital_word("MECHANICAL"@));
    lemma_numbered_word("MECHANICAL"@, n);
    lemma_capital_word(w);
    lemma_parse_int_dec(n);
    assert(has_prefix(w, "MECHANICAL"@));
}

proof fn lemma_plane_layer_name(n: nat)
    requires
        1 <= n <= 16,
    ensures
        spec_parse_layer("INTERNAL"@ + ("PLANE"@ + dec(n))) == n + 38,
{
    reveal_strlit("INTERNAL");
    reveal_strlit("PLANE");
    reveal_strlit("INTERNALPLANE");
    reveal_strlit("MECHANICAL");
    reveal_strlit("MIDLAYER");
    reveal_strlit("MID");
    assert("INTERNAL"@ + "PLANE"@ =~= "INTERNALPLANE"@);
    let w = "INTERNALPLANE"@ + dec(n);
    assert("INTERNAL"@ + ("PLANE"@ + dec(n)) =~= w);
    assert(capital_word("INTERNALPLANE"@));
    lemma_numbered_word("INTERNALPLANE"@, n);
    lemma_capital_word(w);
    lemma_parse_int_dec(n);
    assert(!has_prefix(w, "MECHANICAL"@)) by {
        assert(w.take(10)[0] != "MECHANICAL"@[0]);
    }
    assert(!has_prefix(w, "MIDLAYER"@)) by {
        assert(w.take(8)[0] != "MIDLAYER"@[0]);
    }
    assert(!has_prefix(w, "MID"@)) by {
        assert(w.take(3)[0] != "MID"@[0]);
    }
    assert(has_prefix(w, "INTERNALPLANE"@));
}

proof fn lemma_number_layer_name(l: i32)
    ensures
        spec_parse_layer(dec_int(l as int)) == l,
{
    let s = dec_int(l as int);
    let m: nat = if l < 0 { (-l) as nat } else { l as nat };
    crate::guid_tables::lemma_dec_digits(m);
    assert(crate::text::is_digit(dec(m)[0]));
    assert(crate::text::is_digit(dec(m).last()));
    if l < 0 {
        assert(s.drop_first() =~= dec(m));
        assert(s.last() == dec(m).last());
    }
    assert(!crate::text::is_space(s[0]));
    assert(!crate::text::is_space(s.last()));
    assert(crate::text::trim_start(s) == s);
    assert(crate::text::trim_end(s) == s);
    assert(trim(s) == s);
}

/// The short layer name written for a layer reads back as that layer, for
/// every layer but the internal planes (39 to 54), whose `PLANE<n>` names
/// the reader does not know; it does know them with their long prefix,
/// `INTERNALPLANE<n>`. A layer outside 1 to 74 is written as its number and
/// reads back as it.
pub proof fn lemma_doc_layer_name_round_trip(l: i32)
    ensures
        1 <= l <= 74 && !(39 <= l <= 54) ==> spec_parse_layer(spec_doc_layer_name(l)) == l,
        39 <= l <= 54 ==> spec_parse_layer("INTERNAL"@ + spec_doc_layer_name(l)) == l,
        (l < 1 || l > 74) ==> spec_parse_layer(spec_doc_layer_name(l)) == l,
{
    if l < 1 || l > 74 {
        lemma_number_layer_name(l);
    } else if 39 <= l <= 54 {
        lemma_plane_layer_name((l - 38) as nat);
    } else if l == 1 {
        lemma_layer_name_1();
    } else if l == 32 {
        lemma_layer_name_32();
    } else if l == 33 {
        lemma_layer_name_33();
    } else if l == 34 {
        lemma_layer_name_34();
    } else if l == 35 {
        lemma_layer_name_35();
    } else if l == 36 {
        lemma_layer_name_36();
    } else if l == 37 {
        lemma_layer_name_37();
    } else if l == 38 {
        lemma_layer_name_38();
    } else if l == 55 {
        lemma_layer_name_55();
    } else if l == 56 {
        lemma_layer_name_56();
    } else if l == 73 {
        lemma_layer_name_73();
    } else if l == 74 {
        lemma_layer_name_74();
    } else if 2 <= l <= 31 {
        lemma_mid_layer_name((l - 1) as nat);
    } else {
        lemma_mechanical_layer_name((l - 56) as nat);
    }
}


// ---------------------------------------------------------------------------
// Copies of parameter bags

fn copy_pairs(params: &ParameterMap) -> (v: Vec<(String, String)>)
    ensures
        pairs_view(v@) == params@,
{
    let e = params.entries();
    let mut v: Vec<(String, String)> = Vec::new();
    let mut i: usize = 0;
    while i < e.len()
        invariant
            i <= e@.len(),
            pairs_view(e@) == params@,
            pairs_view(v@) == pairs_view(e@).take(i as int),
        decreases e@.len() - i,
    {
        let a = owned(e[i].0.as_str());
        let b = owned(e[i].1.as_str());
        let ghost old_v = v@;
        v.push((a, b));
        assert(pairs_view(v@) =~= pairs_view(old_v).push((a@, b@)));
        assert(pairs_view(e@)[i as int] == (e@[i as int].0@, e@[i as int].1@));
        assert(pairs_view(e@).take(i + 1) =~= pairs_view(e@).take(i as int).push(pairs_view(e@)[i as int]));
        i += 1;
    }
    assert(pairs_view(e@).take(e@.len() as int) =~= pairs_view(e@));
    v
}

/// Whether a parameter list holds `key` (ASCII case ignored).
pub open spec fn has_key(p: Entries, key: Seq<char>) -> bool {
    exists|i: int| 0 <= i < p.len() && eq_ignore_case(#[trigger] p[i].0, key)
}

fn had(parameters: &Vec<(String, String)>, key: &str) -> (r: bool)
    ensures
        r == has_key(pairs_view(parameters@), key@),
{
    let mut i: usize = 0;
    while i < parameters.len()
        invariant
            i <= parameters@.len(),
            forall|j: int| 0 <= j < i ==> !eq_ignore_case(#[trigger] pairs_view(parameters@)[j].0, key@),
        decreases parameters@.len() - i,
    {
        if str_eq_ignore_case(parameters[i].0.as_str(), key) {
            assert(eq_ignore_case(pairs_view(parameters@)[i as int].0, key@));
            return true;
        }
        i += 1;
    }
    false
}

// ---------------------------------------------------------------------------
// Net

pub fn net_from_params(params: &ParameterMap) -> (n: Net)
    ensures
        pairs_view(n.parameters@) == params@,
        n.name@ == get_or_empty(params@, "NAME"@),
{
    Net { name: get_string(params, "NAME"), parameters: copy_pairs(params) }
}

pub fn net_to_params(net: &Net, params: &mut ParameterMap)
    ensures
        final(params)@ == map_insert(
            map_insert_all(old(params)@, pairs_view(net.parameters@)),
            "NAME"@,
            net.name@,
        ),
        old(params).wf() ==> final(params).wf(),
{
    params.insert_all(net.parameters.as_slice());
    params.insert("NAME", net.name.as_str());
}

// ---------------------------------------------------------------------------
// Room

pub fn room_from_params(params: &ParameterMap) -> (r: Room)
    ensures
        pairs_view(r.parameters@) == params@,
        r.name@ == get_or_empty(params@, "NAME"@),
        r.unique_id@ == get_or_empty(params@, "UNIQUEID"@),
{
    Room {
        name: get_string(params, "NAME"),
        unique_id: get_string(params, "UNIQUEID"),
        parameters: copy_pairs(params),
    }
}

/// `e` with `key=value` inserted when `value` is not empty.
pub open spec fn insert_nonempty(e: Entries, key: Seq<char>, value: Seq<char>) -> Entries {
    if value.len() > 0 {
        map_insert(e, key, value)
    } else {
        e
    }
}

fn insert_nonempty_exec(params: &mut ParameterMap, key: &str, value: &String)
    ensures
        final(params)@ == insert_nonempty(old(params)@, key@, value@),
        old(params).wf() ==> final(params).wf(),
{
    let c = chars_of(value.as_str());
    if c.len() > 0 {
        params.insert(key, value.as_str());
    }
}

pub fn room_to_params(r: &Room, params: &mut ParameterMap)
    ensures
        final(params)@ == insert_nonempty(
            insert_nonempty(map_insert_all(old(params)@, pairs_view(r.parameters@)), "NAME"@, r.name@),
            "UNIQUEID"@,
            r.unique_id@,
        ),
        old(params).wf() ==> final(params).wf(),
{
    params.insert_all(r.parameters.as_slice());
    insert_nonempty_exec(params, "NAME", &r.name);
    insert_nonempty_exec(params, "UNIQUEID", &r.unique_id);
}

// ---------------------------------------------------------------------------
// DifferentialPair

pub fn differential_pair_from_params(params: &ParameterMap) -> (d: DifferentialPair)
    ensures
        pairs_view(d.parameters@) == params@,
        d.name@ == get_or_empty(params@, "NAME"@),
        d.positive_net_name@ == get_or_empty(params@, "POSITIVENETNAME"@),
        d.negative_net_name@ == get_or_empty(params@, "NEGATIVENETNAME"@),
        d.unique_id@ == get_or_empty(params@, "UNIQUEID"@),
        d.enabled == match spec_bool_explicit(params@, "ENABLED"@) {
            Some(b) => b,
            None => true,
        },
{
    let enabled = match get_bool_explicit(params, "ENABLED") {
        Some(b) => b,
        None => true,
    };
    DifferentialPair {
        name: get_string(params, "NAME"),
        positive_net_name: get_string(params, "POSITIVENETNAME"),
        negative_net_name: get_string(params, "NEGATIVENETNAME"),
        unique_id: get_string(params, "UNIQUEID"),
        enabled,
        parameters: copy_pairs(params),
    }
}

pub fn differential_pair_to_params(d: &DifferentialPair, params: &mut ParameterMap)
    ensures
        final(params)@ == {
            let e = insert_nonempty(
                insert_nonempty(
                    insert_nonempty(
                        insert_nonempty(
                            map_insert_all(old(params)@, pairs_view(d.parameters@)),
                            "NAME"@,
                            d.name@,
                        ),
                        "POSITIVENETNAME"@,
                        d.positive_net_name@,
                    ),
                    "NEGATIVENETNAME"@,
                    d.negative_net_name@,
                ),
                "UNIQUEID"@,
                d.unique_id@,
            );
            if d.enabled {
                e
            } else {
                map_insert(e, "ENABLED"@, "FALSE"@)
            }
        },
        old(params).wf() ==> final(params).wf(),
{
    params.insert_all(d.parameters.as_slice());
    insert_nonempty_exec(params, "NAME", &d.name);
    insert_nonempty_exec(params, "POSITIVENETNAME", &d.positive_net_name);
    insert_nonempty_exec(params, "NEGATIVENETNAME", &d.negative_net_name);
    insert_nonempty_exec(params, "UNIQUEID", &d.unique_id);
    if !d.enabled {
        params.insert("ENABLED", "FALSE");
    }
}

// ---------------------------------------------------------------------------
// Rule

pub fn rule_from_params(params: &ParameterMap) -> (r: Rule)
    ensures
        pairs_view(r.parameters@) == params@,
        r.name@ == get_or_empty(params@, "NAME"@),
        r.rule_kind@ == get_or_empty(params@, "RULEKIND"@),
        r.comment@ == get_or_empty(params@, "COMMENT"@),
        r.unique_id@ == get_or_empty(params@, "UNIQUEID"@),
        r.enabled == match spec_bool_explicit(params@, "ENABLED"@) {
            Some(b) => b,
            None => false,
        },
        r.priority == match map_get(params@, "PRIORITY"@) {
            Some(v) => match parse_i32(trim(v)) {
                Some(p) => p,
                None => 0,
            },
            None => 0,
        },
        r.scope1_expression@ == get_or_empty(params@, "SCOPE1EXPRESSION"@),
        r.scope2_expression@ == get_or_empty(params@, "SCOPE2EXPRESSION"@),
        r.rule_type_code == 0,
{
    let enabled = match get_bool_explicit(params, "ENABLED") {
        Some(b) => b,
        None => false,
    };
    let priority = match params.get_i32("PRIORITY") {
        Some(p) => p,
        None => 0,
    };
    Rule {
        name: get_string(params, "NAME"),
        rule_kind: get_string(params, "RULEKIND"),
        enabled,
        priority,
        comment: get_string(params, "COMMENT"),
        unique_id: get_string(params, "UNIQUEID"),
        scope1_expression: get_string(params, "SCOPE1EXPRESSION"),
        scope2_expression: get_string(params, "SCOPE2EXPRESSION"),
        parameters: copy_pairs(params),
        rule_type_code: 0,
    }
}

/// `e` with `key=value` inserted when `value` is not empty and the source
/// parameters held `key`.
pub open spec fn insert_if_had(e: Entries, p: Entries, key: Seq<char>, value: Seq<char>) -> Entries {
    if value.len() > 0 && has_key(p, key) {
        map_insert(e, key, value)
    } else {
        e
    }
}

fn insert_if_had_exec(
    params: &mut ParameterMap,
    parameters: &Vec<(String, String)>,
    key: &str,
    value: &String,
)
    ensures
        final(params)@ == insert_if_had(old(params)@, pairs_view(parameters@), key@, value@),
        old(params).wf() ==> final(params).wf(),
{
    let c = chars_of(value.as_str());
    if c.len() > 0 && had(parameters, key) {
        params.insert(key, value.as_str());
    }
}

/// What writing a rule into a map gives: the source parameters, then each
/// typed field that is set and whose key the source parameters held.
pub open spec fn spec_rule_to_params(r: Rule, e: Entries) -> Entries {
    let p = pairs_view(r.parameters@);
    let e1 = map_insert_all(e, p);
    let e2 = insert_if_had(e1, p, "NAME"@, r.name@);
    let e3 = insert_if_had(e2, p, "RULEKIND"@, r.rule_kind@);
    let e4 = insert_if_had(e3, p, "COMMENT"@, r.comment@);
    let e5 = insert_if_had(e4, p, "UNIQUEID"@, r.unique_id@);
    let e6 = if has_key(p, "ENABLED"@) {
        map_insert(e5, "ENABLED"@, if r.enabled { "TRUE"@ } else { "FALSE"@ })
    } else {
        e5
    };
    let e7 = if r.priority != 0 && has_key(p, "PRIORITY"@) {
        map_insert(e6, "PRIORITY"@, dec_int(r.priority as int))
    } else {
        e6
    };
    let e8 = insert_if_had(e7, p, "SCOPE1EXPRESSION"@, r.scope1_expression@);
    insert_if_had(e8, p, "SCOPE2EXPRESSION"@, r.scope2_expression@)
}

pub fn rule_to_params(r: &Rule, params: &mut ParameterMap)
    ensures
        final(params)@ == spec_rule_to_params(*r, old(params)@),
        old(params).wf() ==> final(params).wf(),
{
    params.insert_all(r.parameters.as_slice());
    insert_if_had_exec(params, &r.parameters, "NAME", &r.name);
    insert_if_had_exec(params, &r.parameters, "RULEKIND", &r.rule_kind);
    insert_if_had_exec(params, &r.parameters, "COMMENT", &r.comment);
    insert_if_had_exec(params, &r.parameters, "UNIQUEID", &r.unique_id);
    if had(&r.parameters, "ENABLED") {
        params.insert(
            "ENABLED",
            if r.enabled {
                "TRUE"
            } else {
                "FALSE"
            },
        );
    }
    if r.priority != 0 && had(&r.parameters, "PRIORITY") {
        let p = crate::text::dec_string_signed(r.priority as i64);
        params.insert("PRIORITY", p.as_str());
    }
    insert_if_had_exec(params, &r.parameters, "SCOPE1EXPRESSION", &r.scope1_expression);
    insert_if_had_exec(params, &r.parameters, "SCOPE2EXPRESSION", &r.scope2_expression);
}

// ---------------------------------------------------------------------------
// ObjectClass

/// The key of member `i`: `MEMBER<i>`.
pub open spec fn member_key(i: nat) -> Seq<char> {
    "MEMBER"@ + dec(i)
}

/// The members stored under `MEMBER<i>`, `MEMBER<i+1>`, ... up to the first
/// absent key, at most `fuel` of them.
pub open spec fn members_from(e: Entries, i: nat, fuel: nat) -> Seq<Seq<char>>
    decreases fuel,
{
    if fuel == 0 {
        seq![]
    } else {
        match map_get(e, member_key(i)) {
            Some(v) => seq![v] + members_from(e, i + 1, (fuel - 1) as nat),
            None => seq![],
        }
    }
}

fn member_key_string(i: u64) -> (k: String)
    ensures
        k@ == member_key(i as nat),
{
    let mut k = String::new();
    push_str(&mut k, "MEMBER");
    push_dec(&mut k, i);
    k
}

pub fn object_class_from_params(params: &ParameterMap) -> (o: ObjectClass)
    ensures
        pairs_view(o.parameters@) == params@,
        o.name@ == get_or_empty(params@, "NAME"@),
        o.super_class@ == get_or_empty(params@, "SUPERCLASS"@),
        o.sub_class@ == get_or_empty(params@, "SUBCLASS"@),
        o.unique_id@ == get_or_empty(params@, "UNIQUEID"@),
        o.kind@ == get_or_empty(params@, "KIND"@),
        o.enabled == match spec_bool_explicit(params@, "ENABLED"@) {
            Some(b) => b,
            None => false,
        },
        o.members@.map_values(|m: String| m@) == members_from(params@, 0, (params@.len() + 1) as nat),
{
    let enabled = match get_bool_explicit(params, "ENABLED") {
        Some(b) => b,
        None => false,
    };
    let mut members: Vec<String> = Vec::new();
    let n = params.len();
    let ghost e = params@;
    let mut i: u128 = 0;
    while i <= n as u128
        invariant_except_break
            i <= n + 1,
            members@.map_values(|m: String| m@) + members_from(e, i as nat, (n + 1 - i) as nat) == members_from(e, 0, (n + 1) as nat),
        invariant
            e == params@,
            n == params@.len(),
        ensures
            members@.map_values(|m: String| m@) == members_from(e, 0, (n + 1) as nat),
        decreases n + 1 - i,
    {
        let key = member_key_string(i as u64);
        match params.get(key.as_str()) {
            Some(v) => {
                let ghost before = members@.map_values(|m: String| m@);
                members.push(owned(v));
                assert(members@.map_values(|m: String| m@) =~= before.push(v@));
                assert(members_from(e, i as nat, (n + 1 - i) as nat) == seq![v@] + members_from(e, (i + 1) as nat, (n - i) as nat));
                assert(before + members_from(e, i as nat, (n + 1 - i) as nat) =~= before.push(v@) + members_from(e, (i + 1) as nat, (n - i) as nat));
                i += 1;
            },
            None => {
                assert(members@.map_values(|m: String| m@) + seq![] =~= members@.map_values(|m: String| m@));
                break;
            },
        }
    }
    proof {
        if i > n {
            assert(members_from(e, i as nat, 0) =~= seq![]);
            assert(members@.map_values(|m: String| m@) + seq![] =~= members@.map_values(|m: String| m@));
        }
    }
    ObjectClass {
        name: get_string(params, "NAME"),
        super_class: get_string(params, "SUPERCLASS"),
        sub_class: get_string(params, "SUBCLASS"),
        unique_id: get_string(params, "UNIQUEID"),
        kind: get_string(params, "KIND"),
        enabled,
        members,
        parameters: copy_pairs(params),
    }
}

/// The members written from `i` on: each whose key the source parameters
/// held, or all of them when there are source parameters.
pub open spec fn members_into(e: Entries, p: Entries, members: Seq<Seq<char>>, i: nat) -> Entries
    decreases members.len() - i,
{
    if i >= members.len() {
        e
    } else {
        let e1 = if has_key(p, member_key(i)) || p.len() > 0 {
            map_insert(e, member_key(i), members[i as int])
        } else {
            e
        };
        members_into(e1, p, members, i + 1)
    }
}

/// What writing an object class into a map gives: the source parameters,
/// each set typed field whose key the source held, `ENABLED` when the
/// source held it, then the members.
pub open spec fn spec_object_class_to_params(o: ObjectClass, e: Entries) -> Entries {
    let p = pairs_view(o.parameters@);
    let e1 = map_insert_all(e, p);
    let e2 = insert_if_had(e1, p, "NAME"@, o.name@);
    let e3 = insert_if_had(e2, p, "SUPERCLASS"@, o.super_class@);
    let e4 = insert_if_had(e3, p, "SUBCLASS"@, o.sub_class@);
    let e5 = insert_if_had(e4, p, "UNIQUEID"@, o.unique_id@);
    let e6 = insert_if_had(e5, p, "KIND"@, o.kind@);
    let e7 = if has_key(p, "ENABLED"@) {
        map_insert(e6, "ENABLED"@, if o.enabled { "TRUE"@ } else { "FALSE"@ })
    } else {
        e6
    };
    members_into(e7, p, o.members@.map_values(|m: String| m@), 0)
}

pub fn object_class_to_params(o: &ObjectClass, params: &mut ParameterMap)
    ensures
        final(params)@ == spec_object_class_to_params(*o, old(params)@),
        old(params).wf() ==> final(params).wf(),
{
    params.insert_all(o.parameters.as_slice());
    insert_if_had_exec(params, &o.parameters, "NAME", &o.name);
    insert_if_had_exec(params, &o.parameters, "SUPERCLASS", &o.super_class);
    insert_if_had_exec(params, &o.parameters, "SUBCLASS", &o.sub_class);
    insert_if_had_exec(params, &o.parameters, "UNIQUEID", &o.unique_id);
    insert_if_had_exec(params, &o.parameters, "KIND", &o.kind);
    if had(&o.parameters, "ENABLED") {
        params.insert(
            "ENABLED",
            if o.enabled {
                "TRUE"
            } else {
                "FALSE"
            },
        );
    }
    let ghost p = pairs_view(o.parameters@);
    let ghost ms = o.members@.map_values(|m: String| m@);
    let ghost start = params@;
    let any = o.parameters.len() > 0;
    let mut i: usize = 0;
    while i < o.members.len()
        invariant
            i <= o.members@.len(),
            ms == o.members@.map_values(|m: String| m@),
            p == pairs_view(o.parameters@),
            any == (p.len() > 0),
            members_into(start, p, ms, 0) == members_into(params@, p, ms, i as nat),
            old(params).wf() ==> params.wf(),
        decreases o.members@.len() - i,
    {
        let key = member_key_string(i as u64);
        if had(&o.parameters, key.as_str()) || any {
            params.insert(key.as_str(), o.members[i].as_str());
        }
        i += 1;
    }
}

// ---------------------------------------------------------------------------
// Round trips

/// The map a room record writes into an empty map.
pub open spec fn room_entries(r: Room) -> Entries {
    insert_nonempty(
        insert_nonempty(map_insert_all(Seq::<(Seq<char>, Seq<char>)>::empty(), pairs_view(r.parameters@)), "NAME"@, r.name@),
        "UNIQUEID"@,
        r.unique_id@,
    )
}

proof fn lemma_insert_nonempty_get(e: Entries, key: Seq<char>)
    ensures
        insert_nonempty(e, key, get_or_empty(e, key)) == e,
{
    if map_get(e, key) is Some && get_or_empty(e, key).len() > 0 {
        lemma_insert_same(e, key);
    }
}

/// Reading a room from a well-formed map and writing it into an empty map
/// gives the same entries.
pub proof fn lemma_room_round_trip(e: Entries, r: Room)
    requires
        keys_unique(e),
        pairs_view(r.parameters@) == e,
        r.name@ == get_or_empty(e, "NAME"@),
        r.unique_id@ == get_or_empty(e, "UNIQUEID"@),
    ensures
        room_entries(r) == e,
{
    lemma_insert_all_rebuilds(e);
    lemma_insert_nonempty_get(e, "NAME"@);
    lemma_insert_nonempty_get(e, "UNIQUEID"@);
}

/// Reading a net from a well-formed map that names it and writing it into an
/// empty map gives the same entries.
pub proof fn lemma_net_round_trip(e: Entries, n: Net)
    requires
        keys_unique(e),
        map_get(e, "NAME"@) is Some,
        pairs_view(n.parameters@) == e,
        n.name@ == get_or_empty(e, "NAME"@),
    ensures
        map_insert(map_insert_all(Seq::<(Seq<char>, Seq<char>)>::empty(), pairs_view(n.parameters@)), "NAME"@, n.name@) == e,
{
    lemma_insert_all_rebuilds(e);
    lemma_insert_same(e, "NAME"@);
}

proof fn lemma_has_key_get(e: Entries, key: Seq<char>)
    ensures
        has_key(e, key) == (map_get(e, key) is Some),
{
    lemma_find_key_props(e, key);
    if let Some(i) = find_key(e, key) {
        assert(eq_ignore_case(e[i].0, key));
    }
}

proof fn lemma_insert_if_had_same(e: Entries, key: Seq<char>)
    ensures
        insert_if_had(e, e, key, get_or_empty(e, key)) == e,
{
    lemma_has_key_get(e, key);
    if map_get(e, key) is Some {
        lemma_insert_same(e, key);
    }
}

proof fn lemma_members_from_present(e: Entries, i: nat, fuel: nat)
    ensures
        forall|k: int|
            0 <= k < members_from(e, i, fuel).len() ==> map_get(e, member_key((i + k) as nat)) == Some(
                #[trigger] members_from(e, i, fuel)[k],
            ),
    decreases fuel,
{
    if fuel > 0 {
        if let Some(v) = map_get(e, member_key(i)) {
            lemma_members_from_present(e, i + 1, (fuel - 1) as nat);
            let r = members_from(e, i, fuel);
            let t = members_from(e, i + 1, (fuel - 1) as nat);
            assert forall|k: int| 0 <= k < r.len() implies map_get(e, member_key((i + k) as nat)) == Some(
                #[trigger] r[k],
            ) by {
                if k > 0 {
                    assert(r[k] == t[k - 1]);
                    assert((i + 1 + (k - 1)) as nat == (i + k) as nat);
                }
            }
        }
    }
}

proof fn lemma_members_into_same(e: Entries, p: Entries, ms: Seq<Seq<char>>, i: nat)
    requires
        forall|j: int| i <= j < ms.len() ==> map_get(e, member_key(j as nat)) == Some(#[trigger] ms[j]),
    ensures
        members_into(e, p, ms, i) == e,
    decreases ms.len() - i,
{
    if i < ms.len() {
        assert(map_get(e, member_key(i)) == Some(ms[i as int]));
        lemma_insert_same(e, member_key(i));
        lemma_members_into_same(e, p, ms, i + 1);
    }
}

/// Reading an object class from a well-formed map whose `ENABLED` value, when
/// present, is `TRUE` or `FALSE`, and writing it into an empty map gives the
/// same entries: every key with its value, in the same order.
pub proof fn lemma_object_class_round_trip(e: Entries, o: ObjectClass)
    requires
        keys_unique(e),
        map_get(e, "ENABLED"@) matches Some(v) ==> v == "TRUE"@ || v == "FALSE"@,
        pairs_view(o.parameters@) == e,
        o.name@ == get_or_empty(e, "NAME"@),
        o.super_class@ == get_or_empty(e, "SUPERCLASS"@),
        o.sub_class@ == get_or_empty(e, "SUBCLASS"@),
        o.unique_id@ == get_or_empty(e, "UNIQUEID"@),
        o.kind@ == get_or_empty(e, "KIND"@),
        o.enabled == match spec_bool_explicit(e, "ENABLED"@) {
            Some(b) => b,
            None => false,
        },
        o.members@.map_values(|m: String| m@) == members_from(e, 0, (e.len() + 1) as nat),
    ensures
        spec_object_class_to_params(o, Seq::<(Seq<char>, Seq<char>)>::empty()) == e,
{
    lemma_insert_all_rebuilds(e);
    lemma_insert_if_had_same(e, "NAME"@);
    lemma_insert_if_had_same(e, "SUPERCLASS"@);
    lemma_insert_if_had_same(e, "SUBCLASS"@);
    lemma_insert_if_had_same(e, "UNIQUEID"@);
    lemma_insert_if_had_same(e, "KIND"@);
    lemma_has_key_get(e, "ENABLED"@);
    if let Some(v) = map_get(e, "ENABLED"@) {
        reveal_strlit("TRUE");
        reveal_strlit("FALSE");
        if v == "TRUE"@ {
            assert(is_true(v));
        } else {
            assert(upper_seq(v)[0] == 'F');
            assert(upper_seq("TRUE"@)[0] == 'T');
            assert(!is_true(v));
        }
        let w: Seq<char> = if o.enabled { "TRUE"@ } else { "FALSE"@ };
        assert(w == v);
        lemma_insert_same(e, "ENABLED"@);
    }
    let ms = o.members@.map_values(|m: String| m@);
    lemma_members_from_present(e, 0, (e.len() + 1) as nat);
    assert forall|j: int| 0 <= j < ms.len() implies map_get(e, member_key(j as nat)) == Some(#[trigger] ms[j]) by {
        assert(ms[j] == members_from(e, 0, (e.len() + 1) as nat)[j]);
        assert((0 + j) as nat == j as nat);
    }
    lemma_members_into_same(e, e, ms, 0);
}

proof fn lemma_members_run(e: Entries, i: nat, fuel: nat)
    ensures
        members_from(e, i, fuel).len() <= fuel,
        forall|k: nat| i <= k < i + members_from(e, i, fuel).len() ==> map_get(e, #[trigger] member_key(k)) is Some,
        members_from(e, i, fuel).len() < fuel ==> map_get(e, member_key((i + members_from(e, i, fuel).len()) as nat)) is None,
    decreases fuel,
{
    if fuel > 0 {
        if let Some(v) = map_get(e, member_key(i)) {
            lemma_members_run(e, i + 1, (fuel - 1) as nat);
            let t = members_from(e, i + 1, (fuel - 1) as nat);
            assert(members_from(e, i, fuel).len() == t.len() + 1);
            assert((i + 1 + t.len()) as nat == (i + members_from(e, i, fuel).len()) as nat);
        }
    }
}

/// Reading the members of a class never runs out of room: it stops at the
/// first absent `MEMBER<i>`, so the members are those of consecutive keys
/// from `MEMBER0`.
pub proof fn lemma_members_end_at_gap(e: Entries)
    ensures
        map_get(e, member_key(members_from(e, 0, (e.len() + 1) as nat).len())) is None,
{
    let fuel = (e.len() + 1) as nat;
    lemma_members_run(e, 0, fuel);
    let n = members_from(e, 0, fuel).len();
    if n == fuel {
        reveal_strlit("MEMBER");
        reveal_strlit("");
        assert(upper_seq("MEMBER"@) =~= "MEMBER"@);
        assert(upper_seq(""@) =~= ""@);
        let ks = Seq::new(fuel, |k: int| member_key(k as nat));
        assert forall|i: int, j: int| 0 <= i < j < ks.len() implies !eq_ignore_case(#[trigger] ks[i], #[trigger] ks[j]) by {
            assert(member_key(i as nat) =~= crate::polygon_io::vkey("MEMBER"@, i as nat, ""@));
            assert(member_key(j as nat) =~= crate::polygon_io::vkey("MEMBER"@, j as nat, ""@));
            crate::polygon_io::lemma_upper_vkey("MEMBER"@, i as nat, ""@);
            crate::polygon_io::lemma_upper_vkey("MEMBER"@, j as nat, ""@);
            if ks[i] == ks[j] {
                crate::polygon_io::lemma_vkey_injective("MEMBER"@, i as nat, j as nat, ""@);
            }
        }
        assert forall|i: int| 0 <= i < ks.len() implies map_get(e, #[trigger] ks[i]) is Some by {
            assert(ks[i] == member_key(i as nat));
        }
        crate::polygon_io::lemma_present_keys_bound(e, ks);
    }
}

} // verus!
