//! The per-footprint identity tables Altium keeps next to the records.
//!
//! `PrimitiveGuids/Data` holds 24-byte rows: a u32 type code (the record
//! type byte for arcs, pads, vias, tracks, texts and fills, 89 for regions,
//! 90 for bodies, 85 for the footprint itself in row 0), a u32 0-based
//! record index and a 16-byte GUID. `UniqueIDPrimitiveInformation/Data`
//! holds one `|PRIMITIVEINDEX=i|PRIMITIVEOBJECTID=Pad|UNIQUEID=XXXXXXXX`
//! entry per pad, by record index.

use std::hash::BuildHasher;

use vstd::prelude::*;

use crate::bytes::{read_u32, u32_le};
use crate::encoding::{decode, latin1};
use crate::text::{
    chars_of, dec, has_prefix, join_with, parse_bounded, parse_int, push_char, push_chars,
    push_dec, push_joined, split_chars, split_on, starts_with, tail_from, trim, trim_chars,
};

verus! {

/// Type code used in `PrimitiveGuids` rows for a record type byte.
pub open spec fn spec_guid_type_code(kind: u8) -> u32 {
    if kind == 11 {
        89
    } else if kind == 12 {
        90
    } else {
        kind as u32
    }
}

/// Type code used in `PrimitiveGuids` rows for a record type byte.
pub fn guid_type_code(kind: u8) -> (c: u32)
    ensures
        c == spec_guid_type_code(kind),
{
    match kind {
        11 => 89,
        12 => 90,
        k => k as u32,
    }
}

/// Type code of the footprint row (row 0).
pub const COMPONENT_GUID_CODE: u32 = 85;

// ---------------------------------------------------------------------------
// GUID text

/// The upper-case hex digit of `n < 16`.
pub open spec fn hex_digit(n: int) -> char {
    if n < 10 {
        (n + 48) as char
    } else {
        (n + 55) as char
    }
}

/// The two upper-case hex digits of a byte.
pub open spec fn hex2(x: u8) -> Seq<char> {
    seq![hex_digit(x as int / 16), hex_digit(x as int % 16)]
}

/// The `{XXXXXXXX-XXXX-XXXX-XXXX-XXXXXXXXXXXX}` text of 16 stored bytes
/// (mixed-endian: the first three groups are little-endian).
pub open spec fn guid_text(b: Seq<u8>) -> Seq<char> {
    seq!['{'] + hex2(b[3]) + hex2(b[2]) + hex2(b[1]) + hex2(b[0]) + seq!['-'] + hex2(b[5]) + hex2(
        b[4],
    ) + seq!['-'] + hex2(b[7]) + hex2(b[6]) + seq!['-'] + hex2(b[8]) + hex2(b[9]) + seq!['-']
        + hex2(b[10]) + hex2(b[11]) + hex2(b[12]) + hex2(b[13]) + hex2(b[14]) + hex2(b[15])
        + seq!['}']
}

pub(crate) fn hex_digit_of(n: u8) -> (c: char)
    requires
        n < 16,
    ensures
        c == hex_digit(n as int),
{
    if n < 10 {
        (n + 48) as char
    } else {
        (n + 55) as char
    }
}

fn push_hex2(s: &mut String, x: u8)
    ensures
        final(s)@ == old(s)@ + hex2(x),
{
    push_char(s, hex_digit_of(x / 16));
    push_char(s, hex_digit_of(x % 16));
    assert(final(s)@ =~= old(s)@ + hex2(x));
}

/// Format the 16 bytes of a GUID row (mixed-endian, as stored) as
/// `{XXXXXXXX-XXXX-XXXX-XXXX-XXXXXXXXXXXX}`.
pub fn format_guid(b: &[u8; 16]) -> (s: String)
    ensures
        s@ == guid_text(b@),
{
    let mut s = String::new();
    push_char(&mut s, '{');
    push_hex2(&mut s, b[3]);
    push_hex2(&mut s, b[2]);
    push_hex2(&mut s, b[1]);
    push_hex2(&mut s, b[0]);
    push_char(&mut s, '-');
    push_hex2(&mut s, b[5]);
    push_hex2(&mut s, b[4]);
    push_char(&mut s, '-');
    push_hex2(&mut s, b[7]);
    push_hex2(&mut s, b[6]);
    push_char(&mut s, '-');
    push_hex2(&mut s, b[8]);
    push_hex2(&mut s, b[9]);
    push_char(&mut s, '-');
    push_hex2(&mut s, b[10]);
    push_hex2(&mut s, b[11]);
    push_hex2(&mut s, b[12]);
    push_hex2(&mut s, b[13]);
    push_hex2(&mut s, b[14]);
    push_hex2(&mut s, b[15]);
    push_char(&mut s, '}');
    assert(s@ =~= guid_text(b@));
    s
}

/// `s` without its leading `c`s (`str::trim_start_matches`).
pub open spec fn trim_start_char(s: Seq<char>, c: char) -> Seq<char>
    decreases s.len(),
{
    if s.len() > 0 && s[0] == c {
        trim_start_char(s.drop_first(), c)
    } else {
        s
    }
}

/// `s` without its trailing `c`s (`str::trim_end_matches`).
pub open spec fn trim_end_char(s: Seq<char>, c: char) -> Seq<char>
    decreases s.len(),
{
    if s.len() > 0 && s.last() == c {
        trim_end_char(s.drop_last(), c)
    } else {
        s
    }
}

/// `s` without any `-`.
pub open spec fn drop_dashes(s: Seq<char>) -> Seq<char>
    decreases s.len(),
{
    if s.len() == 0 {
        s
    } else if s.last() == '-' {
        drop_dashes(s.drop_last())
    } else {
        drop_dashes(s.drop_last()).push(s.last())
    }
}

pub open spec fn is_hex(c: char) -> bool {
    ('0' <= c && c <= '9') || ('a' <= c && c <= 'f') || ('A' <= c && c <= 'F')
}

pub open spec fn hex_value(c: char) -> int {
    if '0' <= c && c <= '9' {
        c as int - 48
    } else if 'a' <= c && c <= 'f' {
        c as int - 87
    } else {
        c as int - 55
    }
}

/// `u8::from_str_radix` on two characters: two hex digits, or `+` and one
/// (the sign `from_str_radix` accepts).
pub open spec fn hex_pair(x: char, y: char) -> Option<u8> {
    if is_hex(x) && is_hex(y) {
        Some((hex_value(x) * 16 + hex_value(y)) as u8)
    } else if x == '+' && is_hex(y) {
        Some(hex_value(y) as u8)
    } else {
        None
    }
}

/// The hex digits of a GUID text: trimmed, braces and dashes removed.
pub open spec fn guid_digits(s: Seq<char>) -> Seq<char> {
    drop_dashes(trim_end_char(trim_start_char(trim(s), '{'), '}'))
}

/// The bytes in the order the text lists them.
pub open spec fn guid_text_bytes(h: Seq<char>) -> Seq<u8> {
    Seq::new(16, |i: int| hex_pair(h[2 * i], h[2 * i + 1])->0)
}

/// The stored byte order of bytes listed in text order.
pub open spec fn guid_stored(v: Seq<u8>) -> Seq<u8> {
    seq![v[3], v[2], v[1], v[0], v[5], v[4], v[7], v[6]] + v.skip(8)
}

/// What `parse_guid` gives for a text: the stored bytes, if the text holds
/// exactly 32 hex digits (after trimming, braces and dashes removed).
pub open spec fn spec_parse_guid(s: Seq<char>) -> Option<Seq<u8>> {
    let h = guid_digits(s);
    if h.len() == 32 && forall|i: int| 0 <= i < 16 ==> (#[trigger] hex_pair(h[2 * i], h[2 * i + 1])) is Some {
        Some(guid_stored(guid_text_bytes(h)))
    } else {
        None
    }
}

fn hex_value_of(c: char) -> (r: Option<u8>)
    ensures
        r matches Some(v) ==> is_hex(c) && v == hex_value(c),
        r is None ==> !is_hex(c),
{
    if '0' <= c && c <= '9' {
        Some(((c as u32) - 48) as u8)
    } else if 'a' <= c && c <= 'f' {
        Some(((c as u32) - 87) as u8)
    } else if 'A' <= c && c <= 'F' {
        Some(((c as u32) - 55) as u8)
    } else {
        None
    }
}

fn hex_pair_of(x: char, y: char) -> (r: Option<u8>)
    ensures
        r == hex_pair(x, y),
{
    match (hex_value_of(x), hex_value_of(y)) {
        (Some(a), Some(b)) => Some(a * 16 + b),
        (None, Some(b)) => {
            if x == '+' {
                Some(b)
            } else {
                None
            }
        },
        _ => None,
    }
}

/// A text without surrounding white space, then without its leading `{`s
/// and trailing `}`s.
pub open spec fn brace_core(s: Seq<char>) -> Seq<char> {
    trim_end_char(trim_start_char(trim(s), '{'), '}')
}

/// The characters of [`brace_core`].
pub(crate) fn brace_core_chars(s: &str) -> (r: Vec<char>)
    ensures
        r@ == brace_core(s@),
{
    let all = chars_of(s);
    let t = trim_chars(&all);
    let mut a: usize = 0;
    assert(t@.skip(0) =~= t@);
    while a < t.len() && t[a] == '{'
        invariant
            a <= t@.len(),
            trim_start_char(t@, '{') == trim_start_char(t@.skip(a as int), '{'),
        decreases t@.len() - a,
    {
        assert(t@.skip(a as int).drop_first() =~= t@.skip(a + 1));
        a += 1;
    }
    let mut b: usize = t.len();
    let ghost u = t@.skip(a as int);
    assert(u =~= t@.subrange(a as int, t@.len() as int));
    while b > a && t[b - 1] == '}'
        invariant
            a <= b <= t@.len(),
            trim_end_char(u, '}') == trim_end_char(t@.subrange(a as int, b as int), '}'),
        decreases b,
    {
        assert(t@.subrange(a as int, b as int).drop_last() =~= t@.subrange(a as int, b - 1));
        b -= 1;
    }
    crate::text::slice_chars(&t, a, b)
}

/// The hex digits of a GUID text (see [`guid_digits`]).
fn guid_digit_chars(s: &str) -> (h: Vec<char>)
    ensures
        h@ == guid_digits(s@),
{
    let core = brace_core_chars(s);
    let mut h: Vec<char> = Vec::new();
    let mut i: usize = 0;
    while i < core.len()
        invariant
            i <= core@.len(),
            h@ == drop_dashes(core@.take(i as int)),
        decreases core@.len() - i,
    {
        assert(core@.take(i + 1).drop_last() =~= core@.take(i as int));
        if core[i] != '-' {
            h.push(core[i]);
        }
        i += 1;
    }
    assert(core@.take(core@.len() as int) =~= core@);
    h
}

/// Parse a `{8-4-4-4-12}` string back into the stored byte order. Each
/// byte is two hex digits, or `+` and one digit, as `u8::from_str_radix`
/// reads them.
pub fn parse_guid(s: &str) -> (r: Option<[u8; 16]>)
    ensures
        r matches Some(b) ==> spec_parse_guid(s@) == Some(b@),
        r is None ==> spec_parse_guid(s@) is None,
{
    let h = guid_digit_chars(s);
    if h.len() != 32 {
        return None;
    }
    let mut v: Vec<u8> = Vec::new();
    let mut i: usize = 0;
    while i < 16
        invariant
            h@.len() == 32,
            h@ == guid_digits(s@),
            i <= 16,
            v@.len() == i,
            forall|k: int| 0 <= k < i ==> (#[trigger] hex_pair(h@[2 * k], h@[2 * k + 1])) == Some(v@[k]),
        decreases 16 - i,
    {
        match hex_pair_of(h[2 * i], h[2 * i + 1]) {
            Some(x) => v.push(x),
            None => {
                let ghost k = i as int;
                assert(hex_pair(h@[2 * k], h@[2 * k + 1]) is None);
                assert(!(forall|j: int| 0 <= j < 16 ==> (#[trigger] hex_pair(h@[2 * j], h@[2 * j + 1])) is Some));
                return None;
            },
        }
        i += 1;
    }
    let out: [u8; 16] = [
        v[3],
        v[2],
        v[1],
        v[0],
        v[5],
        v[4],
        v[7],
        v[6],
        v[8],
        v[9],
        v[10],
        v[11],
        v[12],
        v[13],
        v[14],
        v[15],
    ];
    assert(v@ =~= guid_text_bytes(h@));
    assert(out@ =~= guid_stored(guid_text_bytes(h@)));
    Some(out)
}

pub proof fn lemma_drop_dashes_append(a: Seq<char>, b: Seq<char>)
    ensures
        drop_dashes(a + b) == drop_dashes(a) + drop_dashes(b),
    decreases b.len(),
{
    if b.len() == 0 {
        assert(a + b =~= a);
        assert(drop_dashes(b) =~= b);
    } else {
        lemma_drop_dashes_append(a, b.drop_last());
        assert((a + b).drop_last() =~= a + b.drop_last());
        assert((a + b).last() == b.last());
        if b.last() == '-' {
        } else {
            assert(drop_dashes(a) + drop_dashes(b.drop_last()).push(b.last()) =~= (drop_dashes(a)
                + drop_dashes(b.drop_last())).push(b.last()));
        }
    }
}

pub proof fn lemma_hex_digit(n: int)
    requires
        0 <= n < 16,
    ensures
        is_hex(hex_digit(n)),
        hex_value(hex_digit(n)) == n,
        hex_digit(n) != '-' && hex_digit(n) != '{' && hex_digit(n) != '}',
{
}

pub proof fn lemma_hex2(x: u8)
    ensures
        drop_dashes(hex2(x)) == hex2(x),
        hex_pair(hex2(x)[0], hex2(x)[1]) == Some(x),
        hex2(x).len() == 2,
{
    lemma_hex_digit(x as int / 16);
    lemma_hex_digit(x as int % 16);
    let a = hex_digit(x as int / 16);
    let one = seq![a];
    assert(hex2(x).drop_last() =~= one);
    assert(one.drop_last() =~= Seq::<char>::empty());
    assert(drop_dashes(Seq::<char>::empty()) == Seq::<char>::empty());
    assert(drop_dashes(one) == drop_dashes(one.drop_last()).push(a));
    assert(drop_dashes(one) =~= one);
    assert(drop_dashes(hex2(x)) == drop_dashes(one).push(hex2(x).last()));
    assert(drop_dashes(hex2(x)) =~= hex2(x));
}

/// The middle of a GUID text: its hex digits and dashes.
pub open spec fn guid_middle(b: Seq<u8>) -> Seq<char> {
    let d = seq!['-'];
    hex2(b[3]) + hex2(b[2]) + hex2(b[1]) + hex2(b[0]) + d + hex2(b[5]) + hex2(b[4]) + d + hex2(b[7])
        + hex2(b[6]) + d + hex2(b[8]) + hex2(b[9]) + d + hex2(b[10]) + hex2(b[11]) + hex2(b[12])
        + hex2(b[13]) + hex2(b[14]) + hex2(b[15])
}

/// The hex digits of a GUID text, in text order.
pub open spec fn guid_hex(b: Seq<u8>) -> Seq<char> {
    hex2(b[3]) + hex2(b[2]) + hex2(b[1]) + hex2(b[0]) + hex2(b[5]) + hex2(b[4]) + hex2(b[7]) + hex2(
        b[6],
    ) + hex2(b[8]) + hex2(b[9]) + hex2(b[10]) + hex2(b[11]) + hex2(b[12]) + hex2(b[13]) + hex2(b[14])
        + hex2(b[15])
}

proof fn lemma_guid_trim(b: Seq<u8>)
    requires
        b.len() == 16,
    ensures
        trim_end_char(trim_start_char(trim(guid_text(b)), '{'), '}') == guid_middle(b),
{
    let t = guid_text(b);
    lemma_hex_digit(b[3] as int / 16);
    lemma_hex_digit(b[15] as int % 16);
    assert(t =~= seq!['{'] + guid_middle(b) + seq!['}']);
    assert(!crate::text::is_space(t[0]));
    assert(!crate::text::is_space(t.last()));
    assert(crate::text::trim_start(t) == t);
    assert(crate::text::trim_end(t) == t);
    let u = t.drop_first();
    assert(trim_start_char(t, '{') == trim_start_char(u, '{'));
    assert(u[0] == hex_digit(b[3] as int / 16));
    assert(trim_start_char(u, '{') == u);
    let w = u.drop_last();
    assert(trim_end_char(u, '}') == trim_end_char(w, '}'));
    assert(w =~= guid_middle(b));
    assert(w.last() == hex_digit(b[15] as int % 16));
    assert(trim_end_char(w, '}') == w);
}

proof fn lemma_guid_dashes(b: Seq<u8>)
    requires
        b.len() == 16,
    ensures
        drop_dashes(guid_middle(b)) == guid_hex(b),
{
    let d = seq!['-'];
    assert(d.drop_last() =~= Seq::<char>::empty());
    assert(drop_dashes(Seq::<char>::empty()) == Seq::<char>::empty());
    assert(drop_dashes(d) =~= Seq::<char>::empty());
    lemma_hex2(b[0]);
    lemma_hex2(b[1]);
    lemma_hex2(b[2]);
    lemma_hex2(b[3]);
    lemma_hex2(b[4]);
    lemma_hex2(b[5]);
    lemma_hex2(b[6]);
    lemma_hex2(b[7]);
    lemma_hex2(b[8]);
    lemma_hex2(b[9]);
    lemma_hex2(b[10]);
    lemma_hex2(b[11]);
    lemma_hex2(b[12]);
    lemma_hex2(b[13]);
    lemma_hex2(b[14]);
    lemma_hex2(b[15]);
    let p1 = hex2(b[3]) + hex2(b[2]) + hex2(b[1]) + hex2(b[0]);
    lemma_drop_dashes_append(hex2(b[3]), hex2(b[2]));
    lemma_drop_dashes_append(hex2(b[3]) + hex2(b[2]), hex2(b[1]));
    lemma_drop_dashes_append(hex2(b[3]) + hex2(b[2]) + hex2(b[1]), hex2(b[0]));
    assert(drop_dashes(p1) == p1);
    let p2 = hex2(b[5]) + hex2(b[4]);
    lemma_drop_dashes_append(hex2(b[5]), hex2(b[4]));
    let p3 = hex2(b[7]) + hex2(b[6]);
    lemma_drop_dashes_append(hex2(b[7]), hex2(b[6]));
    let p4 = hex2(b[8]) + hex2(b[9]);
    lemma_drop_dashes_append(hex2(b[8]), hex2(b[9]));
    let p5 = hex2(b[10]) + hex2(b[11]) + hex2(b[12]) + hex2(b[13]) + hex2(b[14]) + hex2(b[15]);
    lemma_drop_dashes_append(hex2(b[10]), hex2(b[11]));
    lemma_drop_dashes_append(hex2(b[10]) + hex2(b[11]), hex2(b[12]));
    lemma_drop_dashes_append(hex2(b[10]) + hex2(b[11]) + hex2(b[12]), hex2(b[13]));
    lemma_drop_dashes_append(hex2(b[10]) + hex2(b[11]) + hex2(b[12]) + hex2(b[13]), hex2(b[14]));
    lemma_drop_dashes_append(
        hex2(b[10]) + hex2(b[11]) + hex2(b[12]) + hex2(b[13]) + hex2(b[14]),
        hex2(b[15]),
    );
    assert(guid_middle(b) =~= p1 + d + p2 + d + p3 + d + p4 + d + p5);
    lemma_drop_dashes_append(p1, d);
    lemma_drop_dashes_append(p1 + d, p2);
    lemma_drop_dashes_append(p1 + d + p2, d);
    lemma_drop_dashes_append(p1 + d + p2 + d, p3);
    lemma_drop_dashes_append(p1 + d + p2 + d + p3, d);
    lemma_drop_dashes_append(p1 + d + p2 + d + p3 + d, p4);
    lemma_drop_dashes_append(p1 + d + p2 + d + p3 + d + p4, d);
    lemma_drop_dashes_append(p1 + d + p2 + d + p3 + d + p4 + d, p5);
    assert(p1 + Seq::<char>::empty() =~= p1);
    assert(drop_dashes(guid_middle(b)) =~= p1 + p2 + p3 + p4 + p5);
    assert(guid_hex(b) =~= p1 + p2 + p3 + p4 + p5);
}

/// Formatting a GUID and parsing the text gives the stored bytes back.
#[verifier::rlimit(40)]
pub proof fn lemma_guid_round_trip(b: Seq<u8>)
    requires
        b.len() == 16,
    ensures
        spec_parse_guid(guid_text(b)) == Some(b),
{
    lemma_guid_trim(b);
    lemma_guid_dashes(b);
    let h = guid_hex(b);
    assert(guid_digits(guid_text(b)) == h);
    let order: Seq<u8> = seq![b[3], b[2], b[1], b[0], b[5], b[4], b[7], b[6], b[8], b[9], b[10], b[11], b[12], b[13], b[14], b[15]];
    assert forall|i: int| 0 <= i < 16 implies #[trigger] hex_pair(h[2 * i], h[2 * i + 1]) == Some(order[i]) by {
        lemma_hex2(order[i]);
        assert(h[2 * i] == hex2(order[i])[0]);
        assert(h[2 * i + 1] == hex2(order[i])[1]);
    }
    assert(guid_text_bytes(h) =~= order);
    assert(guid_stored(order) =~= b);
}

/// ASCII lower-casing of one character.
pub open spec fn lower_char(c: char) -> char {
    if 'A' <= c && c <= 'Z' {
        ((c as u32) + 32) as char
    } else {
        c
    }
}

/// ASCII lower-casing of a text (`str::to_ascii_lowercase`).
pub open spec fn lower_seq(s: Seq<char>) -> Seq<char> {
    s.map_values(|c: char| lower_char(c))
}

proof fn lemma_lower_trim_start(s: Seq<char>)
    ensures
        crate::text::trim_start(lower_seq(s)) == lower_seq(crate::text::trim_start(s)),
    decreases s.len(),
{
    if s.len() > 0 {
        assert(lower_seq(s)[0] == lower_char(s[0]));
        assert(lower_seq(s).drop_first() =~= lower_seq(s.drop_first()));
        lemma_lower_trim_start(s.drop_first());
    }
}

proof fn lemma_lower_trim_end(s: Seq<char>)
    ensures
        crate::text::trim_end(lower_seq(s)) == lower_seq(crate::text::trim_end(s)),
    decreases s.len(),
{
    if s.len() > 0 {
        assert(lower_seq(s).last() == lower_char(s.last()));
        assert(lower_seq(s).drop_last() =~= lower_seq(s.drop_last()));
        lemma_lower_trim_end(s.drop_last());
    }
}

proof fn lemma_lower_trim_start_char(s: Seq<char>, c: char)
    requires
        !('A' <= c && c <= 'Z'),
        !('a' <= c && c <= 'z'),
    ensures
        trim_start_char(lower_seq(s), c) == lower_seq(trim_start_char(s, c)),
    decreases s.len(),
{
    if s.len() > 0 {
        assert(lower_seq(s)[0] == lower_char(s[0]));
        assert(lower_seq(s).drop_first() =~= lower_seq(s.drop_first()));
        lemma_lower_trim_start_char(s.drop_first(), c);
    }
}

proof fn lemma_lower_trim_end_char(s: Seq<char>, c: char)
    requires
        !('A' <= c && c <= 'Z'),
        !('a' <= c && c <= 'z'),
    ensures
        trim_end_char(lower_seq(s), c) == lower_seq(trim_end_char(s, c)),
    decreases s.len(),
{
    if s.len() > 0 {
        assert(lower_seq(s).last() == lower_char(s.last()));
        assert(lower_seq(s).drop_last() =~= lower_seq(s.drop_last()));
        lemma_lower_trim_end_char(s.drop_last(), c);
    }
}

proof fn lemma_lower_drop_dashes(s: Seq<char>)
    ensures
        drop_dashes(lower_seq(s)) == lower_seq(drop_dashes(s)),
    decreases s.len(),
{
    if s.len() > 0 {
        assert(lower_seq(s).last() == lower_char(s.last()));
        assert(lower_seq(s).drop_last() =~= lower_seq(s.drop_last()));
        lemma_lower_drop_dashes(s.drop_last());
        if s.last() != '-' {
            assert(lower_seq(drop_dashes(s.drop_last()).push(s.last())) =~= lower_seq(drop_dashes(s.drop_last())).push(
                lower_char(s.last()),
            ));
        }
    }
}

/// Lower-casing a text does not change which GUID it names: the GUID text
/// of some bytes, in lower case, reads back as the same bytes.
pub proof fn lemma_guid_lower_case(b: Seq<u8>)
    requires
        b.len() == 16,
    ensures
        spec_parse_guid(lower_seq(guid_text(b))) == Some(b),
{
    let t = guid_text(b);
    lemma_guid_round_trip(b);
    lemma_lower_trim_start(t);
    lemma_lower_trim_end(crate::text::trim_start(t));
    lemma_lower_trim_start_char(trim(t), '{');
    lemma_lower_trim_end_char(trim_start_char(trim(t), '{'), '}');
    lemma_lower_drop_dashes(trim_end_char(trim_start_char(trim(t), '{'), '}'));
    let h = guid_digits(t);
    assert(guid_digits(lower_seq(t)) == lower_seq(h));
    let l = lower_seq(h);
    assert forall|i: int| 0 <= i < 16 implies #[trigger] hex_pair(l[2 * i], l[2 * i + 1]) == hex_pair(
        h[2 * i],
        h[2 * i + 1],
    ) by {
        assert(hex_pair(h[2 * i], h[2 * i + 1]) is Some);
        assert(l[2 * i] == lower_char(h[2 * i]) && l[2 * i + 1] == lower_char(h[2 * i + 1]));
        if 'A' <= h[2 * i] && h[2 * i] <= 'Z' {
            assert(lower_char(h[2 * i]) as int == h[2 * i] as int + 32);
        }
        if 'A' <= h[2 * i + 1] && h[2 * i + 1] <= 'Z' {
            assert(lower_char(h[2 * i + 1]) as int == h[2 * i + 1] as int + 32);
        }
    }
    assert(guid_text_bytes(l) =~= guid_text_bytes(h));
}

// ---------------------------------------------------------------------------
// Side-table entries

/// `str::parse::<usize>`.
pub open spec fn parse_usize(s: Seq<char>) -> Option<usize> {
    match parse_int(s, false) {
        Some(v) => if 0 <= v <= usize::MAX {
            Some(v as usize)
        } else {
            None
        },
        None => None,
    }
}

/// Index of the first field that starts with `p`, if any.
pub open spec fn first_with_prefix(fields: Seq<Seq<char>>, p: Seq<char>) -> Option<int>
    decreases fields.len(),
{
    if fields.len() == 0 {
        None
    } else {
        match first_with_prefix(fields.drop_last(), p) {
            Some(i) => Some(i),
            None => if has_prefix(fields.last(), p) {
                Some(fields.len() - 1)
            } else {
                None
            },
        }
    }
}

/// The record index an entry names in its `PRIMITIVEINDEX=` field (the first
/// such field decides).
pub open spec fn spec_entry_index(text: Seq<char>) -> Option<usize> {
    let fields = split_on(text, '|');
    let key = "PRIMITIVEINDEX="@;
    match first_with_prefix(fields, key) {
        Some(i) => parse_usize(trim(fields[i].skip(key.len() as int))),
        None => None,
    }
}

pub(crate) fn parse_usize_chars(s: &[char]) -> (r: Option<usize>)
    ensures
        r == parse_usize(s@),
{
    match parse_bounded(s, false, usize::MAX as u64) {
        Some((_, m)) => Some(m as usize),
        None => None,
    }
}

pub fn entry_index(text: &str) -> (r: Option<usize>)
    ensures
        r == spec_entry_index(text@),
{
    let chars = chars_of(text);
    let fields = split_chars(&chars, '|');
    let key = chars_of("PRIMITIVEINDEX=");
    let ghost views = split_on(text@, '|');
    let mut i: usize = 0;
    while i < fields.len()
        invariant
            i <= fields@.len(),
            fields@.len() == views.len(),
            views == split_on(text@, '|'),
            key@ == "PRIMITIVEINDEX="@,
            forall|k: int| 0 <= k < fields@.len() ==> (#[trigger] fields@[k])@ == views[k],
            first_with_prefix(views.take(i as int), key@) is None,
        decreases fields@.len() - i,
    {
        assert(views.take(i + 1).drop_last() =~= views.take(i as int));
        if starts_with(fields[i].as_slice(), key.as_slice()) {
            assert(first_with_prefix(views.take(i + 1), key@) == Some(i as int));
            proof {
                lemma_first_with_prefix_extend(views, i as int + 1, key@);
            }
            let rest = tail_from(fields[i].as_slice(), key.len());
            let t = trim_chars(&rest);
            return parse_usize_chars(&t);
        }
        i += 1;
    }
    assert(views.take(views.len() as int) =~= views);
    None
}

pub proof fn lemma_first_with_prefix_extend(fields: Seq<Seq<char>>, n: int, p: Seq<char>)
    requires
        0 <= n <= fields.len(),
        first_with_prefix(fields.take(n), p) is Some,
    ensures
        first_with_prefix(fields, p) == first_with_prefix(fields.take(n), p),
    decreases fields.len() - n,
{
    if n < fields.len() {
        assert(fields.take(n + 1).drop_last() =~= fields.take(n));
        lemma_first_with_prefix_extend(fields, n + 1, p);
    } else {
        assert(fields.take(n) =~= fields);
    }
}

/// A field rewritten to carry record index `i` when it is the
/// `PRIMITIVEINDEX=` field.
pub open spec fn reindexed_field(f: Seq<char>, i: nat) -> Seq<char> {
    if has_prefix(f, "PRIMITIVEINDEX="@) {
        "PRIMITIVEINDEX="@ + dec(i)
    } else {
        f
    }
}

/// An entry with every `PRIMITIVEINDEX=` field rewritten to `i`.
pub open spec fn spec_with_index(text: Seq<char>, i: nat) -> Seq<char> {
    join_with(split_on(text, '|').map_values(|f: Seq<char>| reindexed_field(f, i)), '|')
}

pub fn with_index(text: &str, i: usize) -> (r: String)
    ensures
        r@ == spec_with_index(text@, i as nat),
{
    let chars = chars_of(text);
    let fields = split_chars(&chars, '|');
    let key = chars_of("PRIMITIVEINDEX=");
    let mut out_fields: Vec<Vec<char>> = Vec::new();
    let ghost views = split_on(text@, '|');
    let mut k: usize = 0;
    while k < fields.len()
        invariant
            k <= fields@.len(),
            fields@.len() == views.len(),
            views == split_on(text@, '|'),
            key@ == "PRIMITIVEINDEX="@,
            forall|j: int| 0 <= j < fields@.len() ==> (#[trigger] fields@[j])@ == views[j],
            out_fields@.len() == k,
            forall|j: int| 0 <= j < k ==> (#[trigger] out_fields@[j])@ == reindexed_field(views[j], i as nat),
        decreases fields@.len() - k,
    {
        if starts_with(fields[k].as_slice(), key.as_slice()) {
            let mut f = String::new();
            crate::text::push_str(&mut f, "PRIMITIVEINDEX=");
            push_dec(&mut f, i as u64);
            out_fields.push(chars_of(f.as_str()));
        } else {
            out_fields.push(crate::text::slice_chars(fields[k].as_slice(), 0, fields[k].len()));
            assert(fields@[k as int]@.subrange(0, fields@[k as int]@.len() as int) =~= fields@[k as int]@);
        }
        k += 1;
    }
    let mut out = String::new();
    push_joined(&mut out, &out_fields, '|');
    assert(out_fields@.map_values(|p: Vec<char>| p@) =~= views.map_values(
        |f: Seq<char>| reindexed_field(f, i as nat),
    ));
    out
}

/// The entries of a side table: `[u32 len][text\0]` repeated, optionally after
/// a `u32` count; each entry clamped to the buffer, one trailing NUL dropped.
pub open spec fn spec_parse_entries_from(data: Seq<u8>, p: int) -> Seq<Seq<char>>
    decreases data.len() - p,
{
    if p < 0 || p + 4 > data.len() {
        seq![]
    } else {
        let len = u32_le(data, p);
        let entry = crate::records::clamped(data, p + 4, p + 4 + len);
        let text = if entry.len() > 0 && entry.last() == 0 {
            entry.drop_last()
        } else {
            entry
        };
        let next = p + 4 + len;
        seq![latin1(text)] + if next <= data.len() {
            spec_parse_entries_from(data, next)
        } else {
            seq![]
        }
    }
}

/// Parse `[u32 len][text\0]...` entries, optionally preceded by a `u32` count.
pub fn parse_entries(data: &[u8], inline_count: bool) -> (r: Vec<String>)
    ensures
        r@.len() == spec_parse_entries_from(data@, if inline_count { 4 } else { 0 }).len(),
        forall|i: int| 0 <= i < r@.len() ==> (#[trigger] r@[i])@ == spec_parse_entries_from(
            data@,
            if inline_count { 4 } else { 0 },
        )[i],
{
    let start: usize = if inline_count { 4 } else { 0 };
    let mut p: usize = start;
    let mut out: Vec<String> = Vec::new();
    let n = data.len();
    let mut done = false;
    while !done && p <= n && n - p >= 4
        invariant
            n == data@.len(),
            spec_parse_entries_from(data@, start as int) =~= out@.map_values(|s: String| s@)
                + if done {
                seq![]
            } else {
                spec_parse_entries_from(data@, p as int)
            },
        decreases n + 1 - p, (if done { 0int } else { 1int }),
    {
        let len = read_u32(data, p).unwrap() as usize;
        let to = if len < n - p - 4 { p + 4 + len } else { n };
        let entry = &data[p + 4..to];
        let text = if entry.len() > 0 && entry[entry.len() - 1] == 0 {
            &entry[0..entry.len() - 1]
        } else {
            entry
        };
        assert(entry@ == crate::records::clamped(data@, p + 4, p + 4 + len));
        let ghost before = out@.map_values(|s: String| s@);
        out.push(decode(text));
        assert(out@.map_values(|s: String| s@) =~= before.push(latin1(text@)));
        if len > n - p - 4 {
            assert(spec_parse_entries_from(data@, p as int) =~= seq![latin1(text@)]);
            done = true;
        } else {
            p = p + 4 + len;
        }
    }
    assert forall|i: int| 0 <= i < out@.len() implies (#[trigger] out@[i])@ == spec_parse_entries_from(
        data@,
        start as int,
    )[i] by {
        assert(out@.map_values(|s: String| s@)[i] == out@[i]@);
    }
    out
}

// ---------------------------------------------------------------------------
// Record slots

/// How many of the first `i` records have type `kind`.
pub open spec fn count_kind(order: Seq<u8>, kind: u8, i: int) -> nat
    decreases i,
{
    if i <= 0 {
        0
    } else {
        count_kind(order, kind, i - 1) + if order[i - 1] == kind {
            1nat
        } else {
            0nat
        }
    }
}

/// The slot of record `i`: its type and its index among records of that type.
pub open spec fn spec_slot(order: Seq<u8>, i: int) -> (u8, usize) {
    (order[i], count_kind(order, order[i], i) as usize)
}

/// Every record type indexes a counter (types 0 through 12).
pub open spec fn kinds_in_range(order: Seq<u8>) -> bool {
    forall|i: int| 0 <= i < order.len() ==> #[trigger] order[i] < 13
}

/// (kind, list index) of every record, in record order.
pub fn record_slots(order: &[u8]) -> (r: Vec<(u8, usize)>)
    requires
        kinds_in_range(order@),
    ensures
        r@.len() == order@.len(),
        forall|i: int| 0 <= i < order@.len() ==> #[trigger] r@[i] == spec_slot(order@, i),
{
    let mut counters: Vec<usize> = vec![0usize; 13];
    let mut out: Vec<(u8, usize)> = Vec::new();
    let mut i: usize = 0;
    while i < order.len()
        invariant
            kinds_in_range(order@),
            i <= order@.len(),
            counters@.len() == 13,
            forall|k: int| 0 <= k < 13 ==> #[trigger] counters@[k] == count_kind(order@, k as u8, i as int),
            forall|k: int| 0 <= k < 13 ==> counters@[k] <= i,
            out@.len() == i,
            forall|j: int| 0 <= j < i ==> #[trigger] out@[j] == spec_slot(order@, j),
        decreases order@.len() - i,
    {
        let kind = order[i];
        let k = counters[kind as usize];
        out.push((kind, k));
        counters.set(kind as usize, k + 1);
        i += 1;
        assert forall|q: int| 0 <= q < 13 implies #[trigger] counters@[q] == count_kind(order@, q as u8, i as int) by {
            assert(count_kind(order@, q as u8, i as int) == count_kind(order@, q as u8, i - 1) + if order@[i - 1] == q as u8 { 1nat } else { 0nat });
        }
    }
    out
}

/// Record ordinals (1-based) of the pads, in record order.
pub open spec fn spec_pad_ordinals(order: Seq<u8>) -> Seq<usize>
    decreases order.len(),
{
    if order.len() == 0 {
        seq![]
    } else {
        spec_pad_ordinals(order.drop_last()) + if order.last() == 2 {
            seq![order.len() as usize]
        } else {
            seq![]
        }
    }
}

/// Record ordinal (1-based) of every pad, by pad list index.
pub fn pad_ordinals(order: &[u8]) -> (r: Vec<usize>)
    requires
        kinds_in_range(order@),
    ensures
        r@ == spec_pad_ordinals(order@),
{
    let slots = record_slots(order);
    let mut out: Vec<usize> = Vec::new();
    let mut i: usize = 0;
    while i < slots.len()
        invariant
            slots@.len() == order@.len(),
            forall|j: int| 0 <= j < order@.len() ==> #[trigger] slots@[j] == spec_slot(order@, j),
            i <= order@.len(),
            out@ == spec_pad_ordinals(order@.take(i as int)),
        decreases order@.len() - i,
    {
        assert(order@.take(i + 1).drop_last() =~= order@.take(i as int));
        if slots[i].0 == 2 {
            out.push(i + 1);
        }
        i += 1;
        assert(out@ =~= spec_pad_ordinals(order@.take(i as int)));
    }
    assert(order@.take(order@.len() as int) =~= order@);
    out
}

// ---------------------------------------------------------------------------
// Fresh identities

/// Nanoseconds since the Unix epoch on the system clock (0 when the clock
/// reads before the epoch). Nothing is promised of the value.
#[verifier::external_body]
fn clock_nanos() -> u64 {
    std::time::SystemTime::now().duration_since(std::time::UNIX_EPOCH).map(|d| d.as_nanos() as u64).unwrap_or(0)
}

/// `RandomState::hash_one` on a freshly seeded `RandomState`: random bits
/// that differ from process to process. Nothing is promised of the value.
#[verifier::external_body]
fn random_hash(t: u64) -> u64 {
    std::hash::RandomState::new().hash_one(t)
}

/// Random bits: the clock reading hashed with a fresh random seed.
pub fn random_u64() -> u64 {
    let t = clock_nanos();
    random_hash(t)
}

/// The eight little-endian bytes of a `u64`.
pub open spec fn le64(x: int) -> Seq<u8> {
    Seq::new(8, |i: int| ((x / pow256(i)) % 256) as u8)
}

pub open spec fn pow256(i: int) -> int
    decreases i,
{
    if i <= 0 {
        1
    } else {
        256 * pow256(i - 1)
    }
}

fn le64_bytes(x: u64) -> (r: Vec<u8>)
    ensures
        r@ == le64(x as int),
{
    let mut r: Vec<u8> = Vec::new();
    let mut y: u64 = x;
    let mut i: usize = 0;
    while i < 8
        invariant
            i <= 8,
            r@.len() == i,
            y == x as int / pow256(i as int),
            forall|k: int| 0 <= k < i ==> #[trigger] r@[k] == ((x as int / pow256(k)) % 256) as u8,
        decreases 8 - i,
    {
        r.push((y % 256) as u8);
        proof {
            assert(pow256(i + 1) == 256 * pow256(i as int));
            assert(pow256(i as int) > 0) by {
                lemma_pow256_pos(i as int);
            }
            vstd::arithmetic::div_mod::lemma_div_denominator(x as int, pow256(i as int), 256);
            assert(pow256(i as int) * 256 == 256 * pow256(i as int)) by (nonlinear_arith);
        }
        y = y / 256;
        i += 1;
    }
    assert(r@ =~= le64(x as int));
    r
}

pub proof fn lemma_pow256_pos(i: int)
    ensures
        pow256(i) > 0,
    decreases i,
{
    if i > 0 {
        lemma_pow256_pos(i - 1);
    }
}

/// The 16 stored bytes of a version-4 GUID drawn from two random words:
/// the version nibble sits in the byte printed first in the third group,
/// the variant bits in the byte printed first in the fourth.
pub open spec fn guid_v4_bytes(r1: u64, r2: u64) -> Seq<u8> {
    let b = le64(r1 as int) + le64(r2 as int);
    b.update(7, (b[7] & 0x0f) | 0x40).update(8, (b[8] & 0x3f) | 0x80)
}

/// The GUID text of a version-4 GUID drawn from two random words.
pub fn guid_from_random(r1: u64, r2: u64) -> (s: String)
    ensures
        s@ == guid_text(guid_v4_bytes(r1, r2)),
        s@[15] == '4',
        s@[20] == '8' || s@[20] == '9' || s@[20] == 'A' || s@[20] == 'B',
{
    let a = le64_bytes(r1);
    let b = le64_bytes(r2);
    let a7 = a[7];
    let b0 = b[0];
    let b7 = (a7 & 0x0f) | 0x40;
    let b8 = (b0 & 0x3f) | 0x80;
    let arr: [u8; 16] = [a[0], a[1], a[2], a[3], a[4], a[5], a[6], b7, b8, b[1], b[2], b[3], b[4], b[5], b[6], b[7]];
    assert(arr@ =~= guid_v4_bytes(r1, r2));
    assert(b7 / 16 == 4 && 8 <= b8 / 16 <= 11) by (bit_vector)
        requires
            b7 == (a7 & 0x0f) | 0x40,
            b8 == (b0 & 0x3f) | 0x80,
    ;
    let s = format_guid(&arr);
    assert(guid_text(arr@)[15] == hex2(arr@[7])[0]);
    assert(guid_text(arr@)[20] == hex2(arr@[8])[0]);
    s
}

/// A fresh `{8-4-4-4-12}` GUID (random, version 4 layout).
pub fn new_guid() -> (s: String)
    ensures
        exists|r1: u64, r2: u64| s@ == guid_text(guid_v4_bytes(r1, r2)),
        s@[15] == '4',
        s@[20] == '8' || s@[20] == '9' || s@[20] == 'A' || s@[20] == 'B',
{
    let r1 = random_u64();
    let r2 = random_u64();
    guid_from_random(r1, r2)
}

/// Eight letters `A`..`Z` spelling the base-26 digits of `r`, least
/// significant first.
pub open spec fn unique_id_letters(r: nat, n: nat) -> Seq<char>
    decreases n,
{
    if n == 0 {
        seq![]
    } else {
        seq![((65 + r % 26) as u32) as char] + unique_id_letters(r / 26, (n - 1) as nat)
    }
}

/// The eight-letter unique id drawn from random bits.
pub fn unique_id_from_random(r: u64) -> (s: String)
    ensures
        s@ == unique_id_letters(r as nat, 8),
{
    let mut s = String::new();
    let mut x: u64 = r;
    let mut i: usize = 0;
    while i < 8
        invariant
            i <= 8,
            s@ + unique_id_letters(x as nat, (8 - i) as nat) == unique_id_letters(r as nat, 8),
        decreases 8 - i,
    {
        let c = ((65 + x % 26) as u8) as char;
        let ghost before = s@;
        push_char(&mut s, c);
        assert(unique_id_letters(x as nat, (8 - i) as nat) == seq![c] + unique_id_letters((x / 26) as nat, (8 - i - 1) as nat));
        assert(before + (seq![c] + unique_id_letters((x / 26) as nat, (8 - i - 1) as nat)) =~= s@ + unique_id_letters((x / 26) as nat, (8 - i - 1) as nat));
        x = x / 26;
        i += 1;
    }
    assert(s@ + Seq::<char>::empty() =~= s@);
    s
}

/// A fresh eight-letter unique id of the kind Altium gives pads.
pub fn new_unique_id() -> (s: String)
    ensures
        exists|r: u64| s@ == unique_id_letters(r as nat, 8),
{
    let r = random_u64();
    unique_id_from_random(r)
}

/// The text of a GUID parses back to it, in upper or lower case, and text
/// whose digits (trimmed, braces and dashes removed) are not 32 does not
/// parse.
pub proof fn lemma_guid_parse_laws(b: Seq<u8>, s: Seq<char>)
    requires
        b.len() == 16,
    ensures
        spec_parse_guid(guid_text(b)) == Some(b),
        spec_parse_guid(lower_seq(guid_text(b))) == Some(b),
        guid_digits(s).len() != 32 ==> spec_parse_guid(s) is None,
{
    lemma_guid_round_trip(b);
    lemma_guid_lower_case(b);
}


} // verus!
