//! Pieces of the PCB reader that work on stream contents: parameter-record
//! streams, wide-string tables, section keys and the board's raw entries.

use vstd::prelude::*;

use vstd::string::StringSliceAdditionalSpecFns;

use crate::bytes::{read_u16, read_u32, u16_le, u32_le};
use crate::encoding::decode;
use crate::parameter::{parse_block, ParameterMap};
use crate::text::{
    all_digits, chars_of, dec, digits_value, has_sign, join_with, lemma_split_join, numeral_body, parse_int,
    parse_u64_chars, push_char, split_chars, split_on,
};

verus! {

// ---------------------------------------------------------------------------
// Small text helpers

/// The bytes before the first NUL.
pub open spec fn before_nul(b: Seq<u8>) -> Seq<u8>
    decreases b.len(),
{
    if b.len() == 0 {
        b
    } else if crate::parameter::first_pos(b, 0u8) is Some {
        b.subrange(0, crate::parameter::first_pos(b, 0u8)->0)
    } else {
        b
    }
}

/// The bytes before the first NUL.
pub fn strip_nulls(buf: &[u8]) -> (r: Vec<u8>)
    ensures
        r@ == before_nul(buf@),
{
    let mut i: usize = 0;
    while i < buf.len()
        invariant
            i <= buf@.len(),
            crate::parameter::first_pos(buf@.take(i as int), 0u8) is None,
        decreases buf@.len() - i,
    {
        assert(buf@.take(i + 1).drop_last() =~= buf@.take(i as int));
        if buf[i] == 0 {
            proof {
                lemma_first_pos_prefix_zero(buf@, i + 1);
            }
            return vstd::slice::slice_to_vec(&buf[0..i]);
        }
        i += 1;
    }
    assert(buf@.take(buf@.len() as int) =~= buf@);
    vstd::slice::slice_to_vec(buf)
}

proof fn lemma_first_pos_prefix_zero(f: Seq<u8>, n: int)
    requires
        0 <= n <= f.len(),
        crate::parameter::first_pos(f.take(n), 0u8) is Some,
    ensures
        crate::parameter::first_pos(f, 0u8) == crate::parameter::first_pos(f.take(n), 0u8),
    decreases f.len() - n,
{
    if n < f.len() {
        assert(f.take(n + 1).drop_last() =~= f.take(n));
        lemma_first_pos_prefix_zero(f, n + 1);
    } else {
        assert(f.take(n) =~= f);
    }
}

/// `s` with every `/` replaced by `_`.
pub open spec fn slash_to_underscore(s: Seq<char>) -> Seq<char> {
    s.map_values(|c: char| if c == '/' { '_' } else { c })
}

/// The storage key of a footprint name: its first 31 bytes, with `/`
/// replaced by `_`.
pub open spec fn spec_section_key(name: &str) -> Seq<char> {
    let b = name.spec_bytes();
    let kept = if b.len() > 31 {
        vstd::utf8::decode_utf8(b.subrange(0, 31))
    } else {
        name@
    };
    slash_to_underscore(kept)
}

/// The storage key of a footprint name: its first 31 bytes (the name must
/// not split a character there), with `/` replaced by `_`.
pub fn section_key_from_name(name: &str) -> (r: String)
    requires
        name.spec_bytes().len() > 31 ==> vstd::utf8::is_char_boundary(name.spec_bytes(), 31),
    ensures
        r@ == spec_section_key(name),
{
    let nb = name.as_bytes();
    assert(nb@.len() == nb.len());
    let kept: &str = if nb.len() > 31 {
        let (a, _b) = name.split_at(31);
        proof {
            vstd::utf8::encode_utf8_decode_utf8(a@);
            assert(a.spec_bytes() == vstd::utf8::encode_utf8(a@));
            assert(a@ == vstd::utf8::decode_utf8(name.spec_bytes().subrange(0, 31)));
        }
        a
    } else {
        name
    };
    assert(kept@ == if name.spec_bytes().len() > 31 {
        vstd::utf8::decode_utf8(name.spec_bytes().subrange(0, 31))
    } else {
        name@
    });
    let c = chars_of(kept);
    let mut out = String::new();
    let mut i: usize = 0;
    while i < c.len()
        invariant
            i <= c@.len(),
            out@ == slash_to_underscore(c@.take(i as int)),
        decreases c@.len() - i,
    {
        push_char(&mut out, if c[i] == '/' { '_' } else { c[i] });
        i += 1;
        assert(out@ =~= slash_to_underscore(c@.take(i as int)));
    }
    assert(c@.take(c@.len() as int) =~= c@);
    out
}

// ---------------------------------------------------------------------------
// Wide strings

/// Whether a number is a Unicode scalar value.
pub open spec fn is_scalar(u: u32) -> bool {
    u <= 0x10FFFF && !(0xD800 <= u <= 0xDFFF)
}

/// `char::from_u32`: the character of a Unicode scalar value, `None` for any
/// other number.
#[verifier::external_body]
fn char_from_u32(u: u32) -> (r: Option<char>)
    ensures
        match r {
            Some(c) => is_scalar(u) && c as u32 == u,
            None => !is_scalar(u),
        },
{
    char::from_u32(u)
}

/// `str::parse::<u32>`.
pub open spec fn parse_u32(s: Seq<char>) -> Option<u32> {
    match parse_int(s, false) {
        Some(v) => if 0 <= v <= u32::MAX {
            Some(v as u32)
        } else {
            None
        },
        None => None,
    }
}

/// The characters of comma-separated code points: each field that is a
/// `u32` numeral of a Unicode scalar value gives its character, any other
/// field is dropped.
pub open spec fn decoded_fields(fields: Seq<Seq<char>>) -> Seq<char>
    decreases fields.len(),
{
    if fields.len() == 0 {
        seq![]
    } else {
        let rest = decoded_fields(fields.drop_last());
        match parse_u32(fields.last()) {
            Some(u) => if is_scalar(u) {
                rest.push(u as char)
            } else {
                rest
            },
            None => rest,
        }
    }
}

/// The text of an `ENCODEDTEXT` value: comma-separated code points.
pub open spec fn spec_decode_wide_string(encoded: Seq<char>) -> Seq<char> {
    decoded_fields(split_on(encoded, ','))
}

/// The `ENCODEDTEXT` form of a text: the decimal code point of each
/// character, joined by commas.
pub open spec fn spec_encode_wide_string(s: Seq<char>) -> Seq<char> {
    join_with(s.map_values(|c: char| dec(c as u32 as nat)), ',')
}

proof fn lemma_decode_fields(s: Seq<char>)
    ensures
        decoded_fields(s.map_values(|c: char| dec(c as u32 as nat))) == s,
    decreases s.len(),
{
    if s.len() > 0 {
        let f = s.map_values(|c: char| dec(c as u32 as nat));
        assert(f.drop_last() =~= s.drop_last().map_values(|c: char| dec(c as u32 as nat)));
        lemma_decode_fields(s.drop_last());
        let c = s.last();
        let n = c as u32 as nat;
        crate::binary::lemma_dec_digits(n);
        crate::binary::lemma_dec_chars(n);
        vstd::utf8::char_is_scalar(c);
        vstd::utf8::char_u32_cast(c, c as u32);
        assert(f.last() == dec(n));
        assert('0' <= dec(n)[0] <= '9');
        assert(!has_sign(dec(n), false));
        assert(parse_int(dec(n), false) == Some(n as int));
        assert(numeral_body(dec(n), false) == dec(n));
        assert(parse_u32(dec(n)) == Some(c as u32));
        assert(is_scalar(c as u32));
        assert((c as u32) as char == c);
        assert(s.drop_last().push(c) =~= s);
    }
}

/// Decoding the `ENCODEDTEXT` form of a text gives the text back.
pub proof fn lemma_wide_string_round_trip(s: Seq<char>)
    ensures
        spec_decode_wide_string(spec_encode_wide_string(s)) == s,
{
    let f = s.map_values(|c: char| dec(c as u32 as nat));
    if s.len() == 0 {
        assert(f =~= Seq::<Seq<char>>::empty());
        assert(spec_encode_wide_string(s) =~= Seq::<char>::empty());
        let e = Seq::<char>::empty();
        assert(split_on(e, ',') == seq![e]);
        assert(seq![e].drop_last() =~= Seq::<Seq<char>>::empty());
        assert(!has_sign(e, false));
        assert(numeral_body(e, false) == e);
        assert(parse_int(e, false) is None);
        assert(parse_u32(e) is None);
        assert(seq![e].last() == e);
        assert(decoded_fields(seq![e].drop_last()) =~= Seq::<char>::empty());
        assert(decoded_fields(seq![e]) =~= s);
    } else {
        assert forall|i: int, j: int| 0 <= i < f.len() && 0 <= j < f[i].len() implies #[trigger] f[i][j] != ',' by {
            crate::binary::lemma_dec_chars(s[i] as u32 as nat);
            assert('0' <= dec(s[i] as u32 as nat)[j] <= '9');
        }
        lemma_split_join(f, ',');
        lemma_decode_fields(s);
    }
}

/// The text of an `ENCODEDTEXT` value: comma-separated code points, fields
/// that are not a code point dropped.
pub fn decode_wide_string(encoded: &str) -> (r: String)
    ensures
        r@ == spec_decode_wide_string(encoded@),
{
    let c = chars_of(encoded);
    let fields = split_chars(&c, ',');
    let ghost fs = split_on(encoded@, ',');
    let mut out = String::new();
    let mut i: usize = 0;
    while i < fields.len()
        invariant
            i <= fields@.len(),
            fields@.len() == fs.len(),
            forall|k: int| 0 <= k < fields@.len() ==> (#[trigger] fields@[k])@ == fs[k],
            out@ == decoded_fields(fs.take(i as int)),
        decreases fields@.len() - i,
    {
        assert(fs.take(i + 1).drop_last() =~= fs.take(i as int));
        assert(fields@[i as int]@ == fs[i as int]);
        if let Some(v) = parse_u64_chars(fields[i].as_slice()) {
            if v <= 0xFFFF_FFFF {
                if let Some(ch) = char_from_u32(v as u32) {
                    proof {
                        vstd::utf8::char_u32_cast(ch, v as u32);
                    }
                    push_char(&mut out, ch);
                }
            }
        }
        i += 1;
    }
    assert(fs.take(fields@.len() as int) =~= fs);
    out
}

// ---------------------------------------------------------------------------
// Parameter-record streams

/// The size word at `p`: its low 24 bits.
pub open spec fn size_at(d: Seq<u8>, p: int) -> int {
    u32_le(d, p) % 0x100_0000
}

/// Whether a size word at `p` describes a plausible parameter block: non-empty,
/// under 1 MiB, and inside the stream.
pub open spec fn plausible_block(d: Seq<u8>, p: int) -> bool {
    p + 4 <= d.len() && 0 < size_at(d, p) < 0x10_0000 && p + 4 + size_at(d, p) <= d.len()
}

/// The per-record header padding of a parameter-record stream: `0` when the
/// first record starts with a plausible size word, `2` when one follows a
/// 2-byte version word, else `0`.
pub open spec fn spec_record_prefix(d: Seq<u8>) -> usize {
    if plausible_block(d, 0) {
        0
    } else if plausible_block(d, 2) {
        2
    } else {
        0
    }
}

fn plausible_block_exec(d: &[u8], p: usize) -> (r: bool)
    requires
        p <= 2,
    ensures
        r == plausible_block(d@, p as int),
{
    match read_u32(d, p) {
        Some(w) => {
            let size = (w % 0x100_0000) as usize;
            size > 0 && size < 0x10_0000 && d.len() - p - 4 >= size
        },
        None => false,
    }
}

/// The per-record header padding of a parameter-record stream (`0` for
/// plain blocks, `2` when each record carries a 2-byte version word in front
/// of its size word).
pub fn detect_record_prefix(data: &[u8]) -> (r: usize)
    ensures
        r == spec_record_prefix(data@),
{
    if plausible_block_exec(data, 0) {
        0
    } else if plausible_block_exec(data, 2) {
        2
    } else {
        0
    }
}

/// The records of a parameter-record stream from `pos` on: each an optional
/// 2-byte prefix word, a size word (low 24 bits) and a block whose text up
/// to the first NUL is a parameter block. Empty blocks and empty maps are
/// skipped; a block cut off ends the stream.
pub open spec fn param_records_from(d: Seq<u8>, prefix: int, pos: int) -> Seq<(u16, crate::parameter::Entries)>
    decreases d.len() - pos,
{
    if pos < 0 || pos + prefix + 4 > d.len() || prefix < 0 {
        seq![]
    } else {
        let word: u16 = if prefix == 2 {
            u16_le(d, pos) as u16
        } else {
            0
        };
        let p = pos + prefix;
        let size = size_at(d, p);
        let start = p + 4;
        if size == 0 {
            param_records_from(d, prefix, start)
        } else if start + size > d.len() {
            seq![]
        } else {
            let m = parse_block(before_nul(d.subrange(start, start + size)), 124u8);
            let rest = param_records_from(d, prefix, start + size);
            if m.len() == 0 {
                rest
            } else {
                seq![(word, m)] + rest
            }
        }
    }
}

/// The records of a parameter-record stream, each with its prefix word
/// (`0` when there is none) and its parameter map.
pub fn parse_param_records(data: &[u8], prefix: usize) -> (r: Vec<(u16, ParameterMap)>)
    requires
        prefix == 0 || prefix == 2,
    ensures
        r@.map_values(|e: (u16, ParameterMap)| (e.0, e.1@)) == param_records_from(data@, prefix as int, 0),
        forall|i: int| 0 <= i < r@.len() ==> (#[trigger] r@[i]).1.wf(),
{
    let mut out: Vec<(u16, ParameterMap)> = Vec::new();
    let mut pos: usize = 0;
    let ghost all = param_records_from(data@, prefix as int, 0);
    loop
        invariant
            prefix == 0 || prefix == 2,
            data@.len() == data.len(),
            pos <= data@.len(),
            all == out@.map_values(|e: (u16, ParameterMap)| (e.0, e.1@)) + param_records_from(
                data@,
                prefix as int,
                pos as int,
            ),
            forall|i: int| 0 <= i < out@.len() ==> (#[trigger] out@[i]).1.wf(),
        ensures
            all == out@.map_values(|e: (u16, ParameterMap)| (e.0, e.1@)),
            forall|i: int| 0 <= i < out@.len() ==> (#[trigger] out@[i]).1.wf(),
        decreases data@.len() - pos,
    {
        if data.len() - pos < prefix + 4 {
            assert(all =~= out@.map_values(|e: (u16, ParameterMap)| (e.0, e.1@)));
            break;
        }
        let word: u16 = if prefix == 2 {
            read_u16(data, pos).unwrap()
        } else {
            0
        };
        let p = pos + prefix;
        let size = (read_u32(data, p).unwrap() % 0x100_0000) as usize;
        let start = p + 4;
        if size == 0 {
            pos = start;
            continue;
        }
        if data.len() - start < size {
            assert(all =~= out@.map_values(|e: (u16, ParameterMap)| (e.0, e.1@)));
            break;
        }
        let body = strip_nulls(&data[start..start + size]);
        let m = ParameterMap::parse_bytes(body.as_slice(), 124u8);
        pos = start + size;
        if m.len() > 0 {
            let ghost before = out@.map_values(|e: (u16, ParameterMap)| (e.0, e.1@));
            out.push((word, m));
            assert(out@.map_values(|e: (u16, ParameterMap)| (e.0, e.1@)) =~= before.push((word, m@)));
        }
    }
    out
}

// ---------------------------------------------------------------------------
// Board entries

/// The entries of a `|`-separated text: each field holding `=` gives the
/// text before it and after it; duplicates are kept.
pub open spec fn board_entries(fields: Seq<Seq<char>>) -> crate::parameter::Entries
    decreases fields.len(),
{
    if fields.len() == 0 {
        seq![]
    } else {
        let rest = board_entries(fields.drop_last());
        let f = fields.last();
        match first_char(f, '=') {
            Some(i) => rest.push((f.subrange(0, i), f.subrange(i + 1, f.len() as int))),
            None => rest,
        }
    }
}

/// The first position of `c` in `s`.
pub open spec fn first_char(s: Seq<char>, c: char) -> Option<int>
    decreases s.len(),
{
    if s.len() == 0 {
        None
    } else {
        match first_char(s.drop_last(), c) {
            Some(i) => Some(i),
            None => if s.last() == c {
                Some(s.len() - 1)
            } else {
                None
            },
        }
    }
}

fn find_char(s: &[char], c: char) -> (r: Option<usize>)
    ensures
        match r {
            Some(i) => first_char(s@, c) == Some(i as int) && i < s@.len(),
            None => first_char(s@, c) is None,
        },
{
    let mut i: usize = 0;
    while i < s.len()
        invariant
            i <= s@.len(),
            first_char(s@.take(i as int), c) is None,
        decreases s@.len() - i,
    {
        assert(s@.take(i + 1).drop_last() =~= s@.take(i as int));
        if s[i] == c {
            proof {
                lemma_first_char_prefix(s@, c, i + 1);
            }
            return Some(i);
        }
        i += 1;
    }
    assert(s@.take(s@.len() as int) =~= s@);
    None
}

proof fn lemma_first_char_prefix(s: Seq<char>, c: char, n: int)
    requires
        0 <= n <= s.len(),
        first_char(s.take(n), c) is Some,
    ensures
        first_char(s, c) == first_char(s.take(n), c),
    decreases s.len() - n,
{
    if n < s.len() {
        assert(s.take(n + 1).drop_last() =~= s.take(n));
        lemma_first_char_prefix(s, c, n + 1);
    } else {
        assert(s.take(n) =~= s);
    }
}

/// The entries of the board's parameter text, in order and with duplicates
/// (its repeated `RECORD=Board` markers matter).
pub fn board_pairs(raw: &str) -> (r: Vec<(String, String)>)
    ensures
        r@.map_values(|p: (String, String)| (p.0@, p.1@)) == board_entries(split_on(raw@, '|')),
{
    let c = chars_of(raw);
    let fields = split_chars(&c, '|');
    let ghost fs = split_on(raw@, '|');
    let mut out: Vec<(String, String)> = Vec::new();
    let mut i: usize = 0;
    while i < fields.len()
        invariant
            i <= fields@.len(),
            fields@.len() == fs.len(),
            forall|k: int| 0 <= k < fields@.len() ==> (#[trigger] fields@[k])@ == fs[k],
            out@.map_values(|p: (String, String)| (p.0@, p.1@)) == board_entries(fs.take(i as int)),
        decreases fields@.len() - i,
    {
        assert(fs.take(i + 1).drop_last() =~= fs.take(i as int));
        let f = fields[i].as_slice();
        assert(f@ == fs[i as int]);
        if let Some(eq) = find_char(f, '=') {
            assert(f@.len() == f.len());
            let k = crate::text::string_from_chars(&f[0..eq]);
            let v = crate::text::string_from_chars(&f[eq + 1..f.len()]);
            let ghost before = out@.map_values(|p: (String, String)| (p.0@, p.1@));
            out.push((k, v));
            assert(out@.map_values(|p: (String, String)| (p.0@, p.1@)) =~= before.push(
                (f@.subrange(0, eq as int), f@.subrange(eq + 1, f@.len() as int)),
            ));
        }
        i += 1;
    }
    assert(fs.take(fields@.len() as int) =~= fs);
    out
}

// ---------------------------------------------------------------------------
// The binary wide-string table of a document

pub open spec fn is_high_surrogate(u: u16) -> bool {
    0xD800 <= u <= 0xDBFF
}

pub open spec fn is_low_surrogate(u: u16) -> bool {
    0xDC00 <= u <= 0xDFFF
}

/// The code point of a surrogate pair.
pub open spec fn pair_code(hi: u16, lo: u16) -> u32 {
    (0x10000 + (hi - 0xD800) * 0x400 + (lo - 0xDC00)) as u32
}

/// `String::from_utf16_lossy`: surrogate pairs combine into one character,
/// an unpaired surrogate becomes U+FFFD, any other unit is its own character.
pub open spec fn utf16_lossy(u: Seq<u16>) -> Seq<char>
    decreases u.len(),
{
    if u.len() == 0 {
        seq![]
    } else if u.len() >= 2 && is_high_surrogate(u[0]) && is_low_surrogate(u[1]) {
        seq![pair_code(u[0], u[1]) as char] + utf16_lossy(u.skip(2))
    } else if 0xD800 <= u[0] <= 0xDFFF {
        seq!['\u{FFFD}'] + utf16_lossy(u.skip(1))
    } else {
        seq![(u[0] as u32) as char] + utf16_lossy(u.skip(1))
    }
}

fn scalar_char(v: u32) -> (c: char)
    requires
        is_scalar(v),
    ensures
        c == v as char,
{
    match char_from_u32(v) {
        Some(c) => {
            proof {
                vstd::utf8::char_u32_cast(c, v);
            }
            c
        },
        None => '\u{FFFD}',
    }
}

/// Decodes UTF-16 code units, replacing unpaired surrogates with U+FFFD.
pub fn decode_utf16_lossy(u: &[u16]) -> (r: String)
    ensures
        r@ == utf16_lossy(u@),
{
    let mut out = String::new();
    let mut i: usize = 0;
    assert(u@.skip(0) =~= u@);
    while i < u.len()
        invariant
            i <= u@.len(),
            utf16_lossy(u@) == out@ + utf16_lossy(u@.skip(i as int)),
        decreases u@.len() - i,
    {
        let ghost before = out@;
        let ghost rest = u@.skip(i as int);
        let a = u[i];
        assert(rest[0] == a);
        if i + 1 < u.len() && 0xD800 <= a && a <= 0xDBFF && 0xDC00 <= u[i + 1] && u[i + 1] <= 0xDFFF {
            let b = u[i + 1];
            assert(rest[1] == b);
            let v: u32 = 0x10000 + ((a - 0xD800) as u32) * 0x400 + ((b - 0xDC00) as u32);
            assert(v == pair_code(a, b));
            push_char(&mut out, scalar_char(v));
            assert(rest.skip(2) =~= u@.skip(i + 2));
            i += 2;
        } else {
            if 0xD800 <= a && a <= 0xDFFF {
                push_char(&mut out, '\u{FFFD}');
            } else {
                push_char(&mut out, scalar_char(a as u32));
            }
            assert(rest.skip(1) =~= u@.skip(i + 1));
            i += 1;
        }
        assert(out@ + utf16_lossy(u@.skip(i as int)) =~= before + utf16_lossy(rest));
    }
    assert(utf16_lossy(u@.skip(i as int)) =~= Seq::<char>::empty());
    assert(out@ + Seq::<char>::empty() =~= out@);
    out
}

/// The little-endian code units of a byte run (a trailing odd byte is
/// dropped).
pub open spec fn units_of(b: Seq<u8>) -> Seq<u16> {
    Seq::new(b.len() / 2, |k: int| (b[2 * k] as int + b[2 * k + 1] as int * 256) as u16)
}

fn units(b: &[u8]) -> (r: Vec<u16>)
    ensures
        r@ == units_of(b@),
{
    let mut r: Vec<u16> = Vec::new();
    let mut k: usize = 0;
    let n = b.len() / 2;
    while k < n
        invariant
            k <= n,
            n == b@.len() / 2,
            b@.len() == b.len(),
            r@ == units_of(b@).take(k as int),
        decreases n - k,
    {
        r.push((b[2 * k] as u16) + (b[2 * k + 1] as u16) * 256);
        k += 1;
        assert(r@ =~= units_of(b@).take(k as int));
    }
    assert(units_of(b@).take(n as int) =~= units_of(b@));
    r
}

/// `t` placed at `index` of `acc`, which grows with empty strings to reach it.
pub open spec fn place(acc: Seq<Seq<char>>, index: int, t: Seq<char>) -> Seq<Seq<char>> {
    let grown = if index >= acc.len() {
        acc + Seq::new((index + 1 - acc.len()) as nat, |k: int| Seq::<char>::empty())
    } else {
        acc
    };
    grown.update(index, t)
}

/// The table from `pos` on, entries `[u32 index][u32 byte len][UTF-16LE text
/// with a 2-byte terminator]` placed into `acc`; a length of 2 or less is
/// an empty string without bytes, a text cut off ends the table.
pub open spec fn wide_table_from(d: Seq<u8>, pos: int, acc: Seq<Seq<char>>) -> Seq<Seq<char>>
    decreases d.len() - pos,
{
    if pos < 0 || pos + 8 > d.len() {
        acc
    } else {
        let index = u32_le(d, pos);
        let len = u32_le(d, pos + 4);
        let p = pos + 8;
        if len <= 2 {
            wide_table_from(d, p, place(acc, index, seq![]))
        } else if p + len > d.len() {
            acc
        } else {
            wide_table_from(d, p + len, place(acc, index, utf16_lossy(units_of(d.subrange(p, p + len - 2)))))
        }
    }
}

fn place_exec(acc: &mut Vec<String>, index: usize, t: String)
    ensures
        final(acc)@.map_values(|s: String| s@) == place(old(acc)@.map_values(|s: String| s@), index as int, t@),
{
    let ghost start = acc@.map_values(|s: String| s@);
    while acc.len() <= index
        invariant
            start.len() <= acc@.len(),
            acc@.len() <= if start.len() > index { start.len() } else { (index + 1) as nat },
            acc@.map_values(|s: String| s@) == start + Seq::new(
                (acc@.len() - start.len()) as nat,
                |k: int| Seq::<char>::empty(),
            ),
        decreases index + 1 - acc@.len(),
    {
        let ghost before = acc@.map_values(|s: String| s@);
        let e = String::new();
        assert(e@ == Seq::<char>::empty());
        acc.push(e);
        assert(acc@.map_values(|s: String| s@) =~= before.push(Seq::<char>::empty()));
        assert(acc@.map_values(|s: String| s@) =~= start + Seq::new(
            (acc@.len() - start.len()) as nat,
            |k: int| Seq::<char>::empty(),
        ));
    }
    let ghost grown = acc@.map_values(|s: String| s@);
    assert(grown =~= if index >= start.len() {
        start + Seq::new((index + 1 - start.len()) as nat, |k: int| Seq::<char>::empty())
    } else {
        start
    });
    acc.set(index, t);
    assert(acc@.map_values(|s: String| s@) =~= grown.update(index as int, t@));
}

/// The strings of a document's binary wide-string table, each at its index
/// (gaps are empty strings).
pub fn wide_table(d: &[u8]) -> (r: Vec<String>)
    ensures
        r@.map_values(|s: String| s@) == wide_table_from(d@, 0, seq![]),
{
    let mut out: Vec<String> = Vec::new();
    let mut pos: usize = 0;
    let ghost all = wide_table_from(d@, 0, seq![]);
    assert(out@.map_values(|s: String| s@) =~= Seq::<Seq<char>>::empty());
    loop
        invariant
            pos <= d@.len(),
            d@.len() == d.len(),
            all == wide_table_from(d@, pos as int, out@.map_values(|s: String| s@)),
        ensures
            all == out@.map_values(|s: String| s@),
        decreases d@.len() - pos,
    {
        if d.len() - pos < 8 {
            break;
        }
        let index = read_u32(d, pos).unwrap() as usize;
        let len = read_u32(d, pos + 4).unwrap() as usize;
        let p = pos + 8;
        if len <= 2 {
            place_exec(&mut out, index, String::new());
            pos = p;
        } else {
            if d.len() - p < len {
                break;
            }
            let u = units(&d[p..p + len - 2]);
            let t = decode_utf16_lossy(u.as_slice());
            place_exec(&mut out, index, t);
            pos = p + len;
        }
    }
    out
}

} // verus!
