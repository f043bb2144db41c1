//! Structural checks for a `.PcbLib`: the redundant tables Altium keeps next
//! to each footprint must agree with the records themselves.

use std::io::Read;

use vstd::prelude::*;

use crate::bytes::{read_u32, u32_le};
use crate::encoding::{decode, latin1};
use crate::text::{
    chars_of, dec, dec_int, parse_i64, parse_i64_chars, push_char, push_dec, push_dec_signed,
    push_str, trim, trim_chars,
};

verus! {

/// One finding of a library check.
#[derive(Debug, Clone, PartialEq, Eq)]
pub struct Problem {
    /// Footprint the finding belongs to, `None` for library-level ones.
    pub footprint: Option<String>,
    pub message: String,
}

/// The little-endian `u32` at `p`, if four bytes are there.
pub fn u32_at(b: &[u8], p: usize) -> (r: Option<u32>)
    ensures
        r matches Some(v) ==> p + 4 <= b@.len() && v == u32_le(b@, p as int),
        r is None ==> p + 4 > b@.len(),
{
    read_u32(b, p)
}

/// `b` without one trailing NUL.
pub open spec fn strip_nul(b: Seq<u8>) -> Seq<u8> {
    if b.len() > 0 && b.last() == 0 {
        b.drop_last()
    } else {
        b
    }
}

/// The body of a `[u32 len][text\0]` block, when the block fits.
pub open spec fn spec_c_string_block(b: Seq<u8>) -> Option<Seq<u8>> {
    if b.len() < 4 || 4 + u32_le(b, 0) > b.len() {
        None
    } else {
        Some(strip_nul(b.subrange(4, 4 + u32_le(b, 0))))
    }
}

fn strip_nul_slice(b: &[u8]) -> (r: &[u8])
    ensures
        r@ == strip_nul(b@),
{
    if b.len() > 0 && b[b.len() - 1] == 0 {
        &b[0..b.len() - 1]
    } else {
        b
    }
}

/// The text of a `[u32 len][text\0]` block.
pub fn c_string_block(b: &[u8]) -> (r: Option<&[u8]>)
    ensures
        r matches Some(s) ==> spec_c_string_block(b@) == Some(s@),
        r is None ==> spec_c_string_block(b@) is None,
{
    let len = match u32_at(b, 0) {
        Some(v) => v as usize,
        None => return None,
    };
    if b.len() - 4 < len {
        return None;
    }
    Some(strip_nul_slice(&b[4..4 + len]))
}

/// Weight of byte `i` in the STEP checksum: 1 for the first byte, then the
/// position (modulo 2^32).
pub open spec fn step_weight(i: int) -> u32 {
    if i == 0 {
        1
    } else {
        i as u32
    }
}

/// The byte-position-weighted sum of the first `n` bytes.
pub open spec fn weighted_sum(b: Seq<u8>, n: int) -> int
    decreases n,
{
    if n <= 0 {
        0
    } else {
        weighted_sum(b, n - 1) + b[n - 1] as int * step_weight(n - 1) as int
    }
}

/// Altium's checksum of an embedded STEP payload: the byte-position-weighted
/// sum (weight 1 for the first byte) modulo 2^32, stored as a signed integer.
pub fn step_checksum(bytes: &[u8]) -> (c: i32)
    ensures
        c == (weighted_sum(bytes@, bytes@.len() as int) % 0x1_0000_0000) as u32 as i32,
{
    let mut sum: u32 = 0;
    let mut i: usize = 0;
    while i < bytes.len()
        invariant
            i <= bytes@.len(),
            sum == weighted_sum(bytes@, i as int) % 0x1_0000_0000,
        decreases bytes@.len() - i,
    {
        let w: u32 = if i == 0 {
            1
        } else {
            i as u32
        };
        let m = (bytes[i] as u32).wrapping_mul(w);
        let ghost old_sum = sum;
        sum = sum.wrapping_add(m);
        proof {
            let t = weighted_sum(bytes@, i as int);
            let x = bytes@[i as int] as int * w as int;
            assert(weighted_sum(bytes@, i + 1) == t + x);
            assert(m == x % 0x1_0000_0000);
            assert(sum == (old_sum + m) % 0x1_0000_0000);
            vstd::arithmetic::div_mod::lemma_add_mod_noop(t, x, 0x1_0000_0000);
        }
        i += 1;
    }
    sum as i32
}

/// Expected main-block length of a record type in Altium's current layout.
pub open spec fn spec_expected_len(kind: u8) -> Option<usize> {
    if kind == 1 {
        Some(60)
    } else if kind == 2 {
        Some(202)
    } else if kind == 4 {
        Some(49)
    } else if kind == 5 {
        Some(252)
    } else if kind == 6 {
        Some(50)
    } else {
        None
    }
}

pub fn expected_len(kind: u8) -> (r: Option<usize>)
    ensures
        r == spec_expected_len(kind),
{
    match kind {
        1 => Some(60),
        2 => Some(202),
        4 => Some(49),
        5 => Some(252),
        6 => Some(50),
        _ => None,
    }
}

/// Type code a `PrimitiveGuids` row must carry for a record type, where the
/// check knows one.
pub open spec fn spec_lint_guid_type_code(kind: u8) -> Option<u32> {
    if kind == 1 || kind == 2 || kind == 4 || kind == 5 {
        Some(kind as u32)
    } else if kind == 11 {
        Some(89)
    } else if kind == 12 {
        Some(90)
    } else {
        None
    }
}

pub fn guid_type_code(kind: u8) -> (r: Option<u32>)
    ensures
        r == spec_lint_guid_type_code(kind),
{
    match kind {
        1 | 2 | 4 | 5 => Some(kind as u32),
        11 => Some(89),
        12 => Some(90),
        _ => None,
    }
}

/// Whether `needle` occurs at `at` at the start of a `|`-separated field.
pub open spec fn field_match_at(s: Seq<u8>, needle: Seq<u8>, at: int) -> bool {
    0 <= at && at + needle.len() <= s.len() && s.subrange(at, at + needle.len() as int) == needle
        && (at == 0 || s[at - 1] == 124u8)
}

/// Index of the first `|` in `v`, or its length.
pub open spec fn field_end(v: Seq<u8>) -> int
    decreases v.len(),
{
    if v.len() == 0 {
        0
    } else if v[0] == 124u8 {
        0
    } else {
        1 + field_end(v.drop_first())
    }
}

/// The value of the first field of `s` that starts with `needle`.
#[verifier::opaque]
pub open spec fn spec_param_value(s: Seq<u8>, needle: Seq<u8>) -> Option<Seq<u8>> {
    if exists|at: int| field_match_at(s, needle, at) {
        let at = choose|at: int|
            field_match_at(s, needle, at) && forall|j: int| 0 <= j < at ==> !field_match_at(
                s,
                needle,
                j,
            );
        let v = s.skip(at + needle.len());
        Some(v.take(field_end(v)))
    } else {
        None
    }
}

/// The bytes of `key=` (keys are ASCII).
pub open spec fn key_needle(key: Seq<char>) -> Seq<u8> {
    crate::encoding::latin1_bytes(key) + seq![61u8]
}

fn field_end_exec(v: &[u8]) -> (e: usize)
    ensures
        e == field_end(v@),
        e <= v@.len(),
{
    let mut i: usize = 0;
    assert(v@.skip(0) =~= v@);
    while i < v.len() && v[i] != 124u8
        invariant
            i <= v@.len(),
            field_end(v@) == i + field_end(v@.skip(i as int)),
        decreases v@.len() - i,
    {
        assert(v@.skip(i as int).drop_first() =~= v@.skip(i + 1));
        i += 1;
    }
    proof {
        lemma_field_end_bound(v@);
    }
    i
}

proof fn lemma_field_end_bound(v: Seq<u8>)
    ensures
        0 <= field_end(v) <= v.len(),
    decreases v.len(),
{
    if v.len() > 0 && v[0] != 124u8 {
        lemma_field_end_bound(v.drop_first());
    }
}

fn matches_at_exec(s: &[u8], needle: &[u8], at: usize) -> (r: bool)
    requires
        at + needle@.len() <= s@.len(),
    ensures
        r == field_match_at(s@, needle@, at as int),
{
    if at > 0 && s[at - 1] != 124u8 {
        return false;
    }
    let mut i: usize = 0;
    while i < needle.len()
        invariant
            at + needle@.len() <= s@.len(),
            s@.len() == s.len(),
            needle@.len() == needle.len(),
            i <= needle@.len(),
            forall|k: int| 0 <= k < i ==> s@[at + k] == needle@[k],
        decreases needle@.len() - i,
    {
        if s[at + i] != needle[i] {
            assert(s@.subrange(at as int, at + needle@.len())[i as int] != needle@[i as int]);
            return false;
        }
        i += 1;
    }
    assert(s@.subrange(at as int, at + needle@.len()) =~= needle@);
    true
}

/// The value of the first `key=` field of a `|`-separated parameter block.
pub fn param_value<'a>(params: &'a [u8], key: &str) -> (r: Option<&'a [u8]>)
    ensures
        r matches Some(v) ==> spec_param_value(params@, key_needle(key@)) == Some(v@),
        r is None ==> spec_param_value(params@, key_needle(key@)) is None,
{
    reveal(spec_param_value);
    let mut needle = crate::encoding::encode(key);
    needle.push(61u8);
    assert(needle@ =~= key_needle(key@));
    if needle.len() > params.len() {
        assert(!exists|at: int| field_match_at(params@, needle@, at));
        proof {
            reveal(spec_param_value);
        }
        return None;
    }
    let last = params.len() - needle.len();
    let mut at: usize = 0;
    while at <= last
        invariant
            last + needle@.len() == params@.len(),
            params@.len() == params.len(),
            needle@.len() == needle.len(),
            needle@.len() >= 1,
            needle@ == key_needle(key@),
            forall|j: int| 0 <= j < at ==> !field_match_at(params@, needle@, j),
        decreases last + 1 - at,
    {
        if matches_at_exec(params, &needle, at) {
            let v = &params[at + needle.len()..params.len()];
            let e = field_end_exec(v);
            proof {
                reveal(spec_param_value);
                let c = choose|c: int|
                    field_match_at(params@, needle@, c) && forall|j: int| 0 <= j < c ==> !field_match_at(
                        params@,
                        needle@,
                        j,
                    );
                assert(field_match_at(params@, needle@, at as int));
                if c < at {
                } else if c > at {
                }
                assert(c == at);
                assert(v@ == params@.skip(at + needle@.len()));
                assert(v@.subrange(0, e as int) =~= v@.take(field_end(v@)));
                assert(spec_param_value(params@, needle@) == Some(v@.take(field_end(v@))));
            }
            return Some(&v[0..e]);
        }
        at += 1;
    }
    assert forall|j: int| !field_match_at(params@, needle@, j) by {
        if 0 <= j < at {
        }
    }
    proof {
        reveal(spec_param_value);
    }
    None
}

// ---------------------------------------------------------------------------
// Embedded models

/// The bytes that inflating a zlib stream gives, or `None` when the stream
/// does not inflate.
pub uninterp spec fn zlib_inflated(data: Seq<u8>) -> Option<Seq<u8>>;

/// Inflates a zlib stream with `flate2::read::ZlibDecoder` (`read_to_end`).
/// The contract names the outcome by `zlib_inflated`; the error message is
/// left unsaid.
#[verifier::external_body]
fn inflate_zlib(data: &[u8]) -> (r: Result<Vec<u8>, String>)
    ensures
        r matches Ok(v) ==> zlib_inflated(data@) == Some(v@),
        r is Err ==> zlib_inflated(data@) is None,
{
    let mut out = Vec::new();
    match flate2::read::ZlibDecoder::new(data).read_to_end(&mut out) {
        Ok(_) => Ok(out),
        Err(e) => Err(e.to_string()),
    }
}

/// `{:?}` of an `Option<i32>`.
pub open spec fn debug_opt_i32(v: Option<i32>) -> Seq<char> {
    match v {
        Some(x) => "Some("@ + dec_int(x as int) + ")"@,
        None => "None"@,
    }
}

/// The checksum a model record declares: its `CHECKSUM` field read as an
/// `i64` and truncated to `i32`.
pub open spec fn declared_checksum(rec: Seq<u8>) -> Option<i32> {
    match spec_param_value(rec, key_needle("CHECKSUM"@)) {
        Some(v) => match parse_i64(trim(latin1(v))) {
            Some(x) => Some(x as i32),
            None => None,
        },
        None => None,
    }
}

/// The name a model record declares (empty when it has none).
pub open spec fn declared_name(rec: Seq<u8>) -> Seq<char> {
    match spec_param_value(rec, key_needle("NAME"@)) {
        Some(v) => latin1(v),
        None => Seq::empty(),
    }
}

/// Whether a model record says its payload is embedded.
pub open spec fn declared_embedded(rec: Seq<u8>) -> bool {
    spec_param_value(rec, key_needle("EMBED"@)) == Some(seq![84u8, 82u8, 85u8, 69u8])
}

/// The problem found for model `i` once its payload was inflated: a checksum
/// mismatch is reported, a match is not.
pub open spec fn spec_inflated_model_problem(i: nat, rec: Seq<u8>, inflated: Seq<u8>) -> Option<Seq<char>> {
    let rec = strip_nul(rec);
    let got = (weighted_sum(inflated, inflated.len() as int) % 0x1_0000_0000) as u32 as i32;
    if declared_checksum(rec) == Some(got) {
        None
    } else {
        Some(
            "model "@ + dec(i) + " ("@ + declared_name(rec) + ") checksum is "@ + debug_opt_i32(
                declared_checksum(rec),
            ) + ", payload gives "@ + dec_int(got as int),
        )
    }
}

fn push_debug_opt_i32(out: &mut String, v: Option<i32>)
    ensures
        final(out)@ == old(out)@ + debug_opt_i32(v),
{
    match v {
        Some(x) => {
            push_str(out, "Some(");
            push_dec_signed(out, x as i64);
            push_str(out, ")");
        },
        None => push_str(out, "None"),
    }
}

fn checksum_of_record(rec: &[u8]) -> (r: Option<i32>)
    ensures
        r == declared_checksum(rec@),
{
    match param_value(rec, "CHECKSUM") {
        Some(v) => {
            let text = decode(v);
            let chars = chars_of(text.as_str());
            let t = trim_chars(&chars);
            match parse_i64_chars(&t) {
                Some(x) => Some(x as i32),
                None => None,
            }
        },
        None => None,
    }
}

/// The problem found for model `i` whose payload inflated to `inflated`.
pub fn inflated_model_problem(i: usize, record: &[u8], inflated: &[u8]) -> (r: Option<String>)
    ensures
        r matches Some(m) ==> spec_inflated_model_problem(i as nat, record@, inflated@) == Some(m@),
        r is None ==> spec_inflated_model_problem(i as nat, record@, inflated@) is None,
{
    let rec = strip_nul_slice(record);
    let expected = checksum_of_record(rec);
    let got = step_checksum(inflated);
    match expected {
        Some(e) => {
            if e == got {
                return None;
            }
        },
        None => {},
    }
    let mut m = String::new();
    push_str(&mut m, "model ");
    push_dec(&mut m, i as u64);
    push_str(&mut m, " (");
    match param_value(rec, "NAME") {
        Some(v) => {
            let name = decode(v);
            push_str(&mut m, name.as_str());
        },
        None => {},
    }
    push_str(&mut m, ") checksum is ");
    push_debug_opt_i32(&mut m, expected);
    push_str(&mut m, ", payload gives ");
    push_dec_signed(&mut m, got as i64);
    Some(m)
}

/// Whether the `EMBED` field of a model record is `TRUE`.
fn is_embedded(rec: &[u8]) -> (r: bool)
    ensures
        r == declared_embedded(rec@),
{
    match param_value(rec, "EMBED") {
        Some(v) => {
            let t: [u8; 4] = [84u8, 82u8, 85u8, 69u8];
            let ok = v.len() == 4 && v[0] == t[0] && v[1] == t[1] && v[2] == t[2] && v[3] == t[3];
            assert(ok == (v@ == seq![84u8, 82u8, 85u8, 69u8])) by {
                if v@.len() == 4 && v@ != seq![84u8, 82u8, 85u8, 69u8] {
                    assert(!(v@ =~= seq![84u8, 82u8, 85u8, 69u8]));
                }
            }
            ok
        },
        None => false,
    }
}

/// Checks the embedded model at index `i` of `Library/Models`: its record
/// (a NUL-terminated parameter block) and its payload stream, when there is
/// one. A missing payload, a payload that does not inflate and a checksum
/// that does not match are reported.
pub fn check_model(i: usize, record: &[u8], payload: Option<&[u8]>) -> (r: Option<String>)
    ensures
        payload is None ==> (r matches Some(m) && m@ == "model "@ + dec(i as nat) + " has no payload stream"@),
        payload matches Some(p) ==> (!declared_embedded(strip_nul(record@)) ==> r is None),
        payload matches Some(p) ==> (declared_embedded(strip_nul(record@)) ==> match zlib_inflated(p@) {
            Some(out) => match r {
                Some(m) => spec_inflated_model_problem(i as nat, record@, out) == Some(m@),
                None => spec_inflated_model_problem(i as nat, record@, out) is None,
            },
            None => (r matches Some(m) && crate::text::has_prefix(
                m@,
                "model "@ + dec(i as nat) + " payload does not inflate: "@,
            )),
        }),
{
    let p = match payload {
        None => {
            let mut m = String::new();
            push_str(&mut m, "model ");
            push_dec(&mut m, i as u64);
            push_str(&mut m, " has no payload stream");
            return Some(m);
        },
        Some(p) => p,
    };
    let rec = strip_nul_slice(record);
    if !is_embedded(rec) {
        return None;
    }
    match inflate_zlib(p) {
        Ok(out) => inflated_model_problem(i, record, &out),
        Err(e) => {
            let mut m = String::new();
            push_str(&mut m, "model ");
            push_dec(&mut m, i as u64);
            push_str(&mut m, " payload does not inflate: ");
            let ghost head = m@;
            push_str(&mut m, e.as_str());
            assert(m@.take(head.len() as int) =~= head);
            Some(m)
        },
    }
}

// ---------------------------------------------------------------------------
// Library-level tables

/// The smaller of two integers.
pub open spec fn min_int(a: int, b: int) -> int {
    if a < b {
        a
    } else {
        b
    }
}

/// The name a `[u8 n][text]` block holds: up to `n` characters of its text.
pub open spec fn pascal_name(block: Seq<u8>) -> Seq<char> {
    latin1(block.subrange(1, 1 + min_int(block[0] as int, block.len() - 1)))
}

/// Names of the footprint blocks from offset `p` on, at most `k` of them: a
/// block runs from its length word to the end of the stream at most; an
/// empty block adds no name.
pub open spec fn lib_names_from(d: Seq<u8>, p: int, k: nat) -> Seq<Seq<char>>
    decreases k,
{
    if k == 0 || p + 4 > d.len() {
        seq![]
    } else {
        let bl = u32_le(d, p);
        let block = d.subrange(min_int(p + 4, d.len() as int), min_int(p + 4 + bl, d.len() as int));
        let rest = lib_names_from(d, p + 4 + bl, (k - 1) as nat);
        if block.len() > 0 {
            seq![pascal_name(block)] + rest
        } else {
            rest
        }
    }
}

/// Footprint names in library order, from `Library/Data`: after the header
/// block, a count and one length-prefixed `[u8 n][name]` block per
/// footprint. `None` when the stream has no header length.
pub open spec fn spec_library_names(d: Seq<u8>) -> Option<Seq<Seq<char>>> {
    if d.len() < 4 {
        None
    } else {
        let p = 4 + u32_le(d, 0);
        if p + 4 > d.len() {
            Some(seq![])
        } else {
            Some(lib_names_from(d, p + 4, u32_le(d, p) as nat))
        }
    }
}

pub(crate) fn pascal_name_exec(block: &[u8]) -> (r: String)
    requires
        block@.len() > 0,
    ensures
        r@ == pascal_name(block@),
{
    let n = block[0] as usize;
    let m = if n < block.len() - 1 { n } else { block.len() - 1 };
    decode(&block[1..1 + m])
}

/// Footprint names in library order; `None` when `Library/Data` is missing
/// its header length.
pub fn library_names(d: &[u8]) -> (r: Option<Vec<String>>)
    ensures
        match r {
            Some(v) => spec_library_names(d@) matches Some(names) && names.len() == v@.len() && forall|i: int|
                0 <= i < v@.len() ==> (#[trigger] v@[i])@ == names[i],
            None => spec_library_names(d@) is None,
        },
{
    let len = match u32_at(d, 0) {
        Some(l) => l as usize,
        None => return None,
    };
    let mut out: Vec<String> = Vec::new();
    let mut p: usize = 4usize.saturating_add(len);
    let count = match u32_at(d, p) {
        Some(c) => c,
        None => {
            proof {
                assert(4 + u32_le(d@, 0) + 4 > d@.len());
            }
            return Some(out);
        },
    };
    assert(d@.len() == d.len());
    assert(p == 4 + u32_le(d@, 0));
    p = p + 4;
    let ghost names = lib_names_from(d@, p as int, count as nat);
    let mut k: u32 = 0;
    while k < count
        invariant
            k <= count,
            d@.len() == d.len(),
            names == out@.map_values(|s: String| s@) + lib_names_from(d@, p as int, (count - k) as nat),
        ensures
            names == out@.map_values(|s: String| s@),
        decreases count - k,
    {
        let bl = match u32_at(d, p) {
            Some(b) => b as usize,
            None => {
                assert(lib_names_from(d@, p as int, (count - k) as nat) =~= Seq::<Seq<char>>::empty());
                assert(names =~= out@.map_values(|s: String| s@));
                break;
            },
        };
        let lo = if p + 4 < d.len() { p + 4 } else { d.len() };
        let end = p.saturating_add(4).saturating_add(bl);
        let hi = if end < d.len() { end } else { d.len() };
        let block = &d[lo..hi];
        let ghost before = out@.map_values(|s: String| s@);
        let ghost next = lib_names_from(d@, p + 4 + bl, (count - k - 1) as nat);
        assert(block@ == d@.subrange(min_int(p + 4, d@.len() as int), min_int(p + 4 + bl, d@.len() as int)));
        assert(lib_names_from(d@, p as int, (count - k) as nat) == if block@.len() > 0 {
            seq![pascal_name(block@)] + next
        } else {
            next
        });
        if block.len() > 0 {
            let name = pascal_name_exec(block);
            out.push(name);
            assert(out@.map_values(|s: String| s@) =~= before.push(name@));
        }
        proof {
            if end as int != p + 4 + bl {
                assert(lib_names_from(d@, end as int, (count - k - 1) as nat) =~= Seq::<Seq<char>>::empty());
                assert(next =~= Seq::<Seq<char>>::empty());
            }
        }
        p = end;
        k = k + 1;
        assert(names =~= out@.map_values(|s: String| s@) + lib_names_from(d@, p as int, (count - k) as nat));
    }
    Some(out)
}

/// The name of the `[u32 len][u8 n][name]` block at `p`, and where the next
/// block starts; `None` when the block is cut off or empty.
pub open spec fn key_block(d: Seq<u8>, p: int) -> Option<(Seq<char>, int)> {
    if p + 4 > d.len() {
        None
    } else {
        let bl = u32_le(d, p);
        if p + 4 + bl > d.len() || bl == 0 {
            None
        } else {
            Some((pascal_name(d.subrange(p + 4, p + 4 + bl)), p + 4 + bl))
        }
    }
}

/// Up to `k` name/key pairs of blocks from `p` on, stopping at the first
/// pair that cannot be read whole.
pub open spec fn key_pairs_from(d: Seq<u8>, p: int, k: nat) -> Seq<(Seq<char>, Seq<char>)>
    decreases k,
{
    if k == 0 {
        seq![]
    } else {
        match key_block(d, p) {
            Some((name, p1)) => match key_block(d, p1) {
                Some((key, p2)) => seq![(name, key)] + key_pairs_from(d, p2, (k - 1) as nat),
                None => seq![],
            },
            None => seq![],
        }
    }
}

/// The footprint-name to storage-key pairs of the `SectionKeys` stream: a
/// count, then name and key blocks in turn.
pub open spec fn spec_section_keys(d: Seq<u8>) -> Seq<(Seq<char>, Seq<char>)> {
    key_pairs_from(d, 4, if d.len() >= 4 { u32_le(d, 0) as nat } else { 0 })
}

fn read_key_block(d: &[u8], p: usize) -> (r: Option<(String, usize)>)
    ensures
        match r {
            Some((name, q)) => key_block(d@, p as int) == Some((name@, q as int)),
            None => key_block(d@, p as int) is None,
        },
{
    let bl = match u32_at(d, p) {
        Some(b) => b as usize,
        None => return None,
    };
    assert(d@.len() == d.len());
    if d.len() - p - 4 < bl || bl == 0 {
        return None;
    }
    let block = &d[p + 4..p + 4 + bl];
    Some((pascal_name_exec(block), p + 4 + bl))
}

/// The footprint-name to storage-key pairs of the `SectionKeys` stream, in
/// stream order.
pub fn section_key_pairs(d: &[u8]) -> (r: Vec<(String, String)>)
    ensures
        r@.map_values(|e: (String, String)| (e.0@, e.1@)) == spec_section_keys(d@),
{
    let count: u32 = match u32_at(d, 0) {
        Some(c) => c,
        None => 0,
    };
    let mut out: Vec<(String, String)> = Vec::new();
    let mut p: usize = 4;
    let ghost all = spec_section_keys(d@);
    let mut k: u32 = 0;
    while k < count
        invariant
            k <= count,
            all == key_pairs_from(d@, 4, count as nat),
            all == out@.map_values(|e: (String, String)| (e.0@, e.1@)) + key_pairs_from(
                d@,
                p as int,
                (count - k) as nat,
            ),
        ensures
            all == out@.map_values(|e: (String, String)| (e.0@, e.1@)),
        decreases count - k,
    {
        let ghost before = out@.map_values(|e: (String, String)| (e.0@, e.1@));
        let (name, p1) = match read_key_block(d, p) {
            Some(x) => x,
            None => {
                assert(all =~= before);
                break;
            },
        };
        let (key, p2) = match read_key_block(d, p1) {
            Some(x) => x,
            None => {
                assert(all =~= before);
                break;
            },
        };
        out.push((name, key));
        assert(out@.map_values(|e: (String, String)| (e.0@, e.1@)) =~= before.push((name@, key@)));
        p = p2;
        k = k + 1;
        assert(all =~= out@.map_values(|e: (String, String)| (e.0@, e.1@)) + key_pairs_from(
            d@,
            p as int,
            (count - k) as nat,
        ));
    }
    out
}

// ---------------------------------------------------------------------------
// Storages, table of contents and models

/// The storage key of a footprint: the key the last `SectionKeys` pair for
/// its name gives, else the name itself.
pub open spec fn storage_key(keys: Seq<(Seq<char>, Seq<char>)>, name: Seq<char>) -> Seq<char>
    decreases keys.len(),
{
    if keys.len() == 0 {
        name
    } else if keys.last().0 == name {
        keys.last().1
    } else {
        storage_key(keys.drop_last(), name)
    }
}

/// The footprints (name and key) whose storage is absent.
pub open spec fn spec_missing_storages(
    names: Seq<Seq<char>>,
    keys: Seq<(Seq<char>, Seq<char>)>,
    storages: Seq<Seq<char>>,
) -> Seq<(Seq<char>, Seq<char>)>
    decreases names.len(),
{
    if names.len() == 0 {
        seq![]
    } else {
        let rest = spec_missing_storages(names.drop_last(), keys, storages);
        let k = storage_key(keys, names.last());
        if storages.contains(k) {
            rest
        } else {
            rest.push((names.last(), k))
        }
    }
}

/// The storages no listed footprint uses, in the order given.
pub open spec fn spec_unlisted_storages(
    names: Seq<Seq<char>>,
    keys: Seq<(Seq<char>, Seq<char>)>,
    storages: Seq<Seq<char>>,
) -> Seq<Seq<char>>
    decreases storages.len(),
{
    if storages.len() == 0 {
        seq![]
    } else {
        let rest = spec_unlisted_storages(names, keys, storages.drop_last());
        let s = storages.last();
        if exists|i: int| 0 <= i < names.len() && storage_key(keys, #[trigger] names[i]) == s {
            rest
        } else {
            rest.push(s)
        }
    }
}

pub open spec fn strings_view(v: Seq<String>) -> Seq<Seq<char>> {
    v.map_values(|s: String| s@)
}

pub open spec fn string_pairs_view(v: Seq<(String, String)>) -> Seq<(Seq<char>, Seq<char>)> {
    v.map_values(|p: (String, String)| (p.0@, p.1@))
}

/// The storage key of a footprint (see [`storage_key`]).
pub fn storage_key_exec(keys: &[(String, String)], name: &str) -> (r: String)
    ensures
        r@ == storage_key(string_pairs_view(keys@), name@),
{
    let ghost kv = string_pairs_view(keys@);
    let mut i: usize = keys.len();
    assert(kv.take(i as int) =~= kv);
    while i > 0
        invariant
            i <= keys@.len(),
            kv == string_pairs_view(keys@),
            storage_key(kv, name@) == storage_key(kv.take(i as int), name@),
        decreases i,
    {
        assert(kv.take(i as int).drop_last() =~= kv.take(i - 1));
        if crate::text::str_eq(keys[i - 1].0.as_str(), name) {
            return crate::text::owned(keys[i - 1].1.as_str());
        }
        i -= 1;
    }
    crate::text::owned(name)
}

fn contains_str(v: &[String], s: &str) -> (r: bool)
    ensures
        r == strings_view(v@).contains(s@),
{
    let mut i: usize = 0;
    while i < v.len()
        invariant
            i <= v@.len(),
            forall|j: int| 0 <= j < i ==> v@[j]@ != s@,
        decreases v@.len() - i,
    {
        if crate::text::str_eq(v[i].as_str(), s) {
            assert(strings_view(v@)[i as int] == s@);
            return true;
        }
        i += 1;
    }
    proof {
        if strings_view(v@).contains(s@) {
            let j = choose|j: int| 0 <= j < strings_view(v@).len() && strings_view(v@)[j] == s@;
            assert(v@[j]@ == s@);
        }
    }
    false
}

/// The footprints whose storage is absent, and the storages no footprint
/// uses: each footprint's storage is its `SectionKeys` key, else its name.
pub fn storage_findings(names: &[String], keys: &[(String, String)], storages: &[String]) -> (r: (
    Vec<(String, String)>,
    Vec<String>,
))
    ensures
        string_pairs_view(r.0@) == spec_missing_storages(strings_view(names@), string_pairs_view(keys@), strings_view(storages@)),
        strings_view(r.1@) == spec_unlisted_storages(strings_view(names@), string_pairs_view(keys@), strings_view(storages@)),
{
    let ghost nv = strings_view(names@);
    let ghost kv = string_pairs_view(keys@);
    let ghost sv = strings_view(storages@);
    let mut missing: Vec<(String, String)> = Vec::new();
    let mut used: Vec<String> = Vec::new();
    let mut i: usize = 0;
    while i < names.len()
        invariant
            i <= names@.len(),
            nv == strings_view(names@),
            kv == string_pairs_view(keys@),
            sv == strings_view(storages@),
            string_pairs_view(missing@) == spec_missing_storages(nv.take(i as int), kv, sv),
            used@.len() == i,
            forall|j: int| 0 <= j < i ==> (#[trigger] used@[j])@ == storage_key(kv, nv[j]),
        decreases names@.len() - i,
    {
        assert(nv.take(i + 1).drop_last() =~= nv.take(i as int));
        let key = storage_key_exec(keys, names[i].as_str());
        if !contains_str(storages, key.as_str()) {
            let ghost before = string_pairs_view(missing@);
            missing.push((crate::text::owned(names[i].as_str()), crate::text::owned(key.as_str())));
            assert(string_pairs_view(missing@) =~= before.push((nv[i as int], key@)));
        }
        used.push(key);
        i += 1;
    }
    assert(nv.take(names@.len() as int) =~= nv);
    let mut unlisted: Vec<String> = Vec::new();
    let mut j: usize = 0;
    while j < storages.len()
        invariant
            j <= storages@.len(),
            nv == strings_view(names@),
            kv == string_pairs_view(keys@),
            sv == strings_view(storages@),
            used@.len() == names@.len(),
            forall|k: int| 0 <= k < used@.len() ==> (#[trigger] used@[k])@ == storage_key(kv, nv[k]),
            strings_view(unlisted@) == spec_unlisted_storages(nv, kv, sv.take(j as int)),
        decreases storages@.len() - j,
    {
        assert(sv.take(j + 1).drop_last() =~= sv.take(j as int));
        let s = storages[j].as_str();
        let found = contains_str(&used, s);
        proof {
            if found {
                let k = choose|k: int| 0 <= k < strings_view(used@).len() && strings_view(used@)[k] == s@;
                assert(storage_key(kv, nv[k]) == s@);
            } else {
                assert forall|k: int| 0 <= k < nv.len() implies storage_key(kv, #[trigger] nv[k]) != s@ by {
                    assert(strings_view(used@)[k] == used@[k]@);
                }
            }
        }
        if !found {
            let ghost before = strings_view(unlisted@);
            unlisted.push(crate::text::owned(s));
            assert(strings_view(unlisted@) =~= before.push(s@));
        }
        j += 1;
    }
    assert(sv.take(storages@.len() as int) =~= sv);
    (missing, unlisted)
}

/// `l` without one trailing carriage return.
pub open spec fn strip_cr(l: Seq<u8>) -> Seq<u8> {
    if l.len() > 0 && l.last() == 13u8 {
        l.drop_last()
    } else {
        l
    }
}

/// The `Name` values of the non-empty lines, in order.
pub open spec fn toc_line_names(lines: Seq<Seq<u8>>) -> Seq<Seq<char>>
    decreases lines.len(),
{
    if lines.len() == 0 {
        seq![]
    } else {
        let rest = toc_line_names(lines.drop_last());
        let l = strip_cr(lines.last());
        if l.len() == 0 {
            rest
        } else {
            match spec_param_value(l, key_needle("Name"@)) {
                Some(v) => rest.push(latin1(v)),
                None => rest,
            }
        }
    }
}

/// The footprint names `Library/ComponentParamsTOC/Data` lists: one
/// `Name=..|Pad Count=..` line per footprint.
pub open spec fn spec_toc_names(toc: Seq<u8>) -> Seq<Seq<char>> {
    let body = match spec_c_string_block(toc) {
        Some(b) => b,
        None => seq![],
    };
    toc_line_names(crate::parameter::split_bytes(body, 10u8))
}

/// The footprint names the component table of contents lists.
pub fn toc_names(toc: &[u8]) -> (r: Vec<String>)
    ensures
        strings_view(r@) == spec_toc_names(toc@),
{
    let empty: [u8; 0] = [];
    let body: &[u8] = match c_string_block(toc) {
        Some(b) => b,
        None => {
            assert(empty@ =~= Seq::<u8>::empty());
            &empty
        },
    };
    let lines = crate::parameter::split_fields_pub(body, 10u8);
    let ghost ls = crate::parameter::split_bytes(body@, 10u8);
    let mut out: Vec<String> = Vec::new();
    let mut i: usize = 0;
    while i < lines.len()
        invariant
            i <= lines@.len(),
            lines@.len() == ls.len(),
            forall|k: int| 0 <= k < lines@.len() ==> (#[trigger] lines@[k])@ == ls[k],
            strings_view(out@) == toc_line_names(ls.take(i as int)),
        decreases lines@.len() - i,
    {
        assert(ls.take(i + 1).drop_last() =~= ls.take(i as int));
        let raw = lines[i].as_slice();
        assert(raw@ == ls[i as int]);
        let l: &[u8] = if raw.len() > 0 && raw[raw.len() - 1] == 13u8 {
            &raw[0..raw.len() - 1]
        } else {
            raw
        };
        assert(l@ == strip_cr(raw@));
        if l.len() > 0 {
            if let Some(v) = param_value(l, "Name") {
                let ghost before = strings_view(out@);
                let s = decode(v);
                out.push(s);
                assert(strings_view(out@) =~= before.push(latin1(v@)));
            }
        }
        i += 1;
    }
    assert(ls.take(lines@.len() as int) =~= ls);
    out
}

/// The entries of `a` that `b` does not hold, in order.
pub open spec fn strings_not_in(a: Seq<Seq<char>>, b: Seq<Seq<char>>) -> Seq<Seq<char>>
    decreases a.len(),
{
    if a.len() == 0 {
        seq![]
    } else {
        let rest = strings_not_in(a.drop_last(), b);
        if b.contains(a.last()) {
            rest
        } else {
            rest.push(a.last())
        }
    }
}

/// The entries of `a` that `b` does not hold, in order.
pub fn not_in(a: &[String], b: &[String]) -> (r: Vec<String>)
    ensures
        strings_view(r@) == strings_not_in(strings_view(a@), strings_view(b@)),
{
    let ghost av = strings_view(a@);
    let mut out: Vec<String> = Vec::new();
    let mut i: usize = 0;
    while i < a.len()
        invariant
            i <= a@.len(),
            av == strings_view(a@),
            strings_view(out@) == strings_not_in(av.take(i as int), strings_view(b@)),
        decreases a@.len() - i,
    {
        assert(av.take(i + 1).drop_last() =~= av.take(i as int));
        if !contains_str(b, a[i].as_str()) {
            let ghost before = strings_view(out@);
            out.push(crate::text::owned(a[i].as_str()));
            assert(strings_view(out@) =~= before.push(av[i as int]));
        }
        i += 1;
    }
    assert(av.take(a@.len() as int) =~= av);
    out
}

/// The records of `Library/Models/Data`, each without its trailing NUL: a
/// length word then the record, for as long as length words remain (a
/// record cut off counts as empty).
pub open spec fn model_records_from(md: Seq<u8>, p: int) -> Seq<Seq<u8>>
    decreases md.len() - p,
{
    if p < 0 || p + 4 > md.len() {
        seq![]
    } else {
        let len = u32_le(md, p);
        if p + 4 + len <= md.len() {
            seq![strip_nul(md.subrange(p + 4, p + 4 + len))] + model_records_from(md, p + 4 + len)
        } else {
            seq![strip_nul(seq![])]
        }
    }
}

/// The records of `Library/Models/Data`.
pub fn model_records(md: &[u8]) -> (r: Vec<Vec<u8>>)
    ensures
        r@.map_values(|v: Vec<u8>| v@) == model_records_from(md@, 0),
{
    let mut out: Vec<Vec<u8>> = Vec::new();
    let mut p: usize = 0;
    let ghost all = model_records_from(md@, 0);
    loop
        invariant_except_break
            all == out@.map_values(|v: Vec<u8>| v@) + model_records_from(md@, p as int),
        invariant
            p <= md@.len(),
            md@.len() == md.len(),
        ensures
            all == out@.map_values(|v: Vec<u8>| v@),
        decreases md@.len() - p,
    {
        if md.len() - p < 4 {
            assert(model_records_from(md@, p as int) =~= Seq::<Seq<u8>>::empty());
            assert(all =~= out@.map_values(|v: Vec<u8>| v@));
            break;
        }
        let len = u32_at(md, p).unwrap() as usize;
        let ghost before = out@.map_values(|v: Vec<u8>| v@);
        if md.len() - p - 4 < len {
            let e: [u8; 0] = [];
            let v = vstd::slice::slice_to_vec(strip_nul_slice(&e));
            assert(e@ =~= Seq::<u8>::empty());
            out.push(v);
            assert(out@.map_values(|v: Vec<u8>| v@) =~= before.push(strip_nul(seq![])));
            assert(all =~= out@.map_values(|v: Vec<u8>| v@));
            break;
        }
        let rec = &md[p + 4..p + 4 + len];
        let v = vstd::slice::slice_to_vec(strip_nul_slice(rec));
        out.push(v);
        assert(out@.map_values(|v: Vec<u8>| v@) =~= before.push(strip_nul(rec@)));
        assert(all =~= out@.map_values(|v: Vec<u8>| v@) + model_records_from(md@, p + 4 + len));
        p = p + 4 + len;
    }
    out
}

/// The `ID` of each model record, where it has one.
pub open spec fn spec_model_ids(recs: Seq<Seq<u8>>) -> Seq<Seq<char>>
    decreases recs.len(),
{
    if recs.len() == 0 {
        seq![]
    } else {
        let rest = spec_model_ids(recs.drop_last());
        match spec_param_value(recs.last(), key_needle("ID"@)) {
            Some(v) => rest.push(latin1(v)),
            None => rest,
        }
    }
}

/// The `ID` of each model record, where it has one.
pub fn model_ids(recs: &[Vec<u8>]) -> (r: Vec<String>)
    ensures
        strings_view(r@) == spec_model_ids(recs@.map_values(|v: Vec<u8>| v@)),
{
    let ghost rv = recs@.map_values(|v: Vec<u8>| v@);
    let mut out: Vec<String> = Vec::new();
    let mut i: usize = 0;
    while i < recs.len()
        invariant
            i <= recs@.len(),
            rv == recs@.map_values(|v: Vec<u8>| v@),
            strings_view(out@) == spec_model_ids(rv.take(i as int)),
        decreases recs@.len() - i,
    {
        assert(rv.take(i + 1).drop_last() =~= rv.take(i as int));
        if let Some(v) = param_value(recs[i].as_slice(), "ID") {
            let ghost before = strings_view(out@);
            out.push(decode(v));
            assert(strings_view(out@) =~= before.push(latin1(v@)));
        }
        i += 1;
    }
    assert(rv.take(recs@.len() as int) =~= rv);
    out
}

/// The model count a `Models/Header` stream states: its first four bytes,
/// little-endian, else zero.
pub fn header_model_count(h: &[u8]) -> (n: u32)
    ensures
        n == (if h@.len() >= 4 { u32_le(h@, 0) } else { 0 }),
{
    match read_u32(h, 0) {
        Some(n) => n,
        None => 0,
    }
}

/// The body model references (footprint, model id) whose id is not among
/// the library's models, in order.
pub open spec fn spec_missing_refs(refs: Seq<(Seq<char>, Seq<char>)>, ids: Seq<Seq<char>>) -> Seq<(Seq<char>, Seq<char>)>
    decreases refs.len(),
{
    if refs.len() == 0 {
        seq![]
    } else {
        let rest = spec_missing_refs(refs.drop_last(), ids);
        if ids.contains(refs.last().1) {
            rest
        } else {
            rest.push(refs.last())
        }
    }
}

fn contains_string(v: &[String], x: &str) -> (r: bool)
    ensures
        r == strings_view(v@).contains(x@),
{
    let ghost sv = strings_view(v@);
    let mut i: usize = 0;
    while i < v.len()
        invariant
            i <= v@.len(),
            sv == strings_view(v@),
            forall|j: int| 0 <= j < i ==> sv[j] != x@,
        decreases v@.len() - i,
    {
        if crate::text::str_eq(v[i].as_str(), x) {
            assert(sv[i as int] == x@);
            return true;
        }
        i += 1;
    }
    false
}

/// The body model references whose model is missing (see
/// [`spec_missing_refs`]).
pub fn missing_model_refs(refs: &[(String, String)], ids: &[String]) -> (r: Vec<(String, String)>)
    ensures
        string_pairs_view(r@) == spec_missing_refs(string_pairs_view(refs@), strings_view(ids@)),
{
    let ghost rv = string_pairs_view(refs@);
    let mut out: Vec<(String, String)> = Vec::new();
    let mut i: usize = 0;
    while i < refs.len()
        invariant
            i <= refs@.len(),
            rv == string_pairs_view(refs@),
            string_pairs_view(out@) == spec_missing_refs(rv.take(i as int), strings_view(ids@)),
        decreases refs@.len() - i,
    {
        assert(rv.take(i + 1).drop_last() =~= rv.take(i as int));
        assert(rv.take(i + 1).last() == rv[i as int]);
        assert(rv[i as int] == (refs@[i as int].0@, refs@[i as int].1@));
        if !contains_string(ids, refs[i].1.as_str()) {
            let ghost before = out@;
            out.push((crate::text::owned(refs[i].0.as_str()), crate::text::owned(refs[i].1.as_str())));
            assert(string_pairs_view(out@) =~= string_pairs_view(before).push(rv[i as int]));
        }
        i += 1;
    }
    assert(rv.take(refs@.len() as int) =~= rv);
    out
}

} // verus!
