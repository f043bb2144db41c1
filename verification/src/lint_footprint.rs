//! Per-footprint checks of a `.PcbLib`: each footprint's `Header`,
//! `Parameters`, `PrimitiveGuids` and `WideStrings` must agree with the
//! records of its `Data` stream.

use vstd::prelude::*;

use crate::bytes::{as_signed32, read_i32, u32_le};
use crate::default_streams::{codepoints, push_codepoints};
use crate::encoding::{decode, encode, latin1, latin1_bytes};
use crate::lint::{
    c_string_block, expected_len, guid_type_code, key_needle, param_value, spec_c_string_block, spec_expected_len,
    spec_lint_guid_type_code, spec_param_value, u32_at,
};
use crate::records::{
    block_count, lemma_skip_blocks_bounds, records_from, records_view, skip_blocks, spec_main_block, spec_record_text,
    spec_split_footprint, split_footprint_records, DataError, RawRecord,
};
use crate::text::{dec, owned, push_dec, push_str};

verus! {

/// One finding about a footprint.
#[derive(Debug, Clone, PartialEq, Eq)]
pub enum FootprintFinding {
    /// The pattern name the `Data` stream holds, when it is not the footprint's.
    DataPattern(String),
    /// `Header` says this many primitives; `Data` has that many records.
    HeaderCount(usize, usize),
    /// The `PATTERN` parameter, when it is not the footprint's name.
    PatternParam(Option<String>),
    /// Record index, type, main-block length and the length Altium writes.
    RecordLength(usize, u8, usize, usize),
    /// `PrimitiveGuids` row count and record count, when they do not fit.
    GuidRowCount(usize, usize),
    /// Row, the record index it holds and the one it should hold.
    GuidRowIndex(usize, usize, usize),
    /// Row, its type code, the record type and the code it should hold.
    GuidRowCode(usize, u32, u8, u32),
    /// `PrimitiveGuids/Header` row count and the rows `Data` has.
    GuidHeader(usize, usize),
    /// Text number, its string and the wide-string index its body holds.
    WideIndex(usize, String, i32),
    /// Text number, the `ENCODEDTEXT` value found and the text's string.
    WideMismatch(usize, String, String),
    /// Text number whose `ENCODEDTEXT` entry is missing.
    WideMissing(usize),
}

/// A finding with its strings taken as character sequences.
pub enum FindingView {
    DataPattern(Seq<char>),
    HeaderCount(nat, nat),
    PatternParam(Option<Seq<char>>),
    RecordLength(nat, u8, nat, nat),
    GuidRowCount(nat, nat),
    GuidRowIndex(nat, nat, nat),
    GuidRowCode(nat, u32, u8, u32),
    GuidHeader(nat, nat),
    WideIndex(nat, Seq<char>, i32),
    WideMismatch(nat, Seq<char>, Seq<char>),
    WideMissing(nat),
}

impl View for FootprintFinding {
    type V = FindingView;

    open spec fn view(&self) -> FindingView {
        match self {
            FootprintFinding::DataPattern(p) => FindingView::DataPattern(p@),
            FootprintFinding::HeaderCount(a, b) => FindingView::HeaderCount(*a as nat, *b as nat),
            FootprintFinding::PatternParam(p) => FindingView::PatternParam(
                match p {
                    Some(s) => Some(s@),
                    None => None,
                },
            ),
            FootprintFinding::RecordLength(i, k, g, e) => FindingView::RecordLength(*i as nat, *k, *g as nat, *e as nat),
            FootprintFinding::GuidRowCount(a, b) => FindingView::GuidRowCount(*a as nat, *b as nat),
            FootprintFinding::GuidRowIndex(r, i, e) => FindingView::GuidRowIndex(*r as nat, *i as nat, *e as nat),
            FootprintFinding::GuidRowCode(r, c, k, e) => FindingView::GuidRowCode(*r as nat, *c, *k, *e),
            FootprintFinding::GuidHeader(a, b) => FindingView::GuidHeader(*a as nat, *b as nat),
            FootprintFinding::WideIndex(i, t, x) => FindingView::WideIndex(*i as nat, t@, *x),
            FootprintFinding::WideMismatch(i, f, t) => FindingView::WideMismatch(*i as nat, f@, t@),
            FootprintFinding::WideMissing(i) => FindingView::WideMissing(*i as nat),
        }
    }
}

/// The views of a list of findings.
pub open spec fn findings_view(v: Seq<FootprintFinding>) -> Seq<FindingView> {
    v.map_values(|f: FootprintFinding| f@)
}

/// The first `u32` of a stream, 0 when it is shorter.
pub open spec fn leading_count(h: Seq<u8>) -> nat {
    if h.len() >= 4 {
        u32_le(h, 0) as nat
    } else {
        0
    }
}

fn leading_count_exec(h: &[u8]) -> (r: usize)
    ensures
        r == leading_count(h@),
{
    match u32_at(h, 0) {
        Some(n) => n as usize,
        None => 0,
    }
}

// ---------------------------------------------------------------------------
// Header and parameters

/// `Header` must count the records.
pub open spec fn spec_header_findings(h: Option<Seq<u8>>, records: nat) -> Seq<FindingView> {
    match h {
        Some(h) => if leading_count(h) != records {
            seq![FindingView::HeaderCount(leading_count(h), records)]
        } else {
            seq![]
        },
        None => seq![],
    }
}

pub fn header_findings(h: Option<&[u8]>, records: usize) -> (r: Vec<FootprintFinding>)
    ensures
        findings_view(r@) == spec_header_findings(
            match h {
                Some(b) => Some(b@),
                None => None,
            },
            records as nat,
        ),
{
    let mut out: Vec<FootprintFinding> = Vec::new();
    if let Some(b) = h {
        let n = leading_count_exec(b);
        if n != records {
            out.push(FootprintFinding::HeaderCount(n, records));
        }
    }
    assert(findings_view(out@) =~= spec_header_findings(
        match h {
            Some(b) => Some(b@),
            None => None,
        },
        records as nat,
    ));
    out
}

/// `Parameters` must name the footprint in `PATTERN`.
pub open spec fn spec_pattern_findings(params: Seq<u8>, name: Seq<char>) -> Seq<FindingView> {
    let block = match spec_c_string_block(params) {
        Some(b) => b,
        None => seq![],
    };
    match spec_param_value(block, key_needle("PATTERN"@)) {
        Some(v) => if latin1(v) == name {
            seq![]
        } else {
            seq![FindingView::PatternParam(Some(latin1(v)))]
        },
        None => seq![FindingView::PatternParam(None)],
    }
}

pub fn pattern_findings(params: &[u8], name: &str) -> (r: Vec<FootprintFinding>)
    ensures
        findings_view(r@) == spec_pattern_findings(params@, name@),
{
    let empty: [u8; 0] = [];
    let block: &[u8] = match c_string_block(params) {
        Some(b) => b,
        None => {
            assert(empty@ =~= Seq::<u8>::empty());
            &empty
        },
    };
    let mut out: Vec<FootprintFinding> = Vec::new();
    match param_value(block, "PATTERN") {
        Some(v) => {
            let s = decode(v);
            if !crate::text::str_eq(s.as_str(), name) {
                out.push(FootprintFinding::PatternParam(Some(s)));
            }
        },
        None => {
            out.push(FootprintFinding::PatternParam(None));
        },
    }
    assert(findings_view(out@) =~= spec_pattern_findings(params@, name@));
    out
}

// ---------------------------------------------------------------------------
// Record bodies

/// Records from `i` on whose main block is not the length Altium writes for
/// their type.
pub open spec fn spec_length_findings(recs: Seq<(u8, Seq<u8>)>, i: nat) -> Seq<FindingView>
    decreases recs.len() - i,
{
    if i >= recs.len() {
        seq![]
    } else {
        let (kind, b) = recs[i as int];
        let got = spec_main_block(kind, b).len();
        let here = match spec_expected_len(kind) {
            Some(exp) => if got != exp {
                seq![FindingView::RecordLength(i, kind, got, exp as nat)]
            } else {
                seq![]
            },
            None => seq![],
        };
        here + spec_length_findings(recs, i + 1)
    }
}

pub fn length_findings(recs: &[RawRecord]) -> (r: Vec<FootprintFinding>)
    ensures
        findings_view(r@) == spec_length_findings(records_view(recs@), 0),
{
    let mut out: Vec<FootprintFinding> = Vec::new();
    let ghost rv = records_view(recs@);
    let mut i: usize = 0;
    while i < recs.len()
        invariant
            i <= recs@.len(),
            rv == records_view(recs@),
            spec_length_findings(rv, 0) == findings_view(out@) + spec_length_findings(rv, i as nat),
        decreases recs@.len() - i,
    {
        let r = &recs[i];
        let ghost before = findings_view(out@);
        assert(rv[i as int] == (r.kind, r.bytes@));
        if let Some(exp) = expected_len(r.kind) {
            let got = r.main_block().len();
            if got != exp {
                out.push(FootprintFinding::RecordLength(i, r.kind, got, exp));
            }
        }
        i += 1;
        assert(spec_length_findings(rv, 0) =~= findings_view(out@) + spec_length_findings(rv, i as nat));
    }
    out
}

// ---------------------------------------------------------------------------
// The PrimitiveGuids table

/// Rows `i + 1` on of a well-sized table, up to the first one that points at
/// the wrong record or carries the wrong type code.
pub open spec fn spec_guid_row_findings(g: Seq<u8>, recs: Seq<(u8, Seq<u8>)>, i: nat) -> Seq<FindingView>
    decreases recs.len() - i,
{
    if i >= recs.len() {
        seq![]
    } else {
        let base: int = ((i + 1) * 24) as int;
        let code = u32_le(g, base);
        let idx = u32_le(g, base + 4) as nat;
        let kind = recs[i as int].0;
        if idx != i {
            seq![FindingView::GuidRowIndex(i + 1, idx, i)]
        } else {
            match spec_lint_guid_type_code(kind) {
                Some(exp) => if code != exp {
                    seq![FindingView::GuidRowCode(i + 1, code as u32, kind, exp)]
                } else {
                    spec_guid_row_findings(g, recs, i + 1)
                },
                None => spec_guid_row_findings(g, recs, i + 1),
            }
        }
    }
}

/// The `PrimitiveGuids` table (24-byte rows: type code, record index, GUID;
/// row 0 for the footprint) must have one row per record after row 0, each
/// pointing at its record with its type's code; its `Header` must count the
/// rows. An empty or absent table is not checked.
pub open spec fn spec_guid_findings(g: Option<Seq<u8>>, recs: Seq<(u8, Seq<u8>)>, gh: Option<Seq<u8>>) -> Seq<
    FindingView,
> {
    match g {
        None => seq![],
        Some(g) => if g.len() == 0 {
            seq![]
        } else {
            let rows = g.len() / 24;
            let table = if g.len() % 24 != 0 || rows != recs.len() + 1 {
                seq![FindingView::GuidRowCount(rows, recs.len())]
            } else {
                spec_guid_row_findings(g, recs, 0)
            };
            let header = match gh {
                Some(h) => if leading_count(h) != rows {
                    seq![FindingView::GuidHeader(leading_count(h), rows)]
                } else {
                    seq![]
                },
                None => seq![],
            };
            table + header
        },
    }
}

pub fn guid_findings(g: Option<&[u8]>, recs: &[RawRecord], gh: Option<&[u8]>) -> (r: Vec<FootprintFinding>)
    ensures
        findings_view(r@) == spec_guid_findings(
            match g {
                Some(b) => Some(b@),
                None => None,
            },
            records_view(recs@),
            match gh {
                Some(b) => Some(b@),
                None => None,
            },
        ),
{
    let mut out: Vec<FootprintFinding> = Vec::new();
    let g = match g {
        Some(g) => g,
        None => return out,
    };
    if g.len() == 0 {
        assert(findings_view(out@) =~= Seq::<FindingView>::empty());
        return out;
    }
    let ghost rv = records_view(recs@);
    let rows = g.len() / 24;
    if g.len() % 24 != 0 || rows == 0 || rows - 1 != recs.len() {
        out.push(FootprintFinding::GuidRowCount(rows, recs.len()));
    } else {
        let mut i: usize = 0;
        while i < recs.len()
            invariant_except_break
                findings_view(out@) == Seq::<FindingView>::empty(),
            invariant
                i <= recs@.len(),
                rv == records_view(recs@),
                g@.len() == (recs@.len() + 1) * 24,
                g@.len() == g.len(),
                spec_guid_row_findings(g@, rv, 0) == spec_guid_row_findings(g@, rv, i as nat),
            ensures
                findings_view(out@) == spec_guid_row_findings(g@, rv, 0),
            decreases recs@.len() - i,
        {
            assert(rv[i as int].0 == recs[i as int].kind);
            assert((i + 2) * 24 <= g@.len()) by (nonlinear_arith)
                requires
                    i < recs@.len(),
                    g@.len() == (recs@.len() + 1) * 24,
            ;
            let base = (i + 1) * 24;
            let code = match u32_at(g, base) {
                Some(c) => c,
                None => 0,
            };
            let idx = match u32_at(g, base + 4) {
                Some(c) => c as usize,
                None => 0,
            };
            if idx != i {
                out.push(FootprintFinding::GuidRowIndex(i + 1, idx, i));
                assert(findings_view(out@) =~= spec_guid_row_findings(g@, rv, i as nat));
                break;
            }
            if let Some(exp) = guid_type_code(recs[i].kind) {
                if code != exp {
                    out.push(FootprintFinding::GuidRowCode(i + 1, code, recs[i].kind, exp));
                    assert(findings_view(out@) =~= spec_guid_row_findings(g@, rv, i as nat));
                    break;
                }
            }
            i += 1;
        }
    }
    let ghost table = findings_view(out@);
    if let Some(h) = gh {
        let n = leading_count_exec(h);
        if n != rows {
            out.push(FootprintFinding::GuidHeader(n, rows));
        }
    }
    assert(findings_view(out@) =~= spec_guid_findings(
        Some(g@),
        rv,
        match gh {
            Some(b) => Some(b@),
            None => None,
        },
    ));
    out
}

// ---------------------------------------------------------------------------
// Wide strings

/// The bytes of the text records, in order.
pub open spec fn text_records(rv: Seq<(u8, Seq<u8>)>) -> Seq<Seq<u8>>
    decreases rv.len(),
{
    if rv.len() == 0 {
        seq![]
    } else {
        let r = text_records(rv.drop_last());
        if rv.last().0 == 5 {
            r.push(rv.last().1)
        } else {
            r
        }
    }
}

/// Whether the first block of a record lies inside its bytes.
pub open spec fn first_block_inside(b: Seq<u8>) -> bool {
    b.len() >= 5 ==> 5 + u32_le(b, 1) <= b.len()
}

/// The wide-string index a text body holds at offset 115, `-1` when the body
/// is shorter.
pub open spec fn wide_index(body: Seq<u8>) -> i32 {
    if body.len() >= 119 {
        as_signed32(u32_le(body, 115)) as i32
    } else {
        -1i32
    }
}

/// The string of a text record, empty when it has none.
pub open spec fn text_string(t: Seq<u8>) -> Seq<char> {
    match spec_record_text(5, t) {
        Some(s) => s,
        None => seq![],
    }
}

/// Text `i` must point at wide string `i`, and `ENCODEDTEXT<i>` must hold
/// its string as comma-separated code points.
pub open spec fn wide_entry_findings(i: nat, t: Seq<u8>, ws: Seq<u8>) -> Seq<FindingView> {
    let idx = wide_index(spec_main_block(5, t));
    let text = text_string(t);
    let a = if idx != i as i32 {
        seq![FindingView::WideIndex(i, text, idx)]
    } else {
        seq![]
    };
    let b = match spec_param_value(ws, key_needle("ENCODEDTEXT"@ + dec(i))) {
        Some(v) => if v == latin1_bytes(codepoints(text)) {
            seq![]
        } else {
            seq![FindingView::WideMismatch(i, latin1(v), text)]
        },
        None => seq![FindingView::WideMissing(i)],
    };
    a + b
}

/// The findings of the first `k` texts.
pub open spec fn wide_findings_upto(texts: Seq<Seq<u8>>, ws: Seq<u8>, k: nat) -> Seq<FindingView>
    decreases k,
{
    if k == 0 {
        seq![]
    } else {
        wide_findings_upto(texts, ws, (k - 1) as nat) + wide_entry_findings((k - 1) as nat, texts[k - 1], ws)
    }
}

/// Every text must agree with the `WideStrings` stream, when there are texts.
pub open spec fn spec_wide_findings(rv: Seq<(u8, Seq<u8>)>, ws_stream: Seq<u8>) -> Seq<FindingView> {
    let texts = text_records(rv);
    if texts.len() == 0 {
        seq![]
    } else {
        let ws = match spec_c_string_block(ws_stream) {
            Some(b) => b,
            None => seq![],
        };
        wide_findings_upto(texts, ws, texts.len())
    }
}

fn text_indices(recs: &[RawRecord]) -> (r: Vec<usize>)
    ensures
        r@.len() == text_records(records_view(recs@)).len(),
        forall|j: int| 0 <= j < r@.len() ==> (#[trigger] r@[j]) < recs@.len() && recs@[r@[j] as int].bytes@ == text_records(
            records_view(recs@),
        )[j] && recs@[r@[j] as int].kind == 5,
{
    let mut r: Vec<usize> = Vec::new();
    let mut i: usize = 0;
    while i < recs.len()
        invariant
            i <= recs@.len(),
            r@.len() == text_records(records_view(recs@).take(i as int)).len(),
            forall|j: int| 0 <= j < r@.len() ==> (#[trigger] r@[j]) < i && recs@[r@[j] as int].bytes@ == text_records(
                records_view(recs@).take(i as int),
            )[j] && recs@[r@[j] as int].kind == 5,
        decreases recs@.len() - i,
    {
        let ghost rv = records_view(recs@);
        assert(rv.take(i + 1).drop_last() =~= rv.take(i as int));
        if recs[i].kind == 5 {
            r.push(i);
        }
        i += 1;
    }
    assert(records_view(recs@).take(recs@.len() as int) =~= records_view(recs@));
    r
}

fn wide_entry(i: usize, t: &RawRecord, ws: &[u8], out: &mut Vec<FootprintFinding>)
    requires
        t.kind == 5,
        first_block_inside(t.bytes@),
    ensures
        findings_view(final(out)@) == findings_view(old(out)@) + wide_entry_findings(i as nat, t.bytes@, ws@),
{
    let ghost start = findings_view(out@);
    let body = t.main_block();
    let idx: i32 = if body.len() >= 119 {
        match read_i32(body, 115) {
            Some(v) => v,
            None => -1,
        }
    } else {
        -1
    };
    let text = match t.text() {
        Some(s) => s,
        None => String::new(),
    };
    if idx != i as i32 {
        out.push(FootprintFinding::WideIndex(i, owned(text.as_str()), idx));
    }
    let mut expected = String::new();
    push_codepoints(&mut expected, text.as_str());
    let exp_bytes = encode(expected.as_str());
    let mut key = String::new();
    push_str(&mut key, "ENCODEDTEXT");
    push_dec(&mut key, i as u64);
    match param_value(ws, key.as_str()) {
        Some(v) => {
            let same = v.len() == exp_bytes.len() && crate::lint_footprint::bytes_eq(v, exp_bytes.as_slice());
            if !same {
                out.push(FootprintFinding::WideMismatch(i, decode(v), text));
            }
        },
        None => {
            out.push(FootprintFinding::WideMissing(i));
        },
    }
    assert(findings_view(out@) =~= start + wide_entry_findings(i as nat, t.bytes@, ws@));
}

/// Whether two byte runs are equal.
pub fn bytes_eq(a: &[u8], b: &[u8]) -> (r: bool)
    ensures
        r == (a@ == b@),
{
    if a.len() != b.len() {
        return false;
    }
    let mut i: usize = 0;
    while i < a.len()
        invariant
            i <= a@.len(),
            a@.len() == b@.len(),
            forall|j: int| 0 <= j < i ==> a@[j] == b@[j],
        decreases a@.len() - i,
    {
        if a[i] != b[i] {
            return false;
        }
        i += 1;
    }
    assert(a@ =~= b@);
    true
}

pub fn wide_findings(recs: &[RawRecord], ws_stream: &[u8]) -> (r: Vec<FootprintFinding>)
    requires
        forall|i: int| 0 <= i < recs@.len() ==> first_block_inside(#[trigger] recs@[i].bytes@),
    ensures
        findings_view(r@) == spec_wide_findings(records_view(recs@), ws_stream@),
{
    let mut out: Vec<FootprintFinding> = Vec::new();
    let idx = text_indices(recs);
    let ghost texts = text_records(records_view(recs@));
    if idx.len() == 0 {
        assert(findings_view(out@) =~= Seq::<FindingView>::empty());
        return out;
    }
    let empty: [u8; 0] = [];
    let ws: &[u8] = match c_string_block(ws_stream) {
        Some(b) => b,
        None => {
            assert(empty@ =~= Seq::<u8>::empty());
            &empty
        },
    };
    let mut i: usize = 0;
    while i < idx.len()
        invariant
            i <= idx@.len(),
            idx@.len() == texts.len(),
            texts == text_records(records_view(recs@)),
            forall|j: int| 0 <= j < idx@.len() ==> (#[trigger] idx@[j]) < recs@.len() && recs@[idx@[j] as int].bytes@
                == texts[j] && recs@[idx@[j] as int].kind == 5,
            forall|j: int| 0 <= j < recs@.len() ==> first_block_inside(#[trigger] recs@[j].bytes@),
            findings_view(out@) == wide_findings_upto(texts, ws@, i as nat),
        decreases idx@.len() - i,
    {
        let t = &recs[idx[i]];
        assert(t.bytes@ == texts[i as int]);
        wide_entry(i, t, ws, &mut out);
        i += 1;
    }
    out
}

// ---------------------------------------------------------------------------
// Model references and the whole footprint

/// The bytes `TRUE`.
pub open spec fn true_bytes() -> Seq<u8> {
    seq![84u8, 82u8, 85u8, 69u8]
}

/// The ids of the embedded models that component bodies refer to.
pub open spec fn spec_model_refs(rv: Seq<(u8, Seq<u8>)>) -> Seq<Seq<char>>
    decreases rv.len(),
{
    if rv.len() == 0 {
        seq![]
    } else {
        let rest = spec_model_refs(rv.drop_last());
        let (kind, b) = rv.last();
        let body = spec_main_block(kind, b);
        if kind == 12 {
            match spec_param_value(body, key_needle("MODELID"@)) {
                Some(id) => if spec_param_value(body, key_needle("MODEL.EMBED"@)) == Some(true_bytes()) {
                    rest.push(latin1(id))
                } else {
                    rest
                },
                None => rest,
            }
        } else {
            rest
        }
    }
}

pub fn model_refs(recs: &[RawRecord]) -> (r: Vec<String>)
    ensures
        r@.map_values(|s: String| s@) == spec_model_refs(records_view(recs@)),
{
    let mut out: Vec<String> = Vec::new();
    let t: [u8; 4] = [84u8, 82u8, 85u8, 69u8];
    assert(t@ =~= true_bytes());
    let mut i: usize = 0;
    while i < recs.len()
        invariant
            i <= recs@.len(),
            t@ == true_bytes(),
            out@.map_values(|s: String| s@) == spec_model_refs(records_view(recs@).take(i as int)),
        decreases recs@.len() - i,
    {
        let ghost rv = records_view(recs@);
        assert(rv.take(i + 1).drop_last() =~= rv.take(i as int));
        assert(rv.take(i + 1).last() == (recs[i as int].kind, recs[i as int].bytes@));
        if recs[i].kind == 12 {
            let body = recs[i].main_block();
            if let Some(id) = param_value(body, "MODELID") {
                let embed = match param_value(body, "MODEL.EMBED") {
                    Some(v) => bytes_eq(v, &t),
                    None => false,
                };
                if embed {
                    let ghost before = out@.map_values(|s: String| s@);
                    let s = decode(id);
                    out.push(s);
                    assert(out@.map_values(|s: String| s@) =~= before.push(latin1(id@)));
                }
            }
        }
        i += 1;
    }
    assert(records_view(recs@).take(recs@.len() as int) =~= records_view(recs@));
    out
}

/// What the checks of one footprint found: its findings, and the embedded
/// models its bodies refer to.
pub struct FootprintReport {
    pub findings: Vec<FootprintFinding>,
    pub model_refs: Vec<String>,
}

/// Every record read from a stream has its first block inside its bytes.
pub(crate) proof fn lemma_records_framed(data: Seq<u8>, p: int)
    requires
        0 <= p,
        records_from(data, p) is Ok,
    ensures
        forall|i: int| 0 <= i < records_from(data, p)->Ok_0.len() ==> first_block_inside(
            #[trigger] records_from(data, p)->Ok_0[i].1,
        ),
    decreases data.len() - p,
{
    if !(p < 0 || p + 5 > data.len()) {
        let kind = data[p];
        let q = skip_blocks(data, p + 1, block_count(kind))->Ok_0;
        lemma_skip_blocks_bounds(data, p + 1, block_count(kind));
        let len1 = u32_le(data, p + 1);
        let q1 = p + 1 + 4 + len1;
        assert(q1 <= data.len());
        lemma_skip_blocks_bounds(data, q1, (block_count(kind) - 1) as nat);
        assert(q1 <= q);
        lemma_records_framed(data, q);
        let b = data.subrange(p, q);
        assert(u32_le(b, 1) == len1);
        let all = records_from(data, p)->Ok_0;
        let rest = records_from(data, q)->Ok_0;
        assert forall|i: int| 0 <= i < all.len() implies first_block_inside(#[trigger] all[i].1) by {
            if i > 0 {
                assert(all[i] == rest[i - 1]);
            }
        }
    }
}

/// The findings about a footprint whose `Data` stream splits into records:
/// the pattern name it holds, `Header`, `Parameters`, record bodies,
/// `PrimitiveGuids` and `WideStrings`, in that order.
pub open spec fn spec_footprint_findings(
    name: Seq<char>,
    pattern: Seq<char>,
    rv: Seq<(u8, Seq<u8>)>,
    header: Option<Seq<u8>>,
    params: Seq<u8>,
    guids: Option<Seq<u8>>,
    guids_header: Option<Seq<u8>>,
    wide: Seq<u8>,
) -> Seq<FindingView> {
    (if pattern != name {
        seq![FindingView::DataPattern(pattern)]
    } else {
        seq![]
    }) + spec_header_findings(header, rv.len()) + spec_pattern_findings(params, name) + spec_length_findings(rv, 0)
        + spec_guid_findings(guids, rv, guids_header) + spec_wide_findings(rv, wide)
}

/// The view of an optional stream.
pub open spec fn opt_view(s: Option<&[u8]>) -> Option<Seq<u8>> {
    match s {
        Some(b) => Some(b@),
        None => None,
    }
}

/// Checks one footprint's streams against its `Data` records; the error of
/// a `Data` stream that does not split into records.
pub fn check_footprint(
    name: &str,
    data: &[u8],
    header: Option<&[u8]>,
    params: &[u8],
    guids: Option<&[u8]>,
    guids_header: Option<&[u8]>,
    wide: &[u8],
) -> (r: Result<FootprintReport, DataError>)
    ensures
        match spec_split_footprint(data@) {
            Err(e) => r == Err::<FootprintReport, DataError>(e),
            Ok((pattern, rv)) => r matches Ok(rep) && findings_view(rep.findings@) == spec_footprint_findings(
                name@,
                pattern,
                rv,
                opt_view(header),
                params@,
                opt_view(guids),
                opt_view(guids_header),
                wide@,
            ) && rep.model_refs@.map_values(|s: String| s@) == spec_model_refs(rv),
        },
{
    let (pattern, recs) = match split_footprint_records(data) {
        Ok(v) => v,
        Err(e) => return Err(e),
    };
    let ghost rv = records_view(recs@);
    proof {
        let name_len = u32_le(data@, 0);
        assert(data@.len() >= 4 && 4 + name_len <= data@.len());
        assert(records_from(data@, 4 + name_len) == Ok::<Seq<(u8, Seq<u8>)>, DataError>(rv));
        lemma_records_framed(data@, 4 + name_len);
        let all = records_from(data@, 4 + name_len)->Ok_0;
        assert(all == rv);
        assert forall|i: int| 0 <= i < recs@.len() implies first_block_inside(#[trigger] recs@[i].bytes@) by {
            assert(rv[i] == (recs@[i].kind, recs@[i].bytes@));
            assert(first_block_inside(all[i].1));
        }
    }
    let mut findings: Vec<FootprintFinding> = Vec::new();
    if !crate::text::str_eq(pattern.as_str(), name) {
        findings.push(FootprintFinding::DataPattern(pattern));
    }
    let h = header_findings(header, recs.len());
    let pf = pattern_findings(params, name);
    let lf = length_findings(recs.as_slice());
    let gf = guid_findings(guids, recs.as_slice(), guids_header);
    let wf = wide_findings(recs.as_slice(), wide);
    let refs = model_refs(recs.as_slice());
    append_findings(&mut findings, h);
    append_findings(&mut findings, pf);
    append_findings(&mut findings, lf);
    append_findings(&mut findings, gf);
    append_findings(&mut findings, wf);
    Ok(FootprintReport { findings, model_refs: refs })
}

fn append_findings(out: &mut Vec<FootprintFinding>, more: Vec<FootprintFinding>)
    ensures
        findings_view(final(out)@) == findings_view(old(out)@) + findings_view(more@),
{
    let mut more = more;
    let ghost start = findings_view(out@);
    let ghost all = findings_view(more@);
    let mut i: usize = 0;
    let n = more.len();
    let mut rev: Vec<FootprintFinding> = Vec::new();
    while more.len() > 0
        invariant
            rev@.len() + more@.len() == n,
            n == all.len(),
            forall|j: int| 0 <= j < more@.len() ==> more@[j]@ == all[j],
            forall|j: int| 0 <= j < rev@.len() ==> rev@[j]@ == all[n - 1 - j],
        decreases more@.len(),
    {
        let f = more.pop().unwrap();
        rev.push(f);
    }
    while rev.len() > 0
        invariant
            rev@.len() <= n,
            n == all.len(),
            forall|j: int| 0 <= j < rev@.len() ==> rev@[j]@ == all[n - 1 - j],
            findings_view(out@) == start + all.take(n - rev@.len()),
        decreases rev@.len(),
    {
        let ghost len = rev@.len();
        let ghost lastv = rev@[len - 1];
        let f = rev.pop().unwrap();
        assert(f == lastv);
        assert(f@ == all[n - len]);
        let ghost before = findings_view(out@);
        out.push(f);
        assert(findings_view(out@) =~= before.push(f@));
        assert(all.take(n - len + 1) =~= all.take(n - len).push(all[n - len]));
        assert(findings_view(out@) =~= start + all.take(n - rev@.len()));
    }
    assert(all.take(n as int) =~= all);
}


/// The record lengths the check expects are the lengths the writer gives:
/// a fresh arc body, pad main block, track body and fill body each have the
/// expected length of its type, so a record holding one draws no length
/// finding. A text is expected at the full size that carries the barcode
/// and snap-point tail.
pub proof fn lemma_expected_lengths_are_written_lengths(
    a: crate::primitives::Arc,
    p: crate::pad::Pad,
    t: crate::primitives::Track,
    f: crate::primitives::Fill,
    b1: Seq<u8>,
    b2: Seq<u8>,
    b4: Seq<u8>,
    b6: Seq<u8>,
)
    ensures
        spec_expected_len(1) == Some(crate::shape_io::fresh_arc_body(a).len() as usize),
        spec_expected_len(2) == Some(crate::pad_io::fresh_pad_main(p).len() as usize),
        spec_expected_len(4) == Some(crate::primitive_io::fresh_track_body(t).len() as usize),
        spec_expected_len(6) == Some(crate::shape_io::fresh_fill_body(f).len() as usize),
        spec_expected_len(5) == Some(crate::text_io::TEXT_FULL_LEN),
        spec_main_block(1, b1) == crate::shape_io::fresh_arc_body(a) ==> spec_length_findings(seq![(1u8, b1)], 0)
            == Seq::<FindingView>::empty(),
        spec_main_block(2, b2) == crate::pad_io::fresh_pad_main(p) ==> spec_length_findings(seq![(2u8, b2)], 0)
            == Seq::<FindingView>::empty(),
        spec_main_block(4, b4) == crate::primitive_io::fresh_track_body(t) ==> spec_length_findings(
            seq![(4u8, b4)],
            0,
        ) == Seq::<FindingView>::empty(),
        spec_main_block(6, b6) == crate::shape_io::fresh_fill_body(f) ==> spec_length_findings(
            seq![(6u8, b6)],
            0,
        ) == Seq::<FindingView>::empty(),
{
    crate::shape_io::lemma_fresh_arc_layout(a);
    crate::pad_io::lemma_fresh_pad_main(p);
    crate::primitive_io::lemma_fresh_track_layout(t);
    crate::shape_io::lemma_fresh_fill_layout(f);
    assert(spec_length_findings(seq![(1u8, b1)], 1) =~= Seq::<FindingView>::empty());
    assert(spec_length_findings(seq![(2u8, b2)], 1) =~= Seq::<FindingView>::empty());
    assert(spec_length_findings(seq![(4u8, b4)], 1) =~= Seq::<FindingView>::empty());
    assert(spec_length_findings(seq![(6u8, b6)], 1) =~= Seq::<FindingView>::empty());
}

} // verus!
