//! The primitives of a footprint's `Data` stream: each record decoded by
//! its type, in stream order.

use vstd::prelude::*;

use crate::body_io::{body_complete, body_params_of, body_shape_from, read_body_shape, BodyShape};
use crate::pad::Pad;
use crate::pad_io::{pad_block, pad_frames_fit, pad_read_from, read_pad};
use crate::parameter::ParameterMap;
use crate::primitive_io::{read_track, read_via, track_read_from, via_read_from, ReadError};
use crate::primitives::{Arc, Fill, Track, Via};
use crate::records::{clamped, len_at, records_view, spec_main_block, split_footprint_records, DataError, RawRecord};
use crate::region_io::{read_region_shape, region_body_complete, region_decoded, RegionShape};
use crate::shape_io::{arc_read_from, fill_read_from, read_arc, read_fill};
use crate::text_io::{read_text, text_complete, text_read_from, text_value, Text};

verus! {

/// A decoded primitive of a footprint. Regions and bodies come with their
/// parameter blocks.
pub enum Primitive {
    Arc(Arc),
    Pad(Pad),
    Via(Via),
    Track(Track),
    Text(Text),
    Fill(Fill),
    Region(RegionShape, ParameterMap),
    Body(BodyShape, ParameterMap),
}

/// Why a footprint's primitives could not be read.
pub enum FootprintError {
    /// The stream does not split into records.
    Records(DataError),
    /// Record `index` does not decode.
    Record(usize, ReadError),
}

/// The string block of a text record: the second block, clamped to the
/// record.
pub open spec fn text_string_block(b: Seq<u8>) -> Seq<u8> {
    let s = if b.len() >= 5 { b.skip(5 + len_at(b, 1)) } else { Seq::<u8>::empty() };
    clamped(s, 4, 4 + len_at(s, 0))
}

/// A record's bytes after its type byte.
pub open spec fn after_kind(b: Seq<u8>) -> Seq<u8> {
    if b.len() > 0 {
        b.skip(1)
    } else {
        b
    }
}

/// Whether a record decodes without error.
pub open spec fn record_ok(kind: u8, b: Seq<u8>) -> bool {
    let m = spec_main_block(kind, b);
    if kind == 1 {
        m.len() == 0 || m.len() >= 45
    } else if kind == 2 {
        let r = after_kind(b);
        pad_frames_fit(r, 5) && (pad_block(r, 4).len() == 0 || (pad_block(r, 4).len() >= 61 && pad_frames_fit(r, 6)))
    } else if kind == 3 {
        m.len() == 0 || m.len() == 31 || m.len() >= 209
    } else if kind == 4 {
        m.len() == 0 || m.len() >= 33
    } else if kind == 5 {
        m.len() == 0 || text_complete(m)
    } else if kind == 6 {
        m.len() == 0 || m.len() >= 37
    } else if kind == 11 {
        m.len() == 0 || region_body_complete(m)
    } else if kind == 12 {
        m.len() == 0 || body_complete(m)
    } else {
        true
    }
}

/// Whether a record that decodes gives a primitive (an empty body, an empty
/// text or an unknown type gives none).
pub open spec fn record_yields(kind: u8, b: Seq<u8>, wide: Seq<Seq<char>>) -> bool {
    let m = spec_main_block(kind, b);
    if kind == 2 {
        pad_block(after_kind(b), 4).len() > 0
    } else if kind == 5 {
        m.len() > 0 && text_value(m, text_string_block(b), wide).len() > 0
    } else {
        (kind == 1 || kind == 3 || kind == 4 || kind == 6 || kind == 11 || kind == 12) && m.len() > 0
    }
}

/// The primitive a record decodes to.
pub open spec fn primitive_from(p: Primitive, kind: u8, b: Seq<u8>, wide: Seq<Seq<char>>) -> bool {
    let m = spec_main_block(kind, b);
    match p {
        Primitive::Arc(a) => kind == 1 && arc_read_from(a, m),
        Primitive::Pad(x) => kind == 2 && pad_read_from(x, after_kind(b)),
        Primitive::Via(v) => kind == 3 && via_read_from(v, m),
        Primitive::Track(t) => kind == 4 && track_read_from(t, m),
        Primitive::Text(t) => kind == 5 && text_read_from(t, m, text_string_block(b), wide),
        Primitive::Fill(f) => kind == 6 && fill_read_from(f, m),
        Primitive::Region(s, params) => kind == 11 && params.wf() && region_decoded(s, params@, m),
        Primitive::Body(s, params) => kind == 12 && params.wf() && params@ == body_params_of(m) && body_shape_from(
            s,
            m,
        ),
    }
}

/// The primitives of a list of records, in order: one for each record that
/// yields one.
pub open spec fn primitives_from(ps: Seq<Primitive>, recs: Seq<(u8, Seq<u8>)>, wide: Seq<Seq<char>>) -> bool
    decreases recs.len(),
{
    if recs.len() == 0 {
        ps.len() == 0
    } else if record_yields(recs.last().0, recs.last().1, wide) {
        ps.len() > 0 && primitive_from(ps.last(), recs.last().0, recs.last().1, wide) && primitives_from(
            ps.drop_last(),
            recs.drop_last(),
            wide,
        )
    } else {
        primitives_from(ps, recs.drop_last(), wide)
    }
}

/// Index of the first record that does not decode.
pub open spec fn first_bad(recs: Seq<(u8, Seq<u8>)>) -> Option<int>
    decreases recs.len(),
{
    if recs.len() == 0 {
        None
    } else {
        match first_bad(recs.drop_last()) {
            Some(i) => Some(i),
            None => if !record_ok(recs.last().0, recs.last().1) {
                Some(recs.len() - 1)
            } else {
                None
            },
        }
    }
}

fn text_string_block_of(b: &[u8]) -> (r: &[u8])
    requires
        b@.len() >= 5 ==> 5 + len_at(b@, 1) <= b@.len(),
    ensures
        r@ == text_string_block(b@),
{
    let l1: usize = if b.len() >= 5 {
        crate::bytes::read_u32(b, 1).unwrap() as usize
    } else {
        0
    };
    let start: usize = if b.len() >= 5 {
        5 + l1
    } else {
        b.len()
    };
    let s = &b[start..b.len()];
    assert(s@ =~= if b@.len() >= 5 { b@.skip(5 + len_at(b@, 1)) } else { Seq::<u8>::empty() });
    let l2: usize = match crate::bytes::read_u32(s, 0) {
        Some(v) => v as usize,
        None => 0,
    };
    let from = if 4 < s.len() {
        4
    } else {
        s.len()
    };
    let to = if l2 < s.len() && 4 + l2 < s.len() {
        4 + l2
    } else {
        s.len()
    };
    assert(s@.subrange(from as int, to as int) =~= clamped(s@, 4, 4 + len_at(s@, 0)));
    &s[from..to]
}

/// Decodes one record: `Ok(None)` when it gives no primitive.
pub(crate) fn decode_record(r: &RawRecord, wide: &[String]) -> (out: Result<Option<Primitive>, ReadError>)
    requires
        r.kind == 5 && r.bytes@.len() >= 5 ==> 5 + len_at(r.bytes@, 1) <= r.bytes@.len(),
    ensures
        out is Err <==> !record_ok(r.kind, r.bytes@),
        out matches Ok(None) ==> !record_yields(r.kind, r.bytes@, wide@.map_values(|s: String| s@)),
        out matches Ok(Some(p)) ==> record_yields(r.kind, r.bytes@, wide@.map_values(|s: String| s@))
            && primitive_from(p, r.kind, r.bytes@, wide@.map_values(|s: String| s@)),
{
    let m = r.main_block();
    let k = r.kind;
    if k == 1 {
        match read_arc(vstd::slice::slice_to_vec(m)) {
            Ok(Some(a)) => Ok(Some(Primitive::Arc(a))),
            Ok(None) => Ok(None),
            Err(e) => Err(e),
        }
    } else if k == 2 {
        let b = r.bytes.as_slice();
        let rest = if b.len() > 0 {
            &b[1..b.len()]
        } else {
            b
        };
        assert(rest@ =~= after_kind(r.bytes@));
        match read_pad(rest) {
            Ok(Some(p)) => Ok(Some(Primitive::Pad(p))),
            Ok(None) => Ok(None),
            Err(e) => Err(e),
        }
    } else if k == 3 {
        match read_via(vstd::slice::slice_to_vec(m)) {
            Ok(Some(v)) => Ok(Some(Primitive::Via(v))),
            Ok(None) => Ok(None),
            Err(e) => Err(e),
        }
    } else if k == 4 {
        match read_track(vstd::slice::slice_to_vec(m)) {
            Ok(Some(t)) => Ok(Some(Primitive::Track(t))),
            Ok(None) => Ok(None),
            Err(e) => Err(e),
        }
    } else if k == 5 {
        let s = text_string_block_of(r.bytes.as_slice());
        match read_text(m, s, wide) {
            Ok(Some(t)) => Ok(Some(Primitive::Text(t))),
            Ok(None) => Ok(None),
            Err(e) => Err(e),
        }
    } else if k == 6 {
        match read_fill(vstd::slice::slice_to_vec(m)) {
            Ok(Some(f)) => Ok(Some(Primitive::Fill(f))),
            Ok(None) => Ok(None),
            Err(e) => Err(e),
        }
    } else if k == 11 {
        match read_region_shape(m) {
            Ok(Some((s, p))) => Ok(Some(Primitive::Region(s, p))),
            Ok(None) => Ok(None),
            Err(e) => Err(e),
        }
    } else if k == 12 {
        match read_body_shape(m) {
            Ok(Some((s, p))) => Ok(Some(Primitive::Body(s, p))),
            Ok(None) => Ok(None),
            Err(e) => Err(e),
        }
    } else {
        Ok(None)
    }
}

/// Decodes the primitives of a footprint's `Data` stream, in stream order,
/// with the wide strings its texts may name. An error when the stream does
/// not split into records, or names the first record that does not decode.
pub fn read_footprint_primitives(data: &[u8], wide: &[String]) -> (r: Result<Vec<Primitive>, FootprintError>)
    ensures
        match crate::records::spec_split_footprint(data@) {
            Err(e) => r matches Err(FootprintError::Records(e2)) && e2 == e,
            Ok((_, recs)) => match first_bad(recs) {
                Some(i) => r matches Err(FootprintError::Record(j, _)) && j == i,
                None => r matches Ok(ps) && primitives_from(ps@, recs, wide@.map_values(|s: String| s@)),
            },
        },
{
    let ghost ws = wide@.map_values(|s: String| s@);
    let (_, recs) = match split_footprint_records(data) {
        Ok(x) => x,
        Err(e) => return Err(FootprintError::Records(e)),
    };
    let ghost rv = records_view(recs@);
    proof {
        crate::lint_footprint::lemma_records_framed(data@, 4 + crate::bytes::u32_le(data@, 0));
    }
    let mut out: Vec<Primitive> = Vec::new();
    let mut i: usize = 0;
    while i < recs.len()
        invariant
            i <= recs@.len(),
            rv == records_view(recs@),
            ws == wide@.map_values(|s: String| s@),
            crate::records::spec_split_footprint(data@) matches Ok((_, x)) && x == rv,
            first_bad(rv.take(i as int)) is None,
            primitives_from(out@, rv.take(i as int), ws),
            forall|j: int| 0 <= j < rv.len() ==> crate::lint_footprint::first_block_inside(#[trigger] rv[j].1),
        decreases recs@.len() - i,
    {
        assert(rv.take(i + 1).drop_last() =~= rv.take(i as int));
        assert(rv.take(i + 1).last() == rv[i as int]);
        assert(rv[i as int] == (recs@[i as int].kind, recs@[i as int].bytes@));
        assert(crate::lint_footprint::first_block_inside(rv[i as int].1));
        match decode_record(&recs[i], wide) {
            Ok(Some(p)) => {
                let ghost before = out@;
                out.push(p);
                assert(out@.drop_last() =~= before);
            },
            Ok(None) => {},
            Err(e) => {
                proof {
                    lemma_first_bad_at(rv, i as int);
                }
                return Err(FootprintError::Record(i, e));
            },
        }
        i += 1;
    }
    assert(rv.take(recs@.len() as int) =~= rv);
    Ok(out)
}

pub(crate) proof fn lemma_first_bad_at(recs: Seq<(u8, Seq<u8>)>, i: int)
    requires
        0 <= i < recs.len(),
        first_bad(recs.take(i)) is None,
        !record_ok(recs[i].0, recs[i].1),
    ensures
        first_bad(recs) == Some(i),
    decreases recs.len() - i,
{
    if i + 1 < recs.len() {
        assert(recs.take(i + 1).drop_last() =~= recs.take(i));
        assert(recs.take(i + 1).last() == recs[i]);
        assert(first_bad(recs.take(i + 1)) == Some(i));
        lemma_first_bad_prefix(recs, i + 1);
    } else {
        assert(recs.drop_last() =~= recs.take(i));
    }
}

proof fn lemma_first_bad_prefix(recs: Seq<(u8, Seq<u8>)>, n: int)
    requires
        0 <= n <= recs.len(),
        first_bad(recs.take(n)) is Some,
    ensures
        first_bad(recs) == first_bad(recs.take(n)),
    decreases recs.len() - n,
{
    if n < recs.len() {
        assert(recs.take(n + 1).drop_last() =~= recs.take(n));
        lemma_first_bad_prefix(recs, n + 1);
    } else {
        assert(recs.take(n) =~= recs);
    }
}

} // verus!
