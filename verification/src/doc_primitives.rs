//! The per-type primitive streams of a board document (`Arcs6/Data`,
//! `Pads6/Data`, ...): each holds records of one type, and a record of any
//! other type is passed over as a single block.

use vstd::prelude::*;

use crate::bytes::u32_le;
use crate::footprint_io::{decode_record, first_bad, primitives_from, Primitive};
use crate::lint_footprint::first_block_inside;
use crate::primitive_io::ReadError;
use crate::records::{block_count, lemma_skip_blocks_bounds, records_view, skip_blocks, skip_blocks_exec, DataError, RawRecord};

verus! {

/// Why a document primitive stream could not be read.
pub enum DocStreamError {
    /// The stream does not split into records.
    Records(DataError),
    /// The record at this position among the stream's records of its type
    /// does not decode.
    Record(usize, ReadError),
}

/// Number of blocks a record takes in a stream of records of type
/// `stream_kind`: its own count when it has that type, one otherwise.
pub open spec fn doc_block_count(stream_kind: u8, kind: u8) -> nat {
    if kind == stream_kind {
        block_count(kind)
    } else {
        1
    }
}

/// The records of type `stream_kind` from offset `p` on, each as its type
/// byte and bytes; records of other types are passed over. Every byte left
/// starts a record, so a stream that ends inside one is an error.
pub open spec fn doc_records_from(data: Seq<u8>, p: int, stream_kind: u8) -> Result<Seq<(u8, Seq<u8>)>, DataError>
    decreases data.len() - p,
{
    if p < 0 || p >= data.len() {
        Ok(seq![])
    } else {
        let kind = data[p];
        match skip_blocks(data, p + 1, doc_block_count(stream_kind, kind)) {
            Err(e) => Err(e),
            Ok(q) => {
                proof {
                    lemma_skip_blocks_bounds(data, p + 1, doc_block_count(stream_kind, kind));
                }
                match doc_records_from(data, q, stream_kind) {
                    Ok(rest) => if kind == stream_kind {
                        Ok(seq![(kind, data.subrange(p, q))] + rest)
                    } else {
                        Ok(rest)
                    },
                    Err(e) => Err(e),
                }
            },
        }
    }
}

proof fn lemma_doc_records_framed(data: Seq<u8>, p: int, sk: u8)
    requires
        0 <= p,
        doc_records_from(data, p, sk) is Ok,
    ensures
        forall|i: int| 0 <= i < doc_records_from(data, p, sk)->Ok_0.len() ==> first_block_inside(
            #[trigger] doc_records_from(data, p, sk)->Ok_0[i].1,
        ),
        forall|i: int| 0 <= i < doc_records_from(data, p, sk)->Ok_0.len() ==> (#[trigger] doc_records_from(
            data,
            p,
            sk,
        )->Ok_0[i].0) == sk,
    decreases data.len() - p,
{
    if p < data.len() {
        let kind = data[p];
        let n = doc_block_count(sk, kind);
        let q = skip_blocks(data, p + 1, n)->Ok_0;
        lemma_skip_blocks_bounds(data, p + 1, n);
        let len1 = u32_le(data, p + 1);
        let q1 = p + 1 + 4 + len1;
        assert(q1 <= data.len());
        lemma_skip_blocks_bounds(data, q1, (n - 1) as nat);
        assert(q1 <= q);
        lemma_doc_records_framed(data, q, sk);
        let b = data.subrange(p, q);
        assert(u32_le(b, 1) == len1);
        let all = doc_records_from(data, p, sk)->Ok_0;
        let rest = doc_records_from(data, q, sk)->Ok_0;
        if kind == sk {
            assert forall|i: int| 0 <= i < all.len() implies first_block_inside(#[trigger] all[i].1) && all[i].0
                == sk by {
                if i > 0 {
                    assert(all[i] == rest[i - 1]);
                }
            }
        } else {
            assert(all == rest);
        }
    }
}

/// Splits a document primitive stream into its records of type
/// `stream_kind`.
fn split_doc_records(data: &[u8], stream_kind: u8) -> (r: Result<Vec<RawRecord>, DataError>)
    ensures
        r matches Ok(recs) ==> doc_records_from(data@, 0, stream_kind) == Ok::<
            Seq<(u8, Seq<u8>)>,
            DataError,
        >(records_view(recs@)),
        r matches Err(e) ==> doc_records_from(data@, 0, stream_kind) == Err::<Seq<(u8, Seq<u8>)>, DataError>(e),
{
    let mut p: usize = 0;
    let mut out: Vec<RawRecord> = Vec::new();
    while p < data.len()
        invariant
            p <= data@.len(),
            doc_records_from(data@, 0, stream_kind) == match doc_records_from(data@, p as int, stream_kind) {
                Ok(rest) => Ok::<Seq<(u8, Seq<u8>)>, DataError>(records_view(out@) + rest),
                Err(e) => Err::<Seq<(u8, Seq<u8>)>, DataError>(e),
            },
        decreases data@.len() - p,
    {
        let kind = data[p];
        let start = p;
        let nblocks: u64 = if kind != stream_kind {
            1
        } else if kind == 2 {
            6
        } else if kind == 5 {
            2
        } else {
            1
        };
        assert(nblocks == doc_block_count(stream_kind, kind));
        let q = match skip_blocks_exec(data, p + 1, nblocks) {
            Ok(q) => q,
            Err(e) => {
                return Err(e);
            },
        };
        proof {
            lemma_skip_blocks_bounds(data@, p + 1, nblocks as nat);
        }
        if kind == stream_kind {
            let rec = RawRecord { kind, bytes: vstd::slice::slice_to_vec(&data[start..q]) };
            let ghost old_out = out@;
            out.push(rec);
            proof {
                assert(records_view(out@) =~= records_view(old_out).push((kind, data@.subrange(p as int, q as int))));
                let tail = doc_records_from(data@, q as int, stream_kind);
                if let Ok(rest) = tail {
                    assert(records_view(old_out) + (seq![(kind, data@.subrange(p as int, q as int))] + rest)
                        =~= records_view(out@) + rest);
                }
            }
        }
        p = q;
    }
    Ok(out)
}

/// Decodes a document primitive stream whose records have type
/// `stream_kind`, in stream order, with the wide strings its texts may name;
/// records of other types are passed over. An error when the stream does not
/// split into records, or names the first record of the type that does not
/// decode.
pub fn read_doc_primitive_stream(data: &[u8], stream_kind: u8, wide: &[String]) -> (r: Result<
    Vec<Primitive>,
    DocStreamError,
>)
    ensures
        match doc_records_from(data@, 0, stream_kind) {
            Err(e) => r matches Err(DocStreamError::Records(e2)) && e2 == e,
            Ok(recs) => match first_bad(recs) {
                Some(i) => r matches Err(DocStreamError::Record(j, _)) && j == i,
                None => r matches Ok(ps) && primitives_from(ps@, recs, wide@.map_values(|s: String| s@)),
            },
        },
{
    let ghost ws = wide@.map_values(|s: String| s@);
    let recs = match split_doc_records(data, stream_kind) {
        Ok(x) => x,
        Err(e) => return Err(DocStreamError::Records(e)),
    };
    let ghost rv = records_view(recs@);
    proof {
        lemma_doc_records_framed(data@, 0, stream_kind);
    }
    let mut out: Vec<Primitive> = Vec::new();
    let mut i: usize = 0;
    while i < recs.len()
        invariant
            i <= recs@.len(),
            rv == records_view(recs@),
            ws == wide@.map_values(|s: String| s@),
            doc_records_from(data@, 0, stream_kind) == Ok::<Seq<(u8, Seq<u8>)>, DataError>(rv),
            first_bad(rv.take(i as int)) is None,
            primitives_from(out@, rv.take(i as int), ws),
            forall|j: int| 0 <= j < rv.len() ==> first_block_inside(#[trigger] rv[j].1),
        decreases recs@.len() - i,
    {
        assert(rv.take(i + 1).drop_last() =~= rv.take(i as int));
        assert(rv.take(i + 1).last() == rv[i as int]);
        assert(rv[i as int] == (recs@[i as int].kind, recs@[i as int].bytes@));
        assert(first_block_inside(rv[i as int].1));
        match decode_record(&recs[i], wide) {
            Ok(Some(p)) => {
                let ghost before = out@;
                out.push(p);
                assert(out@.drop_last() =~= before);
            },
            Ok(None) => {},
            Err(e) => {
                proof {
                    crate::footprint_io::lemma_first_bad_at(rv, i as int);
                }
                return Err(DocStreamError::Record(i, e));
            },
        }
        i += 1;
    }
    assert(rv.take(recs@.len() as int) =~= rv);
    Ok(out)
}

} // verus!
