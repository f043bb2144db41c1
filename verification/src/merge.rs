//! Merging a sub-board's side tables into its parent's when boards are
//! flattened: union names, smart-union definitions, index-keyed
//! per-primitive records and embedded 3D models.

use vstd::prelude::*;

use crate::parameter::pairs_view;
use crate::rule::Net;
use crate::text::{owned, str_eq};
use crate::flatten::{
    find_value, id_key, lemma_find_value_bounds, param_records, push_record, record_bytes, remap_record_indices, spec_find_value,
    spec_param_records_from, spec_remap_record, union_view, PrimBases,
};

verus! {

// ---------------------------------------------------------------------------
// Union names

/// The parent's union names followed by each sub-board entry that is not
/// already there, with the ids that both sides use for different names.
pub open spec fn merged_unions(parent: Seq<(u32, Seq<u8>)>, sub: Seq<(u32, Seq<u8>)>) -> (Seq<(u32, Seq<u8>)>, Seq<u32>)
    decreases sub.len(),
{
    if sub.len() == 0 {
        (parent, seq![])
    } else {
        let (acc, warn) = merged_unions(parent, sub.drop_last());
        let e = sub.last();
        if acc.contains(e) {
            (acc, warn)
        } else if exists|k: int| 0 <= k < acc.len() && (#[trigger] acc[k]).0 == e.0 {
            (acc.push(e), warn.push(e.0))
        } else {
            (acc.push(e), warn)
        }
    }
}

fn copy_bytes(b: &[u8]) -> (r: Vec<u8>)
    ensures
        r@ == b@,
{
    let mut r: Vec<u8> = Vec::new();
    r.extend_from_slice(b);
    r
}

fn contains_entry(v: &Vec<(u32, Vec<u8>)>, id: u32, name: &[u8]) -> (r: (bool, bool))
    ensures
        r.0 == union_view(v@).contains((id, name@)),
        r.1 == exists|k: int| 0 <= k < union_view(v@).len() && (#[trigger] union_view(v@)[k]).0 == id,
{
    let mut same = false;
    let mut id_seen = false;
    let mut i: usize = 0;
    while i < v.len()
        invariant
            i <= v@.len(),
            same == exists|k: int| 0 <= k < i && union_view(v@)[k] == (id, name@),
            id_seen == exists|k: int| 0 <= k < i && (#[trigger] union_view(v@)[k]).0 == id,
        decreases v@.len() - i,
    {
        assert(union_view(v@)[i as int] == (v@[i as int].0, v@[i as int].1@));
        if v[i].0 == id {
            id_seen = true;
            if crate::lint_footprint::bytes_eq(v[i].1.as_slice(), name) {
                same = true;
            }
        }
        i += 1;
    }
    proof {
        if union_view(v@).contains((id, name@)) {
            let k = choose|k: int| 0 <= k < union_view(v@).len() && union_view(v@)[k] == (id, name@);
            assert(union_view(v@)[k] == (id, name@));
        }
    }
    (same, id_seen)
}

/// Merges a sub-board's union names into the parent's; the second result
/// lists the ids that both use for different names.
pub fn merge_union_entries(parent: &[(u32, Vec<u8>)], sub: &[(u32, Vec<u8>)]) -> (r: (Vec<(u32, Vec<u8>)>, Vec<u32>))
    ensures
        (union_view(r.0@), r.1@) == merged_unions(union_view(parent@), union_view(sub@)),
{
    let mut acc: Vec<(u32, Vec<u8>)> = Vec::new();
    let mut i: usize = 0;
    while i < parent.len()
        invariant
            i <= parent@.len(),
            acc@.len() == i,
            union_view(acc@) == union_view(parent@).take(i as int),
        decreases parent@.len() - i,
    {
        let ghost before = acc@;
        acc.push((parent[i].0, copy_bytes(parent[i].1.as_slice())));
        assert forall|k: int| 0 <= k <= i implies #[trigger] union_view(acc@)[k] == union_view(parent@)[k] by {
            if k < i {
                assert(acc@[k] == before[k]);
                assert(union_view(before)[k] == union_view(parent@).take(i as int)[k]);
            }
        }
        i += 1;
        assert(union_view(acc@) =~= union_view(parent@).take(i as int));
    }
    assert(union_view(parent@).take(parent@.len() as int) =~= union_view(parent@));
    let mut warn: Vec<u32> = Vec::new();
    let mut j: usize = 0;
    while j < sub.len()
        invariant
            j <= sub@.len(),
            (union_view(acc@), warn@) == merged_unions(union_view(parent@), union_view(sub@).take(j as int)),
        decreases sub@.len() - j,
    {
        let id = sub[j].0;
        let name = sub[j].1.as_slice();
        let ghost sv = union_view(sub@).take(j + 1);
        assert(sv.drop_last() =~= union_view(sub@).take(j as int));
        assert(sv.last() == (id, name@));
        let (same, seen) = contains_entry(&acc, id, name);
        if !same {
            if seen {
                warn.push(id);
            }
            acc.push((id, copy_bytes(name)));
            assert(union_view(acc@) =~= merged_unions(union_view(parent@), sv).0);
        }
        j += 1;
    }
    assert(union_view(sub@).take(sub@.len() as int) =~= union_view(sub@));
    (acc, warn)
}

/// Merging keeps the parent's union names first and in order, and every
/// name of the sub-board is in the result.
pub proof fn lemma_merged_unions_keep_both(parent: Seq<(u32, Seq<u8>)>, sub: Seq<(u32, Seq<u8>)>)
    ensures
        merged_unions(parent, sub).0.len() >= parent.len(),
        merged_unions(parent, sub).0.subrange(0, parent.len() as int) == parent,
        forall|k: int| 0 <= k < sub.len() ==> merged_unions(parent, sub).0.contains(#[trigger] sub[k]),
    decreases sub.len(),
{
    if sub.len() > 0 {
        let init = sub.drop_last();
        lemma_merged_unions_keep_both(parent, init);
        let acc = merged_unions(parent, init).0;
        let out = merged_unions(parent, sub).0;
        assert(out.subrange(0, parent.len() as int) =~= parent) by {
            assert(out == acc || out == acc.push(sub.last()));
            assert forall|k: int| 0 <= k < parent.len() implies out[k] == parent[k] by {
                assert(acc.subrange(0, parent.len() as int)[k] == acc[k]);
            }
        }
        assert forall|k: int| 0 <= k < sub.len() implies out.contains(#[trigger] sub[k]) by {
            if k < sub.len() - 1 {
                assert(init[k] == sub[k]);
                assert(acc.contains(init[k]));
                let w = choose|w: int| 0 <= w < acc.len() && acc[w] == init[k];
                if out != acc {
                    assert(out[w] == acc[w]);
                }
            } else {
                if out == acc {
                } else {
                    assert(out[out.len() - 1] == sub[k]);
                }
            }
        }
    }
}


// ---------------------------------------------------------------------------
// Record streams

/// The bytes of records, each after its length word.
pub open spec fn records_bytes(rs: Seq<Seq<u8>>) -> Seq<u8>
    decreases rs.len(),
{
    if rs.len() == 0 {
        seq![]
    } else {
        records_bytes(rs.drop_last()) + record_bytes(rs.last())
    }
}

/// The key `|UNIONINDEX=`.
pub open spec fn union_index_key() -> Seq<u8> {
    seq![124u8, 85u8, 78u8, 73u8, 79u8, 78u8, 73u8, 78u8, 68u8, 69u8, 88u8, 61u8]
}

/// The `UNIONINDEX` value of a record, if it has one.
pub open spec fn union_index_of(rec: Seq<u8>) -> Option<Seq<u8>> {
    match spec_find_value(rec, union_index_key()) {
        Some((s, e)) => Some(rec.subrange(s, e)),
        None => None,
    }
}

/// The sub-board's smart-union records that are not already among the
/// parent's (byte for byte), and the union indices of those that reuse an
/// index the parent defines.
pub open spec fn smart_union_merge(existing: Seq<Seq<u8>>, sub: Seq<Seq<u8>>) -> (Seq<Seq<u8>>, Seq<Seq<u8>>)
    decreases sub.len(),
{
    if sub.len() == 0 {
        (seq![], seq![])
    } else {
        let (app, warn) = smart_union_merge(existing, sub.drop_last());
        let r = sub.last();
        if existing.contains(r) {
            (app, warn)
        } else {
            let w = match union_index_of(r) {
                Some(idx) => if exists|k: int| 0 <= k < existing.len() && union_index_of(#[trigger] existing[k]) == Some(idx) {
                    warn.push(idx)
                } else {
                    warn
                },
                None => warn,
            };
            (app.push(r), w)
        }
    }
}

fn slices_view(v: &Vec<&[u8]>) -> (r: Ghost<Seq<Seq<u8>>>)
    ensures
        r@ == v@.map_values(|s: &[u8]| s@),
{
    Ghost(v@.map_values(|s: &[u8]| s@))
}

fn union_index_value(rec: &[u8]) -> (r: Option<Vec<u8>>)
    ensures
        match r {
            Some(v) => union_index_of(rec@) == Some(v@),
            None => union_index_of(rec@) is None,
        },
{
    let key: [u8; 12] = [124u8, 85u8, 78u8, 73u8, 79u8, 78u8, 73u8, 78u8, 68u8, 69u8, 88u8, 61u8];
    assert(key@ =~= union_index_key());
    match find_value(rec, &key) {
        Some((s, e)) => {
            proof {
                lemma_find_value_bounds(rec@, union_index_key());
            }
            assert(rec@.len() == rec.len());
            let v = copy_bytes(&rec[s..e]);
            Some(v)
        },
        None => None,
    }
}

/// Each record of a stream takes at least its four-byte length word.
proof fn lemma_records_fit(d: Seq<u8>, off: int)
    requires
        0 <= off <= d.len(),
    ensures
        4 * spec_param_records_from(d, off).len() <= d.len() - off,
    decreases d.len() - off,
{
    if off + 4 <= d.len() {
        let len = crate::bytes::u32_le(d, off) % 0x100_0000;
        if off + 4 + len <= d.len() {
            lemma_records_fit(d, off + 4 + len);
        }
    }
}

/// Appends the sub-board's smart-union records to the parent's stream,
/// skipping those the parent already holds byte for byte. Returns the
/// stream, its record count, and the union indices that both sides define.
pub fn merge_smart_unions(parent: &[u8], sub: &[u8]) -> (r: (Vec<u8>, usize, Vec<Vec<u8>>))
    ensures
        ({
            let (app, warn) = smart_union_merge(spec_param_records_from(parent@, 0), spec_param_records_from(sub@, 0));
            &&& r.0@ == parent@ + records_bytes(app)
            &&& r.1 == spec_param_records_from(parent@, 0).len() + app.len()
            &&& r.2@.map_values(|v: Vec<u8>| v@) == warn
        }),
{
    let existing = param_records(parent);
    let ghost ex = spec_param_records_from(parent@, 0);
    assert(existing@.map_values(|s: &[u8]| s@) =~= ex);
    let subs = param_records(sub);
    let ghost sv = spec_param_records_from(sub@, 0);
    proof {
        lemma_records_fit(parent@, 0);
        lemma_records_fit(sub@, 0);
        assert(parent@.len() == parent.len() && sub@.len() == sub.len());
    }
    let mut data: Vec<u8> = copy_bytes(parent);
    let mut count: usize = existing.len();
    let mut warn: Vec<Vec<u8>> = Vec::new();
    let mut j: usize = 0;
    while j < subs.len()
        invariant
            j <= subs@.len(),
            subs@.len() == sv.len(),
            forall|i: int| 0 <= i < subs@.len() ==> (#[trigger] subs@[i])@ == sv[i],
            existing@.len() == ex.len(),
            4 * ex.len() <= parent.len(),
            4 * sv.len() <= sub.len(),
            forall|i: int| 0 <= i < existing@.len() ==> (#[trigger] existing@[i])@ == ex[i],
            ({
                let (app, w) = smart_union_merge(ex, sv.take(j as int));
                &&& data@ == parent@ + records_bytes(app)
                &&& count == ex.len() + app.len()
                &&& warn@.map_values(|v: Vec<u8>| v@) == w
                &&& app.len() <= j
            }),
        decreases subs@.len() - j,
    {
        let rec = subs[j];
        let ghost t = sv.take(j + 1);
        assert(t.drop_last() =~= sv.take(j as int));
        assert(t.last() == rec@);
        let mut dup = false;
        let mut clash = false;
        let idx = union_index_value(rec);
        let mut k: usize = 0;
        while k < existing.len()
            invariant
                k <= existing@.len(),
                existing@.len() == ex.len(),
                forall|i: int| 0 <= i < existing@.len() ==> (#[trigger] existing@[i])@ == ex[i],
                dup == exists|i: int| 0 <= i < k && ex[i] == rec@,
                idx is Some ==> (clash == exists|i: int| 0 <= i < k && union_index_of(#[trigger] ex[i]) == Some(idx->0@)),
            decreases existing@.len() - k,
        {
            let e = existing[k];
            if crate::lint_footprint::bytes_eq(e, rec) {
                dup = true;
            }
            if let Some(ix) = &idx {
                if let Some(ev) = union_index_value(e) {
                    if crate::lint_footprint::bytes_eq(ev.as_slice(), ix.as_slice()) {
                        clash = true;
                    }
                }
            }
            k += 1;
        }
        proof {
            if ex.contains(rec@) {
                let w = choose|w: int| 0 <= w < ex.len() && ex[w] == rec@;
                assert(ex[w] == rec@);
            }
        }
        if !dup {
            let ghost before = warn@.map_values(|v: Vec<u8>| v@);
            if let Some(ix) = idx {
                if clash {
                    warn.push(ix);
                    assert(warn@.map_values(|v: Vec<u8>| v@) =~= before.push(ix@));
                }
            }
            let ghost d0 = data@;
            push_record(&mut data, rec);
            proof {
                let (app, w) = smart_union_merge(ex, sv.take(j as int));
                assert(app.push(rec@).drop_last() =~= app);
                assert(data@ =~= parent@ + records_bytes(app.push(rec@)));
            }
            count = count + 1;
        }
        j += 1;
    }
    assert(sv.take(subs@.len() as int) =~= sv);
    (data, count, warn)
}

/// The records of a stream with their primitive indices moved by `b`.
pub open spec fn remapped(recs: Seq<Seq<u8>>, b: PrimBases) -> Seq<Seq<u8>> {
    recs.map_values(|r: Seq<u8>| spec_remap_record(r, b))
}

/// Appends the sub-board's records of an index-keyed per-primitive stream
/// to the parent's, each with its primitive indices moved past the
/// parent's primitives.
pub fn append_remapped(parent: &[u8], sub: &[u8], bases: &PrimBases) -> (r: Vec<u8>)
    ensures
        r@ == parent@ + records_bytes(remapped(spec_param_records_from(sub@, 0), *bases)),
{
    let subs = param_records(sub);
    let ghost sv = spec_param_records_from(sub@, 0);
    let mut data: Vec<u8> = copy_bytes(parent);
    let mut j: usize = 0;
    while j < subs.len()
        invariant
            j <= subs@.len(),
            subs@.len() == sv.len(),
            forall|i: int| 0 <= i < subs@.len() ==> (#[trigger] subs@[i])@ == sv[i],
            data@ == parent@ + records_bytes(remapped(sv.take(j as int), *bases)),
        decreases subs@.len() - j,
    {
        let body = remap_record_indices(subs[j], bases);
        assert(remapped(sv.take(j + 1), *bases).drop_last() =~= remapped(sv.take(j as int), *bases));
        assert(remapped(sv.take(j + 1), *bases).last() == body@);
        push_record(&mut data, body.as_slice());
        j += 1;
    }
    assert(sv.take(subs@.len() as int) =~= sv);
    data
}


// ---------------------------------------------------------------------------
// Embedded models

/// A byte with ASCII lower case raised.
pub open spec fn upper_byte(b: u8) -> u8 {
    if 97 <= b <= 122 {
        (b - 32) as u8
    } else {
        b
    }
}

/// The model GUID a `Models/Data` record holds (its `ID`, upper-cased).
pub open spec fn model_id(rec: Seq<u8>) -> Option<Seq<u8>> {
    let probe = seq![124u8] + rec;
    match spec_find_value(probe, id_key()) {
        Some((s, e)) => Some(probe.subrange(s, e).map_values(|b: u8| upper_byte(b))),
        None => None,
    }
}

/// The GUIDs of the records that have one, in order.
pub open spec fn model_ids_of(recs: Seq<Seq<u8>>) -> Seq<Seq<u8>>
    decreases recs.len(),
{
    if recs.len() == 0 {
        seq![]
    } else {
        let rest = model_ids_of(recs.drop_last());
        match model_id(recs.last()) {
            Some(id) => rest.push(id),
            None => rest,
        }
    }
}

/// Which of the first `n` sub-board model records are taken over (those
/// whose payload stream exists and whose GUID is not already embedded),
/// and the GUIDs known after them.
pub open spec fn models_taken(ids: Seq<Seq<u8>>, sub: Seq<Seq<u8>>, present: Seq<bool>, n: nat) -> (Seq<int>, Seq<Seq<u8>>)
    decreases n,
{
    if n == 0 {
        (seq![], ids)
    } else {
        let (taken, known) = models_taken(ids, sub, present, (n - 1) as nat);
        let i = n - 1;
        if i >= present.len() || !present[i] {
            (taken, known)
        } else {
            match model_id(sub[i]) {
                Some(id) => if known.contains(id) {
                    (taken, known)
                } else {
                    (taken.push(i), known.push(id))
                },
                None => (taken.push(i), known),
            }
        }
    }
}

/// The records at the given indices.
pub open spec fn picked(sub: Seq<Seq<u8>>, idx: Seq<int>) -> Seq<Seq<u8>> {
    idx.map_values(|i: int| sub[i])
}

fn copy_upper(b: &[u8]) -> (r: Vec<u8>)
    ensures
        r@ == b@.map_values(|x: u8| upper_byte(x)),
{
    let mut r: Vec<u8> = Vec::new();
    let mut i: usize = 0;
    while i < b.len()
        invariant
            i <= b@.len(),
            r@ == b@.take(i as int).map_values(|x: u8| upper_byte(x)),
        decreases b@.len() - i,
    {
        let x = b[i];
        r.push(if 97 <= x && x <= 122 { x - 32 } else { x });
        i += 1;
        assert(r@ =~= b@.take(i as int).map_values(|x: u8| upper_byte(x)));
    }
    assert(b@.take(b@.len() as int) =~= b@);
    r
}

/// The model GUID a `Models/Data` record holds (its `ID`, upper-cased).
pub fn model_record_id(rec: &[u8]) -> (r: Option<Vec<u8>>)
    ensures
        match r {
            Some(v) => model_id(rec@) == Some(v@),
            None => model_id(rec@) is None,
        },
{
    let mut probe: Vec<u8> = Vec::new();
    probe.push(124u8);
    probe.extend_from_slice(rec);
    assert(probe@ =~= seq![124u8] + rec@);
    let key: [u8; 4] = [124u8, 73u8, 68u8, 61u8];
    assert(key@ =~= id_key());
    match find_value(probe.as_slice(), &key) {
        Some((s, e)) => {
            proof {
                lemma_find_value_bounds(probe@, id_key());
            }
            Some(copy_upper(&probe.as_slice()[s..e]))
        },
        None => None,
    }
}

fn contains_bytes(v: &Vec<Vec<u8>>, x: &[u8]) -> (r: bool)
    ensures
        r == v@.map_values(|e: Vec<u8>| e@).contains(x@),
{
    let mut i: usize = 0;
    while i < v.len()
        invariant
            i <= v@.len(),
            forall|k: int| 0 <= k < i ==> v@[k]@ != x@,
        decreases v@.len() - i,
    {
        if crate::lint_footprint::bytes_eq(v[i].as_slice(), x) {
            assert(v@.map_values(|e: Vec<u8>| e@)[i as int] == x@);
            return true;
        }
        i += 1;
    }
    false
}

/// Appends the sub-board's model records to the parent's `Models/Data`,
/// taking each whose payload stream exists (`has_stream`, by index) and
/// whose GUID the parent (or an earlier taken record) does not already
/// embed. Returns the stream and the sub-board indices taken, in order;
/// their payloads follow the parent's in that order.
pub fn merge_models(parent: &[u8], sub: &[u8], has_stream: &[bool]) -> (r: (Vec<u8>, Vec<usize>))
    ensures
        ({
            let sv = spec_param_records_from(sub@, 0);
            let (taken, _known) = models_taken(
                model_ids_of(spec_param_records_from(parent@, 0)),
                sv,
                has_stream@,
                sv.len(),
            );
            &&& r.0@ == parent@ + records_bytes(picked(sv, taken))
            &&& r.1@.map_values(|i: usize| i as int) == taken
        }),
{
    let existing = param_records(parent);
    let ghost ex = spec_param_records_from(parent@, 0);
    let mut known: Vec<Vec<u8>> = Vec::new();
    let mut i: usize = 0;
    while i < existing.len()
        invariant
            i <= existing@.len(),
            existing@.len() == ex.len(),
            forall|k: int| 0 <= k < existing@.len() ==> (#[trigger] existing@[k])@ == ex[k],
            known@.map_values(|e: Vec<u8>| e@) == model_ids_of(ex.take(i as int)),
        decreases existing@.len() - i,
    {
        assert(ex.take(i + 1).drop_last() =~= ex.take(i as int));
        if let Some(id) = model_record_id(existing[i]) {
            known.push(id);
        }
        i += 1;
        assert(known@.map_values(|e: Vec<u8>| e@) =~= model_ids_of(ex.take(i as int)));
    }
    assert(ex.take(existing@.len() as int) =~= ex);
    let subs = param_records(sub);
    let ghost sv = spec_param_records_from(sub@, 0);
    let ghost ids0 = model_ids_of(ex);
    let mut data: Vec<u8> = copy_bytes(parent);
    let mut taken: Vec<usize> = Vec::new();
    let mut j: usize = 0;
    while j < subs.len()
        invariant
            j <= subs@.len(),
            subs@.len() == sv.len(),
            forall|k: int| 0 <= k < subs@.len() ==> (#[trigger] subs@[k])@ == sv[k],
            ({
                let (t, kn) = models_taken(ids0, sv, has_stream@, j as nat);
                &&& data@ == parent@ + records_bytes(picked(sv, t))
                &&& taken@.map_values(|i: usize| i as int) == t
                &&& known@.map_values(|e: Vec<u8>| e@) == kn
            }),
        decreases subs@.len() - j,
    {
        let ghost t0 = models_taken(ids0, sv, has_stream@, j as nat).0;
        if j < has_stream.len() && has_stream[j] {
            let rec = subs[j];
            let take = match model_record_id(rec) {
                Some(id) => {
                    if contains_bytes(&known, id.as_slice()) {
                        false
                    } else {
                        let ghost kb = known@.map_values(|e: Vec<u8>| e@);
                        known.push(id);
                        assert(known@.map_values(|e: Vec<u8>| e@) =~= kb.push(model_id(rec@)->0));
                        true
                    }
                },
                None => true,
            };
            if take {
                push_record(&mut data, rec);
                taken.push(j);
                proof {
                    assert(picked(sv, t0.push(j as int)).drop_last() =~= picked(sv, t0));
                    assert(taken@.map_values(|i: usize| i as int) =~= t0.push(j as int));
                }
            }
        }
        j += 1;
    }
    (data, taken)
}

// ---------------------------------------------------------------------------
// Nets

/// Index of the first name equal to `x`.
pub open spec fn first_index(names: Seq<Seq<char>>, x: Seq<char>) -> Option<int>
    decreases names.len(),
{
    if names.len() == 0 {
        None
    } else {
        match first_index(names.drop_last(), x) {
            Some(i) => Some(i),
            None => if names.last() == x {
                Some(names.len() - 1)
            } else {
                None
            },
        }
    }
}

/// The names of a list of nets.
pub open spec fn net_names(nets: Seq<Net>) -> Seq<Seq<char>> {
    Seq::new(nets.len(), |i: int| nets[i].name@)
}

/// The names after merging `src` into `names`: each source name that is
/// not there yet is appended, in order.
pub open spec fn merged_names(names: Seq<Seq<char>>, src: Seq<Seq<char>>) -> Seq<Seq<char>>
    decreases src.len(),
{
    if src.len() == 0 {
        names
    } else {
        let m = merged_names(names, src.drop_last());
        if first_index(m, src.last()) is Some {
            m
        } else {
            m.push(src.last())
        }
    }
}

proof fn lemma_first_index_props(s: Seq<Seq<char>>, x: Seq<char>)
    ensures
        first_index(s, x) matches Some(i) ==> 0 <= i < s.len() && s[i] == x && forall|j: int| 0 <= j < i ==> s[j] != x,
        first_index(s, x) is None ==> forall|j: int| 0 <= j < s.len() ==> s[j] != x,
    decreases s.len(),
{
    if s.len() > 0 {
        lemma_first_index_props(s.drop_last(), x);
        assert forall|j: int| 0 <= j < s.len() - 1 implies s.drop_last()[j] == s[j] by {}
    }
}

proof fn lemma_first_index_push(s: Seq<Seq<char>>, y: Seq<char>, x: Seq<char>)
    requires
        first_index(s, x) is Some,
    ensures
        first_index(s.push(y), x) == first_index(s, x),
{
    assert(s.push(y).drop_last() =~= s);
}

proof fn lemma_merged_keeps(names: Seq<Seq<char>>, src: Seq<Seq<char>>, k: int, x: Seq<char>)
    requires
        0 <= k <= src.len(),
        first_index(merged_names(names, src.take(k)), x) is Some,
    ensures
        first_index(merged_names(names, src), x) == first_index(merged_names(names, src.take(k)), x),
    decreases src.len() - k,
{
    if k < src.len() {
        assert(src.take(k + 1).drop_last() =~= src.take(k));
        let m = merged_names(names, src.take(k));
        if first_index(m, src[k]) is None {
            lemma_first_index_push(m, src[k], x);
        }
        assert(src.take(k + 1).last() == src[k]);
        lemma_merged_keeps(names, src, k + 1, x);
    } else {
        assert(src.take(k) =~= src);
    }
}

fn copy_net(n: &Net) -> (r: Net)
    ensures
        r.name@ == n.name@,
        pairs_view(r.parameters@) == pairs_view(n.parameters@),
{
    let mut ps: Vec<(String, String)> = Vec::new();
    let mut i: usize = 0;
    while i < n.parameters.len()
        invariant
            i <= n.parameters@.len(),
            pairs_view(ps@) == pairs_view(n.parameters@).take(i as int),
        decreases n.parameters@.len() - i,
    {
        let ghost before = ps@;
        ps.push((owned(n.parameters[i].0.as_str()), owned(n.parameters[i].1.as_str())));
        assert(pairs_view(ps@) =~= pairs_view(before).push(pairs_view(n.parameters@)[i as int]));
        assert(pairs_view(n.parameters@).take(i + 1) =~= pairs_view(n.parameters@).take(i as int).push(
            pairs_view(n.parameters@)[i as int],
        ));
        i += 1;
    }
    assert(pairs_view(n.parameters@).take(n.parameters@.len() as int) =~= pairs_view(n.parameters@));
    Net { name: owned(n.name.as_str()), parameters: ps }
}

/// A net is a copy of the first source net of its name: same name, same
/// parameter record.
pub open spec fn copied_from(n: Net, src: Seq<Net>) -> bool {
    match first_index(net_names(src), n.name@) {
        Some(i) => pairs_view(n.parameters@) == pairs_view(src[i].parameters@),
        None => false,
    }
}

fn find_net(nets: &Vec<Net>, name: &str) -> (r: Option<usize>)
    ensures
        r matches Some(i) ==> first_index(net_names(nets@), name@) == Some(i as int),
        r is None ==> first_index(net_names(nets@), name@) is None,
{
    let ghost names = net_names(nets@);
    proof {
        lemma_first_index_props(names, name@);
    }
    let mut i: usize = 0;
    while i < nets.len()
        invariant
            i <= nets@.len(),
            names == net_names(nets@),
            forall|j: int| 0 <= j < i ==> names[j] != name@,
        decreases nets@.len() - i,
    {
        if str_eq(nets[i].name.as_str(), name) {
            assert(names[i as int] == name@);
            proof {
                lemma_first_index_props(names, name@);
                if let Some(k) = first_index(names, name@) {
                    assert(names[k] == name@);
                }
            }
            return Some(i);
        }
        i += 1;
    }
    None
}

/// Merges the nets of a sub-board into the parent's by name: a net whose
/// name the parent already has maps to the first such parent net, any other
/// is appended as a copy of the first source net of that name, parameter
/// record included. Returns where each sub-board net landed, 1-based, after a
/// leading `0` for "no net".
pub fn merge_nets(out: &mut Vec<Net>, src: &[Net]) -> (map: Vec<u16>)
    ensures
        net_names(final(out)@) == merged_names(net_names(old(out)@), net_names(src@)),
        final(out)@.len() >= old(out)@.len(),
        forall|i: int| 0 <= i < old(out)@.len() ==> #[trigger] final(out)@[i] == old(out)@[i],
        map@.len() == src@.len() + 1,
        map@[0] == 0,
        forall|i: int|
            0 <= i < src@.len() ==> #[trigger] map@[i + 1] == (first_index(net_names(final(out)@), src@[i].name@)->0
                + 1) as u16,
        forall|i: int| 0 <= i < src@.len() ==> first_index(net_names(final(out)@), #[trigger] src@[i].name@) is Some,
        forall|j: int| old(out)@.len() <= j < final(out)@.len() ==> copied_from(#[trigger] final(out)@[j], src@),
{
    let ghost names0 = net_names(out@);
    let ghost srcn = net_names(src@);
    let mut map: Vec<u16> = Vec::new();
    map.push(0);
    let mut i: usize = 0;
    while i < src.len()
        invariant
            i <= src@.len(),
            srcn == net_names(src@),
            net_names(out@) == merged_names(names0, srcn.take(i as int)),
            out@.len() >= old(out)@.len(),
            forall|j: int| 0 <= j < old(out)@.len() ==> #[trigger] out@[j] == old(out)@[j],
            map@.len() == i + 1,
            map@[0] == 0,
            forall|j: int| 0 <= j < i ==> first_index(net_names(out@), #[trigger] srcn[j]) is Some,
            forall|j: int|
                0 <= j < i ==> #[trigger] map@[j + 1] == (first_index(net_names(out@), srcn[j])->0 + 1) as u16,
            forall|j: int| old(out)@.len() <= j < out@.len() ==> copied_from(#[trigger] out@[j], src@),
        decreases src@.len() - i,
    {
        let ghost before = net_names(out@);
        let ghost out0 = out@;
        assert(srcn.take(i + 1).drop_last() =~= srcn.take(i as int));
        assert(srcn.take(i + 1).last() == srcn[i as int]);
        assert(srcn[i as int] == src@[i as int].name@);
        let pos = match find_net(out, src[i].name.as_str()) {
            Some(p) => p,
            None => {
                let n = copy_net(&src[i]);
                proof {
                    lemma_first_index_props(srcn, srcn[i as int]);
                    let k = first_index(srcn, srcn[i as int])->0;
                    if k < i {
                        assert(first_index(before, srcn[k]) is Some);
                    }
                    assert(first_index(srcn, n.name@) == Some(i as int));
                    assert(copied_from(n, src@));
                }
                out.push(n);
                proof {
                    assert forall|j: int| old(out)@.len() <= j < out@.len() implies copied_from(#[trigger] out@[j], src@) by {
                        if j < out0.len() {
                            assert(out@[j] == out0[j]);
                        }
                    }
                    assert(net_names(out@) =~= before.push(srcn[i as int]));
                    assert(first_index(before, srcn[i as int]) is None);
                    assert(net_names(out@).drop_last() =~= before);
                    assert forall|j: int| 0 <= j < i implies first_index(net_names(out@), #[trigger] srcn[j]) is Some
                        && first_index(net_names(out@), srcn[j]) == first_index(before, srcn[j]) by {
                        lemma_first_index_push(before, srcn[i as int], srcn[j]);
                    }
                    assert forall|j: int| 0 <= j < out0.len() implies #[trigger] out@[j] == out0[j] by {}
                }
                out.len() - 1
            },
        };
        proof {
            lemma_first_index_props(net_names(out@), srcn[i as int]);
        }
        assert(first_index(net_names(out@), srcn[i as int]) == Some(pos as int));
        let ghost map0 = map@;
        map.push((pos as u128 + 1) as u16);
        assert(map@[i + 1] == (first_index(net_names(out@), srcn[i as int])->0 + 1) as u16);
        assert forall|j: int| 0 <= j < i implies #[trigger] map@[j + 1] == (first_index(net_names(out@), srcn[j])->0
            + 1) as u16 by {
            assert(map@[j + 1] == map0[j + 1]);
        }
        i += 1;
    }
    assert(srcn.take(src@.len() as int) =~= srcn);
    assert forall|j: int| 0 <= j < src@.len() implies first_index(net_names(out@), #[trigger] src@[j].name@) is Some
        && map@[j + 1] == (first_index(net_names(out@), src@[j].name@)->0 + 1) as u16 by {
        assert(srcn[j] == src@[j].name@);
    }
    map
}

/// Where a sub-board net index lands: its entry in the map, or "no net"
/// for an index outside it.
pub fn remap_net(map: &[u16], ni: u16) -> (r: u16)
    ensures
        r == (if (ni as int) < map@.len() { map@[ni as int] } else { 0 }),
{
    if (ni as usize) < map.len() {
        map[ni as usize]
    } else {
        0
    }
}

/// Where a sub-board component index lands: shifted by the parent's
/// component count; free primitives (negative index) stay free.
pub fn remap_component(ci: i32, base: i32) -> (r: i32)
    requires
        ci >= 0 ==> ci + base <= i32::MAX,
    ensures
        r == (if ci >= 0 { ci + base } else { ci as int }),
{
    if ci >= 0 {
        ci + base
    } else {
        ci
    }
}

} // verus!
