//! Pick-and-place entries of a board's components: which components are
//! placed, what each row shows, and the designator order of the rows.

use vstd::prelude::*;

use crate::component_io::Component;
use crate::coord::{Coord, CoordPoint};
use crate::pnp::{designator_key, spec_designator_key};
use crate::sorted_entries::{lemma_text_lt_trans, lemma_text_lt_trichotomy, text_less, text_lt};
use crate::text::{chars_of, owned, seq_eq};

verus! {

/// One placement row. The rotation is the component's decimal rotation
/// text, when it has one.
pub struct PnpEntry {
    pub designator: String,
    pub comment: String,
    pub footprint: String,
    pub location: CoordPoint,
    pub rotation_text: Option<String>,
    pub bottom: bool,
    pub description: String,
}

/// What a row holds, as plain values.
pub type PnpView = (Seq<char>, Seq<char>, Seq<char>, CoordPoint, Option<Seq<char>>, bool, Seq<char>);

pub open spec fn opt_view(o: Option<String>) -> Option<Seq<char>> {
    match o {
        Some(s) => Some(s@),
        None => None,
    }
}

pub open spec fn text_or_empty(o: Option<String>) -> Seq<char> {
    match o {
        Some(s) => s@,
        None => Seq::<char>::empty(),
    }
}

pub open spec fn entry_view(e: PnpEntry) -> PnpView {
    (e.designator@, e.comment@, e.footprint@, e.location, opt_view(e.rotation_text), e.bottom, e.description@)
}

/// Whether a component is placed: standard components, and standard
/// components without a BOM entry when those are asked for.
pub open spec fn is_placed(c: Component, include_no_bom: bool) -> bool {
    c.component_kind == 0 || (include_no_bom && c.component_kind == 5)
}

/// The row of a component: its designator, its comment (else its library
/// reference), its footprint (else its name), its place relative to
/// `origin`, its rotation, its side and its description.
pub open spec fn row_of(c: Component, origin: CoordPoint) -> PnpView {
    (
        text_or_empty(c.source_designator),
        match c.comment {
            Some(s) => if s@.len() > 0 { s@ } else { text_or_empty(c.source_lib_reference) },
            None => text_or_empty(c.source_lib_reference),
        },
        match c.pattern {
            Some(s) => if s@.len() > 0 { s@ } else { c.name@ },
            None => c.name@,
        },
        CoordPoint {
            x: Coord { raw: (c.x.raw - origin.x.raw) as i32 },
            y: Coord { raw: (c.y.raw - origin.y.raw) as i32 },
        },
        opt_view(c.rotation_text),
        c.layer == 32,
        text_or_empty(c.source_description),
    )
}

/// The rows of the placed components, in component order.
pub open spec fn placed_rows(cs: Seq<Component>, origin: CoordPoint, include_no_bom: bool) -> Seq<PnpView>
    decreases cs.len(),
{
    if cs.len() == 0 {
        seq![]
    } else if is_placed(cs.last(), include_no_bom) {
        placed_rows(cs.drop_last(), origin, include_no_bom).push(row_of(cs.last(), origin))
    } else {
        placed_rows(cs.drop_last(), origin, include_no_bom)
    }
}

/// Designator keys in order: the prefix first, then the number.
pub open spec fn key_le(a: (Seq<char>, u64), b: (Seq<char>, u64)) -> bool {
    text_lt(a.0, b.0) || (a.0 == b.0 && a.1 <= b.1)
}

pub open spec fn row_key(v: PnpView) -> (Seq<char>, u64) {
    spec_designator_key(v.0)
}

/// `perm` lists each of `0..n` once.
pub open spec fn is_permutation(perm: Seq<int>, n: nat) -> bool {
    &&& perm.len() == n
    &&& forall|i: int| 0 <= i < n ==> 0 <= #[trigger] perm[i] < n
    &&& forall|i: int, j: int| 0 <= i < j < n ==> #[trigger] perm[i] != #[trigger] perm[j]
}

/// `rows` is `items` stably sorted by designator key: a rearrangement in
/// which keys never decrease and rows of equal key keep their order.
pub open spec fn stably_sorted_from(rows: Seq<PnpView>, items: Seq<PnpView>) -> bool {
    &&& rows.len() == items.len()
    &&& forall|a: int, b: int| 0 <= a < b < rows.len() ==> key_le(row_key(#[trigger] rows[a]), row_key(#[trigger] rows[b]))
    &&& exists|perm: Seq<int>| {
        &&& is_permutation(perm, items.len())
        &&& forall|i: int| 0 <= i < rows.len() ==> #[trigger] rows[i] == items[perm[i]]
        &&& forall|a: int, b: int|
            0 <= a < b < rows.len() && row_key(rows[a]) == row_key(rows[b]) ==> #[trigger] perm[a] < #[trigger] perm[b]
    }
}

proof fn lemma_key_le_total(a: (Seq<char>, u64), b: (Seq<char>, u64))
    ensures
        key_le(a, b) || key_le(b, a),
        key_le(a, b) && key_le(b, a) ==> a == b,
{
    lemma_text_lt_trichotomy(a.0, b.0);
}

proof fn lemma_key_le_trans(a: (Seq<char>, u64), b: (Seq<char>, u64), c: (Seq<char>, u64))
    requires
        key_le(a, b),
        key_le(b, c),
    ensures
        key_le(a, c),
{
    if text_lt(a.0, b.0) && text_lt(b.0, c.0) {
        lemma_text_lt_trans(a.0, b.0, c.0);
    }
}

fn opt_copy(o: &Option<String>) -> (r: Option<String>)
    ensures
        opt_view(r) == opt_view(*o),
{
    match o {
        Some(s) => Some(owned(s.as_str())),
        None => None,
    }
}

fn text_or_empty_exec(o: &Option<String>) -> (r: String)
    ensures
        r@ == text_or_empty(*o),
{
    match o {
        Some(s) => owned(s.as_str()),
        None => String::new(),
    }
}

fn row_of_exec(c: &Component, origin: CoordPoint) -> (r: PnpEntry)
    requires
        i32::MIN <= c.x.raw - origin.x.raw <= i32::MAX,
        i32::MIN <= c.y.raw - origin.y.raw <= i32::MAX,
    ensures
        entry_view(r) == row_of(*c, origin),
{
    let comment = match &c.comment {
        Some(s) => if chars_of(s.as_str()).len() > 0 {
            owned(s.as_str())
        } else {
            text_or_empty_exec(&c.source_lib_reference)
        },
        None => text_or_empty_exec(&c.source_lib_reference),
    };
    let footprint = match &c.pattern {
        Some(s) => if chars_of(s.as_str()).len() > 0 {
            owned(s.as_str())
        } else {
            owned(c.name.as_str())
        },
        None => owned(c.name.as_str()),
    };
    PnpEntry {
        designator: text_or_empty_exec(&c.source_designator),
        comment,
        footprint,
        location: CoordPoint::new(Coord::from_raw(c.x.raw - origin.x.raw), Coord::from_raw(c.y.raw - origin.y.raw)),
        rotation_text: opt_copy(&c.rotation_text),
        bottom: c.layer == 32,
        description: text_or_empty_exec(&c.source_description),
    }
}

fn key_le_exec(a: &String, b: &String) -> (r: bool)
    ensures
        r == key_le(spec_designator_key(a@), spec_designator_key(b@)),
{
    let ka = designator_key(a.as_str());
    let kb = designator_key(b.as_str());
    let ca = chars_of(ka.0.as_str());
    let cb = chars_of(kb.0.as_str());
    text_less(ca.as_slice(), cb.as_slice()) || (seq_eq(ca.as_slice(), cb.as_slice()) && ka.1 <= kb.1)
}

pub open spec fn views(v: Seq<PnpEntry>) -> Seq<PnpView> {
    v.map_values(|e: PnpEntry| entry_view(e))
}

/// Sorts rows by designator key, keeping rows of equal key in order.
pub fn sort_by_designator(items: Vec<PnpEntry>) -> (r: Vec<PnpEntry>)
    ensures
        stably_sorted_from(views(r@), views(items@)),
{
    let ghost iv = views(items@);
    let n = items.len();
    let mut r: Vec<PnpEntry> = Vec::new();
    let ghost mut perm: Seq<int> = Seq::empty();
    let mut items = items;
    let mut i: usize = 0;
    assert(iv.skip(0) =~= iv);
    while items.len() > 0
        invariant
            i + views(items@).len() == n,
            views(items@) == iv.skip(i as int),
            iv.len() == n,
            views(r@).len() == i,
            is_permutation(perm, i as nat),
            forall|k: int| 0 <= k < i ==> #[trigger] views(r@)[k] == iv[perm[k]],
            forall|a: int, b: int| 0 <= a < b < i ==> key_le(row_key(#[trigger] views(r@)[a]), row_key(#[trigger] views(r@)[b])),
            forall|a: int, b: int|
                0 <= a < b < i && row_key(views(r@)[a]) == row_key(views(r@)[b]) ==> #[trigger] perm[a] < #[trigger] perm[b],
        decreases items.len(),
    {
        let ghost sv = views(items@);
        let e = items.remove(0);
        proof {
            assert(sv[0] == entry_view(e));
            assert(iv.skip(i as int)[0] == iv[i as int]);
            assert(views(items@) =~= sv.skip(1));
            assert(iv.skip(i as int).skip(1) =~= iv.skip(i + 1));
        }
        let ghost rv = views(r@);
        let ghost ke = row_key(entry_view(e));
        let mut p: usize = 0;
        while p < r.len() && key_le_exec(&r[p].designator, &e.designator)
            invariant
                p <= r@.len(),
                rv == views(r@),
                ke == row_key(entry_view(e)),
                forall|k: int| 0 <= k < p ==> key_le(row_key(#[trigger] rv[k]), ke),
            decreases r@.len() - p,
        {
            assert(rv[p as int] == entry_view(r@[p as int]));
            p += 1;
        }
        proof {
            if p < r.len() {
                assert(rv[p as int] == entry_view(r@[p as int]));
                assert(!key_le(row_key(rv[p as int]), ke));
                lemma_key_le_total(row_key(rv[p as int]), ke);
            }
        }
        r.insert(p, e);
        proof {
            let nv = views(r@);
            assert(nv =~= rv.insert(p as int, iv[i as int]));
            let np = perm.insert(p as int, i as int);
            assert forall|k: int| 0 <= k < i + 1 implies #[trigger] nv[k] == iv[np[k]] by {
                if k < p {
                    assert(nv[k] == rv[k] && np[k] == perm[k]);
                } else if k > p {
                    assert(nv[k] == rv[k - 1] && np[k] == perm[k - 1]);
                }
            }
            assert forall|a: int, b: int| 0 <= a < b < i + 1 implies key_le(row_key(#[trigger] nv[a]), row_key(#[trigger] nv[b])) by {
                if b < p {
                    assert(nv[a] == rv[a] && nv[b] == rv[b]);
                } else if b == p {
                    assert(nv[a] == rv[a]);
                } else if a == p {
                    assert(nv[b] == rv[b - 1]);
                    if b - 1 > p {
                        assert(key_le(row_key(rv[p as int]), row_key(rv[b - 1])));
                        lemma_key_le_trans(ke, row_key(rv[p as int]), row_key(rv[b - 1]));
                    }
                } else if a < p {
                    assert(nv[a] == rv[a] && nv[b] == rv[b - 1]);
                    if b - 1 >= p {
                        if b - 1 > p {
                            assert(key_le(row_key(rv[p as int]), row_key(rv[b - 1])));
                            lemma_key_le_trans(ke, row_key(rv[p as int]), row_key(rv[b - 1]));
                        }
                        lemma_key_le_trans(row_key(rv[a]), ke, row_key(rv[b - 1]));
                    }
                } else {
                    assert(nv[a] == rv[a - 1] && nv[b] == rv[b - 1]);
                }
            }
            assert forall|a: int, b: int|
                0 <= a < b < i + 1 && row_key(nv[a]) == row_key(nv[b]) implies #[trigger] np[a] < #[trigger] np[b] by {
                if b < p {
                    assert(nv[a] == rv[a] && nv[b] == rv[b] && np[a] == perm[a] && np[b] == perm[b]);
                } else if b == p {
                    assert(np[b] == i);
                    assert(np[a] == perm[a]);
                } else if a == p {
                    assert(nv[b] == rv[b - 1]);
                    assert(key_le(row_key(rv[p as int]), row_key(rv[b - 1])));
                    lemma_key_le_trans(ke, row_key(rv[p as int]), row_key(rv[b - 1]));
                    lemma_key_le_total(row_key(rv[p as int]), ke);
                } else if a < p {
                    assert(nv[a] == rv[a] && nv[b] == rv[b - 1] && np[a] == perm[a] && np[b] == perm[b - 1]);
                } else {
                    assert(nv[a] == rv[a - 1] && nv[b] == rv[b - 1] && np[a] == perm[a - 1] && np[b] == perm[b - 1]);
                }
            }
            assert forall|k: int| 0 <= k < i + 1 implies 0 <= #[trigger] np[k] < i + 1 by {
                if k < p {
                    assert(np[k] == perm[k]);
                } else if k > p {
                    assert(np[k] == perm[k - 1]);
                }
            }
            assert forall|a: int, b: int| 0 <= a < b < i + 1 implies #[trigger] np[a] != #[trigger] np[b] by {
                if a < p && b < p {
                    assert(np[a] == perm[a] && np[b] == perm[b]);
                } else if a < p && b > p {
                    assert(np[a] == perm[a] && np[b] == perm[b - 1]);
                } else if a > p && b > p {
                    assert(np[a] == perm[a - 1] && np[b] == perm[b - 1]);
                } else if a == p {
                    assert(np[b] == perm[b - 1]);
                } else {
                    assert(np[a] == perm[a]);
                }
            }
            perm = np;
        }
        i += 1;
    }
    assert(forall|k: int| 0 <= k < n ==> #[trigger] views(r@)[k] == iv[perm[k]]);
    r
}

/// The placement rows of the placed components, relative to `origin` (the
/// board origin, or zero for absolute coordinates), stably sorted by
/// designator.
pub fn pnp_entries(components: &[Component], origin: CoordPoint, include_no_bom: bool) -> (r: Vec<PnpEntry>)
    requires
        forall|i: int|
            0 <= i < components@.len() ==> i32::MIN <= #[trigger] components@[i].x.raw - origin.x.raw <= i32::MAX
                && i32::MIN <= components@[i].y.raw - origin.y.raw <= i32::MAX,
    ensures
        stably_sorted_from(views(r@), placed_rows(components@, origin, include_no_bom)),
{
    let mut items: Vec<PnpEntry> = Vec::new();
    let mut i: usize = 0;
    while i < components.len()
        invariant
            i <= components@.len(),
            forall|k: int|
                0 <= k < components@.len() ==> i32::MIN <= #[trigger] components@[k].x.raw - origin.x.raw <= i32::MAX
                    && i32::MIN <= components@[k].y.raw - origin.y.raw <= i32::MAX,
            views(items@) == placed_rows(components@.take(i as int), origin, include_no_bom),
        decreases components@.len() - i,
    {
        let ghost cs = components@.take(i + 1);
        assert(cs.drop_last() =~= components@.take(i as int));
        assert(cs.last() == components@[i as int]);
        let c = &components[i];
        if c.component_kind == 0 || (include_no_bom && c.component_kind == 5) {
            let ghost before = views(items@);
            let row = row_of_exec(c, origin);
            items.push(row);
            assert(views(items@) =~= before.push(row_of(components@[i as int], origin)));
        }
        i += 1;
    }
    assert(components@.take(components@.len() as int) =~= components@);
    sort_by_designator(items)
}

} // verus!
