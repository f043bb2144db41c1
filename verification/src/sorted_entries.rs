//! Name/value lists kept in the order of their names, one entry per name, as
//! an ordered map holds them: names compare character by character by code
//! point, which is the byte order of their UTF-8 text.

use vstd::prelude::*;

use crate::parameter::{pairs_view, Entries};
use crate::text::{chars_of, owned};

verus! {

/// `a` sorts before `b`.
pub open spec fn text_lt(a: Seq<char>, b: Seq<char>) -> bool
    decreases a.len(),
{
    if a.len() == 0 {
        b.len() > 0
    } else if b.len() == 0 {
        false
    } else if a[0] < b[0] {
        true
    } else if a[0] > b[0] {
        false
    } else {
        text_lt(a.drop_first(), b.drop_first())
    }
}

pub proof fn lemma_text_lt_trichotomy(a: Seq<char>, b: Seq<char>)
    ensures
        text_lt(a, b) || text_lt(b, a) || a == b,
        !(text_lt(a, b) && text_lt(b, a)),
        text_lt(a, b) ==> a != b,
    decreases a.len(),
{
    if a.len() > 0 && b.len() > 0 && a[0] == b[0] {
        lemma_text_lt_trichotomy(a.drop_first(), b.drop_first());
        if a.drop_first() == b.drop_first() {
            assert(a =~= seq![a[0]] + a.drop_first());
            assert(b =~= seq![b[0]] + b.drop_first());
        }
    }
}

pub proof fn lemma_text_lt_trans(a: Seq<char>, b: Seq<char>, c: Seq<char>)
    requires
        text_lt(a, b),
        text_lt(b, c),
    ensures
        text_lt(a, c),
    decreases a.len(),
{
    if a.len() > 0 && b.len() > 0 && c.len() > 0 && a[0] == b[0] && b[0] == c[0] {
        lemma_text_lt_trans(a.drop_first(), b.drop_first(), c.drop_first());
    }
}

/// Names strictly increase along the list.
pub open spec fn strictly_sorted(e: Entries) -> bool {
    forall|i: int, j: int| 0 <= i < j < e.len() ==> text_lt(#[trigger] e[i].0, #[trigger] e[j].0)
}

/// The map a list stands for: each name to the value of its last entry.
pub open spec fn entries_map(e: Entries) -> Map<Seq<char>, Seq<char>>
    decreases e.len(),
{
    if e.len() == 0 {
        Map::empty()
    } else {
        entries_map(e.drop_last()).insert(e.last().0, e.last().1)
    }
}

proof fn lemma_sorted_map(e: Entries)
    requires
        strictly_sorted(e),
    ensures
        forall|k: Seq<char>| #[trigger] entries_map(e).contains_key(k) <==> exists|i: int| 0 <= i < e.len() && e[i].0 == k,
        forall|i: int| 0 <= i < e.len() ==> #[trigger] entries_map(e)[e[i].0] == e[i].1,
    decreases e.len(),
{
    if e.len() > 0 {
        let d = e.drop_last();
        assert(strictly_sorted(d)) by {
            assert forall|i: int, j: int| 0 <= i < j < d.len() implies text_lt(#[trigger] d[i].0, #[trigger] d[j].0) by {
                assert(d[i] == e[i] && d[j] == e[j]);
            }
        }
        lemma_sorted_map(d);
        assert forall|k: Seq<char>| #[trigger] entries_map(e).contains_key(k) <==> exists|i: int| 0 <= i < e.len() && e[i].0 == k by {
            if entries_map(e).contains_key(k) {
                if k == e.last().0 {
                    assert(e[e.len() - 1].0 == k);
                } else {
                    assert(entries_map(d).contains_key(k));
                    let i = choose|i: int| 0 <= i < d.len() && d[i].0 == k;
                    assert(e[i] == d[i]);
                    assert(e[i].0 == k);
                }
            }
            if exists|i: int| 0 <= i < e.len() && e[i].0 == k {
                let i = choose|i: int| 0 <= i < e.len() && e[i].0 == k;
                if i < e.len() - 1 {
                    assert(d[i] == e[i]);
                    assert(d[i].0 == k);
                    assert(entries_map(d).contains_key(k));
                }
            }
        }
        assert forall|i: int| 0 <= i < e.len() implies #[trigger] entries_map(e)[e[i].0] == e[i].1 by {
            if i < e.len() - 1 {
                assert(d[i] == e[i]);
                assert(text_lt(e[i].0, e[e.len() - 1].0));
                lemma_text_lt_trichotomy(e[i].0, e[e.len() - 1].0);
                assert(e[i].0 != e.last().0);
                assert(entries_map(d)[d[i].0] == d[i].1);
                assert(entries_map(e) == entries_map(d).insert(e.last().0, e.last().1));
            } else {
                assert(e[i] == e.last());
            }
        }
    }
}

/// Compares two texts by code point.
pub fn text_less(a: &[char], b: &[char]) -> (r: bool)
    ensures
        r == text_lt(a@, b@),
{
    let mut i: usize = 0;
    assert(a@.skip(0) =~= a@);
    assert(b@.skip(0) =~= b@);
    while i < a.len() && i < b.len()
        invariant
            i <= a@.len() && i <= b@.len(),
            text_lt(a@, b@) == text_lt(a@.skip(i as int), b@.skip(i as int)),
        decreases a@.len() - i,
    {
        let x = a[i];
        let y = b[i];
        assert(a@.skip(i as int)[0] == a@[i as int]);
        assert(b@.skip(i as int)[0] == b@[i as int]);
        if x < y {
            return true;
        }
        if x > y {
            return false;
        }
        assert(a@.skip(i as int).drop_first() =~= a@.skip(i + 1));
        assert(b@.skip(i as int).drop_first() =~= b@.skip(i + 1));
        i += 1;
    }
    i == a.len() && i < b.len()
}

/// Puts `name=value` into a sorted list: replaces the value of an entry of
/// that name, else inserts the entry where its name sorts.
fn put_sorted(v: &mut Vec<(String, String)>, name: &str, value: &str)
    requires
        strictly_sorted(pairs_view(old(v)@)),
    ensures
        strictly_sorted(pairs_view(final(v)@)),
        entries_map(pairs_view(final(v)@)) == entries_map(pairs_view(old(v)@)).insert(name@, value@),
{
    let ghost e0 = pairs_view(v@);
    proof {
        lemma_sorted_map(e0);
    }
    let n = chars_of(name);
    let mut p: usize = 0;
    while p < v.len()
        invariant
            p <= v@.len(),
            e0 == pairs_view(v@),
            n@ == name@,
            forall|j: int| 0 <= j < p ==> text_lt(#[trigger] e0[j].0, name@),
        ensures
            p <= v@.len(),
            forall|j: int| 0 <= j < p ==> text_lt(#[trigger] e0[j].0, name@),
            p < v@.len() ==> !text_lt(e0[p as int].0, name@),
        decreases v@.len() - p,
    {
        let k = chars_of(v[p].0.as_str());
        assert(e0[p as int].0 == k@);
        if !text_less(k.as_slice(), n.as_slice()) {
            break;
        }
        p += 1;
    }
    if p < v.len() && crate::text::str_eq(v[p].0.as_str(), name) {
        assert(e0[p as int].0 == name@);
        let key = owned(v[p].0.as_str());
        v.set(p, (key, owned(value)));
        proof {
            let e1 = pairs_view(v@);
            assert(e1 =~= e0.update(p as int, (name@, value@)));
            assert forall|i: int, j: int| 0 <= i < j < e1.len() implies text_lt(#[trigger] e1[i].0, #[trigger] e1[j].0) by {
                assert(e1[i].0 == e0[i].0 && e1[j].0 == e0[j].0);
            }
            lemma_sorted_map(e1);
            let m1 = entries_map(e1);
            let m0 = entries_map(e0).insert(name@, value@);
            assert forall|k: Seq<char>| #[trigger] m1.contains_key(k) <==> m0.contains_key(k) by {
                if m0.contains_key(k) {
                    if k == name@ {
                        assert(e1[p as int].0 == k);
                    } else {
                        assert(entries_map(e0).contains_key(k));
                        let i = choose|i: int| 0 <= i < e0.len() && e0[i].0 == k;
                        assert(e1[i].0 == k);
                    }
                }
                if m1.contains_key(k) {
                    let i = choose|i: int| 0 <= i < e1.len() && e1[i].0 == k;
                    if i != p {
                        assert(e0[i].0 == k);
                        assert(entries_map(e0).contains_key(k));
                    }
                }
            }
            assert forall|k: Seq<char>| #[trigger] m1.contains_key(k) implies m1[k] == m0[k] by {
                let i = choose|i: int| 0 <= i < e1.len() && e1[i].0 == k;
                assert(m1[e1[i].0] == e1[i].1);
                if i != p {
                    assert(e0[i] == e1[i]);
                    assert(entries_map(e0)[e0[i].0] == e0[i].1);
                    lemma_text_lt_trichotomy(e0[i].0, e0[p as int].0);
                }
            }
            assert(m1 =~= m0);
        }
    } else {
        proof {
            if p < v.len() {
                lemma_text_lt_trichotomy(e0[p as int].0, name@);
            }
        }
        v.insert(p, (owned(name), owned(value)));
        proof {
            let e1 = pairs_view(v@);
            assert(e1 =~= e0.insert(p as int, (name@, value@)));
            assert forall|i: int, j: int| 0 <= i < j < e1.len() implies text_lt(#[trigger] e1[i].0, #[trigger] e1[j].0) by {
                if j < p {
                    assert(e1[i] == e0[i] && e1[j] == e0[j]);
                } else if j == p {
                    assert(e1[i] == e0[i]);
                } else if i == p {
                    assert(e1[j] == e0[j - 1]);
                    if j - 1 > p {
                        assert(text_lt(e0[p as int].0, e0[j - 1].0));
                        lemma_text_lt_trans(name@, e0[p as int].0, e0[j - 1].0);
                    }
                } else if i < p {
                    assert(e1[i] == e0[i] && e1[j] == e0[j - 1]);
                    if j - 1 >= p {
                        if j - 1 > p {
                            assert(text_lt(e0[p as int].0, e0[j - 1].0));
                            lemma_text_lt_trans(name@, e0[p as int].0, e0[j - 1].0);
                        }
                        lemma_text_lt_trans(e0[i].0, name@, e0[j - 1].0);
                    }
                } else {
                    assert(e1[i] == e0[i - 1] && e1[j] == e0[j - 1]);
                }
            }
            lemma_sorted_map(e1);
            let m1 = entries_map(e1);
            let m0 = entries_map(e0).insert(name@, value@);
            assert forall|k: Seq<char>| #[trigger] m1.contains_key(k) <==> m0.contains_key(k) by {
                if m0.contains_key(k) {
                    if k == name@ {
                        assert(e1[p as int].0 == k);
                    } else {
                        assert(entries_map(e0).contains_key(k));
                        let i = choose|i: int| 0 <= i < e0.len() && e0[i].0 == k;
                        if i < p {
                            assert(e1[i].0 == k);
                        } else {
                            assert(e1[i + 1].0 == k);
                        }
                    }
                }
                if m1.contains_key(k) {
                    let i = choose|i: int| 0 <= i < e1.len() && e1[i].0 == k;
                    if i < p {
                        assert(e0[i].0 == k);
                        assert(entries_map(e0).contains_key(k));
                    } else if i > p {
                        assert(e0[i - 1].0 == k);
                        assert(entries_map(e0).contains_key(k));
                    }
                }
            }
            assert forall|k: Seq<char>| #[trigger] m1.contains_key(k) implies m1[k] == m0[k] by {
                let i = choose|i: int| 0 <= i < e1.len() && e1[i].0 == k;
                assert(m1[e1[i].0] == e1[i].1);
                if i < p {
                    assert(e1[i] == e0[i]);
                    assert(entries_map(e0)[e0[i].0] == e0[i].1);
                    lemma_text_lt_trichotomy(e0[i].0, name@);
                } else if i > p {
                    assert(e1[i] == e0[i - 1]);
                    assert(entries_map(e0)[e0[i - 1].0] == e0[i - 1].1);
                    assert(text_lt(e1[p as int].0, e1[i].0));
                    lemma_text_lt_trichotomy(name@, e1[i].0);
                }
            }
            assert(m1 =~= m0);
        }
    }
}

/// The entries of a list as an ordered map holds them: sorted by name, one
/// entry per name with the value of the last entry of that name.
pub fn sorted_by_name(pairs: &Vec<(String, String)>) -> (r: Vec<(String, String)>)
    ensures
        strictly_sorted(pairs_view(r@)),
        entries_map(pairs_view(r@)) == entries_map(pairs_view(pairs@)),
{
    let mut r: Vec<(String, String)> = Vec::new();
    let mut i: usize = 0;
    assert(pairs_view(r@) =~= Seq::<(Seq<char>, Seq<char>)>::empty());
    assert(entries_map(pairs_view(pairs@).take(0)) =~= entries_map(pairs_view(r@))) by {
        assert(pairs_view(pairs@).take(0) =~= Seq::<(Seq<char>, Seq<char>)>::empty());
    }
    while i < pairs.len()
        invariant
            i <= pairs@.len(),
            strictly_sorted(pairs_view(r@)),
            entries_map(pairs_view(r@)) == entries_map(pairs_view(pairs@).take(i as int)),
        decreases pairs@.len() - i,
    {
        let ghost e = pairs_view(pairs@);
        assert(e.take(i + 1).drop_last() =~= e.take(i as int));
        assert(e.take(i + 1).last() == e[i as int]);
        assert(e[i as int] == (pairs@[i as int].0@, pairs@[i as int].1@));
        put_sorted(&mut r, pairs[i].0.as_str(), pairs[i].1.as_str());
        i += 1;
    }
    assert(pairs_view(pairs@).take(pairs@.len() as int) =~= pairs_view(pairs@));
    r
}

} // verus!
