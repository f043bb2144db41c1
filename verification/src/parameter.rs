//! Ordered `KEY=value` parameter maps, as stored in Altium's `|`-separated
//! parameter blocks. Keys compare without regard to ASCII case; each key is
//! present at most once and keeps the spelling and position of its first
//! insertion.

use vstd::prelude::*;

use crate::encoding::{decode, encode, latin1, latin1_bytes};
use crate::text::{
    chars_eq_ignore_case, chars_of, eq_ignore_case, owned, parse_i32, parse_i32_chars, trim,
    trim_chars,
};

verus! {

/// The entries of a map: name and value of each, in order.
pub type Entries = Seq<(Seq<char>, Seq<char>)>;

/// Index of the entry whose name equals `key` up to ASCII case, if any (the
/// first such, though a well-formed map holds at most one).
pub open spec fn find_key(e: Entries, key: Seq<char>) -> Option<int>
    decreases e.len(),
{
    if e.len() == 0 {
        None
    } else {
        match find_key(e.drop_last(), key) {
            Some(i) => Some(i),
            None => if eq_ignore_case(e.last().0, key) {
                Some(e.len() - 1)
            } else {
                None
            },
        }
    }
}

/// The value stored under `key`.
pub open spec fn map_get(e: Entries, key: Seq<char>) -> Option<Seq<char>> {
    match find_key(e, key) {
        Some(i) => Some(e[i].1),
        None => None,
    }
}

/// The entries after inserting `key=value`: an existing entry keeps its name
/// and position and takes the new value; otherwise the pair is appended.
pub open spec fn map_insert(e: Entries, key: Seq<char>, value: Seq<char>) -> Entries {
    match find_key(e, key) {
        Some(i) => e.update(i, (e[i].0, value)),
        None => e.push((key, value)),
    }
}

/// The entries after inserting every pair in order.
pub open spec fn map_insert_all(e: Entries, pairs: Entries) -> Entries
    decreases pairs.len(),
{
    if pairs.len() == 0 {
        e
    } else {
        map_insert(map_insert_all(e, pairs.drop_last()), pairs.last().0, pairs.last().1)
    }
}

/// No two entries share a name up to ASCII case.
pub open spec fn keys_unique(e: Entries) -> bool {
    forall|i: int, j: int| 0 <= i < j < e.len() ==> !eq_ignore_case(#[trigger] e[i].0, #[trigger] e[j].0)
}

/// The view of a list of string pairs.
pub open spec fn pairs_view(v: Seq<(String, String)>) -> Entries {
    v.map_values(|p: (String, String)| (p.0@, p.1@))
}

/// An ordered parameter map.
pub struct ParameterMap {
    entries: Vec<(String, String)>,
}

impl View for ParameterMap {
    type V = Entries;

    closed spec fn view(&self) -> Entries {
        pairs_view(self.entries@)
    }
}

pub proof fn lemma_find_key_props(e: Entries, key: Seq<char>)
    ensures
        find_key(e, key) matches Some(i) ==> 0 <= i < e.len() && eq_ignore_case(e[i].0, key) && forall|j: int|
            0 <= j < i ==> !eq_ignore_case(#[trigger] e[j].0, key),
        find_key(e, key) is None ==> forall|j: int| 0 <= j < e.len() ==> !eq_ignore_case(#[trigger] e[j].0, key),
    decreases e.len(),
{
    if e.len() > 0 {
        let d = e.drop_last();
        lemma_find_key_props(d, key);
        assert forall|j: int| 0 <= j < d.len() implies #[trigger] d[j] == e[j] by {}
        match find_key(d, key) {
            Some(i) => {
                assert forall|j: int| 0 <= j < i implies !eq_ignore_case(#[trigger] e[j].0, key) by {
                    assert(d[j] == e[j]);
                }
            },
            None => {
                assert forall|j: int| 0 <= j < e.len() - 1 implies !eq_ignore_case(#[trigger] e[j].0, key) by {
                    assert(d[j] == e[j]);
                }
            },
        }
    }
}

/// Reading a key after writing it gives the written value; other keys are
/// untouched; names stay unique.
pub proof fn lemma_insert_get(e: Entries, key: Seq<char>, value: Seq<char>, other: Seq<char>)
    requires
        keys_unique(e),
    ensures
        map_get(map_insert(e, key, value), key) == Some(value),
        !eq_ignore_case(other, key) ==> map_get(map_insert(e, key, value), other) == map_get(e, other),
        keys_unique(map_insert(e, key, value)),
{
    let r = map_insert(e, key, value);
    lemma_find_key_props(e, key);
    lemma_find_key_props(r, key);
    lemma_find_key_props(e, other);
    lemma_find_key_props(r, other);
    match find_key(e, key) {
        Some(i) => {
            assert(r[i].0 == e[i].0);
            assert forall|a: int, b: int| 0 <= a < b < r.len() implies !eq_ignore_case(#[trigger] r[a].0, #[trigger] r[b].0) by {
                assert(r[a].0 == e[a].0);
                assert(r[b].0 == e[b].0);
            }
            if let Some(j) = find_key(r, key) {
                if j < i {
                    assert(r[j].0 == e[j].0);
                } else if j > i {
                    assert(eq_ignore_case(r[i].0, key));
                }
            }
            if !eq_ignore_case(other, key) {
                if let Some(j) = find_key(e, other) {
                    assert(j != i);
                    assert(r[j] == e[j]);
                    if let Some(k) = find_key(r, other) {
                        assert(r[k].0 == e[k].0);
                    }
                } else {
                    if let Some(k) = find_key(r, other) {
                        assert(r[k].0 == e[k].0);
                    }
                }
            }
        },
        None => {
            assert forall|a: int, b: int| 0 <= a < b < r.len() implies !eq_ignore_case(#[trigger] r[a].0, #[trigger] r[b].0) by {
                if b == e.len() {
                    assert(r[a] == e[a]);
                    assert(!eq_ignore_case(e[a].0, key));
                    assert(r[b].0 == key);
                }
            }
            if let Some(j) = find_key(r, key) {
                if j < e.len() {
                    assert(r[j] == e[j]);
                }
            }
            if !eq_ignore_case(other, key) {
                if let Some(j) = find_key(e, other) {
                    assert(r[j] == e[j]);
                    if let Some(k) = find_key(r, other) {
                        if k < e.len() {
                            assert(r[k] == e[k]);
                        }
                    }
                } else {
                    if let Some(k) = find_key(r, other) {
                        if k < e.len() {
                            assert(r[k] == e[k]);
                        } else {
                            assert(r[k].0 == key);
                            assert(eq_ignore_case(key, other)) by {
                                assert(crate::text::upper_seq(key) == crate::text::upper_seq(other));
                            }
                        }
                    }
                }
            }
        },
    }
}

impl ParameterMap {
    /// Names are unique up to ASCII case.
    pub open spec fn wf(&self) -> bool {
        keys_unique(self@)
    }

    pub fn new() -> (m: ParameterMap)
        ensures
            m.wf(),
            m@ == Seq::<(Seq<char>, Seq<char>)>::empty(),
    {
        let m = ParameterMap { entries: Vec::new() };
        assert(m@ =~= Seq::<(Seq<char>, Seq<char>)>::empty());
        m
    }

    /// Number of entries.
    pub fn len(&self) -> (n: usize)
        ensures
            n == self@.len(),
    {
        self.entries.len()
    }

    /// The entries, in order.
    pub fn entries(&self) -> (e: &Vec<(String, String)>)
        ensures
            pairs_view(e@) == self@,
    {
        &self.entries
    }

    fn find(&self, key: &str) -> (r: Option<usize>)
        ensures
            r matches Some(i) ==> find_key(self@, key@) == Some(i as int) && i < self@.len(),
            r is None ==> find_key(self@, key@) is None,
            self@.len() == self.entries@.len(),
    {
        proof {
            lemma_find_key_props(self@, key@);
        }
        let k = chars_of(key);
        let mut i: usize = 0;
        while i < self.entries.len()
            invariant
                i <= self@.len(),
                self@.len() == self.entries@.len(),
                self@ == pairs_view(self.entries@),
                k@ == key@,
                find_key(self@.take(i as int), key@) is None,
            decreases self@.len() - i,
        {
            let name = chars_of(self.entries[i].0.as_str());
            assert(self@.take(i + 1).drop_last() =~= self@.take(i as int));
            assert(self@[i as int].0 == name@);
            if chars_eq_ignore_case(&name, &k) {
                proof {
                    assert(find_key(self@.take(i + 1), key@) == Some(i as int));
                    lemma_find_key_prefix(self@, i + 1, key@);
                }
                return Some(i);
            }
            i += 1;
        }
        assert(self@.take(self@.len() as int) =~= self@);
        None
    }

    /// The value stored under `key` (ASCII case ignored).
    pub fn get(&self, key: &str) -> (r: Option<&str>)
        ensures
            r matches Some(v) ==> map_get(self@, key@) == Some(v@),
            r is None ==> map_get(self@, key@) is None,
    {
        match self.find(key) {
            Some(i) => {
                assert(self@[i as int].1 == self.entries@[i as int].1@);
                Some(self.entries[i].1.as_str())
            },
            None => None,
        }
    }

    /// Whether a value is stored under `key` (ASCII case ignored).
    pub fn contains_key(&self, key: &str) -> (r: bool)
        ensures
            r == (map_get(self@, key@) is Some),
    {
        self.find(key).is_some()
    }

    /// Stores `value` under `key`: replaces the value of an existing entry
    /// (keeping its name and position) or appends a new one.
    pub fn insert(&mut self, key: &str, value: &str)
        ensures
            final(self)@ == map_insert(old(self)@, key@, value@),
            old(self).wf() ==> final(self).wf(),
    {
        proof {
            if old(self).wf() {
                lemma_insert_get(old(self)@, key@, value@, key@);
            }
        }
        match self.find(key) {
            Some(i) => {
                let name = self.entries[i].0.clone();
                let ghost before = self.entries@;
                self.entries.set(i, (name, owned(value)));
                assert(self@ =~= map_insert(old(self)@, key@, value@));
            },
            None => {
                self.entries.push((owned(key), owned(value)));
                assert(self@ =~= map_insert(old(self)@, key@, value@));
            },
        }
    }

    /// The value under `key`, trimmed and read as an `i32`.
    pub fn get_i32(&self, key: &str) -> (r: Option<i32>)
        ensures
            r == (match map_get(self@, key@) {
                Some(v) => parse_i32(trim(v)),
                None => None,
            }),
    {
        match self.get(key) {
            Some(v) => {
                let c = chars_of(v);
                let t = trim_chars(&c);
                parse_i32_chars(&t)
            },
            None => None,
        }
    }

    /// A map holding the given pairs, inserted in order (a later duplicate
    /// overwrites the value of an earlier one).
    pub fn from_pairs(pairs: &[(String, String)]) -> (m: ParameterMap)
        ensures
            m.wf(),
            m@ == map_insert_all(Seq::<(Seq<char>, Seq<char>)>::empty(), pairs_view(pairs@)),
    {
        let mut m = ParameterMap::new();
        m.insert_all(pairs);
        assert(pairs_view(pairs@).take(pairs@.len() as int) =~= pairs_view(pairs@));
        m
    }

    /// Inserts every pair in order.
    pub fn insert_all(&mut self, pairs: &[(String, String)])
        ensures
            final(self)@ == map_insert_all(old(self)@, pairs_view(pairs@)),
            old(self).wf() ==> final(self).wf(),
    {
        let mut i: usize = 0;
        while i < pairs.len()
            invariant
                i <= pairs@.len(),
                self@ == map_insert_all(old(self)@, pairs_view(pairs@).take(i as int)),
                old(self).wf() ==> self.wf(),
            decreases pairs@.len() - i,
        {
            assert(pairs_view(pairs@).take(i + 1).drop_last() =~= pairs_view(pairs@).take(i as int));
            self.insert(pairs[i].0.as_str(), pairs[i].1.as_str());
            i += 1;
        }
        assert(pairs_view(pairs@).take(pairs@.len() as int) =~= pairs_view(pairs@));
    }
}

pub proof fn lemma_find_key_prefix(e: Entries, n: int, key: Seq<char>)
    requires
        0 <= n <= e.len(),
        find_key(e.take(n), key) is Some,
    ensures
        find_key(e, key) == find_key(e.take(n), key),
    decreases e.len() - n,
{
    if n < e.len() {
        assert(e.take(n + 1).drop_last() =~= e.take(n));
        lemma_find_key_prefix(e, n + 1, key);
    } else {
        assert(e.take(n) =~= e);
    }
}

/// Inserting the entries of a well-formed map, in order, into an empty map
/// rebuilds it.
pub proof fn lemma_insert_all_rebuilds(e: Entries)
    requires
        keys_unique(e),
    ensures
        map_insert_all(Seq::<(Seq<char>, Seq<char>)>::empty(), e) == e,
    decreases e.len(),
{
    if e.len() > 0 {
        let d = e.drop_last();
        assert forall|i: int, j: int| 0 <= i < j < d.len() implies !eq_ignore_case(#[trigger] d[i].0, #[trigger] d[j].0) by {
            assert(d[i] == e[i] && d[j] == e[j]);
        }
        lemma_insert_all_rebuilds(d);
        lemma_find_key_props(d, e.last().0);
        if let Some(i) = find_key(d, e.last().0) {
            assert(d[i] == e[i]);
            assert(!eq_ignore_case(e[i].0, e[e.len() - 1].0));
        }
        assert(d.push(e.last()) =~= e);
    }
}

/// Writing back the value a key already holds changes nothing.
pub proof fn lemma_insert_same(e: Entries, key: Seq<char>)
    requires
        map_get(e, key) is Some,
    ensures
        map_insert(e, key, map_get(e, key)->0) == e,
{
    lemma_find_key_props(e, key);
    let i = find_key(e, key)->0;
    assert(e.update(i, (e[i].0, e[i].1)) =~= e);
}

// ---------------------------------------------------------------------------
// Parameter blocks: `|KEY=value|KEY=value...` in single-byte text

/// The fields of `b` between occurrences of `sep` (one field when there is
/// none, an empty field at each end that holds one).
pub open spec fn split_bytes(b: Seq<u8>, sep: u8) -> Seq<Seq<u8>>
    decreases b.len(),
{
    if b.len() == 0 {
        seq![Seq::<u8>::empty()]
    } else {
        let parts = split_bytes(b.drop_last(), sep);
        if b.last() == sep {
            parts.push(Seq::<u8>::empty())
        } else {
            parts.update(parts.len() - 1, parts.last().push(b.last()))
        }
    }
}

pub proof fn lemma_split_bytes_nonempty(b: Seq<u8>, sep: u8)
    ensures
        split_bytes(b, sep).len() >= 1,
    decreases b.len(),
{
    if b.len() > 0 {
        lemma_split_bytes_nonempty(b.drop_last(), sep);
    }
}

/// The first position of `x` in `f`, if any.
pub open spec fn first_pos(f: Seq<u8>, x: u8) -> Option<int>
    decreases f.len(),
{
    if f.len() == 0 {
        None
    } else {
        match first_pos(f.drop_last(), x) {
            Some(i) => Some(i),
            None => if f.last() == x {
                Some(f.len() - 1)
            } else {
                None
            },
        }
    }
}

/// The entry a field holds: the text before its first `=` and the text
/// after it; a field without `=` holds none.
pub open spec fn field_entry(f: Seq<u8>) -> Option<(Seq<char>, Seq<char>)> {
    match first_pos(f, 61u8) {
        Some(i) => Some((latin1(f.subrange(0, i)), latin1(f.subrange(i + 1, f.len() as int)))),
        None => None,
    }
}

/// The entries of a list of fields, in order.
pub open spec fn fields_entries(fs: Seq<Seq<u8>>) -> Entries
    decreases fs.len(),
{
    if fs.len() == 0 {
        seq![]
    } else {
        match field_entry(fs.last()) {
            Some(e) => fields_entries(fs.drop_last()).push(e),
            None => fields_entries(fs.drop_last()),
        }
    }
}

/// The map a parameter block holds: its entries inserted in order.
pub open spec fn parse_block(b: Seq<u8>, sep: u8) -> Entries {
    map_insert_all(Seq::<(Seq<char>, Seq<char>)>::empty(), fields_entries(split_bytes(b, sep)))
}

/// The bytes of one entry: separator, name, `=`, value.
pub open spec fn entry_bytes(e: (Seq<char>, Seq<char>), sep: u8) -> Seq<u8> {
    seq![sep] + latin1_bytes(e.0) + seq![61u8] + latin1_bytes(e.1)
}

/// The bytes of a parameter block holding the entries in order.
pub open spec fn block_bytes(e: Entries, sep: u8) -> Seq<u8>
    decreases e.len(),
{
    if e.len() == 0 {
        seq![]
    } else {
        block_bytes(e.drop_last(), sep) + entry_bytes(e.last(), sep)
    }
}

fn split_fields(b: &[u8], sep: u8) -> (r: Vec<Vec<u8>>)
    ensures
        r@.len() == split_bytes(b@, sep).len(),
        forall|i: int| 0 <= i < r@.len() ==> (#[trigger] r@[i])@ == split_bytes(b@, sep)[i],
{
    let mut r: Vec<Vec<u8>> = Vec::new();
    let mut cur: Vec<u8> = Vec::new();
    let mut i: usize = 0;
    while i < b.len()
        invariant
            i <= b@.len(),
            r@.len() + 1 == split_bytes(b@.take(i as int), sep).len(),
            forall|k: int| 0 <= k < r@.len() ==> (#[trigger] r@[k])@ == split_bytes(b@.take(i as int), sep)[k],
            cur@ == split_bytes(b@.take(i as int), sep).last(),
        decreases b@.len() - i,
    {
        assert(b@.take(i + 1).drop_last() =~= b@.take(i as int));
        proof {
            lemma_split_bytes_nonempty(b@.take(i as int), sep);
        }
        if b[i] == sep {
            r.push(cur);
            cur = Vec::new();
        } else {
            cur.push(b[i]);
        }
        i += 1;
    }
    assert(b@.take(b@.len() as int) =~= b@);
    r.push(cur);
    r
}

/// The fields of `b` between occurrences of `sep`.
pub fn split_fields_pub(b: &[u8], sep: u8) -> (r: Vec<Vec<u8>>)
    ensures
        r@.len() == split_bytes(b@, sep).len(),
        forall|i: int| 0 <= i < r@.len() ==> (#[trigger] r@[i])@ == split_bytes(b@, sep)[i],
{
    split_fields(b, sep)
}

fn find_eq(f: &[u8]) -> (r: Option<usize>)
    ensures
        match r {
            Some(i) => first_pos(f@, 61u8) == Some(i as int) && i < f@.len(),
            None => first_pos(f@, 61u8) is None,
        },
{
    let mut i: usize = 0;
    while i < f.len()
        invariant
            i <= f@.len(),
            first_pos(f@.take(i as int), 61u8) is None,
        decreases f@.len() - i,
    {
        assert(f@.take(i + 1).drop_last() =~= f@.take(i as int));
        if f[i] == 61u8 {
            proof {
                lemma_first_pos_prefix(f@, i + 1);
            }
            return Some(i);
        }
        i += 1;
    }
    assert(f@.take(f@.len() as int) =~= f@);
    None
}

proof fn lemma_first_pos_prefix(f: Seq<u8>, n: int)
    requires
        0 <= n <= f.len(),
        first_pos(f.take(n), 61u8) is Some,
    ensures
        first_pos(f, 61u8) == first_pos(f.take(n), 61u8),
    decreases f.len() - n,
{
    if n < f.len() {
        assert(f.take(n + 1).drop_last() =~= f.take(n));
        lemma_first_pos_prefix(f, n + 1);
    } else {
        assert(f.take(n) =~= f);
    }
}

impl ParameterMap {
    /// Reads a parameter block: the fields between separators, each split at
    /// its first `=` into name and value (fields without `=` are skipped),
    /// inserted in order.
    pub fn parse_bytes(bytes: &[u8], sep: u8) -> (m: ParameterMap)
        ensures
            m.wf(),
            m@ == parse_block(bytes@, sep),
    {
        let fields = split_fields(bytes, sep);
        let ghost fs = split_bytes(bytes@, sep);
        let mut pairs: Vec<(String, String)> = Vec::new();
        let mut i: usize = 0;
        while i < fields.len()
            invariant
                i <= fields@.len(),
                fields@.len() == fs.len(),
                forall|k: int| 0 <= k < fields@.len() ==> (#[trigger] fields@[k])@ == fs[k],
                pairs_view(pairs@) == fields_entries(fs.take(i as int)),
            decreases fields@.len() - i,
        {
            let f = fields[i].as_slice();
            assert(fs.take(i + 1).drop_last() =~= fs.take(i as int));
            assert(f@ == fs[i as int]);
            if let Some(eq) = find_eq(f) {
                assert(f@.len() == f.len());
                let k = decode(&f[0..eq]);
                let v = decode(&f[eq + 1..f.len()]);
                pairs.push((k, v));
                assert(pairs_view(pairs@) =~= fields_entries(fs.take(i as int)).push((k@, v@)));
            }
            i += 1;
        }
        assert(fs.take(fields@.len() as int) =~= fs);
        ParameterMap::from_pairs(pairs.as_slice())
    }

    /// Writes the entries as a parameter block: for each, the separator, the
    /// name, `=` and the value, in single-byte text.
    pub fn write_block_bytes(&self, out: &mut Vec<u8>, sep: u8)
        ensures
            final(out)@ == old(out)@ + block_bytes(self@, sep),
    {
        let ghost start = out@;
        let mut i: usize = 0;
        while i < self.entries.len()
            invariant
                i <= self.entries@.len(),
                self@ == pairs_view(self.entries@),
                out@ == start + block_bytes(self@.take(i as int), sep),
            decreases self.entries@.len() - i,
        {
            assert(self@.take(i + 1).drop_last() =~= self@.take(i as int));
            out.push(sep);
            let kb = encode(self.entries[i].0.as_str());
            let vb = encode(self.entries[i].1.as_str());
            let mut j: usize = 0;
            let ghost mid = out@;
            while j < kb.len()
                invariant
                    j <= kb@.len(),
                    out@ == mid + kb@.take(j as int),
                decreases kb@.len() - j,
            {
                out.push(kb[j]);
                j += 1;
                assert(out@ =~= mid + kb@.take(j as int));
            }
            assert(kb@.take(kb@.len() as int) =~= kb@);
            out.push(61u8);
            let ghost mid2 = out@;
            let mut j: usize = 0;
            while j < vb.len()
                invariant
                    j <= vb@.len(),
                    out@ == mid2 + vb@.take(j as int),
                decreases vb@.len() - j,
            {
                out.push(vb[j]);
                j += 1;
                assert(out@ =~= mid2 + vb@.take(j as int));
            }
            assert(vb@.take(vb@.len() as int) =~= vb@);
            i += 1;
            assert(out@ =~= start + block_bytes(self@.take(i as int), sep));
        }
        assert(self@.take(self.entries@.len() as int) =~= self@);
    }
}

/// A name that survives a parameter block: single-byte characters, none of
/// them the separator or `=`.
pub open spec fn block_safe_name(k: Seq<char>, sep: u8) -> bool {
    forall|i: int| 0 <= i < k.len() ==> byte_char(#[trigger] k[i]) && k[i] as u32 != sep as u32 && k[i] != '='
}

/// A character whose code point fits a byte.
pub open spec fn byte_char(c: char) -> bool {
    (c as u32) < 256
}

/// A value that survives a parameter block: single-byte characters, none of
/// them the separator.
pub open spec fn block_safe_value(v: Seq<char>, sep: u8) -> bool {
    forall|i: int| 0 <= i < v.len() ==> byte_char(#[trigger] v[i]) && v[i] as u32 != sep as u32
}

/// The field of one entry: name, `=`, value.
pub open spec fn entry_field(e: (Seq<char>, Seq<char>)) -> Seq<u8> {
    latin1_bytes(e.0) + seq![61u8] + latin1_bytes(e.1)
}

proof fn lemma_byte_char(c: char)
    requires
        byte_char(c),
    ensures
        crate::encoding::latin1_byte(c) as u32 == c as u32,
        ((crate::encoding::latin1_byte(c) as u32) as char) == c,
{
    let x = c as u32;
    assert(x < 256 ==> ((x as u8) as u32) == x) by (bit_vector);
    vstd::utf8::char_u32_cast(c, x);
}

proof fn lemma_latin1_round_trip(s: Seq<char>)
    requires
        forall|i: int| 0 <= i < s.len() ==> byte_char(#[trigger] s[i]),
    ensures
        latin1(latin1_bytes(s)) == s,
{
    assert forall|i: int| 0 <= i < s.len() implies latin1(latin1_bytes(s))[i] == s[i] by {
        lemma_byte_char(s[i]);
    }
    assert(latin1(latin1_bytes(s)) =~= s);
}

proof fn lemma_split_sep_free(x: Seq<u8>, b: Seq<u8>, sep: u8)
    requires
        forall|i: int| 0 <= i < b.len() ==> b[i] != sep,
    ensures
        split_bytes(x + b, sep) == split_bytes(x, sep).update(
            split_bytes(x, sep).len() - 1,
            split_bytes(x, sep).last() + b,
        ),
    decreases b.len(),
{
    lemma_split_bytes_nonempty(x, sep);
    if b.len() == 0 {
        assert(x + b =~= x);
        assert(split_bytes(x, sep).last() + b =~= split_bytes(x, sep).last());
        assert(split_bytes(x, sep).update(split_bytes(x, sep).len() - 1, split_bytes(x, sep).last())
            =~= split_bytes(x, sep));
    } else {
        let b2 = b.drop_last();
        lemma_split_sep_free(x, b2, sep);
        assert((x + b).drop_last() =~= x + b2);
        let p = split_bytes(x, sep);
        let q = split_bytes(x + b2, sep);
        assert(q.last() == p.last() + b2);
        assert(q.last().push(b.last()) =~= p.last() + b);
        assert(split_bytes(x + b, sep) =~= p.update(p.len() - 1, p.last() + b));
    }
}

proof fn lemma_first_pos_none(a: Seq<u8>, x: u8)
    requires
        forall|i: int| 0 <= i < a.len() ==> a[i] != x,
    ensures
        first_pos(a, x) is None,
    decreases a.len(),
{
    if a.len() > 0 {
        lemma_first_pos_none(a.drop_last(), x);
    }
}

pub proof fn lemma_first_pos_at(a: Seq<u8>, x: u8, b: Seq<u8>)
    requires
        forall|i: int| 0 <= i < a.len() ==> a[i] != x,
    ensures
        first_pos(a.push(x) + b, x) == Some(a.len() as int),
    decreases b.len(),
{
    if b.len() == 0 {
        assert(a.push(x) + b =~= a.push(x));
        assert(a.push(x).drop_last() =~= a);
        lemma_first_pos_none(a, x);
    } else {
        lemma_first_pos_at(a, x, b.drop_last());
        assert((a.push(x) + b).drop_last() =~= a.push(x) + b.drop_last());
    }
}

proof fn lemma_entry_field(e: (Seq<char>, Seq<char>), sep: u8)
    requires
        sep != 61u8,
        block_safe_name(e.0, sep),
        block_safe_value(e.1, sep),
    ensures
        field_entry(entry_field(e)) == Some(e),
        forall|i: int| 0 <= i < entry_field(e).len() ==> entry_field(e)[i] != sep,
{
    let k = latin1_bytes(e.0);
    let v = latin1_bytes(e.1);
    assert forall|i: int| 0 <= i < k.len() implies k[i] != 61u8 && k[i] != sep by {
        let c = e.0[i];
        assert(byte_char(c) && c as u32 != sep as u32 && c != '=');
        lemma_byte_char(c);
        assert(k[i] == crate::encoding::latin1_byte(c));
        assert(('=' as u32) == 61);
    }
    assert forall|i: int| 0 <= i < v.len() implies v[i] != sep by {
        let c = e.1[i];
        assert(byte_char(c) && c as u32 != sep as u32);
        lemma_byte_char(c);
        assert(v[i] == crate::encoding::latin1_byte(c));
    }
    lemma_first_pos_at(k, 61u8, v);
    assert(k.push(61u8) + v =~= entry_field(e));
    let f = entry_field(e);
    assert(f.subrange(0, k.len() as int) =~= k);
    assert(f.subrange((k.len() + 1) as int, f.len() as int) =~= v);
    lemma_latin1_round_trip(e.0);
    lemma_latin1_round_trip(e.1);
    assert forall|i: int| 0 <= i < f.len() implies f[i] != sep by {
        if i < k.len() {
            assert(f[i] == k[i]);
        } else if i > k.len() {
            assert(f[i] == v[i - k.len() - 1]);
        } else {
            assert(f[i] == 61u8);
        }
    }
}

proof fn lemma_split_push(d: Entries, e: Entries, sep: u8)
    requires
        sep != 61u8,
        e.len() > 0,
        d == e.drop_last(),
        block_safe_name(e.last().0, sep),
        block_safe_value(e.last().1, sep),
        split_bytes(block_bytes(d, sep), sep) == seq![Seq::<u8>::empty()] + d.map_values(
            |p: (Seq<char>, Seq<char>)| entry_field(p),
        ),
    ensures
        split_bytes(block_bytes(e, sep), sep) == seq![Seq::<u8>::empty()] + e.map_values(
            |p: (Seq<char>, Seq<char>)| entry_field(p),
        ),
{
    let x = block_bytes(d, sep).push(sep);
    let f = entry_field(e.last());
    lemma_entry_field(e.last(), sep);
    assert(x.drop_last() =~= block_bytes(d, sep));
    assert(split_bytes(x, sep) == split_bytes(block_bytes(d, sep), sep).push(Seq::<u8>::empty()));
    assert(block_bytes(e, sep) =~= x + f);
    lemma_split_sep_free(x, f, sep);
    assert(split_bytes(x, sep).last() + f =~= f);
    let lhs = split_bytes(block_bytes(e, sep), sep);
    let rhs = seq![Seq::<u8>::empty()] + e.map_values(|p: (Seq<char>, Seq<char>)| entry_field(p));
    assert(lhs.len() == rhs.len());
    assert forall|i: int| 0 <= i < lhs.len() implies lhs[i] == rhs[i] by {
        if i > 0 && i < lhs.len() - 1 {
            assert(rhs[i] == entry_field(e[i - 1]));
            assert(e[i - 1] == d[i - 1]);
        }
    }
    assert(lhs =~= rhs);
}

proof fn lemma_split_block(e: Entries, sep: u8)
    requires
        sep != 61u8,
        forall|i: int| 0 <= i < e.len() ==> block_safe_name(#[trigger] e[i].0, sep) && block_safe_value(e[i].1, sep),
    ensures
        split_bytes(block_bytes(e, sep), sep) == seq![Seq::<u8>::empty()] + e.map_values(
            |p: (Seq<char>, Seq<char>)| entry_field(p),
        ),
    decreases e.len(),
{
    if e.len() > 0 {
        let d = e.drop_last();
        assert forall|i: int| 0 <= i < d.len() implies block_safe_name(#[trigger] d[i].0, sep) && block_safe_value(
            d[i].1,
            sep,
        ) by {
            assert(d[i] == e[i]);
        }
        lemma_split_block(d, sep);
        assert(block_safe_name(e[e.len() - 1].0, sep));
        lemma_split_push(d, e, sep);
    } else {
        assert(split_bytes(block_bytes(e, sep), sep) =~= seq![Seq::<u8>::empty()] + e.map_values(
            |p: (Seq<char>, Seq<char>)| entry_field(p),
        ));
    }
}

proof fn lemma_fields_entries_of_block(e: Entries, sep: u8)
    requires
        sep != 61u8,
        forall|i: int| 0 <= i < e.len() ==> block_safe_name(#[trigger] e[i].0, sep) && block_safe_value(e[i].1, sep),
    ensures
        fields_entries(seq![Seq::<u8>::empty()] + e.map_values(|p: (Seq<char>, Seq<char>)| entry_field(p))) == e,
    decreases e.len(),
{
    let fs = seq![Seq::<u8>::empty()] + e.map_values(|p: (Seq<char>, Seq<char>)| entry_field(p));
    if e.len() == 0 {
        assert(fs =~= seq![Seq::<u8>::empty()]);
        assert(fs.drop_last() =~= Seq::<Seq<u8>>::empty());
        assert(fs.last() == Seq::<u8>::empty());
        assert(first_pos(Seq::<u8>::empty(), 61u8) is None);
        assert(field_entry(fs.last()) is None);
        assert(fields_entries(fs) == fields_entries(fs.drop_last()));
        assert(fields_entries(Seq::<Seq<u8>>::empty()) == Seq::<(Seq<char>, Seq<char>)>::empty());
        assert(fields_entries(fs) =~= e);
    } else {
        let d = e.drop_last();
        assert forall|i: int| 0 <= i < d.len() implies block_safe_name(#[trigger] d[i].0, sep) && block_safe_value(
            d[i].1,
            sep,
        ) by {
            assert(d[i] == e[i]);
        }
        lemma_fields_entries_of_block(d, sep);
        assert(fs.drop_last() =~= seq![Seq::<u8>::empty()] + d.map_values(|p: (Seq<char>, Seq<char>)| entry_field(p)));
        assert(block_safe_name(e[e.len() - 1].0, sep));
        lemma_entry_field(e.last(), sep);
        assert(fs.last() == entry_field(e.last()));
        assert(d.push(e.last()) =~= e);
    }
}

/// Reading back a written parameter block gives the map again, when no two
/// names are equal up to ASCII case, every character fits a byte, names hold
/// neither the separator nor `=` and values hold no separator.
pub proof fn lemma_block_round_trip(e: Entries, sep: u8)
    requires
        keys_unique(e),
        sep != 61u8,
        forall|i: int| 0 <= i < e.len() ==> block_safe_name(#[trigger] e[i].0, sep) && block_safe_value(e[i].1, sep),
    ensures
        parse_block(block_bytes(e, sep), sep) == e,
{
    lemma_split_block(e, sep);
    assert forall|i: int| 0 <= i < e.len() implies block_safe_name(#[trigger] e[i].0, sep) && block_safe_value(
        e[i].1,
        sep,
    ) by {}
    lemma_fields_entries_of_block(e, sep);
    lemma_insert_all_rebuilds(e);
}

proof fn lemma_split_after_sep(r: Seq<u8>, sep: u8)
    ensures
        split_bytes(seq![sep] + r, sep) == seq![Seq::<u8>::empty()] + split_bytes(r, sep),
    decreases r.len(),
{
    let b = seq![sep] + r;
    if r.len() == 0 {
        assert(b.drop_last() =~= Seq::<u8>::empty());
        assert(b.last() == sep);
        assert(split_bytes(Seq::<u8>::empty(), sep) == seq![Seq::<u8>::empty()]);
        assert(split_bytes(b, sep) == split_bytes(b.drop_last(), sep).push(Seq::<u8>::empty()));
        assert(split_bytes(b, sep) =~= seq![Seq::<u8>::empty(), Seq::<u8>::empty()]);
        assert(seq![Seq::<u8>::empty()] + split_bytes(r, sep) =~= seq![Seq::<u8>::empty(), Seq::<u8>::empty()]);
    } else {
        assert(b.drop_last() =~= seq![sep] + r.drop_last());
        assert(b.last() == r.last());
        lemma_split_after_sep(r.drop_last(), sep);
        lemma_split_bytes_nonempty(r.drop_last(), sep);
        let p = split_bytes(r.drop_last(), sep);
        let q = seq![Seq::<u8>::empty()] + p;
        if r.last() == sep {
            assert(q.push(Seq::<u8>::empty()) =~= seq![Seq::<u8>::empty()] + p.push(Seq::<u8>::empty()));
        } else {
            assert(q.last() == p.last());
            assert(q.update(q.len() - 1, q.last().push(r.last())) =~= seq![Seq::<u8>::empty()] + p.update(
                p.len() - 1,
                p.last().push(r.last()),
            ));
        }
    }
}

proof fn lemma_fields_skip_empty(fs: Seq<Seq<u8>>)
    ensures
        fields_entries(seq![Seq::<u8>::empty()] + fs) == fields_entries(fs),
    decreases fs.len(),
{
    let g = seq![Seq::<u8>::empty()] + fs;
    if fs.len() == 0 {
        assert(g.drop_last() =~= Seq::<Seq<u8>>::empty());
        assert(g.last() == Seq::<u8>::empty());
        assert(first_pos(Seq::<u8>::empty(), 61u8) is None);
        assert(field_entry(Seq::<u8>::empty()) is None);
        assert(fields_entries(g) == fields_entries(g.drop_last()));
        assert(fields_entries(Seq::<Seq<u8>>::empty()) =~= seq![]);
    } else {
        assert(g.drop_last() =~= seq![Seq::<u8>::empty()] + fs.drop_last());
        assert(g.last() == fs.last());
        lemma_fields_skip_empty(fs.drop_last());
        assert(fields_entries(g.drop_last()) == fields_entries(fs.drop_last()));
    }
}

/// A parameter block reads the same without its leading separator.
pub proof fn lemma_parse_block_skip_sep(b: Seq<u8>, sep: u8)
    requires
        b.len() > 0,
        b[0] == sep,
    ensures
        parse_block(b.skip(1), sep) == parse_block(b, sep),
{
    assert(b =~= seq![sep] + b.skip(1));
    lemma_split_after_sep(b.skip(1), sep);
    lemma_fields_skip_empty(split_bytes(b.skip(1), sep));
}

} // verus!
