//! Record-stream helpers used when merging embedded boards into a parent
//! document: length-prefixed parameter records, index rebasing, and the
//! union-name table.

use vstd::prelude::*;

use crate::bytes::{le32, lemma_le32_round_trip, push_u32, read_u32, u32_le};
use crate::encoding::{encode, latin1, latin1_bytes, latin1_chars};
use crate::text::{chars_are_seq, dec, dec_string, parse_u64, parse_u64_chars};

verus! {

/// Counts of each primitive list before a child board's primitives are
/// appended: the offsets its record indices move by.
#[derive(Debug, Clone, Copy, PartialEq, Eq, Structural)]
pub struct PrimBases {
    pub pads: usize,
    pub vias: usize,
    pub tracks: usize,
    pub arcs: usize,
    pub texts: usize,
    pub fills: usize,
    pub regions: usize,
    pub bodies: usize,
    pub polygons: usize,
    pub components: usize,
}

/// The base of the list an object type name (`"Pad"`, `"Via"`, ...) refers to.
pub open spec fn spec_base_for(b: PrimBases, name: Seq<char>) -> Option<usize> {
    if name == "Pad"@ {
        Some(b.pads)
    } else if name == "Via"@ {
        Some(b.vias)
    } else if name == "Track"@ {
        Some(b.tracks)
    } else if name == "Arc"@ {
        Some(b.arcs)
    } else if name == "Text"@ {
        Some(b.texts)
    } else if name == "Fill"@ {
        Some(b.fills)
    } else if name == "Region"@ {
        Some(b.regions)
    } else if name == "ComponentBody"@ {
        Some(b.bodies)
    } else if name == "Polygon"@ {
        Some(b.polygons)
    } else if name == "Component"@ {
        Some(b.components)
    } else {
        None
    }
}

/// Each object type name selects the base of that type's own list: `Pad`
/// the pads', `Via` the vias', `Track` the tracks', `Arc` the arcs', `Text`
/// the texts', `Fill` the fills', `Region` the regions', `ComponentBody` the
/// bodies', `Polygon` the polygons' and `Component` the components'; any
/// other name selects none.
pub proof fn lemma_base_for_each_type(b: PrimBases, other: Seq<char>)
    ensures
        spec_base_for(b, "Pad"@) == Some(b.pads),
        spec_base_for(b, "Via"@) == Some(b.vias),
        spec_base_for(b, "Track"@) == Some(b.tracks),
        spec_base_for(b, "Arc"@) == Some(b.arcs),
        spec_base_for(b, "Text"@) == Some(b.texts),
        spec_base_for(b, "Fill"@) == Some(b.fills),
        spec_base_for(b, "Region"@) == Some(b.regions),
        spec_base_for(b, "ComponentBody"@) == Some(b.bodies),
        spec_base_for(b, "Polygon"@) == Some(b.polygons),
        spec_base_for(b, "Component"@) == Some(b.components),
        other != "Pad"@ && other != "Via"@ && other != "Track"@ && other != "Arc"@ && other != "Text"@ && other
            != "Fill"@ && other != "Region"@ && other != "ComponentBody"@ && other != "Polygon"@ && other
            != "Component"@ ==> spec_base_for(b, other) is None,
{
    reveal_strlit("Pad");
    reveal_strlit("Via");
    reveal_strlit("Track");
    reveal_strlit("Arc");
    reveal_strlit("Text");
    reveal_strlit("Fill");
    reveal_strlit("Region");
    reveal_strlit("ComponentBody");
    reveal_strlit("Polygon");
    reveal_strlit("Component");
    assert("Via"@ != "Pad"@) by { assert("Via"@[0] != "Pad"@[0]); }
    assert("Track"@ != "Pad"@) by { assert("Track"@[0] != "Pad"@[0]); }
    assert("Track"@ != "Via"@) by { assert("Track"@[0] != "Via"@[0]); }
    assert("Arc"@ != "Pad"@) by { assert("Arc"@[0] != "Pad"@[0]); }
    assert("Arc"@ != "Via"@) by { assert("Arc"@[0] != "Via"@[0]); }
    assert("Arc"@ != "Track"@) by { assert("Arc"@[0] != "Track"@[0]); }
    assert("Text"@ != "Pad"@) by { assert("Text"@[0] != "Pad"@[0]); }
    assert("Text"@ != "Via"@) by { assert("Text"@[0] != "Via"@[0]); }
    assert("Text"@ != "Track"@) by { assert("Text"@[1] != "Track"@[1]); }
    assert("Text"@ != "Arc"@) by { assert("Text"@[0] != "Arc"@[0]); }
    assert("Fill"@ != "Pad"@) by { assert("Fill"@[0] != "Pad"@[0]); }
    assert("Fill"@ != "Via"@) by { assert("Fill"@[0] != "Via"@[0]); }
    assert("Fill"@ != "Track"@) by { assert("Fill"@[0] != "Track"@[0]); }
    assert("Fill"@ != "Arc"@) by { assert("Fill"@[0] != "Arc"@[0]); }
    assert("Fill"@ != "Text"@) by { assert("Fill"@[0] != "Text"@[0]); }
    assert("Region"@ != "Pad"@) by { assert("Region"@[0] != "Pad"@[0]); }
    assert("Region"@ != "Via"@) by { assert("Region"@[0] != "Via"@[0]); }
    assert("Region"@ != "Track"@) by { assert("Region"@[0] != "Track"@[0]); }
    assert("Region"@ != "Arc"@) by { assert("Region"@[0] != "Arc"@[0]); }
    assert("Region"@ != "Text"@) by { assert("Region"@[0] != "Text"@[0]); }
    assert("Region"@ != "Fill"@) by { assert("Region"@[0] != "Fill"@[0]); }
    assert("ComponentBody"@ != "Pad"@) by { assert("ComponentBody"@[0] != "Pad"@[0]); }
    assert("ComponentBody"@ != "Via"@) by { assert("ComponentBody"@[0] != "Via"@[0]); }
    assert("ComponentBody"@ != "Track"@) by { assert("ComponentBody"@[0] != "Track"@[0]); }
    assert("ComponentBody"@ != "Arc"@) by { assert("ComponentBody"@[0] != "Arc"@[0]); }
    assert("ComponentBody"@ != "Text"@) by { assert("ComponentBody"@[0] != "Text"@[0]); }
    assert("ComponentBody"@ != "Fill"@) by { assert("ComponentBody"@[0] != "Fill"@[0]); }
    assert("ComponentBody"@ != "Region"@) by { assert("ComponentBody"@[0] != "Region"@[0]); }
    assert("Polygon"@ != "Pad"@) by { assert("Polygon"@[1] != "Pad"@[1]); }
    assert("Polygon"@ != "Via"@) by { assert("Polygon"@[0] != "Via"@[0]); }
    assert("Polygon"@ != "Track"@) by { assert("Polygon"@[0] != "Track"@[0]); }
    assert("Polygon"@ != "Arc"@) by { assert("Polygon"@[0] != "Arc"@[0]); }
    assert("Polygon"@ != "Text"@) by { assert("Polygon"@[0] != "Text"@[0]); }
    assert("Polygon"@ != "Fill"@) by { assert("Polygon"@[0] != "Fill"@[0]); }
    assert("Polygon"@ != "Region"@) by { assert("Polygon"@[0] != "Region"@[0]); }
    assert("Polygon"@ != "ComponentBody"@) by { assert("Polygon"@[0] != "ComponentBody"@[0]); }
    assert("Component"@ != "Pad"@) by { assert("Component"@[0] != "Pad"@[0]); }
    assert("Component"@ != "Via"@) by { assert("Component"@[0] != "Via"@[0]); }
    assert("Component"@ != "Track"@) by { assert("Component"@[0] != "Track"@[0]); }
    assert("Component"@ != "Arc"@) by { assert("Component"@[0] != "Arc"@[0]); }
    assert("Component"@ != "Text"@) by { assert("Component"@[0] != "Text"@[0]); }
    assert("Component"@ != "Fill"@) by { assert("Component"@[0] != "Fill"@[0]); }
    assert("Component"@ != "Region"@) by { assert("Component"@[0] != "Region"@[0]); }
    assert("Component"@ != "ComponentBody"@) by { assert("Component"@.len() != "ComponentBody"@.len()); }
    assert("Component"@ != "Polygon"@) by { assert("Component"@[0] != "Polygon"@[0]); }
}

impl PrimBases {
    pub fn for_object(&self, name: &str) -> (r: Option<usize>)
        ensures
            r == spec_base_for(*self, name@),
    {
        let n = crate::text::chars_of(name);
        self.for_chars(&n)
    }

    fn for_chars(&self, n: &[char]) -> (r: Option<usize>)
        ensures
            r == spec_base_for(*self, n@),
    {
        if chars_are_seq(n, "Pad") {
            Some(self.pads)
        } else if chars_are_seq(n, "Via") {
            Some(self.vias)
        } else if chars_are_seq(n, "Track") {
            Some(self.tracks)
        } else if chars_are_seq(n, "Arc") {
            Some(self.arcs)
        } else if chars_are_seq(n, "Text") {
            Some(self.texts)
        } else if chars_are_seq(n, "Fill") {
            Some(self.fills)
        } else if chars_are_seq(n, "Region") {
            Some(self.regions)
        } else if chars_are_seq(n, "ComponentBody") {
            Some(self.bodies)
        } else if chars_are_seq(n, "Polygon") {
            Some(self.polygons)
        } else if chars_are_seq(n, "Component") {
            Some(self.components)
        } else {
            None
        }
    }
}

/// The little-endian `u32` at `off`, widened, if four bytes are there.
pub fn stream_u32(data: &[u8], off: usize) -> (r: Option<usize>)
    ensures
        r matches Some(v) ==> off + 4 <= data@.len() && v == u32_le(data@, off as int),
        r is None ==> off + 4 > data@.len(),
{
    match read_u32(data, off) {
        Some(v) => Some(v as usize),
        None => None,
    }
}

/// The bodies of the `[u32 len][body]` records from `off` on: the length
/// word's low 24 bits give the body size; a record cut off ends the list.
pub open spec fn spec_param_records_from(data: Seq<u8>, off: int) -> Seq<Seq<u8>>
    decreases data.len() - off,
{
    if off < 0 || off + 4 > data.len() {
        seq![]
    } else {
        let len = u32_le(data, off) % 0x100_0000;
        if off + 4 + len > data.len() {
            seq![]
        } else {
            seq![data.subrange(off + 4, off + 4 + len)] + spec_param_records_from(data, off + 4 + len)
        }
    }
}

/// Iterate `[u32 len][body]` records of a param-record stream.
pub fn param_records(data: &[u8]) -> (r: Vec<&[u8]>)
    ensures
        r@.len() == spec_param_records_from(data@, 0).len(),
        forall|i: int| 0 <= i < r@.len() ==> (#[trigger] r@[i])@ == spec_param_records_from(data@, 0)[i],
{
    let mut out: Vec<&[u8]> = Vec::new();
    let mut off: usize = 0;
    let ghost all = spec_param_records_from(data@, 0);
    loop
        invariant
            off <= data@.len(),
            all == spec_param_records_from(data@, 0),
            all.len() == out@.len() + spec_param_records_from(data@, off as int).len(),
            forall|i: int| 0 <= i < out@.len() ==> (#[trigger] out@[i])@ == all[i],
            forall|i: int| 0 <= i < spec_param_records_from(data@, off as int).len() ==> #[trigger] all[out@.len() + i] == spec_param_records_from(data@, off as int)[i],
        ensures
            all.len() == out@.len(),
            forall|i: int| 0 <= i < out@.len() ==> (#[trigger] out@[i])@ == all[i],
        decreases data@.len() - off,
    {
        let len = match stream_u32(data, off) {
            Some(l) => l % 0x100_0000,
            None => {
                assert(spec_param_records_from(data@, off as int) =~= seq![]);
                break;
            },
        };
        if len > data.len() - off - 4 {
            assert(spec_param_records_from(data@, off as int) =~= seq![]);
            break;
        }
        let body = &data[off + 4..off + 4 + len];
        let ghost rest = spec_param_records_from(data@, off as int);
        let ghost next = spec_param_records_from(data@, off + 4 + len);
        assert(rest == seq![body@] + next);
        out.push(body);
        assert forall|i: int| 0 <= i < next.len() implies #[trigger] all[out@.len() + i] == next[i] by {
            assert(rest[i + 1] == next[i]);
            assert(all[out@.len() - 1 + (i + 1)] == rest[i + 1]);
        }
        assert(all[out@.len() - 1 + 0] == rest[0]);
        off = off + 4 + len;
    }
    out
}

/// The bytes of a record: the body length as a `u32`, then the body.
pub open spec fn record_bytes(body: Seq<u8>) -> Seq<u8> {
    le32((body.len() as u32) as int) + body
}

/// Appends a `[u32 len][body]` record.
pub fn push_record(out: &mut Vec<u8>, body: &[u8])
    ensures
        final(out)@ == old(out)@ + record_bytes(body@),
{
    push_u32(out, body.len() as u32);
    let mut i: usize = 0;
    let ghost start = out@;
    while i < body.len()
        invariant
            i <= body@.len(),
            out@ == start + body@.take(i as int),
        decreases body@.len() - i,
    {
        out.push(body[i]);
        i += 1;
        assert(out@ =~= start + body@.take(i as int));
    }
    assert(body@.take(body@.len() as int) =~= body@);
    assert(out@ =~= old(out)@ + record_bytes(body@));
}

// ---------------------------------------------------------------------------
// Union names: `[count][(id u32, byte_len u32, name bytes) x count]`

/// The entries from offset `off` on, `n` of them.
pub open spec fn spec_union_entries(data: Seq<u8>, off: int, n: nat) -> Option<Seq<(u32, Seq<u8>)>>
    decreases n,
{
    if n == 0 {
        Some(seq![])
    } else if off < 0 || off + 8 > data.len() {
        None
    } else {
        let id = u32_le(data, off) as u32;
        let len = u32_le(data, off + 4);
        if off + 8 + len > data.len() {
            None
        } else {
            match spec_union_entries(data, off + 8 + len, (n - 1) as nat) {
                Some(rest) => Some(seq![(id, data.subrange(off + 8, off + 8 + len))] + rest),
                None => None,
            }
        }
    }
}

/// The union-name table a stream holds, if it is complete.
pub open spec fn spec_union_names(data: Seq<u8>) -> Option<Seq<(u32, Seq<u8>)>> {
    if data.len() < 4 {
        None
    } else {
        spec_union_entries(data, 4, u32_le(data, 0) as nat)
    }
}

pub open spec fn union_view(v: Seq<(u32, Vec<u8>)>) -> Seq<(u32, Seq<u8>)> {
    v.map_values(|e: (u32, Vec<u8>)| (e.0, e.1@))
}

/// `[count][(id u32, byte_len u32, utf16 name) x count]`.
pub fn parse_union_names(data: &[u8]) -> (r: Option<Vec<(u32, Vec<u8>)>>)
    ensures
        r matches Some(v) ==> spec_union_names(data@) == Some(union_view(v@)),
        r is None ==> spec_union_names(data@) is None,
{
    let count = match stream_u32(data, 0) {
        Some(c) => c,
        None => return None,
    };
    let mut off: usize = 4;
    let mut entries: Vec<(u32, Vec<u8>)> = Vec::new();
    let mut k: usize = 0;
    while k < count
        invariant
            k <= count,
            count == u32_le(data@, 0),
            data@.len() >= 4,
            4 <= off <= data@.len(),
            spec_union_names(data@) == match spec_union_entries(data@, off as int, (count - k) as nat) {
                Some(rest) => Some(union_view(entries@) + rest),
                None => None::<Seq<(u32, Seq<u8>)>>,
            },
        decreases count - k,
    {
        let id = match stream_u32(data, off) {
            Some(v) => v as u32,
            None => return None,
        };
        assert(off + 4 <= data.len());
        let len = match stream_u32(data, off + 4) {
            Some(v) => v,
            None => return None,
        };
        if len > data.len() - off - 8 {
            return None;
        }
        let name = vstd::slice::slice_to_vec(&data[off + 8..off + 8 + len]);
        let ghost before = union_view(entries@);
        entries.push((id, name));
        assert(union_view(entries@) =~= before.push((id, name@)));
        proof {
            let next = spec_union_entries(data@, off + 8 + len, (count - k - 1) as nat);
            if let Some(rest) = next {
                assert(before + (seq![(id, name@)] + rest) =~= union_view(entries@) + rest);
            }
        }
        off = off + 8 + len;
        k += 1;
    }
    assert(union_view(entries@) + Seq::<(u32, Seq<u8>)>::empty() =~= union_view(entries@));
    Some(entries)
}

/// The bytes of a union-name table.
pub open spec fn union_bytes(e: Seq<(u32, Seq<u8>)>) -> Seq<u8>
    decreases e.len(),
{
    if e.len() == 0 {
        seq![]
    } else {
        union_bytes(e.drop_last()) + le32(e.last().0 as int) + le32((e.last().1.len() as u32) as int)
            + e.last().1
    }
}

pub fn serialize_union_names(entries: &[(u32, Vec<u8>)]) -> (out: Vec<u8>)
    ensures
        out@ == le32((entries@.len() as u32) as int) + union_bytes(union_view(entries@)),
{
    let mut out: Vec<u8> = Vec::new();
    push_u32(&mut out, entries.len() as u32);
    let ghost head = out@;
    let mut i: usize = 0;
    while i < entries.len()
        invariant
            i <= entries@.len(),
            out@ == head + union_bytes(union_view(entries@).take(i as int)),
        decreases entries@.len() - i,
    {
        let ghost before = out@;
        push_u32(&mut out, entries[i].0);
        push_u32(&mut out, entries[i].1.len() as u32);
        let name = entries[i].1.as_slice();
        let mut j: usize = 0;
        let ghost mid = out@;
        while j < name.len()
            invariant
                j <= name@.len(),
                out@ == mid + name@.take(j as int),
            decreases name@.len() - j,
        {
            out.push(name[j]);
            j += 1;
            assert(out@ =~= mid + name@.take(j as int));
        }
        assert(name@.take(name@.len() as int) =~= name@);
        assert(union_view(entries@).take(i + 1).drop_last() =~= union_view(entries@).take(i as int));
        i += 1;
        assert(out@ =~= head + union_bytes(union_view(entries@).take(i as int)));
    }
    assert(union_view(entries@).take(entries@.len() as int) =~= union_view(entries@));
    out
}


/// The bytes of one union-name entry: id, name length, name.
pub open spec fn union_entry_bytes(e: (u32, Seq<u8>)) -> Seq<u8> {
    le32(e.0 as int) + le32((e.1.len() as u32) as int) + e.1
}

/// Every name length fits the `u32` length word.
pub open spec fn union_names_fit(e: Seq<(u32, Seq<u8>)>) -> bool {
    forall|i: int| 0 <= i < e.len() ==> (#[trigger] e[i]).1.len() < 0x1_0000_0000
}

proof fn lemma_union_bytes_front(e: Seq<(u32, Seq<u8>)>)
    requires
        e.len() > 0,
    ensures
        union_bytes(e) == union_entry_bytes(e[0]) + union_bytes(e.subrange(1, e.len() as int)),
    decreases e.len(),
{
    if e.len() == 1 {
        assert(e.drop_last() =~= Seq::<(u32, Seq<u8>)>::empty());
        assert(e.subrange(1, 1) =~= Seq::<(u32, Seq<u8>)>::empty());
        assert(union_bytes(e.drop_last()) =~= Seq::<u8>::empty());
        assert(e.last() == e[0]);
        assert(union_bytes(e) =~= union_entry_bytes(e[0]));
    } else {
        let d = e.drop_last();
        lemma_union_bytes_front(d);
        let t = e.subrange(1, e.len() as int);
        assert(t.drop_last() =~= d.subrange(1, d.len() as int));
        assert(t.last() == e.last());
        assert(union_bytes(e) =~= union_entry_bytes(e[0]) + union_bytes(t));
    }
}

proof fn lemma_union_entries_parse(data: Seq<u8>, off: int, e: Seq<(u32, Seq<u8>)>)
    requires
        0 <= off,
        off + union_bytes(e).len() <= data.len(),
        data.subrange(off, off + union_bytes(e).len()) == union_bytes(e),
        union_names_fit(e),
    ensures
        spec_union_entries(data, off, e.len()) == Some(e),
    decreases e.len(),
{
    if e.len() > 0 {
        lemma_union_bytes_front(e);
        let h = e[0];
        let t = e.subrange(1, e.len() as int);
        let hb = union_entry_bytes(h);
        let ub = union_bytes(e);
        assert(h.1.len() < 0x1_0000_0000);
        lemma_le32_round_trip(h.0 as int);
        lemma_le32_round_trip(h.1.len() as int);
        assert(data[off] == ub[0] && data[off + 1] == ub[1] && data[off + 2] == ub[2] && data[off + 3] == ub[3]);
        assert(u32_le(data, off) == u32_le(le32(h.0 as int), 0));
        assert(data[off + 4] == ub[4] && data[off + 5] == ub[5] && data[off + 6] == ub[6] && data[off + 7] == ub[7]);
        assert(u32_le(data, off + 4) == u32_le(le32((h.1.len() as u32) as int), 0));
        let len = h.1.len() as int;
        assert(data.subrange(off + 8, off + 8 + len) =~= h.1) by {
            assert forall|k: int| 0 <= k < len implies data.subrange(off + 8, off + 8 + len)[k] == h.1[k] by {
                assert(data[off + 8 + k] == ub[8 + k]);
                assert(ub[8 + k] == hb[8 + k]);
            }
        }
        assert forall|i: int| 0 <= i < t.len() implies (#[trigger] t[i]).1.len() < 0x1_0000_0000 by {
            assert(t[i] == e[i + 1]);
        }
        let tb = union_bytes(t);
        assert(data.subrange(off + 8 + len, off + 8 + len + tb.len()) =~= tb) by {
            assert forall|k: int| 0 <= k < tb.len() implies data.subrange(off + 8 + len, off + 8 + len + tb.len())[k] == tb[k] by {
                assert(data[off + 8 + len + k] == ub[8 + len + k]);
            }
        }
        lemma_union_entries_parse(data, off + 8 + len, t);
        assert(seq![h] + t =~= e);
    }
}

/// Reading back a serialised union-name table gives its entries again,
/// when the entry count and every name length fit their `u32` words.
pub proof fn lemma_union_names_round_trip(e: Seq<(u32, Seq<u8>)>)
    requires
        e.len() < 0x1_0000_0000,
        union_names_fit(e),
    ensures
        spec_union_names(le32((e.len() as u32) as int) + union_bytes(e)) == Some(e),
{
    let data = le32((e.len() as u32) as int) + union_bytes(e);
    lemma_le32_round_trip(e.len() as int);
    assert(u32_le(data, 0) == u32_le(le32(e.len() as int), 0));
    assert(data.subrange(4, 4 + union_bytes(e).len() as int) =~= union_bytes(e));
    lemma_union_entries_parse(data, 4, e);
}


// ---------------------------------------------------------------------------
// Key lookup inside `|KEY=value|...` record bodies

/// ASCII lower-casing of one byte.
pub open spec fn ascii_lower(b: u8) -> u8 {
    if 65 <= b <= 90 {
        (b + 32) as u8
    } else {
        b
    }
}

/// `key` occurs at `p`, ignoring ASCII case.
pub open spec fn matches_at(body: Seq<u8>, key: Seq<u8>, p: int) -> bool {
    &&& 0 <= p
    &&& p + key.len() <= body.len()
    &&& forall|k: int| 0 <= k < key.len() ==> ascii_lower(#[trigger] body[p + k]) == ascii_lower(key[k])
}

/// The first position at or after `from` where `key` occurs.
pub open spec fn first_match(body: Seq<u8>, key: Seq<u8>, from: int) -> Option<int>
    decreases body.len() - from,
{
    if from < 0 || from + key.len() > body.len() {
        None
    } else if matches_at(body, key, from) {
        Some(from)
    } else {
        first_match(body, key, from + 1)
    }
}

/// Where a value starting at `i` ends: the next `|` or NUL byte, or the end.
pub open spec fn value_end(body: Seq<u8>, i: int) -> int
    decreases body.len() - i,
{
    if i >= body.len() {
        body.len() as int
    } else if body[i] == 124u8 || body[i] == 0u8 {
        i
    } else {
        value_end(body, i + 1)
    }
}

/// The span of the value after the first occurrence of `key`.
pub open spec fn spec_find_value(body: Seq<u8>, key: Seq<u8>) -> Option<(int, int)> {
    match first_match(body, key, 0) {
        Some(p) => Some((p + key.len(), value_end(body, p + key.len()))),
        None => None,
    }
}

pub proof fn lemma_first_match_bounds(body: Seq<u8>, key: Seq<u8>, from: int)
    ensures
        first_match(body, key, from) matches Some(p) ==> from <= p && matches_at(body, key, p),
    decreases body.len() - from,
{
    if !(from < 0 || from + key.len() > body.len()) && !matches_at(body, key, from) {
        lemma_first_match_bounds(body, key, from + 1);
    }
}

pub proof fn lemma_value_end_bounds(body: Seq<u8>, i: int)
    requires
        0 <= i <= body.len(),
    ensures
        i <= value_end(body, i) <= body.len(),
    decreases body.len() - i,
{
    if i < body.len() && !(body[i] == 124u8 || body[i] == 0u8) {
        lemma_value_end_bounds(body, i + 1);
    }
}

fn matches_here(body: &[u8], key: &[u8], p: usize) -> (r: bool)
    requires
        p + key@.len() <= body@.len(),
    ensures
        r == matches_at(body@, key@, p as int),
{
    let mut k: usize = 0;
    while k < key.len()
        invariant
            k <= key@.len(),
            p + key@.len() <= body@.len(),
            body@.len() == body.len(),
            forall|j: int| 0 <= j < k ==> ascii_lower(#[trigger] body@[p + j]) == ascii_lower(key@[j]),
        decreases key@.len() - k,
    {
        let a = body[p + k];
        let b = key[k];
        let la: u8 = if 65 <= a && a <= 90 { a + 32 } else { a };
        let lb: u8 = if 65 <= b && b <= 90 { b + 32 } else { b };
        if la != lb {
            assert(ascii_lower(body@[p + k as int]) != ascii_lower(key@[k as int]));
            return false;
        }
        k += 1;
    }
    true
}

/// The first position at or after `from` where `key` occurs, ignoring ASCII case.
pub fn find_from(body: &[u8], key: &[u8], from: usize) -> (r: Option<usize>)
    ensures
        match r {
            Some(p) => first_match(body@, key@, from as int) == Some(p as int),
            None => first_match(body@, key@, from as int) is None,
        },
{
    let mut p: usize = from;
    if key.len() > body.len() {
        assert(first_match(body@, key@, from as int) is None);
        return None;
    }
    let last = body.len() - key.len();
    while p <= last
        invariant
            from <= p,
            last + key@.len() == body@.len(),
            body@.len() == body.len(),
            first_match(body@, key@, from as int) == first_match(body@, key@, p as int),
        decreases last + 1 - p,
    {
        if matches_here(body, key, p) {
            return Some(p);
        }
        assert(key@.len() > 0);
        p += 1;
    }
    None
}

/// Where the value starting at `start` ends.
pub fn scan_value_end(body: &[u8], start: usize) -> (r: usize)
    requires
        start <= body@.len(),
    ensures
        r == value_end(body@, start as int),
        start <= r <= body@.len(),
{
    let mut e = start;
    proof { lemma_value_end_bounds(body@, start as int); }
    while e < body.len() && body[e] != 124u8 && body[e] != 0u8
        invariant
            start <= e <= body@.len(),
            value_end(body@, start as int) == value_end(body@, e as int),
        decreases body@.len() - e,
    {
        e += 1;
    }
    e
}

/// Find `key` (e.g. `|PRIMITIVEOBJECTID=`) and return its value span.
pub fn find_value(body: &[u8], key: &[u8]) -> (r: Option<(usize, usize)>)
    requires
        key@.len() > 0,
    ensures
        match r {
            Some((s, e)) => spec_find_value(body@, key@) == Some((s as int, e as int)),
            None => spec_find_value(body@, key@) is None,
        },
{
    match find_from(body, key, 0) {
        Some(p) => {
            proof { lemma_first_match_bounds(body@, key@, 0); }
            assert(body@.len() == body.len());
            let start = p + key.len();
            let end = scan_value_end(body, start);
            Some((start, end))
        },
        None => None,
    }
}


pub proof fn lemma_find_value_bounds(body: Seq<u8>, key: Seq<u8>)
    ensures
        spec_find_value(body, key) matches Some((s, e)) ==> 0 <= s <= e <= body.len() && s >= key.len(),
{
    lemma_first_match_bounds(body, key, 0);
    if let Some(p) = first_match(body, key, 0) {
        lemma_value_end_bounds(body, p + key.len());
    }
}

// ---------------------------------------------------------------------------
// Rebasing primitive indices in per-primitive records

/// The decimal numeral of `n` as ASCII bytes.
pub open spec fn dec_bytes(n: nat) -> Seq<u8> {
    latin1_bytes(dec(n))
}

/// The key naming the type of the primitive a record belongs to.
pub open spec fn object_key() -> Seq<u8> {
    latin1_bytes("|PRIMITIVEOBJECTID="@)
}

/// The key holding that primitive's index in its list.
pub open spec fn index_key() -> Seq<u8> {
    latin1_bytes("|PRIMITIVEINDEX="@)
}

/// The key `|ID=`, whose value reads `<Type>#<index>`.
pub open spec fn id_key() -> Seq<u8> {
    seq![124u8, 73u8, 68u8, 61u8]
}

/// The first position at or after `from` holding the byte `x`.
pub open spec fn first_byte(v: Seq<u8>, x: u8, from: int) -> Option<int>
    decreases v.len() - from,
{
    if from < 0 || from >= v.len() {
        None
    } else if v[from] == x {
        Some(from)
    } else {
        first_byte(v, x, from + 1)
    }
}

/// The rebased `<Type>#<n>` value, when `Type` names a primitive list and
/// `n` is a numeral whose rebased value fits a `usize`.
pub open spec fn id_rewrite(value: Seq<u8>, b: PrimBases) -> Option<Seq<u8>> {
    match first_byte(value, 35u8, 0) {
        Some(h) => match spec_base_for(b, latin1(value.subrange(0, h))) {
            Some(base) => match parse_u64(latin1(value.subrange(h + 1, value.len() as int))) {
                Some(n) => if n + base <= usize::MAX {
                    Some(value.subrange(0, h + 1) + dec_bytes((n + base) as nat))
                } else {
                    None
                },
                None => None,
            },
            None => None,
        },
        None => None,
    }
}

/// Rebases every `|ID=<Type>#<n>` value from `search` on.
pub open spec fn remap_ids(out: Seq<u8>, search: int, b: PrimBases) -> Seq<u8>
    decreases out.len() - search,
{
    if search < 0 || search > out.len() {
        out
    } else {
        match first_match(out, id_key(), search) {
            None => out,
            Some(p) => {
                proof {
                    lemma_first_match_bounds(out, id_key(), search);
                    lemma_value_end_bounds(out, p + 4);
                }
                let vstart = p + 4;
                let vend = value_end(out, vstart);
                match id_rewrite(out.subrange(vstart, vend), b) {
                    Some(rep) => remap_ids(
                        out.subrange(0, vstart) + rep + out.subrange(vend, out.len() as int),
                        vstart + rep.len(),
                        b,
                    ),
                    None => remap_ids(out, vend, b),
                }
            },
        }
    }
}

/// Rebases the `PRIMITIVEINDEX` value by the base of the list that
/// `PRIMITIVEOBJECTID` names.
pub open spec fn remap_primitive_index(body: Seq<u8>, b: PrimBases) -> Seq<u8> {
    match spec_find_value(body, object_key()) {
        Some((os, oe)) => match spec_find_value(body, index_key()) {
            Some((is, ie)) => match spec_base_for(b, latin1(body.subrange(os, oe))) {
                Some(base) => match parse_u64(latin1(body.subrange(is, ie))) {
                    Some(n) => if n + base <= usize::MAX {
                        body.subrange(0, is) + dec_bytes((n + base) as nat) + body.subrange(
                            ie,
                            body.len() as int,
                        )
                    } else {
                        body
                    },
                    None => body,
                },
                None => body,
            },
            None => body,
        },
        None => body,
    }
}

/// A record body with all its primitive references rebased.
pub open spec fn spec_remap_record(body: Seq<u8>, b: PrimBases) -> Seq<u8> {
    remap_ids(remap_primitive_index(body, b), 0, b)
}

/// The decimal numeral of `n` as ASCII bytes.
fn decimal_bytes(n: u64) -> (r: Vec<u8>)
    ensures
        r@ == dec_bytes(n as nat),
{
    let s = dec_string(n);
    encode(s.as_str())
}

/// `v[..a] ++ rep ++ v[b..]`.
fn splice_bytes(v: &[u8], a: usize, b: usize, rep: &[u8]) -> (r: Vec<u8>)
    requires
        a <= b <= v@.len(),
    ensures
        r@ == v@.subrange(0, a as int) + rep@ + v@.subrange(b as int, v@.len() as int),
{
    let mut r: Vec<u8> = Vec::new();
    let mut i: usize = 0;
    while i < a
        invariant
            i <= a <= b <= v@.len(),
            r@ == v@.subrange(0, i as int),
        decreases a - i,
    {
        r.push(v[i]);
        i += 1;
        assert(r@ =~= v@.subrange(0, i as int));
    }
    let mut j: usize = 0;
    while j < rep.len()
        invariant
            j <= rep@.len(),
            r@ == v@.subrange(0, a as int) + rep@.take(j as int),
        decreases rep@.len() - j,
    {
        r.push(rep[j]);
        j += 1;
        assert(r@ =~= v@.subrange(0, a as int) + rep@.take(j as int));
    }
    assert(rep@.take(rep@.len() as int) =~= rep@);
    let mut k: usize = b;
    while k < v.len()
        invariant
            b <= k <= v@.len(),
            r@ == v@.subrange(0, a as int) + rep@ + v@.subrange(b as int, k as int),
        decreases v@.len() - k,
    {
        r.push(v[k]);
        k += 1;
        assert(r@ =~= v@.subrange(0, a as int) + rep@ + v@.subrange(b as int, k as int));
    }
    r
}

fn find_byte(v: &[u8], x: u8) -> (r: Option<usize>)
    ensures
        match r {
            Some(h) => first_byte(v@, x, 0) == Some(h as int) && h < v@.len(),
            None => first_byte(v@, x, 0) is None,
        },
{
    let mut i: usize = 0;
    while i < v.len()
        invariant
            i <= v@.len(),
            first_byte(v@, x, 0) == first_byte(v@, x, i as int),
        decreases v@.len() - i,
    {
        if v[i] == x {
            return Some(i);
        }
        i += 1;
    }
    None
}

/// The rebased value of one `|ID=` entry, if it names a primitive.
fn rewrite_id(value: &[u8], bases: &PrimBases) -> (r: Option<Vec<u8>>)
    ensures
        match r {
            Some(v) => id_rewrite(value@, *bases) == Some(v@),
            None => id_rewrite(value@, *bases) is None,
        },
{
    let h = match find_byte(value, 35u8) {
        Some(h) => h,
        None => return None,
    };
    let ty = latin1_chars(&value[0..h]);
    let base = match bases.for_chars(&ty) {
        Some(b) => b,
        None => return None,
    };
    assert(value@.len() == value.len());
    let num = latin1_chars(&value[h + 1..value.len()]);
    let n = match parse_u64_chars(&num) {
        Some(n) => n,
        None => return None,
    };
    if (n as u128) + (base as u128) > (usize::MAX as u128) {
        return None;
    }
    let v: usize = (n as usize) + base;
    let digits = decimal_bytes(v as u64);
    let head = &value[0..h + 1];
    let mut out = vstd::slice::slice_to_vec(head);
    let mut j: usize = 0;
    let ghost start = out@;
    while j < digits.len()
        invariant
            j <= digits@.len(),
            out@ == start + digits@.take(j as int),
        decreases digits@.len() - j,
    {
        out.push(digits[j]);
        j += 1;
        assert(out@ =~= start + digits@.take(j as int));
    }
    assert(digits@.take(digits@.len() as int) =~= digits@);
    Some(out)
}

/// Rewrite index references in one record body: `PRIMITIVEINDEX=<n>`
/// (typed by `PRIMITIVEOBJECTID=<Type>`) and any `ID=<Type>#<n>`, each
/// moved by the base of the list its type names. A rebased index that
/// would not fit a `usize` is left as it is.
pub fn remap_record_indices(body: &[u8], bases: &PrimBases) -> (r: Vec<u8>)
    ensures
        r@ == spec_remap_record(body@, *bases),
{
    let mut out = vstd::slice::slice_to_vec(body);
    let okey = encode("|PRIMITIVEOBJECTID=");
    let ikey = encode("|PRIMITIVEINDEX=");
    proof {
        reveal_strlit("|PRIMITIVEOBJECTID=");
        reveal_strlit("|PRIMITIVEINDEX=");
        lemma_find_value_bounds(body@, object_key());
        lemma_find_value_bounds(body@, index_key());
    }
    if let Some((os, oe)) = find_value(out.as_slice(), okey.as_slice()) {
        if let Some((is, ie)) = find_value(out.as_slice(), ikey.as_slice()) {
            let obj = latin1_chars(&out.as_slice()[os..oe]);
            if let Some(base) = bases.for_chars(&obj) {
                let num = latin1_chars(&out.as_slice()[is..ie]);
                if let Some(n) = parse_u64_chars(&num) {
                    if (n as u128) + (base as u128) <= (usize::MAX as u128) {
                        let v: usize = (n as usize) + base;
                        let digits = decimal_bytes(v as u64);
                        out = splice_bytes(out.as_slice(), is, ie, digits.as_slice());
                    }
                }
            }
        }
    }
    assert(out@ == remap_primitive_index(body@, *bases));
    let ghost target = spec_remap_record(body@, *bases);
    let idk: Vec<u8> = vec![124u8, 73u8, 68u8, 61u8];
    assert(idk@ == id_key());
    let mut search: usize = 0;
    loop
        invariant
            search <= out@.len(),
            idk@ == id_key(),
            remap_ids(out@, search as int, *bases) == target,
        ensures
            out@ == target,
        decreases out@.len() - search,
    {
        let p = match find_from(out.as_slice(), idk.as_slice(), search) {
            Some(p) => p,
            None => break,
        };
        proof {
            lemma_first_match_bounds(out@, id_key(), search as int);
        }
        assert(out@.len() == out.len());
        let vstart = p + 4;
        let vend = scan_value_end(out.as_slice(), vstart);
        match rewrite_id(&out.as_slice()[vstart..vend], bases) {
            Some(rep) => {
                let nout = splice_bytes(out.as_slice(), vstart, vend, rep.as_slice());
                assert(nout@.len() == vstart + rep@.len() + (out@.len() - vend));
                assert(nout@.len() == nout.len());
                search = vstart + rep.len();
                out = nout;
            },
            None => {
                search = vend;
            },
        }
    }
    out
}

} // verus!
