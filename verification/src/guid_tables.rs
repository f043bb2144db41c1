//! Reading and writing a footprint's identity tables against the record
//! order of its `Data` stream: the `PrimitiveGuids` rows, the pad entries of
//! `UniqueIDPrimitiveInformation`, the record each side-table entry names and
//! the pad a pad-owned region names.

use vstd::prelude::*;

use crate::bytes::{push_u32, read_u32, u32_le};
use crate::guids::{
    count_kind, entry_index, format_guid, guid_text, guid_type_code, guid_v4_bytes, kinds_in_range, lemma_guid_round_trip,
    new_guid, parse_entries, parse_guid, parse_usize, parse_usize_chars, record_slots, spec_entry_index,
    spec_guid_type_code, spec_parse_entries_from, spec_parse_guid, spec_slot, COMPONENT_GUID_CODE,
};
use crate::text::{
    all_digits, chars_of, dec, digit_char, digits_value, has_prefix, is_digit, is_space, join_with, lemma_split_join, push_chars,
    split_chars, split_on, starts_with, tail_from, trim, trim_chars,
};

verus! {

// ---------------------------------------------------------------------------
// Reading the PrimitiveGuids table

/// The GUID of the 24-byte row at `start`.
pub open spec fn row_guid_text(g: Seq<u8>, start: int) -> Seq<char> {
    guid_text(g.subrange(start + 8, start + 24))
}

/// The footprint's own GUID: row 0, when the table has it and it carries the
/// footprint's type code.
pub open spec fn spec_table_component_guid(g: Seq<u8>) -> Option<Seq<char>> {
    if g.len() >= 24 && u32_le(g, 0) == COMPONENT_GUID_CODE {
        Some(row_guid_text(g, 0))
    } else {
        None
    }
}

/// The GUID of record `i`: row `i + 1`, when the table has it and it names
/// record `i`.
pub open spec fn spec_record_guid(g: Seq<u8>, i: int) -> Option<Seq<char>> {
    let start = 24 * (i + 1);
    if start + 24 <= g.len() && u32_le(g, start + 4) == i {
        Some(row_guid_text(g, start))
    } else {
        None
    }
}

/// How many of the first `n` records the table gives no GUID.
pub open spec fn missing_guids(g: Seq<u8>, n: nat) -> nat
    decreases n,
{
    if n == 0 {
        0
    } else {
        missing_guids(g, (n - 1) as nat) + if spec_record_guid(g, n - 1) is None {
            1nat
        } else {
            0nat
        }
    }
}

/// Whether an optional string is the optional text.
pub open spec fn opt_text_is(o: Option<String>, t: Option<Seq<char>>) -> bool {
    match (o, t) {
        (Some(s), Some(x)) => s@ == x,
        (None, None) => true,
        _ => false,
    }
}

fn row_guid(g: &[u8], start: usize) -> (s: String)
    requires
        start + 24 <= g@.len(),
    ensures
        s@ == row_guid_text(g@, start as int),
{
    let n = g.len();
    assert(start + 24 <= n);
    let p = start + 8;
    let arr: [u8; 16] = [
        g[p],
        g[p + 1],
        g[p + 2],
        g[p + 3],
        g[p + 4],
        g[p + 5],
        g[p + 6],
        g[p + 7],
        g[p + 8],
        g[p + 9],
        g[p + 10],
        g[p + 11],
        g[p + 12],
        g[p + 13],
        g[p + 14],
        g[p + 15],
    ];
    assert(arr@ =~= g@.subrange(start + 8, start + 24));
    format_guid(&arr)
}

/// Reads a footprint's `PrimitiveGuids/Data` table for a footprint of
/// `record_count` records: the footprint's own GUID, the GUID of each record
/// in record order, and how many records got none (counted only when the
/// table has a row past row 0). A trailing partial row is ignored.
pub fn primitive_guid_table(g: &[u8], record_count: usize) -> (r: (Option<String>, Vec<Option<String>>, usize))
    ensures
        opt_text_is(r.0, spec_table_component_guid(g@)),
        r.1@.len() == record_count,
        forall|i: int| 0 <= i < record_count ==> opt_text_is(#[trigger] r.1@[i], spec_record_guid(g@, i)),
        r.2 == if g@.len() >= 48 {
            missing_guids(g@, record_count as nat)
        } else {
            0
        },
{
    let component = if g.len() >= 24 && read_u32(g, 0).unwrap() == COMPONENT_GUID_CODE {
        Some(row_guid(g, 0))
    } else {
        None
    };
    let mut guids: Vec<Option<String>> = Vec::new();
    let mut missing: usize = 0;
    let mut i: usize = 0;
    while i < record_count
        invariant
            i <= record_count,
            guids@.len() == i,
            missing == missing_guids(g@, i as nat),
            missing <= i,
            forall|j: int| 0 <= j < i ==> opt_text_is(#[trigger] guids@[j], spec_record_guid(g@, j)),
        decreases record_count - i,
    {
        let rows_left = g.len() / 24;
        let found = if i < rows_left && rows_left - i >= 2 {
            let start = 24 * (i + 1);
            assert(start + 24 <= g@.len()) by (nonlinear_arith)
                requires
                    rows_left == g@.len() / 24,
                    i + 2 <= rows_left,
                    start == 24 * (i + 1),
            ;
            if read_u32(g, start + 4).unwrap() as usize == i {
                Some(row_guid(g, start))
            } else {
                None
            }
        } else {
            proof {
                assert(24 * (i + 2) > g@.len()) by (nonlinear_arith)
                    requires
                        rows_left == g@.len() / 24,
                        !(i < rows_left && rows_left - i >= 2),
                ;
            }
            None
        };
        assert(opt_text_is(found, spec_record_guid(g@, i as int)));
        if found.is_none() {
            missing = missing + 1;
        }
        guids.push(found);
        i += 1;
    }
    let skipped = if g.len() >= 48 {
        missing
    } else {
        0
    };
    (component, guids, skipped)
}


// ---------------------------------------------------------------------------
// Reading the UniqueIDPrimitiveInformation table

/// Index of the last field that starts with `p`, if any.
pub open spec fn last_with_prefix(fields: Seq<Seq<char>>, p: Seq<char>) -> Option<int>
    decreases fields.len(),
{
    if fields.len() == 0 {
        None
    } else if has_prefix(fields.last(), p) {
        Some(fields.len() - 1)
    } else {
        last_with_prefix(fields.drop_last(), p)
    }
}

proof fn lemma_last_with_prefix_range(fields: Seq<Seq<char>>, p: Seq<char>)
    ensures
        last_with_prefix(fields, p) matches Some(i) ==> 0 <= i < fields.len(),
    decreases fields.len(),
{
    if fields.len() > 0 && !has_prefix(fields.last(), p) {
        lemma_last_with_prefix_range(fields.drop_last(), p);
    }
}

/// What follows `key` in the last field that starts with it.
pub open spec fn last_field_value(text: Seq<char>, key: Seq<char>) -> Option<Seq<char>> {
    let fields = split_on(text, '|');
    match last_with_prefix(fields, key) {
        Some(i) => Some(fields[i].skip(key.len() as int)),
        None => None,
    }
}

/// The pad an entry of the unique-ID table gives an id, with the id: the
/// entry must name a record index that is a pad (its last `PRIMITIVEINDEX=`
/// field), say `PRIMITIVEOBJECTID=Pad` and carry a `UNIQUEID=` (the last of
/// each deciding). The pad is named by its index among the pads.
pub open spec fn spec_unique_id_target(order: Seq<u8>, text: Seq<char>) -> Option<(usize, Seq<char>)> {
    let index = match last_field_value(text, "PRIMITIVEINDEX="@) {
        Some(v) => parse_usize(trim(v)),
        None => None,
    };
    let is_pad = last_field_value(text, "PRIMITIVEOBJECTID="@) == Some("Pad"@);
    match (index, last_field_value(text, "UNIQUEID="@)) {
        (Some(i), Some(id)) => if is_pad && i < order.len() && order[i as int] == 2 {
            Some((count_kind(order, 2, i as int) as usize, id))
        } else {
            None
        },
        _ => None,
    }
}

/// The pad ids a list of entries gives, in entry order.
pub open spec fn unique_id_targets(order: Seq<u8>, entries: Seq<Seq<char>>) -> Seq<(usize, Seq<char>)>
    decreases entries.len(),
{
    if entries.len() == 0 {
        seq![]
    } else {
        unique_id_targets(order, entries.drop_last()) + match spec_unique_id_target(order, entries.last()) {
            Some(t) => seq![t],
            None => seq![],
        }
    }
}

/// How many entries of a list give no pad id.
pub open spec fn unique_id_misses(order: Seq<u8>, entries: Seq<Seq<char>>) -> nat
    decreases entries.len(),
{
    if entries.len() == 0 {
        0
    } else {
        unique_id_misses(order, entries.drop_last()) + if spec_unique_id_target(order, entries.last()) is None {
            1nat
        } else {
            0nat
        }
    }
}

fn last_field_value_of(fields: &Vec<Vec<char>>, key: &[char]) -> (r: Option<Vec<char>>)
    ensures
        match last_with_prefix(fields@.map_values(|f: Vec<char>| f@), key@) {
            Some(i) => r matches Some(v) && v@ == fields@[i]@.skip(key@.len() as int),
            None => r is None,
        },
{
    let ghost views = fields@.map_values(|f: Vec<char>| f@);
    let mut i: usize = fields.len();
    assert(views.take(fields@.len() as int) =~= views);
    while i > 0
        invariant
            i <= fields@.len(),
            views == fields@.map_values(|f: Vec<char>| f@),
            last_with_prefix(views, key@) == last_with_prefix(views.take(i as int), key@),
        decreases i,
    {
        assert(views.take(i as int).last() == fields@[i - 1]@);
        assert(views.take(i as int).drop_last() =~= views.take(i - 1));
        if starts_with(fields[i - 1].as_slice(), key) {
            return Some(tail_from(fields[i - 1].as_slice(), key.len()));
        }
        i -= 1;
    }
    None
}

fn chars_equal(a: &[char], b: &[char]) -> (r: bool)
    ensures
        r == (a@ == b@),
{
    let r = a.len() == b.len() && starts_with(a, b);
    proof {
        if r {
            assert(a@.take(b@.len() as int) =~= a@);
        }
        if a@ == b@ {
            assert(a@.take(b@.len() as int) =~= a@);
        }
    }
    r
}

fn count_pads_before(order: &[u8], i: usize) -> (n: usize)
    requires
        i <= order@.len(),
    ensures
        n == count_kind(order@, 2, i as int),
{
    let mut n: usize = 0;
    let mut j: usize = 0;
    while j < i
        invariant
            j <= i <= order@.len(),
            n == count_kind(order@, 2, j as int),
            n <= j,
        decreases i - j,
    {
        if order[j] == 2 {
            n += 1;
        }
        j += 1;
    }
    n
}

fn unique_id_target(order: &[u8], text: &str) -> (r: Option<(usize, String)>)
    ensures
        match spec_unique_id_target(order@, text@) {
            Some((k, id)) => r matches Some((k2, s)) && k2 == k && s@ == id,
            None => r is None,
        },
{
    let chars = chars_of(text);
    let fields = split_chars(&chars, '|');
    let ghost views = fields@.map_values(|f: Vec<char>| f@);
    assert(views =~= split_on(text@, '|')) by {
        assert forall|k: int| 0 <= k < views.len() implies views[k] == split_on(text@, '|')[k] by {}
    }
    let index_key = chars_of("PRIMITIVEINDEX=");
    let kind_key = chars_of("PRIMITIVEOBJECTID=");
    let id_key = chars_of("UNIQUEID=");
    let pad_word = chars_of("Pad");
    let index_field = last_field_value_of(&fields, index_key.as_slice());
    proof {
        lemma_last_with_prefix_range(views, "PRIMITIVEINDEX="@);
        if last_with_prefix(views, "PRIMITIVEINDEX="@) is Some {
            let k = last_with_prefix(views, "PRIMITIVEINDEX="@)->Some_0;
            assert(fields@[k]@ == views[k]);
        }
    }
    assert(index_field matches Some(v) ==> last_field_value(text@, "PRIMITIVEINDEX="@) == Some(v@));
    assert(index_field is None ==> last_field_value(text@, "PRIMITIVEINDEX="@) is None);
    let index = match index_field {
        Some(v) => {
            let t = trim_chars(v.as_slice());
            parse_usize_chars(t.as_slice())
        },
        None => None,
    };
    let kind_field = last_field_value_of(&fields, kind_key.as_slice());
    proof {
        lemma_last_with_prefix_range(views, "PRIMITIVEOBJECTID="@);
        if last_with_prefix(views, "PRIMITIVEOBJECTID="@) is Some {
            let k = last_with_prefix(views, "PRIMITIVEOBJECTID="@)->Some_0;
            assert(fields@[k]@ == views[k]);
        }
    }
    assert(kind_field matches Some(v) ==> last_field_value(text@, "PRIMITIVEOBJECTID="@) == Some(v@));
    assert(kind_field is None ==> last_field_value(text@, "PRIMITIVEOBJECTID="@) is None);
    let is_pad = match kind_field {
        Some(v) => chars_equal(v.as_slice(), pad_word.as_slice()),
        None => false,
    };
    let id = last_field_value_of(&fields, id_key.as_slice());
    assert(index == match last_field_value(text@, "PRIMITIVEINDEX="@) {
        Some(v) => parse_usize(trim(v)),
        None => None,
    });
    assert(is_pad == (last_field_value(text@, "PRIMITIVEOBJECTID="@) == Some("Pad"@)));
    proof {
        lemma_last_with_prefix_range(views, "UNIQUEID="@);
        if last_with_prefix(views, "UNIQUEID="@) is Some {
            let k = last_with_prefix(views, "UNIQUEID="@)->Some_0;
            assert(fields@[k]@ == views[k]);
        }
    }
    assert(id matches Some(v) ==> last_field_value(text@, "UNIQUEID="@) == Some(v@));
    assert(id is None ==> last_field_value(text@, "UNIQUEID="@) is None);
    match (index, id) {
        (Some(i), Some(v)) => {
            if is_pad && i < order.len() && order[i] == 2 {
                let k = count_pads_before(order, i);
                let mut s = String::new();
                push_chars(&mut s, v.as_slice());
                assert(s@ =~= v@);
                Some((k, s))
            } else {
                None
            }
        },
        _ => None,
    }
}

/// Reads a footprint's `UniqueIDPrimitiveInformation/Data` table against the
/// record types of its `Data` stream, in record order: the pad ids it gives
/// (pad index among the pads, id), in entry order, and how many entries give
/// none.
pub fn pad_unique_ids(order: &[u8], u: &[u8]) -> (r: (Vec<(usize, String)>, usize))
    ensures
        r.0@.len() == unique_id_targets(order@, spec_parse_entries_from(u@, 0)).len(),
        forall|j: int| 0 <= j < r.0@.len() ==> (#[trigger] r.0@[j]).0 == unique_id_targets(order@, spec_parse_entries_from(u@, 0))[j].0
            && r.0@[j].1@ == unique_id_targets(order@, spec_parse_entries_from(u@, 0))[j].1,
        r.1 == unique_id_misses(order@, spec_parse_entries_from(u@, 0)),
{
    let entries = parse_entries(u, false);
    let ghost ev = spec_parse_entries_from(u@, 0);
    let mut out: Vec<(usize, String)> = Vec::new();
    let mut misses: usize = 0;
    let mut i: usize = 0;
    while i < entries.len()
        invariant
            i <= entries@.len(),
            entries@.len() == ev.len(),
            forall|k: int| 0 <= k < ev.len() ==> (#[trigger] entries@[k])@ == ev[k],
            out@.len() == unique_id_targets(order@, ev.take(i as int)).len(),
            forall|j: int| 0 <= j < out@.len() ==> (#[trigger] out@[j]).0 == unique_id_targets(order@, ev.take(i as int))[j].0
                && out@[j].1@ == unique_id_targets(order@, ev.take(i as int))[j].1,
            misses == unique_id_misses(order@, ev.take(i as int)),
            misses <= i,
        decreases entries@.len() - i,
    {
        assert(ev.take(i + 1).drop_last() =~= ev.take(i as int));
        assert(ev.take(i + 1).last() == entries@[i as int]@);
        let ghost before = unique_id_targets(order@, ev.take(i as int));
        match unique_id_target(order, entries[i].as_str()) {
            Some(t) => {
                out.push(t);
                assert(unique_id_targets(order@, ev.take(i + 1)) =~= before + seq![
                    spec_unique_id_target(order@, ev[i as int])->Some_0,
                ]);
            },
            None => {
                misses += 1;
                assert(unique_id_targets(order@, ev.take(i + 1)) =~= before);
            },
        }
        i += 1;
    }
    assert(ev.take(entries@.len() as int) =~= ev);
    (out, misses)
}


// ---------------------------------------------------------------------------
// Side-table entries and pad-owned regions

/// The record a side-table entry belongs to, as its slot: the record its
/// `PRIMITIVEINDEX=` names, when the footprint has it.
pub open spec fn spec_entry_slot(order: Seq<u8>, text: Seq<char>) -> Option<(u8, usize)> {
    match spec_entry_index(text) {
        Some(i) => if i < order.len() {
            Some(spec_slot(order, i as int))
        } else {
            None
        },
        None => None,
    }
}

/// The slot of each side-table entry, in entry order (`None` for an entry
/// that names no record of the footprint).
pub fn entry_slots(order: &[u8], entries: &[String]) -> (r: Vec<Option<(u8, usize)>>)
    requires
        kinds_in_range(order@),
    ensures
        r@.len() == entries@.len(),
        forall|j: int| 0 <= j < entries@.len() ==> #[trigger] r@[j] == spec_entry_slot(order@, entries@[j]@),
{
    let slots = record_slots(order);
    let mut out: Vec<Option<(u8, usize)>> = Vec::new();
    let mut j: usize = 0;
    while j < entries.len()
        invariant
            j <= entries@.len(),
            slots@.len() == order@.len(),
            forall|i: int| 0 <= i < order@.len() ==> #[trigger] slots@[i] == spec_slot(order@, i),
            out@.len() == j,
            forall|k: int| 0 <= k < j ==> #[trigger] out@[k] == spec_entry_slot(order@, entries@[k]@),
        decreases entries@.len() - j,
    {
        let slot = match entry_index(entries[j].as_str()) {
            Some(i) => if i < slots.len() {
                Some(slots[i])
            } else {
                None
            },
            None => None,
        };
        out.push(slot);
        j += 1;
    }
    out
}

/// The pad a region's `PADINDEX` value names: the value is the 1-based
/// record ordinal of a pad; the result is that pad's index among the pads.
pub open spec fn spec_pad_of_ordinal(order: Seq<u8>, value: Seq<char>) -> Option<usize> {
    match parse_usize(trim(value)) {
        Some(n) => if n >= 1 && n - 1 < order.len() && order[n - 1] == 2 {
            Some(count_kind(order, 2, n - 1) as usize)
        } else {
            None
        },
        None => None,
    }
}

/// The pad a region's `PADINDEX` value names, if any.
pub fn pad_of_ordinal(order: &[u8], value: &str) -> (r: Option<usize>)
    ensures
        r == spec_pad_of_ordinal(order@, value@),
{
    let chars = chars_of(value);
    let t = trim_chars(chars.as_slice());
    match parse_usize_chars(t.as_slice()) {
        Some(n) => if n >= 1 && n - 1 < order.len() && order[n - 1] == 2 {
            Some(count_pads_before(order, n - 1))
        } else {
            None
        },
        None => None,
    }
}


// ---------------------------------------------------------------------------
// Writing the PrimitiveGuids table

/// The bytes a stored GUID text stands for, when it parses.
pub open spec fn parsed_guid(g: Option<String>) -> Option<Seq<u8>> {
    match g {
        Some(s) => spec_parse_guid(s@),
        None => None,
    }
}

/// The 24-byte row of a GUID table: type code, record index, GUID.
pub open spec fn guid_row(code: u32, index: u32, b: Seq<u8>) -> Seq<u8> {
    crate::bytes::le32(code as int) + crate::bytes::le32(index as int) + b
}

/// Whether row `i + 1` of `t` is record `i`'s: its type code, its index,
/// and the GUID stored for it when that parses.
pub open spec fn guid_row_for(t: Seq<u8>, order: Seq<u8>, guids: Seq<Option<Seq<u8>>>, i: int) -> bool {
    &&& t.subrange(24 * (i + 1), 24 * (i + 1) + 8) == guid_row(spec_guid_type_code(order[i]), i as u32, seq![])
    &&& (guids[i] matches Some(b) ==> t.subrange(24 * (i + 1) + 8, 24 * (i + 2)) == b)
}

/// Whether `t` is a `PrimitiveGuids` table for records of the types in
/// `order`: row 0 for the footprint, then one row per record with its type
/// code and index; a row's GUID is the one stored for it when that parses.
pub open spec fn guid_table_for(t: Seq<u8>, component: Option<Seq<u8>>, order: Seq<u8>, guids: Seq<Option<Seq<u8>>>) -> bool {
    &&& t.len() == 24 * (order.len() + 1)
    &&& t.subrange(0, 8) == guid_row(COMPONENT_GUID_CODE, 0, seq![]).subrange(0, 8)
    &&& (component matches Some(b) ==> t.subrange(8, 24) == b)
    &&& forall|i: int| 0 <= i < order.len() ==> #[trigger] guid_row_for(t, order, guids, i)
}

/// The stored GUID's bytes, or a fresh random GUID's when there is none or
/// it does not parse.
fn guid_bytes_or_fresh(g: &Option<String>) -> (b: [u8; 16])
    ensures
        parsed_guid(*g) matches Some(x) ==> b@ == x,
{
    if let Some(s) = g {
        if let Some(b) = parse_guid(s.as_str()) {
            return b;
        }
    }
    let fresh = new_guid();
    match parse_guid(fresh.as_str()) {
        Some(b) => b,
        None => {
            proof {
                let (r1, r2) = choose|r1: u64, r2: u64| fresh@ == guid_text(guid_v4_bytes(r1, r2));
                lemma_guid_round_trip(guid_v4_bytes(r1, r2));
            }
            [0u8; 16]
        },
    }
}

fn push_guid_bytes(out: &mut Vec<u8>, b: &[u8; 16])
    ensures
        final(out)@ == old(out)@ + b@,
{
    let mut i: usize = 0;
    while i < 16
        invariant
            i <= 16,
            out@ == old(out)@ + b@.take(i as int),
        decreases 16 - i,
    {
        out.push(b[i]);
        i += 1;
        assert(out@ =~= old(out)@ + b@.take(i as int));
    }
    assert(b@.take(16) =~= b@);
}

/// Builds a footprint's `PrimitiveGuids/Data` table for the records of the
/// types in `order` (record `i` of type `order[i]` with stored GUID
/// `guids[i]`): row 0 carries the footprint's GUID, each record a row with
/// its type code, its index and its GUID. A GUID that is missing or does not
/// parse is replaced by a fresh one.
pub fn build_guid_table(component: &Option<String>, order: &[u8], guids: &[Option<String>]) -> (t: Vec<u8>)
    requires
        guids@.len() == order@.len(),
        order@.len() < u32::MAX,
    ensures
        guid_table_for(t@, parsed_guid(*component), order@, guids@.map_values(|g: Option<String>| parsed_guid(g))),
{
    let ghost gv = guids@.map_values(|g: Option<String>| parsed_guid(g));
    let mut t: Vec<u8> = Vec::new();
    push_u32(&mut t, COMPONENT_GUID_CODE);
    push_u32(&mut t, 0);
    let cb = guid_bytes_or_fresh(component);
    push_guid_bytes(&mut t, &cb);
    assert(t@.subrange(0, 8) =~= guid_row(COMPONENT_GUID_CODE, 0, seq![]).subrange(0, 8));
    assert(t@.subrange(8, 24) =~= cb@);
    let mut i: usize = 0;
    while i < order.len()
        invariant
            i <= order@.len(),
            guids@.len() == order@.len(),
            order@.len() < u32::MAX,
            gv == guids@.map_values(|g: Option<String>| parsed_guid(g)),
            t@.len() == 24 * (i + 1),
            t@.subrange(0, 8) == guid_row(COMPONENT_GUID_CODE, 0, seq![]).subrange(0, 8),
            parsed_guid(*component) matches Some(b) ==> t@.subrange(8, 24) == b,
            forall|j: int| 0 <= j < i ==> #[trigger] guid_row_for(t@, order@, gv, j),
        decreases order@.len() - i,
    {
        let ghost before = t@;
        let kind = order[i];
        push_u32(&mut t, guid_type_code(kind));
        push_u32(&mut t, i as u32);
        let b = guid_bytes_or_fresh(&guids[i]);
        push_guid_bytes(&mut t, &b);
        proof {
            let s = 24 * (i + 1);
            assert(t@ =~= before + guid_row(spec_guid_type_code(kind), i as u32, b@));
            assert(t@.subrange(s, s + 8) =~= guid_row(spec_guid_type_code(kind), i as u32, seq![]));
            assert(t@.subrange(s + 8, s + 24) =~= b@);
            assert(gv[i as int] == parsed_guid(guids@[i as int]));
            assert forall|j: int| 0 <= j <= i implies #[trigger] guid_row_for(t@, order@, gv, j) by {
                if j < i {
                    assert(guid_row_for(before, order@, gv, j));
                    assert(t@.subrange(24 * (j + 1), 24 * (j + 1) + 8) =~= before.subrange(24 * (j + 1), 24 * (j + 1) + 8));
                    assert(t@.subrange(24 * (j + 1) + 8, 24 * (j + 2)) =~= before.subrange(24 * (j + 1) + 8, 24 * (j + 2)));
                }
            }
            assert(t@.subrange(0, 8) =~= before.subrange(0, 8));
            assert(t@.subrange(8, 24) =~= before.subrange(8, 24));
        }
        i += 1;
    }
    assert(guid_table_for(t@, parsed_guid(*component), order@, gv));
    t
}


proof fn lemma_row_header(t: Seq<u8>, start: int, code: u32, index: u32)
    requires
        0 <= start,
        start + 8 <= t.len(),
        t.subrange(start, start + 8) == guid_row(code, index, seq![]),
    ensures
        u32_le(t, start) == code,
        u32_le(t, start + 4) == index,
{
    crate::bytes::lemma_le32_round_trip(code as int);
    crate::bytes::lemma_le32_round_trip(index as int);
    let h = t.subrange(start, start + 8);
    assert(h.subrange(0, 4) =~= crate::bytes::le32(code as int));
    assert(h.subrange(4, 8) =~= crate::bytes::le32(index as int));
    assert(t[start] == h[0] && t[start + 1] == h[1] && t[start + 2] == h[2] && t[start + 3] == h[3]);
    assert(t[start + 4] == h[4] && t[start + 5] == h[5] && t[start + 6] == h[6] && t[start + 7] == h[7]);
    assert(u32_le(crate::bytes::le32(code as int), 0) == u32_le(h, 0));
    assert(u32_le(crate::bytes::le32(index as int), 0) == u32_le(h, 4));
}

proof fn lemma_no_missing_guids(t: Seq<u8>, n: nat)
    requires
        forall|i: int| 0 <= i < n ==> (#[trigger] spec_record_guid(t, i)) is Some,
    ensures
        missing_guids(t, n) == 0,
    decreases n,
{
    if n > 0 {
        assert(spec_record_guid(t, n - 1) is Some);
        lemma_no_missing_guids(t, (n - 1) as nat);
    }
}

/// Reading back a GUID table built for a footprint gives the footprint's
/// GUID and every record's GUID, each the one stored for it, formatted,
/// wherever that parses; no record is left without a GUID.
pub proof fn lemma_guid_table_round_trip(
    t: Seq<u8>,
    component: Option<Seq<u8>>,
    order: Seq<u8>,
    guids: Seq<Option<Seq<u8>>>,
)
    requires
        guid_table_for(t, component, order, guids),
        order.len() < u32::MAX,
    ensures
        spec_table_component_guid(t) is Some,
        component matches Some(b) ==> spec_table_component_guid(t) == Some(guid_text(b)),
        forall|i: int| 0 <= i < order.len() ==> (#[trigger] spec_record_guid(t, i)) is Some,
        forall|i: int|
            0 <= i < order.len() && guids[i] is Some ==> #[trigger] spec_record_guid(t, i) == Some(
                guid_text(guids[i]->Some_0),
            ),
        missing_guids(t, order.len()) == 0,
{
    assert(t.subrange(0, 8) =~= guid_row(COMPONENT_GUID_CODE, 0, seq![]));
    lemma_row_header(t, 0, COMPONENT_GUID_CODE, 0);
    assert forall|i: int| 0 <= i < order.len() implies (#[trigger] spec_record_guid(t, i)) is Some && (guids[i] is Some
        ==> spec_record_guid(t, i) == Some(guid_text(guids[i]->Some_0))) by {
        assert(guid_row_for(t, order, guids, i));
        let start = 24 * (i + 1);
        assert(start + 24 <= t.len()) by (nonlinear_arith)
            requires
                start == 24 * (i + 1),
                t.len() == 24 * (order.len() + 1),
                i < order.len(),
        ;
        lemma_row_header(t, start, spec_guid_type_code(order[i]), i as u32);
        assert(24 * (i + 2) == start + 24);
    }
    lemma_no_missing_guids(t, order.len());
}


// ---------------------------------------------------------------------------
// Writing the UniqueIDPrimitiveInformation table

/// The text of the unique-ID entry of the pad at record index `i`.
pub open spec fn unique_id_entry_text(i: nat, id: Seq<char>) -> Seq<char> {
    "|PRIMITIVEINDEX="@ + crate::text::dec(i) + "|PRIMITIVEOBJECTID=Pad|UNIQUEID="@ + id
}

/// The bytes of one table entry: its length with the terminating NUL (as a
/// `u32`, wrapping), the text and a NUL.
pub open spec fn table_entry_bytes(text: Seq<char>) -> Seq<u8> {
    crate::bytes::le32((text.len() + 1int) % 0x1_0000_0000) + crate::encoding::latin1_bytes(text) + seq![0u8]
}

/// The unique-ID table for the records of the types in `order`, the pads
/// carrying the ids in `ids` (by pad index): one entry per pad, in record
/// order.
pub open spec fn unique_id_table(order: Seq<u8>, ids: Seq<Seq<char>>) -> Seq<u8>
    decreases order.len(),
{
    if order.len() == 0 {
        seq![]
    } else {
        let i = order.len() - 1;
        unique_id_table(order.drop_last(), ids) + if order[i] == 2 {
            table_entry_bytes(unique_id_entry_text(i as nat, ids[count_kind(order, 2, i) as int]))
        } else {
            seq![]
        }
    }
}

proof fn lemma_count_kind_take_inner(order: Seq<u8>, n: int, m: int, kind: u8)
    requires
        0 <= m <= n <= order.len(),
    ensures
        count_kind(order.take(n), kind, m) == count_kind(order, kind, m),
    decreases m,
{
    if m > 0 {
        assert(order.take(n)[m - 1] == order[m - 1]);
        lemma_count_kind_take_inner(order, n, m - 1, kind);
    }
}

proof fn lemma_unique_id_table_agree(order: Seq<u8>, a: Seq<Seq<char>>, b: Seq<Seq<char>>)
    requires
        forall|k: int| 0 <= k < count_kind(order, 2, order.len() as int) ==> a[k] == b[k],
    ensures
        unique_id_table(order, a) == unique_id_table(order, b),
    decreases order.len(),
{
    if order.len() > 0 {
        let n = order.len() - 1;
        lemma_count_kind_take_inner(order, n, n, 2);
        assert(order.drop_last() =~= order.take(n));
        lemma_unique_id_table_agree(order.drop_last(), a, b);
    }
}

/// Builds a footprint's `UniqueIDPrimitiveInformation/Data` table: for each
/// pad, in record order, the entry `|PRIMITIVEINDEX=i|PRIMITIVEOBJECTID=Pad|UNIQUEID=id`
/// with the pad's id (by pad index in `pad_ids`), or a fresh one when it has
/// none. Also gives the number of entries.
pub fn build_unique_id_table(order: &[u8], pad_ids: &[Option<String>]) -> (r: (Vec<u8>, u32))
    requires
        order@.len() < u32::MAX,
    ensures
        exists|ids: Seq<Seq<char>>|
            {
                &&& ids.len() == count_kind(order@, 2, order@.len() as int)
                &&& forall|k: int|
                    0 <= k < ids.len() && k < pad_ids@.len() && pad_ids@[k] is Some ==> #[trigger] ids[k]
                        == pad_ids@[k]->Some_0@
                &&& r.0@ == unique_id_table(order@, ids)
            },
        r.1 == count_kind(order@, 2, order@.len() as int),
{
    let mut out: Vec<u8> = Vec::new();
    let mut count: u32 = 0;
    let ghost mut ids: Seq<Seq<char>> = seq![];
    let mut i: usize = 0;
    while i < order.len()
        invariant
            i <= order@.len() < u32::MAX,
            count == count_kind(order@, 2, i as int),
            count <= i,
            ids.len() == count,
            forall|k: int|
                0 <= k < ids.len() && k < pad_ids@.len() && pad_ids@[k] is Some ==> #[trigger] ids[k]
                    == pad_ids@[k]->Some_0@,
            out@ == unique_id_table(order@.take(i as int), ids),
        decreases order@.len() - i,
    {
        let ghost before = out@;
        let ghost old_ids = ids;
        proof {
            assert(order@.take(i + 1).drop_last() =~= order@.take(i as int));
            assert(order@.take(i + 1)[i as int] == order@[i as int]);
            lemma_count_kind_take_inner(order@, i + 1, i as int, 2);
            lemma_count_kind_take_inner(order@, i as int, i as int, 2);
        }
        if order[i] == 2 {
            let k = count as usize;
            let id = if k < pad_ids.len() {
                match &pad_ids[k] {
                    Some(s) => s.clone(),
                    None => crate::guids::new_unique_id(),
                }
            } else {
                crate::guids::new_unique_id()
            };
            let mut text = String::new();
            crate::text::push_str(&mut text, "|PRIMITIVEINDEX=");
            crate::text::push_dec(&mut text, i as u64);
            crate::text::push_str(&mut text, "|PRIMITIVEOBJECTID=Pad|UNIQUEID=");
            crate::text::push_str(&mut text, id.as_str());
            let bytes = crate::encoding::encode(text.as_str());
            assert(text@ =~= unique_id_entry_text(i as nat, id@));
            let n: u128 = (bytes.len() as u128 + 1) % 0x1_0000_0000;
            push_u32(&mut out, n as u32);
            out.extend_from_slice(bytes.as_slice());
            out.push(0);
            proof {
                ids = ids.push(id@);
                assert(out@ =~= before + table_entry_bytes(unique_id_entry_text(i as nat, id@)));
                lemma_unique_id_table_agree(order@.take(i as int), old_ids, ids);
                assert(ids[count_kind(order@.take(i + 1), 2, i as int) as int] == id@);
            }
            count = count + 1;
        } else {
            proof {
                lemma_unique_id_table_agree(order@.take(i as int), old_ids, ids);
            }
        }
        i += 1;
    }
    assert(order@.take(order@.len() as int) =~= order@);
    (out, count)
}


pub(crate) proof fn lemma_dec_digits(n: nat)
    ensures
        dec(n).len() >= 1,
        all_digits(dec(n)),
        digits_value(dec(n)) == n,
    decreases n,
{
    let k = n % 10;
    assert((digit_char(k) as u32) == k + 48);
    assert(crate::text::digit_value(digit_char(k)) == k);
    if n < 10 {
        assert(dec(n).drop_last() =~= Seq::<char>::empty());
        assert(dec(n).last() == digit_char(n));
        assert(digits_value(Seq::<char>::empty()) == 0);
        assert(digits_value(dec(n)) == digits_value(dec(n).drop_last()) * 10 + crate::text::digit_value(dec(n).last()));
    } else {
        lemma_dec_digits(n / 10);
        let d = dec(n);
        assert(d.drop_last() =~= dec(n / 10));
        assert(d.last() == digit_char(k));
        assert(digits_value(d) == digits_value(dec(n / 10)) * 10 + k);
        assert((n / 10) * 10 + k == n);
        assert forall|i: int| 0 <= i < d.len() implies is_digit(#[trigger] d[i]) by {
            if i < d.len() - 1 {
                assert(d[i] == dec(n / 10)[i]);
            }
        }
    }
}

proof fn lemma_parse_dec(i: usize)
    ensures
        parse_usize(trim(dec(i as nat))) == Some(i),
{
    let d = dec(i as nat);
    lemma_dec_digits(i as nat);
    assert(is_digit(d[0]) && is_digit(d.last()));
    assert(!is_space(d[0]) && !is_space(d.last()));
    assert(crate::text::trim_start(d) == d);
    assert(crate::text::trim_end(d) == d);
    assert(!crate::text::has_sign(d, false));
}

proof fn lemma_no_bar_dec(n: nat)
    ensures
        forall|j: int| 0 <= j < dec(n).len() ==> dec(n)[j] != '|',
{
    lemma_dec_digits(n);
    assert forall|j: int| 0 <= j < dec(n).len() implies dec(n)[j] != '|' by {
        assert(is_digit(dec(n)[j]));
    }
}

/// The fields of a pad's unique-ID entry.
pub open spec fn unique_id_entry_fields(i: nat, id: Seq<char>) -> Seq<Seq<char>> {
    seq![Seq::<char>::empty(), "PRIMITIVEINDEX="@ + dec(i), "PRIMITIVEOBJECTID=Pad"@, "UNIQUEID="@ + id]
}

proof fn lemma_unique_id_entry_split(i: nat, id: Seq<char>)
    requires
        forall|j: int| 0 <= j < id.len() ==> id[j] != '|',
    ensures
        split_on(unique_id_entry_text(i, id), '|') == unique_id_entry_fields(i, id),
{
    reveal_strlit("|PRIMITIVEINDEX=");
    reveal_strlit("|PRIMITIVEOBJECTID=Pad|UNIQUEID=");
    reveal_strlit("PRIMITIVEINDEX=");
    reveal_strlit("PRIMITIVEOBJECTID=Pad");
    reveal_strlit("UNIQUEID=");
    let f1 = "PRIMITIVEINDEX="@ + dec(i);
    let f2 = "PRIMITIVEOBJECTID=Pad"@;
    let f3 = "UNIQUEID="@ + id;
    let parts = unique_id_entry_fields(i, id);
    let text = unique_id_entry_text(i, id);
    assert(join_with(parts, '|') =~= text) by {
        let p1: Seq<Seq<char>> = seq![Seq::<char>::empty()];
        let p2: Seq<Seq<char>> = seq![Seq::<char>::empty(), f1];
        let p3: Seq<Seq<char>> = seq![Seq::<char>::empty(), f1, f2];
        assert(p2.drop_last() =~= p1);
        assert(p3.drop_last() =~= p2);
        assert(parts.drop_last() =~= p3);
        assert(join_with(p1, '|') == Seq::<char>::empty());
        assert(join_with(p2, '|') == Seq::<char>::empty().push('|') + f1);
        assert(join_with(p3, '|') == join_with(p2, '|').push('|') + f2);
        assert(join_with(parts, '|') == join_with(p3, '|').push('|') + f3);
    }
    lemma_no_bar_dec(i);
    assert forall|a: int, b: int| 0 <= a < parts.len() && 0 <= b < parts[a].len() implies #[trigger] parts[a][b]
        != '|' by {
        if a == 1 && b >= 15 {
            assert(f1[b] == dec(i)[b - 15]);
        }
        if a == 3 && b >= 9 {
            assert(f3[b] == id[b - 9]);
        }
    }
    lemma_split_join(parts, '|');
}

/// The entry the unique-ID table holds for a pad reads back as that pad and
/// its id, when the id holds no `|`.
pub proof fn lemma_unique_id_entry_round_trip(order: Seq<u8>, i: usize, id: Seq<char>)
    requires
        i < order.len(),
        order[i as int] == 2,
        forall|j: int| 0 <= j < id.len() ==> id[j] != '|',
    ensures
        spec_unique_id_target(order, unique_id_entry_text(i as nat, id)) == Some(
            (count_kind(order, 2, i as int) as usize, id),
        ),
{
    reveal_strlit("PRIMITIVEINDEX=");
    reveal_strlit("PRIMITIVEOBJECTID=");
    reveal_strlit("PRIMITIVEOBJECTID=Pad");
    reveal_strlit("UNIQUEID=");
    reveal_strlit("Pad");
    let f1 = "PRIMITIVEINDEX="@ + dec(i as nat);
    let f2 = "PRIMITIVEOBJECTID=Pad"@;
    let f3 = "UNIQUEID="@ + id;
    let parts = unique_id_entry_fields(i as nat, id);
    let text = unique_id_entry_text(i as nat, id);
    lemma_unique_id_entry_split(i as nat, id);
    assert(split_on(text, '|') == parts);
    assert(has_prefix(f1, "PRIMITIVEINDEX="@)) by {
        assert(f1.take(15) =~= "PRIMITIVEINDEX="@);
    }
    assert(!has_prefix(f2, "PRIMITIVEINDEX="@)) by {
        assert(f2.take(15)[9] != "PRIMITIVEINDEX="@[9]);
    }
    assert(!has_prefix(f3, "PRIMITIVEINDEX="@)) by {
        if f3.len() >= 15 {
            assert(f3.take(15)[0] != "PRIMITIVEINDEX="@[0]);
        }
    }
    assert(parts.drop_last() =~= seq![Seq::<char>::empty(), f1, f2]);
    assert(parts.drop_last().drop_last() =~= seq![Seq::<char>::empty(), f1]);
    assert(parts.drop_last().drop_last().last() == f1);
    assert(last_with_prefix(parts.drop_last().drop_last(), "PRIMITIVEINDEX="@) == Some(1int));
    assert(last_with_prefix(parts.drop_last(), "PRIMITIVEINDEX="@) == Some(1int));
    assert(last_with_prefix(parts, "PRIMITIVEINDEX="@) == Some(1int));
    assert(f1.skip(15) =~= dec(i as nat));
    lemma_parse_dec(i);
    assert(has_prefix(f2, "PRIMITIVEOBJECTID="@)) by {
        assert(f2.take(18) =~= "PRIMITIVEOBJECTID="@);
    }
    assert(!has_prefix(f3, "PRIMITIVEOBJECTID="@)) by {
        if f3.len() >= 18 {
            assert(f3.take(18)[0] != "PRIMITIVEOBJECTID="@[0]);
        }
    }
    assert(parts.drop_last().last() == f2);
    assert(last_with_prefix(parts.drop_last(), "PRIMITIVEOBJECTID="@) == Some(2int));
    assert(last_with_prefix(parts, "PRIMITIVEOBJECTID="@) == Some(2int));
    assert(f2.skip(18) =~= "Pad"@);
    assert(has_prefix(f3, "UNIQUEID="@)) by {
        assert(f3.take(9) =~= "UNIQUEID="@);
    }
    assert(last_with_prefix(parts, "UNIQUEID="@) == Some(3int));
    assert(f3.skip(9) =~= id);
}


/// Whether the table entries from offset `p` on end exactly at the end of `x`.
pub open spec fn entries_end_at_len(x: Seq<u8>, p: int) -> bool
    decreases x.len() - p,
{
    if p < 0 || p > x.len() {
        false
    } else if p == x.len() {
        true
    } else if p + 4 > x.len() {
        false
    } else {
        let next = p + 4 + u32_le(x, p);
        next <= x.len() && entries_end_at_len(x, next)
    }
}

proof fn lemma_u32_le_shift(x: Seq<u8>, y: Seq<u8>, q: int)
    requires
        0 <= q,
        q + 4 <= y.len(),
    ensures
        u32_le(x + y, x.len() + q) == u32_le(y, q),
{
    let z = x + y;
    assert(z[x.len() + q] == y[q]);
    assert(z[x.len() + q + 1] == y[q + 1]);
    assert(z[x.len() + q + 2] == y[q + 2]);
    assert(z[x.len() + q + 3] == y[q + 3]);
}

proof fn lemma_u32_le_prefix(x: Seq<u8>, y: Seq<u8>, p: int)
    requires
        0 <= p,
        p + 4 <= x.len(),
    ensures
        u32_le(x + y, p) == u32_le(x, p),
{
    let z = x + y;
    assert(z[p] == x[p] && z[p + 1] == x[p + 1] && z[p + 2] == x[p + 2] && z[p + 3] == x[p + 3]);
}

proof fn lemma_parse_entries_shift(x: Seq<u8>, y: Seq<u8>, q: int)
    requires
        0 <= q,
    ensures
        spec_parse_entries_from(x + y, x.len() + q) == spec_parse_entries_from(y, q),
        entries_end_at_len(x + y, x.len() + q) == entries_end_at_len(y, q),
    decreases y.len() - q,
{
    let z = x + y;
    if q + 4 <= y.len() {
        lemma_u32_le_shift(x, y, q);
        let len = u32_le(y, q);
        assert(crate::records::clamped(z, x.len() + q + 4, x.len() + q + 4 + len) =~= crate::records::clamped(
            y,
            q + 4,
            q + 4 + len,
        ));
        if q + 4 + len <= y.len() {
            lemma_parse_entries_shift(x, y, q + 4 + len);
        }
    }
}

proof fn lemma_parse_entries_append(x: Seq<u8>, y: Seq<u8>, p: int)
    requires
        entries_end_at_len(x, p),
    ensures
        spec_parse_entries_from(x + y, p) == spec_parse_entries_from(x, p) + spec_parse_entries_from(y, 0),
        entries_end_at_len(y, 0) ==> entries_end_at_len(x + y, p),
    decreases x.len() - p,
{
    let z = x + y;
    if p == x.len() {
        lemma_parse_entries_shift(x, y, 0);
        assert(spec_parse_entries_from(x, p) =~= Seq::<Seq<char>>::empty());
        assert(spec_parse_entries_from(x + y, p) =~= spec_parse_entries_from(x, p) + spec_parse_entries_from(y, 0));
    } else {
        lemma_u32_le_prefix(x, y, p);
        let len = u32_le(x, p);
        let next = p + 4 + len;
        assert(crate::records::clamped(z, p + 4, next) =~= crate::records::clamped(x, p + 4, next));
        lemma_parse_entries_append(x, y, next);
        let t = spec_parse_entries_from(x, p)[0];
        assert(spec_parse_entries_from(x, p) == seq![t] + spec_parse_entries_from(x, next));
        assert(spec_parse_entries_from(z, p) == seq![t] + spec_parse_entries_from(z, next));
        assert(spec_parse_entries_from(z, p) =~= spec_parse_entries_from(x, p) + spec_parse_entries_from(y, 0));
    }
}

/// Whether every character of a text has a one-byte encoding.
pub open spec fn latin1_text(t: Seq<char>) -> bool {
    forall|j: int| 0 <= j < t.len() ==> (#[trigger] t[j] as u32) < 256
}

proof fn lemma_single_entry(t: Seq<char>)
    requires
        latin1_text(t),
        t.len() + 1 < 0x1_0000_0000,
    ensures
        spec_parse_entries_from(table_entry_bytes(t), 0) == seq![t],
        entries_end_at_len(table_entry_bytes(t), 0),
{
    let e = table_entry_bytes(t);
    let n: int = t.len() + 1int;
    crate::bytes::lemma_le32_round_trip(n);
    let w = crate::bytes::le32(n);
    assert(e.subrange(0, 4) =~= w);
    assert(u32_le(e, 0) == u32_le(w, 0));
    assert(e.len() == 4 + n);
    let entry = crate::records::clamped(e, 4, 4 + n);
    assert(entry =~= crate::encoding::latin1_bytes(t) + seq![0u8]);
    assert(entry.drop_last() =~= crate::encoding::latin1_bytes(t));
    assert(crate::encoding::latin1(crate::encoding::latin1_bytes(t)) =~= t) by {
        assert forall|j: int| 0 <= j < t.len() implies crate::encoding::latin1(crate::encoding::latin1_bytes(t))[j]
            == t[j] by {
            crate::encoding::lemma_latin1_char(t[j]);
            assert(crate::encoding::latin1_bytes(t)[j] == crate::encoding::latin1_byte(t[j]));
        }
    }
    assert(spec_parse_entries_from(e, 4 + n) =~= Seq::<Seq<char>>::empty());
    assert(spec_parse_entries_from(e, 0) =~= seq![t]);
    assert(entries_end_at_len(e, 4 + n));
}


/// The texts of the unique-ID entries written for the records of `order`,
/// in record order.
pub open spec fn unique_id_texts(order: Seq<u8>, ids: Seq<Seq<char>>) -> Seq<Seq<char>>
    decreases order.len(),
{
    if order.len() == 0 {
        seq![]
    } else {
        let i = order.len() - 1;
        unique_id_texts(order.drop_last(), ids) + if order[i] == 2 {
            seq![unique_id_entry_text(i as nat, ids[count_kind(order, 2, i) as int])]
        } else {
            seq![]
        }
    }
}

/// The pad index and id of each pad among the first `n` records, in record
/// order.
pub open spec fn pad_id_pairs(order: Seq<u8>, ids: Seq<Seq<char>>, n: int) -> Seq<(usize, Seq<char>)>
    decreases n,
{
    if n <= 0 {
        seq![]
    } else {
        pad_id_pairs(order, ids, n - 1) + if order[n - 1] == 2 {
            seq![(count_kind(order, 2, n - 1) as usize, ids[count_kind(order, 2, n - 1) as int])]
        } else {
            seq![]
        }
    }
}

/// Whether the id of the pad at record `i` can be written and read back:
/// every character has a one-byte encoding, none is `|`, and the entry's
/// length fits its length word.
pub open spec fn pad_id_writable(order: Seq<u8>, ids: Seq<Seq<char>>, i: int) -> bool {
    let id = ids[count_kind(order, 2, i) as int];
    &&& latin1_text(unique_id_entry_text(i as nat, id))
    &&& forall|j: int| 0 <= j < id.len() ==> id[j] != '|'
    &&& unique_id_entry_text(i as nat, id).len() + 1 < 0x1_0000_0000
}

proof fn lemma_unique_id_table_parse(order: Seq<u8>, ids: Seq<Seq<char>>)
    requires
        forall|i: int| 0 <= i < order.len() && order[i] == 2 ==> #[trigger] pad_id_writable(order, ids, i),
    ensures
        entries_end_at_len(unique_id_table(order, ids), 0),
        spec_parse_entries_from(unique_id_table(order, ids), 0) == unique_id_texts(order, ids),
    decreases order.len(),
{
    if order.len() == 0 {
        assert(spec_parse_entries_from(unique_id_table(order, ids), 0) =~= Seq::<Seq<char>>::empty());
    } else {
        let n = order.len() - 1;
        let o = order.drop_last();
        assert(o =~= order.take(n));
        assert forall|i: int| 0 <= i < o.len() && o[i] == 2 implies #[trigger] pad_id_writable(o, ids, i) by {
            lemma_count_kind_take_inner(order, n, i, 2);
            assert(pad_id_writable(order, ids, i));
        }
        lemma_unique_id_table_parse(o, ids);
        let x = unique_id_table(o, ids);
        if order[n] == 2 {
            assert(pad_id_writable(order, ids, n));
            let t = unique_id_entry_text(n as nat, ids[count_kind(order, 2, n) as int]);
            lemma_single_entry(t);
            lemma_parse_entries_append(x, table_entry_bytes(t), 0);
        } else {
            assert(unique_id_table(order, ids) =~= x);
            assert(unique_id_texts(order, ids) =~= unique_id_texts(o, ids));
        }
    }
}

proof fn lemma_unique_id_texts_targets(order: Seq<u8>, ids: Seq<Seq<char>>, n: int)
    requires
        0 <= n <= order.len() < u32::MAX,
        forall|i: int| 0 <= i < order.len() && order[i] == 2 ==> #[trigger] pad_id_writable(order, ids, i),
    ensures
        unique_id_targets(order, unique_id_texts(order.take(n), ids)) == pad_id_pairs(order, ids, n),
        unique_id_misses(order, unique_id_texts(order.take(n), ids)) == 0,
    decreases n,
{
    if n == 0 {
        assert(unique_id_texts(order.take(0), ids) =~= Seq::<Seq<char>>::empty());
    } else {
        let o = order.take(n);
        assert(o.drop_last() =~= order.take(n - 1));
        assert(o[n - 1] == order[n - 1]);
        lemma_unique_id_texts_targets(order, ids, n - 1);
        let prev = unique_id_texts(order.take(n - 1), ids);
        if order[n - 1] == 2 {
            lemma_count_kind_take_inner(order, n, n - 1, 2);
            let k = count_kind(order, 2, n - 1);
            let id = ids[k as int];
            let t = unique_id_entry_text((n - 1) as nat, id);
            assert(unique_id_texts(o, ids) == prev + seq![t]);
            assert(pad_id_writable(order, ids, n - 1));
            lemma_unique_id_entry_round_trip(order, (n - 1) as usize, id);
            assert((prev + seq![t]).drop_last() =~= prev);
            assert((prev + seq![t]).last() == t);
        } else {
            assert(unique_id_texts(o, ids) =~= prev);
        }
    }
}

/// Reading back a unique-ID table written for a footprint gives each pad,
/// in record order, with the id it was written with, and no entry that
/// names no pad, when every id can be written and read back (one-byte
/// characters, no `|`, entries within their length words).
pub proof fn lemma_unique_id_table_round_trip(order: Seq<u8>, ids: Seq<Seq<char>>)
    requires
        order.len() < u32::MAX,
        forall|i: int| 0 <= i < order.len() && order[i] == 2 ==> #[trigger] pad_id_writable(order, ids, i),
    ensures
        unique_id_targets(order, spec_parse_entries_from(unique_id_table(order, ids), 0)) == pad_id_pairs(
            order,
            ids,
            order.len() as int,
        ),
        unique_id_misses(order, spec_parse_entries_from(unique_id_table(order, ids), 0)) == 0,
{
    lemma_unique_id_table_parse(order, ids);
    lemma_unique_id_texts_targets(order, ids, order.len() as int);
    assert(order.take(order.len() as int) =~= order);
}

} // verus!
