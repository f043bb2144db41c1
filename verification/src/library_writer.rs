//! The library-level streams of a `.PcbLib`: footprint names in
//! `Library/Data`, the `SectionKeys` map from long names to storage keys,
//! and the `FileHeader`.

use vstd::prelude::*;

use crate::bytes::{as_signed32, le32, lemma_le32_round_trip, push_u32, read_i32, u32_le};
use crate::primitive_io::ReadError;
use crate::default_streams::{c_string_block, c_string_block_bytes};
use crate::encoding::{encode, latin1, latin1_bytes};
use crate::lint::{key_block, key_pairs_from, lib_names_from, min_int, pascal_name, spec_library_names, spec_section_keys};
use crate::parameter::{block_bytes, Entries, ParameterMap};

verus! {

/// A string as a length-prefixed Pascal block: the block length, the
/// string's byte count, then its single-byte text.
pub open spec fn pascal_block(t: Seq<char>) -> Seq<u8> {
    let b = latin1_bytes(t);
    le32(((1 + b.len()) % 0x1_0000_0000) as int) + seq![(b.len() % 256) as u8] + b
}

/// Appends `s` as a Pascal block.
pub fn push_pascal_block(out: &mut Vec<u8>, s: &str)
    ensures
        final(out)@ == old(out)@ + pascal_block(s@),
{
    let b = encode(s);
    let n: u128 = (1 + b.len() as u128) % 0x1_0000_0000;
    push_u32(out, n as u32);
    out.push((b.len() % 256) as u8);
    out.extend_from_slice(b.as_slice());
    assert(final(out)@ =~= old(out)@ + pascal_block(s@));
}

/// The Pascal blocks of a list of strings, one after another.
pub open spec fn pascal_blocks(ts: Seq<Seq<char>>) -> Seq<u8>
    decreases ts.len(),
{
    if ts.len() == 0 {
        seq![]
    } else {
        pascal_blocks(ts.drop_last()) + pascal_block(ts.last())
    }
}

/// The views of a list of strings.
pub open spec fn names_view(v: Seq<String>) -> Seq<Seq<char>> {
    v.map_values(|s: String| s@)
}

/// `Library/Data`: the library parameters as a NUL-terminated block, the
/// footprint count, and each footprint name as a Pascal block.
pub open spec fn spec_library_data(params: Entries, names: Seq<Seq<char>>) -> Seq<u8> {
    c_string_block(block_bytes(params, '|' as u8)) + le32((names.len() % 0x1_0000_0000) as int) + pascal_blocks(names)
}

/// Builds `Library/Data` from the library parameters and the footprint names.
pub fn library_data(params: &ParameterMap, names: &[String]) -> (r: Vec<u8>)
    ensures
        r@ == spec_library_data(params@, names_view(names@)),
{
    let mut text: Vec<u8> = Vec::new();
    params.write_block_bytes(&mut text, '|' as u8);
    assert(text@ =~= block_bytes(params@, '|' as u8));
    let mut out = c_string_block_bytes(text.as_slice());
    push_u32(&mut out, (names.len() as u64 % 0x1_0000_0000) as u32);
    let ghost head = out@;
    let mut i: usize = 0;
    while i < names.len()
        invariant
            i <= names@.len(),
            out@ == head + pascal_blocks(names_view(names@).take(i as int)),
        decreases names@.len() - i,
    {
        push_pascal_block(&mut out, names[i].as_str());
        assert(names_view(names@).take(i + 1).drop_last() =~= names_view(names@).take(i as int));
        i += 1;
    }
    assert(names_view(names@).take(names@.len() as int) =~= names_view(names@));
    out
}

/// A name a Pascal block carries unchanged: single-byte characters, at
/// most 255 of them.
pub open spec fn pascal_safe(t: Seq<char>) -> bool {
    t.len() <= 255 && forall|i: int| 0 <= i < t.len() ==> (#[trigger] t[i] as u32) < 256
}

proof fn lemma_latin1_round_trip(t: Seq<char>)
    requires
        forall|i: int| 0 <= i < t.len() ==> (#[trigger] t[i] as u32) < 256,
    ensures
        latin1(latin1_bytes(t)) == t,
{
    assert forall|i: int| 0 <= i < t.len() implies latin1(latin1_bytes(t))[i] == t[i] by {
        crate::encoding::lemma_latin1_char(t[i]);
    }
    assert(latin1(latin1_bytes(t)) =~= t);
}

/// Reading a Pascal block written at `p` gives the string and the offset
/// after the block.
pub(crate) proof fn lemma_pascal_block_read(d: Seq<u8>, p: int, t: Seq<char>)
    requires
        0 <= p,
        pascal_safe(t),
        p + pascal_block(t).len() <= d.len(),
        d.subrange(p, p + pascal_block(t).len()) == pascal_block(t),
    ensures
        pascal_block(t).len() == 5 + t.len(),
        u32_le(d, p) == 1 + t.len(),
        key_block(d, p) == Some((t, p + 5 + t.len())),
        pascal_name(d.subrange(p + 4, p + 5 + t.len())) == t,
{
    let b = latin1_bytes(t);
    let blk = pascal_block(t);
    let l: int = 1 + b.len() as int;
    lemma_le32_round_trip(l);
    assert((1 + b.len()) % 0x1_0000_0000 == l);
    assert forall|k: int| 0 <= k < 4 implies d[p + k] == le32(l)[k] by {
        assert(d.subrange(p, p + blk.len())[k] == d[p + k]);
    }
    assert(u32_le(d, p) == u32_le(le32(l), 0));
    let block = d.subrange(p + 4, p + 5 + t.len());
    assert(block =~= seq![(b.len() % 256) as u8] + b) by {
        assert forall|k: int| 0 <= k < block.len() implies block[k] == (seq![(b.len() % 256) as u8] + b)[k] by {
            assert(d.subrange(p, p + blk.len())[4 + k] == d[p + 4 + k]);
        }
    }
    assert(block[0] == t.len());
    assert(block.subrange(1, 1 + min_int(block[0] as int, block.len() - 1)) =~= b);
    lemma_latin1_round_trip(t);
}

/// Reading back `Library/Data` gives the footprint names written, when each
/// name is Pascal-safe and the parameter block and name count fit their
/// length words.
proof fn lemma_library_data_layout(t: Seq<u8>, n: nat, bl: Seq<u8>)
    requires
        t.len() + 1 < 0x1_0000_0000,
        n < 0x1_0000_0000,
    ensures
        ({
            let d = c_string_block(t) + le32(n as int) + bl;
            &&& u32_le(d, 0) == t.len() + 1
            &&& u32_le(d, 5 + t.len() as int) == n
            &&& d.len() == 9 + t.len() + bl.len()
            &&& d.subrange(9 + t.len() as int, d.len() as int) == bl
        }),
{
    let l: int = t.len() as int + 1;
    let c = c_string_block(t);
    let cnt = le32(n as int);
    let d = c + cnt + bl;
    assert(((t.len() + 1) % 0x1_0000_0000) as int == l);
    assert(c == le32(l) + t + seq![0u8]);
    lemma_le32_round_trip(l);
    lemma_le32_round_trip(n as int);
    assert(d[0] == le32(l)[0] && d[1] == le32(l)[1] && d[2] == le32(l)[2] && d[3] == le32(l)[3]);
    let p: int = 4 + l;
    assert(d[p] == cnt[0] && d[p + 1] == cnt[1] && d[p + 2] == cnt[2] && d[p + 3] == cnt[3]);
    assert(d.subrange(p + 4, d.len() as int) =~= bl);
}

/// Reading back `Library/Data` gives the footprint names written, when each
/// name is Pascal-safe and the parameter block and name count fit their
/// length words.
#[verifier::spinoff_prover]
#[verifier::rlimit(40)]
pub proof fn lemma_library_data_round_trip(params: Entries, names: Seq<Seq<char>>)
    requires
        forall|i: int| 0 <= i < names.len() ==> pascal_safe(#[trigger] names[i]),
        names.len() < 0x1_0000_0000,
        block_bytes(params, '|' as u8).len() + 1 < 0x1_0000_0000,
    ensures
        spec_library_names(spec_library_data(params, names)) == Some(names),
{
    let t = block_bytes(params, '|' as u8);
    let d = spec_library_data(params, names);
    assert((names.len() % 0x1_0000_0000) as int == names.len());
    lemma_library_data_layout(t, names.len(), pascal_blocks(names));
    let p: int = 5 + t.len() as int;
    lemma_names_read(d, p + 4, names);
}

proof fn lemma_pascal_blocks_len(ts: Seq<Seq<char>>)
    requires
        forall|i: int| 0 <= i < ts.len() ==> pascal_safe(#[trigger] ts[i]),
    ensures
        pascal_blocks(ts).len() >= 0,
    decreases ts.len(),
{
}

/// The names of Pascal blocks written from `p` to the end read back.
proof fn lemma_names_read(d: Seq<u8>, p: int, names: Seq<Seq<char>>)
    requires
        0 <= p,
        forall|i: int| 0 <= i < names.len() ==> pascal_safe(#[trigger] names[i]),
        p + pascal_blocks(names).len() == d.len(),
        d.subrange(p, d.len() as int) == pascal_blocks(names),
    ensures
        lib_names_from(d, p, names.len()) == names,
    decreases names.len(),
{
    if names.len() > 0 {
        // Peel the first name: rewrite the blocks front-first.
        let first = names[0];
        let rest = names.skip(1);
        lemma_pascal_blocks_front(names);
        let fb = pascal_block(first);
        assert(pascal_safe(first));
        assert(d.subrange(p, p + fb.len()) =~= fb) by {
            assert forall|k: int| 0 <= k < fb.len() implies d.subrange(p, p + fb.len())[k] == fb[k] by {
                assert(d.subrange(p, d.len() as int)[k] == d[p + k]);
            }
        }
        lemma_pascal_block_read(d, p, first);
        let q = p + 5 + first.len();
        assert(d.subrange(q, d.len() as int) =~= pascal_blocks(rest)) by {
            assert forall|k: int| 0 <= k < d.len() - q implies d.subrange(q, d.len() as int)[k] == pascal_blocks(rest)[k] by {
                assert(d.subrange(p, d.len() as int)[fb.len() + k] == d[q + k]);
            }
        }
        assert forall|i: int| 0 <= i < rest.len() implies pascal_safe(#[trigger] rest[i]) by {
            assert(rest[i] == names[i + 1]);
        }
        lemma_names_read(d, q, rest);
        let block = d.subrange(min_int(p + 4, d.len() as int), min_int(p + 4 + (1 + first.len()), d.len() as int));
        assert(block =~= d.subrange(p + 4, p + 5 + first.len()));
        assert(lib_names_from(d, p, names.len()) =~= seq![first] + rest);
        assert(seq![first] + rest =~= names);
    }
}

/// The blocks of a list are the first name's block followed by the rest's.
proof fn lemma_pascal_blocks_front(ts: Seq<Seq<char>>)
    requires
        ts.len() > 0,
    ensures
        pascal_blocks(ts) == pascal_block(ts[0]) + pascal_blocks(ts.skip(1)),
    decreases ts.len(),
{
    if ts.len() == 1 {
        assert(ts.drop_last() =~= Seq::<Seq<char>>::empty());
        assert(ts.skip(1) =~= Seq::<Seq<char>>::empty());
        assert(pascal_blocks(ts) =~= pascal_block(ts[0]) + pascal_blocks(ts.skip(1)));
    } else {
        lemma_pascal_blocks_front(ts.drop_last());
        assert(ts.drop_last().skip(1) =~= ts.skip(1).drop_last());
        assert(ts.skip(1).last() == ts.last());
        assert(pascal_blocks(ts) =~= pascal_block(ts[0]) + pascal_blocks(ts.skip(1)));
    }
}


// ---------------------------------------------------------------------------
// FileHeader

/// The bytes of the format version `5.01` as Altium stores it (a
/// little-endian double).
pub open spec fn version_number_bytes() -> Seq<u8> {
    seq![0x0Au8, 0xD7u8, 0xA3u8, 0x70u8, 0x3Du8, 0x0Au8, 0x14u8, 0x40u8]
}

/// A Pascal short string with a 32-bit length word before it.
pub open spec fn sized_short_string(b: Seq<u8>) -> Seq<u8> {
    le32((b.len() % 0x1_0000_0000) as int) + seq![(b.len() % 256) as u8] + b
}

/// The `FileHeader` stream of a library: the format name, the version
/// number, and the library's unique id (`AAAAAAAA` when it has none).
pub open spec fn spec_file_header(unique_id: Seq<char>) -> Seq<u8> {
    sized_short_string(latin1_bytes("PCB 6.0 Binary Library File"@)) + version_number_bytes() + sized_short_string(
        latin1_bytes(if unique_id.len() == 0 {
            "AAAAAAAA"@
        } else {
            unique_id
        }),
    )
}

fn push_sized_short_string(out: &mut Vec<u8>, s: &str)
    ensures
        final(out)@ == old(out)@ + sized_short_string(latin1_bytes(s@)),
{
    let b = encode(s);
    push_u32(out, (b.len() as u64 % 0x1_0000_0000) as u32);
    out.push((b.len() % 256) as u8);
    out.extend_from_slice(b.as_slice());
    assert(final(out)@ =~= old(out)@ + sized_short_string(latin1_bytes(s@)));
}

/// Builds the `FileHeader` stream of a library.
pub fn file_header_bytes(unique_id: &str) -> (r: Vec<u8>)
    ensures
        r@ == spec_file_header(unique_id@),
{
    let mut out: Vec<u8> = Vec::new();
    push_sized_short_string(&mut out, "PCB 6.0 Binary Library File");
    let v: [u8; 8] = [0x0Au8, 0xD7u8, 0xA3u8, 0x70u8, 0x3Du8, 0x0Au8, 0x14u8, 0x40u8];
    out.extend_from_slice(&v);
    let chars = crate::text::chars_of(unique_id);
    if chars.len() == 0 {
        push_sized_short_string(&mut out, "AAAAAAAA");
    } else {
        push_sized_short_string(&mut out, unique_id);
    }
    assert(out@ =~= spec_file_header(unique_id@));
    out
}

/// The unique id a `FileHeader` stream records: after the length word and
/// the format name (skipping to the end of the length word's block), three
/// Pascal short strings follow while bytes remain; the third is the id.
/// `Ok(None)` when the block is empty or the id absent, an error when the
/// stream ends inside a field that must be read.
pub open spec fn spec_file_header_id(d: Seq<u8>) -> Result<Option<Seq<char>>, ReadError> {
    if d.len() < 4 {
        Err(ReadError::Truncated)
    } else if as_signed32(u32_le(d, 0)) <= 0 {
        Ok(None)
    } else if d.len() < 5 {
        Err(ReadError::Truncated)
    } else {
        let p0: int = 5 + d[4] as int;
        let total: int = 4 + as_signed32(u32_le(d, 0));
        let p1: int = if p0 < total {
            total
        } else {
            p0
        };
        let p2: int = if p1 < d.len() {
            p1 + 1 + d[p1] as int
        } else {
            p1
        };
        let p3: int = if p2 < d.len() {
            p2 + 1 + d[p2] as int
        } else {
            p2
        };
        if p3 < d.len() {
            let n = d[p3] as int;
            if n == 0 {
                Ok(None)
            } else if p3 + 1 + n > d.len() {
                Err(ReadError::Truncated)
            } else {
                Ok(Some(latin1(d.subrange(p3 + 1, p3 + 1 + n))))
            }
        } else {
            Ok(None)
        }
    }
}

/// Reads the unique id a `FileHeader` stream records (see
/// `spec_file_header_id`).
pub fn file_header_unique_id(d: &[u8]) -> (r: Result<Option<String>, ReadError>)
    ensures
        match r {
            Ok(Some(s)) => spec_file_header_id(d@) == Ok::<Option<Seq<char>>, ReadError>(Some(s@)),
            Ok(None) => spec_file_header_id(d@) == Ok::<Option<Seq<char>>, ReadError>(None),
            Err(e) => spec_file_header_id(d@) == Err::<Option<Seq<char>>, ReadError>(e),
        },
{
    let bl = match read_i32(d, 0) {
        Some(v) => v,
        None => return Err(ReadError::Truncated),
    };
    if bl <= 0 {
        return Ok(None);
    }
    if d.len() < 5 {
        return Err(ReadError::Truncated);
    }
    let len = d.len() as u128;
    let p0: u128 = 5 + d[4] as u128;
    let total: u128 = 4 + bl as u128;
    let p1: u128 = if p0 < total {
        total
    } else {
        p0
    };
    let p2: u128 = if p1 < len {
        p1 + 1 + d[p1 as usize] as u128
    } else {
        p1
    };
    let p3: u128 = if p2 < len {
        p2 + 1 + d[p2 as usize] as u128
    } else {
        p2
    };
    if p3 < len {
        let n = d[p3 as usize] as u128;
        if n == 0 {
            Ok(None)
        } else if p3 + 1 + n > len {
            Err(ReadError::Truncated)
        } else {
            let s = crate::encoding::decode(&d[(p3 + 1) as usize..(p3 + 1 + n) as usize]);
            Ok(Some(s))
        }
    } else {
        Ok(None)
    }
}

/// Reading back a written `FileHeader` gives the unique id, when it is one
/// to 255 single-byte characters.
pub proof fn lemma_file_header_round_trip(id: Seq<char>)
    requires
        pascal_safe(id),
        id.len() >= 1,
    ensures
        spec_file_header_id(spec_file_header(id)) == Ok::<Option<Seq<char>>, ReadError>(Some(id)),
{
    reveal_strlit("PCB 6.0 Binary Library File");
    let v = latin1_bytes("PCB 6.0 Binary Library File"@);
    let idb = latin1_bytes(id);
    let d = spec_file_header(id);
    let n = idb.len();
    assert(v.len() == 27);
    lemma_le32_round_trip(27);
    lemma_le32_round_trip(n as int);
    let head = sized_short_string(v);
    assert(head == le32(27) + seq![27u8] + v);
    let tail = sized_short_string(idb);
    assert(tail == le32(n as int) + seq![n as u8] + idb);
    assert(d == head + version_number_bytes() + tail);
    assert(d[0] == 27u8 && d[1] == 0u8 && d[2] == 0u8 && d[3] == 0u8);
    assert(u32_le(d, 0) == 27);
    assert(d[4] == 27u8);
    assert(d[32] == 0x0Au8);
    assert(le32(n as int)[3] == 0u8);
    assert(d[43] == le32(n as int)[3]);
    assert(d[44] == n as u8);
    assert(d.subrange(45, 45 + n as int) =~= idb);
    lemma_latin1_round_trip(id);
}


// ---------------------------------------------------------------------------
// SectionKeys

/// The views of a list of string pairs.
pub open spec fn pairs_of(v: Seq<(String, String)>) -> Seq<(Seq<char>, Seq<char>)> {
    v.map_values(|p: (String, String)| (p.0@, p.1@))
}

/// The Pascal blocks of each pair: name, then key.
pub open spec fn pair_blocks(ps: Seq<(Seq<char>, Seq<char>)>) -> Seq<u8>
    decreases ps.len(),
{
    if ps.len() == 0 {
        seq![]
    } else {
        pair_blocks(ps.drop_last()) + pascal_block(ps.last().0) + pascal_block(ps.last().1)
    }
}

/// The `SectionKeys` stream: the pair count, then each footprint name and
/// its storage key as Pascal blocks.
pub open spec fn spec_section_keys_data(ps: Seq<(Seq<char>, Seq<char>)>) -> Seq<u8> {
    le32((ps.len() % 0x1_0000_0000) as int) + pair_blocks(ps)
}

/// Builds the `SectionKeys` stream from name and key pairs in order.
pub fn section_keys_data(pairs: &[(String, String)]) -> (r: Vec<u8>)
    ensures
        r@ == spec_section_keys_data(pairs_of(pairs@)),
{
    let mut out: Vec<u8> = Vec::new();
    push_u32(&mut out, (pairs.len() as u64 % 0x1_0000_0000) as u32);
    let ghost head = out@;
    let mut i: usize = 0;
    while i < pairs.len()
        invariant
            i <= pairs@.len(),
            out@ == head + pair_blocks(pairs_of(pairs@).take(i as int)),
        decreases pairs@.len() - i,
    {
        push_pascal_block(&mut out, pairs[i].0.as_str());
        push_pascal_block(&mut out, pairs[i].1.as_str());
        assert(pairs_of(pairs@).take(i + 1).drop_last() =~= pairs_of(pairs@).take(i as int));
        i += 1;
    }
    assert(pairs_of(pairs@).take(pairs@.len() as int) =~= pairs_of(pairs@));
    out
}

proof fn lemma_pair_blocks_front(ps: Seq<(Seq<char>, Seq<char>)>)
    requires
        ps.len() > 0,
    ensures
        pair_blocks(ps) == pascal_block(ps[0].0) + pascal_block(ps[0].1) + pair_blocks(ps.skip(1)),
    decreases ps.len(),
{
    if ps.len() == 1 {
        assert(ps.drop_last() =~= Seq::<(Seq<char>, Seq<char>)>::empty());
        assert(ps.skip(1) =~= Seq::<(Seq<char>, Seq<char>)>::empty());
        assert(pair_blocks(ps) =~= pascal_block(ps[0].0) + pascal_block(ps[0].1) + pair_blocks(ps.skip(1)));
    } else {
        lemma_pair_blocks_front(ps.drop_last());
        assert(ps.drop_last().skip(1) =~= ps.skip(1).drop_last());
        assert(ps.skip(1).last() == ps.last());
        assert(pair_blocks(ps) =~= pascal_block(ps[0].0) + pascal_block(ps[0].1) + pair_blocks(ps.skip(1)));
    }
}

#[verifier::spinoff_prover]
#[verifier::rlimit(60)]
proof fn lemma_pairs_read(d: Seq<u8>, p: int, ps: Seq<(Seq<char>, Seq<char>)>)
    requires
        0 <= p,
        forall|i: int| 0 <= i < ps.len() ==> pascal_safe(#[trigger] ps[i].0) && pascal_safe(ps[i].1),
        p + pair_blocks(ps).len() == d.len(),
        d.subrange(p, d.len() as int) == pair_blocks(ps),
    ensures
        key_pairs_from(d, p, ps.len()) == ps,
    decreases ps.len(),
{
    if ps.len() > 0 {
        let (a, b) = ps[0];
        let rest = ps.skip(1);
        lemma_pair_blocks_front(ps);
        let ab = pascal_block(a);
        let bb = pascal_block(b);
        assert(pascal_safe(a) && pascal_safe(b));
        assert(d.subrange(p, p + ab.len()) =~= ab) by {
            assert forall|k: int| 0 <= k < ab.len() implies d.subrange(p, p + ab.len())[k] == ab[k] by {
                assert(d.subrange(p, d.len() as int)[k] == d[p + k]);
            }
        }
        lemma_pascal_block_read(d, p, a);
        let q = p + 5 + a.len();
        assert(d.subrange(q, q + bb.len()) =~= bb) by {
            assert forall|k: int| 0 <= k < bb.len() implies d.subrange(q, q + bb.len())[k] == bb[k] by {
                assert(d.subrange(p, d.len() as int)[ab.len() + k] == d[q + k]);
            }
        }
        lemma_pascal_block_read(d, q, b);
        let r = q + 5 + b.len();
        assert(d.subrange(r, d.len() as int) =~= pair_blocks(rest)) by {
            assert forall|k: int| 0 <= k < d.len() - r implies d.subrange(r, d.len() as int)[k] == pair_blocks(rest)[k] by {
                assert(d.subrange(p, d.len() as int)[ab.len() + bb.len() + k] == d[r + k]);
            }
        }
        assert forall|i: int| 0 <= i < rest.len() implies pascal_safe(#[trigger] rest[i].0) && pascal_safe(rest[i].1) by {
            assert(rest[i] == ps[i + 1]);
        }
        lemma_pairs_read(d, r, rest);
        assert(key_pairs_from(d, p, ps.len()) =~= seq![(a, b)] + rest);
        assert(seq![(a, b)] + rest =~= ps);
    }
}

/// Reading back a written `SectionKeys` stream gives the pairs, when every
/// name and key is Pascal-safe and their count fits the count word.
pub proof fn lemma_section_keys_round_trip(ps: Seq<(Seq<char>, Seq<char>)>)
    requires
        forall|i: int| 0 <= i < ps.len() ==> pascal_safe(#[trigger] ps[i].0) && pascal_safe(ps[i].1),
        ps.len() < 0x1_0000_0000,
    ensures
        spec_section_keys(spec_section_keys_data(ps)) == ps,
{
    let d = spec_section_keys_data(ps);
    lemma_le32_round_trip(ps.len() as int);
    assert((ps.len() % 0x1_0000_0000) as int == ps.len());
    assert(d[0] == le32(ps.len() as int)[0] && d[1] == le32(ps.len() as int)[1] && d[2] == le32(ps.len() as int)[2]
        && d[3] == le32(ps.len() as int)[3]);
    assert(u32_le(d, 0) == ps.len());
    assert(d.subrange(4, d.len() as int) =~= pair_blocks(ps));
    lemma_pairs_read(d, 4, ps);
}

/// The key stored for `name`: the last pair naming it.
pub open spec fn key_of(keys: Seq<(Seq<char>, Seq<char>)>, name: Seq<char>) -> Option<Seq<char>>
    decreases keys.len(),
{
    if keys.len() == 0 {
        None
    } else if keys.last().0 == name {
        Some(keys.last().1)
    } else {
        key_of(keys.drop_last(), name)
    }
}

/// The footprints that have a storage key, with their keys, in order.
pub open spec fn keyed(names: Seq<Seq<char>>, keys: Seq<(Seq<char>, Seq<char>)>) -> Seq<(Seq<char>, Seq<char>)>
    decreases names.len(),
{
    if names.len() == 0 {
        seq![]
    } else {
        let rest = keyed(names.drop_last(), keys);
        match key_of(keys, names.last()) {
            Some(k) => rest.push((names.last(), k)),
            None => rest,
        }
    }
}

/// The first position of `x` in `order`.
pub open spec fn first_index(order: Seq<Seq<char>>, x: Seq<char>) -> Option<int>
    decreases order.len(),
{
    if order.len() == 0 {
        None
    } else {
        match first_index(order.drop_last(), x) {
            Some(i) => Some(i),
            None => if order.last() == x {
                Some(order.len() - 1)
            } else {
                None
            },
        }
    }
}

/// The pairs whose name first occurs in `order` at `rank` (`None`: not at
/// all), in their order.
pub open spec fn with_rank(ps: Seq<(Seq<char>, Seq<char>)>, order: Seq<Seq<char>>, rank: Option<int>) -> Seq<(Seq<char>, Seq<char>)>
    decreases ps.len(),
{
    if ps.len() == 0 {
        seq![]
    } else {
        let rest = with_rank(ps.drop_last(), order, rank);
        if first_index(order, ps.last().0) == rank {
            rest.push(ps.last())
        } else {
            rest
        }
    }
}

/// The pairs ordered by the first position of their name in `order`
/// (ranks below `r`), keeping their own order among equal ranks.
pub open spec fn ranked(ps: Seq<(Seq<char>, Seq<char>)>, order: Seq<Seq<char>>, r: nat) -> Seq<(Seq<char>, Seq<char>)>
    decreases r,
{
    if r == 0 {
        seq![]
    } else {
        ranked(ps, order, (r - 1) as nat) + with_rank(ps, order, Some(r - 1))
    }
}

/// The entries of the `SectionKeys` stream: the footprints that have a key,
/// those named in the stream's previous order first (in that order), then
/// the rest in footprint order.
pub open spec fn spec_section_key_entries(
    names: Seq<Seq<char>>,
    keys: Seq<(Seq<char>, Seq<char>)>,
    order: Seq<Seq<char>>,
) -> Seq<(Seq<char>, Seq<char>)> {
    let ps = keyed(names, keys);
    ranked(ps, order, order.len()) + with_rank(ps, order, None)
}

fn copy_pair(p: &(String, String)) -> (r: (String, String))
    ensures
        r.0@ == p.0@ && r.1@ == p.1@,
{
    (crate::text::owned(p.0.as_str()), crate::text::owned(p.1.as_str()))
}

fn key_for_name(keys: &[(String, String)], name: &str) -> (r: Option<String>)
    ensures
        match r {
            Some(k) => key_of(pairs_of(keys@), name@) == Some(k@),
            None => key_of(pairs_of(keys@), name@) is None,
        },
{
    let ghost kv = pairs_of(keys@);
    let mut i: usize = keys.len();
    assert(kv.take(i as int) =~= kv);
    while i > 0
        invariant
            i <= keys@.len(),
            kv == pairs_of(keys@),
            key_of(kv, name@) == key_of(kv.take(i as int), name@),
        decreases i,
    {
        let ghost t = kv.take(i as int);
        assert(t.drop_last() =~= kv.take(i - 1));
        assert(t.last() == kv[i - 1]);
        if crate::text::str_eq(keys[i - 1].0.as_str(), name) {
            return Some(crate::text::owned(keys[i - 1].1.as_str()));
        }
        i -= 1;
    }
    None
}

fn first_index_of(order: &[String], x: &str) -> (r: Option<usize>)
    ensures
        match r {
            Some(i) => first_index(names_view(order@), x@) == Some(i as int),
            None => first_index(names_view(order@), x@) is None,
        },
{
    let ghost ov = names_view(order@);
    let mut i: usize = 0;
    while i < order.len()
        invariant
            i <= order@.len(),
            ov == names_view(order@),
            first_index(ov.take(i as int), x@) is None,
        decreases order@.len() - i,
    {
        let ghost t = ov.take(i + 1);
        assert(t.drop_last() =~= ov.take(i as int));
        assert(t.last() == order@[i as int]@);
        if crate::text::str_eq(order[i].as_str(), x) {
            proof {
                lemma_first_index_prefix(ov, i + 1, x@);
            }
            return Some(i);
        }
        i += 1;
    }
    assert(ov.take(order@.len() as int) =~= ov);
    None
}

proof fn lemma_first_index_prefix(order: Seq<Seq<char>>, n: int, x: Seq<char>)
    requires
        0 <= n <= order.len(),
        first_index(order.take(n), x) is Some,
    ensures
        first_index(order, x) == first_index(order.take(n), x),
    decreases order.len() - n,
{
    if n < order.len() {
        assert(order.take(n + 1).drop_last() =~= order.take(n));
        lemma_first_index_prefix(order, n + 1, x);
    } else {
        assert(order.take(n) =~= order);
    }
}

fn push_with_rank(out: &mut Vec<(String, String)>, ps: &Vec<(String, String)>, order: &[String], rank: Option<usize>)
    ensures
        pairs_of(final(out)@) == pairs_of(old(out)@) + with_rank(pairs_of(ps@), names_view(order@), match rank {
            Some(r) => Some(r as int),
            None => None,
        }),
{
    let ghost rk: Option<int> = match rank {
        Some(r) => Some(r as int),
        None => None,
    };
    let ghost pv = pairs_of(ps@);
    let ghost head = pairs_of(out@);
    let mut i: usize = 0;
    while i < ps.len()
        invariant
            i <= ps@.len(),
            pv == pairs_of(ps@),
            rk == match rank {
                Some(r) => Some(r as int),
                None => None,
            },
            pairs_of(out@) == head + with_rank(pv.take(i as int), names_view(order@), rk),
        decreases ps@.len() - i,
    {
        let ghost t = pv.take(i + 1);
        assert(t.drop_last() =~= pv.take(i as int));
        assert(t.last() == (ps@[i as int].0@, ps@[i as int].1@));
        let fi = first_index_of(order, ps[i].0.as_str());
        let same = match (fi, rank) {
            (Some(a), Some(b)) => a == b,
            (None, None) => true,
            _ => false,
        };
        if same {
            let ghost before = pairs_of(out@);
            let c = copy_pair(&ps[i]);
            out.push(c);
            assert(pairs_of(out@) =~= before.push((ps@[i as int].0@, ps@[i as int].1@)));
        }
        i += 1;
    }
    assert(pv.take(ps@.len() as int) =~= pv);
}

/// The entries of the `SectionKeys` stream (see
/// `spec_section_key_entries`): footprints with a key, in the stream's
/// previous order first, then the rest in footprint order.
pub fn section_key_entries(names: &[String], keys: &[(String, String)], order: &[String]) -> (r: Vec<(String, String)>)
    ensures
        pairs_of(r@) == spec_section_key_entries(names_view(names@), pairs_of(keys@), names_view(order@)),
{
    let ghost nv = names_view(names@);
    let ghost kv = pairs_of(keys@);
    let mut ps: Vec<(String, String)> = Vec::new();
    let mut i: usize = 0;
    while i < names.len()
        invariant
            i <= names@.len(),
            nv == names_view(names@),
            kv == pairs_of(keys@),
            pairs_of(ps@) == keyed(nv.take(i as int), kv),
        decreases names@.len() - i,
    {
        let ghost t = nv.take(i + 1);
        assert(t.drop_last() =~= nv.take(i as int));
        assert(t.last() == names@[i as int]@);
        if let Some(k) = key_for_name(keys, names[i].as_str()) {
            let ghost before = pairs_of(ps@);
            ps.push((crate::text::owned(names[i].as_str()), k));
            assert(pairs_of(ps@) =~= before.push((names@[i as int]@, k@)));
        }
        i += 1;
    }
    assert(nv.take(names@.len() as int) =~= nv);
    let mut out: Vec<(String, String)> = Vec::new();
    let mut r: usize = 0;
    assert(pairs_of(out@) =~= Seq::<(Seq<char>, Seq<char>)>::empty());
    while r < order.len()
        invariant
            r <= order@.len(),
            pairs_of(out@) == ranked(pairs_of(ps@), names_view(order@), r as nat),
        decreases order@.len() - r,
    {
        push_with_rank(&mut out, &ps, order, Some(r));
        r += 1;
    }
    push_with_rank(&mut out, &ps, order, None);
    out
}

} // verus!
