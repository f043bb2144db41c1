//! Raw record access for footprint `Data` streams.
//!
//! A footprint's `Data` stream is a name block followed by records of the
//! form `[type u8][u32 len][block]`; pads carry six length-prefixed blocks
//! and texts two (the 252-byte body and the string). This module slices the
//! stream into records without interpreting them.

use vstd::prelude::*;

use crate::bytes::{read_u32, u32_le};
use crate::encoding::{decode, latin1};

verus! {

/// The length word at `p`, or 0 when fewer than four bytes remain.
pub open spec fn len_at(b: Seq<u8>, p: int) -> int {
    if 0 <= p && p + 4 <= b.len() {
        u32_le(b, p)
    } else {
        0
    }
}

/// `b[from..to]`, both ends clamped to the buffer.
pub open spec fn clamped(b: Seq<u8>, from: int, to: int) -> Seq<u8> {
    let f = if from < b.len() { from } else { b.len() as int };
    let t = if to < b.len() { to } else { b.len() as int };
    b.subrange(f, t)
}

/// Offset of the length word of block `i` of a pad record.
pub open spec fn pad_block_offset(b: Seq<u8>, i: nat) -> int
    decreases i,
{
    if i == 0 {
        1
    } else {
        let p = pad_block_offset(b, (i - 1) as nat);
        p + 4 + len_at(b, p)
    }
}

/// The main block of a record: the fifth block of a pad, the first block of
/// anything else.
pub open spec fn spec_main_block(kind: u8, b: Seq<u8>) -> Seq<u8> {
    if kind == 2 {
        let p = pad_block_offset(b, 4);
        clamped(b, p + 4, p + 4 + len_at(b, p))
    } else {
        clamped(b, 5, 5 + len_at(b, 1))
    }
}

/// One raw record: its type byte and every byte belonging to it (type byte,
/// length prefixes and blocks included).
#[derive(Debug, Clone, PartialEq, Eq)]
pub struct RawRecord {
    pub kind: u8,
    pub bytes: Vec<u8>,
}

fn u32_at_or_zero(b: &[u8], p: u64) -> (r: u64)
    ensures
        r == len_at(b@, p as int),
        r < 0x1_0000_0000,
{
    if p > b.len() as u64 {
        return 0;
    }
    match read_u32(b, p as usize) {
        Some(v) => v as u64,
        None => 0,
    }
}

fn clamped_slice(b: &[u8], from: u64, to: u64) -> (r: &[u8])
    requires
        from <= to,
    ensures
        r@ == clamped(b@, from as int, to as int),
{
    let n = b.len() as u64;
    let f = if from < n { from } else { n };
    let t = if to < n { to } else { n };
    &b[f as usize..t as usize]
}

impl RawRecord {
    /// The main block of the record: the fifth block of a pad, the 252-byte
    /// body of a text, the single block of everything else.
    pub fn main_block(&self) -> (r: &[u8])
        ensures
            r@ == spec_main_block(self.kind, self.bytes@),
    {
        let b = self.bytes.as_slice();
        if self.kind == 2 {
            let mut p: u64 = 1;
            let mut i: u64 = 0;
            while i < 4
                invariant
                    i <= 4,
                    p == pad_block_offset(b@, i as nat),
                    p <= 1 + i * 0x1_0000_0004,
                decreases 4 - i,
            {
                let len = u32_at_or_zero(b, p);
                p = p + 4 + len;
                i += 1;
            }
            let len = u32_at_or_zero(b, p);
            return clamped_slice(b, p + 4, p + 4 + len);
        }
        let len = u32_at_or_zero(b, 1);
        clamped_slice(b, 5, 5 + len)
    }

    /// Layer byte of the record (first byte of the main block).
    pub fn layer(&self) -> (r: Option<u8>)
        ensures
            r == (if spec_main_block(self.kind, self.bytes@).len() > 0 {
                Some(spec_main_block(self.kind, self.bytes@)[0])
            } else {
                None
            }),
    {
        let m = self.main_block();
        if m.len() > 0 {
            Some(m[0])
        } else {
            None
        }
    }

    /// The string of a text record: after the body block comes a length word
    /// and a length-prefixed string.
    pub fn text(&self) -> (r: Option<String>)
        requires
            self.kind == 5 && self.bytes@.len() >= 5 ==> 5 + u32_le(self.bytes@, 1) <= self.bytes@.len(),
        ensures
            r matches Some(s) ==> spec_record_text(self.kind, self.bytes@) == Some(s@),
            r is None <==> spec_record_text(self.kind, self.bytes@) is None,
    {
        if self.kind != 5 {
            return None;
        }
        let b = self.bytes.as_slice();
        let len = match read_u32(b, 1) {
            Some(v) => v as usize,
            None => return None,
        };
        assert(b@ == self.bytes@);
        assert(5 + len <= b@.len());
        assert(b@.len() == b.len());
        let s = &b[5 + len..b.len()];
        if s.len() <= 4 {
            return None;
        }
        let n = s[4] as usize;
        if s.len() < 5 + n {
            return None;
        }
        Some(decode(&s[5..5 + n]))
    }
}

/// The string a text record holds, if its bytes reach that far.
pub open spec fn spec_record_text(kind: u8, b: Seq<u8>) -> Option<Seq<char>> {
    if kind != 5 || b.len() < 5 {
        None
    } else {
        let s = b.skip(5 + u32_le(b, 1));
        if s.len() <= 4 || s.len() < 5 + s[4] {
            None
        } else {
            Some(latin1(s.subrange(5, 5 + s[4])))
        }
    }
}

/// Why a footprint `Data` stream could not be split into records.
#[derive(Debug, Clone, Copy, PartialEq, Eq, Structural)]
pub enum DataError {
    /// Fewer than four bytes: no name block length.
    MissingNameBlock,
    /// The name block runs past the end of the stream.
    TruncatedNameBlock,
    /// A record's block length word is cut off.
    TruncatedBlockLength,
    /// A record's block runs past the end of the stream.
    BlockPastEnd,
}

/// The human-readable description of each error.
pub open spec fn data_error_text(e: DataError) -> Seq<char> {
    match e {
        DataError::MissingNameBlock => "missing name block"@,
        DataError::TruncatedNameBlock => "truncated name block"@,
        DataError::TruncatedBlockLength => "truncated block length"@,
        DataError::BlockPastEnd => "block runs past the end of the stream"@,
    }
}

impl DataError {
    /// The human-readable description of the error.
    pub fn message(&self) -> (s: &'static str)
        ensures
            s@ == data_error_text(*self),
    {
        match self {
            DataError::MissingNameBlock => "missing name block",
            DataError::TruncatedNameBlock => "truncated name block",
            DataError::TruncatedBlockLength => "truncated block length",
            DataError::BlockPastEnd => "block runs past the end of the stream",
        }
    }
}

/// Number of length-prefixed blocks in a record of a given type.
pub open spec fn block_count(kind: u8) -> nat {
    if kind == 2 {
        6
    } else if kind == 5 {
        2
    } else {
        1
    }
}

/// Skips `n` length-prefixed blocks starting at `p`: the offset after them,
/// or why they do not fit.
pub open spec fn skip_blocks(data: Seq<u8>, p: int, n: nat) -> Result<int, DataError>
    decreases n,
{
    if n == 0 {
        Ok(p)
    } else if p + 4 > data.len() {
        Err(DataError::TruncatedBlockLength)
    } else {
        let q = p + 4 + u32_le(data, p);
        if q > data.len() {
            Err(DataError::BlockPastEnd)
        } else {
            skip_blocks(data, q, (n - 1) as nat)
        }
    }
}

pub proof fn lemma_skip_blocks_bounds(data: Seq<u8>, p: int, n: nat)
    requires
        0 <= p,
    ensures
        skip_blocks(data, p, n) matches Ok(q) ==> p + 4 * n <= q && (n > 0 ==> q <= data.len()),
    decreases n,
{
    if n > 0 && p + 4 <= data.len() {
        let q = p + 4 + u32_le(data, p);
        if q <= data.len() {
            lemma_skip_blocks_bounds(data, q, (n - 1) as nat);
        }
    }
}

/// The records from offset `p` on, each as its type byte and bytes.
pub open spec fn records_from(data: Seq<u8>, p: int) -> Result<Seq<(u8, Seq<u8>)>, DataError>
    decreases data.len() - p,
{
    if p < 0 || p + 5 > data.len() {
        Ok(seq![])
    } else {
        let kind = data[p];
        match skip_blocks(data, p + 1, block_count(kind)) {
            Err(e) => Err(e),
            Ok(q) => {
                proof {
                    lemma_skip_blocks_bounds(data, p + 1, block_count(kind));
                }
                match records_from(data, q) {
                    Ok(rest) => Ok(seq![(kind, data.subrange(p, q))] + rest),
                    Err(e) => Err(e),
                }
            },
        }
    }
}

/// The pattern name a stream's name block holds.
pub open spec fn spec_pattern_name(block: Seq<u8>) -> Seq<char> {
    if block.len() == 0 {
        Seq::empty()
    } else {
        let rest = block.drop_first();
        let n = if (block[0] as int) < rest.len() { block[0] as int } else { rest.len() as int };
        latin1(rest.take(n))
    }
}

/// What splitting a footprint `Data` stream gives: the pattern name and the
/// records, or the first inconsistency met.
pub open spec fn spec_split_footprint(data: Seq<u8>) -> Result<(Seq<char>, Seq<(u8, Seq<u8>)>), DataError> {
    if data.len() < 4 {
        Err(DataError::MissingNameBlock)
    } else if 4 + u32_le(data, 0) > data.len() {
        Err(DataError::TruncatedNameBlock)
    } else {
        let name_len = u32_le(data, 0);
        match records_from(data, 4 + name_len) {
            Ok(recs) => Ok((spec_pattern_name(data.subrange(4, 4 + name_len)), recs)),
            Err(e) => Err(e),
        }
    }
}

/// The view of a list of records: type byte and bytes of each.
pub open spec fn records_view(v: Seq<RawRecord>) -> Seq<(u8, Seq<u8>)> {
    v.map_values(|r: RawRecord| (r.kind, r.bytes@))
}

pub(crate) fn skip_blocks_exec(data: &[u8], p: usize, n: u64) -> (r: Result<usize, DataError>)
    ensures
        r matches Ok(q) ==> skip_blocks(data@, p as int, n as nat) == Ok::<int, DataError>(q as int),
        r matches Err(e) ==> skip_blocks(data@, p as int, n as nat) == Err::<int, DataError>(e),
    decreases n,
{
    if n == 0 {
        return Ok(p);
    }
    let len = match read_u32(data, p) {
        Some(v) => v as usize,
        None => return Err(DataError::TruncatedBlockLength),
    };
    assert(data@.len() == data.len());
    let q = match (p + 4).checked_add(len) {
        Some(q) => q,
        None => return Err(DataError::BlockPastEnd),
    };
    if q > data.len() {
        return Err(DataError::BlockPastEnd);
    }
    skip_blocks_exec(data, q, n - 1)
}

/// Split a footprint `Data` stream into its pattern name and raw records.
pub fn split_footprint_records(data: &[u8]) -> (r: Result<(String, Vec<RawRecord>), DataError>)
    ensures
        r matches Ok((name, recs)) ==> spec_split_footprint(data@) == Ok::<
            (Seq<char>, Seq<(u8, Seq<u8>)>),
            DataError,
        >((name@, records_view(recs@))),
        r matches Err(e) ==> spec_split_footprint(data@) == Err::<
            (Seq<char>, Seq<(u8, Seq<u8>)>),
            DataError,
        >(e),
{
    let name_len = match read_u32(data, 0) {
        Some(v) => v as usize,
        None => return Err(DataError::MissingNameBlock),
    };
    if data.len() < 4 || data.len() - 4 < name_len {
        return Err(DataError::TruncatedNameBlock);
    }
    let name_block = &data[4..4 + name_len];
    let name = if name_block.len() == 0 {
        String::new()
    } else {
        let rest = &name_block[1..name_block.len()];
        let n = name_block[0] as usize;
        let m = if n < rest.len() { n } else { rest.len() };
        let taken = &rest[0..m];
        assert(taken@ == name_block@.drop_first().take(m as int));
        decode(taken)
    };
    let mut p: usize = 4 + name_len;
    let mut out: Vec<RawRecord> = Vec::new();
    while p <= data.len() && data.len() - p >= 5
        invariant
            4 <= p,
            p <= data@.len() || !(p + 5 <= data@.len()),
            records_from(data@, (4 + u32_le(data@, 0))) == match records_from(data@, p as int) {
                Ok(rest) => Ok::<Seq<(u8, Seq<u8>)>, DataError>(records_view(out@) + rest),
                Err(e) => Err::<Seq<(u8, Seq<u8>)>, DataError>(e),
            },
        decreases data@.len() - p,
    {
        let kind = data[p];
        let start = p;
        let nblocks: u64 = if kind == 2 {
            6
        } else if kind == 5 {
            2
        } else {
            1
        };
        let q = match skip_blocks_exec(data, p + 1, nblocks) {
            Ok(q) => q,
            Err(e) => {
                return Err(e);
            },
        };
        proof {
            lemma_skip_blocks_bounds(data@, p + 1, nblocks as nat);
        }
        let rec = RawRecord { kind, bytes: vstd::slice::slice_to_vec(&data[start..q]) };
        let ghost old_out = out@;
        out.push(rec);
        proof {
            assert(records_view(out@) =~= records_view(old_out).push((kind, data@.subrange(p as int, q as int))));
            let tail = records_from(data@, q as int);
            if let Ok(rest) = tail {
                assert(records_view(old_out) + (seq![(kind, data@.subrange(p as int, q as int))] + rest)
                    =~= records_view(out@) + rest);
            }
        }
        p = q;
    }
    Ok((name, out))
}

/// Human name of a record type byte.
pub fn kind_name(kind: u8) -> (s: &'static str)
    ensures
        s@ == spec_kind_name(kind),
{
    match kind {
        1 => "arc",
        2 => "pad",
        3 => "via",
        4 => "track",
        5 => "text",
        6 => "fill",
        11 => "region",
        12 => "body",
        _ => "unknown",
    }
}

pub open spec fn spec_kind_name(kind: u8) -> Seq<char> {
    if kind == 1 {
        "arc"@
    } else if kind == 2 {
        "pad"@
    } else if kind == 3 {
        "via"@
    } else if kind == 4 {
        "track"@
    } else if kind == 5 {
        "text"@
    } else if kind == 6 {
        "fill"@
    } else if kind == 11 {
        "region"@
    } else if kind == 12 {
        "body"@
    } else {
        "unknown"@
    }
}

} // verus!
