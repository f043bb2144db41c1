//! Bit-level and byte-level helpers shared by the PCB reader and writer.

use vstd::prelude::*;

use crate::bytes::{
    as_signed32, as_unsigned32, le16, le32, lemma_le16_round_trip, push_i32, push_u16, push_u32,
    read_i32, read_u16, u16_le, u32_le,
};
use crate::coord::{Coord, CoordPoint};
use crate::text::{
    all_digits, dec, digit_char, digit_value, digits_value, is_ascii_lower, lemma_dec_len_pos, owned, push_dec,
    upper_char,
    chars_of, has_prefix, parse_bounded, parse_int, seq_eq, starts_with, tail_from, upper_chars,
    upper_seq,
};

verus! {

/// Bit 2: Unlocked (inverted: clear means locked).
pub const FLAG_UNLOCKED: u16 = 0x04;
/// Bit 5: Tenting top.
pub const FLAG_TENTING_TOP: u16 = 0x20;
/// Bit 6: Tenting bottom.
pub const FLAG_TENTING_BOTTOM: u16 = 0x40;
/// Bit 9: Keepout.
pub const FLAG_KEEPOUT: u16 = 0x200;
/// Bit 1: outline segment of a polygon pour.
pub const FLAG_POLYGON_OUTLINE: u16 = 0x02;
/// Bit 3: set by Altium on every primitive it creates.
pub const FLAG_ALTIUM_NATIVE: u16 = 0x08;
/// Bit 7: fabrication test point, top side.
pub const FLAG_TESTPOINT_FAB_TOP: u16 = 0x80;
/// Bit 8: fabrication test point, bottom side.
pub const FLAG_TESTPOINT_FAB_BOTTOM: u16 = 0x100;

/// Flags decoded from the per-primitive bitfield.
#[derive(Debug, Clone, Copy, Default, PartialEq, Eq, Structural)]
pub struct PrimitiveFlags {
    pub is_locked: bool,
    pub is_tenting_top: bool,
    pub is_tenting_bottom: bool,
    pub is_keepout: bool,
}

/// The flags a bitfield stands for.
pub open spec fn spec_decode_flags(bits: u16) -> PrimitiveFlags {
    PrimitiveFlags {
        is_locked: bits & FLAG_UNLOCKED == 0,
        is_tenting_top: bits & FLAG_TENTING_TOP != 0,
        is_tenting_bottom: bits & FLAG_TENTING_BOTTOM != 0,
        is_keepout: bits & FLAG_KEEPOUT != 0,
    }
}

/// The bitfield written for a set of flags: only the four flag bits can be set.
pub open spec fn spec_encode_flags(f: PrimitiveFlags) -> u16 {
    (if f.is_locked { 0u16 } else { FLAG_UNLOCKED })
        | (if f.is_tenting_top { FLAG_TENTING_TOP } else { 0u16 })
        | (if f.is_tenting_bottom { FLAG_TENTING_BOTTOM } else { 0u16 })
        | (if f.is_keepout { FLAG_KEEPOUT } else { 0u16 })
}

impl PrimitiveFlags {
    pub fn decode(bits: u16) -> (f: Self)
        ensures
            f == spec_decode_flags(bits),
    {
        PrimitiveFlags {
            is_locked: (bits & FLAG_UNLOCKED) == 0,
            is_tenting_top: (bits & FLAG_TENTING_TOP) != 0,
            is_tenting_bottom: (bits & FLAG_TENTING_BOTTOM) != 0,
            is_keepout: (bits & FLAG_KEEPOUT) != 0,
        }
    }

    pub fn encode(self) -> (bits: u16)
        ensures
            bits == spec_encode_flags(self),
    {
        let locked_bits: u16 = if self.is_locked { 0u16 } else { FLAG_UNLOCKED };
        let top_bits: u16 = if self.is_tenting_top { FLAG_TENTING_TOP } else { 0u16 };
        let bottom_bits: u16 = if self.is_tenting_bottom { FLAG_TENTING_BOTTOM } else { 0u16 };
        let keepout_bits: u16 = if self.is_keepout { FLAG_KEEPOUT } else { 0u16 };
        let bits: u16 = locked_bits | top_bits | bottom_bits | keepout_bits;
        bits
    }
}

/// Encoding a set of flags and decoding the bitfield gives the flags back.
pub proof fn lemma_flags_round_trip(f: PrimitiveFlags)
    ensures
        spec_decode_flags(spec_encode_flags(f)) == f,
{
    let a: u16 = if f.is_locked { 0u16 } else { 4u16 };
    let b: u16 = if f.is_tenting_top { 0x20u16 } else { 0u16 };
    let c: u16 = if f.is_tenting_bottom { 0x40u16 } else { 0u16 };
    let d: u16 = if f.is_keepout { 0x200u16 } else { 0u16 };
    assert((a == 0u16 || a == 4u16) && (b == 0u16 || b == 0x20u16) && (c == 0u16 || c == 0x40u16)
        && (d == 0u16 || d == 0x200u16) ==> {
        let x = a | b | c | d;
        &&& ((x & 4u16) == 0u16 <==> a == 0u16)
        &&& ((x & 0x20u16) != 0u16 <==> b != 0u16)
        &&& ((x & 0x40u16) != 0u16 <==> c != 0u16)
        &&& ((x & 0x200u16) != 0u16 <==> d != 0u16)
    }) by (bit_vector);
}


// ---------------------------------------------------------------------------
// Layer names

/// A layer name with spaces and dashes dropped and ASCII letters upper-cased.
pub open spec fn normalise_layer_name(name: Seq<char>) -> Seq<char> {
    upper_seq(drop_spaces_dashes(name))
}

/// `name` without its spaces and dashes.
pub open spec fn drop_spaces_dashes(name: Seq<char>) -> Seq<char>
    decreases name.len(),
{
    if name.len() == 0 {
        name
    } else if name.last() == ' ' || name.last() == '-' {
        drop_spaces_dashes(name.drop_last())
    } else {
        drop_spaces_dashes(name.drop_last()).push(name.last())
    }
}

/// The number that follows `prefix` in `norm`, when it lies in `[lo, hi]`.
pub open spec fn prefixed_number(norm: Seq<char>, prefix: Seq<char>, lo: int, hi: int) -> Option<int> {
    if has_prefix(norm, prefix) {
        match parse_int(norm.skip(prefix.len() as int), false) {
            Some(n) => if lo <= n <= hi {
                Some(n)
            } else {
                None
            },
            None => None,
        }
    } else {
        None
    }
}

/// The byte of a layer named without a number.
pub open spec fn plain_layer_byte(norm: Seq<char>) -> u8 {
    if norm == "TOPLAYER"@ || norm == "TOP"@ {
        1
    } else if norm == "BOTTOMLAYER"@ || norm == "BOTTOM"@ {
        32
    } else if norm == "TOPOVERLAY"@ {
        33
    } else if norm == "BOTTOMOVERLAY"@ {
        34
    } else if norm == "TOPPASTE"@ {
        35
    } else if norm == "BOTTOMPASTE"@ {
        36
    } else if norm == "TOPSOLDER"@ {
        37
    } else if norm == "BOTTOMSOLDER"@ {
        38
    } else if norm == "DRILLGUIDE"@ {
        55
    } else if norm == "KEEPOUTLAYER"@ || norm == "KEEPOUT"@ {
        56
    } else if norm == "DRILLDRAWING"@ {
        73
    } else if norm == "MULTILAYER"@ {
        74
    } else {
        0
    }
}

/// The layer byte a `V7_LAYER` name stands for; `0` when it is not recognised.
pub open spec fn layer_byte_for_name(name: Seq<char>) -> u8 {
    let norm = normalise_layer_name(name);
    if name.len() == 0 {
        0
    } else if prefixed_number(norm, "MECHANICAL"@, 1, 16) is Some {
        (56 + prefixed_number(norm, "MECHANICAL"@, 1, 16)->0) as u8
    } else if has_prefix(norm, "MIDLAYER"@) && prefixed_number(norm, "MIDLAYER"@, 1, 30) is Some {
        (1 + prefixed_number(norm, "MIDLAYER"@, 1, 30)->0) as u8
    } else if !has_prefix(norm, "MIDLAYER"@) && prefixed_number(norm, "MID"@, 1, 30) is Some {
        (1 + prefixed_number(norm, "MID"@, 1, 30)->0) as u8
    } else if prefixed_number(norm, "INTERNALPLANE"@, 1, 16) is Some {
        (38 + prefixed_number(norm, "INTERNALPLANE"@, 1, 16)->0) as u8
    } else {
        plain_layer_byte(norm)
    }
}

/// Drops spaces and dashes and upper-cases ASCII letters.
pub fn normalise_layer_chars(name: &[char]) -> (r: Vec<char>)
    ensures
        r@ == normalise_layer_name(name@),
{
    let mut kept: Vec<char> = Vec::new();
    let mut i: usize = 0;
    while i < name.len()
        invariant
            i <= name@.len(),
            kept@ == drop_spaces_dashes(name@.take(i as int)),
        decreases name@.len() - i,
    {
        let c = name[i];
        assert(name@.take(i + 1).drop_last() =~= name@.take(i as int));
        if c != ' ' && c != '-' {
            kept.push(c);
        }
        i += 1;
    }
    assert(name@.take(name@.len() as int) =~= name@);
    upper_chars(&kept)
}

/// Whether the characters spell `lit`.
pub fn chars_are(norm: &[char], lit: &str) -> (r: bool)
    ensures
        r == (norm@ == lit@),
{
    let l = chars_of(lit);
    seq_eq(norm, &l)
}

/// Whether the characters begin with `lit`.
pub fn chars_start_with(norm: &[char], lit: &str) -> (r: bool)
    ensures
        r == has_prefix(norm@, lit@),
{
    let l = chars_of(lit);
    starts_with(norm, &l)
}

/// The number after `prefix`, when `norm` starts with it and the number lies in `[lo, hi]`.
pub fn number_after(norm: &[char], prefix: &str, lo: u64, hi: u64) -> (r: Option<u64>)
    ensures
        r matches Some(n) ==> prefixed_number(norm@, prefix@, lo as int, hi as int) == Some(n as int),
        r is None ==> prefixed_number(norm@, prefix@, lo as int, hi as int) is None,
{
    let p = chars_of(prefix);
    if !starts_with(norm, &p) {
        return None;
    }
    let rest = tail_from(norm, p.len());
    match parse_bounded(&rest, false, hi) {
        Some((_, n)) => {
            if n >= lo {
                Some(n)
            } else {
                None
            }
        },
        None => None,
    }
}

pub fn plain_layer_byte_of(norm: &[char]) -> (b: u8)
    ensures
        b == plain_layer_byte(norm@),
{
    if chars_are(norm, "TOPLAYER") || chars_are(norm, "TOP") {
        1
    } else if chars_are(norm, "BOTTOMLAYER") || chars_are(norm, "BOTTOM") {
        32
    } else if chars_are(norm, "TOPOVERLAY") {
        33
    } else if chars_are(norm, "BOTTOMOVERLAY") {
        34
    } else if chars_are(norm, "TOPPASTE") {
        35
    } else if chars_are(norm, "BOTTOMPASTE") {
        36
    } else if chars_are(norm, "TOPSOLDER") {
        37
    } else if chars_are(norm, "BOTTOMSOLDER") {
        38
    } else if chars_are(norm, "DRILLGUIDE") {
        55
    } else if chars_are(norm, "KEEPOUTLAYER") || chars_are(norm, "KEEPOUT") {
        56
    } else if chars_are(norm, "DRILLDRAWING") {
        73
    } else if chars_are(norm, "MULTILAYER") {
        74
    } else {
        0
    }
}

/// Map a `V7_LAYER` parameter string (e.g., `"MECHANICAL1"`) to a layer byte.
///
/// Returns `0` for an unrecognised name.
pub fn layer_name_to_byte(layer_name: &str) -> (b: u8)
    ensures
        b == layer_byte_for_name(layer_name@),
{
    let name = chars_of(layer_name);
    if name.len() == 0 {
        return 0;
    }
    let norm = normalise_layer_chars(&name);
    if let Some(n) = number_after(&norm, "MECHANICAL", 1, 16) {
        return (56 + n) as u8;
    }
    if chars_start_with(&norm, "MIDLAYER") {
        if let Some(n) = number_after(&norm, "MIDLAYER", 1, 30) {
            return (1 + n) as u8;
        }
    } else if let Some(n) = number_after(&norm, "MID", 1, 30) {
        return (1 + n) as u8;
    }
    if let Some(n) = number_after(&norm, "INTERNALPLANE", 1, 16) {
        return (38 + n) as u8;
    }
    plain_layer_byte_of(&norm)
}

/// The canonical `V7_LAYER` name of a layer byte.
pub open spec fn layer_name_for_byte(b: u8) -> Seq<char> {
    if b == 1 {
        "TOPLAYER"@
    } else if 2 <= b <= 31 {
        "MID"@ + dec((b - 1) as nat)
    } else if b == 32 {
        "BOTTOMLAYER"@
    } else if b == 33 {
        "TOPOVERLAY"@
    } else if b == 34 {
        "BOTTOMOVERLAY"@
    } else if b == 35 {
        "TOPPASTE"@
    } else if b == 36 {
        "BOTTOMPASTE"@
    } else if b == 37 {
        "TOPSOLDER"@
    } else if b == 38 {
        "BOTTOMSOLDER"@
    } else if 39 <= b <= 54 {
        "INTERNALPLANE"@ + dec((b - 38) as nat)
    } else if b == 55 {
        "DRILLGUIDE"@
    } else if b == 56 {
        "KEEPOUTLAYER"@
    } else if 57 <= b <= 72 {
        "MECHANICAL"@ + dec((b - 56) as nat)
    } else if b == 73 {
        "DRILLDRAWING"@
    } else if b == 74 {
        "MULTILAYER"@
    } else {
        "MECHANICAL1"@
    }
}

fn numbered_name(prefix: &str, n: u8) -> (s: String)
    ensures
        s@ == prefix@ + dec(n as nat),
{
    let mut s = owned(prefix);
    push_dec(&mut s, n as u64);
    s
}

/// Reverse of [`layer_name_to_byte`]: the canonical `V7_LAYER` name for a
/// layer byte; unknown bytes name `MECHANICAL1`.
pub fn layer_byte_to_name(byte: u8) -> (s: String)
    ensures
        s@ == layer_name_for_byte(byte),
{
    if byte == 1 {
        owned("TOPLAYER")
    } else if 2 <= byte && byte <= 31 {
        numbered_name("MID", byte - 1)
    } else if byte == 32 {
        owned("BOTTOMLAYER")
    } else if byte == 33 {
        owned("TOPOVERLAY")
    } else if byte == 34 {
        owned("BOTTOMOVERLAY")
    } else if byte == 35 {
        owned("TOPPASTE")
    } else if byte == 36 {
        owned("BOTTOMPASTE")
    } else if byte == 37 {
        owned("TOPSOLDER")
    } else if byte == 38 {
        owned("BOTTOMSOLDER")
    } else if 39 <= byte && byte <= 54 {
        numbered_name("INTERNALPLANE", byte - 38)
    } else if byte == 55 {
        owned("DRILLGUIDE")
    } else if byte == 56 {
        owned("KEEPOUTLAYER")
    } else if 57 <= byte && byte <= 72 {
        numbered_name("MECHANICAL", byte - 56)
    } else if byte == 73 {
        owned("DRILLDRAWING")
    } else if byte == 74 {
        owned("MULTILAYER")
    } else {
        owned("MECHANICAL1")
    }
}

/// The decimal numeral of `n` is made of digits and reads back as `n`.
pub proof fn lemma_dec_digits(n: nat)
    ensures
        all_digits(dec(n)),
        digits_value(dec(n)) == n,
        dec(n).len() >= 1,
    decreases n,
{
    if n >= 10 {
        lemma_dec_digits(n / 10);
        let d = dec(n / 10);
        assert(dec(n).drop_last() =~= d);
        let r = (n % 10) as nat;
        assert(digit_value(digit_char(r)) == r);
        assert(n == (n / 10) * 10 + r);
        assert(dec(n).last() == digit_char(r));
        assert(digits_value(dec(n)) == digits_value(d) * 10 + digit_value(digit_char(r)));
    } else {
        assert(dec(n).drop_last() =~= Seq::<char>::empty());
        assert(digit_value(digit_char(n)) == n);
        assert(digits_value(Seq::<char>::empty()) == 0);
        assert(digits_value(dec(n)) == digits_value(dec(n).drop_last()) * 10 + digit_value(dec(n).last()));
    }
}

/// Names made of upper-case letters, digits and underscores are their own
/// normal form.
pub proof fn lemma_normal_name(s: Seq<char>)
    requires
        forall|i: int|
            0 <= i < s.len() ==> (#[trigger] s[i] != ' ' && s[i] != '-' && !is_ascii_lower(s[i])),
    ensures
        normalise_layer_name(s) == s,
        drop_spaces_dashes(s) == s,
    decreases s.len(),
{
    if s.len() > 0 {
        lemma_normal_name(s.drop_last());
        assert(drop_spaces_dashes(s.drop_last()).push(s.last()) =~= s);
    }
    assert(upper_seq(drop_spaces_dashes(s)) =~= s);
}

pub proof fn lemma_dec_chars(n: nat)
    ensures
        forall|i: int| 0 <= i < dec(n).len() ==> '0' <= #[trigger] dec(n)[i] <= '9',
{
    lemma_dec_digits(n);
}

/// Writing a layer byte's canonical name and reading it back gives the
/// byte again, for every byte of a real layer (1 through 74).
pub proof fn lemma_layer_name_round_trip(b: u8)
    requires
        1 <= b <= 74,
    ensures
        layer_byte_for_name(layer_name_for_byte(b)) == b,
{
    reveal_strlit("TOPLAYER");
    reveal_strlit("TOP");
    reveal_strlit("MID");
    reveal_strlit("MIDLAYER");
    reveal_strlit("BOTTOMLAYER");
    reveal_strlit("BOTTOM");
    reveal_strlit("TOPOVERLAY");
    reveal_strlit("BOTTOMOVERLAY");
    reveal_strlit("TOPPASTE");
    reveal_strlit("BOTTOMPASTE");
    reveal_strlit("TOPSOLDER");
    reveal_strlit("BOTTOMSOLDER");
    reveal_strlit("INTERNALPLANE");
    reveal_strlit("DRILLGUIDE");
    reveal_strlit("KEEPOUTLAYER");
    reveal_strlit("KEEPOUT");
    reveal_strlit("MECHANICAL");
    reveal_strlit("DRILLDRAWING");
    reveal_strlit("MULTILAYER");
    let name = layer_name_for_byte(b);
    if 2 <= b <= 31 || 39 <= b <= 54 || 57 <= b <= 72 {
        let (prefix, n): (Seq<char>, nat) = if 2 <= b <= 31 {
            ("MID"@, (b - 1) as nat)
        } else if 39 <= b <= 54 {
            ("INTERNALPLANE"@, (b - 38) as nat)
        } else {
            ("MECHANICAL"@, (b - 56) as nat)
        };
        lemma_dec_digits(n);
        lemma_dec_chars(n);
        assert(name == prefix + dec(n));
        assert forall|i: int| 0 <= i < name.len() implies (#[trigger] name[i] != ' ' && name[i]
            != '-' && !is_ascii_lower(name[i])) by {
            if i >= prefix.len() {
                assert(name[i] == dec(n)[i - prefix.len()]);
            }
        }
        lemma_normal_name(name);
        assert(name.skip(prefix.len() as int) =~= dec(n));
        assert(name.take(prefix.len() as int) =~= prefix);
        if 2 <= b <= 31 {
            assert(name[1] == 'I');
            assert(!has_prefix(name, "MECHANICAL"@));
            assert('0' <= name[3] <= '9');
            assert(!has_prefix(name, "MIDLAYER"@)) by {
                if has_prefix(name, "MIDLAYER"@) {
                    assert(name.take(8)[3] == name[3]);
                }
            }
        } else if 39 <= b <= 54 {
            assert(!has_prefix(name, "MECHANICAL"@)) by {
                if has_prefix(name, "MECHANICAL"@) {
                    assert(name.take(10)[0] == name[0]);
                }
            }
            assert(!has_prefix(name, "MID"@)) by {
                if has_prefix(name, "MID"@) {
                    assert(name.take(3)[0] == name[0]);
                }
            }
            assert(!has_prefix(name, "MIDLAYER"@)) by {
                if has_prefix(name, "MIDLAYER"@) {
                    assert(name.take(8)[0] == name[0]);
                }
            }
        }
    } else {
        assert forall|i: int| 0 <= i < name.len() implies (#[trigger] name[i] != ' ' && name[i]
            != '-' && !is_ascii_lower(name[i])) by {}
        lemma_normal_name(name);
        assert(!has_prefix(name, "MECHANICAL"@)) by {
            if has_prefix(name, "MECHANICAL"@) {
                assert(name.take(10) == "MECHANICAL"@);
                assert(name.take(10)[1] == name[1]);
                assert(name.take(10)[2] == name[2]);
            }
        }
        assert(!has_prefix(name, "MID"@)) by {
            if has_prefix(name, "MID"@) {
                assert(name.take(3)[0] == name[0]);
                assert(name.take(3)[1] == name[1]);
                assert(name.take(3)[2] == name[2]);
            }
        }
        assert(!has_prefix(name, "INTERNALPLANE"@)) by {
            if has_prefix(name, "INTERNALPLANE"@) {
                assert(name.take(13)[0] == name[0]);
            }
        }
    }
}

// ---------------------------------------------------------------------------
// Object ids

/// Object IDs for the binary `Data` stream of a PCB component.
#[derive(Debug, Clone, Copy, PartialEq, Eq, Structural)]
pub enum ObjectId {
    Arc,
    Pad,
    Via,
    Track,
    Text,
    Fill,
    Region,
    ComponentBody,
}

/// The record type byte of an object id.
pub open spec fn object_id_byte(o: ObjectId) -> u8 {
    match o {
        ObjectId::Arc => 1,
        ObjectId::Pad => 2,
        ObjectId::Via => 3,
        ObjectId::Track => 4,
        ObjectId::Text => 5,
        ObjectId::Fill => 6,
        ObjectId::Region => 11,
        ObjectId::ComponentBody => 12,
    }
}

impl ObjectId {
    /// The object id of a record type byte, if it names one.
    pub fn from_byte(b: u8) -> (r: Option<Self>)
        ensures
            r matches Some(o) ==> object_id_byte(o) == b,
            r is None <==> !(1 <= b <= 6 || b == 11 || b == 12),
    {
        match b {
            1 => Some(ObjectId::Arc),
            2 => Some(ObjectId::Pad),
            3 => Some(ObjectId::Via),
            4 => Some(ObjectId::Track),
            5 => Some(ObjectId::Text),
            6 => Some(ObjectId::Fill),
            11 => Some(ObjectId::Region),
            12 => Some(ObjectId::ComponentBody),
            _ => None,
        }
    }
}

// ---------------------------------------------------------------------------
// Common primitive prefix

/// Decoded common-prefix fields shared by every PCB primitive.
#[derive(Debug, Clone, Copy, PartialEq, Eq, Structural)]
pub struct CommonPrefix {
    pub layer: u8,
    pub flags: u16,
    /// Net index into the `Nets6` table, 1-based in memory (`0` for "no
    /// net"); 0-based on disk with `0xFFFF` for "no net".
    pub net_index: i32,
    /// Component index into the `Components6` table (`-1` for free primitives).
    pub component_index: i32,
}

/// Size of the common prefix: `layer:u8 + flags:u16 + 10 reserved bytes`.
pub const COMMON_PREFIX_LEN: usize = 13;

/// The prefix the 13 bytes at `p` hold.
pub open spec fn spec_common_prefix(b: Seq<u8>, p: int) -> CommonPrefix {
    let net_raw = u16_le(b, p + 3);
    let comp_raw = u16_le(b, p + 7);
    CommonPrefix {
        layer: b[p],
        flags: u16_le(b, p + 1) as u16,
        net_index: if net_raw == 0xFFFF { 0 } else { (net_raw + 1) as i32 },
        component_index: if comp_raw == 0xFFFF { -1i32 } else { comp_raw as i32 },
    }
}

/// The 13 bytes written for a prefix: indices outside their on-disk range
/// are written as the `0xFFFF` "absent" sentinel, reserved words as `0xFF`.
pub open spec fn spec_common_prefix_bytes(layer: u8, flags: u16, net_index: i32, component_index: i32) -> Seq<u8> {
    let net_word: int = if 1 <= net_index <= 0xFFFF { net_index - 1 } else { 0xFFFF };
    let comp_word: int = if 0 <= component_index <= 0xFFFE { component_index as int } else { 0xFFFF };
    seq![layer] + le16(flags as int) + le16(net_word) + le16(0xFFFF) + le16(comp_word) + le32(0xFFFF_FFFF)
}

/// Reads the common prefix at `p`; `None` when fewer than 13 bytes remain.
pub fn read_common_prefix(b: &[u8], p: usize) -> (r: Option<CommonPrefix>)
    ensures
        r matches Some(c) ==> p + 13 <= b@.len() && c == spec_common_prefix(b@, p as int),
        r is None <==> p + 13 > b@.len(),
{
    if p > b.len() || b.len() - p < 13 {
        return None;
    }
    let layer = b[p];
    let flags = read_u16(b, p + 1).unwrap();
    let net_raw = read_u16(b, p + 3).unwrap();
    let component_raw = read_u16(b, p + 7).unwrap();
    let net_index: i32 = if net_raw == 0xFFFF {
        0
    } else {
        net_raw as i32 + 1
    };
    let component_index: i32 = if component_raw == 0xFFFF {
        -1
    } else {
        component_raw as i32
    };
    Some(CommonPrefix { layer, flags, net_index, component_index })
}

/// Appends a common prefix with explicit `net_index` and `component_index`.
pub fn write_common_prefix_full(
    out: &mut Vec<u8>,
    layer: u8,
    flags: u16,
    net_index: i32,
    component_index: i32,
)
    ensures
        final(out)@ == old(out)@ + spec_common_prefix_bytes(layer, flags, net_index, component_index),
{
    out.push(layer);
    push_u16(out, flags);
    let net_word: u16 = if 1 <= net_index && net_index <= 0xFFFF {
        (net_index - 1) as u16
    } else {
        0xFFFF
    };
    push_u16(out, net_word);
    push_u16(out, 0xFFFF);
    let comp_word: u16 = if 0 <= component_index && component_index <= 0xFFFE {
        component_index as u16
    } else {
        0xFFFF
    };
    push_u16(out, comp_word);
    push_u32(out, 0xFFFF_FFFF);
    assert(final(out)@ =~= old(out)@ + spec_common_prefix_bytes(layer, flags, net_index, component_index));
}

/// Appends a common prefix with no net and no component.
pub fn write_common_prefix(out: &mut Vec<u8>, layer: u8, flags: u16)
    ensures
        final(out)@ == old(out)@ + spec_common_prefix_bytes(layer, flags, -1i32, -1i32),
{
    write_common_prefix_full(out, layer, flags, -1, -1)
}

/// Writing a prefix and reading it back gives the same prefix, for every net
/// index in `0..=0xFFFF` and component index in `-1..=0xFFFE`.
pub proof fn lemma_common_prefix_round_trip(layer: u8, flags: u16, net_index: i32, component_index: i32)
    requires
        0 <= net_index <= 0xFFFF,
        -1 <= component_index <= 0xFFFE,
    ensures
        spec_common_prefix(spec_common_prefix_bytes(layer, flags, net_index, component_index), 0)
            == (CommonPrefix { layer, flags, net_index, component_index }),
{
    let b = spec_common_prefix_bytes(layer, flags, net_index, component_index);
    let net_word: int = if 1 <= net_index <= 0xFFFF { net_index - 1 } else { 0xFFFF };
    let comp_word: int = if 0 <= component_index <= 0xFFFE { component_index as int } else { 0xFFFF };
    lemma_le16_round_trip(flags as int);
    lemma_le16_round_trip(net_word);
    lemma_le16_round_trip(comp_word);
    assert(b.subrange(1, 3) =~= le16(flags as int));
    assert(b.subrange(3, 5) =~= le16(net_word));
    assert(b.subrange(7, 9) =~= le16(comp_word));
    assert(u16_le(b, 1) == u16_le(le16(flags as int), 0));
    assert(u16_le(b, 3) == u16_le(le16(net_word), 0));
    assert(u16_le(b, 7) == u16_le(le16(comp_word), 0));
}

/// Reads a point: two little-endian `i32` raw coordinates.
pub fn read_coord_point(b: &[u8], p: usize) -> (r: Option<CoordPoint>)
    ensures
        r matches Some(pt) ==> p + 8 <= b@.len() && pt.x.raw == as_signed32(u32_le(b@, p as int))
            && pt.y.raw == as_signed32(u32_le(b@, p + 4)),
        r is None <==> p + 8 > b@.len(),
{
    if p > b.len() || b.len() - p < 8 {
        return None;
    }
    let x = read_i32(b, p).unwrap();
    let y = read_i32(b, p + 4).unwrap();
    Some(CoordPoint::new(Coord::from_raw(x), Coord::from_raw(y)))
}

/// Appends a point: two little-endian `i32` raw coordinates.
pub fn write_coord_point(out: &mut Vec<u8>, point: CoordPoint)
    ensures
        final(out)@ == old(out)@ + le32(as_unsigned32(point.x.raw as int)) + le32(
            as_unsigned32(point.y.raw as int),
        ),
{
    push_i32(out, point.x.to_raw());
    push_i32(out, point.y.to_raw());
}

} // verus!
