//! Single-byte text encoding of the binary streams: each byte is the code
//! point of one character (ISO 8859-1).

use vstd::prelude::*;

use crate::text::push_char;

verus! {

/// The characters a run of bytes decodes to.
pub open spec fn latin1(b: Seq<u8>) -> Seq<char> {
    b.map_values(|x: u8| (x as u32) as char)
}

/// The byte a character encodes to; characters beyond U+00FF become `?`.
pub open spec fn latin1_byte(c: char) -> u8 {
    if (c as u32) < 256 {
        (c as u32) as u8
    } else {
        63u8
    }
}

/// The bytes a run of characters encodes to.
pub open spec fn latin1_bytes(s: Seq<char>) -> Seq<u8> {
    s.map_values(|c: char| latin1_byte(c))
}

/// Decodes bytes to a string.
pub fn decode(b: &[u8]) -> (s: String)
    ensures
        s@ == latin1(b@),
{
    let mut s = String::new();
    let mut i: usize = 0;
    while i < b.len()
        invariant
            i <= b@.len(),
            s@ == latin1(b@.take(i as int)),
        decreases b@.len() - i,
    {
        push_char(&mut s, (b[i] as u32) as u8 as char);
        i += 1;
        assert(s@ =~= latin1(b@.take(i as int)));
    }
    assert(b@.take(b@.len() as int) =~= b@);
    s
}

/// Encodes a string to bytes.
pub fn encode(s: &str) -> (b: Vec<u8>)
    ensures
        b@ == latin1_bytes(s@),
{
    let mut b: Vec<u8> = Vec::new();
    for c in it: s.chars()
        invariant
            it.seq() == s@,
            b@ == latin1_bytes(it.seq().take(it.index() as int)),
    {
        let x: u8 = if (c as u32) < 256 {
            (c as u32) as u8
        } else {
            63u8
        };
        b.push(x);
        assert(b@ =~= latin1_bytes(it.seq().take(it.index() + 1)));
    }
    b
}

/// The characters a run of bytes decodes to, as a vector.
pub fn latin1_chars(b: &[u8]) -> (v: Vec<char>)
    ensures
        v@ == latin1(b@),
{
    let mut v: Vec<char> = Vec::new();
    let mut i: usize = 0;
    while i < b.len()
        invariant
            i <= b@.len(),
            v@ == latin1(b@.take(i as int)),
        decreases b@.len() - i,
    {
        v.push((b[i] as u32) as u8 as char);
        i += 1;
        assert(v@ =~= latin1(b@.take(i as int)));
    }
    assert(b@.take(b@.len() as int) =~= b@);
    v
}

/// Encoding what was decoded gives the bytes back.
pub proof fn lemma_decode_encode(b: Seq<u8>)
    ensures
        latin1_bytes(latin1(b)) == b,
{
    assert(latin1_bytes(latin1(b)) =~= b);
}


/// A character that fits a byte encodes to its code point and decodes back.
pub proof fn lemma_latin1_char(c: char)
    requires
        (c as u32) < 256,
    ensures
        latin1_byte(c) as u32 == c as u32,
        ((latin1_byte(c) as u32) as char) == c,
{
    let x = c as u32;
    assert(x < 256 ==> ((x as u8) as u32) == x) by (bit_vector);
    vstd::utf8::char_u32_cast(c, x);
}

} // verus!
