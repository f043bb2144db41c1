//! Character-level helpers: strings viewed as character sequences, ASCII case
//! folding, white space, decimal numerals written and read back.

use vstd::prelude::*;

verus! {

// ---------------------------------------------------------------------------
// Strings as character sequences

/// The characters of a string slice, in order.
pub fn chars_of(s: &str) -> (v: Vec<char>)
    ensures
        v@ == s@,
{
    let mut v: Vec<char> = Vec::new();
    for c in it: s.chars()
        invariant
            v@ == it.seq().take(it.index() as int),
            it.seq() == s@,
    {
        v.push(c);
    }
    v
}

/// `String::push`: appends one character.
#[verifier::external_body]
pub fn push_char(s: &mut String, c: char)
    ensures
        final(s)@ == old(s)@.push(c),
{
    s.push(c);
}

/// Appends a string slice.
pub fn push_str(s: &mut String, t: &str)
    ensures
        final(s)@ == old(s)@ + t@,
{
    s.append(t);
}

/// Appends a run of characters.
pub fn push_chars(s: &mut String, v: &[char])
    ensures
        final(s)@ == old(s)@ + v@,
{
    let ghost start = s@;
    let mut i: usize = 0;
    while i < v.len()
        invariant
            i <= v@.len(),
            s@ == start + v@.take(i as int),
        decreases v@.len() - i,
    {
        push_char(s, v[i]);
        i += 1;
        assert(s@ == start + v@.take(i as int));
    }
    assert(v@.take(v@.len() as int) == v@);
}

/// A string holding exactly the given characters.
pub fn string_from_chars(v: &[char]) -> (s: String)
    ensures
        s@ == v@,
{
    let mut s = String::new();
    push_chars(&mut s, v);
    s
}

/// An owned copy of a string slice.
pub fn owned(t: &str) -> (s: String)
    ensures
        s@ == t@,
{
    let mut s = String::new();
    push_str(&mut s, t);
    s
}

/// Whether two string slices hold the same characters.
pub fn str_eq(a: &str, b: &str) -> (r: bool)
    ensures
        r == (a@ == b@),
{
    let x = chars_of(a);
    let y = chars_of(b);
    seq_eq(&x, &y)
}

/// Whether two character runs are equal.
pub fn seq_eq(x: &[char], y: &[char]) -> (r: bool)
    ensures
        r == (x@ == y@),
{
    if x.len() != y.len() {
        return false;
    }
    let mut i: usize = 0;
    while i < x.len()
        invariant
            x@.len() == y@.len(),
            i <= x@.len(),
            forall|k: int| 0 <= k < i ==> x@[k] == y@[k],
        decreases x@.len() - i,
    {
        if x[i] != y[i] {
            return false;
        }
        i += 1;
    }
    assert(x@ =~= y@);
    true
}

// ---------------------------------------------------------------------------
// Prefixes and suffixes

pub open spec fn has_prefix(s: Seq<char>, p: Seq<char>) -> bool {
    p.len() <= s.len() && s.take(p.len() as int) == p
}

pub open spec fn has_suffix(s: Seq<char>, p: Seq<char>) -> bool {
    p.len() <= s.len() && s.skip(s.len() - p.len()) == p
}

/// Whether `s` begins with `p`.
pub fn starts_with(s: &[char], p: &[char]) -> (r: bool)
    ensures
        r == has_prefix(s@, p@),
{
    if p.len() > s.len() {
        return false;
    }
    let mut i: usize = 0;
    while i < p.len()
        invariant
            p@.len() <= s@.len(),
            i <= p@.len(),
            forall|k: int| 0 <= k < i ==> s@[k] == p@[k],
        decreases p@.len() - i,
    {
        if s[i] != p[i] {
            assert(s@.take(p@.len() as int)[i as int] != p@[i as int]);
            return false;
        }
        i += 1;
    }
    assert(s@.take(p@.len() as int) =~= p@);
    true
}

/// Whether `s` ends with `p`.
pub fn ends_with(s: &[char], p: &[char]) -> (r: bool)
    ensures
        r == has_suffix(s@, p@),
{
    if p.len() > s.len() {
        return false;
    }
    let off = s.len() - p.len();
    let mut i: usize = 0;
    while i < p.len()
        invariant
            p@.len() <= s@.len(),
            off + p@.len() == s@.len(),
            off <= s@.len(),
            p@.len() == p.len(),
            s@.len() == s.len(),
            i <= p@.len(),
            forall|k: int| 0 <= k < i ==> s@[off + k] == p@[k],
        decreases p@.len() - i,
    {
        if s[off + i] != p[i] {
            assert(s@.skip(off as int)[i as int] != p@[i as int]);
            return false;
        }
        i += 1;
    }
    assert(s@.skip(off as int) =~= p@);
    true
}

/// The characters of `s` from index `from` on.
pub fn tail_from(s: &[char], from: usize) -> (r: Vec<char>)
    requires
        from <= s@.len(),
    ensures
        r@ == s@.skip(from as int),
{
    slice_chars(s, from, s.len())
}

/// The characters of `s` in `[from, to)`.
pub fn slice_chars(s: &[char], from: usize, to: usize) -> (r: Vec<char>)
    requires
        from <= to <= s@.len(),
    ensures
        r@ == s@.subrange(from as int, to as int),
{
    let mut r: Vec<char> = Vec::new();
    let mut i = from;
    while i < to
        invariant
            from <= i <= to <= s@.len(),
            r@ == s@.subrange(from as int, i as int),
        decreases to - i,
    {
        r.push(s[i]);
        i += 1;
        assert(r@ =~= s@.subrange(from as int, i as int));
    }
    r
}

// ---------------------------------------------------------------------------
// ASCII case folding

pub open spec fn is_ascii_lower(c: char) -> bool {
    'a' <= c && c <= 'z'
}

/// `char::to_ascii_uppercase`.
pub open spec fn upper_char(c: char) -> char {
    if is_ascii_lower(c) {
        ((c as u32) - 32) as char
    } else {
        c
    }
}

/// `str::to_ascii_uppercase`.
pub open spec fn upper_seq(s: Seq<char>) -> Seq<char> {
    s.map_values(|c: char| upper_char(c))
}

/// `str::eq_ignore_ascii_case`.
pub open spec fn eq_ignore_case(a: Seq<char>, b: Seq<char>) -> bool {
    upper_seq(a) == upper_seq(b)
}

pub fn to_upper_char(c: char) -> (r: char)
    ensures
        r == upper_char(c),
{
    if 'a' <= c && c <= 'z' {
        ((c as u8) - 32) as char
    } else {
        c
    }
}

pub fn upper_chars(s: &[char]) -> (r: Vec<char>)
    ensures
        r@ == upper_seq(s@),
{
    let mut r: Vec<char> = Vec::new();
    let mut i: usize = 0;
    while i < s.len()
        invariant
            i <= s@.len(),
            r@ == upper_seq(s@.take(i as int)),
        decreases s@.len() - i,
    {
        r.push(to_upper_char(s[i]));
        i += 1;
        assert(r@ =~= upper_seq(s@.take(i as int)));
    }
    assert(s@.take(s@.len() as int) == s@);
    r
}

/// `str::to_ascii_uppercase`.
pub fn to_ascii_upper(s: &str) -> (r: String)
    ensures
        r@ == upper_seq(s@),
{
    let v = chars_of(s);
    let u = upper_chars(&v);
    string_from_chars(&u)
}

pub fn chars_eq_ignore_case(a: &[char], b: &[char]) -> (r: bool)
    ensures
        r == eq_ignore_case(a@, b@),
{
    let x = upper_chars(a);
    let y = upper_chars(b);
    seq_eq(&x, &y)
}

/// `str::eq_ignore_ascii_case`.
pub fn str_eq_ignore_case(a: &str, b: &str) -> (r: bool)
    ensures
        r == eq_ignore_case(a@, b@),
{
    let x = chars_of(a);
    let y = chars_of(b);
    chars_eq_ignore_case(&x, &y)
}

// ---------------------------------------------------------------------------
// White space (Unicode `White_Space`, as `char::is_whitespace` uses it)

pub open spec fn is_space(c: char) -> bool {
    ||| ('\t' <= c && c <= '\r')
    ||| c == ' '
    ||| c == '\u{85}'
    ||| c == '\u{a0}'
    ||| c == '\u{1680}'
    ||| ('\u{2000}' <= c && c <= '\u{200a}')
    ||| c == '\u{2028}'
    ||| c == '\u{2029}'
    ||| c == '\u{202f}'
    ||| c == '\u{205f}'
    ||| c == '\u{3000}'
}

pub fn char_is_space(c: char) -> (r: bool)
    ensures
        r == is_space(c),
{
    ('\t' <= c && c <= '\r') || c == ' ' || c == '\u{85}' || c == '\u{a0}' || c == '\u{1680}'
        || ('\u{2000}' <= c && c <= '\u{200a}') || c == '\u{2028}' || c == '\u{2029}' || c
        == '\u{202f}' || c == '\u{205f}' || c == '\u{3000}'
}

/// `str::trim_start`.
pub open spec fn trim_start(s: Seq<char>) -> Seq<char>
    decreases s.len(),
{
    if s.len() > 0 && is_space(s[0]) {
        trim_start(s.drop_first())
    } else {
        s
    }
}

/// `str::trim_end`.
pub open spec fn trim_end(s: Seq<char>) -> Seq<char>
    decreases s.len(),
{
    if s.len() > 0 && is_space(s.last()) {
        trim_end(s.drop_last())
    } else {
        s
    }
}

/// `str::trim`.
pub open spec fn trim(s: Seq<char>) -> Seq<char> {
    trim_end(trim_start(s))
}

/// `str::trim`, on characters.
pub fn trim_chars(s: &[char]) -> (r: Vec<char>)
    ensures
        r@ == trim(s@),
{
    let mut a: usize = 0;
    assert(s@.skip(0) =~= s@);
    while a < s.len() && char_is_space(s[a])
        invariant
            a <= s@.len(),
            trim_start(s@) == trim_start(s@.skip(a as int)),
        decreases s@.len() - a,
    {
        assert(s@.skip(a as int).drop_first() =~= s@.skip(a + 1));
        a += 1;
    }
    let ghost t = s@.skip(a as int);
    assert(trim_start(s@) == t);
    let mut b: usize = s.len();
    while b > a && char_is_space(s[b - 1])
        invariant
            a <= b <= s@.len(),
            trim_end(t) == trim_end(s@.subrange(a as int, b as int)),
        decreases b,
    {
        assert(s@.subrange(a as int, b as int).drop_last() =~= s@.subrange(a as int, b - 1));
        b -= 1;
    }
    assert(s@.skip(a as int) =~= s@.subrange(a as int, s@.len() as int));
    slice_chars(s, a, b)
}

// ---------------------------------------------------------------------------
// Decimal numerals

pub open spec fn digit_char(d: nat) -> char {
    (d + 48) as char
}

pub open spec fn is_digit(c: char) -> bool {
    '0' <= c && c <= '9'
}

pub open spec fn digit_value(c: char) -> nat {
    ((c as u32) - 48) as nat
}

/// The decimal numeral of a natural number, without leading zeros.
pub open spec fn dec(n: nat) -> Seq<char>
    decreases n,
{
    if n < 10 {
        seq![digit_char(n)]
    } else {
        dec(n / 10).push(digit_char(n % 10))
    }
}

/// The decimal numeral of an integer, with a leading `-` when negative.
pub open spec fn dec_int(n: int) -> Seq<char> {
    if n < 0 {
        seq!['-'] + dec((-n) as nat)
    } else {
        dec(n as nat)
    }
}

/// `s` left-padded with `'0'` to at least `width` characters (`{:0w}`).
pub open spec fn zero_pad(s: Seq<char>, width: nat) -> Seq<char> {
    if s.len() >= width {
        s
    } else {
        Seq::new((width - s.len()) as nat, |i: int| '0') + s
    }
}

pub fn digit_of(d: u64) -> (c: char)
    requires
        d < 10,
    ensures
        c == digit_char(d as nat),
{
    let b: u8 = d as u8;
    (48u8 + b) as char
}

/// Appends the decimal numeral of `n`.
pub fn push_dec(s: &mut String, n: u64)
    ensures
        final(s)@ == old(s)@ + dec(n as nat),
    decreases n,
{
    if n >= 10 {
        push_dec(s, n / 10);
    }
    push_char(s, digit_of(n % 10));
    assert(dec(n as nat) == if n < 10 { seq![digit_char(n as nat)] } else { dec((n / 10) as nat).push(
        digit_char((n % 10) as nat),
    ) });
}

/// `u64::to_string`.
pub fn dec_string(n: u64) -> (s: String)
    ensures
        s@ == dec(n as nat),
{
    let mut s = String::new();
    push_dec(&mut s, n);
    s
}

/// Appends the decimal numeral of a signed integer.
pub fn push_dec_signed(s: &mut String, n: i64)
    ensures
        final(s)@ == old(s)@ + dec_int(n as int),
{
    if n < 0 {
        push_char(s, '-');
        let m: u64 = if n == i64::MIN { 9223372036854775808u64 } else { (-n) as u64 };
        push_dec(s, m);
        assert(final(s)@ =~= old(s)@ + dec_int(n as int));
    } else {
        push_dec(s, n as u64);
    }
}

/// `i64::to_string`.
pub fn dec_string_signed(n: i64) -> (s: String)
    ensures
        s@ == dec_int(n as int),
{
    let mut s = String::new();
    push_dec_signed(&mut s, n);
    s
}

pub proof fn lemma_dec_len_pos(n: nat)
    ensures
        dec(n).len() >= 1,
    decreases n,
{
    if n >= 10 {
        lemma_dec_len_pos(n / 10);
    }
}

/// Appends the decimal numeral of `n`, left-padded with zeros to `width`.
pub fn push_dec_padded(s: &mut String, n: u64, width: usize)
    ensures
        final(s)@ == old(s)@ + zero_pad(dec(n as nat), width as nat),
{
    let d = dec_string(n);
    let digits = chars_of(d.as_str());
    let ghost start = s@;
    if digits.len() < width {
        let pad = width - digits.len();
        let mut i: usize = 0;
        while i < pad
            invariant
                i <= pad,
                s@ == start + Seq::new(i as nat, |k: int| '0'),
            decreases pad - i,
        {
            push_char(s, '0');
            i += 1;
            assert(s@ =~= start + Seq::new(i as nat, |k: int| '0'));
        }
    }
    push_chars(s, &digits);
    assert(s@ =~= start + zero_pad(dec(n as nat), width as nat));
}

/// The value of a run of decimal digits.
pub open spec fn digits_value(s: Seq<char>) -> nat
    decreases s.len(),
{
    if s.len() == 0 {
        0
    } else {
        digits_value(s.drop_last()) * 10 + digit_value(s.last())
    }
}

pub open spec fn all_digits(s: Seq<char>) -> bool {
    forall|i: int| 0 <= i < s.len() ==> is_digit(#[trigger] s[i])
}

/// What `str::parse` gives for an integer of unbounded range: an optional
/// sign (`-` only when `signed`), then one or more ASCII digits.
pub open spec fn parse_int(s: Seq<char>, signed: bool) -> Option<int> {
    let body = numeral_body(s, signed);
    if body.len() > 0 && all_digits(body) {
        Some(
            if numeral_negative(s, signed) {
                -(digits_value(body) as int)
            } else {
                digits_value(body) as int
            },
        )
    } else {
        None
    }
}

/// Whether a numeral starts with a sign that `str::parse` accepts.
pub open spec fn has_sign(s: Seq<char>, signed: bool) -> bool {
    s.len() > 0 && (s[0] == '+' || (s[0] == '-' && signed))
}

pub open spec fn numeral_negative(s: Seq<char>, signed: bool) -> bool {
    s.len() > 0 && s[0] == '-' && signed
}

/// The digits of a numeral: everything after its sign.
pub open spec fn numeral_body(s: Seq<char>, signed: bool) -> Seq<char> {
    if has_sign(s, signed) {
        s.drop_first()
    } else {
        s
    }
}

/// `str::parse::<i32>`.
pub open spec fn parse_i32(s: Seq<char>) -> Option<i32> {
    match parse_int(s, true) {
        Some(v) => if i32::MIN <= v <= i32::MAX {
            Some(v as i32)
        } else {
            None
        },
        None => None,
    }
}

/// `str::parse::<i64>`.
pub open spec fn parse_i64(s: Seq<char>) -> Option<i64> {
    match parse_int(s, true) {
        Some(v) => if i64::MIN <= v <= i64::MAX {
            Some(v as i64)
        } else {
            None
        },
        None => None,
    }
}

/// `str::parse::<u64>` (and `usize` on a 64-bit target).
pub open spec fn parse_u64(s: Seq<char>) -> Option<u64> {
    match parse_int(s, false) {
        Some(v) => if 0 <= v <= u64::MAX {
            Some(v as u64)
        } else {
            None
        },
        None => None,
    }
}

pub proof fn lemma_digits_value_prefix(s: Seq<char>, k: int)
    requires
        0 <= k <= s.len(),
    ensures
        digits_value(s.take(k)) <= digits_value(s),
    decreases s.len(),
{
    if k < s.len() {
        lemma_digits_value_prefix(s.drop_last(), k);
        assert(s.drop_last().take(k) =~= s.take(k));
    } else {
        assert(s.take(k) =~= s);
    }
}

/// The magnitude of an integer.
pub open spec fn magnitude(v: int) -> int {
    if v < 0 {
        -v
    } else {
        v
    }
}

/// Parses a signed or unsigned decimal integer whose magnitude is at most
/// `bound`; `None` when the text is not a numeral or the magnitude exceeds it.
pub fn parse_bounded(s: &[char], signed: bool, bound: u64) -> (r: Option<(bool, u64)>)
    ensures
        r matches Some((neg, m)) ==> parse_int(s@, signed) == Some(
            if neg {
                -(m as int)
            } else {
                m as int
            },
        ) && m <= bound && (neg ==> m > 0),
        r is None ==> (parse_int(s@, signed) matches Some(v) ==> magnitude(v) > bound),
{
    let neg = s.len() > 0 && s[0] == '-' && signed;
    let start: usize = if s.len() > 0 && (s[0] == '+' || (s[0] == '-' && signed)) {
        1
    } else {
        0
    };
    let ghost body = numeral_body(s@, signed);
    assert(body =~= s@.skip(start as int));
    if start >= s.len() {
        return None;
    }
    let mut v: u64 = 0;
    let mut i: usize = start;
    assert(body.take(0) =~= Seq::<char>::empty());
    while i < s.len()
        invariant
            start <= i <= s@.len(),
            start < s@.len(),
            body == s@.skip(start as int),
            body == numeral_body(s@, signed),
            v == digits_value(body.take(i - start)),
            v <= bound,
            forall|k: int| 0 <= k < i - start ==> is_digit(#[trigger] body[k]),
        decreases s@.len() - i,
    {
        let c = s[i];
        if !('0' <= c && c <= '9') {
            assert(!is_digit(body[i - start]));
            assert(!all_digits(body));
            assert(parse_int(s@, signed) is None);
            return None;
        }
        let d: u64 = ((c as u32) - 48) as u64;
        let nv: u128 = (v as u128) * 10 + (d as u128);
        assert(body.take(i + 1 - start).drop_last() =~= body.take(i - start));
        assert(nv == digits_value(body.take(i + 1 - start)));
        if nv > bound as u128 {
            proof {
                lemma_digits_value_prefix(body, i + 1 - start);
                if let Some(val) = parse_int(s@, signed) {
                    assert(magnitude(val) == digits_value(body));
                }
            }
            return None;
        }
        v = nv as u64;
        i += 1;
    }
    assert(body.take(i - start) =~= body);
    if neg && v == 0 {
        return Some((false, 0));
    }
    Some((neg, v))
}

/// `str::parse::<i32>`, on characters.
pub fn parse_i32_chars(s: &[char]) -> (r: Option<i32>)
    ensures
        r == parse_i32(s@),
{
    match parse_bounded(s, true, 2147483648u64) {
        Some((neg, m)) => {
            if neg {
                Some((-(m as i64)) as i32)
            } else if m <= 2147483647 {
                Some(m as i32)
            } else {
                None
            }
        },
        None => None,
    }
}

/// `str::parse::<i64>`, on characters.
pub fn parse_i64_chars(s: &[char]) -> (r: Option<i64>)
    ensures
        r == parse_i64(s@),
{
    match parse_bounded(s, true, 9223372036854775808u64) {
        Some((neg, m)) => {
            if neg {
                if m == 9223372036854775808u64 {
                    Some(i64::MIN)
                } else {
                    Some(-(m as i64))
                }
            } else if m <= 9223372036854775807u64 {
                Some(m as i64)
            } else {
                None
            }
        },
        None => None,
    }
}

/// `str::parse::<u64>`, on characters.
pub fn parse_u64_chars(s: &[char]) -> (r: Option<u64>)
    ensures
        r == parse_u64(s@),
{
    match parse_bounded(s, false, u64::MAX) {
        Some((_, m)) => Some(m),
        None => None,
    }
}

/// `str::parse::<i32>`.
pub fn parse_i32_str(s: &str) -> (r: Option<i32>)
    ensures
        r == parse_i32(s@),
{
    let v = chars_of(s);
    parse_i32_chars(&v)
}

// ---------------------------------------------------------------------------
// Splitting and joining on a separator

/// `str::split(sep)`: the fields between separators (one field when there is
/// no separator, an empty field at each end that holds a separator).
pub open spec fn split_on(s: Seq<char>, sep: char) -> Seq<Seq<char>>
    decreases s.len(),
{
    if s.len() == 0 {
        seq![Seq::<char>::empty()]
    } else {
        let parts = split_on(s.drop_last(), sep);
        if s.last() == sep {
            parts.push(Seq::<char>::empty())
        } else {
            parts.update(parts.len() - 1, parts.last().push(s.last()))
        }
    }
}

/// `[..].join(sep)`.
pub open spec fn join_with(parts: Seq<Seq<char>>, sep: char) -> Seq<char>
    decreases parts.len(),
{
    if parts.len() == 0 {
        Seq::empty()
    } else if parts.len() == 1 {
        parts[0]
    } else {
        join_with(parts.drop_last(), sep).push(sep) + parts.last()
    }
}

pub proof fn lemma_split_nonempty(s: Seq<char>, sep: char)
    ensures
        split_on(s, sep).len() >= 1,
    decreases s.len(),
{
    if s.len() > 0 {
        lemma_split_nonempty(s.drop_last(), sep);
    }
}

/// Joining the fields of a split with the same separator gives the text back.
pub proof fn lemma_join_split(s: Seq<char>, sep: char)
    ensures
        join_with(split_on(s, sep), sep) == s,
    decreases s.len(),
{
    if s.len() > 0 {
        let t = s.drop_last();
        lemma_join_split(t, sep);
        lemma_split_nonempty(t, sep);
        let parts = split_on(t, sep);
        if s.last() == sep {
            let q = parts.push(Seq::<char>::empty());
            assert(q.drop_last() =~= parts);
            assert(join_with(q, sep) =~= s);
        } else {
            let q = parts.update(parts.len() - 1, parts.last().push(s.last()));
            assert(q.drop_last() =~= parts.drop_last());
            if parts.len() == 1 {
                assert(join_with(q, sep) =~= s);
            } else {
                let x = join_with(parts.drop_last(), sep).push(sep);
                assert(join_with(parts, sep) == x + parts.last());
                assert(join_with(q, sep) == join_with(q.drop_last(), sep).push(sep) + q.last());
                assert(q.last() == parts.last().push(s.last()));
                assert(x + parts.last().push(s.last()) =~= (x + parts.last()).push(s.last()));
                assert(s =~= t.push(s.last()));
            }
        }
    }
}

/// Splitting a text that ends in a separator-free run splits the text before
/// it and extends its last field by the run.
pub proof fn lemma_split_append(a: Seq<char>, b: Seq<char>, sep: char)
    requires
        forall|i: int| 0 <= i < b.len() ==> b[i] != sep,
    ensures
        split_on(a + b, sep) == split_on(a, sep).update(
            split_on(a, sep).len() - 1,
            split_on(a, sep).last() + b,
        ),
    decreases b.len(),
{
    lemma_split_nonempty(a, sep);
    if b.len() == 0 {
        assert(a + b =~= a);
        assert(split_on(a, sep).last() + b =~= split_on(a, sep).last());
        assert(split_on(a, sep).update(split_on(a, sep).len() - 1, split_on(a, sep).last()) =~= split_on(a, sep));
    } else {
        let c = b.drop_last();
        lemma_split_append(a, c, sep);
        assert((a + b).drop_last() =~= a + c);
        assert((a + b).last() == b.last());
        let q = split_on(a, sep);
        assert(split_on(a + b, sep) =~= q.update(q.len() - 1, q.last() + b)) by {
            assert(q.last() + c + seq![b.last()] =~= q.last() + b);
            assert((q.last() + c).push(b.last()) =~= q.last() + b);
        }
    }
}

/// Splitting a join of separator-free fields gives the fields back.
pub proof fn lemma_split_join(parts: Seq<Seq<char>>, sep: char)
    requires
        parts.len() >= 1,
        forall|i: int, j: int| 0 <= i < parts.len() && 0 <= j < parts[i].len() ==> #[trigger] parts[i][j] != sep,
    ensures
        split_on(join_with(parts, sep), sep) == parts,
    decreases parts.len(),
{
    if parts.len() == 1 {
        let e = Seq::<char>::empty();
        assert(e + parts[0] =~= parts[0]);
        assert forall|i: int| 0 <= i < parts[0].len() implies parts[0][i] != sep by {
            assert(parts[0][i] == parts[0][i]);
        }
        lemma_split_append(e, parts[0], sep);
        assert(split_on(e, sep) =~= seq![e]);
        assert(split_on(join_with(parts, sep), sep) =~= parts);
    } else {
        let init = parts.drop_last();
        assert forall|i: int, j: int| 0 <= i < init.len() && 0 <= j < init[i].len() implies #[trigger] init[i][j]
            != sep by {
            assert(init[i] == parts[i]);
        }
        lemma_split_join(init, sep);
        let x = join_with(init, sep).push(sep);
        assert(x.drop_last() =~= join_with(init, sep));
        assert(split_on(x, sep) == init.push(Seq::<char>::empty()));
        let last = parts.last();
        assert forall|j: int| 0 <= j < last.len() implies last[j] != sep by {
            assert(parts[parts.len() - 1][j] != sep);
        }
        lemma_split_append(x, last, sep);
        let q = init.push(Seq::<char>::empty());
        assert(Seq::<char>::empty() + last =~= last);
        assert(q.update(q.len() - 1, q.last() + last) =~= parts);
    }
}

/// The fields of `s` between occurrences of `sep`.
pub fn split_chars(s: &[char], sep: char) -> (r: Vec<Vec<char>>)
    ensures
        r@.len() == split_on(s@, sep).len(),
        forall|i: int| 0 <= i < r@.len() ==> (#[trigger] r@[i])@ == split_on(s@, sep)[i],
{
    let mut r: Vec<Vec<char>> = Vec::new();
    let mut cur: Vec<char> = Vec::new();
    let mut i: usize = 0;
    while i < s.len()
        invariant
            i <= s@.len(),
            r@.len() + 1 == split_on(s@.take(i as int), sep).len(),
            forall|k: int| 0 <= k < r@.len() ==> (#[trigger] r@[k])@ == split_on(s@.take(i as int), sep)[k],
            cur@ == split_on(s@.take(i as int), sep).last(),
        decreases s@.len() - i,
    {
        assert(s@.take(i + 1).drop_last() =~= s@.take(i as int));
        proof {
            lemma_split_nonempty(s@.take(i as int), sep);
        }
        if s[i] == sep {
            r.push(cur);
            cur = Vec::new();
        } else {
            cur.push(s[i]);
        }
        i += 1;
    }
    assert(s@.take(s@.len() as int) =~= s@);
    r.push(cur);
    r
}

/// Appends `parts` joined by `sep`.
pub fn push_joined(out: &mut String, parts: &Vec<Vec<char>>, sep: char)
    ensures
        final(out)@ == old(out)@ + join_with(parts@.map_values(|p: Vec<char>| p@), sep),
{
    let ghost views = parts@.map_values(|p: Vec<char>| p@);
    let ghost start = out@;
    let mut i: usize = 0;
    while i < parts.len()
        invariant
            i <= parts@.len(),
            views == parts@.map_values(|p: Vec<char>| p@),
            out@ == start + join_with(views.take(i as int), sep),
        decreases parts@.len() - i,
    {
        assert(views.take(i + 1).drop_last() =~= views.take(i as int));
        if i > 0 {
            push_char(out, sep);
        }
        push_chars(out, parts[i].as_slice());
        i += 1;
        assert(out@ =~= start + join_with(views.take(i as int), sep));
    }
    assert(views.take(parts@.len() as int) =~= views);
}

/// Whether the characters spell `lit`.
pub fn chars_are_seq(v: &[char], lit: &str) -> (r: bool)
    ensures
        r == (v@ == lit@),
{
    let l = chars_of(lit);
    seq_eq(v, &l)
}

} // verus!
