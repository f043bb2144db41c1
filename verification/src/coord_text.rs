//! Coordinates written as text in parameter records: a raw integer, or a
//! decimal number of mils with a `mil` suffix and at most four decimals
//! (the form the writer emits).

use vstd::prelude::*;

use crate::text::{all_digits, chars_of, digit_value, digits_value, is_digit, lemma_digits_value_prefix, parse_i32, parse_i32_chars, trim, trim_chars};

verus! {

/// Ten to the power `n`.
pub open spec fn pow10(n: nat) -> nat
    decreases n,
{
    if n == 0 {
        1
    } else {
        10 * pow10((n - 1) as nat)
    }
}

/// Index of the first `.` in `s`, if any.
pub open spec fn first_dot(s: Seq<char>) -> Option<int>
    decreases s.len(),
{
    if s.len() == 0 {
        None
    } else {
        match first_dot(s.drop_last()) {
            Some(i) => Some(i),
            None => if s.last() == '.' {
                Some(s.len() - 1)
            } else {
                None
            },
        }
    }
}

/// The raw units a number of mils with at most four decimals stands for:
/// an optional sign, digits, then optionally `.` and one to four digits.
pub open spec fn spec_decimal_mils(u: Seq<char>) -> Option<int> {
    let neg = u.len() > 0 && u[0] == '-';
    let body = if u.len() > 0 && (u[0] == '-' || u[0] == '+') { u.drop_first() } else { u };
    let (ip, fp) = match first_dot(body) {
        Some(d) => (body.take(d), body.skip(d + 1)),
        None => (body, Seq::<char>::empty()),
    };
    if all_digits(ip) && all_digits(fp) && fp.len() <= 4 && ip.len() + fp.len() > 0 {
        let v: int = (digits_value(ip) * 10000 + digits_value(fp) * pow10((4 - fp.len()) as nat)) as int;
        Some(if neg { -v } else { v })
    } else {
        None
    }
}

/// A coordinate written as `<mils>mil`, when it fits the raw range.
pub open spec fn spec_mil_text(t: Seq<char>) -> Option<i32> {
    if t.len() >= 3 && t.subrange(t.len() - 3, t.len() as int) == seq!['m', 'i', 'l'] {
        match spec_decimal_mils(t.take(t.len() - 3)) {
            Some(v) => if i32::MIN <= v <= i32::MAX {
                Some(v as i32)
            } else {
                None
            },
            None => None,
        }
    } else {
        None
    }
}

/// A coordinate as a parameter record writes it: `<mils>mil` or a raw
/// integer, surrounding white space ignored.
pub open spec fn spec_coord_loose(s: Seq<char>) -> Option<i32> {
    let t = trim(s);
    if t.len() == 0 {
        None
    } else {
        match spec_mil_text(t) {
            Some(r) => Some(r),
            None => parse_i32(t),
        }
    }
}

proof fn lemma_first_dot_props(s: Seq<char>)
    ensures
        first_dot(s) matches Some(d) ==> 0 <= d < s.len() && s[d] == '.' && forall|j: int| 0 <= j < d ==> s[j] != '.',
        first_dot(s) is None ==> forall|j: int| 0 <= j < s.len() ==> s[j] != '.',
    decreases s.len(),
{
    if s.len() > 0 {
        lemma_first_dot_props(s.drop_last());
        assert forall|j: int| 0 <= j < s.len() - 1 implies s.drop_last()[j] == s[j] by {}
    }
}

pub(crate) proof fn lemma_first_dot_prefix(s: Seq<char>, k: int)
    requires
        0 <= k <= s.len(),
        forall|j: int| 0 <= j < k ==> s[j] != '.',
        k < s.len() ==> s[k] == '.',
    ensures
        k < s.len() ==> first_dot(s) == Some(k),
        k == s.len() ==> first_dot(s) is None,
    decreases s.len(),
{
    lemma_first_dot_props(s);
    if let Some(d) = first_dot(s) {
        assert(d >= k);
    }
}

/// Reads a run of digits whose value stays at most `cap`; `None` when it is
/// not all digits or its value exceeds `cap`.
fn digits_upto(s: &[char], lo: usize, hi: usize, cap: u64) -> (r: Option<u64>)
    requires
        lo <= hi <= s@.len(),
        cap < 0x1_0000_0000,
    ensures
        r matches Some(v) ==> all_digits(s@.subrange(lo as int, hi as int)) && v == digits_value(
            s@.subrange(lo as int, hi as int),
        ) && v <= cap,
        r is None ==> !all_digits(s@.subrange(lo as int, hi as int)) || digits_value(
            s@.subrange(lo as int, hi as int),
        ) > cap,
{
    let ghost w = s@.subrange(lo as int, hi as int);
    let mut v: u64 = 0;
    let mut i = lo;
    while i < hi
        invariant
            lo <= i <= hi <= s@.len(),
            cap < 0x1_0000_0000,
            w == s@.subrange(lo as int, hi as int),
            all_digits(w.take(i - lo)),
            v == digits_value(w.take(i - lo)),
            v <= cap,
        decreases hi - i,
    {
        let c = s[i];
        assert(w[i - lo] == c);
        assert(w.take(i - lo + 1).drop_last() =~= w.take(i - lo));
        if !('0' <= c && c <= '9') {
            assert(!all_digits(w)) by {
                assert(!is_digit(w[i - lo]));
            }
            return None;
        }
        let d = (c as u32 - 48) as u64;
        assert(d == digit_value(c));
        let nv = v * 10 + d;
        if nv > cap {
            proof {
                lemma_digits_value_prefix(w, i - lo + 1);
            }
            return None;
        }
        v = nv;
        i += 1;
        assert(all_digits(w.take(i - lo))) by {
            assert forall|j: int| 0 <= j < i - lo implies is_digit(#[trigger] w.take(i - lo)[j]) by {
                if j < i - lo - 1 {
                    assert(w.take(i - lo)[j] == w.take(i - lo - 1)[j]);
                }
            }
        }
    }
    assert(w.take(hi - lo) =~= w);
    Some(v)
}

fn pow10_exec(n: u64) -> (r: u64)
    requires
        n <= 4,
    ensures
        r == pow10(n as nat),
        r <= 10000,
{
    proof {
        reveal_with_fuel(pow10, 5);
    }
    if n == 0 {
        1
    } else if n == 1 {
        10
    } else if n == 2 {
        100
    } else if n == 3 {
        1000
    } else {
        10000
    }
}

fn decimal_mils(u: &[char]) -> (r: Option<i64>)
    ensures
        r matches Some(v) ==> spec_decimal_mils(u@) == Some(v as int) && -2147483648 <= v <= 2147483647,
        r is None ==> match spec_decimal_mils(u@) {
            Some(v) => !(-2147483648 <= v <= 2147483647),
            None => true,
        },
{
    let ghost uu = u@;
    let neg = u.len() > 0 && u[0] == '-';
    let start: usize = if u.len() > 0 && (u[0] == '-' || u[0] == '+') {
        1
    } else {
        0
    };
    let ghost body = uu.skip(start as int);
    assert(body =~= if uu.len() > 0 && (uu[0] == '-' || uu[0] == '+') { uu.drop_first() } else { uu });
    let mut d = start;
    while d < u.len() && u[d] != '.'
        invariant
            start <= d <= u@.len(),
            forall|j: int| start <= j < d ==> u@[j] != '.',
        decreases u@.len() - d,
    {
        d += 1;
    }
    proof {
        assert forall|j: int| 0 <= j < d - start implies body[j] != '.' by {
            assert(body[j] == uu[j + start]);
        }
        if d < u.len() {
            assert(body[d - start] == '.');
        }
        lemma_first_dot_prefix(body, d - start);
    }
    let has_dot = d < u.len();
    let fp_lo: usize = if has_dot {
        d + 1
    } else {
        u.len()
    };
    assert(body.take(d - start) =~= u@.subrange(start as int, d as int));
    assert(has_dot ==> body.skip(d - start + 1) =~= u@.subrange(fp_lo as int, u@.len() as int));
    assert(!has_dot ==> u@.subrange(fp_lo as int, u@.len() as int) =~= Seq::<char>::empty());
    assert(!has_dot ==> body =~= u@.subrange(start as int, d as int));
    let fl = u.len() - fp_lo;
    if fl > 4 || (d - start) + fl == 0 {
        return None;
    }
    let ip = match digits_upto(u, start, d, 300000) {
        Some(v) => v,
        None => {
            proof {
                if all_digits(u@.subrange(start as int, d as int)) {
                    let fpv = digits_value(u@.subrange(fp_lo as int, u@.len() as int));
                    let ipv = digits_value(u@.subrange(start as int, d as int));
                    assert(ipv * 10000 >= 300001 * 10000) by (nonlinear_arith)
                        requires ipv > 300000;
                    let pw = pow10((4 - fl) as nat);
                    assert(fpv * pw >= 0) by (nonlinear_arith);
                }
            }
            return None;
        },
    };
    let fpart = match digits_upto(u, fp_lo, u.len(), 9999) {
        Some(v) => v,
        None => {
            proof {
                if all_digits(u@.subrange(fp_lo as int, u@.len() as int)) {
                    lemma_digits_bound(u@.subrange(fp_lo as int, u@.len() as int));
                    assert(pow10(fl as nat) <= 10000) by {
                        reveal_with_fuel(pow10, 5);
                    }
                }
            }
            return None;
        },
    };
    let p = pow10_exec(4 - fl as u64);
    assert(fpart * p <= 9999 * 10000) by (nonlinear_arith)
        requires fpart <= 9999, p <= 10000;
    proof {
        reveal_with_fuel(pow10, 5);
    }
    let v: i64 = (ip * 10000 + fpart * p) as i64;
    let r: i64 = if neg {
        -v
    } else {
        v
    };
    if r < -2147483648 || r > 2147483647 {
        return None;
    }
    Some(r)
}

proof fn lemma_digits_bound(s: Seq<char>)
    requires
        all_digits(s),
    ensures
        digits_value(s) < pow10(s.len()),
    decreases s.len(),
{
    if s.len() > 0 {
        assert(all_digits(s.drop_last())) by {
            assert forall|j: int| 0 <= j < s.len() - 1 implies is_digit(#[trigger] s.drop_last()[j]) by {
                assert(s.drop_last()[j] == s[j]);
            }
        }
        lemma_digits_bound(s.drop_last());
        assert(is_digit(s[s.len() - 1]));
        assert(digit_value(s.last()) <= 9);
    }
}

/// Reads a coordinate as a parameter record writes it: `<mils>mil` with at
/// most four decimals, or a raw integer.
pub fn parse_coord_loose(s: &str) -> (r: Option<i32>)
    ensures
        r == spec_coord_loose(s@),
{
    let c = chars_of(s);
    let t = trim_chars(&c);
    if t.len() == 0 {
        return None;
    }
    let n = t.len();
    if n >= 3 && t[n - 3] == 'm' && t[n - 2] == 'i' && t[n - 1] == 'l' {
        assert(t@.subrange(n - 3, n as int) =~= seq!['m', 'i', 'l']);
        let mut u: Vec<char> = Vec::new();
        let mut i: usize = 0;
        while i < n - 3
            invariant
                i <= n - 3,
                n == t@.len(),
                u@ == t@.take(i as int),
            decreases n - 3 - i,
        {
            u.push(t[i]);
            i += 1;
            assert(u@ =~= t@.take(i as int));
        }
        if let Some(v) = decimal_mils(&u) {
            return Some(v as i32);
        }
    } else {
        assert(!(t@.len() >= 3 && t@.subrange(t@.len() - 3, t@.len() as int) == seq!['m', 'i', 'l'])) by {
            if t@.len() >= 3 && t@.subrange(t@.len() - 3, t@.len() as int) == seq!['m', 'i', 'l'] {
                assert(t@.subrange(n - 3, n as int)[0] == t@[n - 3]);
                assert(t@.subrange(n - 3, n as int)[1] == t@[n - 2]);
                assert(t@.subrange(n - 3, n as int)[2] == t@[n - 1]);
            }
        }
    }
    parse_i32_chars(&t)
}

} // verus!
