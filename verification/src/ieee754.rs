//! IEEE-754 doubles held as their 64-bit patterns: the integer a pattern
//! converts to, and the pattern of an integer. Records store vertex
//! coordinates as doubles; the board model holds whole raw units.

use vstd::prelude::*;
use vstd::arithmetic::div_mod::lemma_fundamental_div_mod_converse;
use vstd::arithmetic::power2::{lemma2_to64, lemma_pow2_adds, lemma_pow2_pos, lemma_pow2_strictly_increases, lemma_pow2_unfold, pow2};

verus! {

/// The sign bit of a double's bit pattern.
pub open spec fn f64_sign(bits: u64) -> int {
    bits as int / 0x8000_0000_0000_0000
}

/// The biased exponent field of a double's bit pattern.
pub open spec fn f64_exponent(bits: u64) -> int {
    (bits as int / 0x10_0000_0000_0000) % 2048
}

/// The fraction field of a double's bit pattern.
pub open spec fn f64_fraction(bits: u64) -> int {
    bits as int % 0x10_0000_0000_0000
}

/// The `i32` that Rust's `as` conversion gives for the double with this
/// bit pattern: NaN becomes zero, the value is truncated toward zero, and
/// what lies outside the `i32` range saturates.
pub open spec fn f64_bits_as_i32(bits: u64) -> i32 {
    let e = f64_exponent(bits);
    let f = f64_fraction(bits);
    let neg = f64_sign(bits) == 1;
    if e == 2047 && f != 0 {
        0
    } else if e < 1023 {
        0
    } else if e >= 1054 {
        if neg {
            i32::MIN
        } else {
            i32::MAX
        }
    } else {
        let mag = (0x10_0000_0000_0000 + f) / (pow2((1075 - e) as nat) as int);
        (if neg {
            -mag
        } else {
            mag
        }) as i32
    }
}

/// `2^n` as a machine word.
fn pow2_u64(n: u64) -> (r: u64)
    requires
        n < 64,
    ensures
        r == pow2(n as nat),
{
    let mut r: u64 = 1;
    let mut i: u64 = 0;
    proof {
        lemma2_to64();
    }
    while i < n
        invariant
            i <= n < 64,
            r == pow2(i as nat),
        decreases n - i,
    {
        proof {
            lemma_pow2_unfold((i + 1) as nat);
            lemma_pow2_strictly_increases((i + 1) as nat, 64);
            lemma2_to64();
            vstd::arithmetic::power2::lemma2_to64_rest();
        }
        r = r * 2;
        i = i + 1;
    }
    r
}

/// The `i32` that Rust's `as` conversion gives for the double with this
/// bit pattern.
pub fn f64_bits_to_i32(bits: u64) -> (r: i32)
    ensures
        r == f64_bits_as_i32(bits),
{
    let e: u64 = (bits / 0x10_0000_0000_0000) % 2048;
    let f: u64 = bits % 0x10_0000_0000_0000;
    let neg: bool = bits / 0x8000_0000_0000_0000 == 1;
    if e == 2047 && f != 0 {
        return 0;
    }
    if e < 1023 {
        return 0;
    }
    if e >= 1054 {
        return if neg {
            i32::MIN
        } else {
            i32::MAX
        };
    }
    let d = pow2_u64(1075 - e);
    proof {
        lemma2_to64();
        if 1075 - e > 22 {
            lemma_pow2_strictly_increases(22, (1075 - e) as nat);
        }
    }
    let x: u64 = 0x10_0000_0000_0000 + f;
    let mag: u64 = x / d;
    assert(mag < 0x8000_0000) by (nonlinear_arith)
        requires
            x < 0x20_0000_0000_0000,
            d >= 0x40_0000,
            mag == x / d,
    ;
    if neg {
        -(mag as i32)
    } else {
        mag as i32
    }
}

/// The exponent of the highest power of two not above `a`.
pub open spec fn floor_log2(a: nat) -> nat
    decreases a,
{
    if a < 2 {
        0
    } else {
        1 + floor_log2(a / 2)
    }
}

/// `2^floor_log2(a) <= a < 2^(floor_log2(a) + 1)`.
pub proof fn lemma_floor_log2(a: nat)
    requires
        a >= 1,
    ensures
        pow2(floor_log2(a)) <= a < pow2(floor_log2(a) + 1),
    decreases a,
{
    lemma2_to64();
    if a >= 2 {
        lemma_floor_log2(a / 2);
        let k = floor_log2(a / 2);
        lemma_pow2_unfold(k + 1);
        lemma_pow2_unfold(k + 2);
    }
}

/// The only `k` with `2^k <= a < 2^(k+1)` is `floor_log2(a)`.
proof fn lemma_floor_log2_unique(a: nat, k: nat)
    requires
        a >= 1,
        pow2(k) <= a < pow2(k + 1),
    ensures
        floor_log2(a) == k,
{
    lemma_floor_log2(a);
    let j = floor_log2(a);
    if j < k {
        lemma_pow2_strictly_increases(j, k);
        if j + 1 < k {
            lemma_pow2_strictly_increases(j + 1, k);
        }
    } else if k < j {
        if k + 1 < j {
            lemma_pow2_strictly_increases(k + 1, j);
        }
    }
}

/// The bit pattern of the double holding `x` exactly (every `i32` is a
/// double): sign, biased exponent of the leading bit, and the bits below it
/// shifted to the top of the fraction.
pub open spec fn i32_as_f64_bits(x: i32) -> u64 {
    if x == 0 {
        0
    } else {
        let a: nat = (if x < 0 {
            -x
        } else {
            x as int
        }) as nat;
        let k = floor_log2(a);
        ((if x < 0 {
            0x8000_0000_0000_0000int
        } else {
            0
        }) + (1023 + k) * 0x10_0000_0000_0000 + (a * pow2((52 - k) as nat) - 0x10_0000_0000_0000)) as u64
    }
}

/// The bit pattern of the double holding `x`.
pub fn i32_to_f64_bits(x: i32) -> (r: u64)
    ensures
        r == i32_as_f64_bits(x),
{
    if x == 0 {
        return 0;
    }
    let a: u64 = if x < 0 {
        (-(x as i64)) as u64
    } else {
        x as u64
    };
    let mut p: u64 = 1;
    let mut k: u64 = 0;
    proof {
        lemma2_to64();
    }
    while p <= a / 2
        invariant
            1 <= a <= 0x8000_0000,
            p == pow2(k as nat),
            p <= a,
            k <= 31,
        decreases a - p,
    {
        proof {
            lemma2_to64();
            lemma_pow2_pos(k as nat);
            lemma_pow2_unfold((k + 1) as nat);
            if k + 1 > 31 {
                lemma_pow2_strictly_increases(31, (k + 1) as nat);
            }
        }
        p = p * 2;
        k = k + 1;
    }
    proof {
        lemma_pow2_unfold((k + 1) as nat);
        lemma_floor_log2_unique(a as nat, k as nat);
    }
    let scale = pow2_u64(52 - k);
    proof {
        lemma_pow2_adds(k as nat, (52 - k) as nat);
        lemma_pow2_adds((k + 1) as nat, (52 - k) as nat);
        lemma_pow2_pos((52 - k) as nat);
        assert(pow2(52) == 0x10_0000_0000_0000 && pow2(53) == 0x20_0000_0000_0000) by {
            vstd::arithmetic::power2::lemma2_to64_rest();
        }
        assert(p * scale <= a * scale < 2 * p * scale) by (nonlinear_arith)
            requires
                p <= a < 2 * p,
                scale > 0,
        ;
    }
    let m: u64 = a * scale;
    let frac: u64 = m - 0x10_0000_0000_0000;
    let sign: u64 = if x < 0 {
        0x8000_0000_0000_0000
    } else {
        0
    };
    sign + (1023 + k) * 0x10_0000_0000_0000 + frac
}

/// Converting an `i32` to a double and back gives it again.
pub proof fn lemma_i32_f64_round_trip(x: i32)
    ensures
        f64_bits_as_i32(i32_as_f64_bits(x)) == x,
{
    lemma2_to64();
    vstd::arithmetic::power2::lemma2_to64_rest();
    if x == 0 {
        return;
    }
    let a: nat = (if x < 0 {
        -x
    } else {
        x as int
    }) as nat;
    let k = floor_log2(a);
    lemma_floor_log2(a);
    assert(a <= 0x8000_0000);
    if k > 31 {
        lemma_pow2_strictly_increases(31, k);
    }
    assert(k <= 31);
    let s: int = if x < 0 {
        1
    } else {
        0
    };
    let scale = pow2((52 - k) as nat);
    lemma_pow2_pos((52 - k) as nat);
    lemma_pow2_adds(k, (52 - k) as nat);
    lemma_pow2_adds(k + 1, (52 - k) as nat);
    assert(pow2(52) == 0x10_0000_0000_0000 && pow2(53) == 0x20_0000_0000_0000);
    let p = pow2(k);
    assert(p * scale <= a * scale < 2 * p * scale) by (nonlinear_arith)
        requires
            p <= a < 2 * p,
            scale > 0,
    ;
    lemma_pow2_unfold(k + 1);
    let frac: int = a * scale - 0x10_0000_0000_0000;
    assert(0 <= frac < 0x10_0000_0000_0000);
    let b = i32_as_f64_bits(x);
    let q: int = s * 2048 + 1023 + k;
    assert(b as int == q * 0x10_0000_0000_0000 + frac);
    lemma_fundamental_div_mod_converse(b as int, 0x10_0000_0000_0000, q, frac);
    lemma_fundamental_div_mod_converse(q, 2048, s, (1023 + k) as int);
    lemma_fundamental_div_mod_converse(b as int, 0x8000_0000_0000_0000, s, (1023 + k) * 0x10_0000_0000_0000 + frac);
    assert(f64_exponent(b) == 1023 + k);
    assert(f64_fraction(b) == frac);
    assert(f64_sign(b) == s);
    if k <= 30 {
        assert((1075 - (1023 + k)) as nat == (52 - k) as nat);
        lemma_fundamental_div_mod_converse(0x10_0000_0000_0000 + frac, scale as int, a as int, 0);
    } else {
        lemma_pow2_unfold(31);
        assert(a == 0x8000_0000);
        assert(x == i32::MIN);
    }
}

} // verus!
