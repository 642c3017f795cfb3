//! Probabilities, confidences and thresholds travel through this library as
//! the bit patterns of IEEE-754 binary64 numbers (what `f64::to_bits` gives).
//! This module states, over those bit patterns, what the comparison operators
//! of binary64 mean, and implements them with integer arithmetic.
//!
//! Order: NaN compares false with everything; `-0.0` and `+0.0` are equal;
//! otherwise numbers compare by sign and magnitude, with the infinities at
//! both ends.
use vstd::arithmetic::power2::{lemma2_to64, lemma2_to64_rest, lemma_pow2_adds, lemma_pow2_pos, lemma_pow2_strictly_increases, pow2};
use vstd::prelude::*;

verus! {

/// The sign bit of a binary64 bit pattern.
pub const SIGN_BIT: u64 = 0x8000_0000_0000_0000;

/// Bit pattern of `+inf`; magnitudes above it are NaN.
pub const INFINITY_BITS: u64 = 0x7ff0_0000_0000_0000;

/// Bit pattern of `-inf`.
pub const NEG_INFINITY_BITS: u64 = 0xfff0_0000_0000_0000;

/// Bit pattern of `0.0`.
pub const ZERO_BITS: u64 = 0;

/// Bit pattern of `-0.0`.
pub const NEG_ZERO_BITS: u64 = 0x8000_0000_0000_0000;

/// Bit pattern of `0.5`.
pub const HALF_BITS: u64 = 0x3fe0_0000_0000_0000;

/// Bit pattern of `1.0`.
pub const ONE_BITS: u64 = 0x3ff0_0000_0000_0000;

/// Whether the sign bit is set.
pub open spec fn sign_set(b: u64) -> bool {
    b >= SIGN_BIT
}

/// Exponent and mantissa bits, read as an integer.
pub open spec fn magnitude(b: u64) -> int {
    if sign_set(b) {
        b - SIGN_BIT
    } else {
        b as int
    }
}

/// The bit pattern encodes a NaN.
pub open spec fn is_nan(b: u64) -> bool {
    magnitude(b) > INFINITY_BITS
}

/// The bit pattern encodes a finite number.
pub open spec fn is_finite(b: u64) -> bool {
    magnitude(b) < INFINITY_BITS
}

/// An integer that orders non-NaN binary64 values as the reals they stand
/// for: positive numbers grow with their magnitude bits, negative ones
/// shrink, and both zeros map to 0.
pub open spec fn order_key(b: u64) -> int {
    if sign_set(b) {
        -magnitude(b)
    } else {
        magnitude(b)
    }
}

/// `a <= b` as binary64 values.
pub open spec fn num_le(a: u64, b: u64) -> bool {
    !is_nan(a) && !is_nan(b) && order_key(a) <= order_key(b)
}

/// `a < b` as binary64 values.
pub open spec fn num_lt(a: u64, b: u64) -> bool {
    !is_nan(a) && !is_nan(b) && order_key(a) < order_key(b)
}

/// `a == b` as binary64 values (`-0.0 == 0.0`, NaN equals nothing).
pub open spec fn num_eq(a: u64, b: u64) -> bool {
    !is_nan(a) && !is_nan(b) && order_key(a) == order_key(b)
}

/// `lo <= x <= hi` as binary64 values.
pub open spec fn num_within(x: u64, lo: u64, hi: u64) -> bool {
    num_le(lo, x) && num_le(x, hi)
}

/// `x` lies in the closed unit interval `[0, 1]`.
pub open spec fn in_unit(x: u64) -> bool {
    num_within(x, ZERO_BITS, ONE_BITS)
}

/// Whether `b` encodes a NaN.
pub fn nan(b: u64) -> (r: bool)
    ensures
        r == is_nan(b),
{
    let m = if b >= SIGN_BIT {
        b - SIGN_BIT
    } else {
        b
    };
    m > INFINITY_BITS
}

/// Whether `b` encodes a finite number.
pub fn finite(b: u64) -> (r: bool)
    ensures
        r == is_finite(b),
{
    let m = if b >= SIGN_BIT {
        b - SIGN_BIT
    } else {
        b
    };
    m < INFINITY_BITS
}

/// `a <= b` on binary64 bit patterns.
pub fn le(a: u64, b: u64) -> (r: bool)
    ensures
        r == num_le(a, b),
{
    if nan(a) || nan(b) {
        return false;
    }
    let a_neg = a >= SIGN_BIT;
    let b_neg = b >= SIGN_BIT;
    let am = if a_neg {
        a - SIGN_BIT
    } else {
        a
    };
    let bm = if b_neg {
        b - SIGN_BIT
    } else {
        b
    };
    if a_neg && b_neg {
        am >= bm
    } else if a_neg {
        true
    } else if b_neg {
        am == 0 && bm == 0
    } else {
        am <= bm
    }
}

/// `a < b` on binary64 bit patterns.
pub fn lt(a: u64, b: u64) -> (r: bool)
    ensures
        r == num_lt(a, b),
{
    if nan(a) || nan(b) {
        return false;
    }
    !le(b, a)
}

/// `a >= b` on binary64 bit patterns.
pub fn ge(a: u64, b: u64) -> (r: bool)
    ensures
        r == num_le(b, a),
{
    le(b, a)
}

/// `a > b` on binary64 bit patterns.
pub fn gt(a: u64, b: u64) -> (r: bool)
    ensures
        r == num_lt(b, a),
{
    lt(b, a)
}

/// `a == b` on binary64 bit patterns.
pub fn eq(a: u64, b: u64) -> (r: bool)
    ensures
        r == num_eq(a, b),
{
    le(a, b) && le(b, a)
}

/// `<=` is transitive.
pub proof fn lemma_le_transitive(a: u64, b: u64, c: u64)
    requires
        num_le(a, b),
        num_le(b, c),
    ensures
        num_le(a, c),
{
}

/// Two non-NaN values are always comparable, and `<` is the negation of
/// the reversed `<=`.
pub proof fn lemma_total(a: u64, b: u64)
    requires
        !is_nan(a),
        !is_nan(b),
    ensures
        num_le(a, b) || num_le(b, a),
        num_lt(a, b) <==> !num_le(b, a),
{
}

/// `2^52`: the unit of the exponent field.
pub const TWO_POW_52: u64 = 0x10_0000_0000_0000;

/// The significand: mantissa bits, plus the hidden bit of normal numbers.
pub open spec fn significand(b: u64) -> int {
    let e = magnitude(b) / TWO_POW_52 as int;
    let f = magnitude(b) % TWO_POW_52 as int;
    if e == 0 {
        f
    } else {
        f + TWO_POW_52
    }
}

/// The power of two the significand is scaled by: a finite `b` stands for
/// `significand(b) * 2^scale(b)` (with its sign).
pub open spec fn scale(b: u64) -> int {
    let e = magnitude(b) / TWO_POW_52 as int;
    if e == 0 {
        -1074
    } else {
        e - 1075
    }
}

/// `floor(|v| + 1/2)` for the value `v` of `b`: its magnitude rounded to the
/// nearest integer, halves away from zero (what `f64::round` gives).
pub open spec fn rounded_magnitude(b: u64) -> int {
    if scale(b) >= 0 {
        significand(b) * pow2(scale(b) as nat)
    } else {
        (significand(b) + pow2((-scale(b) - 1) as nat)) / pow2((-scale(b)) as nat) as int
    }
}

/// `round(v).clamp(0.0, k) as usize` for the value `v` of `b` and a whole
/// number `k` below `2^53`: 0 for NaN and for values that are negative or
/// round to 0, `k` at and beyond `k`.
pub open spec fn clamped_round(b: u64, k: int) -> int {
    if is_nan(b) || sign_set(b) {
        0
    } else if rounded_magnitude(b) > k {
        k
    } else {
        rounded_magnitude(b)
    }
}

fn pow2_u64(s: u64) -> (r: u64)
    requires
        s < 64,
    ensures
        r == pow2(s as nat),
{
    proof {
        vstd::bits::lemma_u64_pow2_no_overflow(s as nat);
        vstd::bits::lemma_u64_shl_is_mul(1, s);
    }
    1u64 << s
}

/// `round(v).clamp(0.0, k as f64) as usize` for the value `v` of `b`.
pub fn round_clamped(b: u64, k: usize) -> (r: usize)
    requires
        k < 0x20_0000_0000_0000,
    ensures
        r == clamped_round(b, k as int),
{
    if nan(b) || b >= SIGN_BIT {
        return 0;
    }
    proof {
        lemma2_to64();
        lemma2_to64_rest();
    }
    let e = b / TWO_POW_52;
    let f = b % TWO_POW_52;
    let m = if e == 0 {
        f
    } else {
        f + TWO_POW_52
    };
    assert(m < 0x20_0000_0000_0000);
    if e >= 1075 {
        let x = e - 1075;
        assert(m >= TWO_POW_52);
        if x >= 11 {
            proof {
                if x > 11 {
                    lemma_pow2_strictly_increases(11, x as nat);
                }
                assert(m * pow2(x as nat) >= TWO_POW_52 * pow2(11)) by (nonlinear_arith)
                    requires
                        m >= TWO_POW_52,
                        pow2(x as nat) >= pow2(11),
                ;
            }
            return k;
        }
        let d = pow2_u64(x);
        proof {
            if x < 10 {
                lemma_pow2_strictly_increases(x as nat, 10);
            }
            assert(m * d <= 0x20_0000_0000_0000 * 1024) by (nonlinear_arith)
                requires
                    m < 0x20_0000_0000_0000,
                    d <= 1024,
            ;
        }
        let v = m * d;
        if v > k as u64 {
            k
        } else {
            v as usize
        }
    } else {
        let s: u64 = if e == 0 {
            1074
        } else {
            1075 - e
        };
        if s >= 54 {
            proof {
                if s > 54 {
                    lemma_pow2_strictly_increases(53, (s - 1) as nat);
                }
                lemma_pow2_adds(1, (s - 1) as nat);
                lemma_pow2_pos(s as nat);
                assert(m + pow2((s - 1) as nat) < pow2(s as nat));
                vstd::arithmetic::div_mod::lemma_basic_div(
                    m + pow2((s - 1) as nat),
                    pow2(s as nat) as int,
                );
            }
            return 0;
        }
        let half = pow2_u64(s - 1);
        let d = pow2_u64(s);
        let v = (m + half) / d;
        if v > k as u64 {
            k
        } else {
            v as usize
        }
    }
}

/// `b` is the normal encoding of the whole number `k >= 0`: `+0.0` for 0,
/// else a positive finite number whose `significand * 2^scale` is `k`.
pub open spec fn stands_for_whole(b: u64, k: int) -> bool {
    if k == 0 {
        b == ZERO_BITS
    } else {
        &&& !sign_set(b)
        &&& is_finite(b)
        &&& scale(b) <= 0
        &&& significand(b) == k * pow2((-scale(b)) as nat)
    }
}

/// Bit pattern of the whole number `k` (below `2^53`, so exact): what
/// `k as f64` gives.
pub fn whole_number(k: u64) -> (r: u64)
    requires
        k < 0x20_0000_0000_0000,
    ensures
        stands_for_whole(r, k as int),
{
    if k == 0 {
        return 0;
    }
    proof {
        lemma2_to64();
        lemma2_to64_rest();
    }
    let mut e: u64 = 0;
    let mut p: u64 = 1;
    while p <= k / 2
        invariant
            1 <= p <= k,
            p == pow2(e as nat),
            k < 0x20_0000_0000_0000,
            e <= 52,
        decreases k - p,
    {
        proof {
            vstd::arithmetic::power2::lemma_pow2_unfold((e + 1) as nat);
            assert(2 * p <= k);
            assert(pow2((e + 1) as nat) == 2 * p);
            lemma2_to64_rest();
            if e + 1 >= 53 {
                if e + 1 > 53 {
                    lemma_pow2_strictly_increases(53, (e + 1) as nat);
                }
                assert(false);
            }
        }
        p = p * 2;
        e = e + 1;
    }
    assert(k < 2 * p);
    let d = pow2_u64(52 - e);
    proof {
        lemma_pow2_adds(e as nat, (52 - e) as nat);
        assert(p * d == TWO_POW_52);
        assert((k - p) * d < TWO_POW_52) by (nonlinear_arith)
            requires
                k - p < p,
                p * d == TWO_POW_52,
                d > 0,
        ;
    }
    let frac = (k - p) * d;
    let r = (1023 + e) * TWO_POW_52 + frac;
    proof {
        vstd::arithmetic::div_mod::lemma_fundamental_div_mod_converse(
            r as int,
            TWO_POW_52 as int,
            (1023 + e) as int,
            frac as int,
        );
        assert(significand(r) == frac + TWO_POW_52);
        assert(frac + TWO_POW_52 == k * d) by (nonlinear_arith)
            requires
                frac == (k - p) * d,
                p * d == TWO_POW_52,
        ;
    }
    r
}

} // verus!
