//! Shared integer primitives: saturation to the signed 8-bit range and the
//! two integer division flavours the kernels rely on (floor division, as an
//! arithmetic right shift performs it, and division truncating toward zero).

use vstd::arithmetic::div_mod::lemma_div_is_ordered;
use vstd::arithmetic::div_mod::lemma_div_multiples_vanish;
use vstd::arithmetic::div_mod::lemma_div_nonincreasing;
use vstd::arithmetic::div_mod::lemma_div_pos_is_pos;
use vstd::arithmetic::div_mod::lemma_fundamental_div_mod;
use vstd::arithmetic::div_mod::lemma_fundamental_div_mod_converse_div;
use vstd::arithmetic::div_mod::lemma_mod_division_less_than_divisor;
use vstd::arithmetic::power2::lemma2_to64;
use vstd::arithmetic::power2::lemma2_to64_rest;
use vstd::arithmetic::power2::lemma_pow2_strictly_increases;
use vstd::arithmetic::power2::lemma_pow2_unfold;
use vstd::arithmetic::power2::pow2;
use vstd::prelude::*;

verus! {

/// Errors the kernels can report: a weight-grid entry outside {-1, 0, 1} at
/// construction, or an activation matrix whose column count does not match
/// the layer at forward time.
#[derive(Clone, Copy, Debug, PartialEq, Eq, Structural)]
pub enum KernelError {
    InvalidWeight,
    ShapeMismatch,
}

/// Saturation of an integer to [-128, 127].
pub open spec fn clamp_i8_spec(v: int) -> int {
    if v < -128 {
        -128
    } else if v > 127 {
        127
    } else {
        v
    }
}

/// Integer division truncating toward zero (the quotient of `a / b` with the
/// sign of `a * b` and magnitude `|a| / |b|`), defined for positive `b`.
pub open spec fn div_trunc(a: int, b: int) -> int
    recommends
        b > 0,
{
    if a >= 0 {
        a / b
    } else {
        -((-a) / b)
    }
}

/// Saturating clamp to the signed 8-bit range [-128, 127].
pub fn clamp_int8(v: i64) -> (r: i8)
    ensures
        r as int == clamp_i8_spec(v as int),
{
    if v < -128 {
        -128
    } else if v > 127 {
        127
    } else {
        v as i8
    }
}

/// Clamping a second time changes nothing: the clamp is idempotent.
pub proof fn lemma_clamp_int8_idempotent(v: int)
    ensures
        clamp_i8_spec(clamp_i8_spec(v)) == clamp_i8_spec(v),
{
}

/// Signed division truncating toward zero, computed on magnitudes so that
/// its result is pinned to `div_trunc` for either sign of `a`.
pub fn div_trunc_i64(a: i64, b: i64) -> (r: i64)
    requires
        1 <= b,
        -0x4000_0000_0000_0000 <= a <= 0x4000_0000_0000_0000,
    ensures
        r as int == div_trunc(a as int, b as int),
{
    if a >= 0 {
        let q: u64 = (a as u64) / (b as u64);
        proof {
            lemma_div_pos_is_pos(a as int, b as int);
            lemma_div_nonincreasing(a as int, b as int);
        }
        q as i64
    } else {
        let m: u64 = (-a) as u64;
        let q: u64 = m / (b as u64);
        proof {
            lemma_div_pos_is_pos(m as int, b as int);
            lemma_div_nonincreasing(m as int, b as int);
        }
        -(q as i64)
    }
}

/// Signed floor division (rounding toward negative infinity), the value an
/// arithmetic right shift produces when `b` is the corresponding power of two.
pub fn div_floor_i64(a: i64, b: i64) -> (r: i64)
    requires
        1 <= b,
        -0x4000_0000_0000_0000 <= a <= 0x4000_0000_0000_0000,
    ensures
        r as int == a as int / b as int,
{
    if a >= 0 {
        let q: u64 = (a as u64) / (b as u64);
        proof {
            lemma_div_pos_is_pos(a as int, b as int);
            lemma_div_nonincreasing(a as int, b as int);
        }
        q as i64
    } else {
        let m: u64 = (-a) as u64;
        let bu: u64 = b as u64;
        let q: u64 = m / bu;
        let rem: u64 = m % bu;
        proof {
            lemma_div_pos_is_pos(m as int, b as int);
            lemma_div_nonincreasing(m as int, b as int);
            lemma_mod_division_less_than_divisor(m as int, b as int);
            lemma_fundamental_div_mod(m as int, b as int);
            assert(m as int == (b as int) * (q as int) + (rem as int));
            if rem == 0 {
                assert(a as int == (-(q as int)) * (b as int) + 0) by (nonlinear_arith)
                    requires
                        m as int == (b as int) * (q as int) + (rem as int),
                        rem as int == 0,
                        a as int == -(m as int),
                ;
                lemma_fundamental_div_mod_converse_div(a as int, b as int, -(q as int), 0);
            } else {
                assert(a as int == (-(q as int) - 1) * (b as int) + (b - rem)) by (nonlinear_arith)
                    requires
                        m as int == (b as int) * (q as int) + (rem as int),
                        a as int == -(m as int),
                ;
                lemma_fundamental_div_mod_converse_div(
                    a as int,
                    b as int,
                    -(q as int) - 1,
                    b - rem,
                );
            }
        }
        if rem == 0 {
            -(q as i64)
        } else {
            -(q as i64) - 1
        }
    }
}

/// Floor division stays inside any bracket of multiples of the divisor:
/// if `b * lo <= a <= b * hi` then `lo <= a / b <= hi`.
pub proof fn lemma_div_floor_bracket(a: int, b: int, lo: int, hi: int)
    requires
        0 < b,
        b * lo <= a,
        a <= b * hi,
    ensures
        lo <= a / b <= hi,
{
    lemma_div_is_ordered(b * lo, a, b);
    lemma_div_is_ordered(a, b * hi, b);
    lemma_div_multiples_vanish(lo, b);
    lemma_div_multiples_vanish(hi, b);
}

/// Truncating division never grows in magnitude and never changes sign.
pub proof fn lemma_div_trunc_bound(a: int, b: int)
    requires
        1 <= b,
    ensures
        a >= 0 ==> 0 <= div_trunc(a, b) <= a,
        a < 0 ==> a <= div_trunc(a, b) <= 0,
{
    if a >= 0 {
        lemma_div_pos_is_pos(a, b);
        lemma_div_nonincreasing(a, b);
    } else {
        lemma_div_pos_is_pos(-a, b);
        lemma_div_nonincreasing(-a, b);
    }
}

/// `2^e` as a machine integer, for exponents that fit a 64-bit word.
pub fn pow2_exec(e: u8) -> (r: u64)
    requires
        e < 63,
    ensures
        r == pow2(e as nat),
        1 <= r,
{
    let mut p: u64 = 1;
    let mut i: u8 = 0;
    proof {
        lemma2_to64();
    }
    while i < e
        invariant
            i <= e,
            e < 63,
            p == pow2(i as nat),
            1 <= p,
        decreases e - i,
    {
        proof {
            lemma_pow2_unfold((i + 1) as nat);
            lemma_pow2_strictly_increases((i + 1) as nat, 63);
            lemma2_to64_rest();
        }
        p = p * 2;
        i = i + 1;
    }
    p
}

} // verus!
