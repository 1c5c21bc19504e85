//! Integer square root: a specification pinning down floor(sqrt(n)), a
//! Newton-Raphson implementation whose iteration provably terminates, and
//! the exactness laws the normalization kernel builds on.

use vstd::arithmetic::div_mod::lemma_div_by_self;
use vstd::arithmetic::div_mod::lemma_div_is_ordered;
use vstd::arithmetic::div_mod::lemma_div_is_ordered_by_denominator;
use vstd::arithmetic::div_mod::lemma_div_multiples_vanish;
use vstd::arithmetic::div_mod::lemma_div_pos_is_pos;
use vstd::arithmetic::div_mod::lemma_fundamental_div_mod;
use vstd::arithmetic::div_mod::lemma_fundamental_div_mod_converse_div;
use vstd::arithmetic::div_mod::lemma_mod_division_less_than_divisor;
use vstd::prelude::*;

verus! {

/// floor(sqrt(n)): the unique `r` with `r * r <= n < (r + 1) * (r + 1)`.
pub open spec fn isqrt_spec(n: nat) -> nat
    decreases n,
{
    if n == 0 {
        0
    } else {
        let p = isqrt_spec((n - 1) as nat);
        if (p + 1) * (p + 1) <= n {
            p + 1
        } else {
            p
        }
    }
}

/// The defining bounds of the integer square root hold of `isqrt_spec`.
pub proof fn lemma_isqrt_spec_bounds(n: nat)
    ensures
        isqrt_spec(n) * isqrt_spec(n) <= n,
        n < (isqrt_spec(n) + 1) * (isqrt_spec(n) + 1),
    decreases n,
{
    if n > 0 {
        lemma_isqrt_spec_bounds((n - 1) as nat);
        let p = isqrt_spec((n - 1) as nat);
        if (p + 1) * (p + 1) <= n {
            assert(isqrt_spec(n) == p + 1);
            assert(isqrt_spec(n) * isqrt_spec(n) <= n) by (nonlinear_arith)
                requires
                    isqrt_spec(n) == p + 1,
                    (p + 1) * (p + 1) <= n,
            ;
            assert(n < (isqrt_spec(n) + 1) * (isqrt_spec(n) + 1)) by (nonlinear_arith)
                requires
                    isqrt_spec(n) == p + 1,
                    n <= (p + 1) * (p + 1),
            ;
        } else {
            assert(isqrt_spec(n) == p);
            assert(isqrt_spec(n) * isqrt_spec(n) <= n) by (nonlinear_arith)
                requires
                    isqrt_spec(n) == p,
                    p * p <= n - 1,
                    1 <= n,
            ;
            assert(n < (isqrt_spec(n) + 1) * (isqrt_spec(n) + 1)) by (nonlinear_arith)
                requires
                    isqrt_spec(n) == p,
                    n < (p + 1) * (p + 1),
            ;
        }
    } else {
        assert(isqrt_spec(n) == 0);
        assert(n < (isqrt_spec(n) + 1) * (isqrt_spec(n) + 1)) by (nonlinear_arith)
            requires
                n == 0,
                isqrt_spec(n) == 0,
        ;
    }
}

/// No other value satisfies the defining bounds: the integer square root is
/// unique.
pub proof fn lemma_isqrt_unique(n: nat, r: nat)
    requires
        r * r <= n,
        n < (r + 1) * (r + 1),
    ensures
        r == isqrt_spec(n),
{
    let s = isqrt_spec(n);
    lemma_isqrt_spec_bounds(n);
    if r < s {
        assert((r + 1) * (r + 1) <= s * s) by (nonlinear_arith)
            requires
                r + 1 <= s,
        ;
    }
    if s < r {
        assert((s + 1) * (s + 1) <= r * r) by (nonlinear_arith)
            requires
                s + 1 <= r,
        ;
    }
}

/// Perfect squares are recovered exactly: `isqrt_spec(k * k) == k`.
pub proof fn lemma_isqrt_of_square(k: nat)
    ensures
        isqrt_spec(k * k) == k,
{
    assert(k * k < (k + 1) * (k + 1)) by (nonlinear_arith);
    lemma_isqrt_unique(k * k, k);
}

/// One Newton step from any positive `x` lands at or above floor(sqrt(n)):
/// the iterate sequence is bounded below by the root.
proof fn lemma_newton_step_lower(n: int, x: int, rt: int)
    requires
        1 <= x,
        0 <= rt,
        rt * rt <= n,
    ensures
        (x + n / x) / 2 >= rt,
{
    let q = n / x;
    lemma_div_pos_is_pos(n, x);
    lemma_fundamental_div_mod(n, x);
    lemma_mod_division_less_than_divisor(n, x);
    assert(n == x * q + (n % x));
    if x + q <= 2 * rt - 1 {
        assert(false) by (nonlinear_arith)
            requires
                n == x * q + (n % x),
                0 <= n % x < x,
                x + q <= 2 * rt - 1,
                rt * rt <= n,
                1 <= x,
                0 <= q,
        ;
    }
    lemma_div_is_ordered(2 * rt, x + q, 2);
    lemma_div_multiples_vanish(rt, 2);
}

/// Newton-Raphson integer square root. For every 64-bit input the iteration
/// terminates and returns exactly floor(sqrt(n)).
pub fn isqrt(n: u64) -> (r: u64)
    ensures
        r == isqrt_spec(n as nat),
        r * r <= n,
        n < (r + 1) * (r + 1),
{
    proof {
        lemma_isqrt_spec_bounds(n as nat);
    }
    let ghost rt: int = isqrt_spec(n as nat) as int;
    if n < 2 {
        proof {
            assert(n as int * n as int <= n as int) by (nonlinear_arith)
                requires
                    0 <= n <= 1,
            ;
            assert((n as int) < (n as int + 1) * (n as int + 1)) by (nonlinear_arith)
                requires
                    0 <= n,
            ;
            lemma_isqrt_unique(n as nat, n as nat);
        }
        return n;
    }
    let mut x: u64 = n;
    let mut y: u64 = n / 2 + n % 2;
    proof {
        // The root of a 64-bit value fits 32 bits, and is at least 1 here.
        assert(rt < 0x1_0000_0000) by (nonlinear_arith)
            requires
                rt * rt <= n as int,
                n <= u64::MAX,
                0 <= rt,
        ;
        assert(1 <= rt) by (nonlinear_arith)
            requires
                (n as int) < (rt + 1) * (rt + 1),
                2 <= n,
                0 <= rt,
        ;
        // The initial y equals one Newton step from x == n.
        lemma_div_by_self(n as int);
        lemma_fundamental_div_mod(n as int, 2);
        if n % 2 == 0 {
            lemma_fundamental_div_mod_converse_div(n as int + 1, 2, n as int / 2, 1);
        } else {
            lemma_fundamental_div_mod_converse_div(n as int + 1, 2, n as int / 2 + 1, 0);
        }
        lemma_newton_step_lower(n as int, n as int, rt);
    }
    while y < x
        invariant
            2 <= n,
            1 <= x <= n,
            rt == isqrt_spec(n as nat),
            rt * rt <= n < (rt + 1) * (rt + 1),
            1 <= rt < 0x1_0000_0000,
            rt <= x,
            rt <= y,
            y == (x as int + n as int / x as int) / 2,
            y <= n as int / 2 + 1,
        decreases x,
    {
        x = y;
        proof {
            // n / x is close to the root, so x + n / x stays within u64.
            assert(n as int <= rt * (rt + 2)) by (nonlinear_arith)
                requires
                    (n as int) < (rt + 1) * (rt + 1),
            ;
            lemma_div_is_ordered(n as int, rt * (rt + 2), rt);
            assert((rt * (rt + 2)) / rt == rt + 2) by {
                lemma_div_multiples_vanish(rt + 2, rt);
            }
            lemma_div_is_ordered_by_denominator(n as int, rt, x as int);
        }
        let q: u64 = n / x;
        let s: u64 = x + q;
        y = s / 2;
        proof {
            lemma_newton_step_lower(n as int, x as int, rt);
            // The new y keeps below n / 2 + 1.
            if x >= 2 {
                lemma_div_is_ordered_by_denominator(n as int, 2, x as int);
                lemma_div_is_ordered(x as int + q as int, n as int / 2 + 1 + n as int / 2, 2);
                lemma_fundamental_div_mod(n as int / 2, 1);
                assert((n as int / 2 + 1 + n as int / 2) == 2 * (n as int / 2) + 1);
                lemma_fundamental_div_mod_converse_div(
                    2 * (n as int / 2) + 1,
                    2,
                    n as int / 2,
                    1,
                );
            } else {
                lemma_div_is_ordered(x as int + q as int, 1 + n as int, 2);
                if n % 2 == 0 {
                    lemma_fundamental_div_mod(n as int, 2);
                    lemma_fundamental_div_mod_converse_div(
                        n as int + 1,
                        2,
                        n as int / 2,
                        1,
                    );
                } else {
                    lemma_fundamental_div_mod(n as int, 2);
                    lemma_fundamental_div_mod_converse_div(
                        n as int + 1,
                        2,
                        n as int / 2 + 1,
                        0,
                    );
                }
            }
        }
    }
    proof {
        // On exit y >= x, so one Newton step did not descend: n / x >= x,
        // hence x * x <= n; with x >= rt this pins x to the root.
        let q = n as int / x as int;
        if q <= x - 1 {
            lemma_div_is_ordered(x as int + q, 2 * x as int - 1, 2);
            lemma_fundamental_div_mod_converse_div(2 * (x as int) - 1, 2, x as int - 1, 1);
            assert(false);
        }
        lemma_fundamental_div_mod(n as int, x as int);
        lemma_mod_division_less_than_divisor(n as int, x as int);
        assert(x as int * x as int <= n as int) by (nonlinear_arith)
            requires
                n as int == x as int * q + (n as int % x as int),
                0 <= n as int % x as int,
                q >= x as int,
                1 <= x as int,
        ;
        assert(x as int <= rt) by (nonlinear_arith)
            requires
                x as int * x as int <= n as int,
                (n as int) < (rt + 1) * (rt + 1),
                0 <= rt,
                1 <= x as int,
        ;
    }
    x
}

} // verus!
