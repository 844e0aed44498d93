//! Integer nth roots.
//!
//! The lightness pipeline linearizes colour channels with a power of 11/5 and
//! then takes a cube root, both in fixed-point integer arithmetic.  This
//! module defines the mathematical floor of the nth root and provides
//! executable fifth- and cube-root functions proved against it.

use vstd::arithmetic::power::{
    lemma0_pow, lemma1_pow, lemma_pow1, lemma_pow_positive, pow,
};
use vstd::prelude::*;

verus! {

/// `pow` with exponent 5, written out as a product.
pub proof fn lemma_pow5(b: int)
    ensures
        pow(b, 5) == b * (b * (b * (b * b))),
{
    reveal_with_fuel(pow, 6);
}

/// `pow` with exponent 3, written out as a product.
pub proof fn lemma_pow3(b: int)
    ensures
        pow(b, 3) == b * (b * b),
{
    reveal_with_fuel(pow, 4);
}

/// `pow` of a natural number is never negative.
pub proof fn lemma_pow_nonneg(a: nat, e: nat)
    ensures
        pow(a as int, e) >= 0,
{
    if a > 0 {
        lemma_pow_positive(a as int, e);
    } else if e == 0 {
        vstd::arithmetic::power::lemma_pow0(a as int);
    } else {
        lemma0_pow(e);
    }
}

/// `r` is the integer (floor) nth root of `x`.
pub open spec fn is_nth_root(x: nat, n: nat, r: nat) -> bool {
    pow(r as int, n) <= x < pow((r + 1) as int, n)
}

/// The integer nth root of `x`, i.e. the greatest `r` with `r^n <= x`.
pub open spec fn nth_root(x: nat, n: nat) -> nat {
    choose|r: nat| is_nth_root(x, n, r)
}

/// Raising to a fixed power is monotone in the base.
pub proof fn lemma_pow_base_monotone(a: nat, b: nat, n: nat)
    requires
        a <= b,
    ensures
        pow(a as int, n) <= pow(b as int, n),
    decreases n,
{
    reveal(pow);
    if n != 0 {
        lemma_pow_base_monotone(a, b, (n - 1) as nat);
        lemma_pow_nonneg(a, (n - 1) as nat);
        let pa = pow(a as int, (n - 1) as nat);
        let pb = pow(b as int, (n - 1) as nat);
        assert(a * pa <= b * pb) by (nonlinear_arith)
            requires
                0 <= a <= b,
                0 <= pa <= pb,
        ;
    }
}

/// Raising to a positive fixed power is strictly monotone in the base.
pub proof fn lemma_pow_base_strict(a: nat, b: nat, n: nat)
    requires
        a < b,
        n >= 1,
    ensures
        pow(a as int, n) < pow(b as int, n),
    decreases n,
{
    if n == 1 {
        lemma_pow1(a as int);
        lemma_pow1(b as int);
    } else {
        lemma_pow_base_strict(a, b, (n - 1) as nat);
        lemma_pow_nonneg(a, (n - 1) as nat);
        let pa = pow(a as int, (n - 1) as nat);
        let pb = pow(b as int, (n - 1) as nat);
        assert(a * pa < b * pb) by (nonlinear_arith)
            requires
                0 <= a < b,
                0 <= pa < pb,
        ;
        reveal(pow);
    }
}

/// Every natural number has an integer nth root, for n >= 1.
pub proof fn lemma_nth_root_exists(x: nat, n: nat)
    requires
        n >= 1,
    ensures
        is_nth_root(x, n, nth_root(x, n)),
    decreases x,
{
    if x == 0 {
        lemma0_pow(n);
        lemma_pow_positive(1, n);
        lemma1_pow(n);
        assert(is_nth_root(0, n, 0));
    } else {
        lemma_nth_root_exists((x - 1) as nat, n);
        let r = nth_root((x - 1) as nat, n);
        if pow((r + 1) as int, n) <= x {
            // x - 1 < pow(r + 1, n) <= x forces x == pow(r + 1, n).
            lemma_pow_base_strict((r + 1) as nat, (r + 2) as nat, n);
            assert(is_nth_root(x, n, (r + 1) as nat));
        } else {
            assert(is_nth_root(x, n, r));
        }
    }
    let w = choose|w: nat| is_nth_root(x, n, w);
    assert(is_nth_root(x, n, w));
}

/// The integer nth root is unique.
pub proof fn lemma_nth_root_unique(x: nat, n: nat, r: nat)
    requires
        n >= 1,
        is_nth_root(x, n, r),
    ensures
        r == nth_root(x, n),
{
    lemma_nth_root_exists(x, n);
    let s = nth_root(x, n);
    if r < s {
        lemma_pow_base_monotone((r + 1) as nat, s, n);
    }
    if s < r {
        lemma_pow_base_monotone((s + 1) as nat, r, n);
    }
}

/// The integer nth root is monotone in its argument.
pub proof fn lemma_nth_root_monotone(x: nat, y: nat, n: nat)
    requires
        n >= 1,
        x <= y,
    ensures
        nth_root(x, n) <= nth_root(y, n),
{
    lemma_nth_root_exists(x, n);
    lemma_nth_root_exists(y, n);
    let rx = nth_root(x, n);
    let ry = nth_root(y, n);
    if ry < rx {
        lemma_pow_base_monotone((ry + 1) as nat, rx, n);
    }
}

/// A root bound transfers through `pow`: if `x < b^n` then `nth_root(x, n) < b`.
pub proof fn lemma_nth_root_below(x: nat, n: nat, b: nat)
    requires
        n >= 1,
        x < pow(b as int, n),
    ensures
        nth_root(x, n) < b,
{
    lemma_nth_root_exists(x, n);
    let r = nth_root(x, n);
    if r >= b {
        lemma_pow_base_monotone(b, r, n);
    }
}

/// Largest admitted fifth-root argument: 255^11 * 10^10, the linearized value
/// of a full-intensity colour channel in the fixed-point scale used here.
pub const MAX_LIN_INPUT: u128 = 2964435358988409692871093750000000000;

/// Integer fifth root by binary search.
pub fn fifth_root(x: u128) -> (r: u64)
    requires
        x <= MAX_LIN_INPUT,
    ensures
        r < 20_000_000,
        r == nth_root(x as nat, 5),
{
    proof {
        lemma0_pow(5);
        lemma_pow5(20_000_000);
        assert(pow(20_000_000, 5) == 3200000000000000000000000000000000000);
        lemma_nth_root_exists(x as nat, 5);
        lemma_nth_root_below(x as nat, 5, 20_000_000);
    }
    let mut lo: u64 = 0;
    let mut hi: u64 = 20_000_000;
    while lo + 1 < hi
        invariant
            lo < hi <= 20_000_000,
            pow(lo as int, 5) <= x as nat,
            x < pow(hi as int, 5),
        decreases hi - lo,
    {
        let mid: u64 = lo + (hi - lo) / 2;
        let m: u128 = mid as u128;
        proof {
            assert(m * m <= 400000000000000) by (nonlinear_arith)
                requires
                    m < 20_000_000,
            ;
        }
        let m2: u128 = m * m;
        proof {
            assert(m2 * m2 <= 160000000000000000000000000000) by (nonlinear_arith)
                requires
                    m2 <= 400000000000000,
            ;
        }
        let m4: u128 = m2 * m2;
        proof {
            assert(m4 * m <= 3200000000000000000000000000000000000) by (nonlinear_arith)
                requires
                    m4 <= 160000000000000000000000000000,
                    m < 20_000_000,
            ;
        }
        let m5: u128 = m4 * m;
        proof {
            lemma_pow5(m as int);
            assert(m5 == m * (m * (m * (m * m)))) by (nonlinear_arith)
                requires
                    m2 == m * m,
                    m4 == m2 * m2,
                    m5 == m4 * m,
            ;
        }
        if m5 <= x {
            lo = mid;
        } else {
            hi = mid;
        }
    }
    proof {
        assert(is_nth_root(x as nat, 5, lo as nat));
        lemma_nth_root_unique(x as nat, 5, lo as nat);
    }
    lo
}

/// Largest admitted cube-root argument: a bound on the weighted fixed-point
/// luminance of a full-white pixel, scaled by 116^3.
pub const MAX_CUBE_INPUT: u64 = 320000000000000000;

/// Integer cube root by binary search.
pub fn cube_root(x: u64) -> (r: u64)
    requires
        x <= MAX_CUBE_INPUT,
    ensures
        r < 700_000,
        r == nth_root(x as nat, 3),
{
    proof {
        lemma0_pow(3);
        lemma_pow3(700_000);
        assert(pow(700_000, 3) == 343000000000000000);
        lemma_nth_root_exists(x as nat, 3);
        lemma_nth_root_below(x as nat, 3, 700_000);
    }
    let mut lo: u64 = 0;
    let mut hi: u64 = 700_000;
    while lo + 1 < hi
        invariant
            lo < hi <= 700_000,
            pow(lo as int, 3) <= x as nat,
            x < pow(hi as int, 3),
        decreases hi - lo,
    {
        let mid: u64 = lo + (hi - lo) / 2;
        proof {
            assert(mid * mid <= 490000000000 && (mid * mid) * mid <= 343000000000000000
                && (mid * mid) * mid == mid * (mid * mid)) by (nonlinear_arith)
                requires
                    mid < 700_000,
            ;
            lemma_pow3(mid as int);
        }
        let m3: u64 = mid * mid * mid;
        if m3 <= x {
            lo = mid;
        } else {
            hi = mid;
        }
    }
    proof {
        assert(is_nth_root(x as nat, 3, lo as nat));
        lemma_nth_root_unique(x as nat, 3, lo as nat);
    }
    lo
}

} // verus!
