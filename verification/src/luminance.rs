//! Perceptual lightness of a colour, as one byte.
//!
//! Each channel `c` of an RGB triple is linearized with the gamma curve
//! `c^2.2`, the channels are combined with the luminance weights
//! `0.2126 / 0.7152 / 0.0722`, and the result `Y` is mapped through the
//! lightness transform `116 * Y^(1/3) - 16` and clamped into a byte.  The
//! channels are deliberately taken on the raw 0..=255 scale, not normalized
//! to 0..=1 first: the transform then saturates at 255 for all but
//! near-black pixels, and that bias is part of the intended behaviour.
//!
//! The whole pipeline is defined and computed in fixed-point integer
//! arithmetic: `c^2.2` is kept as `floor(100 * c^2.2)` (the fifth root of
//! `c^11 * 10^10`), the weights as parts of 10^4, and `116 * Y^(1/3)` as a
//! cube root scaled by 100.  Every step is a monotone integer floor, so the
//! pipeline is exactly deterministic and provably monotone in each channel.

use crate::roots::{
    cube_root, fifth_root, is_nth_root, lemma_nth_root_exists, lemma_nth_root_monotone,
    lemma_nth_root_unique, lemma_pow_base_monotone, nth_root,
};
use vstd::arithmetic::div_mod::lemma_div_is_ordered;
use vstd::arithmetic::power::{lemma0_pow, pow};
use vstd::prelude::*;

verus! {

/// Fixed-point linearized channel: `floor(100 * c^2.2)`, i.e. the integer
/// fifth root of `c^11 * 10^10`.
pub open spec fn channel_lin100(c: u8) -> nat {
    nth_root((pow(c as int, 11) * 10_000_000_000) as nat, 5)
}

/// Weighted linear luminance of a pixel, scaled by 10^6: the channel weights
/// `0.2126 / 0.7152 / 0.0722` appear as parts of 10^4 on channels already
/// scaled by 100.
pub open spec fn weighted_luminance(r: u8, g: u8, b: u8) -> nat {
    2126 * channel_lin100(r) + 7152 * channel_lin100(g) + 722 * channel_lin100(b)
}

/// `floor(116 * Y^(1/3))` for the pixel's linear luminance `Y`: the cube
/// root of the scaled luminance times `116^3`, shifted back down by the
/// fixed-point scale of 100.
pub open spec fn lightness116(r: u8, g: u8, b: u8) -> nat {
    nth_root((weighted_luminance(r, g, b) * 1560896) as nat, 3) / 100
}

/// The lightness byte of an RGB triple: `116 * Y^(1/3) - 16`, saturated
/// into 0..=255.
pub open spec fn luminance_of(r: u8, g: u8, b: u8) -> u8 {
    let l = lightness116(r, g, b);
    if l < 16 {
        0
    } else if l >= 16 + 255 {
        255
    } else {
        (l - 16) as u8
    }
}

/// `pow` with exponent 11, written out as a product.
proof fn lemma_pow11(b: int)
    ensures
        pow(b, 11) == b * (b * (b * (b * (b * (b * (b * (b * (b * (b * b))))))))),
{
    reveal_with_fuel(pow, 12);
}

/// Computes `channel_lin100` for one channel.
fn channel_lin(c: u8) -> (r: u64)
    ensures
        r == channel_lin100(c),
        r < 20_000_000,
{
    let m: u128 = c as u128;
    proof {
        assert(m * m <= 65025) by (nonlinear_arith)
            requires
                m <= 255,
        ;
    }
    let c2: u128 = m * m;
    proof {
        assert(c2 * c2 <= 4228250625) by (nonlinear_arith)
            requires
                c2 <= 65025,
        ;
    }
    let c4: u128 = c2 * c2;
    proof {
        assert(c4 * c4 <= 17878103347812890625) by (nonlinear_arith)
            requires
                c4 <= 4228250625,
        ;
    }
    let c8: u128 = c4 * c4;
    proof {
        assert(c8 * c2 <= 1162523670191533212890625) by (nonlinear_arith)
            requires
                c8 <= 17878103347812890625,
                c2 <= 65025,
        ;
    }
    let c10: u128 = c8 * c2;
    proof {
        assert(c10 * m <= 296443535898840969287109375) by (nonlinear_arith)
            requires
                c10 <= 1162523670191533212890625,
                m <= 255,
        ;
    }
    let c11: u128 = c10 * m;
    let x: u128 = c11 * 10_000_000_000;
    proof {
        lemma_pow11(m as int);
        assert(c11 == m * (m * (m * (m * (m * (m * (m * (m * (m * (m * m))))))))))
            by (nonlinear_arith)
            requires
                c2 == m * m,
                c4 == c2 * c2,
                c8 == c4 * c4,
                c10 == c8 * c2,
                c11 == c10 * m,
        ;
        assert(x as nat == (pow(c as int, 11) * 10_000_000_000) as nat);
    }
    fifth_root(x)
}

/// Computes `luminance_of` for an RGB triple.
pub fn luminance_byte(r: u8, g: u8, b: u8) -> (l: u8)
    ensures
        l == luminance_of(r, g, b),
{
    let lr: u64 = channel_lin(r);
    let lg: u64 = channel_lin(g);
    let lb: u64 = channel_lin(b);
    let y: u64 = 2126 * lr + 7152 * lg + 722 * lb;
    let t: u64 = y * 1560896;
    let cb: u64 = cube_root(t);
    let l116: u64 = cb / 100;
    if l116 < 16 {
        0
    } else if l116 - 16 > 255 {
        255
    } else {
        (l116 - 16) as u8
    }
}

/// One channel's linearization is monotone.
proof fn lemma_channel_lin_monotone(c1: u8, c2: u8)
    requires
        c1 <= c2,
    ensures
        channel_lin100(c1) <= channel_lin100(c2),
{
    lemma_pow_base_monotone(c1 as nat, c2 as nat, 11);
    crate::roots::lemma_pow_nonneg(c1 as nat, 11);
    crate::roots::lemma_pow_nonneg(c2 as nat, 11);
    lemma_nth_root_monotone(
        (pow(c1 as int, 11) * 10_000_000_000) as nat,
        (pow(c2 as int, 11) * 10_000_000_000) as nat,
        5,
    );
}

/// The lightness byte is monotone in each colour channel: brightening any
/// channel of a pixel while the others stay fixed never darkens it.  In
/// particular, for grey pixels `v1 <= v2` implies
/// `luminance_of(v1, v1, v1) <= luminance_of(v2, v2, v2)`.
pub proof fn lemma_luminance_monotone(r1: u8, g1: u8, b1: u8, r2: u8, g2: u8, b2: u8)
    requires
        r1 <= r2,
        g1 <= g2,
        b1 <= b2,
    ensures
        luminance_of(r1, g1, b1) <= luminance_of(r2, g2, b2),
{
    lemma_channel_lin_monotone(r1, r2);
    lemma_channel_lin_monotone(g1, g2);
    lemma_channel_lin_monotone(b1, b2);
    let w1 = weighted_luminance(r1, g1, b1);
    let w2 = weighted_luminance(r2, g2, b2);
    lemma_nth_root_monotone((w1 * 1560896) as nat, (w2 * 1560896) as nat, 3);
    lemma_div_is_ordered(
        nth_root((w1 * 1560896) as nat, 3) as int,
        nth_root((w2 * 1560896) as nat, 3) as int,
        100,
    );
}

/// A full-white pixel saturates the lightness transform: its byte is 255.
pub proof fn lemma_luminance_white()
    ensures
        luminance_of(255, 255, 255) == 255,
{
    lemma_nth_root_exists((pow(255, 11) * 10_000_000_000) as nat, 5);
    let lw = channel_lin100(255);
    if lw < 19_000_000 {
        lemma_pow_base_monotone((lw + 1) as nat, 19_000_000, 5);
        crate::roots::lemma_pow5(19_000_000);
        assert(pow(19_000_000, 5) == 2476099000000000000000000000000000000);
        lemma_pow11(255);
        assert(false);
    }
    let w = weighted_luminance(255, 255, 255);
    assert(w >= 10000 * 19_000_000);
    let t = (w * 1560896) as nat;
    lemma_nth_root_exists(t, 3);
    let cb = nth_root(t, 3);
    if cb < 27_100 {
        lemma_pow_base_monotone((cb + 1) as nat, 27_100, 3);
        crate::roots::lemma_pow3(27_100);
        assert(false);
    }
    lemma_div_is_ordered(27_100, cb as int, 100);
}

/// A full-black pixel yields lightness 0.
pub proof fn lemma_luminance_black()
    ensures
        luminance_of(0, 0, 0) == 0,
{
    lemma0_pow(11);
    lemma0_pow(5);
    lemma0_pow(3);
    vstd::arithmetic::power::lemma1_pow(5);
    vstd::arithmetic::power::lemma1_pow(3);
    assert(is_nth_root(0, 5, 0));
    lemma_nth_root_unique(0, 5, 0);
    assert(channel_lin100(0) == 0);
    assert(is_nth_root(0, 3, 0));
    lemma_nth_root_unique(0, 3, 0);
    assert(lightness116(0, 0, 0) == 0);
}

} // verus!
