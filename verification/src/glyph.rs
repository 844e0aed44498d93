//! Glyph ramps and lightness-to-glyph selection.
//!
//! Two fixed ramps of characters run from visually darkest to brightest: a
//! ten-glyph ramp and a seventy-level ramp of 68 glyphs.  A configured
//! "depth" above 10 selects the large ramp, anything else the small one.
//! A lightness byte `l` picks the glyph at index `l * 67 / 255` (large
//! ramp) or `l * 9 / 255` (small ramp); the scaled integer division always
//! lands inside the ramp, so the darkest byte selects the first glyph and
//! the brightest byte the last.

use crate::luminance::{lemma_luminance_black, lemma_luminance_white, luminance_of};
use vstd::arithmetic::div_mod::lemma_div_is_ordered;
use vstd::prelude::*;

verus! {

/// Ten glyphs of increasing brightness.
pub const GSCALE_10: [char; 10] = [' ', '.', ':', '-', '=', '+', '*', '#', '%', '@'];

/// Sixty-eight glyphs of increasing brightness, used for depths above 10.
pub const GSCALE_70: [char; 68] = [
    ' ', '.', '"', '`', '^', '"', ',', ':', ';', 'I', 'l', '!', 'i', '~', '+', '_', '-', '?', ']',
    '[', '}', '{', '1', ')', '(', '|', '\\', '/', 't', 'f', 'j', 'r', 'x', 'n', 'u', 'v', 'c', 'z',
    'X', 'Y', 'U', 'J', 'C', 'L', 'Q', '0', 'O', 'Z', 'm', 'w', 'q', 'p', 'd', 'b', 'k', 'h', 'a',
    'o', '*', '#', 'M', 'W', '&', '8', '%', 'B', '@', '$',
];

/// The ramp index a lightness byte selects at the given depth.
pub open spec fn glyph_index(l: u8, depth: u8) -> int {
    if depth > 10 {
        (l as int * 67) / 255
    } else {
        (l as int * 9) / 255
    }
}

/// The glyph a lightness byte selects at the given depth.
pub open spec fn glyph_for(l: u8, depth: u8) -> char {
    if depth > 10 {
        GSCALE_70@[glyph_index(l, depth)]
    } else {
        GSCALE_10@[glyph_index(l, depth)]
    }
}

/// The selected index stays inside the selected ramp.
pub proof fn lemma_glyph_index_in_range(l: u8, depth: u8)
    ensures
        depth > 10 ==> 0 <= glyph_index(l, depth) <= 67,
        depth <= 10 ==> 0 <= glyph_index(l, depth) <= 9,
{
    if depth > 10 {
        lemma_div_is_ordered(0, l as int * 67, 255);
        lemma_div_is_ordered(l as int * 67, 255int * 67, 255);
    } else {
        lemma_div_is_ordered(0, l as int * 9, 255);
        lemma_div_is_ordered(l as int * 9, 255int * 9, 255);
    }
}

/// Computes `glyph_for`.
pub fn glyph_char(l: u8, depth: u8) -> (c: char)
    ensures
        c == glyph_for(l, depth),
{
    proof {
        lemma_glyph_index_in_range(l, depth);
    }
    if depth > 10 {
        let idx: usize = (l as usize * 67) / 255;
        GSCALE_70[idx]
    } else {
        let idx: usize = (l as usize * 9) / 255;
        GSCALE_10[idx]
    }
}

/// At a depth that selects the large ramp, a full-white pixel's lightness
/// selects the ramp's last (brightest) glyph and a full-black pixel's
/// lightness selects its first (darkest) glyph.
pub proof fn lemma_extreme_glyph_selection(depth: u8)
    requires
        depth > 10,
    ensures
        glyph_for(luminance_of(255, 255, 255), depth) == GSCALE_70@.last(),
        glyph_for(luminance_of(0, 0, 0), depth) == GSCALE_70@.first(),
{
    lemma_luminance_white();
    lemma_luminance_black();
    assert(glyph_index(255, depth) == 67);
    assert(glyph_index(0, depth) == 0);
}

} // verus!
