//! The image-to-text conversion core.
//!
//! An [`Ascii`] pairs a decoded [`RasterImage`] with the requested output
//! dimensions and mode flags.  Running it cuts the image into one tile of
//! pixels per output cell, averages each tile's samples channel by channel,
//! and maps the average through the lightness pipeline to a glyph of the
//! configured ramp.  The outermost ring of requested cells is trimmed: a
//! grid of `w x h` cells is requested but `(w-2) x (h-2)` cells are
//! produced, matching the long-standing behaviour of the tiler's loop
//! bounds.

use crate::glyph::{glyph_char, glyph_for};
use crate::luminance::{luminance_byte, luminance_of};
pub use crate::opt::Opt;
use crate::raster::{decoded_rgb, RasterImage};
use vstd::arithmetic::div_mod::{
    lemma_div_is_ordered, lemma_div_multiples_vanish, lemma_fundamental_div_mod,
    lemma_fundamental_div_mod_converse, lemma_mod_bound,
};
use vstd::arithmetic::mul::lemma_mul_inequality;
use vstd::prelude::*;

verus! {

/// A sampled colour: an RGB triple in colour mode, a single lightness byte
/// in grayscale mode.
#[derive(Clone, Copy, Debug, PartialEq, Eq, Structural)]
pub enum AsciiColor {
    RGB(u8, u8, u8),
    Grayscale(u8),
}

/// The red channel a sample contributes to an RGB average.
pub open spec fn red_part(c: AsciiColor) -> nat {
    match c {
        AsciiColor::RGB(r, _, _) => r as nat,
        AsciiColor::Grayscale(_) => 0,
    }
}

/// The green channel a sample contributes to an RGB average.
pub open spec fn green_part(c: AsciiColor) -> nat {
    match c {
        AsciiColor::RGB(_, g, _) => g as nat,
        AsciiColor::Grayscale(_) => 0,
    }
}

/// The blue channel a sample contributes to an RGB average.
pub open spec fn blue_part(c: AsciiColor) -> nat {
    match c {
        AsciiColor::RGB(_, _, b) => b as nat,
        AsciiColor::Grayscale(_) => 0,
    }
}

/// The lightness a sample contributes to a grayscale average.
pub open spec fn gray_part(c: AsciiColor) -> nat {
    match c {
        AsciiColor::RGB(_, _, _) => 0,
        AsciiColor::Grayscale(l) => l as nat,
    }
}

/// Sum of the red channels of a sample sequence.
pub open spec fn sum_red(s: Seq<AsciiColor>) -> nat
    decreases s.len(),
{
    if s.len() == 0 {
        0
    } else {
        sum_red(s.drop_last()) + red_part(s.last())
    }
}

/// Sum of the green channels of a sample sequence.
pub open spec fn sum_green(s: Seq<AsciiColor>) -> nat
    decreases s.len(),
{
    if s.len() == 0 {
        0
    } else {
        sum_green(s.drop_last()) + green_part(s.last())
    }
}

/// Sum of the blue channels of a sample sequence.
pub open spec fn sum_blue(s: Seq<AsciiColor>) -> nat
    decreases s.len(),
{
    if s.len() == 0 {
        0
    } else {
        sum_blue(s.drop_last()) + blue_part(s.last())
    }
}

/// Sum of the lightness bytes of a sample sequence.
pub open spec fn sum_gray(s: Seq<AsciiColor>) -> nat
    decreases s.len(),
{
    if s.len() == 0 {
        0
    } else {
        sum_gray(s.drop_last()) + gray_part(s.last())
    }
}

/// Every channel sum is bounded by 255 per sample.
pub proof fn lemma_sums_bounded(s: Seq<AsciiColor>)
    ensures
        sum_red(s) <= 255 * s.len(),
        sum_green(s) <= 255 * s.len(),
        sum_blue(s) <= 255 * s.len(),
        sum_gray(s) <= 255 * s.len(),
    decreases s.len(),
{
    if s.len() > 0 {
        lemma_sums_bounded(s.drop_last());
    }
}

/// The channel-wise mean of a sample sequence: an RGB triple of channel
/// means in colour mode, the mean lightness byte otherwise.  Sums divide by
/// the number of samples with integer truncation.
pub open spec fn average_of(s: Seq<AsciiColor>, color: bool) -> AsciiColor {
    if color {
        AsciiColor::RGB(
            (sum_red(s) / s.len()) as u8,
            (sum_green(s) / s.len()) as u8,
            (sum_blue(s) / s.len()) as u8,
        )
    } else {
        AsciiColor::Grayscale((sum_gray(s) / s.len()) as u8)
    }
}

/// A mean of byte-bounded sums stays a byte.
pub proof fn lemma_average_fits(total: nat, n: nat)
    requires
        n > 0,
        total <= 255 * n,
    ensures
        total / n <= 255,
{
    lemma_div_is_ordered(total as int, 255 * n as int, n as int);
    lemma_div_multiples_vanish(255, n as int);
}

impl AsciiColor {
    /// The lightness byte this sample stands for: RGB triples go through
    /// the fixed-point lightness pipeline, grayscale samples are already
    /// lightness bytes.
    pub open spec fn spec_grayscale(&self) -> u8 {
        match *self {
            AsciiColor::RGB(r, g, b) => luminance_of(r, g, b),
            AsciiColor::Grayscale(l) => l,
        }
    }

    /// Converts this sample to its lightness byte.
    pub fn to_grayscale(&self) -> (l: u8)
        ensures
            l == self.spec_grayscale(),
    {
        match self {
            AsciiColor::RGB(r, g, b) => luminance_byte(*r, *g, *b),
            AsciiColor::Grayscale(l) => *l,
        }
    }

    /// Channel-wise mean of a non-empty collection of samples.
    pub fn average(samples: &Vec<AsciiColor>, color: bool) -> (a: AsciiColor)
        requires
            samples@.len() > 0,
        ensures
            a == average_of(samples@, color),
    {
        let n = samples.len();
        let mut sr: u128 = 0;
        let mut sg: u128 = 0;
        let mut sb: u128 = 0;
        let mut sy: u128 = 0;
        let mut i: usize = 0;
        while i < n
            invariant
                i <= n,
                n == samples@.len(),
                sr == sum_red(samples@.take(i as int)),
                sg == sum_green(samples@.take(i as int)),
                sb == sum_blue(samples@.take(i as int)),
                sy == sum_gray(samples@.take(i as int)),
            decreases n - i,
        {
            proof {
                lemma_sums_bounded(samples@.take(i as int));
                assert(samples@.take(i + 1).drop_last() =~= samples@.take(i as int));
                assert(samples@.take(i + 1).last() == samples@[i as int]);
            }
            let c = samples[i];
            match c {
                AsciiColor::RGB(r, g, b) => {
                    sr = sr + r as u128;
                    sg = sg + g as u128;
                    sb = sb + b as u128;
                },
                AsciiColor::Grayscale(l) => {
                    sy = sy + l as u128;
                },
            }
            i = i + 1;
        }
        proof {
            assert(samples@.take(n as int) =~= samples@);
            lemma_sums_bounded(samples@);
            lemma_average_fits(sum_red(samples@), samples@.len());
            lemma_average_fits(sum_green(samples@), samples@.len());
            lemma_average_fits(sum_blue(samples@), samples@.len());
            lemma_average_fits(sum_gray(samples@), samples@.len());
        }
        if color {
            AsciiColor::RGB(
                (sr / n as u128) as u8,
                (sg / n as u128) as u8,
                (sb / n as u128) as u8,
            )
        } else {
            AsciiColor::Grayscale((sy / n as u128) as u8)
        }
    }
}

/// One converted row: a glyph and its representative colour per cell,
/// left to right; the grid holds the rows top to bottom.
pub type AsciiOutput = Vec<Vec<(char, AsciiColor)>>;

/// The failures a conversion run reports.
#[derive(Clone, Copy, Debug, PartialEq, Eq, Structural)]
pub enum AsciiError {
    /// The image bytes are not a decodable raster format.
    DecodeError,
    /// The requested output grid has fewer than three rows or columns, or
    /// asks for more cells than the image has pixels, leaving empty tiles.
    InvalidDimensions,
    /// The comic source prefix is not recognized.
    UnknownSource,
    /// The remote source has no comic with the requested id.
    UnknownComicId,
}

/// The sample taken from one pixel: its colour in colour mode, its
/// lightness byte otherwise.
pub open spec fn sample_at(im: RasterImage, color: bool, x: int, y: int) -> AsciiColor {
    let p = im.spec_pixel(x, y);
    if color {
        AsciiColor::RGB(p.0, p.1, p.2)
    } else {
        AsciiColor::Grayscale(luminance_of(p.0, p.1, p.2))
    }
}

/// All samples of the tile at grid position `(tx, ty)` for `tw x th` pixel
/// tiles, in the order the tiler visits them: columns outer, rows inner.
pub open spec fn tile_samples(
    im: RasterImage,
    color: bool,
    tx: int,
    ty: int,
    tw: int,
    th: int,
) -> Seq<AsciiColor> {
    Seq::new((tw * th) as nat, |k: int| sample_at(im, color, tx * tw + k / th, ty * th + k % th))
}

/// The cell one tile produces: the tile's channel-wise average colour, and
/// the glyph its lightness selects.  In colour mode the lightness is
/// re-derived from the averaged RGB triple.
pub open spec fn cell_value(
    im: RasterImage,
    color: bool,
    depth: u8,
    tx: int,
    ty: int,
    tw: int,
    th: int,
) -> (char, AsciiColor) {
    let avg = average_of(tile_samples(im, color, tx, ty, tw, th), color);
    (glyph_for(avg.spec_grayscale(), depth), avg)
}

/// The requested grid is renderable: at least three rows and columns, and
/// no more cells than pixels along each axis, so every tile holds at least
/// one pixel.
pub open spec fn valid_dims(im: RasterImage, dims: (u32, u32)) -> bool {
    &&& dims.0 >= 3
    &&& dims.1 >= 3
    &&& dims.0 <= im.width
    &&& dims.1 <= im.height
}

/// The full output grid: one cell per interior tile, rows top to bottom and
/// cells left to right.  The outermost ring of requested cells is trimmed,
/// so row `i` holds the cells of tile row `i + 1`.
pub open spec fn grid_of(im: RasterImage, dims: (u32, u32), color: bool, depth: u8) -> Seq<
    Seq<(char, AsciiColor)>,
> {
    let tw = im.width as int / dims.0 as int;
    let th = im.height as int / dims.1 as int;
    Seq::new(
        (dims.1 - 2) as nat,
        |ty: int|
            Seq::new(
                (dims.0 - 2) as nat,
                |tx: int| cell_value(im, color, depth, tx + 1, ty + 1, tw, th),
            ),
    )
}

/// The mathematical content of an output grid: its rows as sequences.
pub open spec fn grid_view(out: AsciiOutput) -> Seq<Seq<(char, AsciiColor)>> {
    out@.map_values(|row: Vec<(char, AsciiColor)>| row@)
}

/// A conversion run: the image to convert, the requested output dimensions
/// in characters, and the mode flags.
pub struct Ascii {
    /// The decoded image.
    pub image: RasterImage,
    /// Requested output width and height, in characters.
    pub dim: (u32, u32),
    /// Emit coloured cells.
    pub color: bool,
    /// Lightness depth; above 10 selects the large glyph ramp.
    pub depth: u8,
    /// Braille mode; accepted but without a glyph path in the conversion.
    pub braille: bool,
}

/// The output height derived from the image's aspect ratio when none is
/// requested: `width * image_height / image_width`, rounded to nearest.
pub open spec fn derived_height(width: u32, img_w: u32, img_h: u32) -> int {
    (2 * (width as int) * (img_h as int) + (img_w as int)) / (2 * (img_w as int))
}

impl Ascii {
    /// Decodes an image from raw bytes and pairs it with the options for one
    /// run.  Fails with `DecodeError` when the bytes do not decode, and with
    /// `InvalidDimensions` when no height is given and none can be derived
    /// (an image without columns, or a derived height beyond `u32`).
    pub fn new(opt: &Opt, buf: Vec<u8>) -> (r: Result<Ascii, AsciiError>)
        ensures
            match r {
                Ok(a) => decoded_rgb(buf@) matches Some(t) && {
                    &&& a.image.wf()
                    &&& a.image.width == t.0
                    &&& a.image.height == t.1
                    &&& a.image.data@ == t.2.take(3 * (t.0 as int) * (t.1 as int))
                    &&& a.dim.0 == opt.width
                    &&& match opt.height {
                        Some(h) => a.dim.1 == h,
                        None => t.0 > 0 && a.dim.1 == derived_height(opt.width, t.0, t.1),
                    }
                    &&& a.color == opt.color
                    &&& a.depth == opt.depth
                    &&& a.braille == opt.braille
                },
                Err(e) => {
                    ||| (e == AsciiError::DecodeError && decoded_rgb(buf@) is None)
                    ||| {
                        &&& e == AsciiError::InvalidDimensions
                        &&& opt.height is None
                        &&& decoded_rgb(buf@) matches Some(t)
                        &&& (t.0 == 0 || derived_height(opt.width, t.0, t.1) > u32::MAX)
                    }
                },
            },
    {
        let decoded = match crate::raster::decode_rgb(buf.as_slice()) {
            Ok(t) => t,
            Err(_) => {
                return Err(AsciiError::DecodeError);
            },
        };
        let (w, h, mut raw) = decoded;
        let len = raw.len();
        proof {
            vstd::arithmetic::mul::lemma_mul_is_associative(3, w as int, h as int);
            assert((w as int) * (h as int) >= 0) by (nonlinear_arith);
            assert(3 * ((w as int) * (h as int)) <= len);
        }
        let wh: usize = (w as usize) * (h as usize);
        let n: usize = 3 * wh;
        raw.truncate(n);
        let image = RasterImage { width: w, height: h, data: raw };
        let height_chars: u32 = match opt.height {
            Some(hh) => hh,
            None => {
                if w == 0 {
                    return Err(AsciiError::InvalidDimensions);
                }
                proof {
                    assert(2 * (opt.width as int) * (h as int) + w <= 0xffffffffffffffffff)
                        by (nonlinear_arith)
                        requires
                            opt.width <= 0xffffffff,
                            h <= 0xffffffff,
                            w <= 0xffffffff,
                    ;
                }
                let num: u128 = 2 * (opt.width as u128) * (h as u128) + (w as u128);
                let den: u128 = 2 * (w as u128);
                let dh: u128 = num / den;
                if dh > u32::MAX as u128 {
                    return Err(AsciiError::InvalidDimensions);
                }
                dh as u32
            },
        };
        Ok(
            Ascii {
                image,
                dim: (opt.width, height_chars),
                depth: opt.depth,
                color: opt.color,
                braille: opt.braille,
            },
        )
    }

    /// Converts the image into its output grid.  Succeeds exactly on
    /// renderable dimensions, producing the grid `grid_of` describes;
    /// otherwise reports `InvalidDimensions` without touching the state.
    #[verifier::loop_isolation(false)]
    pub fn run(&mut self) -> (r: Result<AsciiOutput, AsciiError>)
        requires
            old(self).image.wf(),
        ensures
            *final(self) == *old(self),
            match r {
                Ok(out) => valid_dims(old(self).image, old(self).dim) && grid_view(out)
                    == grid_of(old(self).image, old(self).dim, old(self).color, old(self).depth),
                Err(e) => e == AsciiError::InvalidDimensions && !valid_dims(
                    old(self).image,
                    old(self).dim,
                ),
            },
    {
        let iw = self.image.width;
        let ih = self.image.height;
        let ow = self.dim.0;
        let oh = self.dim.1;
        if ow < 3 || oh < 3 || iw < ow || ih < oh {
            return Err(AsciiError::InvalidDimensions);
        }
        let tile_w = iw / ow;
        let tile_h = ih / oh;
        proof {
            lemma_div_multiples_vanish(1, ow as int);
            lemma_div_is_ordered(ow as int, iw as int, ow as int);
            lemma_fundamental_div_mod(iw as int, ow as int);
            lemma_mod_bound(iw as int, ow as int);
            lemma_div_multiples_vanish(1, oh as int);
            lemma_div_is_ordered(oh as int, ih as int, oh as int);
            lemma_fundamental_div_mod(ih as int, oh as int);
            lemma_mod_bound(ih as int, oh as int);
            assert(tile_w >= 1);
            assert(tile_h >= 1);
            assert((ow as int) * (tile_w as int) <= iw as int);
            assert((oh as int) * (tile_h as int) <= ih as int);
        }
        let ghost im = self.image;
        let ghost g = grid_of(self.image, self.dim, self.color, self.depth);
        let color = self.color;
        let depth = self.depth;
        let mut output: AsciiOutput = Vec::new();
        let mut ty: u32 = 1;
        while ty < oh - 1
            invariant
                1 <= ty <= oh - 1,
                output@.len() == ty - 1,
                forall|i: int| 0 <= i < ty - 1 ==> #[trigger] output@[i]@ == g[i],
            decreases oh - 1 - ty,
        {
            let mut row: Vec<(char, AsciiColor)> = Vec::new();
            let mut tx: u32 = 1;
            while tx < ow - 1
                invariant
                    1 <= tx <= ow - 1,
                    ty <= oh - 2,
                    row@.len() == tx - 1,
                    forall|j: int| 0 <= j < tx - 1 ==> #[trigger] row@[j] == g[ty - 1][j],
                decreases ow - 1 - tx,
            {
                let ghost ts = tile_samples(
                    im,
                    color,
                    tx as int,
                    ty as int,
                    tile_w as int,
                    tile_h as int,
                );
                let mut samples: Vec<AsciiColor> = Vec::new();
                let mut px: u32 = 0;
                while px < tile_w
                    invariant
                        px <= tile_w,
                        tx <= ow - 2,
                        ty <= oh - 2,
                        samples@ == ts.take((px as int) * (tile_h as int)),
                    decreases tile_w - px,
                {
                    let mut py: u32 = 0;
                    while py < tile_h
                        invariant
                            py <= tile_h,
                            px < tile_w,
                            tx <= ow - 2,
                            ty <= oh - 2,
                            samples@ == ts.take((px as int) * (tile_h as int) + py as int),
                        decreases tile_h - py,
                    {
                        proof {
                            assert((px as int) + (tx as int) * (tile_w as int) < iw as int)
                                by (nonlinear_arith)
                                requires
                                    px < tile_w,
                                    tx <= ow - 2,
                                    tile_w >= 1,
                                    (ow as int) * (tile_w as int) <= iw as int,
                            ;
                            assert((py as int) + (ty as int) * (tile_h as int) < ih as int)
                                by (nonlinear_arith)
                                requires
                                    py < tile_h,
                                    ty <= oh - 2,
                                    tile_h >= 1,
                                    (oh as int) * (tile_h as int) <= ih as int,
                            ;
                        }
                        let p = self.image.pixel(px + tx * tile_w, py + ty * tile_h);
                        let c = if color {
                            AsciiColor::RGB(p.0, p.1, p.2)
                        } else {
                            AsciiColor::Grayscale(AsciiColor::RGB(p.0, p.1, p.2).to_grayscale())
                        };
                        proof {
                            let k = (px as int) * (tile_h as int) + py as int;
                            assert((px as int) * (tile_h as int) + (py as int) < (tile_w as int)
                                * (tile_h as int)) by (nonlinear_arith)
                                requires
                                    px < tile_w,
                                    py < tile_h,
                            ;
                            lemma_fundamental_div_mod_converse(
                                k,
                                tile_h as int,
                                px as int,
                                py as int,
                            );
                            assert(ts[k] == c);
                            assert(ts.take(k + 1) =~= ts.take(k).push(ts[k]));
                        }
                        samples.push(c);
                        py = py + 1;
                    }
                    proof {
                        assert((px as int) * (tile_h as int) + (tile_h as int) == ((px + 1) as int)
                            * (tile_h as int)) by (nonlinear_arith);
                    }
                    px = px + 1;
                }
                proof {
                    assert((tile_w as int) * (tile_h as int) >= 1) by (nonlinear_arith)
                        requires
                            tile_w >= 1,
                            tile_h >= 1,
                    ;
                    assert(samples@ =~= ts);
                }
                let avg = AsciiColor::average(&samples, color);
                let glyph = glyph_char(avg.to_grayscale(), depth);
                proof {
                    assert(g[ty - 1][tx - 1] == cell_value(
                        im,
                        color,
                        depth,
                        tx as int,
                        ty as int,
                        tile_w as int,
                        tile_h as int,
                    ));
                }
                row.push((glyph, avg));
                tx = tx + 1;
            }
            proof {
                assert(row@ =~= g[ty - 1]);
            }
            output.push(row);
            ty = ty + 1;
        }
        proof {
            assert(grid_view(output) =~= g);
        }
        Ok(output)
    }
}

/// The output grid of a conversion has exactly `height - 2` rows of
/// `width - 2` cells each, reflecting the trimmed outer ring of tiles.
pub proof fn lemma_grid_dimensions(im: RasterImage, dims: (u32, u32), color: bool, depth: u8)
    requires
        valid_dims(im, dims),
    ensures
        grid_of(im, dims, color, depth).len() == dims.1 - 2,
        forall|i: int|
            0 <= i < dims.1 - 2 ==> #[trigger] grid_of(im, dims, color, depth)[i].len() == dims.0
                - 2,
{
}

/// Summing a sequence of one repeated sample multiplies its channels by the
/// length.
pub proof fn lemma_sum_constant(s: Seq<AsciiColor>, c: AsciiColor)
    requires
        forall|i: int| 0 <= i < s.len() ==> s[i] == c,
    ensures
        sum_red(s) == red_part(c) * s.len(),
        sum_green(s) == green_part(c) * s.len(),
        sum_blue(s) == blue_part(c) * s.len(),
        sum_gray(s) == gray_part(c) * s.len(),
    decreases s.len(),
{
    if s.len() > 0 {
        lemma_sum_constant(s.drop_last(), c);
        let n = s.len() - 1;
        assert(red_part(c) * n + red_part(c) == red_part(c) * (n + 1)) by (nonlinear_arith);
        assert(green_part(c) * n + green_part(c) == green_part(c) * (n + 1)) by (nonlinear_arith);
        assert(blue_part(c) * n + blue_part(c) == blue_part(c) * (n + 1)) by (nonlinear_arith);
        assert(gray_part(c) * n + gray_part(c) == gray_part(c) * (n + 1)) by (nonlinear_arith);
    }
}

/// A tile whose pixels all hold one colour averages to exactly that
/// colour's sample, so its cell shows the glyph of that colour's lightness.
pub proof fn lemma_uniform_tile_cell(
    im: RasterImage,
    color: bool,
    depth: u8,
    tx: int,
    ty: int,
    tw: int,
    th: int,
    r: u8,
    g: u8,
    b: u8,
)
    requires
        tw >= 1,
        th >= 1,
        forall|x: int, y: int|
            tx * tw <= x < tx * tw + tw && ty * th <= y < ty * th + th
                ==> #[trigger] im.spec_pixel(x, y) == (r, g, b),
    ensures
        cell_value(im, color, depth, tx, ty, tw, th) == (
            glyph_for(luminance_of(r, g, b), depth),
            if color {
                AsciiColor::RGB(r, g, b)
            } else {
                AsciiColor::Grayscale(luminance_of(r, g, b))
            },
        ),
{
    let ts = tile_samples(im, color, tx, ty, tw, th);
    let c = if color {
        AsciiColor::RGB(r, g, b)
    } else {
        AsciiColor::Grayscale(luminance_of(r, g, b))
    };
    assert(ts.len() == tw * th);
    assert forall|k: int| 0 <= k < ts.len() implies ts[k] == c by {
        lemma_fundamental_div_mod(k, th);
        lemma_mod_bound(k, th);
        vstd::arithmetic::div_mod::lemma_div_pos_is_pos(k, th);
        if k / th >= tw {
            lemma_mul_inequality(tw, k / th, th);
        }
        assert(im.spec_pixel(tx * tw + k / th, ty * th + k % th) == (r, g, b));
    }
    lemma_sum_constant(ts, c);
    assert(tw * th >= 1) by (nonlinear_arith)
        requires
            tw >= 1,
            th >= 1,
    ;
    vstd::arithmetic::div_mod::lemma_div_by_multiple(red_part(c) as int, ts.len() as int);
    vstd::arithmetic::div_mod::lemma_div_by_multiple(green_part(c) as int, ts.len() as int);
    vstd::arithmetic::div_mod::lemma_div_by_multiple(blue_part(c) as int, ts.len() as int);
    vstd::arithmetic::div_mod::lemma_div_by_multiple(gray_part(c) as int, ts.len() as int);
    assert(average_of(ts, color) == c);
}

/// At a depth that selects the large ramp, a tile of full-white pixels
/// produces the ramp's last (brightest) glyph.
pub proof fn lemma_white_tile_glyph(
    im: RasterImage,
    color: bool,
    depth: u8,
    tx: int,
    ty: int,
    tw: int,
    th: int,
)
    requires
        depth > 10,
        tw >= 1,
        th >= 1,
        forall|x: int, y: int|
            tx * tw <= x < tx * tw + tw && ty * th <= y < ty * th + th
                ==> #[trigger] im.spec_pixel(x, y) == (255u8, 255u8, 255u8),
    ensures
        cell_value(im, color, depth, tx, ty, tw, th).0 == crate::glyph::GSCALE_70@.last(),
{
    lemma_uniform_tile_cell(im, color, depth, tx, ty, tw, th, 255, 255, 255);
    crate::glyph::lemma_extreme_glyph_selection(depth);
}

/// At a depth that selects the large ramp, a tile of full-black pixels
/// produces the ramp's first (darkest) glyph.
pub proof fn lemma_black_tile_glyph(
    im: RasterImage,
    color: bool,
    depth: u8,
    tx: int,
    ty: int,
    tw: int,
    th: int,
)
    requires
        depth > 10,
        tw >= 1,
        th >= 1,
        forall|x: int, y: int|
            tx * tw <= x < tx * tw + tw && ty * th <= y < ty * th + th
                ==> #[trigger] im.spec_pixel(x, y) == (0u8, 0u8, 0u8),
    ensures
        cell_value(im, color, depth, tx, ty, tw, th).0 == crate::glyph::GSCALE_70@.first(),
{
    lemma_uniform_tile_cell(im, color, depth, tx, ty, tw, th, 0, 0, 0);
    crate::glyph::lemma_extreme_glyph_selection(depth);
}

/// Conversion is deterministic: any two output grids produced from the same
/// image, dimensions and flags are equal, cell for cell.
pub proof fn lemma_conversion_deterministic(
    out1: AsciiOutput,
    out2: AsciiOutput,
    im: RasterImage,
    dims: (u32, u32),
    color: bool,
    depth: u8,
)
    requires
        grid_view(out1) == grid_of(im, dims, color, depth),
        grid_view(out2) == grid_of(im, dims, color, depth),
    ensures
        grid_view(out1) == grid_view(out2),
{
}

} // verus!
