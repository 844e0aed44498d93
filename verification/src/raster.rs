//! Decoded raster images.
//!
//! A [`RasterImage`] holds a decoded bitmap as a flat row-major RGB byte
//! buffer, three bytes per pixel.  Decoding the compressed bytes of an image
//! file is delegated to the `image` crate behind a trusted wrapper; all
//! further pixel access is verified against the flat buffer.

use vstd::prelude::*;

verus! {

/// An immutable decoded bitmap: `data` holds `width * height` RGB triples,
/// row by row from the top, three bytes per pixel.
pub struct RasterImage {
    /// Width in pixels.
    pub width: u32,
    /// Height in pixels.
    pub height: u32,
    /// Flat row-major RGB samples.
    pub data: Vec<u8>,
}

impl RasterImage {
    /// The buffer holds exactly one RGB triple per pixel.
    pub open spec fn wf(&self) -> bool {
        self.data@.len() == 3 * (self.width as int) * (self.height as int)
    }

    /// The RGB triple of the pixel at column `x` of row `y`.
    pub open spec fn spec_pixel(&self, x: int, y: int) -> (u8, u8, u8) {
        let base = 3 * (y * (self.width as int) + x);
        (self.data@[base], self.data@[base + 1], self.data@[base + 2])
    }

    /// Reads the pixel at column `x` of row `y`.
    pub fn pixel(&self, x: u32, y: u32) -> (p: (u8, u8, u8))
        requires
            self.wf(),
            x < self.width,
            y < self.height,
        ensures
            p == self.spec_pixel(x as int, y as int),
    {
        let w = self.width as usize;
        let yy = y as usize;
        let xx = x as usize;
        let n = self.data.len();
        proof {
            assert((yy * w + xx) * 3 + 2 < 3 * (self.width as int) * (self.height as int))
                by (nonlinear_arith)
                requires
                    yy < self.height,
                    xx < w,
                    w == self.width,
            ;
        }
        let base = (yy * w + xx) * 3;
        (self.data[base], self.data[base + 1], self.data[base + 2])
    }
}

/// What the image codec makes of a byte buffer: the decoded image's width,
/// height and flat RGB samples, if the bytes decode at all.  Decoding is a
/// pure function of the bytes, so the result carries a name rather than a
/// page-long description.
pub uninterp spec fn decoded_rgb(bytes: Seq<u8>) -> Option<(u32, u32, Seq<u8>)>;

#[verifier::external_type_specification]
#[verifier::external_body]
pub struct ExImageError(image::ImageError);

/// Relies on `image::load_from_memory` and `DynamicImage::to_rgb8`: decoding
/// is deterministic in the input bytes, and an `RgbImage`'s raw buffer holds
/// at least `width * height` three-byte samples (its checked constructors
/// refuse anything shorter).
#[verifier::external_body]
pub(crate) fn decode_rgb(bytes: &[u8]) -> (r: Result<(u32, u32, Vec<u8>), image::ImageError>)
    ensures
        match r {
            Ok(t) => decoded_rgb(bytes@) == Some((t.0, t.1, t.2@))
                && t.2@.len() >= 3 * (t.0 as int) * (t.1 as int),
            Err(_) => decoded_rgb(bytes@) is None,
        },
{
    let decoded = match image::load_from_memory(bytes) {
        Ok(d) => d,
        Err(e) => {
            return Err(e);
        },
    };
    let rgb = decoded.to_rgb8();
    Ok((rgb.width(), rgb.height(), rgb.into_raw()))
}

} // verus!
