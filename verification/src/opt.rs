//! Run configuration.

use vstd::prelude::*;

verus! {

/// Options for one conversion run, as the command line supplies them.
#[derive(Debug)]
pub struct Opt {
    /// Emit coloured output.
    pub color: bool,
    /// Braille mode; accepted but the conversion has no braille glyph path.
    pub braille: bool,
    /// Width of the output, in characters.
    pub width: u32,
    /// Lightness depth: a value above 10 selects the large glyph ramp.
    pub depth: u8,
    /// Height of the output, in characters; derived from the image's aspect
    /// ratio when absent.
    pub height: Option<u32>,
    /// Colour the background of each character instead of the glyph alone.
    pub bg: bool,
    /// The image source to convert.
    pub image: String,
}

} // verus!
