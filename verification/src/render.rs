//! Styling of output cells for a colour-capable terminal.
//!
//! The renderer walks the grid row by row and writes one glyph per cell.
//! In colour mode each glyph carries a foreground colour, and with
//! background colouring on, the cell's colour fills the background while
//! the glyph is drawn in the inverted colour.

use crate::ascii::AsciiColor;
use vstd::prelude::*;

verus! {

/// How one cell is drawn: its glyph, and the foreground and background
/// colours to set first, where `None` keeps the terminal's default.
#[derive(Clone, Copy, Debug, PartialEq, Eq)]
pub struct CellStyle {
    /// The character to write.
    pub glyph: char,
    /// Foreground colour, if any.
    pub fg: Option<(u8, u8, u8)>,
    /// Background colour, if any.
    pub bg: Option<(u8, u8, u8)>,
}

/// The RGB triple a cell's colour stands for when drawn: grayscale cells
/// fall back to black.
pub open spec fn cell_rgb(c: AsciiColor) -> (u8, u8, u8) {
    match c {
        AsciiColor::RGB(r, g, b) => (r, g, b),
        AsciiColor::Grayscale(_) => (0u8, 0u8, 0u8),
    }
}

/// The channel-wise inverse of a colour.
pub open spec fn inverted(p: (u8, u8, u8)) -> (u8, u8, u8) {
    ((255 - p.0) as u8, (255 - p.1) as u8, (255 - p.2) as u8)
}

/// The style a cell is drawn with.  Without colour mode the glyph stands
/// alone; in colour mode the cell's colour is the foreground, unless
/// background colouring is on, in which case it fills the background and
/// the glyph takes the inverted colour.
pub open spec fn style_of(cell: (char, AsciiColor), color: bool, bg: bool) -> CellStyle {
    if !color {
        CellStyle { glyph: cell.0, fg: None, bg: None }
    } else {
        let rgb = cell_rgb(cell.1);
        if bg {
            CellStyle { glyph: cell.0, fg: Some(inverted(rgb)), bg: Some(rgb) }
        } else {
            CellStyle { glyph: cell.0, fg: Some(rgb), bg: None }
        }
    }
}

/// Computes `style_of` for one cell.
pub fn cell_style(cell: &(char, AsciiColor), color: bool, bg: bool) -> (s: CellStyle)
    ensures
        s == style_of(*cell, color, bg),
{
    if !color {
        CellStyle { glyph: cell.0, fg: None, bg: None }
    } else {
        let rgb = match cell.1 {
            AsciiColor::RGB(r, g, b) => (r, g, b),
            AsciiColor::Grayscale(_) => (0u8, 0u8, 0u8),
        };
        if bg {
            CellStyle {
                glyph: cell.0,
                fg: Some((255 - rgb.0, 255 - rgb.1, 255 - rgb.2)),
                bg: Some(rgb),
            }
        } else {
            CellStyle { glyph: cell.0, fg: Some(rgb), bg: None }
        }
    }
}

} // verus!
