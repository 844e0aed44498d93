use comicli::ascii::AsciiColor;
use comicli::render::{cell_style, CellStyle};

#[test]
fn plain_mode_has_no_colours() {
    let s = cell_style(&('x', AsciiColor::RGB(1, 2, 3)), false, true);
    assert_eq!(s, CellStyle { glyph: 'x', fg: None, bg: None });
}

#[test]
fn colour_mode_sets_the_foreground() {
    let s = cell_style(&('#', AsciiColor::RGB(10, 20, 30)), true, false);
    assert_eq!(s, CellStyle { glyph: '#', fg: Some((10, 20, 30)), bg: None });
}

#[test]
fn background_mode_inverts_the_glyph_colour() {
    let s = cell_style(&('@', AsciiColor::RGB(255, 0, 10)), true, true);
    assert_eq!(
        s,
        CellStyle { glyph: '@', fg: Some((0, 255, 245)), bg: Some((255, 0, 10)) }
    );
}

#[test]
fn grayscale_cells_draw_black_in_colour_mode() {
    let s = cell_style(&('.', AsciiColor::Grayscale(200)), true, false);
    assert_eq!(s, CellStyle { glyph: '.', fg: Some((0, 0, 0)), bg: None });
}
