use comicli::ascii::AsciiColor;
use comicli::glyph::glyph_char;
use comicli::luminance::luminance_byte;

#[test]
fn lightness_saturates_for_bright_pixels() {
    // The unnormalized gamma pipeline saturates at 255 for all but
    // near-black pixels.
    assert_eq!(luminance_byte(255, 255, 255), 255);
    assert_eq!(luminance_byte(255, 0, 0), 255);
    assert_eq!(luminance_byte(0, 255, 0), 255);
    assert_eq!(luminance_byte(0, 0, 255), 255);
    assert_eq!(luminance_byte(128, 128, 128), 255);
}

#[test]
fn lightness_of_black_is_zero() {
    assert_eq!(luminance_byte(0, 0, 0), 0);
}

#[test]
fn lightness_of_near_black_pixels() {
    // Exact fixed-point values of the gamma / lightness pipeline.
    assert_eq!(luminance_byte(0, 0, 1), 32);
    assert_eq!(luminance_byte(1, 1, 1), 100);
    assert_eq!(luminance_byte(2, 3, 4), 238);
    assert_eq!(luminance_byte(2, 0, 0), 99);
    assert_eq!(luminance_byte(0, 1, 0), 87);
}

#[test]
fn lightness_is_monotone_in_each_channel() {
    for v in 0..255u8 {
        assert!(luminance_byte(v, 7, 7) <= luminance_byte(v + 1, 7, 7));
        assert!(luminance_byte(7, v, 7) <= luminance_byte(7, v + 1, 7));
        assert!(luminance_byte(7, 7, v) <= luminance_byte(7, 7, v + 1));
        assert!(luminance_byte(v, v, v) <= luminance_byte(v + 1, v + 1, v + 1));
    }
}

#[test]
fn to_grayscale_applies_the_pipeline() {
    assert_eq!(AsciiColor::RGB(0, 0, 1).to_grayscale(), 32);
    assert_eq!(AsciiColor::RGB(255, 255, 255).to_grayscale(), 255);
    assert_eq!(AsciiColor::Grayscale(123).to_grayscale(), 123);
}

#[test]
fn deep_glyphs_use_the_large_ramp() {
    assert_eq!(glyph_char(255, 70), '$');
    assert_eq!(glyph_char(0, 70), ' ');
    assert_eq!(glyph_char(128, 70), 'n');
    assert_eq!(glyph_char(255, 11), '$');
}

#[test]
fn shallow_glyphs_use_the_small_ramp() {
    assert_eq!(glyph_char(255, 10), '@');
    assert_eq!(glyph_char(0, 10), ' ');
    assert_eq!(glyph_char(128, 10), '=');
    assert_eq!(glyph_char(255, 0), '@');
}
