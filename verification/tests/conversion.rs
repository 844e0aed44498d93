use comicli::ascii::{Ascii, AsciiColor, AsciiError, AsciiOutput, Opt};
use comicli::raster::RasterImage;

fn solid_image(width: u32, height: u32, rgb: (u8, u8, u8)) -> RasterImage {
    let mut data = Vec::new();
    for _ in 0..(width as usize * height as usize) {
        data.push(rgb.0);
        data.push(rgb.1);
        data.push(rgb.2);
    }
    RasterImage { width, height, data }
}

fn solid_ascii(width: u32, height: u32, rgb: (u8, u8, u8), dim: (u32, u32), color: bool) -> Ascii {
    Ascii { image: solid_image(width, height, rgb), dim, color, depth: 70, braille: false }
}

fn png_bytes(width: u32, height: u32, rgb: (u8, u8, u8)) -> Vec<u8> {
    let img = image::RgbImage::from_pixel(width, height, image::Rgb([rgb.0, rgb.1, rgb.2]));
    let mut bytes: Vec<u8> = Vec::new();
    img.write_to(&mut std::io::Cursor::new(&mut bytes), image::ImageFormat::Png)
        .expect("encoding a png in memory cannot fail");
    bytes
}

fn opt_for(width: u32, height: Option<u32>, color: bool) -> Opt {
    Opt {
        color,
        braille: false,
        width,
        depth: 70,
        height,
        bg: false,
        image: String::from("xkcd"),
    }
}

#[test]
fn grid_has_trimmed_dimensions() {
    // A 100x100 image at 10x10 requested cells: the outer ring is trimmed,
    // leaving an 8x8 grid.
    let mut a = solid_ascii(100, 100, (7, 7, 7), (10, 10), false);
    let out = a.run().expect("valid dimensions must convert");
    assert_eq!(out.len(), 8);
    for row in &out {
        assert_eq!(row.len(), 8);
    }
}

#[test]
fn grid_dimensions_follow_request() {
    let mut a = solid_ascii(60, 40, (1, 2, 3), (12, 5), true);
    let out = a.run().expect("valid dimensions must convert");
    assert_eq!(out.len(), 3);
    for row in &out {
        assert_eq!(row.len(), 10);
    }
}

#[test]
fn conversion_is_deterministic() {
    let mut a = solid_ascii(64, 64, (12, 200, 3), (8, 8), true);
    let first: AsciiOutput = a.run().expect("valid dimensions must convert");
    let second: AsciiOutput = a.run().expect("valid dimensions must convert");
    assert_eq!(first, second);
}

#[test]
fn white_tile_selects_brightest_glyph() {
    let mut a = solid_ascii(30, 30, (255, 255, 255), (10, 10), false);
    let out = a.run().expect("valid dimensions must convert");
    for row in &out {
        for cell in row {
            assert_eq!(cell.0, '$');
            assert_eq!(cell.1, AsciiColor::Grayscale(255));
        }
    }
}

#[test]
fn black_tile_selects_darkest_glyph() {
    let mut a = solid_ascii(30, 30, (0, 0, 0), (10, 10), false);
    let out = a.run().expect("valid dimensions must convert");
    for row in &out {
        for cell in row {
            assert_eq!(cell.0, ' ');
            assert_eq!(cell.1, AsciiColor::Grayscale(0));
        }
    }
}

#[test]
fn degenerate_tiles_are_invalid_dimensions() {
    // More output columns than image pixels: tiles would be empty.
    let mut a = solid_ascii(10, 10, (5, 5, 5), (20, 5), false);
    assert_eq!(a.run(), Err(AsciiError::InvalidDimensions));
    // More output rows than image rows.
    let mut b = solid_ascii(10, 10, (5, 5, 5), (5, 11), false);
    assert_eq!(b.run(), Err(AsciiError::InvalidDimensions));
}

#[test]
fn tiny_grids_are_invalid_dimensions() {
    let mut a = solid_ascii(10, 10, (5, 5, 5), (2, 10), false);
    assert_eq!(a.run(), Err(AsciiError::InvalidDimensions));
    let mut b = solid_ascii(10, 10, (5, 5, 5), (10, 0), false);
    assert_eq!(b.run(), Err(AsciiError::InvalidDimensions));
}

#[test]
fn red_end_to_end_grayscale() {
    // A 100x100 solid-red image at 10x10 cells in grayscale: an 8x8 grid of
    // one glyph, computed from the red channel's lightness (which saturates
    // at 255, the large ramp's last glyph).
    let opt = opt_for(10, Some(10), false);
    let mut a = Ascii::new(&opt, png_bytes(100, 100, (255, 0, 0))).expect("png must decode");
    assert_eq!(a.image.width, 100);
    assert_eq!(a.image.height, 100);
    assert_eq!(a.dim, (10, 10));
    let out = a.run().expect("valid dimensions must convert");
    assert_eq!(out.len(), 8);
    for row in &out {
        assert_eq!(row.len(), 8);
        for cell in row {
            assert_eq!(*cell, ('$', AsciiColor::Grayscale(255)));
        }
    }
}

#[test]
fn red_end_to_end_color() {
    // The same conversion in colour mode keeps the representative colour.
    let opt = opt_for(10, Some(10), true);
    let mut a = Ascii::new(&opt, png_bytes(100, 100, (255, 0, 0))).expect("png must decode");
    let out = a.run().expect("valid dimensions must convert");
    assert_eq!(out.len(), 8);
    for row in &out {
        assert_eq!(row.len(), 8);
        for cell in row {
            assert_eq!(*cell, ('$', AsciiColor::RGB(255, 0, 0)));
        }
    }
}

#[test]
fn undecodable_bytes_are_decode_error() {
    let opt = opt_for(10, Some(10), false);
    let garbage = vec![0u8, 1, 2, 3, 4, 5, 6, 7];
    match Ascii::new(&opt, garbage) {
        Err(e) => assert_eq!(e, AsciiError::DecodeError),
        Ok(_) => panic!("garbage bytes must not decode"),
    }
}

#[test]
fn height_is_derived_from_aspect_ratio() {
    // A 200x100 image at width 80 derives height round(80 * 100 / 200) = 40.
    let opt = opt_for(80, None, false);
    let a = Ascii::new(&opt, png_bytes(200, 100, (9, 9, 9))).expect("png must decode");
    assert_eq!(a.dim, (80, 40));
}

#[test]
fn derived_height_rounds_to_nearest() {
    // A 64x100 image at width 9 derives height round(9 * 100 / 64) =
    // round(14.06) = 14; at width 10, round(15.63) = 16.
    let a = Ascii::new(&opt_for(9, None, false), png_bytes(64, 100, (9, 9, 9)))
        .expect("png must decode");
    assert_eq!(a.dim, (9, 14));
    let b = Ascii::new(&opt_for(10, None, false), png_bytes(64, 100, (9, 9, 9)))
        .expect("png must decode");
    assert_eq!(b.dim, (10, 16));
}

#[test]
fn average_mixes_channels() {
    let samples = vec![
        AsciiColor::RGB(10, 0, 255),
        AsciiColor::RGB(20, 1, 255),
        AsciiColor::RGB(31, 2, 255),
    ];
    assert_eq!(AsciiColor::average(&samples, true), AsciiColor::RGB(20, 1, 255));
    let grays = vec![
        AsciiColor::Grayscale(10),
        AsciiColor::Grayscale(11),
        AsciiColor::Grayscale(13),
    ];
    assert_eq!(AsciiColor::average(&grays, false), AsciiColor::Grayscale(11));
}

#[test]
fn average_counts_every_sample() {
    // A sample of the other representation contributes nothing to the sums
    // but still counts toward the denominator, as the tiler's folds do.
    let mixed = vec![AsciiColor::RGB(90, 90, 90), AsciiColor::Grayscale(90)];
    assert_eq!(AsciiColor::average(&mixed, true), AsciiColor::RGB(45, 45, 45));
    assert_eq!(AsciiColor::average(&mixed, false), AsciiColor::Grayscale(45));
}
