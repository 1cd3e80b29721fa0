use glyphmosaic::codec::{decode_image, encode_image, CodecError};
use glyphmosaic::glyphs::{blank_bitmap, plot_clamped};
use glyphmosaic::gray::rgba_to_gray;
use glyphmosaic::pipeline::{mosaic, render, RenderError};

#[test]
fn gray_conversion_is_alpha_weighted_mean() {
    let rgba = vec![
        255u8, 255, 255, 255, // opaque white
        255, 0, 0, 255, // opaque red
        10, 20, 30, 0, // fully transparent
        100, 200, 50, 128, // half transparent mix
    ];
    let gray = rgba_to_gray(&rgba);
    assert_eq!(gray, vec![255, 85, 0, 58]);
}

#[test]
fn gray_conversion_ignores_trailing_bytes() {
    let rgba = vec![255u8, 255, 255, 255, 9, 9];
    let gray = rgba_to_gray(&rgba);
    assert_eq!(gray, vec![255]);
}

#[test]
fn blank_bitmap_is_all_zero() {
    let b = blank_bitmap(3, 2);
    assert_eq!(b, vec![0u8; 6]);
}

#[test]
fn plot_writes_and_clamps() {
    let mut b = blank_bitmap(3, 2);
    plot_clamped(&mut b, 3, 2, 1, 0, 200);
    assert_eq!(b, vec![0, 200, 0, 0, 0, 0]);
    // Coordinates beyond the bitmap land on the last column and row.
    plot_clamped(&mut b, 3, 2, 9, 9, 50);
    assert_eq!(b, vec![0, 200, 0, 0, 0, 50]);
}

#[test]
fn encode_decode_round_trip_gray() {
    let pixels = vec![0u8, 128, 255, 64, 10, 200];
    let bytes = encode_image(&pixels, 3, 2).unwrap();
    let (w, h, back) = decode_image(&bytes).unwrap();
    assert_eq!((w, h), (3, 2));
    assert_eq!(back, pixels);
}

#[test]
fn decode_converts_rgba_frames() {
    // Build an RGBA PNG directly and decode it through the library.
    let rgba = vec![
        255u8, 255, 255, 255, //
        255, 0, 0, 255, //
        10, 20, 30, 0, //
        100, 200, 50, 128,
    ];
    let mut bytes: Vec<u8> = Vec::new();
    {
        let mut enc = png::Encoder::new(&mut bytes, 2, 2);
        enc.set_color(png::ColorType::Rgba);
        enc.set_depth(png::BitDepth::Eight);
        let mut writer = enc.write_header().unwrap();
        writer.write_image_data(&rgba).unwrap();
        writer.finish().unwrap();
    }
    let (w, h, gray) = decode_image(&bytes).unwrap();
    assert_eq!((w, h), (2, 2));
    assert_eq!(gray, vec![255, 85, 0, 58]);
}

#[test]
fn encode_rejects_zero_dimensions() {
    let pixels: Vec<u8> = Vec::new();
    assert_eq!(encode_image(&pixels, 0, 0), Err(CodecError::EncodeFailed));
}

#[test]
fn decode_rejects_garbage() {
    let garbage = vec![1u8, 2, 3, 4, 5];
    assert_eq!(decode_image(&garbage), Err(CodecError::Malformed));
}

#[test]
fn decode_rejects_unsupported_color_type() {
    // An 8-bit RGB (no alpha) PNG is well-formed but unsupported.
    let rgb = vec![10u8, 20, 30, 40, 50, 60, 70, 80, 90, 100, 110, 120];
    let mut bytes: Vec<u8> = Vec::new();
    {
        let mut enc = png::Encoder::new(&mut bytes, 2, 2);
        enc.set_color(png::ColorType::Rgb);
        enc.set_depth(png::BitDepth::Eight);
        let mut writer = enc.write_header().unwrap();
        writer.write_image_data(&rgb).unwrap();
        writer.finish().unwrap();
    }
    assert_eq!(decode_image(&bytes), Err(CodecError::UnsupportedColor));
}

#[test]
fn render_single_glyph_covers_every_cell() {
    // An alphabet of exactly one glyph: every cell maps to it, whatever the
    // image holds.
    let img = vec![
        0u8, 50, 100, 150, //
        200, 250, 30, 60, //
        90, 120, 180, 210, //
        240, 15, 45, 75,
    ];
    let glyphs = vec![vec![9u8, 8, 7, 6]];
    let out = render(&img, 4, 4, &glyphs, 2, 2).unwrap();
    assert_eq!(
        out,
        vec![
            9, 8, 9, 8, //
            7, 6, 7, 6, //
            9, 8, 9, 8, //
            7, 6, 7, 6,
        ]
    );
}

#[test]
fn render_single_cell_image_is_one_bitmap() {
    // Image dimensions exactly one cell: the output is a single glyph's
    // bitmap at unchanged dimensions.
    let img = vec![5u8, 10, 15, 20];
    let glyphs = vec![vec![9u8, 8, 7, 6]];
    let out = render(&img, 2, 2, &glyphs, 2, 2).unwrap();
    assert_eq!(out, vec![9, 8, 7, 6]);
}

#[test]
fn render_is_deterministic() {
    let img: Vec<u8> = (0..64u32).map(|i| (i * 4) as u8).collect();
    let glyphs = vec![
        vec![0u8, 0, 0, 0],
        vec![255u8, 255, 255, 255],
        vec![0u8, 255, 0, 255],
    ];
    let a = render(&img, 8, 8, &glyphs, 2, 2).unwrap();
    let b = render(&img, 8, 8, &glyphs, 2, 2).unwrap();
    assert_eq!(a, b);
}

#[test]
fn render_reports_each_failure() {
    let img = vec![1u8, 2, 3, 4];
    let glyph = vec![9u8, 8, 7, 6];
    assert_eq!(
        render(&img, 2, 2, &vec![glyph.clone()], 0, 2),
        Err(RenderError::BadCellSize)
    );
    assert_eq!(
        render(&img, 3, 2, &vec![glyph.clone()], 2, 2),
        Err(RenderError::SizeMismatch)
    );
    assert_eq!(
        render(&img, 2, 2, &Vec::new(), 2, 2),
        Err(RenderError::EmptyAlphabet)
    );
    assert_eq!(
        render(&img, 2, 2, &vec![vec![9u8, 8]], 2, 2),
        Err(RenderError::BadGlyph)
    );
}

#[test]
fn mosaic_end_to_end_matches_render() {
    let img = vec![
        0u8, 50, 100, 150, //
        200, 250, 30, 60, //
        90, 120, 180, 210, //
        240, 15, 45, 75,
    ];
    let input_png = encode_image(&img, 4, 4).unwrap();
    let glyphs = vec![vec![0u8, 64, 128, 255], vec![255u8, 255, 255, 255]];
    let output_png = mosaic(&input_png, &glyphs, 2, 2).unwrap();
    let (w, h, out) = decode_image(&output_png).unwrap();
    assert_eq!((w, h), (4, 4));
    let direct = render(&img, 4, 4, &glyphs, 2, 2).unwrap();
    assert_eq!(out, direct);
}
