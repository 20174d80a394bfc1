use comic_core::loader::ImageLoader;
use comic_core::pixels::RgbaPixels;
use comic_core::rotate::apply_rotation;
use comic_core::types::Rotation;
use image::DynamicImage;

/// 1x1 RGB PNG (69 bytes).
const MINIMAL_PNG: &[u8] = &[
    0x89, 0x50, 0x4E, 0x47, 0x0D, 0x0A, 0x1A, 0x0A, 0x00, 0x00, 0x00, 0x0D, 0x49, 0x48, 0x44, 0x52,
    0x00, 0x00, 0x00, 0x01, 0x00, 0x00, 0x00, 0x01, 0x08, 0x02, 0x00, 0x00, 0x00, 0x90, 0x77, 0x53,
    0xDE, 0x00, 0x00, 0x00, 0x0C, 0x49, 0x44, 0x41, 0x54, 0x78, 0x9C, 0x63, 0xF8, 0xCF, 0xC0, 0x00,
    0x00, 0x03, 0x01, 0x01, 0x00, 0xC9, 0xFE, 0x92, 0xEF, 0x00, 0x00, 0x00, 0x00, 0x49, 0x45, 0x4E,
    0x44, 0xAE, 0x42, 0x60, 0x82,
];

fn pixels_of(img: &DynamicImage) -> RgbaPixels {
    let rgba = img.to_rgba8();
    RgbaPixels { width: rgba.width(), height: rgba.height(), data: rgba.into_raw() }
}

fn make_img(w: u32, h: u32) -> RgbaPixels {
    pixels_of(&DynamicImage::new_rgb8(w, h))
}

/// A 3x2 image whose pixel (x, y) has red = 10 * y + x and alpha = 255.
fn numbered_3x2() -> RgbaPixels {
    let mut data = Vec::new();
    for y in 0..2u8 {
        for x in 0..3u8 {
            data.extend_from_slice(&[10 * y + x, 0, 0, 255]);
        }
    }
    RgbaPixels { width: 3, height: 2, data }
}

fn reds(p: &RgbaPixels) -> Vec<u8> {
    p.data.chunks(4).map(|px| px[0]).collect()
}

#[test]
fn r0_no_change() {
    let img = make_img(200, 300);
    let out = apply_rotation(img, Rotation::R0);
    assert_eq!(out.width, 200);
    assert_eq!(out.height, 300);
}

#[test]
fn r90_swaps_dimensions() {
    let img = make_img(200, 300);
    let out = apply_rotation(img, Rotation::R90);
    assert_eq!(out.width, 300);
    assert_eq!(out.height, 200);
}

#[test]
fn r180_same_dimensions() {
    let img = make_img(200, 300);
    let out = apply_rotation(img, Rotation::R180);
    assert_eq!(out.width, 200);
    assert_eq!(out.height, 300);
}

#[test]
fn r270_swaps_dimensions() {
    let img = make_img(200, 300);
    let out = apply_rotation(img, Rotation::R270);
    assert_eq!(out.width, 300);
    assert_eq!(out.height, 200);
}

#[test]
fn rotate_90_loads_and_rotates() {
    let (img, _meta) = ImageLoader::load_bytes(MINIMAL_PNG, "rot90.png", 0)
        .expect("load_bytes must succeed for valid PNG");
    // 1×1 is square — rotating 90° leaves dimensions unchanged.
    let out = apply_rotation(pixels_of(&img), Rotation::R90);
    assert_eq!(out.width, 1, "1x1 rotated 90° must remain width 1");
    assert_eq!(out.height, 1, "1x1 rotated 90° must remain height 1");
}

#[test]
fn rotate_180_preserves_dimensions() {
    let img = make_img(100, 200);
    let out = apply_rotation(img, Rotation::R180);
    assert_eq!(out.width, 100, "R180 must preserve width");
    assert_eq!(out.height, 200, "R180 must preserve height");
}

#[test]
fn rotate_270_swaps_on_non_square() {
    let img = make_img(100, 200);
    let out = apply_rotation(img, Rotation::R270);
    assert_eq!(out.width, 200, "R270 must swap: width becomes original height");
    assert_eq!(out.height, 100, "R270 must swap: height becomes original width");
}

#[test]
fn r0_keeps_every_byte() {
    let img = numbered_3x2();
    let before = img.data.clone();
    let out = apply_rotation(img, Rotation::R0);
    assert_eq!(out.data, before);
}

#[test]
fn r90_moves_left_column_to_top_row() {
    // Source rows: [0 1 2] / [10 11 12]; clockwise turn gives a 2x3 image
    // with rows [10 0] / [11 1] / [12 2].
    let out = apply_rotation(numbered_3x2(), Rotation::R90);
    assert_eq!((out.width, out.height), (2, 3));
    assert_eq!(reds(&out), vec![10, 0, 11, 1, 12, 2]);
    assert!(out.data.chunks(4).all(|px| px[3] == 255));
}

#[test]
fn r180_reverses_pixel_order() {
    let out = apply_rotation(numbered_3x2(), Rotation::R180);
    assert_eq!((out.width, out.height), (3, 2));
    assert_eq!(reds(&out), vec![12, 11, 10, 2, 1, 0]);
}

#[test]
fn r270_moves_top_row_to_left_column() {
    // Counter-clockwise turn gives rows [2 12] / [1 11] / [0 10].
    let out = apply_rotation(numbered_3x2(), Rotation::R270);
    assert_eq!((out.width, out.height), (2, 3));
    assert_eq!(reds(&out), vec![2, 12, 1, 11, 0, 10]);
}

#[test]
fn quarter_turns_undo_each_other() {
    let img = numbered_3x2();
    let before = img.data.clone();
    let turned = apply_rotation(img, Rotation::R90);
    let back = apply_rotation(turned, Rotation::R270);
    assert_eq!((back.width, back.height), (3, 2));
    assert_eq!(back.data, before);
}

#[test]
fn half_turns_undo_each_other() {
    let img = numbered_3x2();
    let before = img.data.clone();
    let back = apply_rotation(apply_rotation(img, Rotation::R180), Rotation::R180);
    assert_eq!((back.width, back.height), (3, 2));
    assert_eq!(back.data, before);
}

#[test]
fn empty_image_rotates_to_empty() {
    let img = RgbaPixels { width: 0, height: 5, data: Vec::new() };
    let out = apply_rotation(img, Rotation::R90);
    assert_eq!((out.width, out.height), (5, 0));
    assert!(out.data.is_empty());
}

#[test]
fn two_quarter_turns_make_a_half_turn() {
    let twice = apply_rotation(apply_rotation(numbered_3x2(), Rotation::R90), Rotation::R90);
    let half = apply_rotation(numbered_3x2(), Rotation::R180);
    assert_eq!((twice.width, twice.height), (half.width, half.height));
    assert_eq!(twice.data, half.data);
}

#[test]
fn r270_is_three_quarter_turns() {
    let mut p = numbered_3x2();
    for _ in 0..3 {
        p = apply_rotation(p, Rotation::R90);
    }
    let t = apply_rotation(numbered_3x2(), Rotation::R270);
    assert_eq!((p.width, p.height), (t.width, t.height));
    assert_eq!(p.data, t.data);
}
