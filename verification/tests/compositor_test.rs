use comic_core::compositor::Compositor;
use comic_core::pixels::RgbaPixels;
use image::DynamicImage;

fn pixels_of(img: &DynamicImage) -> RgbaPixels {
    let rgba = img.to_rgba8();
    RgbaPixels { width: rgba.width(), height: rgba.height(), data: rgba.into_raw() }
}

/// An image whose every pixel is `(r, g, 0, 255)` with `r` the column and
/// `g` the row plus `tag`.
fn gradient(w: u32, h: u32, tag: u8) -> RgbaPixels {
    let mut data = Vec::new();
    for y in 0..h {
        for x in 0..w {
            data.extend_from_slice(&[x as u8, y as u8 + tag, 0, 255]);
        }
    }
    RgbaPixels { width: w, height: h, data }
}

#[test]
fn two_page_same_size() {
    let left = pixels_of(&DynamicImage::new_rgb8(200, 300));
    let right = pixels_of(&DynamicImage::new_rgb8(200, 300));
    let out = Compositor::join_pages(&left, &right);
    assert_eq!(out.width, 400);
    assert_eq!(out.height, 300);
}

#[test]
fn compositor_two_page_total_width() {
    let left = pixels_of(&DynamicImage::new_rgb8(200, 300));
    let right = pixels_of(&DynamicImage::new_rgb8(200, 300));
    let out = Compositor::join_pages(&left, &right);
    assert_eq!(out.width, 400, "same-size spread width must be 400");
    assert_eq!(out.height, 300, "same-size spread height must be 300");
}

#[test]
fn spread_height_is_the_taller_page() {
    assert_eq!(Compositor::spread_height(400, 200), 400);
    assert_eq!(Compositor::spread_height(200, 400), 400);
    assert_eq!(Compositor::spread_height(300, 300), 300);
}

#[test]
fn join_pages_places_left_then_right() {
    let left = gradient(2, 2, 0);
    let right = gradient(3, 2, 100);
    let out = Compositor::join_pages(&left, &right);
    assert_eq!((out.width, out.height), (5, 2));
    let px = |x: usize, y: usize| -> [u8; 4] {
        let i = (y * 5 + x) * 4;
        [out.data[i], out.data[i + 1], out.data[i + 2], out.data[i + 3]]
    };
    assert_eq!(px(0, 0), [0, 0, 0, 255]);
    assert_eq!(px(1, 1), [1, 1, 0, 255]);
    assert_eq!(px(2, 0), [0, 100, 0, 255]);
    assert_eq!(px(4, 1), [2, 101, 0, 255]);
    assert_eq!(out.data.len(), 5 * 2 * 4);
}

#[test]
fn join_pages_with_an_empty_page() {
    let left = RgbaPixels { width: 0, height: 2, data: Vec::new() };
    let right = gradient(1, 2, 7);
    let out = Compositor::join_pages(&left, &right);
    assert_eq!((out.width, out.height), (1, 2));
    assert_eq!(out.data, right.data);
}
