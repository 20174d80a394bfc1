use vstd::prelude::*;

verus! {

/// An RGBA image as plain values: `data` holds the pixels row by row, top
/// row first, four bytes (red, green, blue, alpha) per pixel.
pub struct RgbaPixels {
    pub width: u32,
    pub height: u32,
    pub data: Vec<u8>,
}

/// `data` holds exactly `width × height` pixels.
pub open spec fn is_rgba(p: RgbaPixels) -> bool {
    p.data@.len() == p.width as int * p.height as int * 4
}

/// Byte `c` of the pixel at column `x`, row `y` of an image `w` pixels wide.
pub open spec fn px(data: Seq<u8>, w: int, x: int, y: int, c: int) -> u8 {
    data[(y * w + x) * 4 + c]
}

/// Every byte of an image lies in some pixel.
pub proof fn lemma_pixel_of_index(w: int, h: int, i: int) -> (r: (int, int, int))
    requires
        w > 0,
        h > 0,
        0 <= i < w * h * 4,
    ensures
        0 <= r.0 < w,
        0 <= r.1 < h,
        0 <= r.2 < 4,
        i == (r.1 * w + r.0) * 4 + r.2,
{
    let c = i % 4;
    let q = i / 4;
    assert(i == q * 4 + c && 0 <= c < 4);
    assert(q < w * h) by (nonlinear_arith)
        requires
            i == q * 4 + c,
            0 <= c < 4,
            i < w * h * 4,
    ;
    let x = q % w;
    let y = q / w;
    assert(q == y * w + x && 0 <= x < w) by (nonlinear_arith)
        requires
            w > 0,
            x == q % w,
            y == q / w,
    ;
    assert(0 <= y < h) by (nonlinear_arith)
        requires
            w > 0,
            0 <= q < w * h,
            q == y * w + x,
            0 <= x < w,
    ;
    (x, y, c)
}

/// Two images of the same size that agree on every pixel are the same.
pub proof fn lemma_same_pixels(a: RgbaPixels, b: RgbaPixels)
    requires
        is_rgba(a),
        is_rgba(b),
        a.width == b.width,
        a.height == b.height,
        forall|x: int, y: int, c: int|
            0 <= x < a.width && 0 <= y < a.height && 0 <= c < 4 ==> #[trigger] px(
                a.data@,
                a.width as int,
                x,
                y,
                c,
            ) == px(b.data@, b.width as int, x, y, c),
    ensures
        a.data@ == b.data@,
{
    let (w, h) = (a.width as int, a.height as int);
    if w > 0 && h > 0 {
        assert forall|i: int| 0 <= i < a.data@.len() implies a.data@[i] == b.data@[i] by {
            let (x, y, c) = lemma_pixel_of_index(w, h, i);
            assert(px(a.data@, w, x, y, c) == px(b.data@, w, x, y, c));
        }
    } else {
        assert(w * h * 4 == 0) by (nonlinear_arith)
            requires
                w == 0 || h == 0,
        ;
    }
    assert(a.data@ =~= b.data@);
}

} // verus!
