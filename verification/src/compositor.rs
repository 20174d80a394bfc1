use image::GenericImage;
use vstd::prelude::*;

use crate::pixels::{is_rgba, px, RgbaPixels};

verus! {

/// An image of the given size whose bytes are all zero (transparent black).
fn blank_canvas(width: u32, height: u32) -> (r: RgbaPixels)
    requires
        width as int * height as int * 4 <= usize::MAX,
    ensures
        r.width == width,
        r.height == height,
        is_rgba(r),
        forall|i: int| 0 <= i < r.data@.len() ==> #[trigger] r.data@[i] == 0,
{
    let n: usize = width as usize * height as usize * 4;
    let mut data: Vec<u8> = Vec::new();
    while data.len() < n
        invariant
            data@.len() <= n,
            forall|i: int| 0 <= i < data@.len() ==> #[trigger] data@[i] == 0,
        decreases n - data@.len(),
    {
        data.push(0);
    }
    RgbaPixels { width, height, data }
}

/// Every pixel of a buffer whose bytes are all zero is zero.
proof fn lemma_zero_pixels(p: RgbaPixels)
    requires
        is_rgba(p),
        forall|i: int| 0 <= i < p.data@.len() ==> #[trigger] p.data@[i] == 0,
    ensures
        forall|x: int, y: int, c: int|
            0 <= x < p.width && 0 <= y < p.height && 0 <= c < 4 ==> #[trigger] px(
                p.data@,
                p.width as int,
                x,
                y,
                c,
            ) == 0,
{
    assert forall|x: int, y: int, c: int|
        0 <= x < p.width && 0 <= y < p.height && 0 <= c < 4 implies #[trigger] px(
        p.data@,
        p.width as int,
        x,
        y,
        c,
    ) == 0 by {
        let (w, h) = (p.width as int, p.height as int);
        assert(0 <= (y * w + x) * 4 + c < w * h * 4) by (nonlinear_arith)
            requires
                0 <= x < w,
                0 <= y < h,
                0 <= c < 4,
        ;
    }
}

/// Calls `GenericImage::copy_from` on the canvas `canvas` with `src` placed
/// with its top-left corner at `(x, y)`.  As its source shows, the copy is
/// made, and `true` returned, exactly when `src` fits inside the canvas
/// there; then the covered pixels become those of `src` and the others stay.
/// When it does not fit, nothing changes and `false` is returned.
#[verifier::external_body]
fn paste(canvas: &mut RgbaPixels, src: &RgbaPixels, x: u32, y: u32) -> (r: bool)
    requires
        is_rgba(*old(canvas)),
        is_rgba(*src),
    ensures
        r == (x + src.width <= old(canvas).width && y + src.height <= old(canvas).height),
        final(canvas).width == old(canvas).width,
        final(canvas).height == old(canvas).height,
        is_rgba(*final(canvas)),
        forall|i: int, j: int, c: int|
            0 <= i < old(canvas).width && 0 <= j < old(canvas).height && 0 <= c < 4 ==> #[trigger] px(
                final(canvas).data@,
                old(canvas).width as int,
                i,
                j,
                c,
            ) == if r && x <= i < x + src.width && y <= j < y + src.height {
                px(src.data@, src.width as int, i - x, j - y, c)
            } else {
                px(old(canvas).data@, old(canvas).width as int, i, j, c)
            },
{
    let data = std::mem::take(&mut canvas.data);
    let mut img = image::RgbaImage::from_raw(canvas.width, canvas.height, data).unwrap();
    let pic = image::RgbaImage::from_raw(src.width, src.height, src.data.clone()).unwrap();
    let ok = img.copy_from(&pic, x, y).is_ok();
    canvas.data = img.into_raw();
    ok
}

/// `out` shows `left` and `right` side by side: `left` at the left edge,
/// `right` directly after it, both at full height.
pub open spec fn side_by_side(out: RgbaPixels, left: RgbaPixels, right: RgbaPixels) -> bool {
    &&& out.width == left.width + right.width
    &&& out.height == left.height
    &&& is_rgba(out)
    &&& forall|x: int, y: int, c: int|
        0 <= x < out.width && 0 <= y < out.height && 0 <= c < 4 ==> #[trigger] px(
            out.data@,
            out.width as int,
            x,
            y,
            c,
        ) == if x < left.width {
            px(left.data@, left.width as int, x, y, c)
        } else {
            px(right.data@, right.width as int, x - left.width, y, c)
        }
}

/// Composite two page images side-by-side for two-page spread view.
pub struct Compositor;

impl Compositor {
    /// Height of a two-page spread: that of the taller page, to which both
    /// pages are scaled.
    pub fn spread_height(left_height: u32, right_height: u32) -> (h: u32)
        ensures
            h == if left_height >= right_height {
                left_height
            } else {
                right_height
            },
    {
        if left_height >= right_height {
            left_height
        } else {
            right_height
        }
    }

    /// Places two pages of the same height side by side on one RGBA canvas,
    /// `left` first.
    pub fn join_pages(left: &RgbaPixels, right: &RgbaPixels) -> (r: RgbaPixels)
        requires
            is_rgba(*left),
            is_rgba(*right),
            left.height == right.height,
            left.width + right.width <= u32::MAX,
            (left.width + right.width) * left.height * 4 <= usize::MAX,
        ensures
            side_by_side(r, *left, *right),
    {
        let total_w: u32 = left.width + right.width;
        let h: u32 = left.height;
        let mut canvas = blank_canvas(total_w, h);
        let ghost blank = canvas;
        proof {
            lemma_zero_pixels(blank);
        }
        paste(&mut canvas, left, 0, 0);
        let ghost first = canvas;
        paste(&mut canvas, right, left.width, 0);
        proof {
            assert forall|x: int, y: int, c: int|
                0 <= x < total_w && 0 <= y < h && 0 <= c < 4 implies #[trigger] px(
                canvas.data@,
                total_w as int,
                x,
                y,
                c,
            ) == if x < left.width {
                px(left.data@, left.width as int, x, y, c)
            } else {
                px(right.data@, right.width as int, x - left.width, y, c)
            } by {
                assert(px(first.data@, total_w as int, x, y, c) == if x < left.width {
                    px(left.data@, left.width as int, x, y, c)
                } else {
                    px(blank.data@, total_w as int, x, y, c)
                });
            }
        }
        canvas
    }
}

} // verus!
