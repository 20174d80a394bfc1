use vstd::prelude::*;

use crate::pixels::{is_rgba, lemma_same_pixels, px, RgbaPixels};
use crate::types::Rotation;

verus! {

/// `out` is `inp` turned a quarter turn clockwise: the left column of `inp`
/// becomes the top row of `out`, read bottom to top.
pub open spec fn turned_quarter(out: RgbaPixels, inp: RgbaPixels) -> bool {
    &&& out.width == inp.height
    &&& out.height == inp.width
    &&& is_rgba(out)
    &&& forall|x: int, y: int, c: int|
        0 <= x < out.width && 0 <= y < out.height && 0 <= c < 4 ==> #[trigger] px(
            out.data@,
            out.width as int,
            x,
            y,
            c,
        ) == px(inp.data@, inp.width as int, y, inp.height - 1 - x, c)
}

/// `out` is `inp` turned half a turn.
pub open spec fn turned_half(out: RgbaPixels, inp: RgbaPixels) -> bool {
    &&& out.width == inp.width
    &&& out.height == inp.height
    &&& is_rgba(out)
    &&& forall|x: int, y: int, c: int|
        0 <= x < out.width && 0 <= y < out.height && 0 <= c < 4 ==> #[trigger] px(
            out.data@,
            out.width as int,
            x,
            y,
            c,
        ) == px(inp.data@, inp.width as int, inp.width - 1 - x, inp.height - 1 - y, c)
}

/// `out` is `inp` turned three quarter turns clockwise (a quarter turn
/// counter-clockwise): the top row of `inp` becomes the left column of `out`,
/// read bottom to top.
pub open spec fn turned_three_quarters(out: RgbaPixels, inp: RgbaPixels) -> bool {
    &&& out.width == inp.height
    &&& out.height == inp.width
    &&& is_rgba(out)
    &&& forall|x: int, y: int, c: int|
        0 <= x < out.width && 0 <= y < out.height && 0 <= c < 4 ==> #[trigger] px(
            out.data@,
            out.width as int,
            x,
            y,
            c,
        ) == px(inp.data@, inp.width as int, inp.width - 1 - y, x, c)
}

/// `out` is `inp` rotated by `r`.
pub open spec fn rotated(out: RgbaPixels, inp: RgbaPixels, r: Rotation) -> bool {
    match r {
        Rotation::R0 => out == inp,
        Rotation::R90 => turned_quarter(out, inp),
        Rotation::R180 => turned_half(out, inp),
        Rotation::R270 => turned_three_quarters(out, inp),
    }
}

/// Calls `image::imageops::rotate90` on the image whose raw RGBA buffer is
/// `p`.  As its source shows, the result is `height` wide and `width` high
/// and the pixel at `(x, y)` goes to `(height - 1 - y, x)`.
#[verifier::external_body]
fn quarter_turn(p: &RgbaPixels) -> (r: RgbaPixels)
    requires
        is_rgba(*p),
    ensures
        turned_quarter(r, *p),
{
    let img = image::RgbaImage::from_raw(p.width, p.height, p.data.clone()).unwrap();
    let out = image::imageops::rotate90(&img);
    RgbaPixels { width: out.width(), height: out.height(), data: out.into_raw() }
}

/// Calls `image::imageops::rotate180` on the image whose raw RGBA buffer is
/// `p`.  As its source shows, the size stays and the pixel at `(x, y)` goes
/// to `(width - 1 - x, height - 1 - y)`.
#[verifier::external_body]
fn half_turn(p: &RgbaPixels) -> (r: RgbaPixels)
    requires
        is_rgba(*p),
    ensures
        turned_half(r, *p),
{
    let img = image::RgbaImage::from_raw(p.width, p.height, p.data.clone()).unwrap();
    let out = image::imageops::rotate180(&img);
    RgbaPixels { width: out.width(), height: out.height(), data: out.into_raw() }
}

/// Calls `image::imageops::rotate270` on the image whose raw RGBA buffer is
/// `p`.  As its source shows, the result is `height` wide and `width` high
/// and the pixel at `(x, y)` goes to `(y, width - 1 - x)`.
#[verifier::external_body]
fn three_quarter_turn(p: &RgbaPixels) -> (r: RgbaPixels)
    requires
        is_rgba(*p),
    ensures
        turned_three_quarters(r, *p),
{
    let img = image::RgbaImage::from_raw(p.width, p.height, p.data.clone()).unwrap();
    let out = image::imageops::rotate270(&img);
    RgbaPixels { width: out.width(), height: out.height(), data: out.into_raw() }
}

/// Apply rotation to an image.
///
/// `R90` rotates 90° clockwise; `R270` rotates 90° counter-clockwise
/// (equivalently 270° clockwise).
pub fn apply_rotation(img: RgbaPixels, rotation: Rotation) -> (r: RgbaPixels)
    requires
        is_rgba(img),
    ensures
        is_rgba(r),
        rotated(r, img, rotation),
{
    match rotation {
        Rotation::R0 => img,
        Rotation::R90 => quarter_turn(&img),
        Rotation::R180 => half_turn(&img),
        Rotation::R270 => three_quarter_turn(&img),
    }
}

/// A quarter turn clockwise followed by a quarter turn counter-clockwise
/// gives back the original image.
pub proof fn law_quarter_turns_undo(p: RgbaPixels, a: RgbaPixels, b: RgbaPixels)
    requires
        is_rgba(p),
        rotated(a, p, Rotation::R90),
        rotated(b, a, Rotation::R270),
    ensures
        b.width == p.width,
        b.height == p.height,
        b.data@ == p.data@,
{
    assert forall|x: int, y: int, c: int|
        0 <= x < b.width && 0 <= y < b.height && 0 <= c < 4 implies #[trigger] px(
        b.data@,
        b.width as int,
        x,
        y,
        c,
    ) == px(p.data@, p.width as int, x, y, c) by {
        assert(px(b.data@, b.width as int, x, y, c) == px(
            a.data@,
            a.width as int,
            a.width - 1 - y,
            x,
            c,
        ));
        assert(px(a.data@, a.width as int, a.width - 1 - y, x, c) == px(
            p.data@,
            p.width as int,
            x,
            p.height - 1 - (a.width - 1 - y),
            c,
        ));
    }
    lemma_same_pixels(b, p);
}

/// Two half turns give back the original image.
pub proof fn law_half_turns_undo(p: RgbaPixels, a: RgbaPixels, b: RgbaPixels)
    requires
        is_rgba(p),
        rotated(a, p, Rotation::R180),
        rotated(b, a, Rotation::R180),
    ensures
        b.width == p.width,
        b.height == p.height,
        b.data@ == p.data@,
{
    assert forall|x: int, y: int, c: int|
        0 <= x < b.width && 0 <= y < b.height && 0 <= c < 4 implies #[trigger] px(
        b.data@,
        b.width as int,
        x,
        y,
        c,
    ) == px(p.data@, p.width as int, x, y, c) by {
        assert(px(b.data@, b.width as int, x, y, c) == px(
            a.data@,
            a.width as int,
            a.width - 1 - x,
            a.height - 1 - y,
            c,
        ));
    }
    lemma_same_pixels(b, p);
}


/// Two quarter turns clockwise make a half turn.
pub proof fn law_two_quarter_turns_make_half(p: RgbaPixels, a: RgbaPixels, b: RgbaPixels, h: RgbaPixels)
    requires
        is_rgba(p),
        rotated(a, p, Rotation::R90),
        rotated(b, a, Rotation::R90),
        rotated(h, p, Rotation::R180),
    ensures
        b.width == h.width,
        b.height == h.height,
        b.data@ == h.data@,
{
    assert forall|x: int, y: int, c: int|
        0 <= x < b.width && 0 <= y < b.height && 0 <= c < 4 implies #[trigger] px(
        b.data@,
        b.width as int,
        x,
        y,
        c,
    ) == px(h.data@, h.width as int, x, y, c) by {
        assert(px(b.data@, b.width as int, x, y, c) == px(
            a.data@,
            a.width as int,
            y,
            a.height - 1 - x,
            c,
        ));
        assert(px(a.data@, a.width as int, y, a.height - 1 - x, c) == px(
            p.data@,
            p.width as int,
            a.height - 1 - x,
            p.height - 1 - y,
            c,
        ));
        assert(px(h.data@, h.width as int, x, y, c) == px(
            p.data@,
            p.width as int,
            p.width - 1 - x,
            p.height - 1 - y,
            c,
        ));
    }
    lemma_same_pixels(b, h);
}

/// A turn by `R270` (a quarter turn counter-clockwise) is the same as three
/// quarter turns clockwise.
pub proof fn law_three_quarter_turns(
    p: RgbaPixels,
    a: RgbaPixels,
    b: RgbaPixels,
    c3: RgbaPixels,
    t: RgbaPixels,
)
    requires
        is_rgba(p),
        rotated(a, p, Rotation::R90),
        rotated(b, a, Rotation::R90),
        rotated(c3, b, Rotation::R90),
        rotated(t, p, Rotation::R270),
    ensures
        c3.width == t.width,
        c3.height == t.height,
        c3.data@ == t.data@,
{
    assert forall|x: int, y: int, c: int|
        0 <= x < c3.width && 0 <= y < c3.height && 0 <= c < 4 implies #[trigger] px(
        c3.data@,
        c3.width as int,
        x,
        y,
        c,
    ) == px(t.data@, t.width as int, x, y, c) by {
        assert(px(c3.data@, c3.width as int, x, y, c) == px(
            b.data@,
            b.width as int,
            y,
            b.height - 1 - x,
            c,
        ));
        assert(px(b.data@, b.width as int, y, b.height - 1 - x, c) == px(
            a.data@,
            a.width as int,
            b.height - 1 - x,
            a.height - 1 - y,
            c,
        ));
        assert(px(a.data@, a.width as int, b.height - 1 - x, a.height - 1 - y, c) == px(
            p.data@,
            p.width as int,
            a.height - 1 - y,
            p.height - 1 - (b.height - 1 - x),
            c,
        ));
        assert(px(t.data@, t.width as int, x, y, c) == px(
            p.data@,
            p.width as int,
            p.width - 1 - y,
            x,
            c,
        ));
    }
    lemma_same_pixels(c3, t);
}

} // verus!
