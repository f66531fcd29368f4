//! Where the pixels of a row-major image with four bytes per pixel stand.

use vstd::arithmetic::div_mod::lemma_fundamental_div_mod_converse;
use vstd::prelude::*;

verus! {

/// The index of the first byte of pixel `(x, y)` in an image `w` pixels wide.
pub open spec fn pixel_index(w: int, x: int, y: int) -> int {
    (y * w + x) * 4
}

/// The column of the pixel that byte `i` belongs to.
pub open spec fn column(w: int, i: int) -> int {
    (i / 4) % w
}

/// The row of the pixel that byte `i` belongs to.
pub open spec fn row(w: int, i: int) -> int {
    (i / 4) / w
}

/// The image with the colour `c` in every pixel that `f` picks by column and row.
pub open spec fn painted(px: Seq<u8>, w: int, f: spec_fn(int, int) -> bool, c: Seq<u8>) -> Seq<u8> {
    Seq::new(px.len(), |i: int| if f(column(w, i), row(w, i)) { c[i % 4] } else { px[i] })
}

/// The bytes of a pixel are exactly those that carry its column and row.
pub proof fn lemma_pixel_of_byte(w: int, x: int, y: int, i: int)
    requires
        0 <= x < w,
        0 <= y,
        0 <= i,
    ensures
        column(w, i) == x && row(w, i) == y <==> pixel_index(w, x, y) <= i < pixel_index(w, x, y) + 4,
        pixel_index(w, x, y) <= i < pixel_index(w, x, y) + 4 ==> i % 4 == i - pixel_index(w, x, y),
        0 <= column(w, i) < w,
        0 <= row(w, i),
{
    let k = i / 4;
    let q = k / w;
    let r = k % w;
    assert(k == q * w + r && 0 <= r < w && 0 <= q) by (nonlinear_arith)
        requires
            q == k / w,
            r == k % w,
            w > 0,
            k >= 0,
    ;
    if k == y * w + x {
        lemma_fundamental_div_mod_converse(k, w, y, x);
    }
}

/// A byte of an image belongs to one of its rows.
pub proof fn lemma_row_of_byte(w: int, h: int, i: int)
    requires
        0 < w,
        0 <= i < w * h * 4,
    ensures
        0 <= row(w, i) < h,
        0 <= column(w, i) < w,
{
    let k = i / 4;
    let q = k / w;
    let r = k % w;
    assert(k < w * h);
    assert(k == q * w + r && 0 <= r < w && 0 <= q) by (nonlinear_arith)
        requires
            q == k / w,
            r == k % w,
            w > 0,
            k >= 0,
    ;
    assert(q < h) by (nonlinear_arith)
        requires
            q * w + r < w * h,
            r >= 0,
            w > 0,
    ;
}

/// A pixel of the image lies inside the bytes of the image.
pub proof fn lemma_pixel_inside(w: int, h: int, x: int, y: int)
    requires
        0 <= x < w,
        0 <= y < h,
    ensures
        0 <= pixel_index(w, x, y),
        pixel_index(w, x, y) + 4 <= w * h * 4,
        y * w + x < w * h,
        0 <= y * w,
        y * w + w <= w * h,
{
    assert(y * w + w <= w * h) by (nonlinear_arith)
        requires
            0 <= y < h,
            0 < w,
    ;
    assert(0 <= y * w) by (nonlinear_arith)
        requires
            0 <= y,
            0 < w,
    ;
}

/// Different pixels have different bytes.
pub proof fn lemma_pixels_apart(w: int, x1: int, y1: int, x2: int, y2: int)
    requires
        0 <= x1 < w,
        0 <= x2 < w,
        x1 != x2 || y1 != y2,
    ensures
        pixel_index(w, x1, y1) + 4 <= pixel_index(w, x2, y2) || pixel_index(w, x2, y2) + 4 <= pixel_index(w, x1, y1),
{
    if y1 < y2 {
        assert((y1 + 1) * w <= y2 * w) by (nonlinear_arith)
            requires
                y1 < y2,
                0 < w,
        ;
        assert((y1 + 1) * w == y1 * w + w) by (nonlinear_arith);
    } else if y2 < y1 {
        assert((y2 + 1) * w <= y1 * w) by (nonlinear_arith)
            requires
                y2 < y1,
                0 < w,
        ;
        assert((y2 + 1) * w == y2 * w + w) by (nonlinear_arith);
    }
}

/// Writing the colour `c` into one pixel paints that pixel.
pub proof fn lemma_paint_one(px: Seq<u8>, w: int, x: int, y: int, c: Seq<u8>)
    requires
        0 <= x < w,
        0 <= y,
        pixel_index(w, x, y) + 4 <= px.len(),
        c.len() == 4,
    ensures
        0 <= pixel_index(w, x, y),
        px.update(pixel_index(w, x, y), c[0]).update(pixel_index(w, x, y) + 1, c[1]).update(
            pixel_index(w, x, y) + 2,
            c[2],
        ).update(pixel_index(w, x, y) + 3, c[3]) == painted(px, w, |a: int, b: int| a == x && b == y, c),
{
    let p = pixel_index(w, x, y);
    lemma_pixel_inside(w, y + 1, x, y);
    let one = px.update(p, c[0]).update(p + 1, c[1]).update(p + 2, c[2]).update(p + 3, c[3]);
    let all = painted(px, w, |a: int, b: int| a == x && b == y, c);
    assert forall|i: int| 0 <= i < px.len() implies one[i] == all[i] by {
        lemma_pixel_of_byte(w, x, y, i);
    }
    assert(one =~= all);
}

} // verus!
