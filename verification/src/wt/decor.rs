//! Plain rectangles and bitmap text in an image of four bytes per pixel.

use vstd::prelude::*;
use crate::pixels::{column, lemma_paint_one, lemma_pixel_inside, lemma_pixel_of_byte, painted, pixel_index, row};

verus! {

/// Distance of a text from the left edge of what it stands in.
pub const TEXT_PAD_X: u32 = 8;

/// The picture of a character: rows of coverages, 0 for none and 255 for full.
pub struct Glyph {
    pub rows: Vec<Vec<u8>>,
}

/// Whether the bytes of pixel `(x, y)` lie in an image of `len` bytes, `w` pixels wide.
pub open spec fn in_image(len: int, w: int, x: int, y: int) -> bool {
    pixel_index(w, x, y) + 4 <= len
}

/// How much of pixel `(x, y)` a character covers whose upper left corner is at `(gx, gy)`.
pub open spec fn coverage(g: Glyph, gx: int, gy: int, x: int, y: int) -> int {
    if 0 <= y - gy < g.rows@.len() && 0 <= x - gx < g.rows@[y - gy]@.len() {
        g.rows@[y - gy]@[x - gx] as int
    } else {
        0
    }
}

/// A byte of the image under a colour of coverage `a`.
pub open spec fn mixed(b: u8, c: u8, a: int) -> u8 {
    ((c * a + b * (255 - a)) / 255) as u8
}

/// The image with the part of a character that `f` picks, by column and row of the image.
pub open spec fn inked(
    px: Seq<u8>,
    w: int,
    h: int,
    g: Glyph,
    gx: int,
    gy: int,
    c: Seq<u8>,
    f: spec_fn(int, int) -> bool,
) -> Seq<u8> {
    Seq::new(
        px.len(),
        |i: int|
            {
                let x = column(w, i);
                let y = row(w, i);
                let a = coverage(g, gx, gy, x, y);
                if 0 <= x < w && 0 <= y < h && a > 0 && f(x, y) && in_image(px.len() as int, w, x, y) {
                    if i % 4 == 3 {
                        255
                    } else {
                        mixed(px[i], c[i % 4], a)
                    }
                } else {
                    px[i]
                }
            },
    )
}

/// The image with a whole character.
pub open spec fn with_glyph(px: Seq<u8>, w: int, h: int, g: Glyph, gx: int, gy: int, c: Seq<u8>) -> Seq<u8> {
    inked(px, w, h, g, gx, gy, c, |x: int, y: int| true)
}

/// The image with the first `n` characters of a text, as far as they end by `max_x`.
pub open spec fn with_text(
    px: Seq<u8>,
    w: int,
    h: int,
    x: int,
    gy: int,
    max_x: int,
    gw: int,
    text: Seq<Glyph>,
    c: Seq<u8>,
    n: int,
) -> Seq<u8>
    decreases n,
{
    if n <= 0 {
        px
    } else {
        let p = with_text(px, w, h, x, gy, max_x, gw, text, c, n - 1);
        if x + n * gw <= max_x {
            with_glyph(p, w, h, text[n - 1], x + (n - 1) * gw, gy, c)
        } else {
            p
        }
    }
}

/// Fills a rectangle, as far as it lies in the image.
pub fn fill_rect(buf: &mut [u8], buf_w: u32, buf_h: u32, x: u32, y: u32, w: u32, h: u32, c: [u8; 4])
    ensures
        final(buf)@ == painted(
            old(buf)@,
            buf_w as int,
            |a: int, b: int|
                x <= a < x + w && a < buf_w && y <= b < y + h && b < buf_h && in_image(
                    old(buf)@.len() as int,
                    buf_w as int,
                    a,
                    b,
                ),
            c@,
        ),
{
    let ghost start = buf@;
    let ghost len = start.len() as int;
    let ghost bw = buf_w as int;
    let pixels: u64 = (buf.len() / 4) as u64;
    let mut ry: u64 = 0;
    assert(buf@ =~= painted(
        start,
        bw,
        |a: int, b: int| x <= a < x + w && a < buf_w && y <= b < y + ry && b < buf_h && in_image(len, bw, a, b),
        c@,
    ));
    while ry < h as u64 && y as u64 + ry < buf_h as u64
        invariant
            ry <= h,
            buf@.len() == len == start.len(),
            bw == buf_w,
            pixels == len / 4,
            ry == 0 || y + ry <= buf_h,
            buf@ == painted(
                start,
                bw,
                |a: int, b: int| x <= a < x + w && a < buf_w && y <= b < y + ry && b < buf_h && in_image(len, bw, a, b),
                c@,
            ),
        decreases h - ry,
    {
        let py: u64 = y as u64 + ry;
        let mut rx: u64 = 0;
        assert(buf@ =~= painted(
            start,
            bw,
            |a: int, b: int|
                x <= a < x + w && a < buf_w && y <= b < y + ry && b < buf_h && in_image(len, bw, a, b) || x <= a < x + rx
                    && b == py && in_image(len, bw, a, b),
            c@,
        ));
        assert(py * buf_w <= 0xffff_ffff * 0xffff_ffff) by (nonlinear_arith)
            requires
                py <= 0xffff_ffff,
                buf_w <= 0xffff_ffff,
        ;
        let row_start: u64 = py * buf_w as u64;
        while rx < w as u64 && x as u64 + rx < buf_w as u64 && row_start + (x as u64 + rx) < pixels
            invariant
                rx <= w,
                ry < h,
                py == y + ry,
                py < buf_h,
                row_start == py * bw,
                row_start <= 0xffff_ffff * 0xffff_ffff,
                buf@.len() == len == start.len(),
                bw == buf_w,
                pixels == len / 4,
                rx == 0 || x + rx <= buf_w,
                buf@ == painted(
                    start,
                    bw,
                    |a: int, b: int|
                        x <= a < x + w && a < buf_w && y <= b < y + ry && b < buf_h && in_image(len, bw, a, b) || x <= a
                            < x + rx && b == py && in_image(len, bw, a, b),
                    c@,
                ),
            decreases w - rx,
        {
            let px: u64 = x as u64 + rx;
            assert(buf.len() == buf@.len());
            let o: usize = ((row_start + px) * 4) as usize;
            proof {
                lemma_paint_one(buf@, bw, px as int, py as int, c@);
                assert(c@[0] == c[0] && c@[1] == c[1] && c@[2] == c[2] && c@[3] == c[3]);
            }
            buf[o] = c[0];
            buf[o + 1] = c[1];
            buf[o + 2] = c[2];
            buf[o + 3] = c[3];
            rx += 1;
            assert(buf@ =~= painted(
                start,
                bw,
                |a: int, b: int|
                    x <= a < x + w && a < buf_w && y <= b < y + ry && b < buf_h && in_image(len, bw, a, b) || x <= a < x + rx
                        && b == py && in_image(len, bw, a, b),
                c@,
            ));
        }
        ry += 1;
        proof {
            let done = painted(
                start,
                bw,
                |a: int, b: int| x <= a < x + w && a < buf_w && y <= b < y + ry && b < buf_h && in_image(len, bw, a, b),
                c@,
            );
            assert forall|i: int| 0 <= i < len implies buf@[i] == done[i] by {
                if bw > 0 {
                    lemma_pixel_of_byte(bw, 0, 0, i);
                }
            }
            assert(buf@ =~= done);
        }
    }
    proof {
        let done = painted(
            start,
            bw,
            |a: int, b: int| x <= a < x + w && a < buf_w && y <= b < y + h && b < buf_h && in_image(len, bw, a, b),
            c@,
        );
        assert(buf@ =~= done);
    }
}

/// The bytes of one pixel under a character's coverage are those of the picked pixel.
proof fn lemma_ink_one(
    start: Seq<u8>,
    now: Seq<u8>,
    w: int,
    h: int,
    g: Glyph,
    gx: int,
    gy: int,
    c: Seq<u8>,
    x: int,
    y: int,
    f: spec_fn(int, int) -> bool,
    f2: spec_fn(int, int) -> bool,
)
    requires
        0 <= x < w,
        0 <= y < h,
        in_image(start.len() as int, w, x, y),
        coverage(g, gx, gy, x, y) > 0,
        !f(x, y),
        forall|a: int, b: int| f2(a, b) == (f(a, b) || a == x && b == y) || coverage(g, gx, gy, a, b) == 0,
        now == inked(start, w, h, g, gx, gy, c, f),
        c.len() == 4,
    ensures
        ({
            let o = pixel_index(w, x, y);
            let k = coverage(g, gx, gy, x, y);
            &&& 0 <= o
            &&& now.update(o, mixed(now[o], c[0], k)).update(o + 1, mixed(now[o + 1], c[1], k)).update(
                o + 2,
                mixed(now[o + 2], c[2], k),
            ).update(o + 3, 255) == inked(start, w, h, g, gx, gy, c, f2)
        }),
{
    let o = pixel_index(w, x, y);
    let k = coverage(g, gx, gy, x, y);
    lemma_pixel_inside(w, y + 1, x, y);
    let next = now.update(o, mixed(now[o], c[0], k)).update(o + 1, mixed(now[o + 1], c[1], k)).update(
        o + 2,
        mixed(now[o + 2], c[2], k),
    ).update(o + 3, 255);
    let want = inked(start, w, h, g, gx, gy, c, f2);
    assert forall|i: int| 0 <= i < start.len() implies next[i] == want[i] by {
        lemma_pixel_of_byte(w, x, y, i);
        let a = column(w, i);
        let b = row(w, i);
        assert(f2(a, b) == (f(a, b) || a == x && b == y) || coverage(g, gx, gy, a, b) == 0);
    }
    assert(next =~= want);
}

proof fn lemma_mixed_fits(b: u8, c: u8, a: u8)
    ensures
        0 <= c * a + b * (255 - a) <= 255 * 255,
        0 <= c * a <= 255 * 255,
        0 <= b * (255 - a) <= 255 * 255,
{
    assert(0 <= c * a <= 255 * a) by (nonlinear_arith)
        requires
            0 <= c <= 255,
            0 <= a,
    ;
    assert(0 <= b * (255 - a) <= 255 * (255 - a)) by (nonlinear_arith)
        requires
            0 <= b <= 255,
            0 <= 255 - a,
    ;
}

fn mix(b: u8, c: u8, a: u8) -> (r: u8)
    ensures
        r == mixed(b, c, a as int),
{
    proof {
        lemma_mixed_fits(b, c, a);
    }
    let inv: u8 = 255 - a;
    ((c as u32 * a as u32 + b as u32 * inv as u32) / 255) as u8
}

/// Draws a character, as far as it lies in the image.
pub fn blend_glyph(buf: &mut [u8], buf_w: u32, buf_h: u32, gx: i32, gy: i32, g: &Glyph, c: [u8; 4])
    requires
        buf_w <= i32::MAX,
        buf_h <= i32::MAX,
        g.rows@.len() <= i32::MAX,
        gy + g.rows@.len() <= i32::MAX,
        forall|k: int|
            0 <= k < g.rows@.len() ==> (#[trigger] g.rows@[k])@.len() <= i32::MAX && gx + g.rows@[k]@.len() <= i32::MAX,
    ensures
        final(buf)@ == with_glyph(old(buf)@, buf_w as int, buf_h as int, *g, gx as int, gy as int, c@),
{
    let ghost start = buf@;
    let ghost w = buf_w as int;
    let ghost h = buf_h as int;
    let pixels: u64 = (buf.len() / 4) as u64;
    let mut ry: usize = 0;
    assert(buf@ =~= inked(start, w, h, *g, gx as int, gy as int, c@, |x: int, y: int| y < gy + ry));
    while ry < g.rows.len()
        invariant
            ry <= g.rows@.len(),
            buf@.len() == start.len(),
            w == buf_w,
            h == buf_h,
            buf_w <= i32::MAX,
            buf_h <= i32::MAX,
            pixels == start.len() as int / 4,
            g.rows@.len() <= i32::MAX,
            gy + g.rows@.len() <= i32::MAX,
            forall|k: int|
                0 <= k < g.rows@.len() ==> (#[trigger] g.rows@[k])@.len() <= i32::MAX && gx + g.rows@[k]@.len()
                    <= i32::MAX,
            buf@ == inked(start, w, h, *g, gx as int, gy as int, c@, |x: int, y: int| y < gy + ry),
        decreases g.rows@.len() - ry,
    {
        let line: &Vec<u8> = &g.rows[ry];
        let py: i32 = gy + ry as i32;
        if 0 <= py && py < buf_h as i32 {
            let mut rx: usize = 0;
            assert(buf@ =~= inked(
                start,
                w,
                h,
                *g,
                gx as int,
                gy as int,
                c@,
                |x: int, y: int| y < py || y == py && x < gx + rx,
            ));
            assert(gx + g.rows@[ry as int]@.len() <= i32::MAX);
            while rx < line.len()
                invariant
                    rx <= line@.len(),
                    ry < g.rows@.len(),
                    *line == g.rows@[ry as int],
                    line@.len() <= i32::MAX,
                    gx + line@.len() <= i32::MAX,
                    buf@.len() == start.len(),
                    w == buf_w,
                    h == buf_h,
                    buf_w <= i32::MAX,
                    buf_h <= i32::MAX,
                    pixels == start.len() as int / 4,
                    py == gy + ry,
                    0 <= py < h,
                    buf@ == inked(
                        start,
                        w,
                        h,
                        *g,
                        gx as int,
                        gy as int,
                        c@,
                        |x: int, y: int| y < py || y == py && x < gx + rx,
                    ),
                decreases line@.len() - rx,
            {
                let a: u8 = line[rx];
                let px: i32 = gx + rx as i32;
                let ghost f = |x: int, y: int| y < py || y == py && x < gx + rx;
                let ghost f2 = |x: int, y: int| y < py || y == py && x < gx + rx + 1;
                assert(coverage(*g, gx as int, gy as int, px as int, py as int) == a);
                let mut drawn: bool = false;
                if a != 0 && 0 <= px && px < buf_w as i32 {
                    assert(py * buf_w <= 0x7fff_ffff * 0x7fff_ffff) by (nonlinear_arith)
                        requires
                            0 <= py <= 0x7fff_ffff,
                            0 <= buf_w <= 0x7fff_ffff,
                    ;
                    assert(0 <= py * buf_w) by (nonlinear_arith)
                        requires
                            0 <= py,
                            0 <= buf_w,
                    ;
                    let k: u64 = py as u64 * buf_w as u64 + px as u64;
                    if k < pixels {
                        drawn = true;
                        assert(buf.len() == buf@.len());
                        let o: usize = (k * 4) as usize;
                        assert(o == pixel_index(w, px as int, py as int));
                        proof {
                            lemma_ink_one(start, buf@, w, h, *g, gx as int, gy as int, c@, px as int, py as int, f, f2);
                            assert(c@[0] == c[0] && c@[1] == c[1] && c@[2] == c[2] && c@[3] == c[3]);
                        }
                        buf[o] = mix(buf[o], c[0], a);
                        buf[o + 1] = mix(buf[o + 1], c[1], a);
                        buf[o + 2] = mix(buf[o + 2], c[2], a);
                        buf[o + 3] = 0xFF;
                    }
                }
                if !drawn {
                    assert(buf@ =~= inked(start, w, h, *g, gx as int, gy as int, c@, f2));
                }
                rx += 1;
                assert(buf@ =~= inked(
                    start,
                    w,
                    h,
                    *g,
                    gx as int,
                    gy as int,
                    c@,
                    |x: int, y: int| y < py || y == py && x < gx + rx,
                ));
            }
        }
        ry += 1;
        assert(buf@ =~= inked(start, w, h, *g, gx as int, gy as int, c@, |x: int, y: int| y < gy + ry));
    }
    assert(buf@ =~= with_glyph(start, w, h, *g, gx as int, gy as int, c@));
}

/// The row at which a text begins that stands in the middle of the image, `y` rows down.
pub open spec fn text_row(buf_h: u32, y: u32, glyph_h: u32) -> int {
    y + if buf_h >= glyph_h { (buf_h - glyph_h) / 2 } else { 0 }
}

/// Draws a text from `x` on, one character `glyph_w` behind the other, up to `max_x`. The
/// text is in the middle of the image, `y` rows down.
pub fn draw_text(
    buf: &mut [u8],
    buf_w: u32,
    buf_h: u32,
    x: u32,
    y: u32,
    max_x: u32,
    glyph_w: u32,
    glyph_h: u32,
    text: &Vec<Glyph>,
    c: [u8; 4],
)
    requires
        buf_w <= i32::MAX,
        buf_h <= i32::MAX,
        forall|k: int|
            0 <= k < text@.len() ==> text_row(buf_h, y, glyph_h) + (#[trigger] text@[k]).rows@.len() <= i32::MAX,
        text_row(buf_h, y, glyph_h) <= i32::MAX,
        forall|k: int, j: int|
            0 <= k < text@.len() && 0 <= j < text@[k].rows@.len() ==> max_x + (#[trigger] text@[k].rows@[j])@.len()
                <= i32::MAX,
        max_x <= i32::MAX,
    ensures
        final(buf)@ == with_text(
            old(buf)@,
            buf_w as int,
            buf_h as int,
            x as int,
            text_row(buf_h, y, glyph_h),
            max_x as int,
            glyph_w as int,
            text@,
            c@,
            text@.len() as int,
        ),
{
    let drop: u32 = if buf_h >= glyph_h { (buf_h - glyph_h) / 2 } else { 0 };
    let gy: i32 = (y + drop) as i32;
    let ghost start = buf@;
    let mut pen: u64 = x as u64;
    let mut k: usize = 0;
    while k < text.len() && pen + glyph_w as u64 <= max_x as u64
        invariant
            k <= text@.len(),
            gy == text_row(buf_h, y, glyph_h),
            buf_w <= i32::MAX,
            buf_h <= i32::MAX,
            max_x <= i32::MAX,
            forall|k: int|
                0 <= k < text@.len() ==> text_row(buf_h, y, glyph_h) + (#[trigger] text@[k]).rows@.len() <= i32::MAX,
            forall|k: int, j: int|
                0 <= k < text@.len() && 0 <= j < text@[k].rows@.len() ==> max_x + (#[trigger] text@[k].rows@[j])@.len()
                    <= i32::MAX,
            pen == x + k * glyph_w,
            pen <= max_x || pen == x,
            buf@ == with_text(
                start,
                buf_w as int,
                buf_h as int,
                x as int,
                gy as int,
                max_x as int,
                glyph_w as int,
                text@,
                c@,
                k as int,
            ),
        decreases text@.len() - k,
    {
        assert((k + 1) * glyph_w == k * glyph_w + glyph_w) by (nonlinear_arith);
        blend_glyph(buf, buf_w, buf_h, pen as i32, gy, &text[k], c);
        pen += glyph_w as u64;
        k += 1;
    }
    proof {
        lemma_text_ends(
            start,
            buf_w as int,
            buf_h as int,
            x as int,
            gy as int,
            max_x as int,
            glyph_w as int,
            text@,
            c@,
            k as int,
            text@.len() as int,
        );
    }
}

/// Behind the first character that does not end by `max_x` nothing is drawn.
proof fn lemma_text_ends(
    px: Seq<u8>,
    w: int,
    h: int,
    x: int,
    gy: int,
    max_x: int,
    gw: int,
    text: Seq<Glyph>,
    c: Seq<u8>,
    k: int,
    n: int,
)
    requires
        0 <= k <= n,
        0 <= gw,
        k < n ==> x + k * gw + gw > max_x,
    ensures
        with_text(px, w, h, x, gy, max_x, gw, text, c, n) == with_text(px, w, h, x, gy, max_x, gw, text, c, k),
    decreases n - k,
{
    if k < n {
        if k < n - 1 {
            lemma_text_ends(px, w, h, x, gy, max_x, gw, text, c, k, n - 1);
        }
        assert(n * gw >= k * gw + gw) by (nonlinear_arith)
            requires
                n >= k + 1,
                gw >= 0,
        ;
    }
}

} // verus!
