//! A horizontal band of the canvas.

use vstd::prelude::*;
use crate::pixels::{lemma_paint_one, lemma_pixel_inside, lemma_row_of_byte, painted, pixel_index};
use crate::raster::rect::{max_i32, min_i32};

verus! {

/// A mutable view of the canvas rows `[y0, y1)`, `width` pixels per row, four bytes per
/// pixel. Coordinates are those of the whole screen. Two bands with disjoint rows never
/// share a byte.
pub struct Band<'a> {
    pub px: &'a mut [u8],
    pub width: i32,
    pub y0: i32,
    pub y1: i32,
}

impl<'a> Band<'a> {
    /// The bytes of the rows.
    pub open spec fn bytes(&self) -> Seq<u8> {
        self.px@
    }

    /// The bytes cover the rows exactly, and every byte index fits the index type.
    pub open spec fn wf(&self) -> bool {
        &&& 0 < self.width
        &&& 0 <= self.y0 <= self.y1
        &&& self.bytes().len() == self.width * (self.y1 - self.y0) * 4
        &&& self.bytes().len() <= i32::MAX
    }

    /// Whether the band holds the pixel `(x, y)` of the screen.
    pub open spec fn holds(&self, x: int, y: int) -> bool {
        0 <= x < self.width && self.y0 <= y < self.y1
    }

    /// The index of the first byte of pixel `(x, y)` of the screen.
    pub open spec fn index(&self, x: int, y: int) -> int {
        pixel_index(self.width as int, x, y - self.y0)
    }

    /// The four bytes of a pixel.
    pub fn get(&self, x: i32, y: i32) -> (r: [u8; 4])
        requires
            self.wf(),
            self.holds(x as int, y as int),
        ensures
            r@ == self.bytes().subrange(self.index(x as int, y as int), self.index(x as int, y as int) + 4),
    {
        proof {
            lemma_pixel_inside(self.width as int, self.y1 - self.y0, x as int, y - self.y0);
        }
        let i: usize = (((y - self.y0) * self.width + x) * 4) as usize;
        let r: [u8; 4] = [self.px[i], self.px[i + 1], self.px[i + 2], self.px[i + 3]];
        assert(r@ =~= self.bytes().subrange(i as int, i + 4));
        r
    }

    /// Sets the four bytes of a pixel and nothing else.
    pub fn put(&mut self, x: i32, y: i32, c: [u8; 4])
        requires
            old(self).wf(),
            old(self).holds(x as int, y as int),
        ensures
            final(self).wf(),
            final(self).width == old(self).width,
            final(self).y0 == old(self).y0,
            final(self).y1 == old(self).y1,
            final(final(self).px)@ == final(old(self).px)@,
            final(self).bytes() == painted(
                old(self).bytes(),
                old(self).width as int,
                |a: int, b: int| a == x && b == y - old(self).y0,
                c@,
            ),
    {
        proof {
            lemma_pixel_inside(self.width as int, self.y1 - self.y0, x as int, y - self.y0);
        }
        let i: usize = (((y - self.y0) * self.width + x) * 4) as usize;
        proof {
            lemma_paint_one(self.bytes(), self.width as int, x as int, y - self.y0, c@);
            assert(c@[0] == c[0] && c@[1] == c[1] && c@[2] == c[2] && c@[3] == c[3]);
        }
        self.px[i] = c[0];
        self.px[i + 1] = c[1];
        self.px[i + 2] = c[2];
        self.px[i + 3] = c[3];
    }
}

/// Fills the pixels of `rect` that lie in the band's rows with one colour. The
/// rectangle's columns lie on the screen.
pub fn fill_rect(band: &mut Band, rect: (i32, i32, i32, i32), rgba: [u8; 4])
    requires
        old(band).wf(),
        0 <= rect.0,
        rect.2 <= old(band).width,
    ensures
        final(band).wf(),
        final(band).width == old(band).width,
        final(band).y0 == old(band).y0,
        final(band).y1 == old(band).y1,
        final(final(band).px)@ == final(old(band).px)@,
        final(band).bytes() == painted(
            old(band).bytes(),
            old(band).width as int,
            |a: int, b: int| rect.0 <= a < rect.2 && rect.1 <= b + old(band).y0 < rect.3,
            rgba@,
        ),
{
    let (x0, top, x1, bottom) = rect;
    let y0: i32 = max_i32(top, band.y0);
    let y1: i32 = min_i32(bottom, band.y1);
    let ghost start = band.bytes();
    let ghost w = band.width as int;
    let ghost by = band.y0 as int;
    let mut y: i32 = y0;
    assert(band.bytes() =~= painted(start, w, |a: int, b: int| x0 <= a < x1 && y0 <= b + by < y, rgba@));
    while y < y1
        invariant
            band.wf(),
            band.width == w,
            band.y0 == by,
            band.y1 == old(band).y1,
            final(band.px)@ == final(old(band).px)@,
            by <= y0 <= y,
            y1 <= band.y1,
            0 <= x0,
            x1 <= w,
            y <= y1 || y == y0,
            band.bytes() == painted(start, w, |a: int, b: int| x0 <= a < x1 && y0 <= b + by < y, rgba@),
        decreases y1 - y,
    {
        let mut x: i32 = x0;
        assert(band.bytes() =~= painted(
            start,
            w,
            |a: int, b: int| x0 <= a < x1 && y0 <= b + by < y || x0 <= a < x && b + by == y,
            rgba@,
        ));
        while x < x1
            invariant
                band.wf(),
                band.width == w,
                band.y0 == by,
                band.y1 == old(band).y1,
                final(band.px)@ == final(old(band).px)@,
                by <= y0 <= y < y1 <= band.y1,
                0 <= x0 <= x,
                x <= x1 <= w || x == x0,
                x1 <= w,
                band.bytes() == painted(
                    start,
                    w,
                    |a: int, b: int| x0 <= a < x1 && y0 <= b + by < y || x0 <= a < x && b + by == y,
                    rgba@,
                ),
            decreases x1 - x,
        {
            band.put(x, y, rgba);
            x += 1;
            assert(band.bytes() =~= painted(
                start,
                w,
                |a: int, b: int| x0 <= a < x1 && y0 <= b + by < y || x0 <= a < x && b + by == y,
                rgba@,
            ));
        }
        y += 1;
        assert(band.bytes() =~= painted(start, w, |a: int, b: int| x0 <= a < x1 && y0 <= b + by < y, rgba@));
    }
    proof {
        let done = painted(
            start,
            w,
            |a: int, b: int| rect.0 <= a < rect.2 && rect.1 <= b + by < rect.3,
            rgba@,
        );
        assert forall|i: int| 0 <= i < start.len() implies band.bytes()[i] == done[i] by {
            lemma_row_of_byte(w, band.y1 - by, i);
        }
        assert(band.bytes() =~= done);
    }
}

} // verus!
