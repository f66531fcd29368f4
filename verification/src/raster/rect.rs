//! Integer rectangles.

use vstd::prelude::*;

verus! {

/// A half-open rectangle of pixels: `[x0, x1) x [y0, y1)`.
#[derive(Clone, Copy, PartialEq, Eq, Structural, Debug)]
pub struct IRect {
    pub x0: i32,
    pub y0: i32,
    pub x1: i32,
    pub y1: i32,
}

/// A changed region, in pixels.
#[derive(Clone, Copy, PartialEq, Eq, Structural, Debug)]
pub struct DirtyRect {
    pub x: u32,
    pub y: u32,
    pub w: u32,
    pub h: u32,
}

/// `v` moved into `[lo, hi]`.
pub open spec fn clamped(v: int, lo: int, hi: int) -> int {
    if v < lo {
        lo
    } else if v > hi {
        hi
    } else {
        v
    }
}

pub open spec fn smaller(a: i32, b: i32) -> i32 {
    if a < b { a } else { b }
}

pub open spec fn larger(a: i32, b: i32) -> i32 {
    if a > b { a } else { b }
}

/// Moves `v` into `[lo, hi]`.
pub fn clamp_i32(v: i32, lo: i32, hi: i32) -> (r: i32)
    requires
        lo <= hi,
    ensures
        r == clamped(v as int, lo as int, hi as int),
{
    if v < lo {
        lo
    } else if v > hi {
        hi
    } else {
        v
    }
}

/// The smaller of two numbers.
pub fn min_i32(a: i32, b: i32) -> (r: i32)
    ensures
        r == smaller(a, b),
{
    if a < b { a } else { b }
}

/// The larger of two numbers.
pub fn max_i32(a: i32, b: i32) -> (r: i32)
    ensures
        r == larger(a, b),
{
    if a > b { a } else { b }
}

impl IRect {
    /// Whether the rectangle has no pixel.
    pub open spec fn none(self) -> bool {
        self.x0 >= self.x1 || self.y0 >= self.y1
    }

    /// Whether the rectangle has the pixel `(x, y)`.
    pub open spec fn has(self, x: int, y: int) -> bool {
        self.x0 <= x < self.x1 && self.y0 <= y < self.y1
    }

    /// The smallest rectangle around both; an empty one counts for nothing.
    pub open spec fn around(self, o: IRect) -> IRect {
        if self.none() {
            o
        } else if o.none() {
            self
        } else {
            IRect {
                x0: smaller(self.x0, o.x0),
                y0: smaller(self.y0, o.y0),
                x1: larger(self.x1, o.x1),
                y1: larger(self.y1, o.y1),
            }
        }
    }

    /// The rectangle with each edge moved into a screen of `w` by `h` pixels.
    pub open spec fn within(self, w: i32, h: i32) -> IRect {
        IRect {
            x0: clamped(self.x0 as int, 0, w as int) as i32,
            y0: clamped(self.y0 as int, 0, h as int) as i32,
            x1: clamped(self.x1 as int, 0, w as int) as i32,
            y1: clamped(self.y1 as int, 0, h as int) as i32,
        }
    }

    /// Whether the rectangle's edges lie on a screen of `w` by `h` pixels.
    pub open spec fn on_screen(self, w: int, h: int) -> bool {
        0 <= self.x0 <= w && 0 <= self.x1 <= w && 0 <= self.y0 <= h && 0 <= self.y1 <= h
    }

    /// The empty rectangle.
    pub fn empty() -> (r: Self)
        ensures
            r == (IRect { x0: 0, y0: 0, x1: 0, y1: 0 }),
            r.none(),
    {
        IRect { x0: 0, y0: 0, x1: 0, y1: 0 }
    }

    /// Whether the rectangle has no pixel.
    pub fn is_empty(&self) -> (r: bool)
        ensures
            r == self.none(),
    {
        self.x0 >= self.x1 || self.y0 >= self.y1
    }

    /// The smallest rectangle around both.
    pub fn union(self, o: IRect) -> (r: IRect)
        ensures
            r == self.around(o),
    {
        if self.is_empty() {
            return o;
        }
        if o.is_empty() {
            return self;
        }
        IRect {
            x0: min_i32(self.x0, o.x0),
            y0: min_i32(self.y0, o.y0),
            x1: max_i32(self.x1, o.x1),
            y1: max_i32(self.y1, o.y1),
        }
    }

    /// The rectangle with each edge moved into a screen of `w` by `h` pixels.
    pub fn clamp(self, w: i32, h: i32) -> (r: IRect)
        requires
            0 <= w,
            0 <= h,
        ensures
            r == self.within(w, h),
            r.on_screen(w as int, h as int),
    {
        IRect {
            x0: clamp_i32(self.x0, 0, w),
            y0: clamp_i32(self.y0, 0, h),
            x1: clamp_i32(self.x1, 0, w),
            y1: clamp_i32(self.y1, 0, h),
        }
    }
}

/// The union has every pixel of both rectangles.
pub proof fn union_covers(a: IRect, b: IRect, x: int, y: int)
    requires
        a.has(x, y) || b.has(x, y),
    ensures
        a.around(b).has(x, y),
{
}

/// Clamping keeps exactly the pixels that are on the screen.
pub proof fn clamp_keeps_screen_pixels(r: IRect, w: i32, h: i32, x: int, y: int)
    requires
        0 <= w,
        0 <= h,
    ensures
        r.within(w, h).has(x, y) <==> r.has(x, y) && 0 <= x < w && 0 <= y < h,
{
}

} // verus!
