//! The compositing kernel, shared by the serial path and the bands that run in parallel.
//!
//! The back buffer is RGBX, row by row, `stride` bytes per row. Windows are painted from
//! back to front; each is opaque. What a pixel becomes depends on the windows alone, not
//! on the band that it is painted in.

use vstd::arithmetic::div_mod::lemma_fundamental_div_mod_converse;
use vstd::prelude::*;
use crate::bytes::le32;

verus! {

/// A window as the kernel sees it: its RGBA pixels, its place on the screen and whether it
/// casts a shadow.
#[derive(Clone, Copy)]
pub struct WinDesc<'a> {
    pub px: &'a [u8],
    pub x: u32,
    pub y: u32,
    pub w: u32,
    pub h: u32,
    pub shadow: bool,
}

/// How far the shadow fades outward, in pixels.
pub const SHADOW_R: usize = 10;

/// How far the shadow is moved right, in pixels.
pub const SHADOW_DX: i32 = 4;

/// How far the shadow is moved down, in pixels.
pub const SHADOW_DY: i32 = 6;

/// The opacity of the shadow where it is darkest, out of 255.
pub const SHADOW_MAX: u32 = 70;

/// `255 * (1 - d / R)^3`, rounded to the nearest integer.
pub open spec fn falloff(d: int) -> int {
    let k = SHADOW_R - d;
    (255 * (k * k * k) + 500) / 1000
}

/// The opacity of the shadow `dx` and `dy` pixels outside its rectangle.
pub open spec fn alpha(dx: int, dy: int) -> int {
    if dx > SHADOW_R || dy > SHADOW_R {
        0
    } else {
        (SHADOW_MAX * falloff(dx) * falloff(dy)) / 65025
    }
}

/// How far `v` lies outside `[lo, hi)`; zero inside.
pub open spec fn outside(v: int, lo: int, hi: int) -> int {
    if v < lo {
        lo - v
    } else if v >= hi {
        v - hi + 1
    } else {
        0
    }
}

/// The opacity of a window's shadow at pixel `(x, y)`: none under the window itself.
pub open spec fn shadow_at(win: WinDesc, x: int, y: int) -> int {
    if !win.shadow || win.w == 0 || win.h == 0 {
        0
    } else if win.x <= x < win.x + win.w && win.y <= y < win.y + win.h {
        0
    } else {
        alpha(
            outside(x, win.x + SHADOW_DX, win.x + SHADOW_DX + win.w),
            outside(y, win.y + SHADOW_DY, win.y + SHADOW_DY + win.h),
        )
    }
}

/// A colour byte under a shadow of opacity `a`: darkened toward black.
pub open spec fn darkened(b: u8, a: int) -> u8 {
    ((b * (255 - a)) / 255) as u8
}

/// How many columns of a window are on a screen of `sw` columns.
pub open spec fn visible_columns(win: WinDesc, sw: int) -> int {
    if win.x >= sw {
        0
    } else if win.w < sw - win.x {
        win.w as int
    } else {
        sw - win.x
    }
}

/// Whether the window paints pixel `(x, y)` of a screen of `sw` columns: a row is painted
/// only where the window has all of its visible bytes.
pub open spec fn paints(win: WinDesc, sw: int, x: int, y: int) -> bool {
    &&& win.y <= y < win.y + win.h
    &&& win.x <= x < win.x + visible_columns(win, sw)
    &&& (y - win.y) * (win.w * 4) + visible_columns(win, sw) * 4 <= win.px@.len()
}

/// The byte `c` of pixel `(x, y)` after the first `n` windows were painted over a screen
/// of the colour `bg`.
pub open spec fn composed(wins: Seq<WinDesc>, n: int, bg: u32, sw: int, x: int, y: int, c: int) -> u8
    decreases n,
{
    if n <= 0 {
        le32(bg)[c]
    } else {
        let win = wins[n - 1];
        let below = composed(wins, n - 1, bg, sw, x, y, c);
        if paints(win, sw, x, y) {
            win.px@[(y - win.y) * (win.w * 4) + (x - win.x) * 4 + c]
        } else if c < 3 && shadow_at(win, x, y) != 0 {
            darkened(below, shadow_at(win, x, y))
        } else {
            below
        }
    }
}

/// The buffer with `f` applied to the bytes that `pick` picks, both by row and by offset in
/// the row.
pub open spec fn edited(
    back: Seq<u8>,
    stride: int,
    pick: spec_fn(int, int) -> bool,
    f: spec_fn(int, int, u8) -> u8,
) -> Seq<u8> {
    Seq::new(
        back.len(),
        |i: int| if pick(i / stride, i % stride) { f(i / stride, i % stride, back[i]) } else { back[i] },
    )
}

/// The buffer after the rows `[y0, y1)` of a screen of `sw` columns were composed.
pub open spec fn composed_band(back: Seq<u8>, stride: int, sw: int, y0: int, y1: int, bg: u32, wins: Seq<WinDesc>) -> Seq<
    u8,
> {
    edited(
        back,
        stride,
        |row: int, off: int| y0 <= row < y1 && off < sw * 4,
        |row: int, off: int, b: u8| composed(wins, wins.len() as int, bg, sw, off / 4, row, off % 4),
    )
}

/// The limits within which a window's shadow can be computed.
pub open spec fn shadow_in_range(win: WinDesc) -> bool {
    win.x + win.w + 24 <= i32::MAX && win.y + win.h + 24 <= i32::MAX
}

proof fn lemma_place(stride: int, row: int, off: int)
    requires
        0 <= off < stride,
        0 <= row,
    ensures
        (row * stride + off) / stride == row,
        (row * stride + off) % stride == off,
        0 <= row * stride,
{
    lemma_fundamental_div_mod_converse(row * stride + off, stride, row, off);
    assert(0 <= row * stride) by (nonlinear_arith)
        requires
            0 <= row,
            0 < stride,
    ;
}

proof fn lemma_split(stride: int, i: int)
    requires
        0 < stride,
        0 <= i,
    ensures
        i == (i / stride) * stride + i % stride,
        0 <= i % stride < stride,
        0 <= i / stride,
{
    let q = i / stride;
    let r = i % stride;
    assert(i == q * stride + r && 0 <= r < stride && 0 <= q) by (nonlinear_arith)
        requires
            q == i / stride,
            r == i % stride,
            stride > 0,
            i >= 0,
    ;
}

proof fn lemma_row_inside(len: int, stride: int, rows: int, row: int, off: int)
    requires
        0 <= row < rows,
        0 <= off < stride,
        rows * stride <= len,
    ensures
        0 <= row * stride,
        row * stride + off < len,
        row * stride + stride <= len,
{
    assert(row * stride + stride <= rows * stride) by (nonlinear_arith)
        requires
            0 <= row < rows,
            0 < stride,
    ;
    lemma_place(stride, row, off);
}

/// One more byte of a row edited.
proof fn lemma_edit_one(
    start: Seq<u8>,
    stride: int,
    pick: spec_fn(int, int) -> bool,
    more: spec_fn(int, int) -> bool,
    f: spec_fn(int, int, u8) -> u8,
    row: int,
    off: int,
)
    requires
        0 <= off < stride,
        0 <= row,
        row * stride + off < start.len(),
        !pick(row, off),
        forall|r: int, o: int| #[trigger] more(r, o) <==> (pick(r, o) || r == row && o == off),
    ensures
        edited(start, stride, pick, f)[row * stride + off] == start[row * stride + off],
        edited(start, stride, pick, f).update(row * stride + off, f(row, off, start[row * stride + off])) == edited(
            start,
            stride,
            more,
            f,
        ),
{
    lemma_place(stride, row, off);
    let k = row * stride + off;
    let one = edited(start, stride, pick, f).update(k, f(row, off, start[k]));
    let all = edited(start, stride, more, f);
    assert forall|i: int| 0 <= i < start.len() implies one[i] == all[i] by {
        lemma_split(stride, i);
    }
    assert(one =~= all);
}

/// The opacity falls off to both sides.
pub proof fn falloff_is_monotone(d: int)
    requires
        0 <= d < SHADOW_R,
    ensures
        0 <= falloff(d + 1) <= falloff(d) <= 255,
        falloff(0) == 255,
        falloff(SHADOW_R as int) == 0,
{
    let k = SHADOW_R - d;
    let j = k - 1;
    assert(k * k * k <= 1000) by (nonlinear_arith)
        requires
            0 <= k <= 10,
    ;
    assert(0 <= j * j * j <= k * k * k) by (nonlinear_arith)
        requires
            j == k - 1,
            1 <= k <= 10,
    ;
}

fn falloff_u32(d: usize) -> (r: u32)
    requires
        d <= SHADOW_R,
    ensures
        r == falloff(d as int),
        r <= 255,
{
    let k: u32 = (SHADOW_R - d) as u32;
    assert(0 <= k * k <= 100) by (nonlinear_arith)
        requires
            0 <= k <= 10,
    ;
    assert(0 <= k * k * k <= 1000) by (nonlinear_arith)
        requires
            0 <= k <= 10,
    ;
    (255 * (k * k * k) + 500) / 1000
}

/// The opacity of the shadow `dx_out` and `dy_out` pixels outside its rectangle.
pub fn shadow_alpha(dx_out: usize, dy_out: usize) -> (r: u32)
    ensures
        r == alpha(dx_out as int, dy_out as int),
        r <= SHADOW_MAX,
{
    if dx_out > SHADOW_R || dy_out > SHADOW_R {
        return 0;
    }
    let fx: u32 = falloff_u32(dx_out);
    let fy: u32 = falloff_u32(dy_out);
    assert(0 <= SHADOW_MAX * fx <= 70 * 255 && 0 <= SHADOW_MAX * fx * fy <= 70 * 255 * 255) by (nonlinear_arith)
        requires
            SHADOW_MAX == 70,
            0 <= fx <= 255,
            0 <= fy <= 255,
    ;
    (SHADOW_MAX * fx * fy) / 65025
}

fn distance(v: i32, lo: i32, hi: i32) -> (r: usize)
    requires
        i32::MIN / 2 < v < i32::MAX,
        0 <= lo <= hi,
        lo - v <= i32::MAX,
    ensures
        r == outside(v as int, lo as int, hi as int),
{
    if v < lo {
        (lo - v) as usize
    } else if v >= hi {
        (v - hi + 1) as usize
    } else {
        0
    }
}

/// Darkens the rows `[band_y0, band_y1)` under a window's shadow.
pub fn blend_shadow_band(back: &mut [u8], stride: usize, screen_w: u32, band_y0: u32, band_y1: u32, win: &WinDesc)
    requires
        win.shadow,
        shadow_in_range(*win),
        0 < stride,
        screen_w * 4 <= stride,
        screen_w < i32::MAX,
        band_y0 < i32::MAX,
        band_y1 < i32::MAX,
        band_y1 * stride <= old(back)@.len(),
    ensures
        final(back)@ == edited(
            old(back)@,
            stride as int,
            |row: int, off: int| band_y0 <= row < band_y1 && off < screen_w * 4,
            |row: int, off: int, b: u8|
                if off % 4 < 3 && shadow_at(*win, off / 4, row) != 0 {
                    darkened(b, shadow_at(*win, off / 4, row))
                } else {
                    b
                },
        ),
{
    let ghost start = back@;
    let ghost st = stride as int;
    let ghost f = |row: int, off: int, b: u8|
        if off % 4 < 3 && shadow_at(*win, off / 4, row) != 0 {
            darkened(b, shadow_at(*win, off / 4, row))
        } else {
            b
        };
    let ghost all = |row: int, off: int| band_y0 <= row < band_y1 && off < screen_w * 4;
    if win.w == 0 || win.h == 0 {
        assert(back@ =~= edited(start, st, all, f));
        return;
    }
    let sw: i32 = screen_w as i32;
    let r: i32 = SHADOW_R as i32;
    let wx0: i32 = win.x as i32;
    let wy0: i32 = win.y as i32;
    let wx1: i32 = wx0 + win.w as i32;
    let wy1: i32 = wy0 + win.h as i32;
    let ox0: i32 = wx0 + SHADOW_DX;
    let oy0: i32 = wy0 + SHADOW_DY;
    let ox1: i32 = ox0 + win.w as i32;
    let oy1: i32 = oy0 + win.h as i32;
    let bx0: i32 = if ox0 - r > 0 { ox0 - r } else { 0 };
    let bx1: i32 = if ox1 + r < sw { ox1 + r } else { sw };
    let by0: i32 = if oy0 - r > band_y0 as i32 { oy0 - r } else { band_y0 as i32 };
    let by1: i32 = if oy1 + r < band_y1 as i32 { oy1 + r } else { band_y1 as i32 };
    let ghost inside = |row: int, off: int| by0 <= row < by1 && bx0 <= off / 4 < bx1;
    proof {
        assert forall|i: int| 0 <= i < start.len() implies edited(start, st, all, f)[i] == edited(
            start,
            st,
            inside,
            f,
        )[i] by {
            lemma_split(st, i);
        }
        assert(edited(start, st, all, f) =~= edited(start, st, inside, f));
    }
    if bx0 >= bx1 || by0 >= by1 {
        assert(back@ =~= edited(start, st, inside, f));
        return;
    }
    let mut py: i32 = by0;
    assert(back@ =~= edited(start, st, |row: int, off: int| by0 <= row < py && bx0 <= off / 4 < bx1, f));
    while py < by1
        invariant
            0 <= by0 <= py <= by1 <= band_y1 < i32::MAX,
            0 <= bx0 < bx1 <= sw,
            sw == screen_w,
            screen_w * 4 <= stride,
            st == stride,
            start.len() == back@.len(),
            band_y1 * stride <= start.len(),
            win.shadow,
            win.w > 0,
            win.h > 0,
            shadow_in_range(*win),
            wx0 == win.x,
            wy0 == win.y,
            wx1 == win.x + win.w,
            wy1 == win.y + win.h,
            ox0 == win.x + 4,
            oy0 == win.y + 6,
            ox1 == win.x + 4 + win.w,
            oy1 == win.y + 6 + win.h,
            f == (|row: int, off: int, b: u8|
                if off % 4 < 3 && shadow_at(*win, off / 4, row) != 0 {
                    darkened(b, shadow_at(*win, off / 4, row))
                } else {
                    b
                }),
            back@ == edited(start, st, |row: int, off: int| by0 <= row < py && bx0 <= off / 4 < bx1, f),
        decreases by1 - py,
    {
        let dy_out: usize = distance(py, oy0, oy1);
        let inside_win_y: bool = py >= wy0 && py < wy1;
        let mut px: i32 = bx0;
        assert(back@ =~= edited(
            start,
            st,
            |row: int, off: int| by0 <= row < py && bx0 <= off / 4 < bx1 || row == py && bx0 <= off / 4 < px,
            f,
        ));
        while px < bx1
            invariant
                0 <= by0 <= py < by1 <= band_y1 < i32::MAX,
                0 <= bx0 <= px <= bx1 <= sw,
                sw == screen_w,
                screen_w * 4 <= stride,
                st == stride,
                start.len() == back@.len(),
                band_y1 * stride <= start.len(),
                win.shadow,
                win.w > 0,
                win.h > 0,
                shadow_in_range(*win),
                wx0 == win.x,
                wy0 == win.y,
                wx1 == win.x + win.w,
                wy1 == win.y + win.h,
                ox0 == win.x + 4,
                ox1 == win.x + 4 + win.w,
                dy_out == outside(py as int, win.y + 6, win.y + 6 + win.h),
                inside_win_y == (win.y <= py < win.y + win.h),
                f == (|row: int, off: int, b: u8|
                    if off % 4 < 3 && shadow_at(*win, off / 4, row) != 0 {
                        darkened(b, shadow_at(*win, off / 4, row))
                    } else {
                        b
                    }),
                back@ == edited(
                    start,
                    st,
                    |row: int, off: int| by0 <= row < py && bx0 <= off / 4 < bx1 || row == py && bx0 <= off / 4 < px,
                    f,
                ),
            decreases bx1 - px,
        {
            let ghost p0 = |row: int, off: int|
                by0 <= row < py && bx0 <= off / 4 < bx1 || row == py && bx0 <= off / 4 < px;
            let a: u32 = if inside_win_y && px >= wx0 && px < wx1 {
                0
            } else {
                shadow_alpha(distance(px, ox0, ox1), dy_out)
            };
            assert(a == shadow_at(*win, px as int, py as int));
            if a != 0 {
                let inv: u32 = 255 - a;
                proof {
                    assert(back.len() == back@.len());
                    lemma_row_inside(back@.len() as int, st, band_y1 as int, py as int, px * 4);
                    lemma_row_inside(back@.len() as int, st, band_y1 as int, py as int, px * 4 + 3);
                    let ghost p1 = |row: int, off: int| p0(row, off) || row == py && off == px * 4;
                    let ghost p2 = |row: int, off: int| p1(row, off) || row == py && off == px * 4 + 1;
                    let ghost p3 = |row: int, off: int| p2(row, off) || row == py && off == px * 4 + 2;
                    lemma_edit_one(start, st, p0, p1, f, py as int, px * 4);
                    lemma_edit_one(start, st, p1, p2, f, py as int, px * 4 + 1);
                    lemma_edit_one(start, st, p2, p3, f, py as int, px * 4 + 2);
                }
                let o: usize = py as usize * stride + px as usize * 4;
                let v0: u32 = back[o] as u32;
                let v1: u32 = back[o + 1] as u32;
                let v2: u32 = back[o + 2] as u32;
                proof {
                    lemma_dark(v0 as int, inv as int);
                    lemma_dark(v1 as int, inv as int);
                    lemma_dark(v2 as int, inv as int);
                }
                back[o] = ((v0 * inv) / 255) as u8;
                back[o + 1] = ((v1 * inv) / 255) as u8;
                back[o + 2] = ((v2 * inv) / 255) as u8;
            }
            px += 1;
            proof {
                let ghost p4 = |row: int, off: int|
                    by0 <= row < py && bx0 <= off / 4 < bx1 || row == py && bx0 <= off / 4 < px;
                assert forall|i: int| 0 <= i < start.len() implies back@[i] == edited(start, st, p4, f)[i] by {
                    lemma_split(st, i);
                }
                assert(back@ =~= edited(start, st, p4, f));
            }
        }
        py += 1;
        assert(back@ =~= edited(start, st, |row: int, off: int| by0 <= row < py && bx0 <= off / 4 < bx1, f));
    }
    assert(back@ =~= edited(start, st, inside, f));
}

/// Fills the rows `[band_y0, band_y1)` with the colour `bg`.
fn clear_band(back: &mut [u8], stride: usize, screen_w: u32, band_y0: u32, band_y1: u32, bg: u32)
    requires
        0 < stride,
        screen_w * 4 <= stride,
        band_y1 * stride <= old(back)@.len(),
    ensures
        final(back)@ == edited(
            old(back)@,
            stride as int,
            |row: int, off: int| band_y0 <= row < band_y1 && off < screen_w * 4,
            |row: int, off: int, b: u8| le32(bg)[off % 4],
        ),
{
    let ghost start = back@;
    let ghost st = stride as int;
    let ghost f = |row: int, off: int, b: u8| le32(bg)[off % 4];
    let c: [u8; 4] = [(bg % 256) as u8, (bg / 0x100 % 256) as u8, (bg / 0x1_0000 % 256) as u8, (bg / 0x100_0000) as u8];
    assert(c@ =~= le32(bg));
    let width: usize = screen_w as usize * 4;
    let mut row: usize = band_y0 as usize;
    let rows: usize = band_y1 as usize;
    assert(back@ =~= edited(start, st, |r: int, off: int| band_y0 <= r < row && off < width, f));
    while row < rows
        invariant
            band_y0 <= row,
            row <= rows || row == band_y0,
            rows == band_y1,
            width == screen_w * 4,
            0 < stride,
            width <= stride,
            st == stride,
            c@ == le32(bg),
            start.len() == back@.len(),
            rows * stride <= start.len(),
            f == (|row: int, off: int, b: u8| le32(bg)[off % 4]),
            back@ == edited(start, st, |r: int, off: int| band_y0 <= r < row && off < width, f),
        decreases rows - row,
    {
        let mut o: usize = 0;
        proof {
            assert(back.len() == back@.len());
            lemma_row_inside(back@.len() as int, st, rows as int, row as int, 0);
        }
        let base: usize = row * stride;
        assert(back@ =~= edited(
            start,
            st,
            |r: int, off: int| band_y0 <= r < row && off < width || r == row && off < 0,
            f,
        )) by {
            assert forall|i: int| 0 <= i < start.len() implies back@[i] == edited(
                start,
                st,
                |r: int, off: int| band_y0 <= r < row && off < width || r == row && off < 0,
                f,
            )[i] by {
                lemma_split(st, i);
            }
        }
        while o < width
            invariant
                o <= width,
                o % 4 == 0,
                width % 4 == 0,
                band_y0 <= row < rows,
                base == row * stride,
                0 < stride,
                width <= stride,
                st == stride,
                c@ == le32(bg),
                start.len() == back@.len(),
                rows * stride <= start.len(),
                f == (|row: int, off: int, b: u8| le32(bg)[off % 4]),
                back@ == edited(
                    start,
                    st,
                    |r: int, off: int| band_y0 <= r < row && off < width || r == row && off < o,
                    f,
                ),
            decreases width - o,
        {
            proof {
                assert(back.len() == back@.len());
                lemma_row_inside(back@.len() as int, st, rows as int, row as int, o + 3);
                let p0 = |r: int, off: int| band_y0 <= r < row && off < width || r == row && off < o;
                let p1 = |r: int, off: int| band_y0 <= r < row && off < width || r == row && off < o + 1;
                let p2 = |r: int, off: int| band_y0 <= r < row && off < width || r == row && off < o + 2;
                let p3 = |r: int, off: int| band_y0 <= r < row && off < width || r == row && off < o + 3;
                let p4 = |r: int, off: int| band_y0 <= r < row && off < width || r == row && off < o + 4;
                lemma_edit_one(start, st, p0, p1, f, row as int, o as int);
                lemma_edit_one(start, st, p1, p2, f, row as int, o + 1);
                lemma_edit_one(start, st, p2, p3, f, row as int, o + 2);
                lemma_edit_one(start, st, p3, p4, f, row as int, o + 3);
            }
            back[base + o] = c[0];
            back[base + o + 1] = c[1];
            back[base + o + 2] = c[2];
            back[base + o + 3] = c[3];
            o += 4;
        }
        row += 1;
        proof {
            let p = |r: int, off: int| band_y0 <= r < row && off < width;
            assert forall|i: int| 0 <= i < start.len() implies back@[i] == edited(start, st, p, f)[i] by {
                lemma_split(st, i);
            }
            assert(back@ =~= edited(start, st, p, f));
        }
    }
    assert(back@ =~= edited(start, st, |r: int, off: int| band_y0 <= r < band_y1 && off < screen_w * 4, f));
}

/// Copies the rows of a window that lie in `[band_y0, band_y1)`.
fn copy_window_band(back: &mut [u8], stride: usize, screen_w: u32, band_y0: u32, band_y1: u32, win: &WinDesc)
    requires
        0 < stride,
        screen_w * 4 <= stride,
        band_y1 * stride <= old(back)@.len(),
    ensures
        final(back)@ == edited(
            old(back)@,
            stride as int,
            |row: int, off: int| band_y0 <= row < band_y1 && off < screen_w * 4,
            |row: int, off: int, b: u8|
                if paints(*win, screen_w as int, off / 4, row) {
                    win.px@[(row - win.y) * (win.w * 4) + (off / 4 - win.x) * 4 + off % 4]
                } else {
                    b
                },
        ),
{
    let ghost start = back@;
    let ghost st = stride as int;
    let ghost sw = screen_w as int;
    let ghost f = |row: int, off: int, b: u8|
        if paints(*win, sw, off / 4, row) {
            win.px@[(row - win.y) * (win.w * 4) + (off / 4 - win.x) * 4 + off % 4]
        } else {
            b
        };
    let ghost all = |row: int, off: int| band_y0 <= row < band_y1 && off < screen_w * 4;
    let wy: u64 = win.y as u64;
    let y_start: u64 = if wy > band_y0 as u64 { wy } else { band_y0 as u64 };
    let y_end: u64 = if wy + (win.h as u64) < band_y1 as u64 { wy + win.h as u64 } else { band_y1 as u64 };
    if win.x >= screen_w || win.w == 0 || win.h == 0 || y_start >= y_end {
        proof {
            assert forall|i: int| 0 <= i < start.len() implies back@[i] == edited(start, st, all, f)[i] by {
                lemma_split(st, i);
            }
            assert(back@ =~= edited(start, st, all, f));
        }
        return;
    }
    let vis_w: u32 = if win.w < screen_w - win.x { win.w } else { screen_w - win.x };
    assert(vis_w == visible_columns(*win, sw));
    let left: usize = win.x as usize * 4;
    let width: usize = vis_w as usize * 4;
    let src_stride: u128 = win.w as u128 * 4;
    let mut sy: u64 = y_start;
    assert(back@ =~= edited(start, st, |row: int, off: int| y_start <= row < sy && all(row, off), f));
    while sy < y_end
        invariant
            band_y0 <= y_start <= sy <= y_end <= band_y1,
            wy == win.y,
            wy <= y_start,
            y_end <= wy + win.h,
            win.x < screen_w,
            vis_w == visible_columns(*win, sw),
            0 < vis_w,
            sw == screen_w,
            left == win.x * 4,
            width == vis_w * 4,
            src_stride == win.w * 4,
            left + width <= screen_w * 4 <= stride,
            0 < stride,
            st == stride,
            start.len() == back@.len(),
            band_y1 * stride <= start.len(),
            all == (|row: int, off: int| band_y0 <= row < band_y1 && off < screen_w * 4),
            f == (|row: int, off: int, b: u8|
                if paints(*win, sw, off / 4, row) {
                    win.px@[(row - win.y) * (win.w * 4) + (off / 4 - win.x) * 4 + off % 4]
                } else {
                    b
                }),
            back@ == edited(start, st, |row: int, off: int| y_start <= row < sy && all(row, off), f),
        decreases y_end - sy,
    {
        proof {
            let d = (sy - wy) as int;
            assert(0 <= d * src_stride <= 0xffff_ffff * 0x4_0000_0000) by (nonlinear_arith)
                requires
                    0 <= d <= 0xffff_ffff,
                    0 <= src_stride <= 0x4_0000_0000,
            ;
        }
        let src_row: u128 = (sy - wy) as u128 * src_stride;
        let ghost p0 = |row: int, off: int| y_start <= row < sy && all(row, off);
        if src_row + width as u128 <= win.px.len() as u128 {
            let src: usize = src_row as usize;
            proof {
                assert(back.len() == back@.len());
                lemma_row_inside(back@.len() as int, st, band_y1 as int, sy as int, 0);
                lemma_row_inside(back@.len() as int, st, band_y1 as int, sy as int, left + width - 1);
            }
            let dst: usize = sy as usize * stride + left;
            let mut o: usize = 0;
            assert(back@ =~= edited(
                start,
                st,
                |row: int, off: int| p0(row, off) || row == sy && left <= off < left + o,
                f,
            ));
            while o < width
                invariant
                    o <= width,
                    band_y0 <= y_start <= sy < y_end <= band_y1,
                    win.y <= sy < win.y + win.h,
                    win.x < screen_w,
                    vis_w == visible_columns(*win, sw),
                    sw == screen_w,
                    left == win.x * 4,
                    width == vis_w * 4,
                    left + width <= screen_w * 4 <= stride,
                    src == (sy - win.y) * (win.w * 4),
                    src + width <= win.px@.len(),
                    dst == sy * stride + left,
                    st == stride,
                    start.len() == back@.len(),
                    band_y1 * stride <= start.len(),
                    p0 == (|row: int, off: int| y_start <= row < sy && all(row, off)),
                    f == (|row: int, off: int, b: u8|
                        if paints(*win, sw, off / 4, row) {
                            win.px@[(row - win.y) * (win.w * 4) + (off / 4 - win.x) * 4 + off % 4]
                        } else {
                            b
                        }),
                    back@ == edited(
                        start,
                        st,
                        |row: int, off: int| p0(row, off) || row == sy && left <= off < left + o,
                        f,
                    ),
                decreases width - o,
            {
                proof {
                    assert(back.len() == back@.len());
                    lemma_row_inside(back@.len() as int, st, band_y1 as int, sy as int, left + o);
                    let q0 = |row: int, off: int| p0(row, off) || row == sy && left <= off < left + o;
                    let q1 = |row: int, off: int| p0(row, off) || row == sy && left <= off < left + (o + 1);
                    lemma_edit_one(start, st, q0, q1, f, sy as int, left + o);
                    assert(win.px.len() == win.px@.len());
                    assert((left + o) / 4 == win.x + o / 4);
                    assert((left + o) % 4 == o % 4);
                    assert(paints(*win, sw, (left + o) as int / 4, sy as int));
                }
                back[dst + o] = win.px[src + o];
                o += 1;
            }
        }
        sy += 1;
        proof {
            let p1 = |row: int, off: int| y_start <= row < sy && all(row, off);
            assert forall|i: int| 0 <= i < start.len() implies back@[i] == edited(start, st, p1, f)[i] by {
                lemma_split(st, i);
            }
            assert(back@ =~= edited(start, st, p1, f));
        }
    }
    proof {
        assert forall|i: int| 0 <= i < start.len() implies back@[i] == edited(start, st, all, f)[i] by {
            lemma_split(st, i);
        }
        assert(back@ =~= edited(start, st, all, f));
    }
}

/// Composes `wins`, from back to front, into the rows `[band_y0, band_y1)` of a screen of
/// `screen_w` columns. No byte outside those rows and columns changes.
pub fn composite_band(
    back: &mut [u8],
    stride: usize,
    screen_w: u32,
    band_y0: u32,
    band_y1: u32,
    bg: u32,
    wins: &[WinDesc],
)
    requires
        0 < stride,
        screen_w * 4 <= stride,
        screen_w < i32::MAX,
        band_y0 < i32::MAX,
        band_y1 < i32::MAX,
        band_y1 * stride <= old(back)@.len(),
        forall|i: int| 0 <= i < wins@.len() && (#[trigger] wins@[i]).shadow ==> shadow_in_range(wins@[i]),
    ensures
        final(back)@ == composed_band(
            old(back)@,
            stride as int,
            screen_w as int,
            band_y0 as int,
            band_y1 as int,
            bg,
            wins@,
        ),
{
    let ghost start = back@;
    let ghost st = stride as int;
    let ghost sw = screen_w as int;
    let ghost all = |row: int, off: int| band_y0 <= row < band_y1 && off < sw * 4;
    clear_band(back, stride, screen_w, band_y0, band_y1, bg);
    let mut n: usize = 0;
    proof {
        let g = |row: int, off: int, b: u8| composed(wins@, n as int, bg, sw, off / 4, row, off % 4);
        assert forall|i: int| 0 <= i < start.len() implies back@[i] == edited(start, st, all, g)[i] by {
            lemma_split(st, i);
        }
        assert(back@ =~= edited(start, st, all, g));
    }
    while n < wins.len()
        invariant
            n <= wins@.len(),
            0 < stride,
            st == stride,
            sw == screen_w,
            screen_w * 4 <= stride,
            screen_w < i32::MAX,
            band_y0 < i32::MAX,
            band_y1 < i32::MAX,
            band_y1 * stride <= back@.len(),
            start.len() == back@.len(),
            forall|i: int| 0 <= i < wins@.len() && (#[trigger] wins@[i]).shadow ==> shadow_in_range(wins@[i]),
            all == (|row: int, off: int| band_y0 <= row < band_y1 && off < sw * 4),
            back@ == edited(
                start,
                st,
                all,
                |row: int, off: int, b: u8| composed(wins@, n as int, bg, sw, off / 4, row, off % 4),
            ),
        decreases wins@.len() - n,
    {
        let win = wins[n];
        if win.shadow {
            blend_shadow_band(back, stride, screen_w, band_y0, band_y1, &win);
        }
        copy_window_band(back, stride, screen_w, band_y0, band_y1, &win);
        n += 1;
        proof {
            let g = |row: int, off: int, b: u8| composed(wins@, n as int, bg, sw, off / 4, row, off % 4);
            assert forall|i: int| 0 <= i < start.len() implies back@[i] == edited(start, st, all, g)[i] by {
                lemma_split(st, i);
            }
            assert(back@ =~= edited(start, st, all, g));
        }
    }
    assert(back@ =~= composed_band(start, st, sw, band_y0 as int, band_y1 as int, bg, wins@));
}

/// Composing two adjacent bands, in either order, gives what composing their union in one
/// go gives: the parallel picture is the serial picture, byte for byte.
pub proof fn bands_compose(
    back: Seq<u8>,
    stride: int,
    sw: int,
    y0: int,
    y1: int,
    y2: int,
    bg: u32,
    wins: Seq<WinDesc>,
)
    requires
        0 < stride,
        y0 <= y1 <= y2,
    ensures
        composed_band(composed_band(back, stride, sw, y0, y1, bg, wins), stride, sw, y1, y2, bg, wins)
            == composed_band(back, stride, sw, y0, y2, bg, wins),
        composed_band(composed_band(back, stride, sw, y1, y2, bg, wins), stride, sw, y0, y1, bg, wins)
            == composed_band(back, stride, sw, y0, y2, bg, wins),
{
    let one = composed_band(back, stride, sw, y0, y2, bg, wins);
    assert(composed_band(composed_band(back, stride, sw, y0, y1, bg, wins), stride, sw, y1, y2, bg, wins) =~= one);
    assert(composed_band(composed_band(back, stride, sw, y1, y2, bg, wins), stride, sw, y0, y1, bg, wins) =~= one);
}

/// Composing a band changes no byte of another row: bands with disjoint rows can run at
/// the same time.
pub proof fn band_stays_in_its_rows(
    back: Seq<u8>,
    stride: int,
    sw: int,
    y0: int,
    y1: int,
    bg: u32,
    wins: Seq<WinDesc>,
    i: int,
)
    requires
        0 < stride,
        0 <= i < back.len(),
        !(y0 <= i / stride < y1),
    ensures
        composed_band(back, stride, sw, y0, y1, bg, wins)[i] == back[i],
{
}

proof fn lemma_dark(v: int, inv: int)
    requires
        0 <= v <= 255,
        0 <= inv <= 255,
    ensures
        0 <= v * inv <= 255 * 255,
        0 <= (v * inv) / 255 <= 255,
{
    assert(0 <= v * inv <= 255 * 255) by (nonlinear_arith)
        requires
            0 <= v <= 255,
            0 <= inv <= 255,
    ;
}

} // verus!
