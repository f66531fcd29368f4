//! What the composed picture shows: the stacking order, the background and the shadows, each
//! said of a single pixel by its place.

use vstd::prelude::*;
use crate::bytes::le32;
use crate::wt::compose::{alpha, composed, composed_band, falloff, outside, paints, shadow_at, visible_columns, WinDesc};

verus! {

/// A byte of a pixel of the screen stands in the band that is composed.
pub open spec fn in_band(len: int, stride: int, sw: int, y0: int, y1: int, x: int, y: int, c: int) -> bool {
    &&& 0 <= x < sw
    &&& 0 <= y
    &&& y0 <= y < y1
    &&& 0 <= c < 4
    &&& sw * 4 <= stride
    &&& y * stride + 4 * x + c < len
}

proof fn lemma_at(
    back: Seq<u8>,
    stride: int,
    sw: int,
    y0: int,
    y1: int,
    bg: u32,
    wins: Seq<WinDesc>,
    x: int,
    y: int,
    c: int,
)
    requires
        in_band(back.len() as int, stride, sw, y0, y1, x, y, c),
    ensures
        0 <= y * stride + 4 * x + c,
        composed_band(back, stride, sw, y0, y1, bg, wins)[y * stride + 4 * x + c] == composed(
            wins,
            wins.len() as int,
            bg,
            sw,
            x,
            y,
            c,
        ),
{
    let off = 4 * x + c;
    let k = y * stride + off;
    vstd::arithmetic::div_mod::lemma_fundamental_div_mod_converse(k, stride, y, off);
    assert(0 <= y * stride) by (nonlinear_arith)
        requires
            0 <= y,
            0 <= stride,
    ;
    assert(off / 4 == x && off % 4 == c);
}

proof fn lemma_far_shadow(win: WinDesc, x: int, y: int)
    requires
        x < win.x - 6 || win.x + win.w + 14 <= x || y < win.y - 4 || win.y + win.h + 16 <= y,
    ensures
        shadow_at(win, x, y) == 0,
{
    assert(falloff(10) == 0);
    if win.shadow && win.w > 0 && win.h > 0 && !(win.x <= x < win.x + win.w && win.y <= y < win.y + win.h) {
        let dx = outside(x, win.x + 4, win.x + 4 + win.w);
        let dy = outside(y, win.y + 6, win.y + 6 + win.h);
        assert(dx >= 10 || dy >= 10);
        if dx <= 10 && dy <= 10 {
            let f = falloff(dx);
            let g = falloff(dy);
            assert((70 * f * g) == 0) by (nonlinear_arith)
                requires
                    f == 0 || g == 0,
            ;
        }
    }
}

/// The pixel of a window shows where no window later in the list has the pixel, or comes near
/// enough to shadow it: later windows lie above earlier ones.
pub proof fn last_window_shows(
    back: Seq<u8>,
    stride: int,
    sw: int,
    y0: int,
    y1: int,
    bg: u32,
    wins: Seq<WinDesc>,
    i: int,
    x: int,
    y: int,
    c: int,
)
    requires
        in_band(back.len() as int, stride, sw, y0, y1, x, y, c),
        0 <= i < wins.len(),
        wins[i].x <= x < wins[i].x + wins[i].w,
        wins[i].y <= y < wins[i].y + wins[i].h,
        wins[i].px@.len() >= wins[i].w * wins[i].h * 4,
        forall|j: int|
            i < j < wins.len() ==> {
                let win = #[trigger] wins[j];
                ||| x < win.x - 6
                ||| win.x + win.w + 14 <= x
                ||| y < win.y - 4
                ||| win.y + win.h + 16 <= y
                ||| !win.shadow && !(win.x <= x < win.x + win.w && win.y <= y < win.y + win.h)
            },
    ensures
        composed_band(back, stride, sw, y0, y1, bg, wins)[y * stride + 4 * x + c] == wins[i].px@[((y - wins[i].y)
            * wins[i].w + (x - wins[i].x)) * 4 + c],
{
    lemma_at(back, stride, sw, y0, y1, bg, wins, x, y, c);
    lemma_shows(wins, wins.len() as int, i, bg, sw, x, y, c);
}

proof fn lemma_row_of_window(win: WinDesc, sw: int, x: int, y: int, c: int)
    requires
        0 <= x < sw,
        win.x <= x < win.x + win.w,
        win.y <= y < win.y + win.h,
        win.px@.len() >= win.w * win.h * 4,
    ensures
        paints(win, sw, x, y),
        (y - win.y) * (win.w * 4) + (x - win.x) * 4 + c == ((y - win.y) * win.w + (x - win.x)) * 4 + c,
{
    let r = y - win.y;
    let w = win.w as int;
    assert(r * (w * 4) + w * 4 <= w * win.h * 4) by (nonlinear_arith)
        requires
            0 <= r < win.h,
            0 <= w,
    ;
    assert(r * (w * 4) == r * w * 4) by (nonlinear_arith);
}

proof fn lemma_shows(wins: Seq<WinDesc>, n: int, i: int, bg: u32, sw: int, x: int, y: int, c: int)
    requires
        0 <= x < sw,
        0 <= y,
        0 <= c < 4,
        0 <= i < n <= wins.len(),
        wins[i].x <= x < wins[i].x + wins[i].w,
        wins[i].y <= y < wins[i].y + wins[i].h,
        wins[i].px@.len() >= wins[i].w * wins[i].h * 4,
        forall|j: int|
            i < j < n ==> {
                let win = #[trigger] wins[j];
                ||| x < win.x - 6
                ||| win.x + win.w + 14 <= x
                ||| y < win.y - 4
                ||| win.y + win.h + 16 <= y
                ||| !win.shadow && !(win.x <= x < win.x + win.w && win.y <= y < win.y + win.h)
            },
    ensures
        composed(wins, n, bg, sw, x, y, c) == wins[i].px@[((y - wins[i].y) * wins[i].w + (x - wins[i].x)) * 4 + c],
    decreases n,
{
    if n - 1 == i {
        lemma_row_of_window(wins[i], sw, x, y, c);
    } else {
        let win = wins[n - 1];
        if x < win.x - 6 || win.x + win.w + 14 <= x || y < win.y - 4 || win.y + win.h + 16 <= y {
            lemma_far_shadow(win, x, y);
        }
        lemma_shows(wins, n - 1, i, bg, sw, x, y, c);
    }
}

proof fn lemma_bare(wins: Seq<WinDesc>, n: int, bg: u32, sw: int, x: int, y: int, c: int)
    requires
        0 <= n <= wins.len(),
        forall|j: int|
            0 <= j < n ==> {
                let win = #[trigger] wins[j];
                ||| x < win.x - 6
                ||| win.x + win.w + 14 <= x
                ||| y < win.y - 4
                ||| win.y + win.h + 16 <= y
                ||| !win.shadow && !(win.x <= x < win.x + win.w && win.y <= y < win.y + win.h)
            },
    ensures
        composed(wins, n, bg, sw, x, y, c) == le32(bg)[c],
    decreases n,
{
    if n > 0 {
        let win = wins[n - 1];
        if x < win.x - 6 || win.x + win.w + 14 <= x || y < win.y - 4 || win.y + win.h + 16 <= y {
            lemma_far_shadow(win, x, y);
        }
        lemma_bare(wins, n - 1, bg, sw, x, y, c);
    }
}

/// The background shows where no window has the pixel or comes near it: its four bytes are the
/// colour, least significant byte first.
pub proof fn background_shows(
    back: Seq<u8>,
    stride: int,
    sw: int,
    y0: int,
    y1: int,
    bg: u32,
    wins: Seq<WinDesc>,
    x: int,
    y: int,
)
    requires
        in_band(back.len() as int, stride, sw, y0, y1, x, y, 3),
        forall|j: int|
            0 <= j < wins.len() ==> {
                let win = #[trigger] wins[j];
                ||| x < win.x - 6
                ||| win.x + win.w + 14 <= x
                ||| y < win.y - 4
                ||| win.y + win.h + 16 <= y
                ||| !win.shadow && !(win.x <= x < win.x + win.w && win.y <= y < win.y + win.h)
            },
    ensures
        ({
            let p = composed_band(back, stride, sw, y0, y1, bg, wins);
            let k = y * stride + 4 * x;
            p[k] + 0x100 * p[k + 1] + 0x1_0000 * p[k + 2] + 0x100_0000 * p[k + 3] == bg
        }),
{
    lemma_at(back, stride, sw, y0, y1, bg, wins, x, y, 0);
    lemma_at(back, stride, sw, y0, y1, bg, wins, x, y, 1);
    lemma_at(back, stride, sw, y0, y1, bg, wins, x, y, 2);
    lemma_at(back, stride, sw, y0, y1, bg, wins, x, y, 3);
    lemma_bare(wins, wins.len() as int, bg, sw, x, y, 0);
    lemma_bare(wins, wins.len() as int, bg, sw, x, y, 1);
    lemma_bare(wins, wins.len() as int, bg, sw, x, y, 2);
    lemma_bare(wins, wins.len() as int, bg, sw, x, y, 3);
}

proof fn lemma_prefix(wins: Seq<WinDesc>, win: WinDesc, n: int, bg: u32, sw: int, x: int, y: int, c: int)
    requires
        0 <= n <= wins.len(),
    ensures
        composed(wins.push(win), n, bg, sw, x, y, c) == composed(wins, n, bg, sw, x, y, c),
    decreases n,
{
    if n > 0 {
        lemma_prefix(wins, win, n - 1, bg, sw, x, y, c);
    }
}

/// A window that is put on top leaves every pixel alone that it does not have and that is not
/// under its shadow, and casts its shadow over the others: it darkens the three colours and
/// leaves the fourth byte alone. The shadow is as wide and high as the window, four pixels to
/// the right and six down; inside it the opacity is 70 out of 255.
pub proof fn top_window_shades(
    back: Seq<u8>,
    stride: int,
    sw: int,
    y0: int,
    y1: int,
    bg: u32,
    wins: Seq<WinDesc>,
    win: WinDesc,
    x: int,
    y: int,
    c: int,
)
    requires
        in_band(back.len() as int, stride, sw, y0, y1, x, y, c),
        !(win.x <= x < win.x + win.w && win.y <= y < win.y + win.h),
    ensures
        ({
            let below = composed_band(back, stride, sw, y0, y1, bg, wins)[y * stride + 4 * x + c];
            let now = composed_band(back, stride, sw, y0, y1, bg, wins.push(win))[y * stride + 4 * x + c];
            &&& now <= below
            &&& !win.shadow || c == 3 ==> now == below
            &&& x < win.x - 6 || win.x + win.w + 14 <= x || y < win.y - 4 || win.y + win.h + 16 <= y ==> now == below
            &&& win.shadow && c < 3 && win.x + 4 <= x < win.x + 4 + win.w && win.y + 6 <= y < win.y + 6 + win.h
                ==> 255 * now <= below * 185 < 255 * (now + 1)
        }),
{
    let n = wins.len() as int;
    let all = wins.push(win);
    lemma_at(back, stride, sw, y0, y1, bg, wins, x, y, c);
    lemma_at(back, stride, sw, y0, y1, bg, all, x, y, c);
    lemma_prefix(wins, win, n, bg, sw, x, y, c);
    assert(all[n] == win);
    let b = composed(wins, n, bg, sw, x, y, c);
    let a = shadow_at(win, x, y);
    lemma_opacity_bounds(win, x, y);
    if x < win.x - 6 || win.x + win.w + 14 <= x || y < win.y - 4 || win.y + win.h + 16 <= y {
        lemma_far_shadow(win, x, y);
    }
    assert(0 <= (b * (255 - a)) / 255 <= b && 255 * ((b * (255 - a)) / 255) <= b * (255 - a) < 255 * ((b * (255 - a))
        / 255 + 1)) by (nonlinear_arith)
        requires
            0 <= a <= 255,
            0 <= b <= 255,
    ;
    if win.shadow && win.x + 4 <= x < win.x + 4 + win.w && win.y + 6 <= y < win.y + 6 + win.h {
        falloff_is_the_cube(0);
        let f = falloff(0);
        assert(f == 255) by {
            assert(10int * 10 * 10 == 1000) by (nonlinear_arith);
        }
        assert((70 * f * f) / 65025 == 70) by (nonlinear_arith)
            requires
                f == 255,
        ;
        assert(a == 70);
    }
}

proof fn lemma_opacity_bounds(win: WinDesc, x: int, y: int)
    ensures
        0 <= shadow_at(win, x, y) <= 255,
{
    let dx = outside(x, win.x + 4, win.x + 4 + win.w);
    let dy = outside(y, win.y + 6, win.y + 6 + win.h);
    if dx <= 10 && dy <= 10 {
        opacity_is_the_product(dx, dy);
    }
}

/// The opacity of the shadow on each axis is 255 times the cube of how far the pixel still is
/// from where the shadow ends, out of ten, to the nearest integer.
pub proof fn falloff_is_the_cube(d: int)
    requires
        0 <= d <= 10,
    ensures
        2 * (1000 * falloff(d) - 255 * ((10 - d) * (10 - d) * (10 - d))) <= 1000,
        2 * (255 * ((10 - d) * (10 - d) * (10 - d)) - 1000 * falloff(d)) < 1000,
        0 <= falloff(d) <= 255,
{
    let k = 10 - d;
    assert(0 <= k * k * k <= 1000) by (nonlinear_arith)
        requires
            0 <= k <= 10,
    ;
}

/// The opacity at a distance on both axes is 70 parts of 255 of both together, rounded down, and
/// the same with the axes exchanged.
pub proof fn opacity_is_the_product(dx: int, dy: int)
    requires
        0 <= dx <= 10,
        0 <= dy <= 10,
    ensures
        65025 * alpha(dx, dy) <= 70 * (falloff(dx) * falloff(dy)) < 65025 * (alpha(dx, dy) + 1),
        alpha(dx, dy) == alpha(dy, dx),
        0 <= alpha(dx, dy) <= 70,
{
    falloff_is_the_cube(dx);
    falloff_is_the_cube(dy);
    let f = falloff(dx);
    let g = falloff(dy);
    assert(70 * f * g == 70 * (f * g) && 70 * g * f == 70 * (f * g) && 0 <= f * g <= 65025) by (nonlinear_arith)
        requires
            0 <= f <= 255,
            0 <= g <= 255,
    ;
}

/// How dark a pixel beside a window is goes by how many pixels it lies outside the window's
/// shadow to the left or right, `dx`, and above or below, `dy`.
pub proof fn shadow_goes_by_distance(win: WinDesc, x: int, y: int, dx: int, dy: int)
    requires
        win.shadow,
        win.w > 0,
        win.h > 0,
        !(win.x <= x < win.x + win.w && win.y <= y < win.y + win.h),
        0 <= dx <= 10,
        0 <= dy <= 10,
        dx == 0 && win.x + 4 <= x < win.x + 4 + win.w || dx > 0 && (x + dx == win.x + 4 || x == win.x + 4 + win.w - 1
            + dx),
        dy == 0 && win.y + 6 <= y < win.y + 6 + win.h || dy > 0 && (y + dy == win.y + 6 || y == win.y + 6 + win.h - 1
            + dy),
    ensures
        65025 * shadow_at(win, x, y) <= 70 * (falloff(dx) * falloff(dy)) < 65025 * (shadow_at(win, x, y) + 1),
{
    opacity_is_the_product(dx, dy);
}

/// A row of a window is copied only where the window has all of its bytes up to the screen's
/// edge; a row without them shows what lies below.
pub proof fn short_row_is_left_out(
    back: Seq<u8>,
    stride: int,
    sw: int,
    y0: int,
    y1: int,
    bg: u32,
    wins: Seq<WinDesc>,
    win: WinDesc,
    x: int,
    y: int,
    c: int,
)
    requires
        in_band(back.len() as int, stride, sw, y0, y1, x, y, c),
        win.x <= x < win.x + win.w,
        win.y <= y < win.y + win.h,
    ensures
        ({
            let below = composed_band(back, stride, sw, y0, y1, bg, wins)[y * stride + 4 * x + c];
            let now = composed_band(back, stride, sw, y0, y1, bg, wins.push(win))[y * stride + 4 * x + c];
            let seen = if win.x + win.w <= sw { win.w as int } else { sw - win.x };
            let row = (y - win.y) * (win.w * 4);
            if row + seen * 4 <= win.px@.len() {
                now == win.px@[row + (x - win.x) * 4 + c]
            } else {
                now == below
            }
        }),
{
    let n = wins.len() as int;
    let all = wins.push(win);
    lemma_at(back, stride, sw, y0, y1, bg, wins, x, y, c);
    lemma_at(back, stride, sw, y0, y1, bg, all, x, y, c);
    lemma_prefix(wins, win, n, bg, sw, x, y, c);
    assert(all[n] == win);
    assert(visible_columns(win, sw) == if win.x + win.w <= sw { win.w as int } else { sw - win.x });
}

/// Composing changes the bytes of the screen's pixels in its rows, and no other: what is left
/// of a row behind the last column stays, and so do all other rows.
pub proof fn composing_stays_on_the_screen(
    back: Seq<u8>,
    stride: int,
    sw: int,
    y0: int,
    y1: int,
    bg: u32,
    wins: Seq<WinDesc>,
    y: int,
    off: int,
)
    requires
        0 <= off < stride,
        0 <= y,
        y * stride + off < back.len(),
        off >= sw * 4 || y < y0 || y >= y1,
    ensures
        composed_band(back, stride, sw, y0, y1, bg, wins).len() == back.len(),
        0 <= y * stride + off,
        composed_band(back, stride, sw, y0, y1, bg, wins)[y * stride + off] == back[y * stride + off],
{
    let k = y * stride + off;
    vstd::arithmetic::div_mod::lemma_fundamental_div_mod_converse(k, stride, y, off);
    assert(0 <= y * stride) by (nonlinear_arith)
        requires
            0 <= y,
            0 <= stride,
    ;
}

} // verus!
