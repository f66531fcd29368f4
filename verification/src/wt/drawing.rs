//! Laws of drawing on the screen and of sharing it out: where the bytes of a pixel stand, what a
//! character leaves in a pixel, how the rows are cut into bands, and which processors took part.

use vstd::prelude::*;
use crate::pixels::{lemma_pixel_inside, lemma_pixel_of_byte, painted, pixel_index};
use crate::wt::bands::{band_count, band_rows, core_bit, cores_in, cuts};
use crate::wt::boot::{exit_code, gui_core, next_window_id, screen_or_standin, CwasmEnd};
use crate::wt::decor::{mixed, text_row, with_glyph, with_text, Glyph};
use crate::wt::group::CoreRole;
use crate::wt::modules::{found, Loaded};
use crate::wt::wm::Compositor;

verus! {

/// A pixel of an image stands in four bytes, behind those of all pixels to the left of it in its
/// row and of all rows above it. What is painted into an image colours exactly the pixels that are
/// picked, byte by byte.
pub proof fn painting_colours_the_picked_pixels(
    px: Seq<u8>,
    w: int,
    h: int,
    f: spec_fn(int, int) -> bool,
    c: Seq<u8>,
    x: int,
    y: int,
    k: int,
)
    requires
        0 <= x < w,
        0 <= y < h,
        0 <= k < 4,
        px.len() == w * h * 4,
        c.len() == 4,
    ensures
        pixel_index(w, x, y) == 4 * (y * w + x),
        painted(px, w, f, c).len() == px.len(),
        painted(px, w, f, c)[4 * (y * w + x) + k] == if f(x, y) { c[k] } else { px[4 * (y * w + x) + k] },
{
    lemma_pixel_inside(w, h, x, y);
    assert((y * w + x) * 4 == 4 * (y * w + x)) by (nonlinear_arith);
    lemma_pixel_of_byte(w, x, y, 4 * (y * w + x) + k);
}

/// A colour over another leaves the first where it covers all, the second where it covers nothing,
/// and in between what lies between them in proportion, rounded down.
pub proof fn colours_mix_in_proportion(b: u8, c: u8, a: int)
    requires
        0 <= a <= 255,
    ensures
        a == 255 ==> mixed(b, c, a) == c,
        a == 0 ==> mixed(b, c, a) == b,
        255 * mixed(b, c, a) <= c * a + b * (255 - a) < 255 * (mixed(b, c, a) + 1),
        b <= c ==> b <= mixed(b, c, a) <= c,
        c <= b ==> c <= mixed(b, c, a) <= b,
{
    let t = c * a + b * (255 - a);
    assert(0 <= t <= 255 * 255 && (b <= c ==> 255 * b <= t <= 255 * c) && (c <= b ==> 255 * c <= t <= 255 * b))
        by (nonlinear_arith)
        requires
            0 <= a <= 255,
            0 <= b <= 255,
            0 <= c <= 255,
            t == c * a + b * (255 - a),
    ;
    if a == 255 {
        assert(t == 255 * c) by (nonlinear_arith)
            requires
                a == 255,
                t == c * a + b * (255 - a),
        ;
    }
    if a == 0 {
        assert(t == 255 * b) by (nonlinear_arith)
            requires
                a == 0,
                t == c * a + b * (255 - a),
        ;
    }
}

/// A character is drawn with its upper left corner at its place: each of its dots falls on the
/// pixel that lies as far right and down of that corner. A pixel that it covers gets its colour in
/// proportion and is opaque; any other stays.
pub proof fn characters_are_drawn_dot_by_dot(
    px: Seq<u8>,
    w: int,
    h: int,
    g: Glyph,
    gx: int,
    gy: int,
    c: Seq<u8>,
    x: int,
    y: int,
    k: int,
)
    requires
        0 <= x < w,
        0 <= y < h,
        0 <= k < 4,
        px.len() == w * h * 4,
        c.len() == 4,
    ensures
        ({
            let at = 4 * (y * w + x) + k;
            let now = with_glyph(px, w, h, g, gx, gy, c)[at];
            let (i, j) = (x - gx, y - gy);
            let on = 0 <= j < g.rows@.len() && 0 <= i < g.rows@[j]@.len() && g.rows@[j]@[i] > 0;
            &&& !on ==> now == px[at]
            &&& on && k == 3 ==> now == 255
            &&& on && k < 3 ==> now == mixed(px[at], c[k], g.rows@[j]@[i] as int)
        }),
{
    lemma_pixel_inside(w, h, x, y);
    assert((y * w + x) * 4 == 4 * (y * w + x)) by (nonlinear_arith);
    lemma_pixel_of_byte(w, x, y, 4 * (y * w + x) + k);
}

proof fn lemma_text_agrees(
    px: Seq<u8>,
    w: int,
    h: int,
    x: int,
    gy: int,
    max_x: int,
    gw: int,
    s: Seq<Glyph>,
    t: Seq<Glyph>,
    c: Seq<u8>,
    n: int,
)
    requires
        forall|k: int| 0 <= k < n ==> #[trigger] s[k] == t[k],
    ensures
        with_text(px, w, h, x, gy, max_x, gw, s, c, n) == with_text(px, w, h, x, gy, max_x, gw, t, c, n),
    decreases n,
{
    if n > 0 {
        lemma_text_agrees(px, w, h, x, gy, max_x, gw, s, t, c, n - 1);
        assert(s[n - 1] == t[n - 1]);
    }
}

/// A text is drawn character by character, from left to right, each as far behind the one before
/// as a character is wide: the second half of a text stands where the first one ends. A character
/// that would end beyond the limit is left out.
pub proof fn texts_are_drawn_in_order(
    px: Seq<u8>,
    w: int,
    h: int,
    x: int,
    gy: int,
    max_x: int,
    gw: int,
    first: Seq<Glyph>,
    then: Seq<Glyph>,
    g: Glyph,
    c: Seq<u8>,
)
    ensures
        with_text(px, w, h, x, gy, max_x, gw, first + then, c, (first + then).len() as int) == with_text(
            with_text(px, w, h, x, gy, max_x, gw, first, c, first.len() as int),
            w,
            h,
            x + first.len() * gw,
            gy,
            max_x,
            gw,
            then,
            c,
            then.len() as int,
        ),
        with_text(px, w, h, x, gy, max_x, gw, seq![g], c, 1) == if x + gw <= max_x {
            with_glyph(px, w, h, g, x, gy, c)
        } else {
            px
        },
    decreases then.len(),
{
    reveal_with_fuel(with_text, 2);
    assert(x + 1 * gw == x + gw && x + (1 - 1) * gw == x) by (nonlinear_arith);
    if then.len() == 0 {
        assert(first + then =~= first);
    } else {
        let rest = then.drop_last();
        let n = first.len() as int;
        let m = then.len() as int;
        texts_are_drawn_in_order(px, w, h, x, gy, max_x, gw, first, rest, g, c);
        lemma_text_agrees(px, w, h, x, gy, max_x, gw, first + then, first + rest, c, n + m - 1);
        let p = with_text(px, w, h, x, gy, max_x, gw, first, c, n);
        lemma_text_agrees(p, w, h, x + n * gw, gy, max_x, gw, then, rest, c, m - 1);
        assert(x + (n + m) * gw == x + n * gw + m * gw) by (nonlinear_arith);
        assert(x + (n + m - 1) * gw == x + n * gw + (m - 1) * gw) by (nonlinear_arith);
        assert((first + then)[n + m - 1] == then[m - 1]);
    }
}

/// A text stands in the middle of the image: as much room is above it as below, but for one row.
pub proof fn texts_stand_in_the_middle(buf_h: u32, y: u32, glyph_h: u32)
    ensures
        buf_h >= glyph_h ==> {
            let above = text_row(buf_h, y, glyph_h) - y;
            let below = buf_h - glyph_h - above;
            0 <= above <= below <= above + 1
        },
        buf_h < glyph_h ==> text_row(buf_h, y, glyph_h) == y,
{
}

/// The bands of a screen follow one another without a gap from the first row to the last, and all
/// but the last are equally high.
pub proof fn bands_follow_one_another(bands: Seq<(u32, u32)>, h: int, rows: int, i: int)
    requires
        cuts(bands, h, rows),
        0 <= i < bands.len(),
    ensures
        bands[0].0 == 0,
        bands.last().1 == h,
        bands[i].0 < bands[i].1 <= h,
        i + 1 < bands.len() ==> bands[i].1 == bands[i + 1].0 && bands[i].1 - bands[i].0 == rows,
        i + 1 == bands.len() ==> bands[i].1 - bands[i].0 <= rows,
{
    assert(bands[0].0 == 0 * rows);
    assert((i + 1) * rows == i * rows + rows) by (nonlinear_arith);
    if i + 1 < bands.len() {
        assert(bands[i + 1].0 == (i + 1) * rows);
        assert(bands[i + 1].0 < bands[i + 1].1);
        assert((i + 2) * rows == (i + 1) * rows + rows) by (nonlinear_arith);
        assert(bands[i + 1].1 <= h);
    }
}

/// A row of the screen lies in one of the bands.
pub proof fn every_row_lies_in_a_band(bands: Seq<(u32, u32)>, h: int, rows: int, y: int)
    requires
        cuts(bands, h, rows),
        0 <= y < h,
    ensures
        exists|i: int| 0 <= i < bands.len() && (#[trigger] bands[i]).0 <= y < bands[i].1,
{
    assert(bands.len() > 0);
    lemma_row_from(bands, h, rows, y, bands.len() - 1);
}

proof fn lemma_row_from(bands: Seq<(u32, u32)>, h: int, rows: int, y: int, i: int)
    requires
        cuts(bands, h, rows),
        0 <= i < bands.len(),
        0 <= y < bands[i].1,
    ensures
        exists|k: int| 0 <= k < bands.len() && (#[trigger] bands[k]).0 <= y < bands[k].1,
    decreases i,
{
    if bands[i].0 <= y {
    } else {
        bands_follow_one_another(bands, h, rows, i);
        assert(i > 0);
        bands_follow_one_another(bands, h, rows, i - 1);
        lemma_row_from(bands, h, rows, y, i - 1);
    }
}

/// The screen is cut into one band for each processor, but into one at least and sixteen at most;
/// a band is as high as it has to be for so many to cover the screen, and no higher.
pub proof fn bands_share_the_screen(cpus: int, h: int)
    requires
        0 < h,
    ensures
        1 <= band_count(cpus) <= 16,
        1 <= cpus <= 16 ==> band_count(cpus) == cpus,
        cpus > 16 ==> band_count(cpus) == 16,
        cpus < 1 ==> band_count(cpus) == 1,
        band_rows(cpus, h) * band_count(cpus) >= h,
        (band_rows(cpus, h) - 1) * band_count(cpus) < h,
{
    let n = band_count(cpus);
    let r = band_rows(cpus, h);
    vstd::arithmetic::div_mod::lemma_fundamental_div_mod(h + n - 1, n);
    vstd::arithmetic::div_mod::lemma_mod_bound(h + n - 1, n);
    assert(r * n == n * r) by (nonlinear_arith);
    assert((r - 1) * n == n * r - n) by (nonlinear_arith);
}

proof fn lemma_cores(mask: u32, n: int, c: u32)
    requires
        0 <= n <= 32,
    ensures
        cores_in(mask, n).contains(c) <==> c < n && mask & (1u32 << c) != 0,
        forall|i: int| 0 <= i < cores_in(mask, n).len() ==> (#[trigger] cores_in(mask, n)[i]) < n,
        forall|i: int, j: int|
            0 <= i < j < cores_in(mask, n).len() ==> (#[trigger] cores_in(mask, n)[i]) < (#[trigger] cores_in(
                mask,
                n,
            )[j]),
    decreases n,
{
    if n > 0 {
        lemma_cores(mask, n - 1, c);
        let was = cores_in(mask, n - 1);
        let now = cores_in(mask, n);
        if mask & (1u32 << ((n - 1) as u32)) != 0 {
            assert(now == was.push((n - 1) as u32));
            if was.contains(c) {
                let k = choose|k: int| 0 <= k < was.len() && was[k] == c;
                assert(now[k] == c);
            }
            if c == n - 1 {
                assert(now[was.len() as int] == c);
            }
            if now.contains(c) {
                let k = choose|k: int| 0 <= k < now.len() && now[k] == c;
                if k < was.len() {
                    assert(was[k] == c);
                }
            }
        }
    }
}

/// The processors in a mask are listed once each, in order: exactly those whose bit is set. Noting
/// a processor adds it and loses none.
pub proof fn masks_list_processors(mask: u32, cpu: u32, other: u32)
    requires
        cpu < 32,
        other < 32,
    ensures
        cores_in(mask, 32).contains(cpu) <==> mask & (1u32 << cpu) != 0,
        forall|i: int, j: int|
            0 <= i < j < cores_in(mask, 32).len() ==> (#[trigger] cores_in(mask, 32)[i]) < (#[trigger] cores_in(
                mask,
                32,
            )[j]),
        cores_in(mask | core_bit(cpu), 32).contains(cpu),
        other != cpu ==> cores_in(mask | core_bit(cpu), 32).contains(other) == cores_in(mask, 32).contains(other),
{
    lemma_cores(mask, 32, cpu);
    lemma_cores(mask, 32, other);
    lemma_cores(mask | core_bit(cpu), 32, cpu);
    lemma_cores(mask | core_bit(cpu), 32, other);
    assert((mask | (1u32 << cpu)) & (1u32 << cpu) != 0) by (bit_vector)
        requires
            cpu < 32,
    ;
    if other != cpu {
        assert((mask | (1u32 << cpu)) & (1u32 << other) == mask & (1u32 << other)) by (bit_vector)
            requires
                cpu < 32,
                other < 32,
                other != cpu,
        ;
    }
}

/// The processor of the compositor is the first one that is there for it.
pub proof fn first_gui_core_counts(roles: Seq<CoreRole>, i: int)
    requires
        0 <= i <= roles.len(),
    ensures
        match gui_core(roles, i) {
            Some(c) => i <= c < roles.len() && roles[c] is GuiCompositor && forall|j: int|
                i <= j < c ==> !((#[trigger] roles[j]) is GuiCompositor),
            None => forall|j: int| i <= j < roles.len() ==> !((#[trigger] roles[j]) is GuiCompositor),
        },
    decreases roles.len() - i,
{
    if i < roles.len() && !(roles[i] is GuiCompositor) {
        first_gui_core_counts(roles, i + 1);
    }
}

/// What a compiled program's end is told as: its own code where it came to an end by itself, 127
/// where what it needs is missing, 126 where it could not be set up and 134 where it trapped.
pub proof fn ends_have_their_codes(c: i32)
    ensures
        exit_code(CwasmEnd::NoProvider) == 127,
        exit_code(CwasmEnd::NotLoaded) == 126,
        exit_code(CwasmEnd::TuiTrapped) == 134,
        exit_code(CwasmEnd::TuiReturned(c)) == c,
        exit_code(CwasmEnd::Ran(Some(c))) == c,
        exit_code(CwasmEnd::Ran(None)) == 0,
{
}

/// A screen with pixels stands for itself, any other for one of 1280 by 800.
pub proof fn missing_screen_has_a_stand_in(geom: (u32, u32))
    ensures
        geom.0 > 0 && geom.1 > 0 ==> screen_or_standin(geom) == geom,
        geom.0 == 0 || geom.1 == 0 ==> screen_or_standin(geom) == (1280u32, 800u32),
{
}

/// The id of a new window is the one that was freed last, or else one that was never used.
pub proof fn ids_are_used_again(c: Compositor)
    ensures
        c.free_ids@.len() > 0 ==> next_window_id(c) == c.free_ids@[c.free_ids@.len() - 1],
        c.free_ids@.len() == 0 ==> next_window_id(c) == c.next_id,
{
}

/// A program that was loaded is found under its name, and nothing is found under any other.
pub proof fn loaded_programs_are_found(s: Seq<Loaded>, n: int, name: Seq<char>, i: int)
    requires
        0 <= n <= s.len(),
        forall|a: int, b: int| 0 <= a < b < n ==> (#[trigger] s[a]).name@ != (#[trigger] s[b]).name@,
    ensures
        0 <= i < n && s[i].name@ == name ==> found(s, n, name) == Some(s[i].module),
        (forall|k: int| 0 <= k < n ==> (#[trigger] s[k]).name@ != name) ==> found(s, n, name) is None,
    decreases n,
{
    if n > 0 {
        loaded_programs_are_found(s, n - 1, name, i);
        if forall|k: int| 0 <= k < n ==> (#[trigger] s[k]).name@ != name {
            assert(s[n - 1].name@ != name);
        }
    }
}

} // verus!
