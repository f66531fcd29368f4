//! What drawing in bands gives: the picture that drawing in one go gives.
//!
//! The colour that a triangle leaves in a pixel is floating point and is not computed here. It
//! depends on the triangle, the pixel's place and what stood there, not on the band, so that
//! the laws below hold of every such colour.

use vstd::arithmetic::div_mod::{lemma_hoist_over_denominator, lemma_mod_multiples_vanish};
use vstd::prelude::*;
use crate::pixels::{column, lemma_row_of_byte, painted, row};
use crate::raster::codec::{Prim, Vertex};
use crate::raster::rect::IRect;
use crate::raster::triangle::{frame_jobs, jobs_are_drawable, setup_of, wound, Sign, TriJob};

verus! {

/// The rows from `y0` on, `w` pixels wide, with every pixel inside `area` coloured anew: `f`
/// gives the new colour from the column, the row of the screen and the old colour.
pub open spec fn coloured(
    px: Seq<u8>,
    w: int,
    y0: int,
    area: IRect,
    f: spec_fn(int, int, Seq<u8>) -> Seq<u8>,
) -> Seq<u8> {
    Seq::new(
        px.len(),
        |i: int|
            if area.has(column(w, i), row(w, i) + y0) {
                f(column(w, i), row(w, i) + y0, px.subrange(i - i % 4, i - i % 4 + 4))[i % 4]
            } else {
                px[i]
            },
    )
}

/// The pixels of a triangle in the rows `[y0, y1)`, as `raster_tri` makes it ready.
pub open spec fn job_box(j: TriJob, y0: i32, y1: i32, verts: Seq<Vertex>, area: Sign) -> IRect {
    setup_of(j.clip, y0, y1, wound(area, verts[j.a as int], verts[j.b as int], verts[j.c as int])).bbox
}

/// The rows `[y0, y1)` after the triangles were drawn, one after the other. `area` tells the
/// sign of a triangle's area; those without one are left out. `shade` gives the colour that a
/// triangle leaves in a pixel of its box: the old one where it does not cover the pixel.
pub open spec fn drawn(
    px: Seq<u8>,
    w: int,
    y0: i32,
    y1: i32,
    jobs: Seq<TriJob>,
    verts: Seq<Vertex>,
    area: spec_fn(TriJob) -> Sign,
    shade: spec_fn(TriJob, int, int, Seq<u8>) -> Seq<u8>,
) -> Seq<u8>
    decreases jobs.len(),
{
    if jobs.len() == 0 {
        px
    } else {
        let before = drawn(px, w, y0, y1, jobs.drop_last(), verts, area, shade);
        let j = jobs.last();
        if area(j) is Zero {
            before
        } else {
            coloured(
                before,
                w,
                y0 as int,
                job_box(j, y0, y1, verts, area(j)),
                |x: int, y: int, p: Seq<u8>| shade(j, x, y, p),
            )
        }
    }
}

/// The rows `[y0, y1)` after `raster_band` cleared them and its triangles were drawn.
pub open spec fn rastered(
    px: Seq<u8>,
    w: int,
    y0: i32,
    y1: i32,
    damage: IRect,
    clear: Seq<u8>,
    verts: Seq<Vertex>,
    idx: Seq<u32>,
    prims: Seq<Prim>,
    area: spec_fn(TriJob) -> Sign,
    shade: spec_fn(TriJob, int, int, Seq<u8>) -> Seq<u8>,
) -> Seq<u8> {
    drawn(
        painted(px, w, |a: int, b: int| damage.x0 <= a < damage.x1 && damage.y0 <= b + y0 < damage.y1, clear),
        w,
        y0,
        y1,
        frame_jobs(prims, verts.len() as int, idx, damage),
        verts,
        area,
        shade,
    )
}

proof fn lemma_below(w: int, h: int, i: int)
    requires
        0 < w,
        0 <= h,
        0 <= i,
    ensures
        column(w, i + w * h * 4) == column(w, i),
        row(w, i + w * h * 4) == row(w, i) + h,
        (i + w * h * 4) % 4 == i % 4,
{
    let k = i / 4;
    assert((i + w * h * 4) / 4 == k + w * h && (i + w * h * 4) % 4 == i % 4) by {
        assert(w * h * 4 == 4 * (w * h)) by (nonlinear_arith);
    }
    lemma_hoist_over_denominator(k, h, w as nat);
    lemma_mod_multiples_vanish(h, k, w);
    assert(k + h * w == k + w * h && w * h + k == k + w * h) by (nonlinear_arith);
}

proof fn lemma_painted_joins(
    top: Seq<u8>,
    bottom: Seq<u8>,
    w: int,
    h: int,
    f: spec_fn(int, int) -> bool,
    g: spec_fn(int, int) -> bool,
    c: Seq<u8>,
)
    requires
        0 < w,
        0 <= h,
        top.len() == w * h * 4,
        forall|x: int, y: int| #[trigger] g(x, y) == f(x, y + h),
    ensures
        painted(top, w, f, c) + painted(bottom, w, g, c) == painted(top + bottom, w, f, c),
{
    let whole = painted(top + bottom, w, f, c);
    let parts = painted(top, w, f, c) + painted(bottom, w, g, c);
    assert forall|i: int| 0 <= i < whole.len() implies parts[i] == whole[i] by {
        if i >= top.len() {
            let k = i - top.len();
            lemma_below(w, h, k);
            assert(g(column(w, k), row(w, k)) == f(column(w, k), row(w, k) + h));
        }
    }
    assert(parts =~= whole);
}

proof fn lemma_coloured_joins(
    top: Seq<u8>,
    bottom: Seq<u8>,
    w: int,
    y0: int,
    ym: int,
    y1: int,
    boxes: (IRect, IRect, IRect),
    f: spec_fn(int, int, Seq<u8>) -> Seq<u8>,
)
    requires
        0 < w,
        y0 <= ym <= y1,
        top.len() == w * (ym - y0) * 4,
        bottom.len() == w * (y1 - ym) * 4,
        forall|x: int, y: int| y0 <= y < ym ==> (#[trigger] boxes.0.has(x, y) <==> boxes.2.has(x, y)),
        forall|x: int, y: int| ym <= y < y1 ==> (#[trigger] boxes.1.has(x, y) <==> boxes.2.has(x, y)),
    ensures
        coloured(top, w, y0, boxes.0, f) + coloured(bottom, w, ym, boxes.1, f) == coloured(
            top + bottom,
            w,
            y0,
            boxes.2,
            f,
        ),
{
    let px = top + bottom;
    let whole = coloured(px, w, y0, boxes.2, f);
    let parts = coloured(top, w, y0, boxes.0, f) + coloured(bottom, w, ym, boxes.1, f);
    assert forall|i: int| 0 <= i < whole.len() implies parts[i] == whole[i] by {
        if i < top.len() {
            lemma_row_of_byte(w, ym - y0, i);
            assert(boxes.0.has(column(w, i), row(w, i) + y0) <==> boxes.2.has(column(w, i), row(w, i) + y0));
            assert(px.subrange(i - i % 4, i - i % 4 + 4) =~= top.subrange(i - i % 4, i - i % 4 + 4));
        } else {
            let k = i - top.len();
            lemma_below(w, ym - y0, k);
            lemma_row_of_byte(w, y1 - ym, k);
            assert(row(w, i) + y0 == row(w, k) + ym);
            assert(boxes.1.has(column(w, k), row(w, k) + ym) <==> boxes.2.has(column(w, k), row(w, k) + ym));
            assert(i % 4 == k % 4);
            assert(px.subrange(i - i % 4, i - i % 4 + 4) =~= bottom.subrange(k - k % 4, k - k % 4 + 4));
        }
    }
    assert(parts =~= whole);
}

pub(crate) proof fn lemma_drawn_len(
    px: Seq<u8>,
    w: int,
    y0: i32,
    y1: i32,
    jobs: Seq<TriJob>,
    verts: Seq<Vertex>,
    area: spec_fn(TriJob) -> Sign,
    shade: spec_fn(TriJob, int, int, Seq<u8>) -> Seq<u8>,
)
    ensures
        drawn(px, w, y0, y1, jobs, verts, area, shade).len() == px.len(),
    decreases jobs.len(),
{
    if jobs.len() > 0 {
        lemma_drawn_len(px, w, y0, y1, jobs.drop_last(), verts, area, shade);
    }
}

/// The triangles that one band draws and the band below it draws give what one band of all
/// those rows gives.
proof fn lemma_drawn_joins(
    top: Seq<u8>,
    bottom: Seq<u8>,
    w: int,
    y0: i32,
    ym: i32,
    y1: i32,
    jobs: Seq<TriJob>,
    verts: Seq<Vertex>,
    area: spec_fn(TriJob) -> Sign,
    shade: spec_fn(TriJob, int, int, Seq<u8>) -> Seq<u8>,
)
    requires
        0 < w,
        y0 <= ym <= y1,
        top.len() == w * (ym - y0) * 4,
        bottom.len() == w * (y1 - ym) * 4,
    ensures
        drawn(top, w, y0, ym, jobs, verts, area, shade) + drawn(bottom, w, ym, y1, jobs, verts, area, shade) == drawn(
            top + bottom,
            w,
            y0,
            y1,
            jobs,
            verts,
            area,
            shade,
        ),
    decreases jobs.len(),
{
    if jobs.len() > 0 {
        let head = jobs.drop_last();
        let j = jobs.last();
        lemma_drawn_joins(top, bottom, w, y0, ym, y1, head, verts, area, shade);
        lemma_drawn_len(top, w, y0, ym, head, verts, area, shade);
        lemma_drawn_len(bottom, w, ym, y1, head, verts, area, shade);
        if !(area(j) is Zero) {
            lemma_coloured_joins(
                drawn(top, w, y0, ym, head, verts, area, shade),
                drawn(bottom, w, ym, y1, head, verts, area, shade),
                w,
                y0 as int,
                ym as int,
                y1 as int,
                (
                    job_box(j, y0, ym, verts, area(j)),
                    job_box(j, ym, y1, verts, area(j)),
                    job_box(j, y0, y1, verts, area(j)),
                ),
                |x: int, y: int, p: Seq<u8>| shade(j, x, y, p),
            );
        }
    }
}

/// Two adjoining bands, each drawn for itself, give byte for byte what one band of all their
/// rows gives, whatever colours the triangles leave.
pub proof fn bands_give_the_canvas(
    top: Seq<u8>,
    bottom: Seq<u8>,
    w: int,
    y0: i32,
    ym: i32,
    y1: i32,
    damage: IRect,
    clear: Seq<u8>,
    verts: Seq<Vertex>,
    idx: Seq<u32>,
    prims: Seq<Prim>,
    area: spec_fn(TriJob) -> Sign,
    shade: spec_fn(TriJob, int, int, Seq<u8>) -> Seq<u8>,
)
    requires
        0 < w,
        y0 <= ym <= y1,
        top.len() == w * (ym - y0) * 4,
        bottom.len() == w * (y1 - ym) * 4,
    ensures
        rastered(top, w, y0, ym, damage, clear, verts, idx, prims, area, shade) + rastered(
            bottom,
            w,
            ym,
            y1,
            damage,
            clear,
            verts,
            idx,
            prims,
            area,
            shade,
        ) == rastered(top + bottom, w, y0, y1, damage, clear, verts, idx, prims, area, shade),
{
    let f = |a: int, b: int| damage.x0 <= a < damage.x1 && damage.y0 <= b + y0 < damage.y1;
    let g = |a: int, b: int| damage.x0 <= a < damage.x1 && damage.y0 <= b + ym < damage.y1;
    lemma_painted_joins(top, bottom, w, ym - y0, f, g, clear);
    lemma_drawn_joins(
        painted(top, w, f, clear),
        painted(bottom, w, g, clear),
        w,
        y0,
        ym,
        y1,
        frame_jobs(prims, verts.len() as int, idx, damage),
        verts,
        area,
        shade,
    );
}

proof fn lemma_drawn_inside(
    px: Seq<u8>,
    w: int,
    y0: i32,
    y1: i32,
    jobs: Seq<TriJob>,
    verts: Seq<Vertex>,
    area: spec_fn(TriJob) -> Sign,
    shade: spec_fn(TriJob, int, int, Seq<u8>) -> Seq<u8>,
    damage: IRect,
    i: int,
)
    requires
        0 <= i < px.len(),
        !damage.has(column(w, i), row(w, i) + y0),
        forall|k: int|
            0 <= k < jobs.len() ==> damage.x0 <= (#[trigger] jobs[k]).clip.x0 && jobs[k].clip.x1 <= damage.x1
                && damage.y0 <= jobs[k].clip.y0 && jobs[k].clip.y1 <= damage.y1,
    ensures
        drawn(px, w, y0, y1, jobs, verts, area, shade)[i] == px[i],
    decreases jobs.len(),
{
    if jobs.len() > 0 {
        let head = jobs.drop_last();
        assert forall|k: int| 0 <= k < head.len() implies damage.x0 <= (#[trigger] head[k]).clip.x0 && head[k].clip.x1
            <= damage.x1 && damage.y0 <= head[k].clip.y0 && head[k].clip.y1 <= damage.y1 by {
            assert(head[k] == jobs[k]);
        }
        lemma_drawn_inside(px, w, y0, y1, head, verts, area, shade, damage, i);
        lemma_drawn_len(px, w, y0, y1, head, verts, area, shade);
        assert(jobs.last() == jobs[jobs.len() - 1]);
        assert(!job_box(jobs.last(), y0, y1, verts, area(jobs.last())).has(column(w, i), row(w, i) + y0));
    }
}

/// No pixel outside the damaged region changes.
pub proof fn drawing_stays_in_the_damage(
    px: Seq<u8>,
    w: int,
    y0: i32,
    y1: i32,
    damage: IRect,
    clear: Seq<u8>,
    verts: Seq<Vertex>,
    idx: Seq<u32>,
    prims: Seq<Prim>,
    area: spec_fn(TriJob) -> Sign,
    shade: spec_fn(TriJob, int, int, Seq<u8>) -> Seq<u8>,
    i: int,
)
    requires
        0 <= i < px.len(),
        !damage.has(column(w, i), row(w, i) + y0),
    ensures
        rastered(px, w, y0, y1, damage, clear, verts, idx, prims, area, shade)[i] == px[i],
{
    let jobs = frame_jobs(prims, verts.len() as int, idx, damage);
    assert forall|k: int| 0 <= k < jobs.len() implies damage.x0 <= (#[trigger] jobs[k]).clip.x0 && jobs[k].clip.x1
        <= damage.x1 && damage.y0 <= jobs[k].clip.y0 && jobs[k].clip.y1 <= damage.y1 by {
        jobs_are_drawable(prims, verts.len() as int, idx, damage, k);
    }
    let f = |a: int, b: int| damage.x0 <= a < damage.x1 && damage.y0 <= b + y0 < damage.y1;
    lemma_drawn_inside(painted(px, w, f, clear), w, y0, y1, jobs, verts, area, shade, damage, i);
}

} // verus!
