//! Which triangles a band has to draw, and where: clipping, winding and the rule for
//! pixels on a shared edge.

use vstd::prelude::*;
use crate::pixels::painted;
use crate::raster::band::{fill_rect, Band};
use crate::raster::codec::{Prim, Vertex};
use crate::raster::float::{
    ceil32, ceil_i32, eq, floor32, floor_i32, fmax, fmin, is_finite, less, lt, max, min, same, INFINITY,
};
use crate::raster::meta::prim_indices;
use crate::raster::rect::{larger, max_i32, min_i32, smaller, IRect};

verus! {

/// A triangle to draw: its texture, the pixels it may touch and its three vertices.
#[derive(Clone, Copy, PartialEq, Eq, Structural, Debug)]
pub struct TriJob {
    pub tex_id: u64,
    pub clip: IRect,
    pub a: u32,
    pub b: u32,
    pub c: u32,
}

/// The sign of a triangle's area or of an edge function. What is no number has none.
#[derive(Clone, Copy, PartialEq, Eq, Structural, Debug)]
pub enum Sign {
    Negative,
    Zero,
    Positive,
    Undefined,
}

/// A triangle made ready to draw: counter-clockwise vertices, which of its edges own
/// the pixels that lie on them, the pixels to look at, and whether the texture
/// coordinates are the same at the three vertices.
#[derive(Clone, Copy, PartialEq, Eq, Structural, Debug)]
pub struct TriSetup {
    pub v0: Vertex,
    pub v1: Vertex,
    pub v2: Vertex,
    pub tl0: bool,
    pub tl1: bool,
    pub tl2: bool,
    pub bbox: IRect,
    pub uv_const: bool,
}

/// The pixels of a primitive inside the damaged region.
pub open spec fn prim_clip(p: Prim, damage: IRect) -> IRect {
    IRect {
        x0: larger(floor32(p.clip[0]), damage.x0),
        y0: larger(floor32(p.clip[1]), damage.y0),
        x1: smaller(ceil32(p.clip[2]), damage.x1),
        y1: smaller(ceil32(p.clip[3]), damage.y1),
    }
}

/// The triangles among the first `n` triples of `tri`, in order; a triple that refers to
/// no vertex is left out.
pub open spec fn triangles(tri: Seq<u32>, n: int, count: int, tex_id: u64, clip: IRect) -> Seq<TriJob>
    decreases n,
{
    if n <= 0 {
        Seq::empty()
    } else {
        let a = tri[3 * (n - 1)];
        let b = tri[3 * (n - 1) + 1];
        let c = tri[3 * (n - 1) + 2];
        let rest = triangles(tri, n - 1, count, tex_id, clip);
        if a < count && b < count && c < count {
            rest.push(TriJob { tex_id, clip, a, b, c })
        } else {
            rest
        }
    }
}

/// The triangles of one primitive: none where nothing of it lies in the damaged region.
pub open spec fn prim_jobs(p: Prim, count: int, idx: Seq<u32>, damage: IRect) -> Seq<TriJob> {
    let tri = prim_indices(p, idx);
    if prim_clip(p, damage).none() {
        Seq::empty()
    } else {
        triangles(tri, tri.len() as int / 3, count, p.tex_id, prim_clip(p, damage))
    }
}

/// The triangles of all primitives, in the order in which they are drawn.
pub open spec fn frame_jobs(prims: Seq<Prim>, count: int, idx: Seq<u32>, damage: IRect) -> Seq<TriJob>
    decreases prims.len(),
{
    if prims.len() == 0 {
        Seq::empty()
    } else {
        frame_jobs(prims.drop_last(), count, idx, damage) + prim_jobs(prims.last(), count, idx, damage)
    }
}

/// Clears the damaged pixels of a band and lists the triangles that are to be drawn over
/// them.
pub fn raster_band(
    band: &mut Band,
    damage: (i32, i32, i32, i32),
    clear: [u8; 4],
    verts: &[Vertex],
    idx: &[u32],
    prims: &[Prim],
) -> (r: Vec<TriJob>)
    requires
        old(band).wf(),
        0 <= damage.0,
        damage.2 <= old(band).width,
    ensures
        final(band).wf(),
        final(band).width == old(band).width,
        final(band).y0 == old(band).y0,
        final(band).y1 == old(band).y1,
        final(final(band).px)@ == final(old(band).px)@,
        final(band).bytes() == painted(
            old(band).bytes(),
            old(band).width as int,
            |a: int, b: int| damage.0 <= a < damage.2 && damage.1 <= b + old(band).y0 < damage.3,
            clear@,
        ),
        r@ == frame_jobs(
            prims@,
            verts@.len() as int,
            idx@,
            (IRect { x0: damage.0, y0: damage.1, x1: damage.2, y1: damage.3 }),
        ),
{
    fill_rect(band, damage, clear);
    let region = IRect { x0: damage.0, y0: damage.1, x1: damage.2, y1: damage.3 };
    let count: usize = verts.len();
    let mut jobs: Vec<TriJob> = Vec::new();
    let mut i: usize = 0;
    while i < prims.len()
        invariant
            i <= prims.len(),
            count == verts@.len(),
            jobs@ == frame_jobs(prims@.take(i as int), count as int, idx@, region),
        decreases prims.len() - i,
    {
        let p = prims[i];
        let ghost done = jobs@;
        proof {
            assert(prims@.take(i + 1).drop_last() =~= prims@.take(i as int));
            assert(prims@.take(i + 1).last() == p);
        }
        let clip = IRect {
            x0: max_i32(floor_i32(p.clip[0]), region.x0),
            y0: max_i32(floor_i32(p.clip[1]), region.y0),
            x1: min_i32(ceil_i32(p.clip[2]), region.x1),
            y1: min_i32(ceil_i32(p.clip[3]), region.y1),
        };
        let ghost tri = prim_indices(p, idx@);
        if !clip.is_empty() && p.idx0 <= p.idx1 && p.idx1 as usize <= idx.len() {
            let first: usize = p.idx0 as usize;
            let n: usize = (p.idx1 - p.idx0) as usize / 3;
            let mut k: usize = 0;
            assert(jobs@ =~= done + triangles(tri, 0, count as int, p.tex_id, clip));
            while k < n
                invariant
                    k <= n,
                    n == tri.len() as int / 3,
                    tri.len() == p.idx1 - p.idx0,
                    first == p.idx0,
                    p.idx0 <= p.idx1 <= idx@.len(),
                    tri == prim_indices(p, idx@),
                    jobs@ == done + triangles(tri, k as int, count as int, p.tex_id, clip),
                decreases n - k,
            {
                let a: u32 = idx[first + 3 * k];
                let b: u32 = idx[first + 3 * k + 1];
                let c: u32 = idx[first + 3 * k + 2];
                assert(tri[3 * k as int] == a && tri[3 * k as int + 1] == b && tri[3 * k as int + 2] == c);
                if (a as usize) < count && (b as usize) < count && (c as usize) < count {
                    jobs.push(TriJob { tex_id: p.tex_id, clip, a, b, c });
                }
                k += 1;
                assert(jobs@ =~= done + triangles(tri, k as int, count as int, p.tex_id, clip));
            }
        } else {
            assert(prim_jobs(p, count as int, idx@, region) =~= Seq::empty());
            assert(jobs@ =~= done + prim_jobs(p, count as int, idx@, region));
        }
        i += 1;
    }
    assert(prims@.take(i as int) =~= prims@);
    jobs
}

/// Whether the edge from `p` to `q` owns the pixels that lie on it, with y pointing down
/// and counter-clockwise vertices: an edge that runs upwards, or a top edge, which is level
/// and runs to the left. A difference of two equal infinities is no number and decides nothing.
pub open spec fn top_left(px: u32, py: u32, qx: u32, qy: u32) -> bool {
    less(qy, py) || same(qy, py) && is_finite(qy) && less(qx, px)
}

fn is_top_left(px: u32, py: u32, qx: u32, qy: u32) -> (r: bool)
    ensures
        r == top_left(px, py, qx, qy),
{
    lt(qy, py) || eq(qy, py) && qy % 0x8000_0000 < INFINITY && lt(qx, px)
}

/// The vertices in counter-clockwise order.
pub open spec fn wound(area: Sign, a: Vertex, b: Vertex, c: Vertex) -> (Vertex, Vertex, Vertex) {
    if area is Positive {
        (a, b, c)
    } else {
        (a, c, b)
    }
}

/// The pixels around a triangle inside the clip rectangle and the rows `[y0, y1)`.
pub open spec fn tri_box(clip: IRect, y0: i32, y1: i32, a: Vertex, b: Vertex, c: Vertex) -> IRect {
    IRect {
        x0: larger(floor32(fmin(fmin(a.x, b.x), c.x)), clip.x0),
        y0: larger(larger(floor32(fmin(fmin(a.y, b.y), c.y)), clip.y0), y0),
        x1: smaller(ceil32(fmax(fmax(a.x, b.x), c.x)), clip.x1),
        y1: smaller(smaller(ceil32(fmax(fmax(a.y, b.y), c.y)), clip.y1), y1),
    }
}

/// A triangle made ready to draw.
pub open spec fn setup_of(clip: IRect, y0: i32, y1: i32, v: (Vertex, Vertex, Vertex)) -> TriSetup {
    TriSetup {
        v0: v.0,
        v1: v.1,
        v2: v.2,
        tl0: top_left(v.1.x, v.1.y, v.2.x, v.2.y),
        tl1: top_left(v.2.x, v.2.y, v.0.x, v.0.y),
        tl2: top_left(v.0.x, v.0.y, v.1.x, v.1.y),
        bbox: tri_box(clip, y0, y1, v.0, v.1, v.2),
        uv_const: same(v.0.u, v.1.u) && same(v.0.u, v.2.u) && same(v.0.v, v.1.v) && same(v.0.v, v.2.v),
    }
}

/// Makes a triangle ready to draw into the rows `[y0, y1)`; nothing for a triangle
/// without area or without pixels there. `area` is the sign of the area of `(a, b, c)`.
pub fn raster_tri(area: Sign, clip: IRect, y0: i32, y1: i32, a: &Vertex, b: &Vertex, c: &Vertex) -> (r: Option<TriSetup>)
    ensures
        match r {
            Some(s) => s == setup_of(clip, y0, y1, wound(area, *a, *b, *c)) && !(area is Zero) && !s.bbox.none(),
            None => area is Zero || setup_of(clip, y0, y1, wound(area, *a, *b, *c)).bbox.none(),
        },
        area is Zero ==> r is None,
        r matches Some(s) ==> {
            &&& s.v0 == *a
            &&& area is Positive ==> s.v1 == *b && s.v2 == *c
            &&& !(area is Positive) ==> s.v1 == *c && s.v2 == *b
            &&& clip.x0 <= s.bbox.x0 < s.bbox.x1 <= clip.x1
            &&& clip.y0 <= s.bbox.y0 < s.bbox.y1 <= clip.y1
            &&& y0 <= s.bbox.y0 && s.bbox.y1 <= y1
        },
{
    if area == Sign::Zero {
        return None;
    }
    let v0 = *a;
    let v1 = if area == Sign::Positive { *b } else { *c };
    let v2 = if area == Sign::Positive { *c } else { *b };
    let bbox = IRect {
        x0: max_i32(floor_i32(min(min(v0.x, v1.x), v2.x)), clip.x0),
        y0: max_i32(max_i32(floor_i32(min(min(v0.y, v1.y), v2.y)), clip.y0), y0),
        x1: min_i32(ceil_i32(max(max(v0.x, v1.x), v2.x)), clip.x1),
        y1: min_i32(min_i32(ceil_i32(max(max(v0.y, v1.y), v2.y)), clip.y1), y1),
    };
    if bbox.is_empty() {
        return None;
    }
    let tl0: bool = is_top_left(v1.x, v1.y, v2.x, v2.y);
    let tl1: bool = is_top_left(v2.x, v2.y, v0.x, v0.y);
    let tl2: bool = is_top_left(v0.x, v0.y, v1.x, v1.y);
    let uv_const: bool = eq(v0.u, v1.u) && eq(v0.u, v2.u) && eq(v0.v, v1.v) && eq(v0.v, v2.v);
    Some(TriSetup { v0, v1, v2, tl0, tl1, tl2, bbox, uv_const })
}

/// Whether a pixel is on the inner side of an edge, by the sign of the edge function
/// there, or on an edge that owns its pixels.
pub open spec fn inside(e: Sign, owns: bool) -> bool {
    e is Positive || e is Zero && owns
}

impl TriSetup {
    /// Whether the triangle covers a pixel, by the signs of the three edge functions.
    pub fn covers(&self, e0: Sign, e1: Sign, e2: Sign) -> (r: bool)
        ensures
            r == (inside(e0, self.tl0) && inside(e1, self.tl1) && inside(e2, self.tl2)),
            r == {
                &&& e0 is Positive || e0 is Zero && self.tl0
                &&& e1 is Positive || e1 is Zero && self.tl1
                &&& e2 is Positive || e2 is Zero && self.tl2
            },
    {
        (e0 == Sign::Positive || e0 == Sign::Zero && self.tl0) && (e1 == Sign::Positive || e1 == Sign::Zero
            && self.tl1) && (e2 == Sign::Positive || e2 == Sign::Zero && self.tl2)
    }
}

/// Of the two triangles on the sides of an edge between finite points, exactly one owns
/// the pixels on the edge: the edge runs the other way round in the other triangle.
pub proof fn shared_edge_has_one_owner(px: u32, py: u32, qx: u32, qy: u32)
    requires
        is_finite(px),
        is_finite(py),
        is_finite(qx),
        is_finite(qy),
        !same(px, qx) || !same(py, qy),
    ensures
        top_left(px, py, qx, qy) != top_left(qx, qy, px, py),
{
}

/// Every triangle that is listed refers to vertices that exist, and its clip rectangle
/// lies inside the damaged region.
pub proof fn jobs_are_drawable(prims: Seq<Prim>, count: int, idx: Seq<u32>, damage: IRect, i: int)
    requires
        0 <= i < frame_jobs(prims, count, idx, damage).len(),
    ensures
        ({
            let j = frame_jobs(prims, count, idx, damage)[i];
            &&& j.a < count && j.b < count && j.c < count
            &&& !j.clip.none()
            &&& damage.x0 <= j.clip.x0 && j.clip.x1 <= damage.x1
            &&& damage.y0 <= j.clip.y0 && j.clip.y1 <= damage.y1
        }),
    decreases prims.len(),
{
    if prims.len() > 0 {
        let head = frame_jobs(prims.drop_last(), count, idx, damage);
        if i < head.len() {
            jobs_are_drawable(prims.drop_last(), count, idx, damage, i);
        } else {
            let p = prims.last();
            let tri = prim_indices(p, idx);
            lemma_triangles(tri, tri.len() as int / 3, count, p.tex_id, prim_clip(p, damage), i - head.len());
        }
    }
}

proof fn lemma_triangles(tri: Seq<u32>, n: int, count: int, tex_id: u64, clip: IRect, i: int)
    requires
        0 <= i < triangles(tri, n, count, tex_id, clip).len(),
    ensures
        ({
            let j = triangles(tri, n, count, tex_id, clip)[i];
            j.a < count && j.b < count && j.c < count && j.clip == clip
        }),
    decreases n,
{
    if n > 0 && i < triangles(tri, n - 1, count, tex_id, clip).len() {
        lemma_triangles(tri, n - 1, count, tex_id, clip, i);
    }
}

} // verus!
