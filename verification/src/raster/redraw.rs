//! What redrawing the damaged region alone gives: the whole new picture.
//!
//! As in the module on bands, the colour that a triangle leaves is floating point and is not
//! computed here. It depends on the texture, the vertices, the pixel's place and what stood
//! there, so that the laws below hold of every such colour.

use vstd::arithmetic::div_mod::lemma_div_is_ordered;
use vstd::arithmetic::power2::lemma_pow2_pos;
use vstd::prelude::*;
use crate::pixels::{column, lemma_row_of_byte, painted, row};
use crate::raster::bands::{drawing_stays_in_the_damage, drawn, job_box, lemma_drawn_len, rastered};
use crate::raster::codec::{Prim, Vertex};
use crate::raster::float::{ceil32, floor32, fmax, fmin, is_nan, one, units};
use crate::raster::meta::{
    coordinate, fnv, greatest, least, mesh_words, prim_box, prim_indices, prim_words, vertex_words, PrimMeta,
};
use crate::raster::rect::IRect;
use crate::raster::renderer::{all_on_screen, damage, damage_covers_changes, frame_meta, screen};
use crate::raster::triangle::{frame_jobs, prim_clip, prim_jobs, triangles, wound, Sign, TriJob};

verus! {

/// What a frame draws: vertices, indices into them, and primitives with their indices.
pub struct Scene {
    pub verts: Seq<Vertex>,
    pub idx: Seq<u32>,
    pub prims: Seq<Prim>,
}

impl Scene {
    /// What is remembered of the scene's primitives.
    pub open spec fn meta(self, w: i32, h: i32) -> Seq<PrimMeta> {
        frame_meta(self.prims, self.verts, self.idx, w, h)
    }

    /// Every index that a primitive uses refers to a vertex.
    pub open spec fn in_range(self) -> bool {
        forall|i: int| 0 <= i < self.prims.len() ==> valid(#[trigger] self.prims[i], self.verts, self.idx)
    }

    /// A canvas of `w` by `h` pixels after `region` was cleared and the scene drawn into it.
    /// `area` tells the sign of a triangle's area, and `shade` the colour that a triangle leaves
    /// in a pixel, from its texture, its vertices, the pixel's place and its old colour.
    pub open spec fn redrawn(
        self,
        px: Seq<u8>,
        w: i32,
        h: i32,
        region: IRect,
        clear: Seq<u8>,
        area: spec_fn(Vertex, Vertex, Vertex) -> Sign,
        shade: spec_fn(u64, Vertex, Vertex, Vertex, int, int, Seq<u8>) -> Seq<u8>,
    ) -> Seq<u8> {
        rastered(
            px,
            w as int,
            0,
            h,
            region,
            clear,
            self.verts,
            self.idx,
            self.prims,
            job_area(self.verts, area),
            job_shade(self.verts, shade),
        )
    }
}

/// Every index of a primitive refers to a vertex.
pub open spec fn valid(p: Prim, verts: Seq<Vertex>, idx: Seq<u32>) -> bool {
    forall|k: int| 0 <= k < prim_indices(p, idx).len() ==> #[trigger] prim_indices(p, idx)[k] < verts.len()
}

/// Primitives with the same hash have the same words: no two different ones collide.
pub open spec fn no_collision(a: Scene, b: Scene) -> bool {
    forall|i: int|
        #![trigger a.prims[i]]
        #![trigger b.prims[i]]
        0 <= i < a.prims.len() && i < b.prims.len() && fnv(prim_words(a.prims[i], a.verts, a.idx)) == fnv(
            prim_words(b.prims[i], b.verts, b.idx),
        ) ==> prim_words(a.prims[i], a.verts, a.idx) == prim_words(b.prims[i], b.verts, b.idx)
}

/// The sign of the area of a listed triangle.
pub open spec fn job_area(verts: Seq<Vertex>, area: spec_fn(Vertex, Vertex, Vertex) -> Sign) -> spec_fn(
    TriJob,
) -> Sign {
    |j: TriJob| area(verts[j.a as int], verts[j.b as int], verts[j.c as int])
}

/// The colour that a listed triangle leaves.
pub open spec fn job_shade(
    verts: Seq<Vertex>,
    shade: spec_fn(u64, Vertex, Vertex, Vertex, int, int, Seq<u8>) -> Seq<u8>,
) -> spec_fn(TriJob, int, int, Seq<u8>) -> Seq<u8> {
    |j: TriJob, x: int, y: int, p: Seq<u8>|
        shade(j.tex_id, verts[j.a as int], verts[j.b as int], verts[j.c as int], x, y, p)
}

spec fn four(s: Seq<u8>) -> Seq<u8> {
    Seq::new(4, |c: int| s[c])
}

/// A pixel after the listed triangles were drawn.
spec fn pixel_jobs(
    old: Seq<u8>,
    jobs: Seq<TriJob>,
    y0: i32,
    y1: i32,
    verts: Seq<Vertex>,
    area: spec_fn(TriJob) -> Sign,
    shade: spec_fn(TriJob, int, int, Seq<u8>) -> Seq<u8>,
    x: int,
    y: int,
) -> Seq<u8>
    decreases jobs.len(),
{
    if jobs.len() == 0 {
        old
    } else {
        let b = pixel_jobs(old, jobs.drop_last(), y0, y1, verts, area, shade, x, y);
        let j = jobs.last();
        if !(area(j) is Zero) && job_box(j, y0, y1, verts, area(j)).has(x, y) {
            four(shade(j, x, y, b))
        } else {
            b
        }
    }
}

proof fn lemma_same_pixel(w: int, i: int, k: int)
    requires
        0 < w,
        0 <= i,
        0 <= k < 4,
    ensures
        column(w, i - i % 4 + k) == column(w, i),
        row(w, i - i % 4 + k) == row(w, i),
        (i - i % 4 + k) % 4 == k,
        (i - i % 4 + k) - (i - i % 4 + k) % 4 == i - i % 4,
{
    assert((i - i % 4 + k) / 4 == i / 4);
}

proof fn lemma_drawn_pixel(
    px: Seq<u8>,
    w: int,
    y0: i32,
    y1: i32,
    jobs: Seq<TriJob>,
    verts: Seq<Vertex>,
    area: spec_fn(TriJob) -> Sign,
    shade: spec_fn(TriJob, int, int, Seq<u8>) -> Seq<u8>,
    i: int,
)
    requires
        0 < w,
        0 <= i < px.len(),
        px.len() % 4 == 0,
    ensures
        drawn(px, w, y0, y1, jobs, verts, area, shade).subrange(i - i % 4, i - i % 4 + 4) == pixel_jobs(
            px.subrange(i - i % 4, i - i % 4 + 4),
            jobs,
            y0,
            y1,
            verts,
            area,
            shade,
            column(w, i),
            row(w, i) + y0,
        ),
    decreases jobs.len(),
{
    lemma_drawn_len(px, w, y0, y1, jobs, verts, area, shade);
    if jobs.len() > 0 {
        let head = jobs.drop_last();
        let j = jobs.last();
        let k = i - i % 4;
        let before = drawn(px, w, y0, y1, head, verts, area, shade);
        let after = drawn(px, w, y0, y1, jobs, verts, area, shade);
        lemma_drawn_pixel(px, w, y0, y1, head, verts, area, shade, i);
        lemma_drawn_len(px, w, y0, y1, head, verts, area, shade);
        let b = before.subrange(k, k + 4);
        let want = pixel_jobs(
            px.subrange(k, k + 4),
            jobs,
            y0,
            y1,
            verts,
            area,
            shade,
            column(w, i),
            row(w, i) + y0,
        );
        assert(b.len() == 4);
        assert forall|c: int| 0 <= c < 4 implies #[trigger] after.subrange(k, k + 4)[c] == want[c] by {
            lemma_same_pixel(w, i, c);
            assert(after.subrange(k, k + 4)[c] == after[k + c]);
            assert(b[c] == before[k + c]);
        }
        assert(after.subrange(k, k + 4) =~= want);
    }
}

proof fn lemma_pixel_joins(
    old: Seq<u8>,
    a: Seq<TriJob>,
    b: Seq<TriJob>,
    y0: i32,
    y1: i32,
    verts: Seq<Vertex>,
    area: spec_fn(TriJob) -> Sign,
    shade: spec_fn(TriJob, int, int, Seq<u8>) -> Seq<u8>,
    x: int,
    y: int,
)
    ensures
        pixel_jobs(old, a + b, y0, y1, verts, area, shade, x, y) == pixel_jobs(
            pixel_jobs(old, a, y0, y1, verts, area, shade, x, y),
            b,
            y0,
            y1,
            verts,
            area,
            shade,
            x,
            y,
        ),
    decreases b.len(),
{
    if b.len() == 0 {
        assert(a + b =~= a);
    } else {
        assert((a + b).drop_last() =~= a + b.drop_last());
        assert((a + b).last() == b.last());
        lemma_pixel_joins(old, a, b.drop_last(), y0, y1, verts, area, shade, x, y);
    }
}

/// The pixels that a primitive's clip rectangle leaves it.
spec fn clip_box(p: Prim) -> IRect {
    IRect { x0: floor32(p.clip[0]), y0: floor32(p.clip[1]), x1: ceil32(p.clip[2]), y1: ceil32(p.clip[3]) }
}

/// The pixels around a triangle.
spec fn extent(v: (Vertex, Vertex, Vertex)) -> IRect {
    IRect {
        x0: floor32(fmin(fmin(v.0.x, v.1.x), v.2.x)),
        y0: floor32(fmin(fmin(v.0.y, v.1.y), v.2.y)),
        x1: ceil32(fmax(fmax(v.0.x, v.1.x), v.2.x)),
        y1: ceil32(fmax(fmax(v.0.y, v.1.y), v.2.y)),
    }
}

/// The vertices of a primitive, one for each index.
spec fn mesh(p: Prim, verts: Seq<Vertex>, idx: Seq<u32>) -> Seq<Vertex> {
    Seq::new(prim_indices(p, idx).len(), |k: int| verts[prim_indices(p, idx)[k] as int])
}

/// A pixel after the first `n` triangles of a mesh were drawn.
spec fn pixel_mesh(
    old: Seq<u8>,
    tex_id: u64,
    m: Seq<Vertex>,
    n: int,
    area: spec_fn(Vertex, Vertex, Vertex) -> Sign,
    shade: spec_fn(u64, Vertex, Vertex, Vertex, int, int, Seq<u8>) -> Seq<u8>,
    x: int,
    y: int,
) -> Seq<u8>
    decreases n,
{
    if n <= 0 {
        old
    } else {
        let b = pixel_mesh(old, tex_id, m, n - 1, area, shade, x, y);
        let u = m[3 * (n - 1)];
        let v = m[3 * (n - 1) + 1];
        let t = m[3 * (n - 1) + 2];
        if !(area(u, v, t) is Zero) && extent(wound(area(u, v, t), u, v, t)).has(x, y) {
            four(shade(tex_id, u, v, t, x, y, b))
        } else {
            b
        }
    }
}

/// A pixel after a primitive was drawn.
spec fn pixel_prim(
    old: Seq<u8>,
    p: Prim,
    m: Seq<Vertex>,
    area: spec_fn(Vertex, Vertex, Vertex) -> Sign,
    shade: spec_fn(u64, Vertex, Vertex, Vertex, int, int, Seq<u8>) -> Seq<u8>,
    x: int,
    y: int,
) -> Seq<u8> {
    if clip_box(p).has(x, y) {
        pixel_mesh(old, p.tex_id, m, m.len() as int / 3, area, shade, x, y)
    } else {
        old
    }
}

/// A pixel after the first `n` primitives of a scene were drawn.
spec fn pixel_scene(
    old: Seq<u8>,
    s: Scene,
    n: int,
    area: spec_fn(Vertex, Vertex, Vertex) -> Sign,
    shade: spec_fn(u64, Vertex, Vertex, Vertex, int, int, Seq<u8>) -> Seq<u8>,
    x: int,
    y: int,
) -> Seq<u8>
    decreases n,
{
    if n <= 0 {
        old
    } else {
        let p = s.prims[n - 1];
        pixel_prim(pixel_scene(old, s, n - 1, area, shade, x, y), p, mesh(p, s.verts, s.idx), area, shade, x, y)
    }
}

proof fn lemma_triangles_pixel(
    old: Seq<u8>,
    p: Prim,
    s: Scene,
    n: int,
    region: IRect,
    h: i32,
    area: spec_fn(Vertex, Vertex, Vertex) -> Sign,
    shade: spec_fn(u64, Vertex, Vertex, Vertex, int, int, Seq<u8>) -> Seq<u8>,
    x: int,
    y: int,
)
    requires
        valid(p, s.verts, s.idx),
        n <= prim_indices(p, s.idx).len() as int / 3,
        region.has(x, y),
        0 <= y < h,
    ensures
        pixel_jobs(
            old,
            triangles(prim_indices(p, s.idx), n, s.verts.len() as int, p.tex_id, prim_clip(p, region)),
            0,
            h,
            s.verts,
            job_area(s.verts, area),
            job_shade(s.verts, shade),
            x,
            y,
        ) == if clip_box(p).has(x, y) {
            pixel_mesh(old, p.tex_id, mesh(p, s.verts, s.idx), n, area, shade, x, y)
        } else {
            old
        },
    decreases n,
{
    if n > 0 {
        let tri = prim_indices(p, s.idx);
        let clip = prim_clip(p, region);
        let m = mesh(p, s.verts, s.idx);
        let count = s.verts.len() as int;
        lemma_triangles_pixel(old, p, s, n - 1, region, h, area, shade, x, y);
        let a = tri[3 * (n - 1)];
        let b = tri[3 * (n - 1) + 1];
        let c = tri[3 * (n - 1) + 2];
        assert(a < count && b < count && c < count);
        let j = TriJob { tex_id: p.tex_id, clip, a, b, c };
        let jobs = triangles(tri, n, count, p.tex_id, clip);
        assert(jobs.drop_last() =~= triangles(tri, n - 1, count, p.tex_id, clip));
        assert(jobs.last() == j);
        assert(m[3 * (n - 1)] == s.verts[a as int] && m[3 * (n - 1) + 1] == s.verts[b as int] && m[3 * (n - 1) + 2]
            == s.verts[c as int]);
        let sign = job_area(s.verts, area)(j);
        assert(sign == area(s.verts[a as int], s.verts[b as int], s.verts[c as int]));
        let v = wound(sign, s.verts[a as int], s.verts[b as int], s.verts[c as int]);
        assert(job_box(j, 0, h, s.verts, sign).has(x, y) <==> clip_box(p).has(x, y) && extent(v).has(x, y));
    }
}

proof fn lemma_jobs_pixel(
    old: Seq<u8>,
    s: Scene,
    n: int,
    region: IRect,
    h: i32,
    area: spec_fn(Vertex, Vertex, Vertex) -> Sign,
    shade: spec_fn(u64, Vertex, Vertex, Vertex, int, int, Seq<u8>) -> Seq<u8>,
    x: int,
    y: int,
)
    requires
        s.in_range(),
        0 <= n <= s.prims.len(),
        region.has(x, y),
        0 <= y < h,
    ensures
        pixel_jobs(
            old,
            frame_jobs(s.prims.take(n), s.verts.len() as int, s.idx, region),
            0,
            h,
            s.verts,
            job_area(s.verts, area),
            job_shade(s.verts, shade),
            x,
            y,
        ) == pixel_scene(old, s, n, area, shade, x, y),
    decreases n,
{
    if n > 0 {
        let t = s.prims.take(n);
        let p = s.prims[n - 1];
        let count = s.verts.len() as int;
        assert(t.drop_last() =~= s.prims.take(n - 1));
        assert(t.last() == p);
        lemma_jobs_pixel(old, s, n - 1, region, h, area, shade, x, y);
        lemma_pixel_joins(
            old,
            frame_jobs(s.prims.take(n - 1), count, s.idx, region),
            prim_jobs(p, count, s.idx, region),
            0,
            h,
            s.verts,
            job_area(s.verts, area),
            job_shade(s.verts, shade),
            x,
            y,
        );
        let before = pixel_scene(old, s, n - 1, area, shade, x, y);
        let tri = prim_indices(p, s.idx);
        lemma_triangles_pixel(before, p, s, tri.len() as int / 3, region, h, area, shade, x, y);
        assert(clip_box(p).has(x, y) <==> prim_clip(p, region).has(x, y));
    }
}

/// A pixel of the canvas after a region that holds it was redrawn.
proof fn lemma_redrawn_pixel(
    px: Seq<u8>,
    s: Scene,
    w: i32,
    h: i32,
    region: IRect,
    clear: Seq<u8>,
    area: spec_fn(Vertex, Vertex, Vertex) -> Sign,
    shade: spec_fn(u64, Vertex, Vertex, Vertex, int, int, Seq<u8>) -> Seq<u8>,
    i: int,
)
    requires
        0 < w,
        px.len() == w * h * 4,
        clear.len() == 4,
        s.in_range(),
        0 <= i < px.len(),
        region.has(column(w as int, i), row(w as int, i)),
    ensures
        s.redrawn(px, w, h, region, clear, area, shade)[i] == pixel_scene(
            clear,
            s,
            s.prims.len() as int,
            area,
            shade,
            column(w as int, i),
            row(w as int, i),
        )[i % 4],
{
    let ww = w as int;
    let k = i - i % 4;
    let x = column(ww, i);
    let y = row(ww, i);
    let f = |a: int, b: int| region.x0 <= a < region.x1 && region.y0 <= b + 0i32 < region.y1;
    let start = painted(px, ww, f, clear);
    let jobs = frame_jobs(s.prims, s.verts.len() as int, s.idx, region);
    lemma_row_of_byte(ww, h as int, i);
    assert(px.len() == 4 * (w * h));
    lemma_drawn_pixel(start, ww, 0, h, jobs, s.verts, job_area(s.verts, area), job_shade(s.verts, shade), i);
    assert forall|c: int| 0 <= c < 4 implies #[trigger] start.subrange(k, k + 4)[c] == clear[c] by {
        lemma_same_pixel(ww, i, c);
        assert(start.subrange(k, k + 4)[c] == start[k + c]);
    }
    assert(start.subrange(k, k + 4) =~= clear);
    assert(s.prims.take(s.prims.len() as int) =~= s.prims);
    lemma_jobs_pixel(clear, s, s.prims.len() as int, region, h, area, shade, x, y);
    let all = s.redrawn(px, w, h, region, clear, area, shade);
    assert(all == drawn(start, ww, 0, h, jobs, s.verts, job_area(s.verts, area), job_shade(s.verts, shade)));
    lemma_drawn_len(start, ww, 0, h, jobs, s.verts, job_area(s.verts, area), job_shade(s.verts, shade));
    assert(all.subrange(k, k + 4)[i % 4] == all[i]);
}

proof fn lemma_rounding_orders(a: u32, b: u32)
    requires
        !is_nan(a),
        !is_nan(b),
        units(a) <= units(b),
    ensures
        floor32(a) <= floor32(b),
        ceil32(a) <= ceil32(b),
{
    lemma_pow2_pos(149);
    lemma_div_is_ordered(units(a), units(b), one());
    lemma_div_is_ordered(-units(b), -units(a), one());
}

proof fn lemma_least(tri: Seq<u32>, verts: Seq<Vertex>, vertical: bool)
    ensures
        !is_nan(least(tri, verts, vertical)),
        !is_nan(greatest(tri, verts, vertical)),
        forall|k: int|
            0 <= k < tri.len() && (#[trigger] tri[k]) < verts.len() && !is_nan(
                coordinate(verts[tri[k] as int], vertical),
            ) ==> units(least(tri, verts, vertical)) <= units(coordinate(verts[tri[k] as int], vertical)) <= units(
                greatest(tri, verts, vertical),
            ),
    decreases tri.len(),
{
    if tri.len() > 0 {
        let head = tri.drop_last();
        lemma_least(head, verts, vertical);
        assert forall|k: int|
            0 <= k < tri.len() && (#[trigger] tri[k]) < verts.len() && !is_nan(
                coordinate(verts[tri[k] as int], vertical),
            ) implies units(least(tri, verts, vertical)) <= units(coordinate(verts[tri[k] as int], vertical)) <= units(
            greatest(tri, verts, vertical),
        ) by {
            if k < head.len() {
                assert(head[k] == tri[k]);
            }
        }
    }
}

/// One coordinate of a triangle that has a pixel: the primitive has it there too.
proof fn lemma_span(
    tri: Seq<u32>,
    verts: Seq<Vertex>,
    vertical: bool,
    k: int,
    c: (u32, u32, u32),
    low: u32,
    high: u32,
    x: int,
)
    requires
        0 <= k,
        k + 2 < tri.len(),
        tri[k] < verts.len(),
        tri[k + 1] < verts.len(),
        tri[k + 2] < verts.len(),
        ({
            let p = coordinate(verts[tri[k] as int], vertical);
            let q = coordinate(verts[tri[k + 1] as int], vertical);
            let r = coordinate(verts[tri[k + 2] as int], vertical);
            c == (p, q, r) || c == (p, r, q)
        }),
        0 <= x,
        floor32(low) <= x < ceil32(high),
        floor32(fmin(fmin(c.0, c.1), c.2)) <= x < ceil32(fmax(fmax(c.0, c.1), c.2)),
    ensures
        floor32(fmax(least(tri, verts, vertical), low)) <= x,
        x < ceil32(fmin(greatest(tri, verts, vertical), high)),
{
    let lo = fmin(fmin(c.0, c.1), c.2);
    let hi = fmax(fmax(c.0, c.1), c.2);
    lemma_least(tri, verts, vertical);
    let p = coordinate(verts[tri[k] as int], vertical);
    let q = coordinate(verts[tri[k + 1] as int], vertical);
    let r = coordinate(verts[tri[k + 2] as int], vertical);
    assert(!is_nan(hi)) by {
        if is_nan(hi) {
            assert(ceil32(hi) == 0);
        }
    }
    assert(!is_nan(lo));
    assert(lo == p || lo == q || lo == r);
    assert(hi == p || hi == q || hi == r);
    lemma_rounding_orders(least(tri, verts, vertical), lo);
    lemma_rounding_orders(hi, greatest(tri, verts, vertical));
}

proof fn lemma_mesh_untouched(
    old: Seq<u8>,
    p: Prim,
    verts: Seq<Vertex>,
    idx: Seq<u32>,
    n: int,
    w: i32,
    h: i32,
    area: spec_fn(Vertex, Vertex, Vertex) -> Sign,
    shade: spec_fn(u64, Vertex, Vertex, Vertex, int, int, Seq<u8>) -> Seq<u8>,
    x: int,
    y: int,
)
    requires
        valid(p, verts, idx),
        n <= prim_indices(p, idx).len() as int / 3,
        0 <= x < w,
        0 <= y < h,
        clip_box(p).has(x, y),
        !prim_box(p, verts, idx, w, h).has(x, y),
    ensures
        pixel_mesh(old, p.tex_id, mesh(p, verts, idx), n, area, shade, x, y) == old,
    decreases n,
{
    if n > 0 {
        lemma_mesh_untouched(old, p, verts, idx, n - 1, w, h, area, shade, x, y);
        let tri = prim_indices(p, idx);
        let m = mesh(p, verts, idx);
        let k = 3 * (n - 1);
        let u = m[k];
        let v = m[k + 1];
        let t = m[k + 2];
        assert(tri[k] < verts.len() && tri[k + 1] < verts.len() && tri[k + 2] < verts.len());
        let o = wound(area(u, v, t), u, v, t);
        if extent(o).has(x, y) {
            lemma_span(tri, verts, false, k, (o.0.x, o.1.x, o.2.x), p.clip[0], p.clip[2], x);
            lemma_span(tri, verts, true, k, (o.0.y, o.1.y, o.2.y), p.clip[1], p.clip[3], y);
            assert(false);
        }
    }
}

proof fn lemma_mesh_words(tri: Seq<u32>, verts: Seq<Vertex>)
    requires
        forall|k: int| 0 <= k < tri.len() ==> #[trigger] tri[k] < verts.len(),
    ensures
        mesh_words(tri, verts).len() == 5 * tri.len(),
        forall|k: int, c: int|
            0 <= k < tri.len() && 0 <= c < 5 ==> mesh_words(tri, verts)[5 * k + c] == #[trigger] vertex_words(
                verts[tri[k] as int],
            )[c],
    decreases tri.len(),
{
    if tri.len() > 0 {
        let head = tri.drop_last();
        assert forall|k: int| 0 <= k < head.len() implies #[trigger] head[k] < verts.len() by {
            assert(head[k] == tri[k]);
        }
        lemma_mesh_words(head, verts);
        assert(tri.last() == tri[tri.len() - 1]);
        assert forall|k: int, c: int| 0 <= k < tri.len() && 0 <= c < 5 implies mesh_words(tri, verts)[5 * k + c]
            == #[trigger] vertex_words(verts[tri[k] as int])[c] by {
            if k < head.len() {
                assert(vertex_words(verts[head[k] as int])[c] == mesh_words(head, verts)[5 * k + c]);
            }
        }
    }
}

/// Primitives with the same words are the same to the drawing.
proof fn lemma_same_words(p: Prim, va: Seq<Vertex>, ia: Seq<u32>, q: Prim, vb: Seq<Vertex>, ib: Seq<u32>)
    requires
        valid(p, va, ia),
        valid(q, vb, ib),
        prim_words(p, va, ia) == prim_words(q, vb, ib),
    ensures
        clip_box(p) == clip_box(q),
        p.tex_id == q.tex_id,
        mesh(p, va, ia) == mesh(q, vb, ib),
{
    let s = prim_indices(p, ia);
    let t = prim_indices(q, ib);
    let a = prim_words(p, va, ia);
    let b = prim_words(q, vb, ib);
    lemma_mesh_words(s, va);
    lemma_mesh_words(t, vb);
    assert(a.len() == 6 + 6 * s.len());
    assert(b.len() == 6 + 6 * t.len());
    assert(a[0] == b[0] && a[1] == b[1] && a[2] == b[2] && a[3] == b[3] && a[4] == b[4] && a[5] == b[5]);
    let ma = mesh_words(s, va);
    let mb = mesh_words(t, vb);
    assert forall|k: int| 0 <= k < s.len() implies #[trigger] mesh(p, va, ia)[k] == mesh(q, vb, ib)[k] by {
        let u = va[s[k] as int];
        let v = vb[t[k] as int];
        assert forall|c: int| 0 <= c < 5 implies vertex_words(u)[c] == vertex_words(v)[c] by {
            assert(ma[5 * k + c] == a[6 + (5 * k + c)]);
            assert(mb[5 * k + c] == b[6 + (5 * k + c)]);
        }
        assert(vertex_words(u)[0] == u.x && vertex_words(u)[1] == u.y && vertex_words(u)[2] == u.u
            && vertex_words(u)[3] == u.v && vertex_words(u)[4] == u.color);
        assert(vertex_words(v)[0] == v.x && vertex_words(v)[1] == v.y && vertex_words(v)[2] == v.u
            && vertex_words(v)[3] == v.v && vertex_words(v)[4] == v.color);
        assert(u == v);
    }
    assert(mesh(p, va, ia) =~= mesh(q, vb, ib));
}

/// Where no changed primitive has a pixel, both scenes give it the same colour.
proof fn lemma_unchanged_pixel(
    old: Seq<u8>,
    a: Scene,
    b: Scene,
    n: int,
    w: i32,
    h: i32,
    area: spec_fn(Vertex, Vertex, Vertex) -> Sign,
    shade: spec_fn(u64, Vertex, Vertex, Vertex, int, int, Seq<u8>) -> Seq<u8>,
    x: int,
    y: int,
)
    requires
        a.in_range(),
        b.in_range(),
        no_collision(a, b),
        0 <= n <= a.prims.len(),
        a.prims.len() == b.prims.len(),
        0 <= x < w,
        0 <= y < h,
        forall|i: int|
            0 <= i < n && #[trigger] a.meta(w, h)[i].hash != b.meta(w, h)[i].hash ==> !a.meta(w, h)[i].bbox.has(x, y)
                && !b.meta(w, h)[i].bbox.has(x, y),
    ensures
        pixel_scene(old, a, n, area, shade, x, y) == pixel_scene(old, b, n, area, shade, x, y),
    decreases n,
{
    if n > 0 {
        lemma_unchanged_pixel(old, a, b, n - 1, w, h, area, shade, x, y);
        let before = pixel_scene(old, a, n - 1, area, shade, x, y);
        let p = a.prims[n - 1];
        let q = b.prims[n - 1];
        assert(valid(p, a.verts, a.idx) && valid(q, b.verts, b.idx));
        if a.meta(w, h)[n - 1].hash == b.meta(w, h)[n - 1].hash {
            lemma_same_words(p, a.verts, a.idx, q, b.verts, b.idx);
        } else {
            if clip_box(p).has(x, y) {
                let m = mesh(p, a.verts, a.idx);
                lemma_mesh_untouched(before, p, a.verts, a.idx, m.len() as int / 3, w, h, area, shade, x, y);
            }
            if clip_box(q).has(x, y) {
                let m = mesh(q, b.verts, b.idx);
                lemma_mesh_untouched(before, q, b.verts, b.idx, m.len() as int / 3, w, h, area, shade, x, y);
            }
        }
    }
}

proof fn lemma_meta_on_screen(s: Scene, w: i32, h: i32)
    requires
        0 <= w,
        0 <= h,
    ensures
        all_on_screen(s.meta(w, h), w as int, h as int),
{
}

proof fn lemma_redrawn_len(
    px: Seq<u8>,
    s: Scene,
    w: i32,
    h: i32,
    region: IRect,
    clear: Seq<u8>,
    area: spec_fn(Vertex, Vertex, Vertex) -> Sign,
    shade: spec_fn(u64, Vertex, Vertex, Vertex, int, int, Seq<u8>) -> Seq<u8>,
)
    ensures
        s.redrawn(px, w, h, region, clear, area, shade).len() == px.len(),
{
    let f = |a: int, b: int| region.x0 <= a < region.x1 && region.y0 <= b + 0i32 < region.y1;
    lemma_drawn_len(
        painted(px, w as int, f, clear),
        w as int,
        0,
        h,
        frame_jobs(s.prims, s.verts.len() as int, s.idx, region),
        s.verts,
        job_area(s.verts, area),
        job_shade(s.verts, shade),
    );
}

/// A frame that is drawn whole does not depend on what the canvas held before.
pub proof fn whole_frame_ignores_the_canvas(
    px: Seq<u8>,
    other: Seq<u8>,
    s: Scene,
    w: i32,
    h: i32,
    clear: Seq<u8>,
    area: spec_fn(Vertex, Vertex, Vertex) -> Sign,
    shade: spec_fn(u64, Vertex, Vertex, Vertex, int, int, Seq<u8>) -> Seq<u8>,
)
    requires
        0 < w,
        0 < h,
        px.len() == w * h * 4,
        other.len() == w * h * 4,
        clear.len() == 4,
        s.in_range(),
    ensures
        s.redrawn(px, w, h, screen(w, h), clear, area, shade) == s.redrawn(
            other,
            w,
            h,
            screen(w, h),
            clear,
            area,
            shade,
        ),
{
    let a = s.redrawn(px, w, h, screen(w, h), clear, area, shade);
    let b = s.redrawn(other, w, h, screen(w, h), clear, area, shade);
    lemma_redrawn_len(px, s, w, h, screen(w, h), clear, area, shade);
    lemma_redrawn_len(other, s, w, h, screen(w, h), clear, area, shade);
    assert forall|i: int| 0 <= i < a.len() implies a[i] == b[i] by {
        lemma_row_of_byte(w as int, h as int, i);
        lemma_redrawn_pixel(px, s, w, h, screen(w, h), clear, area, shade, i);
        lemma_redrawn_pixel(other, s, w, h, screen(w, h), clear, area, shade, i);
    }
    assert(a =~= b);
}

/// Redrawing the damaged region alone gives, byte for byte, the frame that is drawn whole: what
/// moved leaves no trail, and nothing old stays behind. `before` is the canvas with the last
/// frame, which was drawn over `px` with the same textures; where everything counts as damaged it
/// may hold anything. Different primitives of the two frames have different hashes.
pub proof fn partial_redraw_gives_the_frame(
    px: Seq<u8>,
    before: Seq<u8>,
    other: Seq<u8>,
    a: Scene,
    b: Scene,
    all: bool,
    w: i32,
    h: i32,
    clear: Seq<u8>,
    area: spec_fn(Vertex, Vertex, Vertex) -> Sign,
    shade: spec_fn(u64, Vertex, Vertex, Vertex, int, int, Seq<u8>) -> Seq<u8>,
)
    requires
        0 < w < i32::MAX,
        0 < h < i32::MAX,
        px.len() == w * h * 4,
        before.len() == w * h * 4,
        other.len() == w * h * 4,
        clear.len() == 4,
        a.in_range(),
        b.in_range(),
        no_collision(a, b),
        !all ==> before == a.redrawn(px, w, h, screen(w, h), clear, area, shade),
    ensures
        match damage(a.meta(w, h), b.meta(w, h), all, w, h) {
            None => before == b.redrawn(other, w, h, screen(w, h), clear, area, shade),
            Some(d) => b.redrawn(before, w, h, d, clear, area, shade) == b.redrawn(
                other,
                w,
                h,
                screen(w, h),
                clear,
                area,
                shade,
            ),
        },
{
    let ma = a.meta(w, h);
    let mb = b.meta(w, h);
    let ww = w as int;
    let hh = h as int;
    let whole = b.redrawn(other, w, h, screen(w, h), clear, area, shade);
    let d = damage(ma, mb, all, w, h);
    let now = match d {
        None => before,
        Some(r) => b.redrawn(before, w, h, r, clear, area, shade),
    };
    lemma_redrawn_len(other, b, w, h, screen(w, h), clear, area, shade);
    lemma_meta_on_screen(a, w, h);
    lemma_meta_on_screen(b, w, h);
    if let Some(r) = d {
        lemma_redrawn_len(before, b, w, h, r, clear, area, shade);
    }
    assert forall|i: int| 0 <= i < whole.len() implies now[i] == whole[i] by {
        let x = column(ww, i);
        let y = row(ww, i);
        lemma_row_of_byte(ww, hh, i);
        lemma_redrawn_pixel(other, b, w, h, screen(w, h), clear, area, shade, i);
        if d is Some && d->0.has(x, y) {
            lemma_redrawn_pixel(before, b, w, h, d->0, clear, area, shade, i);
        } else {
            if let Some(r) = d {
                drawing_stays_in_the_damage(
                    before,
                    ww,
                    0,
                    h,
                    r,
                    clear,
                    b.verts,
                    b.idx,
                    b.prims,
                    job_area(b.verts, area),
                    job_shade(b.verts, shade),
                    i,
                );
            }
            assert(now[i] == before[i]);
            assert(screen(w, h).has(x, y));
            assert(!all && ma.len() == mb.len());
            lemma_redrawn_pixel(px, a, w, h, screen(w, h), clear, area, shade, i);
            assert forall|k: int| 0 <= k < a.prims.len() && #[trigger] ma[k].hash != mb[k].hash implies !ma[k].bbox.has(
                x,
                y,
            ) && !mb[k].bbox.has(x, y) by {
                if ma[k].bbox.has(x, y) || mb[k].bbox.has(x, y) {
                    damage_covers_changes(ma, mb, all, w, h, k, x, y);
                }
            }
            lemma_unchanged_pixel(clear, a, b, a.prims.len() as int, w, h, area, shade, x, y);
        }
    }
    assert(now =~= whole);
}

} // verus!
