//! Laws of the triangle setup: the winding, the edges that own their pixels, the pixels to look
//! at, and which triangles of a frame are drawn. Coordinates are taken as the exact numbers that
//! their bits stand for.

use vstd::arithmetic::div_mod::{lemma_fundamental_div_mod, lemma_mod_bound};
use vstd::arithmetic::power2::lemma_pow2_pos;
use vstd::prelude::*;
use crate::raster::codec::{Prim, Vertex};
use crate::raster::float::{ceil32, floor32, fmax, fmin, is_finite, one, units};
use crate::raster::meta::prim_indices;
use crate::raster::rect::IRect;
use crate::raster::triangle::{
    frame_jobs, inside, prim_clip, prim_jobs, setup_of, triangles, wound, Sign, TriJob,
};

verus! {

/// On which side of the line from `a` to `b` the point `(x, y)` lies, in units of the
/// coordinates: positive where a triangle with `a` and `b` in this order and a positive area
/// lies.
pub open spec fn side(a: Vertex, b: Vertex, x: int, y: int) -> int {
    (x - units(a.x)) * (units(b.y) - units(a.y)) - (y - units(a.y)) * (units(b.x) - units(a.x))
}

/// Twice the signed area of a triangle.
pub open spec fn area2(a: Vertex, b: Vertex, c: Vertex) -> int {
    side(a, b, units(c.x), units(c.y))
}

/// Whether the coordinates of a vertex are numbers.
pub open spec fn is_point(a: Vertex) -> bool {
    is_finite(a.x) && is_finite(a.y)
}

proof fn lemma_area_turns(a: Vertex, b: Vertex, c: Vertex)
    ensures
        area2(a, c, b) == -area2(a, b, c),
        area2(b, c, a) == area2(a, b, c),
        area2(c, a, b) == area2(a, b, c),
{
    let (ax, ay, bx, by, cx, cy) = (units(a.x), units(a.y), units(b.x), units(b.y), units(c.x), units(c.y));
    assert((bx - ax) * (cy - ay) - (by - ay) * (cx - ax) == -((cx - ax) * (by - ay) - (cy - ay) * (bx - ax)))
        by (nonlinear_arith);
    assert((ax - bx) * (cy - by) - (ay - by) * (cx - bx) == (cx - ax) * (by - ay) - (cy - ay) * (bx - ax))
        by (nonlinear_arith);
    assert((bx - cx) * (ay - cy) - (by - cy) * (ax - cx) == (cx - ax) * (by - ay) - (cy - ay) * (bx - ax))
        by (nonlinear_arith);
}

/// The vertices of a triangle that is made ready have a positive area, whichever way round the
/// triangle was given, and they are the given ones.
pub proof fn ready_triangle_has_positive_area(
    area: Sign,
    clip: IRect,
    y0: i32,
    y1: i32,
    a: Vertex,
    b: Vertex,
    c: Vertex,
)
    requires
        area is Positive || area is Negative,
        area is Positive ==> area2(a, b, c) > 0,
        area is Negative ==> area2(a, b, c) < 0,
    ensures
        ({
            let s = setup_of(clip, y0, y1, wound(area, a, b, c));
            &&& area2(s.v0, s.v1, s.v2) > 0
            &&& s.v0 == a
            &&& (s.v1 == b && s.v2 == c) || (s.v1 == c && s.v2 == b)
        }),
{
    lemma_area_turns(a, b, c);
}

/// A triangle that is given the other way round is made ready in the same way: the winding does
/// not decide what is covered.
pub proof fn winding_makes_no_difference(clip: IRect, y0: i32, y1: i32, a: Vertex, b: Vertex, c: Vertex)
    ensures
        setup_of(clip, y0, y1, wound(Sign::Negative, a, b, c)) == setup_of(
            clip,
            y0,
            y1,
            wound(Sign::Positive, a, c, b),
        ),
        setup_of(clip, y0, y1, wound(Sign::Positive, a, b, c)).v1 == b,
        setup_of(clip, y0, y1, wound(Sign::Positive, a, b, c)).v2 == c,
{
}

/// Whether an edge from `p` to `q` of a triangle whose third vertex is `r` owns the pixels on it,
/// by where the triangle lies: below a level edge, and to the left of any other.
pub open spec fn owns(p: Vertex, q: Vertex, r: Vertex) -> bool {
    if units(p.y) == units(q.y) {
        units(r.y) > units(p.y)
    } else {
        forall|x: int, y: int| side(p, q, x - 1, y) > #[trigger] side(p, q, x, y)
    }
}

proof fn lemma_side_grows_to_the_left(p: Vertex, q: Vertex, x: int, y: int)
    ensures
        side(p, q, x - 1, y) - side(p, q, x, y) == units(p.y) - units(q.y),
{
    let (px, py, qx, qy) = (units(p.x), units(p.y), units(q.x), units(q.y));
    assert((x - 1 - px) * (qy - py) == (x - px) * (qy - py) - (qy - py)) by (nonlinear_arith);
}

proof fn lemma_owns(p: Vertex, q: Vertex, r: Vertex)
    requires
        is_point(p),
        is_point(q),
        area2(p, q, r) > 0,
    ensures
        crate::raster::triangle::top_left(p.x, p.y, q.x, q.y) <==> owns(p, q, r),
{
    let (px, py, qx, qy, rx, ry) = (units(p.x), units(p.y), units(q.x), units(q.y), units(r.x), units(r.y));
    if py == qy {
        assert((rx - px) * (qy - py) == 0) by (nonlinear_arith)
            requires
                qy == py,
        ;
        if qx < px {
            assert(ry > py) by (nonlinear_arith)
                requires
                    qx < px,
                    (ry - py) * (qx - px) < 0,
            ;
        } else {
            assert(ry <= py) by (nonlinear_arith)
                requires
                    qx >= px,
                    (ry - py) * (qx - px) < 0,
            ;
        }
    } else {
        if qy < py {
            assert forall|x: int, y: int| side(p, q, x - 1, y) > #[trigger] side(p, q, x, y) by {
                lemma_side_grows_to_the_left(p, q, x, y);
            }
        } else {
            lemma_side_grows_to_the_left(p, q, 0, 0);
            assert(!(side(p, q, 0 - 1, 0) > side(p, q, 0, 0)));
        }
    }
}

/// Of a triangle that is made ready, a level edge owns its pixels exactly where the triangle
/// lies below it, and any other edge exactly where the triangle lies to the left of it.
pub proof fn edges_own_by_side(clip: IRect, y0: i32, y1: i32, a: Vertex, b: Vertex, c: Vertex)
    requires
        is_point(a) && is_point(b) && is_point(c),
        area2(a, b, c) > 0,
    ensures
        ({
            let s = setup_of(clip, y0, y1, wound(Sign::Positive, a, b, c));
            &&& s.tl0 <==> owns(b, c, a)
            &&& s.tl1 <==> owns(c, a, b)
            &&& s.tl2 <==> owns(a, b, c)
        }),
{
    lemma_area_turns(a, b, c);
    lemma_owns(b, c, a);
    lemma_owns(c, a, b);
    lemma_owns(a, b, c);
}

/// A pixel inside an edge is covered as far as that edge goes, one outside of it is not, and one
/// on it where the edge owns it. What is no number covers nothing.
pub proof fn sides_decide_cover(owns: bool)
    ensures
        inside(Sign::Positive, owns),
        !inside(Sign::Negative, owns),
        inside(Sign::Zero, owns) == owns,
        !inside(Sign::Undefined, owns),
{
}

proof fn lemma_floor(b: u32, i: int)
    requires
        is_finite(b),
        i32::MIN <= i < i32::MAX,
    ensures
        floor32(b) <= i <==> units(b) < (i + 1) * one(),
{
    lemma_pow2_pos(149);
    let o = one();
    let u = units(b);
    lemma_fundamental_div_mod(u, o);
    lemma_mod_bound(u, o);
    let q = u / o;
    if q <= i {
        assert(o * q + o <= (i + 1) * o) by (nonlinear_arith)
            requires
                q <= i,
                o > 0,
        ;
    } else {
        assert(o * q >= (i + 1) * o) by (nonlinear_arith)
            requires
                q >= i + 1,
                o > 0,
        ;
    }
}

proof fn lemma_ceil(b: u32, i: int)
    requires
        is_finite(b),
        i32::MIN <= i < i32::MAX,
    ensures
        i < ceil32(b) <==> i * one() < units(b),
{
    lemma_pow2_pos(149);
    let o = one();
    let u = -units(b);
    lemma_fundamental_div_mod(u, o);
    lemma_mod_bound(u, o);
    let q = u / o;
    if i < -q {
        assert(o * q + o <= -(i * o)) by (nonlinear_arith)
            requires
                i + 1 <= -q,
                o > 0,
        ;
    } else {
        assert(o * q >= -(i * o)) by (nonlinear_arith)
            requires
                i >= -q,
                o > 0,
        ;
    }
}

/// Rounding down gives the greatest integer that is not above a number, and rounding up the
/// least that is not below it.
pub proof fn rounding_is_nearest_from_its_side(b: u32, i: int)
    requires
        is_finite(b),
        i32::MIN <= i < i32::MAX,
    ensures
        floor32(b) <= i <==> units(b) < (i + 1) * one(),
        i < ceil32(b) <==> i * one() < units(b),
        floor32(b) <= ceil32(b),
{
    lemma_floor(b, i);
    lemma_ceil(b, i);
    let c = ceil32(b) as int;
    if c < i32::MAX {
        lemma_ceil(b, c);
        lemma_floor(b, c);
        lemma_pow2_pos(149);
        assert((c + 1) * one() > c * one()) by (nonlinear_arith)
            requires
                one() > 0,
        ;
    }
}

/// The pixel in column `i` and row `j` is one to look at exactly where it lies inside the clip
/// rectangle and the rows, and its square meets the extent of the triangle on both axes.
pub proof fn box_holds_the_extent(clip: IRect, y0: i32, y1: i32, a: Vertex, b: Vertex, c: Vertex, i: i32, j: i32)
    requires
        is_point(a) && is_point(b) && is_point(c),
        i < i32::MAX,
        j < i32::MAX,
    ensures
        ({
            let s = setup_of(clip, y0, y1, wound(Sign::Positive, a, b, c)).bbox;
            (s.x0 <= i < s.x1 && s.y0 <= j < s.y1) <==> {
                &&& clip.x0 <= i < clip.x1 && clip.y0 <= j < clip.y1
                &&& y0 <= j < y1
                &&& units(a.x) < (i + 1) * one() || units(b.x) < (i + 1) * one() || units(c.x) < (i + 1) * one()
                &&& units(a.x) > i * one() || units(b.x) > i * one() || units(c.x) > i * one()
                &&& units(a.y) < (j + 1) * one() || units(b.y) < (j + 1) * one() || units(c.y) < (j + 1) * one()
                &&& units(a.y) > j * one() || units(b.y) > j * one() || units(c.y) > j * one()
            }
        }),
{
    lemma_floor(fmin(fmin(a.x, b.x), c.x), i as int);
    lemma_floor(fmin(fmin(a.y, b.y), c.y), j as int);
    lemma_ceil(fmax(fmax(a.x, b.x), c.x), i as int);
    lemma_ceil(fmax(fmax(a.y, b.y), c.y), j as int);
}

/// The texture coordinates count as constant exactly where those of all three vertices are the
/// same numbers.
pub proof fn constant_texture(clip: IRect, y0: i32, y1: i32, a: Vertex, b: Vertex, c: Vertex)
    requires
        is_finite(a.u) && is_finite(b.u) && is_finite(c.u),
        is_finite(a.v) && is_finite(b.v) && is_finite(c.v),
    ensures
        setup_of(clip, y0, y1, wound(Sign::Positive, a, b, c)).uv_const <==> {
            &&& units(a.u) == units(b.u) == units(c.u)
            &&& units(a.v) == units(b.v) == units(c.v)
        },
{
}

/// A pixel belongs to what is drawn of a primitive exactly where it is damaged and its square
/// meets the primitive's clip rectangle.
pub proof fn clip_meets_the_damage(p: Prim, damage: IRect, i: i32, j: i32)
    requires
        is_finite(p.clip[0]) && is_finite(p.clip[1]) && is_finite(p.clip[2]) && is_finite(p.clip[3]),
        i < i32::MAX,
        j < i32::MAX,
    ensures
        ({
            let r = prim_clip(p, damage);
            (r.x0 <= i < r.x1 && r.y0 <= j < r.y1) <==> {
                &&& damage.x0 <= i < damage.x1 && damage.y0 <= j < damage.y1
                &&& units(p.clip[0]) < (i + 1) * one() && i * one() < units(p.clip[2])
                &&& units(p.clip[1]) < (j + 1) * one() && j * one() < units(p.clip[3])
            }
        }),
{
    lemma_floor(p.clip[0], i as int);
    lemma_floor(p.clip[1], j as int);
    lemma_ceil(p.clip[2], i as int);
    lemma_ceil(p.clip[3], j as int);
}

/// Primitives are drawn in their order: the triangles of the first ones come before those of the
/// others, and none depends on another.
pub proof fn primitives_are_drawn_in_order(
    first: Seq<Prim>,
    then: Seq<Prim>,
    count: int,
    idx: Seq<u32>,
    damage: IRect,
)
    ensures
        frame_jobs(first + then, count, idx, damage) == frame_jobs(first, count, idx, damage) + frame_jobs(
            then,
            count,
            idx,
            damage,
        ),
    decreases then.len(),
{
    if then.len() == 0 {
        assert(first + then =~= first);
    } else {
        assert((first + then).drop_last() =~= first + then.drop_last());
        primitives_are_drawn_in_order(first, then.drop_last(), count, idx, damage);
    }
}

proof fn lemma_valid_triples(tri: Seq<u32>, n: int, count: int, tex_id: u64, clip: IRect)
    requires
        0 <= 3 * n <= tri.len(),
        forall|k: int| 0 <= k < 3 * n ==> #[trigger] tri[k] < count,
    ensures
        triangles(tri, n, count, tex_id, clip) == Seq::new(
            n as nat,
            |k: int| TriJob { tex_id, clip, a: tri[3 * k], b: tri[3 * k + 1], c: tri[3 * k + 2] },
        ),
    decreases n,
{
    if n > 0 {
        lemma_valid_triples(tri, n - 1, count, tex_id, clip);
    }
}

/// Every three indices of a primitive make one triangle, in their order, with the primitive's
/// texture; indices that are left over make none.
pub proof fn indices_make_triangles(p: Prim, count: int, idx: Seq<u32>, damage: IRect, k: int)
    requires
        p.idx0 <= p.idx1 <= idx.len(),
        forall|m: int| p.idx0 <= m < p.idx1 ==> #[trigger] idx[m] < count,
        prim_clip(p, damage).x0 < prim_clip(p, damage).x1,
        prim_clip(p, damage).y0 < prim_clip(p, damage).y1,
    ensures
        frame_jobs(seq![p], count, idx, damage).len() == (p.idx1 - p.idx0) / 3,
        0 <= k < (p.idx1 - p.idx0) / 3 ==> {
            let t = frame_jobs(seq![p], count, idx, damage)[k];
            &&& t.a == idx[p.idx0 + 3 * k]
            &&& t.b == idx[p.idx0 + 3 * k + 1]
            &&& t.c == idx[p.idx0 + 3 * k + 2]
            &&& t.tex_id == p.tex_id
            &&& t.clip == prim_clip(p, damage)
        },
{
    let tri = prim_indices(p, idx);
    lemma_one_primitive(p, count, idx, damage);
    assert forall|m: int| 0 <= m < 3 * (tri.len() as int / 3) implies #[trigger] tri[m] < count by {
        assert(tri[m] == idx[p.idx0 + m]);
    }
    lemma_valid_triples(tri, tri.len() as int / 3, count, p.tex_id, prim_clip(p, damage));
}

proof fn lemma_one_primitive(p: Prim, count: int, idx: Seq<u32>, damage: IRect)
    ensures
        frame_jobs(seq![p], count, idx, damage) == prim_jobs(p, count, idx, damage),
{
    reveal_with_fuel(frame_jobs, 2);
    assert(seq![p].drop_last() =~= Seq::<Prim>::empty());
    assert(Seq::<TriJob>::empty() + prim_jobs(p, count, idx, damage) =~= prim_jobs(p, count, idx, damage));
}

/// A triangle that refers to no vertex is left out, and so is a primitive whose clip rectangle
/// misses the damage or whose indices are not all there.
pub proof fn undrawable_is_left_out(p: Prim, count: int, idx: Seq<u32>, damage: IRect)
    requires
        ({
            ||| prim_clip(p, damage).x0 >= prim_clip(p, damage).x1
            ||| prim_clip(p, damage).y0 >= prim_clip(p, damage).y1
            ||| p.idx0 > p.idx1
            ||| p.idx1 > idx.len()
            ||| p.idx1 == p.idx0 + 3 && (idx[p.idx0 as int] >= count || idx[p.idx0 + 1] >= count || idx[p.idx0 + 2]
                >= count)
        }),
    ensures
        frame_jobs(seq![p], count, idx, damage).len() == 0,
{
    lemma_one_primitive(p, count, idx, damage);
    let tri = prim_indices(p, idx);
    reveal_with_fuel(triangles, 2);
    if p.idx0 <= p.idx1 <= idx.len() && p.idx1 == p.idx0 + 3 {
        assert(tri[0] == idx[p.idx0 as int] && tri[1] == idx[p.idx0 + 1] && tri[2] == idx[p.idx0 + 2]);
        assert(tri.len() as int / 3 == 1);
    }
}

proof fn lemma_triples_split(tri: Seq<u32>, m: int, n: int, count: int, tex_id: u64, clip: IRect)
    requires
        0 <= m,
        0 <= n,
        3 * (m + n) <= tri.len(),
    ensures
        triangles(tri, m + n, count, tex_id, clip) == triangles(tri.subrange(0, 3 * m), m, count, tex_id, clip)
            + triangles(tri.subrange(3 * m, 3 * (m + n)), n, count, tex_id, clip),
    decreases m + n,
{
    let head = tri.subrange(0, 3 * m);
    let tail = tri.subrange(3 * m, 3 * (m + n));
    if n > 0 {
        lemma_triples_split(tri, m, n - 1, count, tex_id, clip);
        lemma_triples_agree(tail, tri.subrange(3 * m, 3 * (m + n - 1)), n - 1, count, tex_id, clip);
        assert(tail[3 * (n - 1)] == tri[3 * (m + n - 1)]);
        assert(tail[3 * (n - 1) + 1] == tri[3 * (m + n - 1) + 1]);
        assert(tail[3 * (n - 1) + 2] == tri[3 * (m + n - 1) + 2]);
        assert(triangles(tri, m + n, count, tex_id, clip) =~= triangles(head, m, count, tex_id, clip) + triangles(
            tail,
            n,
            count,
            tex_id,
            clip,
        ));
    } else {
        lemma_triples_agree(tri, head, m, count, tex_id, clip);
        assert(triangles(tail, 0, count, tex_id, clip) =~= Seq::empty());
    }
}

proof fn lemma_triples_agree(s: Seq<u32>, t: Seq<u32>, n: int, count: int, tex_id: u64, clip: IRect)
    requires
        forall|k: int| 0 <= k < 3 * n ==> #[trigger] s[k] == t[k],
    ensures
        triangles(s, n, count, tex_id, clip) == triangles(t, n, count, tex_id, clip),
    decreases n,
{
    if n > 0 {
        lemma_triples_agree(s, t, n - 1, count, tex_id, clip);
        assert(s[3 * (n - 1)] == t[3 * (n - 1)]);
        assert(s[3 * (n - 1) + 1] == t[3 * (n - 1) + 1]);
        assert(s[3 * (n - 1) + 2] == t[3 * (n - 1) + 2]);
    }
}

/// A primitive draws what its two halves draw one after the other, wherever it is cut between
/// two triangles: whether a triangle is drawn goes by that triangle alone.
pub proof fn triangles_do_not_depend_on_each_other(
    p: Prim,
    first: Prim,
    then: Prim,
    count: int,
    idx: Seq<u32>,
    damage: IRect,
    n: int,
)
    requires
        first.clip == p.clip && first.tex_id == p.tex_id,
        then.clip == p.clip && then.tex_id == p.tex_id,
        first.idx0 == p.idx0 && then.idx1 == p.idx1 && first.idx1 == then.idx0,
        0 <= n,
        first.idx1 == p.idx0 + 3 * n,
        first.idx1 <= p.idx1 <= idx.len(),
    ensures
        frame_jobs(seq![p], count, idx, damage) == frame_jobs(seq![first, then], count, idx, damage),
{
    lemma_one_primitive(p, count, idx, damage);
    lemma_one_primitive(first, count, idx, damage);
    lemma_one_primitive(then, count, idx, damage);
    assert(seq![first, then] =~= seq![first] + seq![then]);
    primitives_are_drawn_in_order(seq![first], seq![then], count, idx, damage);
    let tri = prim_indices(p, idx);
    let m = prim_indices(then, idx).len() as int / 3;
    let clip = prim_clip(p, damage);
    if !clip.none() {
        assert(tri.len() as int / 3 == n + m);
        lemma_triples_split(tri, n, m, count, p.tex_id, clip);
        assert(tri.subrange(0, 3 * n) =~= prim_indices(first, idx));
        assert(prim_indices(first, idx).len() as int / 3 == n);
        lemma_triples_agree(
            tri.subrange(3 * n, 3 * (n + m)),
            prim_indices(then, idx),
            m,
            count,
            p.tex_id,
            clip,
        );
    }
}

} // verus!
