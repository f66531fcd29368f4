//! Laws of the numbers behind the picture: what the bits of a coordinate stand for, how they are
//! rounded, which pixels a primitive can touch, what its hash tells, and how small the damage is.

use vstd::arithmetic::div_mod::{lemma_fundamental_div_mod, lemma_mod_bound};
use vstd::arithmetic::power2::{lemma2_to64, lemma_pow2_adds, lemma_pow2_pos, lemma_pow2_unfold, pow2};
use vstd::prelude::*;
use crate::raster::codec::{Prim, Vertex};
use crate::raster::float::{
    fmax, fmin, is_converted, is_finite, is_nan, less, nearest, one, round_int, same, step, trunc_int, units, INFINITY,
    NEG_INFINITY,
};
use crate::raster::meta::{fnv, greatest, least, mesh_words, prim_box, prim_indices, prim_words, PrimMeta};
use crate::raster::rect::IRect;
use crate::raster::renderer::{
    all_on_screen, at_least_one, changed, damage, frame_meta, is_patched, lemma_changed_covers, lemma_changed_on_screen,
    patch_fits, screen, whole_atlas, Atlas,
};
use crate::raster::winding::rounding_is_nearest_from_its_side;

verus! {

/// The bits of a number: zero is zero, each step of the bits is one unit up to the first normal
/// numbers, and with every further exponent the value doubles. The sign bit turns the value
/// round. One is one.
pub proof fn bits_stand_for_numbers(b: u32)
    ensures
        units(0) == 0,
        b < 0x100_0000 ==> units(b) == b,
        0x80_0000 <= b < 0x7f80_0000 ==> units((b + 0x80_0000) as u32) == 2 * units(b),
        b < 0x8000_0000 ==> units((b + 0x8000_0000) as u32) == -units(b),
        b < 0x8000_0000 ==> units(b) >= 0,
        units(0x3f80_0000) == one(),
        b < 0x8000_0000 ==> (is_finite(b) <==> b < 0x7f80_0000),
        b < 0x8000_0000 ==> (is_nan(b) <==> b > 0x7f80_0000),
        b < 0x8000_0000 ==> (is_nan((b + 0x8000_0000) as u32) <==> is_nan(b)),
{
    lemma2_to64();
    lemma_pow2_adds(23, 126);
    assert(units(0x3f80_0000) == 0x80_0000 * pow2(126));
    if 0x80_0000 <= b < 0x7f80_0000 {
        let e = (b / 0x80_0000 - 1) as nat;
        let f = 0x80_0000 + b % 0x80_0000;
        lemma_pow2_unfold(e + 1);
        assert(f * pow2(e + 1) == 2 * (f * pow2(e))) by (nonlinear_arith)
            requires
                pow2(e + 1) == 2 * pow2(e),
        ;
    }
    if b < 0x8000_0000 {
        let e = (b / 0x80_0000 - 1) as nat;
        lemma_pow2_pos(e);
        let f = 0x80_0000 + b % 0x80_0000;
        assert(f * pow2(e) >= 0) by (nonlinear_arith)
            requires
                f >= 0,
                pow2(e) > 0,
        ;
    }
    if 0x80_0000 <= b < 0x100_0000 {
        let f = 0x80_0000 + b % 0x80_0000;
        assert(b / 0x80_0000 == 1 && f == b);
        assert(f * pow2(0) == f) by (nonlinear_arith)
            requires
                pow2(0) == 1,
        ;
    }
}

/// Numbers of the same exponent are evenly spaced: as many steps of the bits as lie between them,
/// times the weight of the exponent.
pub proof fn numbers_are_evenly_spaced(b: u32, k: u32)
    requires
        0x80_0000 <= b < 0x7f80_0000,
        b % 0x80_0000 == 0,
        k < 0x80_0000,
    ensures
        0x80_0000 * units((b + k) as u32) == (0x80_0000 + k) * units(b),
{
    let e = (b / 0x80_0000 - 1) as nat;
    assert((b + k) / 0x80_0000 == b / 0x80_0000);
    assert((b + k) % 0x80_0000 == k);
    assert(units(b) == 0x80_0000 * pow2(e));
    assert(units((b + k) as u32) == (0x80_0000 + k) * pow2(e));
    let p = pow2(e);
    assert(0x80_0000 * ((0x80_0000 + k) * p) == (0x80_0000 + k) * (0x80_0000 * p)) by (nonlinear_arith);
}

proof fn lemma_parts(m: int, o: int)
    requires
        o > 0,
    ensures
        m == (m / o) * o + m % o,
        0 <= m % o < o,
        (m / o + 1) * o == (m / o) * o + o,
        (-(m / o)) * o == -((m / o) * o),
        (-(m / o + 1)) * o == -((m / o) * o) - o,
        (-(m / o) - 1) * o == -((m / o) * o) - o,
{
    lemma_fundamental_div_mod(m, o);
    lemma_mod_bound(m, o);
    let q = m / o;
    assert(o * q == q * o) by (nonlinear_arith);
    assert((q + 1) * o == q * o + o) by (nonlinear_arith);
    assert((-q) * o == -(q * o)) by (nonlinear_arith);
    assert((-(q + 1)) * o == -(q * o) - o) by (nonlinear_arith);
    assert((-q - 1) * o == -(q * o) - o) by (nonlinear_arith);
}

/// The nearest integer is at most half away from a number, and of two as near the one farther
/// from zero. The truncated one lies between zero and the number, less than one away.
pub proof fn rounding_stays_near(b: u32)
    requires
        is_finite(b),
    ensures
        b < 0x8000_0000 ==> -one() <= 2 * (units(b) - round_int(b) * one()) < one(),
        b >= 0x8000_0000 ==> -one() < 2 * (units(b) - round_int(b) * one()) <= one(),
        b < 0x8000_0000 ==> trunc_int(b) * one() <= units(b) < (trunc_int(b) + 1) * one(),
        b >= 0x8000_0000 ==> (trunc_int(b) - 1) * one() < units(b) <= trunc_int(b) * one(),
{
    lemma_pow2_pos(149);
    let m = crate::raster::float::mag_units(crate::raster::float::mag(b));
    lemma_parts(m, one());
}

proof fn lemma_step(n: int)
    requires
        0 <= n,
    ensures
        step(n) >= 1,
        n < 0x100_0000 * step(n),
        step(n) == 1 || 0x80_0000 * step(n) <= n,
        step(n) > 1 ==> step(n) % 2 == 0,
    decreases n,
{
    if n >= 0x100_0000 {
        lemma_step(n / 2);
    }
}

/// A whole number that is turned into a number keeps its sign and comes out as the nearest number
/// there is: exactly itself up to 2^24, and otherwise less than or just half a step away, where a
/// step is as large as 24 binary digits leave it.
pub proof fn conversion_is_nearest(v: i32, r: u32)
    requires
        is_converted(v, r),
    ensures
        is_finite(r),
        r >= 0x8000_0000 <==> v < 0,
        -0x100_0000 <= v <= 0x100_0000 ==> units(r) == v * one(),
        ({
            let n = if v < 0 { -v } else { v as int };
            let s = step(n);
            &&& s == 1 || 0x80_0000 * s <= n < 0x100_0000 * s
            &&& nearest(n) % s == 0
            &&& -s <= 2 * (nearest(n) - n) <= s
            &&& v >= 0 ==> units(r) == nearest(n) * one()
            &&& v < 0 ==> units(r) == -(nearest(n) * one())
        }),
{
    let n = if v < 0 { -v } else { v as int };
    let s = step(n);
    lemma_step(n);
    lemma_parts(n, s);
    let q = n / s;
    assert((q * s) % s == 0) by {
        vstd::arithmetic::div_mod::lemma_mod_multiples_basic(q, s);
    }
    assert(((q + 1) * s) % s == 0) by {
        vstd::arithmetic::div_mod::lemma_mod_multiples_basic(q + 1, s);
    }
    if n < 0x100_0000 {
        assert(s == 1);
        assert(n / 1 == n && n % 1 == 0);
        assert(nearest(n) == n);
    }
    if n == 0x100_0000 {
        reveal_with_fuel(step, 2);
        assert(s == 2);
        assert(nearest(n) == n);
    }
    if v < 0 {
        assert(-(n * one()) == (-n) * one()) by (nonlinear_arith);
    }
}

/// The order of numbers, the equality of numbers and the smaller and larger of two are those of
/// the values; what is no number is neither less nor equal, and gives way to the other.
pub proof fn comparisons_go_by_value(a: u32, b: u32)
    ensures
        !is_nan(a) && !is_nan(b) ==> {
            &&& less(a, b) <==> units(a) < units(b)
            &&& same(a, b) <==> units(a) == units(b)
            &&& units(fmin(a, b)) <= units(a) && units(fmin(a, b)) <= units(b)
            &&& units(fmax(a, b)) >= units(a) && units(fmax(a, b)) >= units(b)
            &&& fmin(a, b) == a || fmin(a, b) == b
            &&& fmax(a, b) == a || fmax(a, b) == b
        },
        is_nan(a) || is_nan(b) ==> !less(a, b) && !same(a, b),
        is_nan(a) && !is_nan(b) ==> fmin(a, b) == b && fmax(a, b) == b,
        !is_nan(a) && is_nan(b) ==> fmin(a, b) == a && fmax(a, b) == a,
{
}

proof fn lemma_multiplier_is_undone(a: u64)
    ensures
        (a.wrapping_mul(0x0000_0100_0000_01b3) * 0xce96_5057_aff6_957b) % 0x1_0000_0000_0000_0000 == a,
{
    let m = 0x1_0000_0000_0000_0000int;
    let p = 0x0000_0100_0000_01b3int;
    let q = 0xce96_5057_aff6_957bint;
    let x = a as int;
    vstd::arithmetic::div_mod::lemma_mul_mod_noop_left(x * p, q, m);
    assert((x * p) * q == x * (p * q)) by (nonlinear_arith);
    assert(p * q == 1 + 887285111055 * m);
    assert(x * (1 + 887285111055 * m) == m * (887285111055 * x) + x) by (nonlinear_arith);
    vstd::arithmetic::div_mod::lemma_mod_multiples_vanish(887285111055 * x, x, m);
    vstd::arithmetic::div_mod::lemma_small_mod(a as nat, m as nat);
}

proof fn lemma_mixing_is_injective(h: u64, g: u64, v: u64, w: u64)
    requires
        (h ^ v).wrapping_mul(0x0000_0100_0000_01b3) == (g ^ w).wrapping_mul(0x0000_0100_0000_01b3),
    ensures
        h == g ==> v == w,
        v == w ==> h == g,
{
    lemma_multiplier_is_undone(h ^ v);
    lemma_multiplier_is_undone(g ^ w);
    assert(h ^ v == g ^ w);
    assert(h ^ v == g ^ w && h == g ==> v == w) by (bit_vector);
    assert(h ^ v == g ^ w && v == w ==> h == g) by (bit_vector);
}

/// Changing one word of what is hashed changes the hash, whichever word it is.
pub proof fn one_word_changes_the_hash(a: Seq<u32>, b: Seq<u32>, i: int)
    requires
        a.len() == b.len(),
        0 <= i < a.len(),
        a[i] != b[i],
        forall|j: int| 0 <= j < a.len() && j != i ==> a[j] == b[j],
    ensures
        fnv(a) != fnv(b),
    decreases a.len(),
{
    let (s, t) = (a.drop_last(), b.drop_last());
    let (v, w) = (a.last() as u64, b.last() as u64);
    if i == a.len() - 1 {
        assert(s =~= t);
        if fnv(a) == fnv(b) {
            lemma_mixing_is_injective(fnv(s), fnv(t), v, w);
        }
    } else {
        one_word_changes_the_hash(s, t, i);
        assert(a.last() == b.last());
        if fnv(a) == fnv(b) {
            lemma_mixing_is_injective(fnv(s), fnv(t), v, w);
        }
    }
}

/// Everything that a primitive draws with goes into its hash: clip, texture, indices and the
/// vertices that they refer to. Primitives with the same words and the same number of indices, all
/// of which refer to vertices, agree in all of these.
pub proof fn words_tell_the_primitive(
    p: Prim,
    q: Prim,
    verts: Seq<Vertex>,
    others: Seq<Vertex>,
    idx: Seq<u32>,
    jdx: Seq<u32>,
    k: int,
)
    requires
        prim_words(p, verts, idx) == prim_words(q, others, jdx),
        prim_indices(p, idx).len() == prim_indices(q, jdx).len(),
        forall|i: int| 0 <= i < prim_indices(p, idx).len() ==> #[trigger] prim_indices(p, idx)[i] < verts.len(),
        forall|i: int| 0 <= i < prim_indices(q, jdx).len() ==> #[trigger] prim_indices(q, jdx)[i] < others.len(),
        0 <= k < prim_indices(p, idx).len(),
    ensures
        p.clip[0] == q.clip[0] && p.clip[1] == q.clip[1] && p.clip[2] == q.clip[2] && p.clip[3] == q.clip[3],
        p.tex_id == q.tex_id,
        prim_indices(p, idx)[k] == prim_indices(q, jdx)[k],
        verts[prim_indices(p, idx)[k] as int] == others[prim_indices(q, jdx)[k] as int],
{
    let (s, t) = (prim_indices(p, idx), prim_indices(q, jdx));
    let (a, b) = (prim_words(p, verts, idx), prim_words(q, others, jdx));
    lemma_mesh_words(s, verts, k);
    lemma_mesh_words(t, others, k);
    assert(a[0] == b[0] && a[1] == b[1] && a[2] == b[2] && a[3] == b[3] && a[4] == b[4] && a[5] == b[5]);
    let n = 6 + 5 * s.len() as int;
    assert(a[n + k] == s[k]);
    assert(b[n + k] == t[k]);
    let (m, o) = (mesh_words(s, verts), mesh_words(t, others));
    assert(a[6 + 5 * k] == m[5 * k] && b[6 + 5 * k] == o[5 * k]);
    assert(a[7 + 5 * k] == m[5 * k + 1] && b[7 + 5 * k] == o[5 * k + 1]);
    assert(a[8 + 5 * k] == m[5 * k + 2] && b[8 + 5 * k] == o[5 * k + 2]);
    assert(a[9 + 5 * k] == m[5 * k + 3] && b[9 + 5 * k] == o[5 * k + 3]);
    assert(a[10 + 5 * k] == m[5 * k + 4] && b[10 + 5 * k] == o[5 * k + 4]);
}

proof fn lemma_mesh_words(tri: Seq<u32>, verts: Seq<Vertex>, k: int)
    requires
        forall|i: int| 0 <= i < tri.len() ==> #[trigger] tri[i] < verts.len(),
        0 <= k < tri.len(),
    ensures
        mesh_words(tri, verts).len() == 5 * tri.len(),
        ({
            let (m, v) = (mesh_words(tri, verts), verts[tri[k] as int]);
            &&& m[5 * k] == v.x && m[5 * k + 1] == v.y && m[5 * k + 2] == v.u && m[5 * k + 3] == v.v
            &&& m[5 * k + 4] == v.color
        }),
    decreases tri.len(),
{
    let d = tri.drop_last();
    assert(tri[tri.len() - 1] < verts.len());
    assert forall|i: int| 0 <= i < d.len() implies #[trigger] d[i] < verts.len() by {
        assert(tri[i] < verts.len());
    }
    if d.len() > 0 {
        lemma_mesh_words(d, verts, if k < d.len() { k } else { 0 });
    }
    assert(mesh_words(d, verts).len() == 5 * d.len());
}

/// The place of a vertex on one axis.
pub open spec fn place(v: Vertex, vertical: bool) -> int {
    if vertical { units(v.y) } else { units(v.x) }
}

/// Whether every index of a list refers to a vertex with a place.
pub open spec fn all_placed(tri: Seq<u32>, verts: Seq<Vertex>) -> bool {
    forall|k: int|
        0 <= k < tri.len() ==> (#[trigger] tri[k]) < verts.len() && is_finite(verts[tri[k] as int].x) && is_finite(
            verts[tri[k] as int].y,
        )
}

proof fn lemma_extent(tri: Seq<u32>, verts: Seq<Vertex>, vertical: bool)
    requires
        tri.len() > 0,
        all_placed(tri, verts),
    ensures
        is_finite(least(tri, verts, vertical)),
        is_finite(greatest(tri, verts, vertical)),
        forall|k: int|
            0 <= k < tri.len() ==> units(least(tri, verts, vertical)) <= place(
                verts[(#[trigger] tri[k]) as int],
                vertical,
            ) <= units(greatest(tri, verts, vertical)),
        exists|k: int|
            0 <= k < tri.len() && place(verts[(#[trigger] tri[k]) as int], vertical) == units(
                least(tri, verts, vertical),
            ),
        exists|k: int|
            0 <= k < tri.len() && place(verts[(#[trigger] tri[k]) as int], vertical) == units(
                greatest(tri, verts, vertical),
            ),
    decreases tri.len(),
{
    let d = tri.drop_last();
    let n = tri.len() - 1;
    assert(tri[n] < verts.len());
    let c = crate::raster::meta::coordinate(verts[tri[n] as int], vertical);
    assert(units(c) == place(verts[tri[n] as int], vertical));
    if d.len() > 0 {
        assert(all_placed(d, verts)) by {
            assert forall|k: int| 0 <= k < d.len() implies (#[trigger] d[k]) < verts.len() && is_finite(
                verts[d[k] as int].x,
            ) && is_finite(verts[d[k] as int].y) by {
                assert(tri[k] < verts.len());
            }
        }
        lemma_extent(d, verts, vertical);
        assert forall|k: int| 0 <= k < tri.len() implies units(least(tri, verts, vertical)) <= place(
            verts[(#[trigger] tri[k]) as int],
            vertical,
        ) <= units(greatest(tri, verts, vertical)) by {
            if k < n {
                assert(d[k] == tri[k]);
            }
        }
        let a = choose|k: int|
            0 <= k < d.len() && place(verts[(#[trigger] d[k]) as int], vertical) == units(least(d, verts, vertical));
        let b = choose|k: int|
            0 <= k < d.len() && place(verts[(#[trigger] d[k]) as int], vertical) == units(
                greatest(d, verts, vertical),
            );
        assert(tri[a] == d[a] && tri[b] == d[b]);
    } else {
        bits_stand_for_numbers(INFINITY);
        lemma_finite_is_below_infinity(c);
        assert(least(d, verts, vertical) == INFINITY);
        assert(greatest(d, verts, vertical) == NEG_INFINITY);
        assert(least(tri, verts, vertical) == c);
        assert(greatest(tri, verts, vertical) == c);
    }
}

proof fn lemma_finite_is_below_infinity(c: u32)
    requires
        is_finite(c),
    ensures
        units(NEG_INFINITY) < units(c) < units(INFINITY),
        !is_nan(INFINITY) && !is_nan(NEG_INFINITY),
{
    let m = c % 0x8000_0000;
    let e = (m / 0x80_0000 - 1) as nat;
    let f = m % 0x80_0000;
    assert(units(INFINITY) == 0x80_0000 * pow2(254));
    assert(units(NEG_INFINITY) == -(0x80_0000 * pow2(254)));
    lemma_pow2_pos(254);
    if m >= 0x80_0000 {
        lemma_pow2_pos(e);
        lemma_pow2_unfold(e + 1);
        if e + 1 < 254 {
            vstd::arithmetic::power2::lemma_pow2_strictly_increases(e + 1, 254);
        }
        assert(0 <= (0x80_0000 + f) * pow2(e) < 0x80_0000 * pow2(254)) by (nonlinear_arith)
            requires
                0 <= f < 0x80_0000,
                0 < pow2(e),
                2 * pow2(e) <= pow2(254),
        ;
    } else {
        lemma2_to64();
        vstd::arithmetic::power2::lemma_pow2_strictly_increases(0, 254);
    }
}

/// The pixels that a primitive can touch are those of the screen whose square meets its clip
/// rectangle and the extent of its vertices, on both axes: no fewer, and no more.
pub proof fn box_is_the_extent(p: Prim, verts: Seq<Vertex>, idx: Seq<u32>, w: i32, h: i32, i: int, j: int)
    requires
        0 <= w,
        0 <= h,
        prim_indices(p, idx).len() > 0,
        all_placed(prim_indices(p, idx), verts),
        is_finite(p.clip[0]) && is_finite(p.clip[1]) && is_finite(p.clip[2]) && is_finite(p.clip[3]),
    ensures
        ({
            let b = prim_box(p, verts, idx, w, h);
            let t = prim_indices(p, idx);
            (b.x0 <= i < b.x1 && b.y0 <= j < b.y1) <==> {
                &&& 0 <= i < w && 0 <= j < h
                &&& units(p.clip[0]) < (i + 1) * one() && i * one() < units(p.clip[2])
                &&& units(p.clip[1]) < (j + 1) * one() && j * one() < units(p.clip[3])
                &&& exists|k: int| 0 <= k < t.len() && units(verts[(#[trigger] t[k]) as int].x) < (i + 1) * one()
                &&& exists|k: int| 0 <= k < t.len() && i * one() < units(verts[(#[trigger] t[k]) as int].x)
                &&& exists|k: int| 0 <= k < t.len() && units(verts[(#[trigger] t[k]) as int].y) < (j + 1) * one()
                &&& exists|k: int| 0 <= k < t.len() && j * one() < units(verts[(#[trigger] t[k]) as int].y)
            }
        }),
{
    let t = prim_indices(p, idx);
    lemma_extent(t, verts, false);
    lemma_extent(t, verts, true);
    let (lx, gx) = (least(t, verts, false), greatest(t, verts, false));
    let (ly, gy) = (least(t, verts, true), greatest(t, verts, true));
    let (x0, y0) = (fmax(lx, p.clip[0]), fmax(ly, p.clip[1]));
    let (x1, y1) = (fmin(gx, p.clip[2]), fmin(gy, p.clip[3]));
    comparisons_go_by_value(lx, p.clip[0]);
    comparisons_go_by_value(ly, p.clip[1]);
    comparisons_go_by_value(gx, p.clip[2]);
    comparisons_go_by_value(gy, p.clip[3]);
    if 0 <= i < w && 0 <= j < h {
        rounding_is_nearest_from_its_side(x0, i);
        rounding_is_nearest_from_its_side(y0, j);
        rounding_is_nearest_from_its_side(x1, i);
        rounding_is_nearest_from_its_side(y1, j);
        lemma_reaches(t, verts, false, (i + 1) * one(), i * one());
        lemma_reaches(t, verts, true, (j + 1) * one(), j * one());
    }
}

proof fn lemma_reaches(tri: Seq<u32>, verts: Seq<Vertex>, vertical: bool, hi: int, lo: int)
    requires
        tri.len() > 0,
        all_placed(tri, verts),
    ensures
        units(least(tri, verts, vertical)) < hi <==> exists|k: int|
            0 <= k < tri.len() && place(verts[(#[trigger] tri[k]) as int], vertical) < hi,
        lo < units(greatest(tri, verts, vertical)) <==> exists|k: int|
            0 <= k < tri.len() && lo < place(verts[(#[trigger] tri[k]) as int], vertical),
        !vertical ==> ((exists|k: int| 0 <= k < tri.len() && place(verts[(#[trigger] tri[k]) as int], vertical) < hi)
            <==> (exists|k: int| 0 <= k < tri.len() && units(verts[(#[trigger] tri[k]) as int].x) < hi)),
        !vertical ==> ((exists|k: int| 0 <= k < tri.len() && lo < place(verts[(#[trigger] tri[k]) as int], vertical))
            <==> (exists|k: int| 0 <= k < tri.len() && lo < units(verts[(#[trigger] tri[k]) as int].x))),
        vertical ==> ((exists|k: int| 0 <= k < tri.len() && place(verts[(#[trigger] tri[k]) as int], vertical) < hi)
            <==> (exists|k: int| 0 <= k < tri.len() && units(verts[(#[trigger] tri[k]) as int].y) < hi)),
        vertical ==> ((exists|k: int| 0 <= k < tri.len() && lo < place(verts[(#[trigger] tri[k]) as int], vertical))
            <==> (exists|k: int| 0 <= k < tri.len() && lo < units(verts[(#[trigger] tri[k]) as int].y))),
{
    lemma_extent(tri, verts, vertical);
}

/// Whether a rectangle lies in another; one without pixels lies everywhere.
pub open spec fn lies_in(a: IRect, r: IRect) -> bool {
    a.x0 >= a.x1 || a.y0 >= a.y1 || r.x0 <= a.x0 && a.x1 <= r.x1 && r.y0 <= a.y0 && a.y1 <= r.y1
}

proof fn lemma_changed_is_least(prev: Seq<PrimMeta>, next: Seq<PrimMeta>, r: IRect)
    requires
        prev.len() == next.len(),
        forall|i: int| 0 <= i < prev.len() && (#[trigger] prev[i]).hash != next[i].hash ==> lies_in(prev[i].bbox, r)
            && lies_in(next[i].bbox, r),
    ensures
        lies_in(changed(prev, next), r),
    decreases prev.len(),
{
    if prev.len() > 0 {
        let (a, b) = (prev.drop_last(), next.drop_last());
        assert forall|i: int| 0 <= i < a.len() && (#[trigger] a[i]).hash != b[i].hash implies lies_in(a[i].bbox, r)
            && lies_in(b[i].bbox, r) by {
            assert(prev[i].hash != next[i].hash);
        }
        lemma_changed_is_least(a, b, r);
        assert(prev[prev.len() - 1] == prev.last());
    }
}

/// What is redrawn is no larger than it has to be: where all that changed lies in a rectangle, the
/// region to redraw lies in that rectangle grown by one pixel on each side. Where nothing changed
/// nothing is redrawn.
pub proof fn damage_is_small(prev: Seq<PrimMeta>, next: Seq<PrimMeta>, w: i32, h: i32, r: IRect)
    requires
        0 < w < i32::MAX,
        0 < h < i32::MAX,
        prev.len() == next.len(),
        all_on_screen(prev, w as int, h as int),
        all_on_screen(next, w as int, h as int),
        0 <= r.x0 <= r.x1 <= w,
        0 <= r.y0 <= r.y1 <= h,
        forall|i: int| 0 <= i < prev.len() && (#[trigger] prev[i]).hash != next[i].hash ==> lies_in(prev[i].bbox, r)
            && lies_in(next[i].bbox, r),
    ensures
        damage(prev, next, false, w, h) matches Some(d) ==> {
            &&& r.x0 - 1 <= d.x0 && d.x1 <= r.x1 + 1
            &&& r.y0 - 1 <= d.y0 && d.y1 <= r.y1 + 1
            &&& 0 <= d.x0 < d.x1 <= w && 0 <= d.y0 < d.y1 <= h
        },
        (forall|i: int| 0 <= i < prev.len() ==> (#[trigger] prev[i]).hash == next[i].hash) ==> damage(
            prev,
            next,
            false,
            w,
            h,
        ) is None,
{
    lemma_changed_is_least(prev, next, r);
    if forall|i: int| 0 <= i < prev.len() ==> (#[trigger] prev[i]).hash == next[i].hash {
        lemma_changed_is_least(prev, next, IRect { x0: 5, y0: 5, x1: 5, y1: 5 });
    }
    lemma_changed_on_screen(prev, next, w as int, h as int);
}

/// Everything is redrawn where that is asked for, and where primitives came or went.
pub proof fn all_is_redrawn_on_request(prev: Seq<PrimMeta>, next: Seq<PrimMeta>, all: bool, w: i32, h: i32)
    requires
        0 < w,
        0 < h,
        all || prev.len() != next.len(),
    ensures
        damage(prev, next, all, w, h) == Some(IRect { x0: 0, y0: 0, x1: w, y1: h }),
        screen(w, h) == (IRect { x0: 0, y0: 0, x1: w, y1: h }),
        at_least_one(0) == 1,
        at_least_one(w as u32) == w,
{
}

/// The box around two rectangles is no larger than it has to be: it lies in every rectangle that
/// both lie in.
pub proof fn union_is_least(a: IRect, b: IRect, r: IRect)
    requires
        lies_in(a, r),
        lies_in(b, r),
    ensures
        lies_in(a.around(b), r),
{
}

/// What is redrawn has, besides the boxes in which a changed primitive stood before or stands now,
/// every pixel of the screen that touches them, also at a corner.
pub proof fn damage_has_a_margin(
    prev: Seq<PrimMeta>,
    next: Seq<PrimMeta>,
    w: i32,
    h: i32,
    i: int,
    x: int,
    y: int,
    px: int,
    py: int,
)
    requires
        0 < w < i32::MAX,
        0 < h < i32::MAX,
        prev.len() == next.len(),
        all_on_screen(prev, w as int, h as int),
        all_on_screen(next, w as int, h as int),
        0 <= i < prev.len(),
        prev[i].hash != next[i].hash,
        prev[i].bbox.has(x, y) || next[i].bbox.has(x, y),
        x - 1 <= px <= x + 1,
        y - 1 <= py <= y + 1,
        0 <= px < w,
        0 <= py < h,
    ensures
        damage(prev, next, false, w, h) matches Some(d) && d.x0 <= px < d.x1 && d.y0 <= py < d.y1,
{
    lemma_changed_covers(prev, next, i, x, y);
    lemma_changed_on_screen(prev, next, w as int, h as int);
}

/// Of every primitive of a frame, in their order, the hash of its words and the box around it are
/// kept.
pub proof fn primitives_are_kept_in_order(
    prims: Seq<Prim>,
    verts: Seq<Vertex>,
    idx: Seq<u32>,
    w: i32,
    h: i32,
    i: int,
)
    requires
        0 <= i < prims.len(),
    ensures
        frame_meta(prims, verts, idx, w, h).len() == prims.len(),
        frame_meta(prims, verts, idx, w, h)[i].hash == fnv(prim_words(prims[i], verts, idx)),
        frame_meta(prims, verts, idx, w, h)[i].bbox == prim_box(prims[i], verts, idx, w, h),
{
}

/// A patch replaces the pixels it lies on, row by row, and no others.
pub proof fn patches_replace_their_pixels(
    after: Seq<u8>,
    before: Seq<u8>,
    aw: int,
    ah: int,
    ox: int,
    oy: int,
    w: int,
    h: int,
    px: Seq<u8>,
    x: int,
    y: int,
    c: int,
)
    requires
        is_patched(after, before, aw, ah, ox, oy, w, h, px),
        0 <= x < aw,
        0 <= y < ah,
        0 <= c < 4,
    ensures
        after.len() == before.len(),
        ox <= x < ox + w && oy <= y < oy + h ==> after[4 * (y * aw + x) + c] == px[4 * ((y - oy) * w + (x - ox)) + c],
        x < ox || x >= ox + w || y < oy || y >= oy + h ==> after[4 * (y * aw + x) + c] == before[4 * (y * aw + x) + c],
{
    assert(after[crate::pixels::pixel_index(aw, x, y) + c] == after[4 * (y * aw + x) + c]);
    assert(crate::pixels::pixel_index(w, x - ox, y - oy) == 4 * ((y - oy) * w + (x - ox)));
}

/// An atlas that is set whole has pixels, four bytes each, and all of them were handed over; a patch
/// reaches beyond its atlas on no side.
pub proof fn textures_have_all_their_bytes(a: Atlas, ox: u32, oy: u32, w: u32, h: u32, px: Seq<u8>)
    ensures
        whole_atlas(w, h, px) <==> w >= 1 && h >= 1 && px.len() >= 4 * (w * h),
        patch_fits(a, ox, oy, w, h, px) <==> ox + w <= a.w && oy + h <= a.h && px.len() >= 4 * (w * h),
{
}

} // verus!
