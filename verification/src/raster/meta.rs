//! What is remembered of a primitive from one frame to the next: a hash of everything
//! that it draws, and the pixels that it can touch.

use vstd::prelude::*;
use crate::raster::codec::{Prim, Vertex};
use crate::raster::float::{ceil32, ceil_i32, floor32, floor_i32, fmax, fmin, max, min, INFINITY, NEG_INFINITY};
use crate::raster::rect::IRect;

verus! {

/// Hash and bounding box of a primitive.
#[derive(Clone, Copy, PartialEq, Eq, Structural, Debug)]
pub struct PrimMeta {
    pub hash: u64,
    pub bbox: IRect,
}

/// Where the hash starts.
pub const FNV_OFFSET: u64 = 0xcbf2_9ce4_8422_2325;

/// What the hash is multiplied by at each word.
pub const FNV_PRIME: u64 = 0x0000_0100_0000_01b3;

/// The hash of a sequence of words (FNV-1a, one word at a time).
pub open spec fn fnv(words: Seq<u32>) -> u64
    decreases words.len(),
{
    if words.len() == 0 {
        FNV_OFFSET
    } else {
        (fnv(words.drop_last()) ^ (words.last() as u64)).wrapping_mul(FNV_PRIME)
    }
}

/// The indices of a primitive; none where its range does not lie in the index array.
pub open spec fn prim_indices(p: Prim, idx: Seq<u32>) -> Seq<u32> {
    if p.idx0 <= p.idx1 <= idx.len() {
        idx.subrange(p.idx0 as int, p.idx1 as int)
    } else {
        Seq::empty()
    }
}

/// The words of a vertex.
pub open spec fn vertex_words(v: Vertex) -> Seq<u32> {
    seq![v.x, v.y, v.u, v.v, v.color]
}

/// The words of the vertices that `tri` refers to; a reference to no vertex counts for
/// nothing.
pub open spec fn mesh_words(tri: Seq<u32>, verts: Seq<Vertex>) -> Seq<u32>
    decreases tri.len(),
{
    if tri.len() == 0 {
        Seq::empty()
    } else if tri.last() < verts.len() {
        mesh_words(tri.drop_last(), verts) + vertex_words(verts[tri.last() as int])
    } else {
        mesh_words(tri.drop_last(), verts)
    }
}

/// Everything that decides what a primitive draws: clip, texture, vertices, indices.
pub open spec fn prim_words(p: Prim, verts: Seq<Vertex>, idx: Seq<u32>) -> Seq<u32> {
    seq![
        p.clip[0],
        p.clip[1],
        p.clip[2],
        p.clip[3],
        (p.tex_id % 0x1_0000_0000) as u32,
        (p.tex_id / 0x1_0000_0000) as u32,
    ] + mesh_words(prim_indices(p, idx), verts) + prim_indices(p, idx)
}

/// A coordinate of a vertex.
pub open spec fn coordinate(v: Vertex, vertical: bool) -> u32 {
    if vertical { v.y } else { v.x }
}

/// The least coordinate of the vertices that `tri` refers to.
pub open spec fn least(tri: Seq<u32>, verts: Seq<Vertex>, vertical: bool) -> u32
    decreases tri.len(),
{
    if tri.len() == 0 {
        INFINITY
    } else if tri.last() < verts.len() {
        fmin(least(tri.drop_last(), verts, vertical), coordinate(verts[tri.last() as int], vertical))
    } else {
        least(tri.drop_last(), verts, vertical)
    }
}

/// The greatest coordinate of the vertices that `tri` refers to.
pub open spec fn greatest(tri: Seq<u32>, verts: Seq<Vertex>, vertical: bool) -> u32
    decreases tri.len(),
{
    if tri.len() == 0 {
        NEG_INFINITY
    } else if tri.last() < verts.len() {
        fmax(greatest(tri.drop_last(), verts, vertical), coordinate(verts[tri.last() as int], vertical))
    } else {
        greatest(tri.drop_last(), verts, vertical)
    }
}

/// The pixels that a primitive can touch on a screen of `w` by `h` pixels: the extent of
/// its vertices, cut to its clip rectangle and to the screen.
pub open spec fn prim_box(p: Prim, verts: Seq<Vertex>, idx: Seq<u32>, w: i32, h: i32) -> IRect {
    let tri = prim_indices(p, idx);
    let x0 = floor32(fmax(least(tri, verts, false), p.clip[0]));
    let y0 = floor32(fmax(least(tri, verts, true), p.clip[1]));
    let x1 = ceil32(fmin(greatest(tri, verts, false), p.clip[2]));
    let y1 = ceil32(fmin(greatest(tri, verts, true), p.clip[3]));
    if x0 >= x1 || y0 >= y1 {
        IRect { x0: 0, y0: 0, x1: 0, y1: 0 }
    } else {
        (IRect { x0, y0, x1, y1 }).within(w, h)
    }
}

/// Hash and bounding box of a primitive.
pub open spec fn meta_of(p: Prim, verts: Seq<Vertex>, idx: Seq<u32>, w: i32, h: i32) -> PrimMeta {
    PrimMeta { hash: fnv(prim_words(p, verts, idx)), bbox: prim_box(p, verts, idx, w, h) }
}

/// Adds a word to a hash.
fn mix(hash: u64, word: u32, Ghost(words): Ghost<Seq<u32>>) -> (r: u64)
    requires
        hash == fnv(words),
    ensures
        r == fnv(words.push(word)),
{
    assert(words.push(word).drop_last() =~= words);
    (hash ^ (word as u64)).wrapping_mul(FNV_PRIME)
}

/// Hash and bounding box of a primitive. Two frames in which a primitive has the same
/// words have the same hash for it.
pub fn prim_meta(p: &Prim, verts: &[Vertex], idx: &[u32], iw: i32, ih: i32) -> (r: PrimMeta)
    requires
        0 <= iw,
        0 <= ih,
    ensures
        r == meta_of(*p, verts@, idx@, iw, ih),
        r.bbox.on_screen(iw as int, ih as int),
{
    let ghost tri = prim_indices(*p, idx@);
    let ghost mut words: Seq<u32> = Seq::empty();
    let c = p.clip;
    let mut hash: u64 = FNV_OFFSET;
    hash = mix(hash, c[0], Ghost(words));
    hash = mix(hash, c[1], Ghost(words.push(c[0])));
    hash = mix(hash, c[2], Ghost(words.push(c[0]).push(c[1])));
    hash = mix(hash, c[3], Ghost(words.push(c[0]).push(c[1]).push(c[2])));
    proof {
        words = words.push(c[0]).push(c[1]).push(c[2]).push(c[3]);
    }
    let lo: u32 = (p.tex_id % 0x1_0000_0000) as u32;
    let hi: u32 = (p.tex_id / 0x1_0000_0000) as u32;
    hash = mix(hash, lo, Ghost(words));
    hash = mix(hash, hi, Ghost(words.push(lo)));
    proof {
        words = words.push(lo).push(hi);
    }
    let ghost head = words;
    let valid: bool = p.idx0 <= p.idx1 && p.idx1 as usize <= idx.len();
    let first: usize = if valid { p.idx0 as usize } else { 0 };
    let count: usize = if valid { (p.idx1 - p.idx0) as usize } else { 0 };
    let mut minx: u32 = INFINITY;
    let mut miny: u32 = INFINITY;
    let mut maxx: u32 = NEG_INFINITY;
    let mut maxy: u32 = NEG_INFINITY;
    let mut k: usize = 0;
    assert(words =~= head + mesh_words(tri.take(0), verts@));
    while k < count
        invariant
            k <= count,
            tri.len() == count,
            first + count <= idx.len(),
            forall|j: int| 0 <= j < count ==> tri[j] == idx@[first + j],
            words == head + mesh_words(tri.take(k as int), verts@),
            hash == fnv(words),
            minx == least(tri.take(k as int), verts@, false),
            miny == least(tri.take(k as int), verts@, true),
            maxx == greatest(tri.take(k as int), verts@, false),
            maxy == greatest(tri.take(k as int), verts@, true),
        decreases count - k,
    {
        let i: u32 = idx[first + k];
        assert(tri.take(k + 1).drop_last() =~= tri.take(k as int));
        assert(tri.take(k + 1).last() == i);
        if (i as usize) < verts.len() {
            let v = verts[i as usize];
            hash = mix(hash, v.x, Ghost(words));
            hash = mix(hash, v.y, Ghost(words.push(v.x)));
            hash = mix(hash, v.u, Ghost(words.push(v.x).push(v.y)));
            hash = mix(hash, v.v, Ghost(words.push(v.x).push(v.y).push(v.u)));
            hash = mix(hash, v.color, Ghost(words.push(v.x).push(v.y).push(v.u).push(v.v)));
            proof {
                words = words.push(v.x).push(v.y).push(v.u).push(v.v).push(v.color);
                assert(words =~= head + (mesh_words(tri.take(k as int), verts@) + vertex_words(v)));
            }
            minx = min(minx, v.x);
            miny = min(miny, v.y);
            maxx = max(maxx, v.x);
            maxy = max(maxy, v.y);
        }
        k += 1;
    }
    assert(tri.take(count as int) =~= tri);
    let ghost body = words;
    k = 0;
    assert(words =~= body + tri.take(0));
    while k < count
        invariant
            k <= count,
            tri.len() == count,
            first + count <= idx.len(),
            forall|j: int| 0 <= j < count ==> tri[j] == idx@[first + j],
            words == body + tri.take(k as int),
            hash == fnv(words),
        decreases count - k,
    {
        let i: u32 = idx[first + k];
        hash = mix(hash, i, Ghost(words));
        proof {
            words = words.push(i);
            assert(words =~= body + tri.take(k + 1));
        }
        k += 1;
    }
    assert(tri.take(count as int) =~= tri);
    assert(words =~= prim_words(*p, verts@, idx@));
    let x0: i32 = floor_i32(max(minx, c[0]));
    let y0: i32 = floor_i32(max(miny, c[1]));
    let x1: i32 = ceil_i32(min(maxx, c[2]));
    let y1: i32 = ceil_i32(min(maxy, c[3]));
    let bbox = if x0 >= x1 || y0 >= y1 {
        IRect::empty()
    } else {
        (IRect { x0, y0, x1, y1 }).clamp(iw, ih)
    };
    PrimMeta { hash, bbox }
}

} // verus!
