//! Laws of the wire format: at which byte each field of a record stands, and that records stand
//! one behind the other in the order of the list.

use vstd::prelude::*;
use crate::bytes::{le32, le32_decodes, le64, le64_decodes, u32_at, u64_at};
use crate::raster::codec::{
    indices_bytes, indices_of, prim_bytes, prims_bytes, prims_of, vertex_bytes, verts_bytes, verts_of, Prim, Vertex,
};

verus! {

/// The record of a vertex: its place, its texture coordinates and its colour, in four bytes each.
pub proof fn vertex_record_is_laid_out(v: Vertex)
    ensures
        vertex_bytes(v).len() == 20,
        u32_at(vertex_bytes(v), 0) == v.x,
        u32_at(vertex_bytes(v), 4) == v.y,
        u32_at(vertex_bytes(v), 8) == v.u,
        u32_at(vertex_bytes(v), 12) == v.v,
        u32_at(vertex_bytes(v), 16) == v.color,
{
    let r = vertex_bytes(v);
    assert(r.subrange(0, 4) =~= le32(v.x));
    assert(r.subrange(4, 8) =~= le32(v.y));
    assert(r.subrange(8, 12) =~= le32(v.u));
    assert(r.subrange(12, 16) =~= le32(v.v));
    assert(r.subrange(16, 20) =~= le32(v.color));
    le32_decodes(r, 0, v.x);
    le32_decodes(r, 4, v.y);
    le32_decodes(r, 8, v.u);
    le32_decodes(r, 12, v.v);
    le32_decodes(r, 16, v.color);
}

/// The record of a primitive: its clip rectangle in four times four bytes, its texture in eight,
/// and the start and the end of its indices in four each.
#[verifier::rlimit(40)]
pub proof fn prim_record_is_laid_out(p: Prim)
    ensures
        prim_bytes(p).len() == 32,
        u32_at(prim_bytes(p), 0) == p.clip[0],
        u32_at(prim_bytes(p), 4) == p.clip[1],
        u32_at(prim_bytes(p), 8) == p.clip[2],
        u32_at(prim_bytes(p), 12) == p.clip[3],
        u64_at(prim_bytes(p), 16) == p.tex_id,
        u32_at(prim_bytes(p), 24) == p.idx0,
        u32_at(prim_bytes(p), 28) == p.idx1,
{
    let r = prim_bytes(p);
    assert(r.subrange(0, 4) =~= le32(p.clip[0]));
    assert(r.subrange(4, 8) =~= le32(p.clip[1]));
    assert(r.subrange(8, 12) =~= le32(p.clip[2]));
    assert(r.subrange(12, 16) =~= le32(p.clip[3]));
    assert(r.subrange(16, 24) =~= le64(p.tex_id));
    assert(r.subrange(24, 28) =~= le32(p.idx0));
    assert(r.subrange(28, 32) =~= le32(p.idx1));
    le32_decodes(r, 0, p.clip[0]);
    le32_decodes(r, 4, p.clip[1]);
    le32_decodes(r, 8, p.clip[2]);
    le32_decodes(r, 12, p.clip[3]);
    le64_decodes(r, 16, p.tex_id);
    le32_decodes(r, 24, p.idx0);
    le32_decodes(r, 28, p.idx1);
}

/// The records of vertices stand in their order, the `i`th at 20 times `i`.
pub proof fn vertex_records_stand_in_order(s: Seq<Vertex>, i: int)
    requires
        0 <= i < s.len(),
    ensures
        verts_bytes(s).len() == 20 * s.len(),
        verts_bytes(s).subrange(20 * i, 20 * i + 20) == vertex_bytes(s[i]),
    decreases s.len(),
{
    let was = s.drop_last();
    vertex_record_is_laid_out(s.last());
    if was.len() > 0 {
        vertex_records_stand_in_order(was, if i < was.len() { i } else { 0 });
    }
    assert(verts_bytes(was).len() == 20 * was.len());
    if i < was.len() {
        assert(verts_bytes(s).subrange(20 * i, 20 * i + 20) =~= verts_bytes(was).subrange(20 * i, 20 * i + 20));
    } else {
        assert(verts_bytes(s).subrange(20 * i, 20 * i + 20) =~= vertex_bytes(s[i]));
    }
}

/// Indices stand in their order, the `i`th at four times `i`.
pub proof fn index_records_stand_in_order(s: Seq<u32>, i: int)
    requires
        0 <= i < s.len(),
    ensures
        indices_bytes(s).len() == 4 * s.len(),
        indices_bytes(s).subrange(4 * i, 4 * i + 4) == le32(s[i]),
        u32_at(indices_bytes(s), 4 * i) == s[i],
    decreases s.len(),
{
    let was = s.drop_last();
    if was.len() > 0 {
        index_records_stand_in_order(was, if i < was.len() { i } else { 0 });
    }
    assert(indices_bytes(was).len() == 4 * was.len());
    if i < was.len() {
        assert(indices_bytes(s).subrange(4 * i, 4 * i + 4) =~= indices_bytes(was).subrange(4 * i, 4 * i + 4));
    } else {
        assert(indices_bytes(s).subrange(4 * i, 4 * i + 4) =~= le32(s[i]));
    }
    le32_decodes(indices_bytes(s), 4 * i, s[i]);
}

/// The records of primitives stand in their order, the `i`th at 32 times `i`.
pub proof fn prim_records_stand_in_order(s: Seq<Prim>, i: int)
    requires
        0 <= i < s.len(),
    ensures
        prims_bytes(s).len() == 32 * s.len(),
        prims_bytes(s).subrange(32 * i, 32 * i + 32) == prim_bytes(s[i]),
    decreases s.len(),
{
    let was = s.drop_last();
    prim_record_is_laid_out(s.last());
    if was.len() > 0 {
        prim_records_stand_in_order(was, if i < was.len() { i } else { 0 });
    }
    assert(prims_bytes(was).len() == 32 * was.len());
    if i < was.len() {
        assert(prims_bytes(s).subrange(32 * i, 32 * i + 32) =~= prims_bytes(was).subrange(32 * i, 32 * i + 32));
    } else {
        assert(prims_bytes(s).subrange(32 * i, 32 * i + 32) =~= prim_bytes(s[i]));
    }
}

/// Reading vertices takes the fields from the places where they are written. A record that is cut
/// off at the end counts for nothing.
pub proof fn vertices_are_read_by_place(s: Seq<u8>, i: int)
    requires
        0 <= i,
        20 * i + 20 <= s.len(),
    ensures
        20 * verts_of(s).len() <= s.len() < 20 * verts_of(s).len() + 20,
        i < verts_of(s).len(),
        verts_of(s)[i].x == u32_at(s, 20 * i),
        verts_of(s)[i].y == u32_at(s, 20 * i + 4),
        verts_of(s)[i].u == u32_at(s, 20 * i + 8),
        verts_of(s)[i].v == u32_at(s, 20 * i + 12),
        verts_of(s)[i].color == u32_at(s, 20 * i + 16),
{
}

/// Reading indices takes four bytes for each.
pub proof fn indices_are_read_by_place(s: Seq<u8>, i: int)
    requires
        0 <= i,
        4 * i + 4 <= s.len(),
    ensures
        4 * indices_of(s).len() <= s.len() < 4 * indices_of(s).len() + 4,
        i < indices_of(s).len(),
        indices_of(s)[i] == u32_at(s, 4 * i),
{
}

/// Reading primitives takes the fields from the places where they are written. A record that is
/// cut off at the end counts for nothing.
pub proof fn prims_are_read_by_place(s: Seq<u8>, ps: Seq<Prim>, i: int)
    requires
        prims_of(s, ps),
        0 <= i,
        32 * i + 32 <= s.len(),
    ensures
        32 * ps.len() <= s.len() < 32 * ps.len() + 32,
        i < ps.len(),
        ps[i].clip[0] == u32_at(s, 32 * i),
        ps[i].clip[1] == u32_at(s, 32 * i + 4),
        ps[i].clip[2] == u32_at(s, 32 * i + 8),
        ps[i].clip[3] == u32_at(s, 32 * i + 12),
        ps[i].tex_id == u64_at(s, 32 * i + 16),
        ps[i].idx0 == u32_at(s, 32 * i + 24),
        ps[i].idx1 == u32_at(s, 32 * i + 28),
{
}

} // verus!
