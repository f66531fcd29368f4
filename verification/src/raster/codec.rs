//! The wire format of meshes: vertices, indices and primitives as packed
//! little-endian records.

use vstd::prelude::*;
use crate::bytes::{get_u32, get_u64, le32, le32_decodes, le64, le64_decodes, push_u32, push_u64, u32_at, u64_at};

verus! {

/// A vertex: position, texture coordinates (bit patterns of single precision numbers)
/// and colour, the premultiplied bytes `[r, g, b, a]` packed little-endian.
#[derive(Clone, Copy, PartialEq, Eq, Structural, Debug)]
pub struct Vertex {
    pub x: u32,
    pub y: u32,
    pub u: u32,
    pub v: u32,
    pub color: u32,
}

/// A primitive: clip rectangle `[min x, min y, max x, max y]` (bit patterns of single
/// precision numbers), texture id, half-open range into the index array.
#[derive(Clone, Copy, PartialEq, Eq, Debug)]
pub struct Prim {
    pub clip: [u32; 4],
    pub tex_id: u64,
    pub idx0: u32,
    pub idx1: u32,
}

/// Bytes of a vertex on the wire.
pub const VERTEX_WIRE_SIZE: usize = 20;

/// Bytes of an index on the wire.
pub const INDEX_WIRE_SIZE: usize = 4;

/// Bytes of a primitive on the wire.
pub const PRIM_WIRE_SIZE: usize = 32;

/// The record of a vertex.
pub open spec fn vertex_bytes(v: Vertex) -> Seq<u8> {
    le32(v.x) + le32(v.y) + le32(v.u) + le32(v.v) + le32(v.color)
}

/// The record of a primitive.
pub open spec fn prim_bytes(p: Prim) -> Seq<u8> {
    le32(p.clip[0]) + le32(p.clip[1]) + le32(p.clip[2]) + le32(p.clip[3]) + le64(p.tex_id) + le32(p.idx0) + le32(
        p.idx1,
    )
}

/// The vertex in the record that starts at `at`.
pub open spec fn vertex_at(s: Seq<u8>, at: int) -> Vertex {
    Vertex {
        x: u32_at(s, at) as u32,
        y: u32_at(s, at + 4) as u32,
        u: u32_at(s, at + 8) as u32,
        v: u32_at(s, at + 12) as u32,
        color: u32_at(s, at + 16) as u32,
    }
}

/// Whether `p` is the primitive in the record that starts at `at`.
pub open spec fn prim_at(s: Seq<u8>, at: int, p: Prim) -> bool {
    &&& p.clip[0] == u32_at(s, at)
    &&& p.clip[1] == u32_at(s, at + 4)
    &&& p.clip[2] == u32_at(s, at + 8)
    &&& p.clip[3] == u32_at(s, at + 12)
    &&& p.tex_id == u64_at(s, at + 16)
    &&& p.idx0 == u32_at(s, at + 24)
    &&& p.idx1 == u32_at(s, at + 28)
}

/// The records of a mesh's vertices, one after the other.
pub open spec fn verts_bytes(s: Seq<Vertex>) -> Seq<u8>
    decreases s.len(),
{
    if s.len() == 0 {
        Seq::empty()
    } else {
        verts_bytes(s.drop_last()) + vertex_bytes(s.last())
    }
}

/// The records of a mesh's indices, one after the other.
pub open spec fn indices_bytes(s: Seq<u32>) -> Seq<u8>
    decreases s.len(),
{
    if s.len() == 0 {
        Seq::empty()
    } else {
        indices_bytes(s.drop_last()) + le32(s.last())
    }
}

/// The records of a mesh's primitives, one after the other.
pub open spec fn prims_bytes(s: Seq<Prim>) -> Seq<u8>
    decreases s.len(),
{
    if s.len() == 0 {
        Seq::empty()
    } else {
        prims_bytes(s.drop_last()) + prim_bytes(s.last())
    }
}

/// The vertices of the whole records in `s`; a record cut off at the end counts for
/// nothing.
pub open spec fn verts_of(s: Seq<u8>) -> Seq<Vertex> {
    Seq::new(s.len() / 20, |i: int| vertex_at(s, 20 * i))
}

/// The indices of the whole records in `s`.
pub open spec fn indices_of(s: Seq<u8>) -> Seq<u32> {
    Seq::new(s.len() / 4, |i: int| u32_at(s, 4 * i) as u32)
}

/// Whether `ps` are the primitives of the whole records in `s`.
pub open spec fn prims_of(s: Seq<u8>, ps: Seq<Prim>) -> bool {
    &&& ps.len() == s.len() / 32
    &&& forall|i: int| 0 <= i < ps.len() ==> prim_at(s, 32 * i, #[trigger] ps[i])
}

proof fn lemma_u32_at_prefix(s: Seq<u8>, t: Seq<u8>, at: int)
    requires
        0 <= at,
        at + 4 <= s.len(),
    ensures
        u32_at(s + t, at) == u32_at(s, at),
{
}

proof fn lemma_u32_in_tail(s: Seq<u8>, t: Seq<u8>, at: int)
    requires
        0 <= at,
        at + 4 <= t.len(),
    ensures
        u32_at(s + t, s.len() + at) == u32_at(t, at),
{
}

proof fn lemma_vertex_record(s: Seq<u8>, v: Vertex)
    ensures
        vertex_bytes(v).len() == 20,
        vertex_at(s + vertex_bytes(v), s.len() as int) == v,
{
    let b = vertex_bytes(v);
    assert(b.subrange(0, 4) =~= le32(v.x));
    assert(b.subrange(4, 8) =~= le32(v.y));
    assert(b.subrange(8, 12) =~= le32(v.u));
    assert(b.subrange(12, 16) =~= le32(v.v));
    assert(b.subrange(16, 20) =~= le32(v.color));
    le32_decodes(b, 0, v.x);
    le32_decodes(b, 4, v.y);
    le32_decodes(b, 8, v.u);
    le32_decodes(b, 12, v.v);
    le32_decodes(b, 16, v.color);
    lemma_u32_in_tail(s, b, 0);
    lemma_u32_in_tail(s, b, 4);
    lemma_u32_in_tail(s, b, 8);
    lemma_u32_in_tail(s, b, 12);
    lemma_u32_in_tail(s, b, 16);
}

proof fn lemma_prim_record(s: Seq<u8>, p: Prim)
    ensures
        prim_bytes(p).len() == 32,
        prim_at(s + prim_bytes(p), s.len() as int, p),
{
    let b = prim_bytes(p);
    assert(b.subrange(0, 4) =~= le32(p.clip[0]));
    assert(b.subrange(4, 8) =~= le32(p.clip[1]));
    assert(b.subrange(8, 12) =~= le32(p.clip[2]));
    assert(b.subrange(12, 16) =~= le32(p.clip[3]));
    assert(b.subrange(16, 24) =~= le64(p.tex_id));
    assert(b.subrange(24, 28) =~= le32(p.idx0));
    assert(b.subrange(28, 32) =~= le32(p.idx1));
    le32_decodes(b, 0, p.clip[0]);
    le32_decodes(b, 4, p.clip[1]);
    le32_decodes(b, 8, p.clip[2]);
    le32_decodes(b, 12, p.clip[3]);
    le64_decodes(b, 16, p.tex_id);
    le32_decodes(b, 24, p.idx0);
    le32_decodes(b, 28, p.idx1);
    lemma_u32_in_tail(s, b, 0);
    lemma_u32_in_tail(s, b, 4);
    lemma_u32_in_tail(s, b, 8);
    lemma_u32_in_tail(s, b, 12);
    lemma_u32_in_tail(s, b, 16);
    lemma_u32_in_tail(s, b, 20);
    lemma_u32_in_tail(s, b, 24);
    lemma_u32_in_tail(s, b, 28);
}

/// Decoding the encoding of vertices gives the vertices back.
pub proof fn verts_round_trip(s: Seq<Vertex>)
    ensures
        verts_bytes(s).len() == 20 * s.len(),
        verts_of(verts_bytes(s)) == s,
    decreases s.len(),
{
    if s.len() > 0 {
        let t = s.drop_last();
        verts_round_trip(t);
        lemma_vertex_record(verts_bytes(t), s.last());
        let b = verts_bytes(s);
        assert forall|i: int| 0 <= i < s.len() implies #[trigger] verts_of(b)[i] == s[i] by {
            if i < t.len() {
                let a = 20 * i;
                assert(verts_of(verts_bytes(t))[i] == t[i]);
                lemma_u32_at_prefix(verts_bytes(t), vertex_bytes(s.last()), a);
                lemma_u32_at_prefix(verts_bytes(t), vertex_bytes(s.last()), a + 4);
                lemma_u32_at_prefix(verts_bytes(t), vertex_bytes(s.last()), a + 8);
                lemma_u32_at_prefix(verts_bytes(t), vertex_bytes(s.last()), a + 12);
                lemma_u32_at_prefix(verts_bytes(t), vertex_bytes(s.last()), a + 16);
            }
        }
    }
    assert(verts_of(verts_bytes(s)) =~= s);
}

/// Decoding the encoding of indices gives the indices back.
pub proof fn indices_round_trip(s: Seq<u32>)
    ensures
        indices_bytes(s).len() == 4 * s.len(),
        indices_of(indices_bytes(s)) == s,
    decreases s.len(),
{
    if s.len() > 0 {
        let t = s.drop_last();
        indices_round_trip(t);
        let b = indices_bytes(s);
        assert(b.subrange(4 * t.len() as int, 4 * s.len() as int) =~= le32(s.last()));
        le32_decodes(b, 4 * t.len() as int, s.last());
        assert forall|i: int| 0 <= i < s.len() implies #[trigger] indices_of(b)[i] == s[i] by {
            if i < t.len() {
                assert(indices_of(indices_bytes(t))[i] == t[i]);
                lemma_u32_at_prefix(indices_bytes(t), le32(s.last()), 4 * i);
            }
        }
    }
    assert(indices_of(indices_bytes(s)) =~= s);
}

proof fn lemma_prim_at_prefix(s: Seq<u8>, t: Seq<u8>, at: int, p: Prim)
    requires
        0 <= at,
        at + 32 <= s.len(),
        prim_at(s, at, p),
    ensures
        prim_at(s + t, at, p),
{
    lemma_u32_at_prefix(s, t, at);
    lemma_u32_at_prefix(s, t, at + 4);
    lemma_u32_at_prefix(s, t, at + 8);
    lemma_u32_at_prefix(s, t, at + 12);
    lemma_u32_at_prefix(s, t, at + 16);
    lemma_u32_at_prefix(s, t, at + 20);
    lemma_u32_at_prefix(s, t, at + 24);
    lemma_u32_at_prefix(s, t, at + 28);
}

/// Decoding the encoding of primitives gives the primitives back.
pub proof fn prims_round_trip(s: Seq<Prim>)
    ensures
        prims_bytes(s).len() == 32 * s.len(),
        prims_of(prims_bytes(s), s),
    decreases s.len(),
{
    if s.len() > 0 {
        let t = s.drop_last();
        prims_round_trip(t);
        let head = prims_bytes(t);
        let tail = prim_bytes(s.last());
        lemma_prim_record(head, s.last());
        assert forall|i: int| 0 <= i < s.len() implies prim_at(prims_bytes(s), 32 * i, #[trigger] s[i]) by {
            if i < t.len() {
                let a = 32 * i;
                assert(prim_at(head, a, t[i]));
                lemma_prim_at_prefix(head, tail, a, t[i]);
            }
        }
    }
}

/// Two primitives read from the same record are equal.
pub proof fn prims_unique(s: Seq<u8>, a: Seq<Prim>, b: Seq<Prim>)
    requires
        prims_of(s, a),
        prims_of(s, b),
    ensures
        a == b,
{
    assert forall|i: int| 0 <= i < a.len() implies a[i] == b[i] by {
        assert(prim_at(s, 32 * i, a[i]));
        assert(prim_at(s, 32 * i, b[i]));
        assert(a[i].clip@ =~= b[i].clip@);
        assert(a[i].clip =~= b[i].clip);
    }
    assert(a =~= b);
}

/// Packs vertices.
pub fn encode_verts(verts: &[Vertex]) -> (r: Vec<u8>)
    ensures
        r@ == verts_bytes(verts@),
{
    let mut out: Vec<u8> = Vec::new();
    let mut i: usize = 0;
    while i < verts.len()
        invariant
            i <= verts.len(),
            out@ == verts_bytes(verts@.take(i as int)),
        decreases verts.len() - i,
    {
        let v = verts[i];
        push_u32(&mut out, v.x);
        push_u32(&mut out, v.y);
        push_u32(&mut out, v.u);
        push_u32(&mut out, v.v);
        push_u32(&mut out, v.color);
        i += 1;
        assert(verts@.take(i as int).drop_last() =~= verts@.take(i - 1));
        assert(out@ =~= verts_bytes(verts@.take(i - 1)) + vertex_bytes(v));
    }
    assert(verts@.take(i as int) =~= verts@);
    out
}

/// Packs indices.
pub fn encode_indices(idx: &[u32]) -> (r: Vec<u8>)
    ensures
        r@ == indices_bytes(idx@),
{
    let mut out: Vec<u8> = Vec::new();
    let mut i: usize = 0;
    while i < idx.len()
        invariant
            i <= idx.len(),
            out@ == indices_bytes(idx@.take(i as int)),
        decreases idx.len() - i,
    {
        push_u32(&mut out, idx[i]);
        i += 1;
        assert(idx@.take(i as int).drop_last() =~= idx@.take(i - 1));
    }
    assert(idx@.take(i as int) =~= idx@);
    out
}

/// Packs primitives.
pub fn encode_prims(prims: &[Prim]) -> (r: Vec<u8>)
    ensures
        r@ == prims_bytes(prims@),
{
    let mut out: Vec<u8> = Vec::new();
    let mut i: usize = 0;
    while i < prims.len()
        invariant
            i <= prims.len(),
            out@ == prims_bytes(prims@.take(i as int)),
        decreases prims.len() - i,
    {
        let p = prims[i];
        push_u32(&mut out, p.clip[0]);
        push_u32(&mut out, p.clip[1]);
        push_u32(&mut out, p.clip[2]);
        push_u32(&mut out, p.clip[3]);
        push_u64(&mut out, p.tex_id);
        push_u32(&mut out, p.idx0);
        push_u32(&mut out, p.idx1);
        i += 1;
        assert(prims@.take(i as int).drop_last() =~= prims@.take(i - 1));
        assert(out@ =~= prims_bytes(prims@.take(i - 1)) + prim_bytes(p));
    }
    assert(prims@.take(i as int) =~= prims@);
    out
}

/// Unpacks the whole vertex records of `b`.
pub fn decode_verts(b: &[u8]) -> (r: Vec<Vertex>)
    ensures
        r@ == verts_of(b@),
{
    let n: usize = b.len() / VERTEX_WIRE_SIZE;
    let mut out: Vec<Vertex> = Vec::new();
    let mut i: usize = 0;
    while i < n
        invariant
            i <= n,
            n == b.len() / 20,
            out@ == verts_of(b@).take(i as int),
        decreases n - i,
    {
        let at: usize = 20 * i;
        out.push(
            Vertex {
                x: get_u32(b, at),
                y: get_u32(b, at + 4),
                u: get_u32(b, at + 8),
                v: get_u32(b, at + 12),
                color: get_u32(b, at + 16),
            },
        );
        i += 1;
        assert(out@ =~= verts_of(b@).take(i as int));
    }
    assert(verts_of(b@).take(i as int) =~= verts_of(b@));
    out
}

/// Unpacks the whole index records of `b`.
pub fn decode_indices(b: &[u8]) -> (r: Vec<u32>)
    ensures
        r@ == indices_of(b@),
{
    let n: usize = b.len() / INDEX_WIRE_SIZE;
    let mut out: Vec<u32> = Vec::new();
    let mut i: usize = 0;
    while i < n
        invariant
            i <= n,
            n == b.len() / 4,
            out@ == indices_of(b@).take(i as int),
        decreases n - i,
    {
        out.push(get_u32(b, 4 * i));
        i += 1;
        assert(out@ =~= indices_of(b@).take(i as int));
    }
    assert(indices_of(b@).take(i as int) =~= indices_of(b@));
    out
}

/// Unpacks the whole primitive records of `b`.
pub fn decode_prims(b: &[u8]) -> (r: Vec<Prim>)
    ensures
        prims_of(b@, r@),
{
    let n: usize = b.len() / PRIM_WIRE_SIZE;
    let mut out: Vec<Prim> = Vec::new();
    let mut i: usize = 0;
    while i < n
        invariant
            i <= n,
            n == b.len() / 32,
            out.len() == i,
            forall|k: int| 0 <= k < i ==> prim_at(b@, 32 * k, #[trigger] out@[k]),
        decreases n - i,
    {
        let at: usize = 32 * i;
        let p = Prim {
            clip: [get_u32(b, at), get_u32(b, at + 4), get_u32(b, at + 8), get_u32(b, at + 12)],
            tex_id: get_u64(b, at + 16),
            idx0: get_u32(b, at + 24),
            idx1: get_u32(b, at + 28),
        };
        assert(prim_at(b@, 32 * i as int, p));
        out.push(p);
        i += 1;
    }
    out
}

} // verus!
