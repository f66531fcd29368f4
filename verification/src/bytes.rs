//! Little-endian encoding of unsigned integers.

use vstd::prelude::*;

verus! {

/// The two bytes of `v`, least significant first.
pub open spec fn le16(v: u16) -> Seq<u8> {
    seq![(v % 256) as u8, (v / 256) as u8]
}

/// The four bytes of `v`, least significant first.
pub open spec fn le32(v: u32) -> Seq<u8> {
    seq![
        (v % 256) as u8,
        (v / 0x100 % 256) as u8,
        (v / 0x1_0000 % 256) as u8,
        (v / 0x100_0000) as u8,
    ]
}

/// The eight bytes of `v`, least significant first.
pub open spec fn le64(v: u64) -> Seq<u8> {
    le32((v % 0x1_0000_0000) as u32) + le32((v / 0x1_0000_0000) as u32)
}

/// The number whose four little-endian bytes stand at `at` in `s`.
pub open spec fn u32_at(s: Seq<u8>, at: int) -> int {
    s[at] + 0x100 * s[at + 1] + 0x1_0000 * s[at + 2] + 0x100_0000 * s[at + 3]
}

/// The number whose two little-endian bytes stand at `at` in `s`.
pub open spec fn u16_at(s: Seq<u8>, at: int) -> int {
    s[at] + 0x100 * s[at + 1]
}

/// The number whose eight little-endian bytes stand at `at` in `s`.
pub open spec fn u64_at(s: Seq<u8>, at: int) -> int {
    u32_at(s, at) + 0x1_0000_0000 * u32_at(s, at + 4)
}

/// Decoding the bytes of a number wherever they stand gives the number back.
pub proof fn le32_decodes(s: Seq<u8>, at: int, v: u32)
    requires
        0 <= at,
        at + 4 <= s.len(),
        s.subrange(at, at + 4) == le32(v),
    ensures
        u32_at(s, at) == v,
{
    let b = s.subrange(at, at + 4);
    assert(b[0] == s[at] && b[1] == s[at + 1] && b[2] == s[at + 2] && b[3] == s[at + 3]);
}

/// Decoding the bytes of a number wherever they stand gives the number back.
pub proof fn le64_decodes(s: Seq<u8>, at: int, v: u64)
    requires
        0 <= at,
        at + 8 <= s.len(),
        s.subrange(at, at + 8) == le64(v),
    ensures
        u64_at(s, at) == v,
{
    let lo = (v % 0x1_0000_0000) as u32;
    let hi = (v / 0x1_0000_0000) as u32;
    assert(s.subrange(at, at + 4) =~= le64(v).subrange(0, 4));
    assert(le64(v).subrange(0, 4) =~= le32(lo));
    assert(s.subrange(at + 4, at + 8) =~= le64(v).subrange(4, 8));
    assert(le64(v).subrange(4, 8) =~= le32(hi));
    le32_decodes(s, at, lo);
    le32_decodes(s, at + 4, hi);
}

/// The bytes of a number run from the least significant one up: each counts 256 times the one
/// before it, both when a number is written and when it is read.
pub proof fn bytes_run_upwards(v: u16, w: u32, x: u64, s: Seq<u8>, at: int)
    ensures
        le16(v).len() == 2 && le32(w).len() == 4 && le64(x).len() == 8,
        v == le16(v)[0] + 256 * le16(v)[1],
        w == le32(w)[0] + 256 * le32(w)[1] + 65536 * le32(w)[2] + 16777216 * le32(w)[3],
        x == le64(x)[0] + 256 * le64(x)[1] + 65536 * le64(x)[2] + 16777216 * le64(x)[3] + 4294967296 * (le64(x)[4]
            + 256 * le64(x)[5] + 65536 * le64(x)[6] + 16777216 * le64(x)[7]),
        u16_at(s, at) == s[at] + 256 * s[at + 1],
        u32_at(s, at) == s[at] + 256 * s[at + 1] + 65536 * s[at + 2] + 16777216 * s[at + 3],
        u64_at(s, at) == u32_at(s, at) + 4294967296 * u32_at(s, at + 4),
{
}

/// The contents of a list of byte strings.
pub open spec fn contents(s: Seq<Vec<u8>>) -> Seq<Seq<u8>> {
    Seq::new(s.len(), |i: int| s[i]@)
}

/// The number of the same 32 bits without a sign.
pub open spec fn unsigned32(v: i32) -> int {
    if v < 0 { v + 0x1_0000_0000 } else { v as int }
}

/// The number of the same 32 bits without a sign.
pub fn bits32(v: i32) -> (r: u32)
    ensures
        r == unsigned32(v),
{
    if v >= 0 {
        v as u32
    } else {
        (v as i64 + 0x1_0000_0000) as u32
    }
}

/// The number of the same 32 bits with a sign.
pub open spec fn signed32(v: u32) -> i32 {
    if v >= 0x8000_0000 { (v - 0x1_0000_0000) as i32 } else { v as i32 }
}

/// The number of the same 32 bits with a sign.
pub fn with_sign(v: u32) -> (r: i32)
    ensures
        r == signed32(v),
{
    if v >= 0x8000_0000 {
        (v as i64 - 0x1_0000_0000) as i32
    } else {
        v as i32
    }
}

/// Reading a number of 32 bits with or without its sign changes it by a multiple of 2^32 at most,
/// and one undoes the other.
pub proof fn signs_are_kept_in_the_bits(v: i32, w: u32)
    ensures
        0 <= unsigned32(v) <= u32::MAX,
        unsigned32(v) == v || unsigned32(v) == v + 4294967296,
        signed32(w) == w || signed32(w) == w - 4294967296,
        signed32(unsigned32(v) as u32) == v,
        unsigned32(signed32(w)) == w,
{
}

/// Appends the two bytes of `v` to `out`.
pub fn push_u16(out: &mut Vec<u8>, v: u16)
    ensures
        final(out)@ == old(out)@ + le16(v),
{
    out.push((v % 256) as u8);
    out.push((v / 256) as u8);
    assert(out@ =~= old(out)@ + le16(v));
}

/// Appends the four bytes of `v` to `out`.
pub fn push_u32(out: &mut Vec<u8>, v: u32)
    ensures
        final(out)@ == old(out)@ + le32(v),
{
    out.push((v % 256) as u8);
    out.push((v / 0x100 % 256) as u8);
    out.push((v / 0x1_0000 % 256) as u8);
    out.push((v / 0x100_0000) as u8);
    assert(out@ =~= old(out)@ + le32(v));
}

/// Appends the eight bytes of `v` to `out`.
pub fn push_u64(out: &mut Vec<u8>, v: u64)
    ensures
        final(out)@ == old(out)@ + le64(v),
{
    push_u32(out, (v % 0x1_0000_0000) as u32);
    push_u32(out, (v / 0x1_0000_0000) as u32);
    assert(out@ =~= old(out)@ + le64(v));
}

/// Appends `src` to `out`.
pub fn push_all(out: &mut Vec<u8>, src: &[u8])
    ensures
        final(out)@ == old(out)@ + src@,
{
    let mut i: usize = 0;
    while i < src.len()
        invariant
            i <= src.len(),
            out@ == old(out)@ + src@.subrange(0, i as int),
        decreases src.len() - i,
    {
        out.push(src[i]);
        assert(src@.subrange(0, i + 1) =~= src@.subrange(0, i as int).push(src[i as int]));
        i += 1;
    }
    assert(src@.subrange(0, i as int) =~= src@);
}

/// Reads the four-byte number at `at`.
pub fn get_u32(s: &[u8], at: usize) -> (v: u32)
    requires
        at + 4 <= s.len(),
    ensures
        v == u32_at(s@, at as int),
{
    s[at] as u32 + 0x100 * (s[at + 1] as u32) + 0x1_0000 * (s[at + 2] as u32) + 0x100_0000 * (s[at + 3] as u32)
}

/// Reads the two-byte number at `at`.
pub fn get_u16(s: &[u8], at: usize) -> (v: u16)
    requires
        at + 2 <= s.len(),
    ensures
        v == u16_at(s@, at as int),
{
    s[at] as u16 + 0x100 * (s[at + 1] as u16)
}

/// Reads the eight-byte number at `at`.
pub fn get_u64(s: &[u8], at: usize) -> (v: u64)
    requires
        at + 8 <= s.len(),
    ensures
        v == u64_at(s@, at as int),
{
    get_u32(s, at) as u64 + 0x1_0000_0000 * (get_u32(s, at + 4) as u64)
}

} // verus!
