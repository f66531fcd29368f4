//! Random bytes for an interpreted program.

use vstd::prelude::*;
use crate::bytes::{bits32, signed32, unsigned32, with_sign};
use crate::host::mem::{guest_write, write_errno, written, EINVAL};
use crate::wt::args::{advance, behind};

verus! {

/// The most bytes that are handed over at once.
pub const CHUNK: usize = 256;

/// The length of the chunk at `from` of `len` bytes.
pub open spec fn chunk_len(len: int, from: int) -> int {
    if len - from < CHUNK { len - from } else { CHUNK as int }
}

/// The memory and the errno after the bytes from `from` on were handed over in chunks. A
/// chunk that does not fit ends it.
pub open spec fn filled(mem: Seq<u8>, ptr: i32, fill: Seq<u8>, from: int) -> (Seq<u8>, i32)
    decreases fill.len() - from,
{
    if from >= fill.len() {
        (mem, 0)
    } else {
        let n = chunk_len(fill.len() as int, from);
        let p = signed32(behind(unsigned32(ptr) as u32, from));
        let c = fill.subrange(from, from + n);
        if write_errno(mem, p, c) != 0 {
            (mem, write_errno(mem, p, c))
        } else {
            filled(written(mem, p, c), ptr, fill, from + n)
        }
    }
}

/// `random_get`: `fill` is as many random bytes as were asked for.
pub fn random_get(mem: &mut [u8], buf_ptr: i32, buf_len: i32, fill: &[u8]) -> (r: i32)
    requires
        buf_len >= 0 ==> fill@.len() == buf_len,
    ensures
        if buf_len < 0 {
            r == EINVAL && final(mem)@ == old(mem)@
        } else {
            (final(mem)@, r) == filled(old(mem)@, buf_ptr, fill@, 0)
        },
{
    if buf_len < 0 {
        return EINVAL;
    }
    let ghost all = filled(mem@, buf_ptr, fill@, 0);
    let mut from: usize = 0;
    while from < fill.len()
        invariant
            buf_len >= 0,
            from <= fill@.len(),
            fill@.len() == buf_len,
            all == filled(old(mem)@, buf_ptr, fill@, 0),
            filled(mem@, buf_ptr, fill@, from as int) == all,
        decreases fill@.len() - from,
    {
        let n: usize = if fill.len() - from < CHUNK { fill.len() - from } else { CHUNK };
        let mut chunk: Vec<u8> = Vec::new();
        let mut i: usize = 0;
        while i < n
            invariant
                i <= n,
                from + n <= fill@.len(),
                chunk@ == fill@.subrange(from as int, from + i),
            decreases n - i,
        {
            assert(fill.len() == fill@.len());
            chunk.push(fill[from + i]);
            assert(fill@.subrange(from as int, from + i + 1) =~= fill@.subrange(from as int, from + i).push(
                fill@[from + i],
            ));
            i += 1;
        }
        let p: i32 = with_sign(advance(bits32(buf_ptr), from));
        if let Err(e) = guest_write(mem, p, chunk.as_slice()) {
            return e;
        }
        from += n;
    }
    0
}

} // verus!
