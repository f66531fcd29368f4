//! The single way to the linear memory of a compiled module.

use vstd::prelude::*;
use crate::bytes::le32;
use crate::host::mem::patched;

verus! {

/// Whether `len` bytes at `ptr` lie in a memory of `size` bytes.
pub open spec fn fits(ptr: u32, len: int, size: int) -> bool {
    ptr + len <= size
}

/// The memory after `buf` was written at `ptr`: unchanged where it does not fit.
pub open spec fn stored(mem: Seq<u8>, ptr: u32, buf: Seq<u8>) -> Seq<u8> {
    if fits(ptr, buf.len() as int, mem.len() as int) {
        patched(mem, ptr as int, buf)
    } else {
        mem
    }
}

/// Copies `buf` into the memory at `ptr`; false, and no change, where it does not fit.
pub fn write(mem: &mut [u8], ptr: u32, buf: &[u8]) -> (r: bool)
    ensures
        r == fits(ptr, buf@.len() as int, old(mem)@.len() as int),
        final(mem)@ == stored(old(mem)@, ptr, buf@),
{
    let start: usize = ptr as usize;
    if buf.len() > mem.len() || start > mem.len() - buf.len() {
        return false;
    }
    let mut i: usize = 0;
    assert(mem@ =~= patched(old(mem)@, ptr as int, buf@.subrange(0, 0)));
    while i < buf.len()
        invariant
            i <= buf@.len(),
            start == ptr,
            mem@.len() == old(mem)@.len(),
            start + buf@.len() <= mem@.len(),
            mem@ == patched(old(mem)@, ptr as int, buf@.subrange(0, i as int)),
        decreases buf@.len() - i,
    {
        assert(mem.len() == mem@.len());
        mem[start + i] = buf[i];
        i += 1;
        assert(mem@ =~= patched(old(mem)@, ptr as int, buf@.subrange(0, i as int)));
    }
    assert(buf@.subrange(0, i as int) =~= buf@);
    true
}

/// Reads `len` bytes at `ptr`; nothing where they do not lie in the memory.
pub fn read(mem: &[u8], ptr: u32, len: u32) -> (r: Option<Vec<u8>>)
    ensures
        r is Some <==> fits(ptr, len as int, mem@.len() as int),
        r is Some ==> r->0@ == mem@.subrange(ptr as int, ptr + len),
{
    let start: usize = ptr as usize;
    let n: usize = len as usize;
    if n > mem.len() || start > mem.len() - n {
        return None;
    }
    let mut out: Vec<u8> = Vec::with_capacity(n);
    let mut i: usize = 0;
    while i < n
        invariant
            i <= n,
            start + n <= mem@.len(),
            out@ == mem@.subrange(start as int, start + i),
        decreases n - i,
    {
        assert(mem.len() == mem@.len());
        out.push(mem[start + i]);
        assert(mem@.subrange(start as int, start + i + 1)
            =~= mem@.subrange(start as int, start + i).push(mem@[start + i]));
        i += 1;
    }
    Some(out)
}

/// Writes the four bytes of `val` at `ptr`.
pub fn write_u32(mem: &mut [u8], ptr: u32, val: u32) -> (r: bool)
    ensures
        r == fits(ptr, 4, old(mem)@.len() as int),
        final(mem)@ == stored(old(mem)@, ptr, le32(val)),
{
    let mut b: Vec<u8> = Vec::new();
    crate::bytes::push_u32(&mut b, val);
    assert(b@ =~= le32(val));
    write(mem, ptr, b.as_slice())
}

/// What was written can be read back, and every byte outside is as it was.
pub proof fn read_gives_back_write(mem: Seq<u8>, ptr: u32, buf: Seq<u8>)
    requires
        fits(ptr, buf.len() as int, mem.len() as int),
    ensures
        stored(mem, ptr, buf).len() == mem.len(),
        stored(mem, ptr, buf).subrange(ptr as int, ptr + buf.len()) == buf,
        forall|i: int|
            0 <= i < mem.len() && !(ptr <= i < ptr + buf.len()) ==> #[trigger] stored(mem, ptr, buf)[i] == mem[i],
{
    assert(stored(mem, ptr, buf).subrange(ptr as int, ptr + buf.len()) =~= buf);
}

/// A write that ends within the memory lands where it was aimed, byte for byte; one that would
/// reach beyond its end changes nothing.
pub proof fn write_lands_whole_or_not_at_all(mem: Seq<u8>, ptr: u32, buf: Seq<u8>, i: int)
    requires
        0 <= i < mem.len(),
    ensures
        stored(mem, ptr, buf).len() == mem.len(),
        ptr + buf.len() <= mem.len() && ptr <= i < ptr + buf.len() ==> stored(mem, ptr, buf)[i] == buf[i - ptr],
        ptr + buf.len() > mem.len() || i < ptr || ptr + buf.len() <= i ==> stored(mem, ptr, buf)[i] == mem[i],
{
}

} // verus!
