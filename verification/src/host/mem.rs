//! The single boundary between host functions and guest linear memory.
//!
//! Every host function that touches guest memory goes through here. The guest
//! memory is the byte slice that the runtime exports; a pointer or a length that
//! does not fit it is answered with a WASI errno and changes nothing.

use vstd::prelude::*;
use crate::bytes::le32;

verus! {

/// WASI errno: invalid argument.
pub const EINVAL: i32 = 28;

/// WASI errno: bad address.
pub const EFAULT: i32 = 21;

/// What a bounds check answers for the `len` bytes at `ptr` of a memory of `size` bytes.
pub open spec fn bounds(ptr: i32, len: i32, size: int) -> Result<(int, int), i32> {
    if ptr < 0 || len < 0 {
        Err(EINVAL)
    } else if ptr + len > size {
        Err(EFAULT)
    } else {
        Ok((ptr as int, len as int))
    }
}

/// `mem` with the bytes from `at` on replaced by `bytes`.
pub open spec fn patched(mem: Seq<u8>, at: int, bytes: Seq<u8>) -> Seq<u8> {
    Seq::new(
        mem.len(),
        |i: int| if at <= i < at + bytes.len() { bytes[i - at] } else { mem[i] },
    )
}

/// The memory and the errno after a write of `bytes` at `ptr`.
pub open spec fn written(mem: Seq<u8>, ptr: i32, bytes: Seq<u8>) -> Seq<u8> {
    if write_errno(mem, ptr, bytes) == 0 {
        patched(mem, ptr as int, bytes)
    } else {
        mem
    }
}

/// The errno of a write of `bytes` at `ptr`: 0 exactly when all of them fit.
pub open spec fn write_errno(mem: Seq<u8>, ptr: i32, bytes: Seq<u8>) -> i32 {
    if bytes.len() > i32::MAX || ptr < 0 {
        EINVAL
    } else if ptr + bytes.len() > mem.len() {
        EFAULT
    } else {
        0
    }
}

/// Checks the `len` bytes at `ptr` against a memory of `size` bytes.
pub fn check_bounds(ptr: i32, len: i32, size: u64) -> (r: Result<(usize, usize), i32>)
    ensures
        match r {
            Ok(p) => bounds(ptr, len, size as int) == Ok::<(int, int), i32>((p.0 as int, p.1 as int)),
            Err(e) => bounds(ptr, len, size as int) == Err::<(int, int), i32>(e),
        },
{
    if ptr < 0 || len < 0 {
        return Err(EINVAL);
    }
    let end: u64 = ptr as u64 + len as u64;
    if end > size {
        return Err(EFAULT);
    }
    Ok((ptr as usize, len as usize))
}

/// Reads the `len` bytes at `ptr`.
pub fn guest_read(mem: &[u8], ptr: i32, len: i32) -> (r: Result<Vec<u8>, i32>)
    ensures
        match bounds(ptr, len, mem@.len() as int) {
            Ok(p) => r is Ok && r->Ok_0@ == mem@.subrange(p.0, p.0 + p.1),
            Err(e) => r == Err::<Vec<u8>, i32>(e),
        },
{
    match check_bounds(ptr, len, mem.len() as u64) {
        Err(e) => Err(e),
        Ok((off, n)) => {
            let mut buf: Vec<u8> = Vec::new();
            let mut i: usize = 0;
            while i < n
                invariant
                    i <= n,
                    off + n <= mem.len(),
                    buf@ == mem@.subrange(off as int, off + i),
                decreases n - i,
            {
                buf.push(mem[off + i]);
                assert(mem@.subrange(off as int, off + i + 1)
                    =~= mem@.subrange(off as int, off + i).push(mem@[off + i]));
                i += 1;
            }
            Ok(buf)
        },
    }
}

/// Writes `bytes` at `ptr`. On an error the memory is unchanged.
pub fn guest_write(mem: &mut [u8], ptr: i32, bytes: &[u8]) -> (r: Result<(), i32>)
    ensures
        final(mem)@ == written(old(mem)@, ptr, bytes@),
        match r {
            Ok(_) => write_errno(old(mem)@, ptr, bytes@) == 0,
            Err(e) => e != 0 && write_errno(old(mem)@, ptr, bytes@) == e,
        },
{
    if bytes.len() > i32::MAX as usize {
        return Err(EINVAL);
    }
    match check_bounds(ptr, bytes.len() as i32, mem.len() as u64) {
        Err(e) => Err(e),
        Ok((off, n)) => {
            let mut i: usize = 0;
            assert(mem@ =~= patched(old(mem)@, off as int, bytes@.subrange(0, 0)));
            while i < n
                invariant
                    i <= n,
                    n == bytes.len(),
                    off + n <= mem.len(),
                    mem@ == patched(old(mem)@, off as int, bytes@.subrange(0, i as int)),
                decreases n - i,
            {
                mem[off + i] = bytes[i];
                i += 1;
                assert(mem@ =~= patched(old(mem)@, off as int, bytes@.subrange(0, i as int)));
            }
            assert(bytes@.subrange(0, i as int) =~= bytes@);
            Ok(())
        },
    }
}

/// Fills `buf` with the bytes at `ptr`. On an error `buf` is unchanged.
pub fn guest_read_into(mem: &[u8], ptr: i32, buf: &mut [u8]) -> (r: Result<(), i32>)
    ensures
        final(buf)@.len() == old(buf)@.len(),
        if old(buf)@.len() > i32::MAX {
            r == Err::<(), i32>(EINVAL) && final(buf)@ == old(buf)@
        } else {
            match bounds(ptr, old(buf)@.len() as i32, mem@.len() as int) {
                Ok(p) => r is Ok && final(buf)@ == mem@.subrange(p.0, p.0 + p.1),
                Err(e) => r == Err::<(), i32>(e) && final(buf)@ == old(buf)@,
            }
        },
{
    if buf.len() > i32::MAX as usize {
        return Err(EINVAL);
    }
    match check_bounds(ptr, buf.len() as i32, mem.len() as u64) {
        Err(e) => Err(e),
        Ok((off, n)) => {
            let mut i: usize = 0;
            while i < n
                invariant
                    i <= n,
                    n == buf@.len(),
                    off + n <= mem@.len(),
                    forall|k: int| 0 <= k < i ==> #[trigger] buf@[k] == mem@[off + k],
                decreases n - i,
            {
                assert(mem.len() == mem@.len());
                assert(buf.len() == buf@.len());
                buf[i] = mem[off + i];
                i += 1;
            }
            assert(buf@ =~= mem@.subrange(off as int, off + n));
            Ok(())
        },
    }
}

/// Writes the four bytes of `val` at `ptr`. On an error the memory is unchanged.
pub fn guest_write_u32(mem: &mut [u8], ptr: i32, val: u32) -> (r: Result<(), i32>)
    ensures
        final(mem)@ == written(old(mem)@, ptr, le32(val)),
        match r {
            Ok(_) => write_errno(old(mem)@, ptr, le32(val)) == 0,
            Err(e) => e != 0 && write_errno(old(mem)@, ptr, le32(val)) == e,
        },
{
    let mut b: Vec<u8> = Vec::new();
    crate::bytes::push_u32(&mut b, val);
    assert(b@ =~= le32(val));
    guest_write(mem, ptr, b.as_slice())
}

/// What was written can be read back, and every byte outside is as it was.
pub proof fn guest_reads_back(mem: Seq<u8>, ptr: i32, bytes: Seq<u8>)
    requires
        write_errno(mem, ptr, bytes) == 0,
    ensures
        bounds(ptr, bytes.len() as i32, mem.len() as int) == Ok::<(int, int), i32>((ptr as int, bytes.len() as int)),
        written(mem, ptr, bytes).len() == mem.len(),
        written(mem, ptr, bytes).subrange(ptr as int, ptr + bytes.len()) == bytes,
        forall|i: int|
            0 <= i < mem.len() && !(ptr <= i < ptr + bytes.len()) ==> #[trigger] written(mem, ptr, bytes)[i] == mem[i],
{
    assert(written(mem, ptr, bytes).subrange(ptr as int, ptr + bytes.len()) =~= bytes);
}

} // verus!
