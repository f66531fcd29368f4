//! How a call hands a text or a record to a program that brings a buffer for it.

use vstd::prelude::*;
use vstd::utf8::{decode_utf8, valid_utf8};
use crate::bytes::le32;
use crate::host::mem::{bounds, guest_read, guest_write, guest_write_u32, write_errno, written};
use crate::suspend::TRAP;
use crate::text::utf8;

verus! {

/// The buffer is too small.
pub const ENOBUFS: i32 = 8;

/// A length as a program is told it.
pub open spec fn told_len(n: nat) -> u32 {
    (n % 0x1_0000_0000) as u32
}

/// The memory and the errno of a call that hands over a whole text: first the length that is
/// needed, then, where the buffer is large enough, the text.
pub open spec fn whole(mem: Seq<u8>, bytes: Seq<u8>, buf_ptr: i32, buf_len: i32, used_ptr: i32) -> (Seq<u8>, i32) {
    let used = le32(told_len(bytes.len()));
    let m = written(mem, used_ptr, used);
    if write_errno(mem, used_ptr, used) != 0 {
        (mem, write_errno(mem, used_ptr, used))
    } else if 0 <= buf_len < bytes.len() {
        (m, ENOBUFS)
    } else {
        (written(m, buf_ptr, bytes), write_errno(m, buf_ptr, bytes))
    }
}

/// How many bytes of `n` a buffer takes.
pub open spec fn taken(n: nat, buf_len: i32) -> nat {
    if buf_len <= 0 {
        0
    } else if n < buf_len {
        n
    } else {
        buf_len as nat
    }
}

/// The memory and the errno of a call that hands over as much of a record as the buffer
/// takes, and then a length.
pub open spec fn start_of(
    mem: Seq<u8>,
    bytes: Seq<u8>,
    buf_ptr: i32,
    buf_len: i32,
    used_ptr: i32,
    told: nat,
) -> (Seq<u8>, i32) {
    let part = bytes.take(taken(bytes.len(), buf_len) as int);
    let used = le32(told_len(told));
    let m = written(mem, buf_ptr, part);
    if write_errno(mem, buf_ptr, part) != 0 {
        (mem, write_errno(mem, buf_ptr, part))
    } else {
        (written(m, used_ptr, used), write_errno(m, used_ptr, used))
    }
}

/// A length as a program is told it.
pub fn tell_len(n: usize) -> (r: u32)
    ensures
        r == told_len(n as nat),
{
    (n as u64 % 0x1_0000_0000) as u32
}

/// Hands over a whole text.
pub fn write_text(mem: &mut [u8], bytes: &[u8], buf_ptr: i32, buf_len: i32, used_ptr: i32) -> (r: i32)
    ensures
        (final(mem)@, r) == whole(old(mem)@, bytes@, buf_ptr, buf_len, used_ptr),
{
    if let Err(e) = guest_write_u32(mem, used_ptr, tell_len(bytes.len())) {
        return e;
    }
    if 0 <= buf_len && (buf_len as usize) < bytes.len() {
        return ENOBUFS;
    }
    match guest_write(mem, buf_ptr, bytes) {
        Err(e) => e,
        Ok(_) => 0,
    }
}

/// Hands over as much of a record as the buffer takes, and then the length `told`.
pub fn write_start(mem: &mut [u8], bytes: &[u8], buf_ptr: i32, buf_len: i32, used_ptr: i32, told: usize) -> (r: i32)
    ensures
        (final(mem)@, r) == start_of(old(mem)@, bytes@, buf_ptr, buf_len, used_ptr, told as nat),
{
    let n: usize = if buf_len <= 0 {
        0
    } else if bytes.len() < buf_len as usize {
        bytes.len()
    } else {
        buf_len as usize
    };
    let part: Vec<u8> = first_bytes(bytes, n);
    if let Err(e) = guest_write(mem, buf_ptr, part.as_slice()) {
        return e;
    }
    match guest_write_u32(mem, used_ptr, tell_len(told)) {
        Err(e) => e,
        Ok(_) => 0,
    }
}

/// The first `n` bytes.
pub fn first_bytes(bytes: &[u8], n: usize) -> (r: Vec<u8>)
    requires
        n <= bytes@.len(),
    ensures
        r@ == bytes@.take(n as int),
{
    let mut out: Vec<u8> = Vec::new();
    let mut i: usize = 0;
    while i < n
        invariant
            i <= n <= bytes@.len(),
            out@ == bytes@.take(i as int),
        decreases n - i,
    {
        assert(bytes.len() == bytes@.len());
        out.push(bytes[i]);
        assert(bytes@.take(i + 1) =~= bytes@.take(i as int).push(bytes@[i as int]));
        i += 1;
    }
    out
}

/// Hands over as much of a record as the buffer takes, and tells how much that was.
pub fn write_bytes_and_len(mem: &mut [u8], bytes: &[u8], buf_ptr: i32, buf_len: i32, used_ptr: i32) -> (r: i32)
    ensures
        (final(mem)@, r) == start_of(
            old(mem)@,
            bytes@,
            buf_ptr,
            buf_len,
            used_ptr,
            taken(bytes@.len(), buf_len),
        ),
{
    let n: usize = if buf_len <= 0 {
        0
    } else if bytes.len() < buf_len as usize {
        bytes.len()
    } else {
        buf_len as usize
    };
    write_start(mem, bytes, buf_ptr, buf_len, used_ptr, n)
}

/// The text that a program names; nothing where it does not lie in the program's memory, or
/// is no text.
pub open spec fn text_at(mem: Seq<u8>, ptr: i32, len: i32) -> Option<Seq<char>> {
    match bounds(ptr, len, mem.len() as int) {
        Ok(p) if valid_utf8(mem.subrange(p.0, p.0 + p.1)) => Some(decode_utf8(mem.subrange(p.0, p.0 + p.1))),
        _ => None,
    }
}

/// Reads a text; the program ends where there is none.
pub fn read_name(mem: &[u8], ptr: i32, len: i32) -> (r: Result<String, i32>)
    ensures
        match text_at(mem@, ptr, len) {
            Some(s) => r is Ok && r->Ok_0@ == s,
            None => r == Err::<String, i32>(TRAP),
        },
{
    match guest_read(mem, ptr, len) {
        Err(_) => Err(TRAP),
        Ok(b) => match utf8(b) {
            None => Err(TRAP),
            Some(s) => Ok(s),
        },
    }
}

} // verus!
