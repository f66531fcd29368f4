//! The terminal of a program with a window: a shell on a pair of kernel terminals.

use vstd::prelude::*;
use crate::shell::{spawn_shell_on_pty, ShellOnPty};
use crate::wt::mem::{fits, read, stored};

verus! {

/// The first free pair from `i` on; the number of pairs where none is free.
pub open spec fn free_pair(claimed: Seq<bool>, i: int) -> int
    decreases claimed.len() - i,
{
    if i >= claimed.len() {
        claimed.len() as int
    } else if !claimed[i] {
        i
    } else {
        free_pair(claimed, i + 1)
    }
}

/// `term.open`: claims the first free pair, and asks for a shell on it. Pair 0 is the
/// console's. -1 where none is free.
pub fn open(claimed: &mut Vec<bool>) -> (r: (i32, Option<ShellOnPty>))
    requires
        old(claimed)@.len() <= i32::MAX,
    ensures
        ({
            let i = free_pair(old(claimed)@, 1);
            if i < old(claimed)@.len() {
                &&& r.0 == i
                &&& r.1 matches Some(s) && s.idx == i && s.path@ == "/bin/shell.wasm"@
                &&& final(claimed)@ == old(claimed)@.update(i, true)
            } else {
                r.0 == -1 && r.1 is None && final(claimed)@ == old(claimed)@
            }
        }),
{
    let mut i: usize = 1;
    while i < claimed.len() && claimed[i]
        invariant
            1 <= i,
            claimed@ == old(claimed)@,
            free_pair(claimed@, i as int) == free_pair(claimed@, 1),
        decreases claimed@.len() - i,
    {
        i += 1;
    }
    if i < claimed.len() {
        claimed[i] = true;
        (i as i32, Some(spawn_shell_on_pty(i)))
    } else {
        (-1, None)
    }
}

/// The pair of a handle.
pub open spec fn pair_of(h: i32, pairs: nat) -> Option<int> {
    if 0 <= h < pairs { Some(h as int) } else { None }
}

/// The pair of a handle.
pub fn pair(h: i32, pairs: usize) -> (r: Option<usize>)
    ensures
        match r {
            Some(i) => pair_of(h, pairs as nat) == Some(i as int),
            None => pair_of(h, pairs as nat) is None,
        },
{
    if h < 0 || h as usize >= pairs {
        return None;
    }
    Some(h as usize)
}

/// How much output `term.read` takes: nothing where the handle is none, or the shell is gone
/// and all its output was read.
pub fn read_want(h: i32, cap: i32, pairs: usize, claimed: bool, waiting: usize) -> (r: Option<usize>)
    ensures
        r == if pair_of(h, pairs as nat) is None || (!claimed && waiting == 0) {
            None
        } else if cap < 0 {
            Some(0usize)
        } else {
            Some(cap as usize)
        },
{
    if pair(h, pairs).is_none() || (!claimed && waiting == 0) {
        return None;
    }
    Some(
        if cap < 0 {
            0
        } else {
            cap as usize
        },
    )
}

/// `term.read`: the number of bytes, 0 where there are none, -1 at the end. `data` is what was
/// taken. Bytes that cannot be written are lost.
pub fn read_result(mem: &mut [u8], ptr: u32, data: Option<&Vec<u8>>) -> (r: i32)
    requires
        data matches Some(d) ==> d@.len() <= i32::MAX,
    ensures
        match data {
            None => r == -1 && final(mem)@ == old(mem)@,
            Some(d) => r == d@.len() && final(mem)@ == if d@.len() == 0 {
                old(mem)@
            } else {
                stored(old(mem)@, ptr, d@)
            },
        },
{
    match data {
        None => -1,
        Some(d) => {
            if d.len() == 0 {
                return 0;
            }
            crate::wt::mem::write(mem, ptr, d.as_slice());
            d.len() as i32
        },
    }
}

/// `term.write`: what the shell gets to read, on which pair.
pub fn write_bytes(mem: &[u8], h: i32, ptr: u32, len: u32, pairs: usize, claimed: bool) -> (r: Option<(usize, Vec<u8>)>)
    ensures
        if pair_of(h, pairs as nat) is None || !claimed || !fits(ptr, len as int, mem@.len() as int) {
            r is None
        } else {
            r matches Some(w) && w.0 == h && w.1@ == mem@.subrange(ptr as int, ptr + len)
        },
{
    match pair(h, pairs) {
        None => None,
        Some(i) => {
            if !claimed {
                return None;
            }
            match read(mem, ptr, len) {
                None => None,
                Some(b) => Some((i, b)),
            }
        },
    }
}

/// One side of a size as the terminal keeps it.
pub open spec fn side(v: i32) -> u16 {
    if v < 0 { 0 } else { (v % 0x1_0000) as u16 }
}

/// `term.resize`: the pair and its new size.
pub fn resize(h: i32, cols: i32, rows: i32, pairs: usize) -> (r: Option<(usize, u16, u16)>)
    ensures
        match r {
            Some(s) => pair_of(h, pairs as nat) == Some(s.0 as int) && s.1 == side(cols) && s.2 == side(rows),
            None => pair_of(h, pairs as nat) is None,
        },
{
    match pair(h, pairs) {
        None => None,
        Some(i) => {
            let c: u16 = if cols < 0 { 0 } else { (cols % 0x1_0000) as u16 };
            let w: u16 = if rows < 0 { 0 } else { (rows % 0x1_0000) as u16 };
            Some((i, c, w))
        },
    }
}

/// `term.close`: the pair that is given back.
pub fn close(claimed: &mut Vec<bool>, h: i32) -> (r: Option<usize>)
    ensures
        match pair_of(h, old(claimed)@.len()) {
            Some(i) => r == Some(i as usize) && final(claimed)@ == old(claimed)@.update(i, false),
            None => r is None && final(claimed)@ == old(claimed)@,
        },
{
    match pair(h, claimed.len()) {
        None => None,
        Some(i) => {
            claimed[i] = false;
            Some(i)
        },
    }
}

} // verus!
