//! The records by which a desktop's shell is told of the open windows and of the programs
//! that it can launch.

use vstd::prelude::*;
use vstd::utf8::encode_utf8;
use crate::bytes::{le32, push_u32};
use crate::wt::catalog::{manifests, Manifest, ManifestView};
use crate::wt::frame::TaskEntry;
use crate::wt::mem::stored;

verus! {

/// A field of `n` bytes: the start of `s`, then zeros.
pub open spec fn padded(s: Seq<u8>, n: nat) -> Seq<u8> {
    Seq::new(n, |i: int| if i < s.len() { s[i] } else { 0 })
}

/// The 32 bytes of a window: its id, its flags, and its title in 24 bytes.
pub open spec fn window_record(e: TaskEntry) -> Seq<u8> {
    le32(e.id) + le32(e.flags) + padded(encode_utf8(e.title@), 24)
}

/// The 64 bytes of a program: its id in 24 bytes, its label in 40.
pub open spec fn app_record(m: ManifestView) -> Seq<u8> {
    padded(encode_utf8(m.id), 24) + padded(encode_utf8(m.title), 40)
}

/// The records of the first `n` windows.
pub open spec fn window_records(s: Seq<TaskEntry>, n: int) -> Seq<u8>
    decreases n,
{
    if n <= 0 {
        Seq::empty()
    } else {
        window_records(s, n - 1) + window_record(s[n - 1])
    }
}

/// The records of the first `n` programs.
pub open spec fn app_records(s: Seq<ManifestView>, n: int) -> Seq<u8>
    decreases n,
{
    if n <= 0 {
        Seq::empty()
    } else {
        app_records(s, n - 1) + app_record(s[n - 1])
    }
}

/// How many records fit: no more than there are, and than were asked for.
pub open spec fn told(len: nat, max: i32) -> int {
    if max <= 0 {
        0
    } else if len < max {
        len as int
    } else {
        max as int
    }
}

fn push_padded(out: &mut Vec<u8>, s: &[u8], n: usize)
    ensures
        final(out)@ == old(out)@ + padded(s@, n as nat),
{
    let mut i: usize = 0;
    assert(out@ =~= old(out)@ + padded(s@, n as nat).take(0));
    while i < n
        invariant
            i <= n,
            out@ == old(out)@ + padded(s@, n as nat).take(i as int),
        decreases n - i,
    {
        assert(s.len() == s@.len());
        out.push(if i < s.len() { s[i] } else { 0 });
        assert(padded(s@, n as nat).take(i + 1) =~= padded(s@, n as nat).take(i as int).push(
            padded(s@, n as nat)[i as int],
        ));
        assert(out@ =~= old(out)@ + padded(s@, n as nat).take(i + 1));
        i += 1;
    }
    assert(padded(s@, n as nat).take(n as int) =~= padded(s@, n as nat));
}

fn count(len: usize, max: i32) -> (r: usize)
    ensures
        r == told(len as nat, max),
{
    if max <= 0 {
        0
    } else if len < max as usize {
        len
    } else {
        max as usize
    }
}

/// `wm.window_list`: writes the records of the first `max` windows, and tells how many.
/// A place outside the program's memory gets nothing; the number is the same.
pub fn window_list(snapshot: &Vec<TaskEntry>, mem: &mut [u8], ptr: u32, max: i32) -> (r: i32)
    ensures
        r == told(snapshot@.len(), max),
        final(mem)@ == stored(old(mem)@, ptr, window_records(snapshot@, r as int)),
{
    let n: usize = count(snapshot.len(), max);
    let mut buf: Vec<u8> = Vec::new();
    let mut i: usize = 0;
    while i < n
        invariant
            i <= n <= snapshot@.len(),
            buf@ == window_records(snapshot@, i as int),
        decreases n - i,
    {
        let e = &snapshot[i];
        push_u32(&mut buf, e.id);
        push_u32(&mut buf, e.flags);
        push_padded(&mut buf, e.title.as_str().as_bytes(), 24);
        assert(buf@ =~= window_records(snapshot@, i as int) + window_record(*e));
        i += 1;
    }
    crate::wt::mem::write(mem, ptr, buf.as_slice());
    n as i32
}

/// `wm.app_list`: writes the records of the first `max` programs, and tells how many. A
/// place outside the program's memory gets nothing; the number is the same.
pub fn app_list(catalog: &Vec<Manifest>, mem: &mut [u8], ptr: u32, max: i32) -> (r: i32)
    ensures
        r == told(catalog@.len(), max),
        final(mem)@ == stored(old(mem)@, ptr, app_records(manifests(catalog@), r as int)),
{
    let n: usize = count(catalog.len(), max);
    let mut buf: Vec<u8> = Vec::new();
    let mut i: usize = 0;
    while i < n
        invariant
            i <= n <= catalog@.len(),
            buf@ == app_records(manifests(catalog@), i as int),
        decreases n - i,
    {
        let m = &catalog[i];
        push_padded(&mut buf, m.id.as_str().as_bytes(), 24);
        push_padded(&mut buf, m.title.as_str().as_bytes(), 40);
        assert(buf@ =~= app_records(manifests(catalog@), i as int) + app_record(manifests(catalog@)[i as int]));
        i += 1;
    }
    crate::wt::mem::write(mem, ptr, buf.as_slice());
    n as i32
}

} // verus!
