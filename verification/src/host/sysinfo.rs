//! What the kernel tells a program of the machine and of the other programs.

use vstd::prelude::*;
use vstd::utf8::encode_utf8;
use crate::bytes::{le16, le32, le64, push_all, push_u16, push_u32, push_u64};
use crate::host::mem::{guest_write, write_errno, written};
use crate::host::reply::{start_of, taken, tell_len, told_len, write_bytes_and_len, write_start};
use crate::text::{decimal, push_decimal};

verus! {

/// A running program.
pub struct Proc {
    pub pid: u32,
    pub start_tick: u64,
    pub cpu_tsc: u64,
    pub mem_bytes: u64,
    pub name: String,
}

/// How many frames of memory there are, and how many are in use.
#[derive(Clone, Copy, PartialEq, Eq, Structural, Debug)]
pub struct FrameCounts {
    pub total: u64,
    pub used: u64,
}

/// The names of the system, each but the last with a zero byte behind it.
pub open spec fn uname_text() -> Seq<u8> {
    encode_utf8("ruos"@).push(0) + encode_utf8("ruos"@).push(0) + encode_utf8("0.1.0"@).push(0) + encode_utf8(
        "wasm-userland"@,
    ).push(0) + encode_utf8("x86_64"@)
}

fn push_field(out: &mut Vec<u8>, s: &str)
    ensures
        final(out)@ == old(out)@ + encode_utf8(s@).push(0),
{
    push_all(out, s.as_bytes());
    out.push(0);
    assert(out@ =~= old(out)@ + encode_utf8(s@).push(0));
}

/// `uname`: name, node, release, version and machine.
pub fn ruos_uname(mem: &mut [u8], buf_ptr: i32, buf_len: i32, used_ptr: i32) -> (r: i32)
    ensures
        (final(mem)@, r) == start_of(
            old(mem)@,
            uname_text(),
            buf_ptr,
            buf_len,
            used_ptr,
            taken(uname_text().len(), buf_len),
        ),
{
    let mut s: Vec<u8> = Vec::new();
    push_field(&mut s, "ruos");
    push_field(&mut s, "ruos");
    push_field(&mut s, "0.1.0");
    push_field(&mut s, "wasm-userland");
    push_all(&mut s, "x86_64".as_bytes());
    assert(s@ =~= uname_text());
    write_bytes_and_len(mem, s.as_slice(), buf_ptr, buf_len, used_ptr)
}

/// The 32 bytes that tell of the memory: the size of the heap, how much of it is used, which
/// is not known and told as zero, and the frames.
pub open spec fn meminfo(heap_total: u64, f: FrameCounts) -> Seq<u8> {
    le64(heap_total) + le64(0) + le64(f.total) + le64(f.used)
}

/// Encodes what is told of the memory.
pub fn encode_meminfo(heap_total: u64, f: FrameCounts) -> (r: Vec<u8>)
    ensures
        r@ == meminfo(heap_total, f),
{
    let mut out: Vec<u8> = Vec::new();
    push_u64(&mut out, heap_total);
    push_u64(&mut out, 0);
    push_u64(&mut out, f.total);
    push_u64(&mut out, f.used);
    assert(out@ =~= meminfo(heap_total, f));
    out
}

/// `meminfo`.
pub fn ruos_meminfo(mem: &mut [u8], buf_ptr: i32, heap_total: u64, f: FrameCounts) -> (r: i32)
    ensures
        r == write_errno(old(mem)@, buf_ptr, meminfo(heap_total, f)),
        final(mem)@ == written(old(mem)@, buf_ptr, meminfo(heap_total, f)),
{
    let b: Vec<u8> = encode_meminfo(heap_total, f);
    match guest_write(mem, buf_ptr, b.as_slice()) {
        Err(e) => e,
        Ok(_) => 0,
    }
}

/// The bytes of words in a row.
pub open spec fn words(s: Seq<u32>, n: int) -> Seq<u8>
    decreases n,
{
    if n <= 0 {
        Seq::empty()
    } else {
        words(s, n - 1) + le32(s[n - 1])
    }
}

/// Bytes without the zeros at their end.
pub open spec fn without_zeros(s: Seq<u8>) -> Seq<u8>
    decreases s.len(),
{
    if s.len() > 0 && s.last() == 0 {
        without_zeros(s.drop_last())
    } else {
        s
    }
}

/// The text that tells of the processor: its maker, its model, and the number of processors,
/// set apart by zero bytes. A processor that tells no model is said to have none.
pub open spec fn cpuinfo(vendor: Seq<u32>, brand: Option<Seq<u32>>, n_cpus: nat) -> Seq<u8> {
    let v = words(vendor, vendor.len() as int).push(0);
    let b = match brand {
        Some(w) => without_zeros(v + words(w, w.len() as int)),
        None => v + encode_utf8("(no brand)"@),
    };
    b.push(0) + decimal(n_cpus)
}

fn push_words(out: &mut Vec<u8>, s: &Vec<u32>)
    ensures
        final(out)@ == old(out)@ + words(s@, s@.len() as int),
{
    let mut i: usize = 0;
    assert(out@ =~= old(out)@ + words(s@, 0));
    while i < s.len()
        invariant
            i <= s@.len(),
            out@ == old(out)@ + words(s@, i as int),
        decreases s@.len() - i,
    {
        push_u32(out, s[i]);
        i += 1;
        assert(out@ =~= old(out)@ + words(s@, i as int));
    }
}

/// Encodes what is told of the processor.
pub fn encode_cpuinfo(vendor: &Vec<u32>, brand: Option<&Vec<u32>>, n_cpus: u64) -> (r: Vec<u8>)
    ensures
        r@ == cpuinfo(
            vendor@,
            match brand {
                Some(b) => Some(b@),
                None => None,
            },
            n_cpus as nat,
        ),
{
    let mut out: Vec<u8> = Vec::new();
    push_words(&mut out, vendor);
    out.push(0);
    assert(out@ =~= words(vendor@, vendor@.len() as int).push(0));
    match brand {
        Some(b) => {
            push_words(&mut out, b);
            let ghost all = out@;
            while out.len() > 0 && out[out.len() - 1] == 0
                invariant
                    without_zeros(out@) == without_zeros(all),
                decreases out@.len(),
            {
                let ghost was = out@;
                out.pop();
                assert(out@ =~= was.drop_last());
            }
        },
        None => {
            push_all(&mut out, "(no brand)".as_bytes());
        },
    }
    out.push(0);
    push_decimal(&mut out, n_cpus);
    out
}

/// `cpuinfo`.
pub fn ruos_cpuinfo(
    mem: &mut [u8],
    buf_ptr: i32,
    buf_len: i32,
    used_ptr: i32,
    vendor: &Vec<u32>,
    brand: Option<&Vec<u32>>,
    n_cpus: u64,
) -> (r: i32)
    ensures
        ({
            let s = cpuinfo(
                vendor@,
                match brand {
                    Some(b) => Some(b@),
                    None => None,
                },
                n_cpus as nat,
            );
            (final(mem)@, r) == start_of(old(mem)@, s, buf_ptr, buf_len, used_ptr, taken(s.len(), buf_len))
        }),
{
    let s: Vec<u8> = encode_cpuinfo(vendor, brand, n_cpus);
    write_bytes_and_len(mem, s.as_slice(), buf_ptr, buf_len, used_ptr)
}

/// The row of a program: its number, when it was started, and its name behind the name's
/// length.
pub open spec fn proc_row(p: Proc) -> Seq<u8> {
    le32(p.pid) + le64(p.start_tick) + le16((encode_utf8(p.name@).len() % 0x1_0000) as u16) + seq![0u8, 0u8]
        + encode_utf8(p.name@)
}

/// The rows of the first `n` programs, behind the number of programs.
pub open spec fn proc_rows(s: Seq<Proc>, n: int) -> Seq<u8>
    decreases n,
{
    if n <= 0 {
        le32(told_len(s.len()))
    } else {
        proc_rows(s, n - 1) + proc_row(s[n - 1])
    }
}

/// Appends a name behind its length and two zero bytes.
pub fn push_name(out: &mut Vec<u8>, name: &String)
    ensures
        final(out)@ == old(out)@ + le16((encode_utf8(name@).len() % 0x1_0000) as u16) + seq![0u8, 0u8] + encode_utf8(
            name@,
        ),
{
    let b = name.as_str().as_bytes();
    push_u16(out, (b.len() % 0x1_0000) as u16);
    out.push(0);
    out.push(0);
    push_all(out, b);
    assert(out@ =~= old(out)@ + le16((encode_utf8(name@).len() % 0x1_0000) as u16) + seq![0u8, 0u8] + encode_utf8(
        name@,
    ));
}

/// Encodes the rows of the programs.
pub fn encode_procs(s: &Vec<Proc>) -> (r: Vec<u8>)
    ensures
        r@ == proc_rows(s@, s@.len() as int),
{
    let mut out: Vec<u8> = Vec::new();
    push_u32(&mut out, tell_len(s.len()));
    assert(out@ =~= proc_rows(s@, 0));
    let mut i: usize = 0;
    while i < s.len()
        invariant
            i <= s@.len(),
            out@ == proc_rows(s@, i as int),
        decreases s@.len() - i,
    {
        let ghost was = out@;
        push_u32(&mut out, s[i].pid);
        push_u64(&mut out, s[i].start_tick);
        push_name(&mut out, &s[i].name);
        assert(out@ =~= was + proc_row(s@[i as int]));
        i += 1;
    }
    out
}

/// `proc_list`: as many rows as the buffer takes, and the length of all rows.
pub fn ruos_proc_list(mem: &mut [u8], buf_ptr: i32, buf_len: i32, used_ptr: i32, procs: &Vec<Proc>) -> (r: i32)
    ensures
        ({
            let s = proc_rows(procs@, procs@.len() as int);
            (final(mem)@, r) == start_of(old(mem)@, s, buf_ptr, buf_len, used_ptr, s.len())
        }),
{
    let s: Vec<u8> = encode_procs(procs);
    write_start(mem, s.as_slice(), buf_ptr, buf_len, used_ptr, s.len())
}

/// `dmesg`: `log` is what the kernel's log gives for a buffer of this size.
pub fn ruos_dmesg(mem: &mut [u8], buf_ptr: i32, buf_len: i32, used_ptr: i32, log: &[u8]) -> (r: i32)
    requires
        log@.len() <= if buf_len > 0 { buf_len as int } else { 0 },
    ensures
        (final(mem)@, r) == start_of(old(mem)@, log@, buf_ptr, buf_len, used_ptr, log@.len()),
{
    write_start(mem, log, buf_ptr, buf_len, used_ptr, log.len())
}

/// `proc_kill`: whether there was such a program to end.
pub fn ruos_proc_kill(known: bool) -> (r: i32)
    ensures
        r == if known { 0i32 } else { 3 },
{
    if known { 0 } else { 3 }
}

} // verus!
