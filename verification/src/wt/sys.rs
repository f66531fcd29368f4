//! What a program with a window is told of the processors, the memory and the other programs.

use vstd::prelude::*;
use vstd::utf8::encode_utf8;
use crate::bytes::{le16, le32, le64, push_u32, push_u64};
use crate::host::reply::{first_bytes, taken, tell_len, told_len};
use crate::host::sysinfo::{encode_meminfo, meminfo, push_name, FrameCounts, Proc};
use crate::wt::mem::{fits, stored, write_u32};

verus! {

/// The buffer is too small.
pub const ERANGE: i32 = 8;

/// The buffer does not lie in the program's memory.
pub const EFAULT: i32 = 21;

/// What is told of the first `n` processors: their number, the ticks of a millisecond, and
/// for each how long it was busy and idle.
pub open spec fn cpustat_blob(per_ms: u64, cores: Seq<(u64, u64)>, n: int) -> Seq<u8>
    decreases n,
{
    if n <= 0 {
        le32(told_len(cores.len())) + le64(per_ms)
    } else {
        cpustat_blob(per_ms, cores, n - 1) + le64(cores[n - 1].0) + le64(cores[n - 1].1)
    }
}

/// Encodes what is told of the processors.
pub fn encode_cpustat(per_ms: u64, cores: &Vec<(u64, u64)>) -> (b: Vec<u8>)
    ensures
        b@ == cpustat_blob(per_ms, cores@, cores@.len() as int),
{
    let mut b: Vec<u8> = Vec::new();
    push_u32(&mut b, tell_len(cores.len()));
    push_u64(&mut b, per_ms);
    assert(b@ =~= cpustat_blob(per_ms, cores@, 0));
    let mut i: usize = 0;
    while i < cores.len()
        invariant
            i <= cores@.len(),
            b@ == cpustat_blob(per_ms, cores@, i as int),
        decreases cores@.len() - i,
    {
        push_u64(&mut b, cores[i].0);
        push_u64(&mut b, cores[i].1);
        i += 1;
    }
    b
}

/// `sys.cpustat`.
pub fn cpustat(mem: &mut [u8], buf_ptr: u32, buf_len: i32, per_ms: u64, cores: &Vec<(u64, u64)>) -> (r: i32)
    ensures
        ({
            let b = cpustat_blob(per_ms, cores@, cores@.len() as int);
            if (if buf_len > 0 { buf_len as int } else { 0 }) < b.len() {
                r == ERANGE && final(mem)@ == old(mem)@
            } else {
                &&& r == if fits(buf_ptr, b.len() as int, old(mem)@.len() as int) { 0 } else { EFAULT }
                &&& final(mem)@ == stored(old(mem)@, buf_ptr, b)
            }
        }),
{
    let b: Vec<u8> = encode_cpustat(per_ms, cores);
    if buf_len <= 0 || (buf_len as usize) < b.len() {
        proof {
            lemma_cpustat_len(per_ms, cores@, cores@.len() as int);
        }
        return ERANGE;
    }
    if crate::wt::mem::write(mem, buf_ptr, b.as_slice()) { 0 } else { EFAULT }
}

proof fn lemma_cpustat_len(per_ms: u64, cores: Seq<(u64, u64)>, n: int)
    requires
        0 <= n,
    ensures
        cpustat_blob(per_ms, cores, n).len() == 12 + 16 * n,
    decreases n,
{
    if n > 0 {
        lemma_cpustat_len(per_ms, cores, n - 1);
    }
}

/// The row of a program: its number, when it was started, the time and the memory that it
/// took, and its name behind the name's length.
pub open spec fn stat_row(p: Proc) -> Seq<u8> {
    le32(p.pid) + le64(p.start_tick) + le64(p.cpu_tsc) + le64(p.mem_bytes) + le16(
        (encode_utf8(p.name@).len() % 0x1_0000) as u16,
    ) + seq![0u8, 0u8] + encode_utf8(p.name@)
}

/// The rows of the first `n` programs, behind the number of programs.
pub open spec fn stat_rows(s: Seq<Proc>, n: int) -> Seq<u8>
    decreases n,
{
    if n <= 0 {
        le32(told_len(s.len()))
    } else {
        stat_rows(s, n - 1) + stat_row(s[n - 1])
    }
}

/// Encodes the rows of the programs.
pub fn encode_stats(procs: &Vec<Proc>) -> (b: Vec<u8>)
    ensures
        b@ == stat_rows(procs@, procs@.len() as int),
{
    let mut b: Vec<u8> = Vec::new();
    push_u32(&mut b, tell_len(procs.len()));
    assert(b@ =~= stat_rows(procs@, 0));
    let mut i: usize = 0;
    while i < procs.len()
        invariant
            i <= procs@.len(),
            b@ == stat_rows(procs@, i as int),
        decreases procs@.len() - i,
    {
        let ghost was = b@;
        push_u32(&mut b, procs[i].pid);
        push_u64(&mut b, procs[i].start_tick);
        push_u64(&mut b, procs[i].cpu_tsc);
        push_u64(&mut b, procs[i].mem_bytes);
        push_name(&mut b, &procs[i].name);
        assert(b@ =~= was + stat_row(procs@[i as int]));
        i += 1;
    }
    b
}

/// `sys.proc_stat`: as many rows as the buffer takes, and the length of all rows.
pub fn proc_stat(mem: &mut [u8], buf_ptr: u32, buf_len: i32, used_ptr: u32, procs: &Vec<Proc>) -> (r: i32)
    ensures
        ({
            let b = stat_rows(procs@, procs@.len() as int);
            let part = b.take(taken(b.len(), buf_len) as int);
            let m = stored(old(mem)@, buf_ptr, part);
            if !fits(buf_ptr, part.len() as int, old(mem)@.len() as int) {
                r == EFAULT && final(mem)@ == old(mem)@
            } else {
                &&& r == if fits(used_ptr, 4, old(mem)@.len() as int) { 0 } else { EFAULT }
                &&& final(mem)@ == stored(m, used_ptr, le32(told_len(b.len())))
            }
        }),
{
    let b: Vec<u8> = encode_stats(procs);
    let n: usize = if buf_len <= 0 {
        0
    } else if b.len() < buf_len as usize {
        b.len()
    } else {
        buf_len as usize
    };
    let part: Vec<u8> = first_bytes(b.as_slice(), n);
    if !crate::wt::mem::write(mem, buf_ptr, part.as_slice()) {
        return EFAULT;
    }
    if write_u32(mem, used_ptr, tell_len(b.len())) { 0 } else { EFAULT }
}

/// `sys.meminfo`.
pub fn sys_meminfo(mem: &mut [u8], buf_ptr: u32, heap_total: u64, f: FrameCounts) -> (r: i32)
    ensures
        r == if fits(buf_ptr, 32, old(mem)@.len() as int) { 0 } else { EFAULT },
        final(mem)@ == stored(old(mem)@, buf_ptr, meminfo(heap_total, f)),
{
    let b: Vec<u8> = encode_meminfo(heap_total, f);
    if crate::wt::mem::write(mem, buf_ptr, b.as_slice()) { 0 } else { EFAULT }
}

} // verus!
