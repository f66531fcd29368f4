//! A measurement of how much faster many processors are than one.

use vstd::prelude::*;
use vstd::utf8::encode_utf8;
use crate::bytes::push_all;
use crate::host::reply::{start_of, taken, write_bytes_and_len};
use crate::text::{decimal, push_decimal};

verus! {

/// Rounds of one job.
pub const ITERS: u64 = 4_000_000;

/// A hash after the first `k` bytes of the input were mixed in.
pub open spec fn mixed_in(h: u64, input: Seq<u8>, k: int) -> u64
    decreases k,
{
    if k <= 0 {
        h
    } else {
        (mixed_in(h, input, k - 1) ^ (input[k - 1] as u64)).wrapping_mul(0x100000001b3)
    }
}

/// A hash turned by 13 bits.
pub open spec fn turned(h: u64) -> u64 {
    (h << 13) | (h >> 51)
}

/// The hash after `n` rounds.
pub open spec fn hashed(input: Seq<u8>, n: int) -> u64
    decreases n,
{
    if n <= 0 {
        0xcbf29ce484222325
    } else {
        turned(mixed_in(hashed(input, n - 1), input, input.len() as int)).wrapping_add(0x9e3779b97f4a7c15)
    }
}

/// Hashes the input so many times over.
pub fn hash_rounds(input: &[u8], n: u64) -> (r: u64)
    ensures
        r == hashed(input@, n as int),
{
    let mut h: u64 = 0xcbf29ce484222325;
    let mut i: u64 = 0;
    while i < n
        invariant
            i <= n,
            h == hashed(input@, i as int),
        decreases n - i,
    {
        let ghost start = h;
        let mut k: usize = 0;
        while k < input.len()
            invariant
                k <= input@.len(),
                h == mixed_in(start, input@, k as int),
            decreases input@.len() - k,
        {
            assert(input.len() == input@.len());
            h = (h ^ (input[k] as u64)).wrapping_mul(0x100000001b3);
            k += 1;
        }
        h = ((h << 13) | (h >> 51)).wrapping_add(0x9e3779b97f4a7c15);
        i += 1;
    }
    h
}

/// One job.
pub fn hash_job(input: &[u8]) -> (r: u64)
    ensures
        r == hashed(input@, ITERS as int),
{
    hash_rounds(input, ITERS)
}

/// How many jobs are run: two for each of the other processors, eight of them at most, and
/// four where there is none.
pub fn job_count(n_aps: u32) -> (r: usize)
    ensures
        r == if n_aps == 0 {
            4int
        } else if n_aps < 8 {
            2 * n_aps
        } else {
            16
        },
{
    if n_aps == 0 {
        4
    } else if n_aps < 8 {
        2 * n_aps as usize
    } else {
        16
    }
}

/// An ascending list with one more number, which it may hold already.
pub open spec fn with_core(s: Seq<u32>, c: u32) -> Seq<u32>
    decreases s.len(),
{
    if s.len() == 0 || s.last() < c {
        s.push(c)
    } else if s.last() == c {
        s
    } else {
        with_core(s.drop_last(), c).push(s.last())
    }
}

/// The processors of the first `n` jobs, ascending, each once.
pub open spec fn cores_used(jobs: Seq<u32>, n: int) -> Seq<u32>
    decreases n,
{
    if n <= 0 {
        Seq::empty()
    } else {
        with_core(cores_used(jobs, n - 1), jobs[n - 1])
    }
}

proof fn lemma_with_core(s: Seq<u32>, c: u32)
    requires
        forall|i: int, j: int| 0 <= i < j < s.len() ==> s[i] < s[j],
    ensures
        forall|i: int, j: int|
            0 <= i < j < with_core(s, c).len() ==> with_core(s, c)[i] < with_core(s, c)[j],
        forall|x: u32| #[trigger] with_core(s, c).contains(x) <==> s.contains(x) || x == c,
    decreases s.len(),
{
    let t = with_core(s, c);
    if s.len() == 0 || s.last() < c {
        assert(t[s.len() as int] == c);
        assert forall|x: u32| #[trigger] t.contains(x) <==> s.contains(x) || x == c by {
            if s.contains(x) {
                let i = choose|i: int| 0 <= i < s.len() && s[i] == x;
                assert(t[i] == x);
            }
            if t.contains(x) {
                let i = choose|i: int| 0 <= i < t.len() && t[i] == x;
                if i < s.len() {
                    assert(s[i] == x);
                }
            }
        }
    } else if s.last() == c {
        assert(s[s.len() - 1] == c);
    } else {
        let r = s.drop_last();
        let u = with_core(r, c);
        lemma_with_core(r, c);
        assert forall|i: int, j: int| 0 <= i < j < t.len() implies t[i] < t[j] by {
            if j == u.len() {
                assert(u.contains(t[i]));
                if r.contains(t[i]) {
                    let k = choose|k: int| 0 <= k < r.len() && r[k] == t[i];
                    assert(s[k] < s[s.len() - 1]);
                }
            }
        }
        assert forall|x: u32| #[trigger] t.contains(x) <==> s.contains(x) || x == c by {
            if t.contains(x) {
                let i = choose|i: int| 0 <= i < t.len() && t[i] == x;
                if i < u.len() {
                    assert(u.contains(x));
                    if r.contains(x) {
                        let k = choose|k: int| 0 <= k < r.len() && r[k] == x;
                        assert(s[k] == x);
                    }
                } else {
                    assert(s[s.len() - 1] == x);
                }
            }
            if s.contains(x) {
                let k = choose|k: int| 0 <= k < s.len() && s[k] == x;
                if k < r.len() {
                    assert(r[k] == x);
                    assert(u.contains(x));
                    let i = choose|i: int| 0 <= i < u.len() && u[i] == x;
                    assert(t[i] == x);
                } else {
                    assert(t[u.len() as int] == x);
                }
            }
            if x == c {
                assert(u.contains(x));
                let i = choose|i: int| 0 <= i < u.len() && u[i] == x;
                assert(t[i] == x);
            }
        }
    }
}

/// The list of processors is ascending, and holds exactly those that ran a job.
pub proof fn cores_are_those_used(jobs: Seq<u32>, n: int)
    requires
        0 <= n <= jobs.len(),
    ensures
        forall|i: int, j: int|
            0 <= i < j < cores_used(jobs, n).len() ==> cores_used(jobs, n)[i] < cores_used(jobs, n)[j],
        forall|x: u32| #[trigger] cores_used(jobs, n).contains(x) <==> jobs.take(n).contains(x),
    decreases n,
{
    if n > 0 {
        cores_are_those_used(jobs, n - 1);
        lemma_with_core(cores_used(jobs, n - 1), jobs[n - 1]);
        let a = jobs.take(n - 1);
        let b = jobs.take(n);
        assert forall|x: u32| #[trigger] b.contains(x) <==> a.contains(x) || x == jobs[n - 1] by {
            if b.contains(x) {
                let i = choose|i: int| 0 <= i < b.len() && b[i] == x;
                if i < n - 1 {
                    assert(a[i] == x);
                }
            }
            if a.contains(x) {
                let i = choose|i: int| 0 <= i < a.len() && a[i] == x;
                assert(b[i] == x);
            }
            assert(b[n - 1] == jobs[n - 1]);
        }
        assert forall|x: u32| #[trigger] cores_used(jobs, n).contains(x) <==> b.contains(x) by {
            assert(cores_used(jobs, n - 1).contains(x) <==> a.contains(x));
        }
    }
}

/// The numbers of a list with commas between them.
pub open spec fn listed(s: Seq<u32>, n: int) -> Seq<u8>
    decreases n,
{
    if n <= 0 {
        Seq::empty()
    } else if n == 1 {
        decimal(s[0] as nat)
    } else {
        listed(s, n - 1).push(44) + decimal(s[n - 1] as nat)
    }
}

/// How many hundredths the speedup is.
pub open spec fn speedup(parallel_ms: u64, sequential_ms: u64) -> int {
    if parallel_ms == 0 { 0 } else { sequential_ms * 100 / parallel_ms as int }
}

/// The report of a measurement.
pub open spec fn report(parallel_ms: u64, sequential_ms: u64, cores: Seq<u32>) -> Seq<u8> {
    let x = speedup(parallel_ms, sequential_ms);
    encode_utf8("parallel="@) + decimal(parallel_ms as nat) + encode_utf8("ms sequential="@) + decimal(
        sequential_ms as nat,
    ) + encode_utf8("ms speedup="@) + decimal((x / 100) as nat) + seq![
        46u8,
        (48 + x / 10 % 10) as u8,
        (48 + x % 10) as u8,
    ] + encode_utf8("x cores=["@) + listed(cores, cores.len() as int) + seq![93u8]
}

fn insert_core(cores: &mut Vec<u32>, c: u32)
    ensures
        final(cores)@ == with_core(old(cores)@, c),
    decreases old(cores)@.len(),
{
    let ghost s = cores@;
    if cores.len() == 0 || cores[cores.len() - 1] < c {
        cores.push(c);
        return;
    }
    if cores[cores.len() - 1] == c {
        return;
    }
    if let Some(last) = cores.pop() {
        assert(cores@ =~= s.drop_last());
        insert_core(cores, c);
        cores.push(last);
    }
}

/// Writes the report of a measurement; `jobs` are the processors that ran the jobs.
pub fn smp_report(parallel_ms: u64, sequential_ms: u64, jobs: &Vec<u32>) -> (r: Vec<u8>)
    requires
        sequential_ms * 100 <= u64::MAX,
    ensures
        r@ == report(parallel_ms, sequential_ms, cores_used(jobs@, jobs@.len() as int)),
{
    let mut cores: Vec<u32> = Vec::new();
    let mut i: usize = 0;
    assert(cores@ =~= cores_used(jobs@, 0));
    while i < jobs.len()
        invariant
            i <= jobs@.len(),
            cores@ == cores_used(jobs@, i as int),
        decreases jobs@.len() - i,
    {
        insert_core(&mut cores, jobs[i]);
        i += 1;
    }
    let x: u64 = if parallel_ms == 0 { 0 } else { sequential_ms * 100 / parallel_ms };
    let mut out: Vec<u8> = Vec::new();
    push_all(&mut out, "parallel=".as_bytes());
    push_decimal(&mut out, parallel_ms);
    push_all(&mut out, "ms sequential=".as_bytes());
    push_decimal(&mut out, sequential_ms);
    push_all(&mut out, "ms speedup=".as_bytes());
    push_decimal(&mut out, x / 100);
    out.push(46);
    out.push((48 + x / 10 % 10) as u8);
    out.push((48 + x % 10) as u8);
    push_all(&mut out, "x cores=[".as_bytes());
    let ghost head = out@;
    let mut k: usize = 0;
    assert(out@ =~= head + listed(cores@, 0));
    while k < cores.len()
        invariant
            k <= cores@.len(),
            out@ == head + listed(cores@, k as int),
        decreases cores@.len() - k,
    {
        if k > 0 {
            out.push(44);
        }
        push_decimal(&mut out, cores[k] as u64);
        k += 1;
        assert(out@ =~= head + listed(cores@, k as int));
    }
    out.push(93);
    assert(out@ =~= report(parallel_ms, sequential_ms, cores@));
    out
}

/// `smp_bench`: as much of the report as the buffer takes. The times and the processors are
/// those of the measurement that was just made.
pub fn ruos_smp_bench(
    mem: &mut [u8],
    buf_ptr: i32,
    buf_len: i32,
    used_ptr: i32,
    parallel_ms: u64,
    sequential_ms: u64,
    jobs: &Vec<u32>,
) -> (r: i32)
    requires
        sequential_ms * 100 <= u64::MAX,
    ensures
        ({
            let text = report(parallel_ms, sequential_ms, cores_used(jobs@, jobs@.len() as int));
            (final(mem)@, r) == start_of(old(mem)@, text, buf_ptr, buf_len, used_ptr, taken(text.len(), buf_len))
        }),
{
    let text: Vec<u8> = smp_report(parallel_ms, sequential_ms, jobs);
    write_bytes_and_len(mem, text.as_slice(), buf_ptr, buf_len, used_ptr)
}

} // verus!
