//! Arguments, environment, exit, clocks and waiting of an interpreted program.

use vstd::prelude::*;
use crate::bytes::{bits32, contents, le32, le64, push_all, push_u64, signed32, unsigned32, with_sign};
use crate::host::mem::{bounds, guest_read, guest_write, guest_write_u32, write_errno, written, EINVAL};
use crate::host::state::RuntimeState;
use crate::suspend::{HostCall, SuspendReason, TRAP};
use crate::wasi::{clock_sub, read_clock_sub, wait_until, wake_tick, TICK_NS};
use crate::wt::args::{advance, behind, lemma_behind, sizes, space, terminated};

verus! {

/// The result of writing one value, and another one where the first could be written.
pub open spec fn two_writes(mem: Seq<u8>, p: i32, a: Seq<u8>, q: i32, b: Seq<u8>) -> (Seq<u8>, i32) {
    if write_errno(mem, p, a) != 0 {
        (mem, write_errno(mem, p, a))
    } else {
        (written(written(mem, p, a), q, b), write_errno(mem, q, b))
    }
}

/// Writes a number, and another one where the first could be written.
fn write_two(mem: &mut [u8], p: i32, a: u32, q: i32, b: u32) -> (r: i32)
    ensures
        (final(mem)@, r) == two_writes(old(mem)@, p, le32(a), q, le32(b)),
{
    match guest_write_u32(mem, p, a) {
        Err(e) => e,
        Ok(_) => match guest_write_u32(mem, q, b) {
            Err(e) => e,
            Ok(_) => 0,
        },
    }
}

/// `args_sizes_get`: how many arguments there are, and the space that they take.
pub fn args_sizes_get(st: &RuntimeState, mem: &mut [u8], argc_ptr: i32, argv_buf_size_ptr: i32) -> (r: i32)
    ensures
        (final(mem)@, r) == two_writes(
            old(mem)@,
            argc_ptr,
            le32((st.args@.len() % 0x1_0000_0000) as u32),
            argv_buf_size_ptr,
            le32((space(contents(st.args@), st.args@.len() as int) % 0x1_0000_0000) as u32),
        ),
{
    let (n, sz): (u32, u32) = sizes(&st.args);
    write_two(mem, argc_ptr, n, argv_buf_size_ptr, sz)
}

/// The memory after the first `n` strings were handed out, and the errno: 0 where all of
/// them fitted. What does not fit ends it.
#[verifier::opaque]
pub open spec fn given(mem: Seq<u8>, s: Seq<Seq<u8>>, table: i32, buf: i32, n: int) -> (Seq<u8>, i32)
    decreases n,
{
    if n <= 0 {
        (mem, 0)
    } else {
        let (m, e) = given(mem, s, table, buf, n - 1);
        let slot = behind(unsigned32(table) as u32, 4 * (n - 1));
        let at = behind(unsigned32(buf) as u32, space(s, n - 1));
        if e != 0 {
            (m, e)
        } else {
            two_writes(m, signed32(slot), le32(at), signed32(at), terminated(s[n - 1]))
        }
    }
}

/// `args_get`: hands the arguments out.
pub fn args_get(st: &RuntimeState, mem: &mut [u8], argv_ptr: i32, argv_buf_ptr: i32) -> (r: i32)
    ensures
        (final(mem)@, r) == given(old(mem)@, contents(st.args@), argv_ptr, argv_buf_ptr, st.args@.len() as int),
{
    give(&st.args, mem, argv_ptr, argv_buf_ptr)
}

/// `environ_get`: hands the environment out.
pub fn environ_get(st: &RuntimeState, mem: &mut [u8], environ_ptr: i32, environ_buf_ptr: i32) -> (r: i32)
    ensures
        (final(mem)@, r) == given(old(mem)@, contents(st.env@), environ_ptr, environ_buf_ptr, st.env@.len() as int),
{
    give(&st.env, mem, environ_ptr, environ_buf_ptr)
}

fn give(s: &Vec<Vec<u8>>, mem: &mut [u8], table_ptr: i32, buf_ptr: i32) -> (r: i32)
    ensures
        (final(mem)@, r) == given(old(mem)@, contents(s@), table_ptr, buf_ptr, s@.len() as int),
{
    reveal(given);
    let ghost c = contents(s@);
    let ghost m = mem@;
    let ghost n = s@.len() as int;
    let ghost table = unsigned32(table_ptr) as u32;
    let ghost buf = unsigned32(buf_ptr) as u32;
    let mut slot: u32 = bits32(table_ptr);
    let mut at: u32 = bits32(buf_ptr);
    let mut i: usize = 0;
    while i < s.len()
        invariant
            i <= s@.len(),
            n == s@.len(),
            c == contents(s@),
            m == old(mem)@,
            table == unsigned32(table_ptr),
            buf == unsigned32(buf_ptr),
            0 <= space(c, i as int),
            given(m, c, table_ptr, buf_ptr, i as int) == (mem@, 0i32),
            slot == behind(table, 4 * i),
            at == behind(buf, space(c, i as int)),
        decreases s@.len() - i,
    {
        reveal(given);
        assert(c[i as int] == s@[i as int]@);
        if let Err(e) = guest_write_u32(mem, with_sign(slot), at) {
            proof {
                lemma_given_over(m, c, table_ptr, buf_ptr, i + 1, n);
            }
            return e;
        }
        let mut owned: Vec<u8> = Vec::new();
        push_all(&mut owned, s[i].as_slice());
        owned.push(0);
        assert(owned@ =~= terminated(c[i as int]));
        if let Err(e) = guest_write(mem, with_sign(at), owned.as_slice()) {
            proof {
                lemma_given_over(m, c, table_ptr, buf_ptr, i + 1, n);
            }
            return e;
        }
        assert(space(c, i + 1) == space(c, i as int) + owned@.len());
        proof {
            lemma_behind(table, 4 * i, 4);
            lemma_behind(buf, space(c, i as int), owned@.len() as int);
        }
        slot = advance(slot, 4);
        at = advance(at, owned.len());
        i += 1;
    }
    0
}

proof fn lemma_given_over(mem: Seq<u8>, s: Seq<Seq<u8>>, table: i32, buf: i32, k: int, n: int)
    requires
        0 <= k <= n,
        given(mem, s, table, buf, k).1 != 0,
    ensures
        given(mem, s, table, buf, n) == given(mem, s, table, buf, k),
    decreases n - k,
{
    reveal(given);
    if k < n {
        lemma_given_over(mem, s, table, buf, k, n - 1);
    }
}

/// `environ_sizes_get`: how many entries the environment has, and the space that they take.
pub fn environ_sizes_get(st: &RuntimeState, mem: &mut [u8], environc_ptr: i32, environ_buf_size_ptr: i32) -> (r: i32)
    ensures
        (final(mem)@, r) == two_writes(
            old(mem)@,
            environc_ptr,
            le32((st.env@.len() % 0x1_0000_0000) as u32),
            environ_buf_size_ptr,
            le32((space(contents(st.env@), st.env@.len() as int) % 0x1_0000_0000) as u32),
        ),
{
    let (n, sz): (u32, u32) = sizes(&st.env);
    write_two(mem, environc_ptr, n, environ_buf_size_ptr, sz)
}

/// `proc_exit`: the program ends with this code, which stays on record.
pub fn proc_exit(st: &mut RuntimeState, code: i32) -> (r: HostCall)
    ensures
        r == HostCall::Exit(code),
        *final(st) == (RuntimeState { exit_code: code, ..*old(st) }),
{
    st.exit_code = code;
    HostCall::Exit(code)
}

/// `poll_oneoff`: the program waits for a clock. Only the first subscription counts, and it
/// has to be to a clock.
pub fn poll_oneoff(mem: &[u8], in_ptr: i32, out_ptr: i32, nsubs: i32, nevents_ptr: i32, now: u64) -> (r: HostCall)
    ensures
        if nsubs < 1 {
            r == HostCall::Return(EINVAL)
        } else {
            match bounds(in_ptr, 48, mem@.len() as int) {
                Err(e) => r == HostCall::Return(e),
                Ok(p) => match clock_sub(mem@.subrange(p.0, p.0 + 48)) {
                    None => r == HostCall::Return(EINVAL),
                    Some(c) => {
                        &&& r matches HostCall::Suspend(SuspendReason::Sleep { ticks, events_ptr, nevents_ptr: ev })
                        &&& ticks == wake_tick(now, c.1, c.2) - now
                        &&& events_ptr == unsigned32(out_ptr)
                        &&& ev == unsigned32(nevents_ptr)
                    },
                },
            }
        },
{
    if nsubs < 1 {
        return HostCall::Return(EINVAL);
    }
    match guest_read(mem, in_ptr, 48) {
        Err(e) => HostCall::Return(e),
        Ok(s) => match read_clock_sub(s.as_slice()) {
            None => HostCall::Return(EINVAL),
            Some((_, timeout, abstime)) => HostCall::Suspend(
                SuspendReason::Sleep {
                    ticks: wait_until(now, timeout, abstime) - now,
                    events_ptr: bits32(out_ptr),
                    nevents_ptr: bits32(nevents_ptr),
                },
            ),
        },
    }
}

/// The memory and the end of a call that writes one value, and by which the program ends
/// where the value cannot be written.
pub open spec fn write_or_exit(mem: Seq<u8>, ptr: i32, bytes: Seq<u8>) -> (Seq<u8>, HostCall) {
    (
        written(mem, ptr, bytes),
        if write_errno(mem, ptr, bytes) == 0 {
            HostCall::Return(0)
        } else {
            HostCall::Exit(TRAP)
        },
    )
}

/// Writes a value; the program ends where it cannot be written.
pub fn write_else_exit(mem: &mut [u8], ptr: i32, bytes: &[u8]) -> (r: HostCall)
    ensures
        (final(mem)@, r) == write_or_exit(old(mem)@, ptr, bytes@),
{
    match guest_write(mem, ptr, bytes) {
        Ok(_) => HostCall::Return(0),
        Err(_) => HostCall::Exit(TRAP),
    }
}

/// `clock_time_get`: every clock counts nanoseconds from boot.
pub fn clock_time_get(mem: &mut [u8], time_ptr: i32, ticks: u64) -> (r: HostCall)
    requires
        ticks * TICK_NS <= u64::MAX,
    ensures
        (final(mem)@, r) == write_or_exit(old(mem)@, time_ptr, le64((ticks * TICK_NS) as u64)),
{
    let mut b: Vec<u8> = Vec::new();
    push_u64(&mut b, ticks * TICK_NS);
    assert(b@ =~= le64((ticks * TICK_NS) as u64));
    write_else_exit(mem, time_ptr, b.as_slice())
}

/// `clock_res_get`: the length of a tick.
pub fn clock_res_get(mem: &mut [u8], res_ptr: i32) -> (r: HostCall)
    ensures
        (final(mem)@, r) == write_or_exit(old(mem)@, res_ptr, le64(TICK_NS)),
{
    let mut b: Vec<u8> = Vec::new();
    push_u64(&mut b, TICK_NS);
    assert(b@ =~= le64(TICK_NS));
    write_else_exit(mem, res_ptr, b.as_slice())
}

} // verus!
