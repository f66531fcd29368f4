//! The screen as a program sees it that draws on all of it.

use std::collections::VecDeque;
use vstd::prelude::*;
use crate::bytes::{le32, push_u32};
use crate::wt::args::{advance, behind};
use crate::wt::mem::{fits, read, stored};
use crate::wt::window::{event_record, head, GfxEvt};

verus! {

/// The errno of an address that does not fit.
pub const EINVAL: i32 = 28;

/// The shape of the screen.
#[derive(Clone, Copy, PartialEq, Eq, Structural, Debug)]
pub struct Geom {
    pub width: u32,
    pub height: u32,
    pub stride: u32,
    pub format: u32,
}

/// The 16 bytes of the screen's shape.
pub open spec fn geom_record(g: Geom) -> Seq<u8> {
    le32(g.width) + le32(g.height) + le32(g.stride) + le32(g.format)
}

fn encode_geom(g: Geom) -> (r: Vec<u8>)
    ensures
        r@ == geom_record(g),
{
    let mut b: Vec<u8> = Vec::new();
    push_u32(&mut b, g.width);
    push_u32(&mut b, g.height);
    push_u32(&mut b, g.stride);
    push_u32(&mut b, g.format);
    assert(b@ =~= geom_record(g));
    b
}

/// `gfx_info` and `get-info`: the screen's shape.
pub fn gfx_info(mem: &mut [u8], out: u32, g: Geom) -> (r: i32)
    ensures
        r == if fits(out, 16, old(mem)@.len() as int) { 0 } else { EINVAL },
        final(mem)@ == stored(old(mem)@, out, geom_record(g)),
{
    let b: Vec<u8> = encode_geom(g);
    if crate::wt::mem::write(mem, out, b.as_slice()) { 0 } else { EINVAL }
}

/// `gfx_blit` and `blit`: the pixels that are to be shown.
pub fn gfx_blit(mem: &[u8], ptr: u32, len: u32) -> (r: Result<Vec<u8>, i32>)
    ensures
        if fits(ptr, len as int, mem@.len() as int) {
            r is Ok && r->Ok_0@ == mem@.subrange(ptr as int, ptr + len)
        } else {
            r == Err::<Vec<u8>, i32>(EINVAL)
        },
{
    match read(mem, ptr, len) {
        Some(b) => Ok(b),
        None => Err(EINVAL),
    }
}

/// The 16 bytes of an event.
pub open spec fn plain_event(e: GfxEvt) -> Seq<u8> {
    le32(e.kind) + le32(e.p0) + le32(e.p1) + le32(e.p2)
}

/// The place of the `i`th event.
pub open spec fn event_place(out: u32, i: int) -> u32 {
    behind(out, 16 * i)
}

/// How many events are handed over, from the `i`th on: until there are none, enough were
/// handed over, or one does not fit.
pub open spec fn handed(mem_len: int, out: u32, max: int, n: int, i: int) -> int
    decreases n - i,
{
    if i >= max || i >= n || !fits(event_place(out, i), 16, mem_len) {
        i
    } else {
        handed(mem_len, out, max, n, i + 1)
    }
}

/// The memory after the first `k` events were handed over.
pub open spec fn with_events(mem: Seq<u8>, out: u32, q: Seq<GfxEvt>, k: int) -> Seq<u8>
    decreases k,
{
    if k <= 0 {
        mem
    } else {
        stored(with_events(mem, out, q, k - 1), event_place(out, k - 1), plain_event(q[k - 1]))
    }
}

/// `gfx_poll_event`: hands over events from the head of the queue, and tells how many. An
/// event that does not fit is lost, and ends it.
pub fn gfx_poll_event(q: &mut VecDeque<GfxEvt>, mem: &mut [u8], out: u32, max: i32) -> (r: i32)
    ensures
        ({
            let n = old(q)@.len() as int;
            let k = handed(old(mem)@.len() as int, out, max as int, n, 0);
            let taken = if k < max && k < n { k + 1 } else { k };
            &&& r == k
            &&& final(mem)@ == with_events(old(mem)@, out, old(q)@, k)
            &&& final(q)@ == old(q)@.subrange(taken, n)
        }),
{
    let ghost all = q@;
    let ghost m = mem@;
    let ghost n = all.len() as int;
    let mut k: i32 = 0;
    let mut at: u32 = out;
    assert(all.subrange(0, n) =~= all);
    while k < max
        invariant
            0 <= k,
            k <= max || k == 0,
            k <= n,
            n == all.len(),
            all == old(q)@,
            m == old(mem)@,
            q@ == all.subrange(k as int, n),
            mem@.len() == m.len(),
            mem@ == with_events(m, out, all, k as int),
            at == event_place(out, k as int),
            handed(m.len() as int, out, max as int, n, k as int) == handed(m.len() as int, out, max as int, n, 0),
        decreases max - k,
    {
        match q.pop_front() {
            None => {
                return k;
            },
            Some(e) => {
                assert(e == all[k as int]);
                assert(q@ =~= all.subrange(k + 1, n));
                let mut b: Vec<u8> = Vec::new();
                push_u32(&mut b, e.kind);
                push_u32(&mut b, e.p0);
                push_u32(&mut b, e.p1);
                push_u32(&mut b, e.p2);
                assert(b@ =~= plain_event(e));
                if !crate::wt::mem::write(mem, at, b.as_slice()) {
                    return k;
                }
                proof {
                    crate::wt::args::lemma_behind(out, 16 * k, 16);
                }
                at = advance(at, 16);
                k += 1;
            },
        }
    }
    k
}

/// `poll-event`: hands over one event, or that there is none.
pub fn poll_one(q: &mut VecDeque<GfxEvt>, mem: &mut [u8], retptr: u32)
    ensures
        final(q)@ == if old(q)@.len() == 0 {
            old(q)@
        } else {
            old(q)@.subrange(1, old(q)@.len() as int)
        },
        final(mem)@ == stored(old(mem)@, retptr, event_record(head(old(q)@))),
{
    let e = q.pop_front();
    let mut b: Vec<u8> = Vec::new();
    match e {
        Some(e) => {
            push_u32(&mut b, 1);
            push_u32(&mut b, e.kind);
            push_u32(&mut b, e.p0);
            push_u32(&mut b, e.p1);
            push_u32(&mut b, e.p2);
        },
        None => {
            push_u32(&mut b, 0);
            push_u32(&mut b, 0);
            push_u32(&mut b, 0);
            push_u32(&mut b, 0);
            push_u32(&mut b, 0);
        },
    }
    assert(b@ =~= event_record(head(old(q)@)));
    crate::wt::mem::write(mem, retptr, b.as_slice());
}

/// The time of day in hundredths of a second: the clock gives the seconds, the timer what is
/// behind the point.
pub fn wall_centis(hour: u8, minute: u8, second: u8, ticks: u64) -> (r: u32)
    ensures
        r == ((hour * 60 + minute) * 60 + second) * 100 + ticks % 100,
{
    ((hour as u32 * 60 + minute as u32) * 60 + second as u32) * 100 + (ticks % 100) as u32
}

} // verus!
