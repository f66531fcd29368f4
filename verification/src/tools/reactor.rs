//! Small programs with a window: each draws one colour per frame.

use vstd::prelude::*;
use crate::bytes::{le32, push_u32};
use crate::wt::window::WmState;

verus! {

/// Width of the windows.
pub const W: u32 = 320;

/// Height of the windows.
pub const H: u32 = 240;

/// Bytes of a window's surface.
pub const SURFACE: u32 = 307_200;

/// A surface of one colour.
pub open spec fn plain(c: Seq<u8>, len: nat) -> Seq<u8> {
    Seq::new(len, |i: int| c[i % 4])
}

/// Makes a surface of one colour, of `pixels` pixels.
pub fn fill(c: [u8; 4], pixels: u32) -> (r: Vec<u8>)
    requires
        pixels <= 0x1000_0000,
    ensures
        r@ == plain(c@, (4 * pixels) as nat),
{
    let mut out: Vec<u8> = Vec::new();
    let mut i: u32 = 0;
    while i < pixels
        invariant
            i <= pixels <= 0x1000_0000,
            out@ == plain(c@, (4 * i) as nat),
        decreases pixels - i,
    {
        out.push(c[0]);
        out.push(c[1]);
        out.push(c[2]);
        out.push(c[3]);
        i += 1;
        assert(out@ =~= plain(c@, (4 * i) as nat));
    }
    out
}

/// The window after its program drew a surface of its usual size.
pub open spec fn drew(before: WmState, after: WmState, c: Seq<u8>) -> bool {
    &&& after.pixels@ == plain(c, SURFACE as nat)
    &&& after == (WmState {
        pixels: after.pixels,
        win_w: W,
        win_h: H,
        committed: true,
        tick: (before.tick + 1) as u32,
        ..before
    })
}

fn draw(win: &mut WmState, c: [u8; 4])
    requires
        old(win).tick < u32::MAX,
    ensures
        drew(*old(win), *final(win), c@),
{
    win.count_tick();
    let buf: Vec<u8> = fill(c, 76_800);
    assert(buf@.subrange(0, SURFACE as int) =~= buf@);
    win.commit(buf.as_slice(), 0, SURFACE, W, H);
}

/// The lowest byte of a count that is set off by a window's id.
pub open spec fn shade(count: u32, id: u32, step: u32) -> u8 {
    ((count + id * step) % 256) as u8
}

fn shade_of(count: u32, id: u32, step: u32) -> (r: u8)
    requires
        step <= 80,
    ensures
        r == shade(count, id, step),
{
    assert(id * step <= 0xffff_ffff * 80) by (nonlinear_arith)
        requires
            0 <= id <= 0xffff_ffff,
            0 <= step <= 80,
    ;
    assert(0 <= id * step) by (nonlinear_arith)
        requires
            0 <= id,
            0 <= step,
    ;
    ((count as u64 + id as u64 * step as u64) % 256) as u8
}

/// A frame of the program whose colour changes with every frame.
pub fn reactor_frame(count: &mut u32, win: &mut WmState)
    requires
        old(win).tick < u32::MAX,
    ensures
        *final(count) == (if *old(count) == u32::MAX { 0 } else { *old(count) + 1 }),
        drew(*old(win), *final(win), seq![shade(*final(count), old(win).id, 80), 0x40u8, 0x80u8, 0xffu8]),
{
    *count = count.wrapping_add(1);
    let r: u8 = shade_of(*count, win.id, 80);
    let c: [u8; 4] = [r, 0x40, 0x80, 0xff];
    assert(c@ =~= seq![r, 0x40u8, 0x80u8, 0xffu8]);
    draw(win, c);
}

/// A frame of the program that asks to be closed in its third frame.
pub fn closing_frame(count: &mut u32, win: &mut WmState)
    requires
        old(win).tick < u32::MAX,
    ensures
        *final(count) == (if *old(count) == u32::MAX { 0 } else { *old(count) + 1 }),
        drew(
            WmState { close_requested: old(win).close_requested || *final(count) == 3, ..*old(win) },
            *final(win),
            seq![0x20u8, shade(*final(count), old(win).id, 50), 0x20u8, 0xffu8],
        ),
{
    *count = count.wrapping_add(1);
    let g: u8 = shade_of(*count, win.id, 50);
    let c: [u8; 4] = [0x20, g, 0x20, 0xff];
    assert(c@ =~= seq![0x20u8, g, 0x20u8, 0xffu8]);
    draw(win, c);
    if *count == 3 {
        win.close();
    }
}

/// A frame of the program that never ends its second frame: false where it would not return.
pub fn spinning_frame(count: &mut u32, win: &mut WmState) -> (r: bool)
    requires
        old(win).tick < u32::MAX,
    ensures
        *final(count) == (if *old(count) == u32::MAX { 0 } else { *old(count) + 1 }),
        r == (*final(count) < 2),
        if r {
            drew(*old(win), *final(win), seq![0xe0u8, 0x20u8, 0x20u8, 0xffu8])
        } else {
            *final(win) == (WmState { tick: (old(win).tick + 1) as u32, ..*old(win) })
        },
{
    *count = count.wrapping_add(1);
    if *count >= 2 {
        win.count_tick();
        return false;
    }
    let c: [u8; 4] = [0xe0, 0x20, 0x20, 0xff];
    assert(c@ =~= seq![0xe0u8, 0x20u8, 0x20u8, 0xffu8]);
    draw(win, c);
    true
}

/// A frame of the program that proves that memory can be allocated in a frame.
pub fn probe_frame(win: &mut WmState)
    requires
        old(win).tick < u32::MAX,
    ensures
        drew(*old(win), *final(win), seq![0x30u8, ((0x80 + old(win).id * 40) % 256) as u8, 0xb0u8, 0xffu8]),
{
    assert(win.id * 40 + 0x80 <= 0xffff_ffff * 40 + 0x80);
    let g: u8 = ((0x80 + win.id as u64 * 40) % 256) as u8;
    let c: [u8; 4] = [0x30, g, 0xb0, 0xff];
    assert(c@ =~= seq![0x30u8, g, 0xb0u8, 0xffu8]);
    draw(win, c);
}

/// Whether a byte on the heap keeps its value: 1 where it does.
pub fn alloc_probe() -> (r: u8)
    ensures
        r == 1,
{
    let b: Box<u8> = Box::new(0xAB);
    if *b == 0xAB { 1 } else { 2 }
}

/// The first bytes of the surface of the program with a thread: the thread's counter, then
/// how far the program came.
pub open spec fn stages(counter: u32, probe: u8, spawned: u8) -> Seq<u8> {
    le32(counter) + seq![1u8, probe, spawned]
}

/// Writes those bytes.
pub fn threaded_header(counter: u32, probe: u8, spawned: u8) -> (r: Vec<u8>)
    ensures
        r@ == stages(counter, probe, spawned),
{
    let mut out: Vec<u8> = Vec::new();
    push_u32(&mut out, counter);
    out.push(1);
    out.push(probe);
    out.push(spawned);
    assert(out@ =~= stages(counter, probe, spawned));
    out
}

} // verus!
