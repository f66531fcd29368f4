//! The state that a window's program shares with the compositor, and the calls by which the
//! program changes it.

use std::collections::VecDeque;
use vstd::prelude::*;
use vstd::utf8::{decode_utf8, valid_utf8};
use crate::bytes::{le32, push_u32};
use crate::text::utf8;
use crate::wt::mem::{fits, read, stored};

verus! {

/// An input event.
#[derive(Clone, Copy, PartialEq, Eq, Structural, Debug)]
pub struct GfxEvt {
    pub kind: u32,
    pub p0: u32,
    pub p1: u32,
    pub p2: u32,
}

/// A window as its program sees it: its last surface, its input queue, and the requests
/// that the compositor has yet to answer.
pub struct WmState {
    pub id: u32,
    /// Size of the last surface.
    pub win_w: u32,
    pub win_h: u32,
    /// The last surface, RGBA bytes.
    pub pixels: Vec<u8>,
    pub tick: u32,
    /// Events routed to this window and not yet taken.
    pub events: VecDeque<GfxEvt>,
    pub close_requested: bool,
    pub move_requested: bool,
    /// Programs to launch, by name.
    pub spawn_request: VecDeque<String>,
    pub bg_request: bool,
    /// Whether the program drew a surface since the last frame pass began.
    pub committed: bool,
    pub minimize_request: bool,
    pub maximize_request: bool,
    /// Windows to bring forward, by id.
    pub activate_request: VecDeque<u32>,
    /// The size that the compositor wants the window drawn at; zero before it is known.
    pub target_w: u32,
    pub target_h: u32,
    /// Whether the program asked to run in the next frame too.
    pub stay_awake_request: bool,
    /// The terminal whose output wakes the window; negative for none.
    pub wake_pty: i32,
}

/// The 20 bytes by which an event, or none, is handed to a program: a word that is 1 for
/// an event and 0 for none, then the event.
pub open spec fn event_record(e: Option<GfxEvt>) -> Seq<u8> {
    match e {
        Some(e) => le32(1) + le32(e.kind) + le32(e.p0) + le32(e.p1) + le32(e.p2),
        None => le32(0) + le32(0) + le32(0) + le32(0) + le32(0),
    }
}

/// The event at the head of a queue.
pub open spec fn head(q: Seq<GfxEvt>) -> Option<GfxEvt> {
    if q.len() == 0 { None } else { Some(q[0]) }
}

/// A size packed into one number: the width above the height.
pub open spec fn packed_size(w: u32, h: u32) -> int {
    let v = w * 0x1_0000_0000 + h;
    if v > i64::MAX { v - 0x1_0000_0000_0000_0000 } else { v }
}

/// Packs a size into one number.
pub fn pack_size(w: u32, h: u32) -> (r: i64)
    ensures
        r == packed_size(w, h),
{
    if w < 0x8000_0000 {
        w as i64 * 0x1_0000_0000 + h as i64
    } else {
        (w as i64 - 0x1_0000_0000) * 0x1_0000_0000 + h as i64
    }
}

/// Capability of a program's state that holds a window.
pub trait HasWindow {
    /// The window's state, to change it.
    fn win(&mut self) -> &mut WmState;

    /// The window's state.
    fn win_ref(&self) -> &WmState;
}

impl HasWindow for WmState {
    fn win(&mut self) -> (r: &mut WmState)
        ensures
            *r == *old(self),
            *final(self) == *final(r),
    {
        self
    }

    fn win_ref(&self) -> (r: &WmState)
        ensures
            *r == *self,
    {
        self
    }
}

impl WmState {
    /// A window that has drawn and asked for nothing yet.
    pub fn new(id: u32) -> (r: Self)
        ensures
            r.id == id,
            r.win_w == 0 && r.win_h == 0 && r.tick == 0 && r.target_w == 0 && r.target_h == 0,
            r.pixels@ == Seq::<u8>::empty(),
            r.events@ == Seq::<GfxEvt>::empty(),
            r.spawn_request@ == Seq::<String>::empty(),
            r.activate_request@ == Seq::<u32>::empty(),
            !r.close_requested && !r.move_requested && !r.bg_request && !r.committed,
            !r.minimize_request && !r.maximize_request && !r.stay_awake_request,
            r.wake_pty == -1,
    {
        WmState {
            id,
            win_w: 0,
            win_h: 0,
            pixels: Vec::new(),
            tick: 0,
            events: VecDeque::new(),
            close_requested: false,
            move_requested: false,
            spawn_request: VecDeque::new(),
            bg_request: false,
            committed: false,
            minimize_request: false,
            maximize_request: false,
            activate_request: VecDeque::new(),
            target_w: 0,
            target_h: 0,
            stay_awake_request: false,
            wake_pty: -1,
        }
    }

    /// `wm.commit`: takes the program's new surface. A surface that does not lie in the
    /// program's memory is ignored.
    pub fn commit(&mut self, mem: &[u8], ptr: u32, len: u32, w: u32, h: u32)
        ensures
            if fits(ptr, len as int, mem@.len() as int) {
                &&& final(self).pixels@ == mem@.subrange(ptr as int, ptr + len)
                &&& *final(self) == (WmState {
                    pixels: final(self).pixels,
                    win_w: w,
                    win_h: h,
                    committed: true,
                    ..*old(self)
                })
            } else {
                *final(self) == *old(self)
            },
    {
        if let Some(b) = read(mem, ptr, len) {
            self.pixels = b;
            self.win_w = w;
            self.win_h = h;
            self.committed = true;
        }
    }

    /// `wm.tick`: counts a call.
    pub fn count_tick(&mut self)
        requires
            old(self).tick < u32::MAX,
        ensures
            *final(self) == (WmState { tick: (old(self).tick + 1) as u32, ..*old(self) }),
    {
        self.tick = self.tick + 1;
    }

    /// `wm.close`: asks to be closed.
    pub fn close(&mut self)
        ensures
            *final(self) == (WmState { close_requested: true, ..*old(self) }),
    {
        self.close_requested = true;
    }

    /// `wm.stay_awake`: asks to run in the next frame too.
    pub fn stay_awake(&mut self)
        ensures
            *final(self) == (WmState { stay_awake_request: true, ..*old(self) }),
    {
        self.stay_awake_request = true;
    }

    /// `wm.wake_on_pty`: ties a terminal to the window; a negative number unties it.
    pub fn wake_on_pty(&mut self, idx: i32)
        ensures
            *final(self) == (WmState { wake_pty: idx, ..*old(self) }),
    {
        self.wake_pty = idx;
    }

    /// `wm.start_move`: asks to follow the cursor.
    pub fn start_move(&mut self)
        ensures
            *final(self) == (WmState { move_requested: true, ..*old(self) }),
    {
        self.move_requested = true;
    }

    /// `wm.spawn`: asks for a program to be launched. A name that does not lie in the
    /// program's memory, or is no text, is ignored.
    pub fn spawn(&mut self, mem: &[u8], name_ptr: u32, name_len: u32)
        ensures
            if fits(name_ptr, name_len as int, mem@.len() as int) && valid_utf8(
                mem@.subrange(name_ptr as int, name_ptr + name_len),
            ) {
                &&& final(self).spawn_request@.len() == old(self).spawn_request@.len() + 1
                &&& final(self).spawn_request@.drop_last() == old(self).spawn_request@
                &&& final(self).spawn_request@.last()@ == decode_utf8(
                    mem@.subrange(name_ptr as int, name_ptr + name_len),
                )
                &&& *final(self) == (WmState { spawn_request: final(self).spawn_request, ..*old(self) })
            } else {
                *final(self) == *old(self)
            },
    {
        if let Some(b) = read(mem, name_ptr, name_len) {
            if let Some(s) = utf8(b) {
                self.spawn_request.push_back(s);
                assert(self.spawn_request@.drop_last() =~= old(self).spawn_request@);
            }
        }
    }

    /// `wm.set_background`: asks to be the background.
    pub fn set_background(&mut self)
        ensures
            *final(self) == (WmState { bg_request: true, ..*old(self) }),
    {
        self.bg_request = true;
    }

    /// `wm.poll_event`: hands the oldest event to the program, and takes it out of the
    /// queue. A place outside the program's memory gets nothing, and the event is gone.
    pub fn poll_event(&mut self, mem: &mut [u8], retptr: u32)
        ensures
            final(self).events@ == if old(self).events@.len() == 0 {
                old(self).events@
            } else {
                old(self).events@.subrange(1, old(self).events@.len() as int)
            },
            *final(self) == (WmState { events: final(self).events, ..*old(self) }),
            final(mem)@ == stored(old(mem)@, retptr, event_record(head(old(self).events@))),
    {
        let e = self.events.pop_front();
        let mut b: Vec<u8> = Vec::new();
        match e {
            Some(e) => {
                push_u32(&mut b, 1);
                push_u32(&mut b, e.kind);
                push_u32(&mut b, e.p0);
                push_u32(&mut b, e.p1);
                push_u32(&mut b, e.p2);
            },
            None => {
                push_u32(&mut b, 0);
                push_u32(&mut b, 0);
                push_u32(&mut b, 0);
                push_u32(&mut b, 0);
                push_u32(&mut b, 0);
            },
        }
        assert(b@ =~= event_record(head(old(self).events@)));
        crate::wt::mem::write(mem, retptr, b.as_slice());
    }

    /// `wm.window_size`: the size that the window should be drawn at.
    pub fn window_size(&self) -> (r: i64)
        ensures
            r == packed_size(self.target_w, self.target_h),
    {
        pack_size(self.target_w, self.target_h)
    }

    /// `wm.minimize`: asks to be hidden.
    pub fn minimize(&mut self)
        ensures
            *final(self) == (WmState { minimize_request: true, ..*old(self) }),
    {
        self.minimize_request = true;
    }

    /// `wm.toggle_maximize`: asks to be maximized or restored.
    pub fn toggle_maximize(&mut self)
        ensures
            *final(self) == (WmState { maximize_request: true, ..*old(self) }),
    {
        self.maximize_request = true;
    }

    /// `wm.activate`: asks for a window to be brought forward.
    pub fn activate(&mut self, id: u32)
        ensures
            final(self).activate_request@ == old(self).activate_request@.push(id),
            *final(self) == (WmState { activate_request: final(self).activate_request, ..*old(self) }),
    {
        self.activate_request.push_back(id);
    }
}

} // verus!
