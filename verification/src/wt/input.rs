//! The routing of input: which window gets which event.
//!
//! Events are kind 0 for a key, 1 for a move of the mouse, 2 for a mouse button and 5 for
//! the wheel. A window gets mouse positions relative to its own origin, as single precision
//! numbers.

use vstd::prelude::*;
use crate::raster::float::{from_i32, is_converted};
use crate::wt::window::{GfxEvt, WmState};
use crate::wt::wm::{at_point, background, with_id, Compositor, Desk, Window};

verus! {

/// A key.
pub const KEY: u32 = 0;

/// A move of the mouse.
pub const MOVE: u32 = 1;

/// A mouse button.
pub const BUTTON: u32 = 2;

/// The wheel.
pub const WHEEL: u32 = 5;

/// Whether `e` tells window `w` that the mouse is at `(sx, sy)` of the screen.
pub open spec fn is_move(e: GfxEvt, w: Window, sx: int, sy: int) -> bool {
    &&& e.kind == MOVE
    &&& is_converted((sx - w.rect.0) as i32, e.p0)
    &&& is_converted((sy - w.rect.1) as i32, e.p1)
    &&& e.p2 == 0
}

/// The left button went down or up.
pub open spec fn left_button(pressed: bool) -> GfxEvt {
    GfxEvt { kind: BUTTON, p0: 0, p1: if pressed { 1 } else { 0 }, p2: 0 }
}

/// `after` is `before` with a mouse position and then the events `more` in its queue, and
/// active in frame `frame`.
pub open spec fn told(before: Window, after: Window, sx: int, sy: int, more: Seq<GfxEvt>, frame: u32) -> bool {
    let n = before.state.events@.len() as int;
    &&& after.state.events@.len() == n + 1 + more.len()
    &&& after.state.events@.subrange(0, n) == before.state.events@
    &&& is_move(after.state.events@[n], before, sx, sy)
    &&& after.state.events@.subrange(n + 1, n + 1 + more.len()) == more
    &&& after == (Window {
        last_active_frame: frame,
        state: WmState { events: after.state.events, ..before.state },
        ..before
    })
}

/// `after` is `before` with one more event in its queue.
pub open spec fn queued(before: Window, after: Window, e: GfxEvt) -> bool {
    &&& after.state.events@ == before.state.events@.push(e)
    &&& after == (Window { state: WmState { events: after.state.events, ..before.state }, ..before })
}

/// `after` differs from `before` in the window at `idx` alone.
pub open spec fn only(before: Desk, after: Desk, idx: int) -> bool {
    &&& after.wins.len() == before.wins.len()
    &&& 0 <= idx < before.wins.len()
    &&& forall|j: int| 0 <= j < before.wins.len() && j != idx ==> #[trigger] after.wins[j] == before.wins[j]
    &&& after.focused == before.focused
    &&& after.dirty == before.dirty
}

/// `after` is `before` with a mouse position and the events `more` told to the window at
/// `idx`.
pub open spec fn desk_told(before: Desk, after: Desk, idx: int, sx: int, sy: int, more: Seq<GfxEvt>, frame: u32) -> bool {
    &&& only(before, after, idx)
    &&& told(before.wins[idx], after.wins[idx], sx, sy, more, frame)
}

/// The window that a point of the screen belongs to: the topmost one there, or else the
/// background.
pub open spec fn under(wins: Seq<Window>, px: int, py: int) -> Option<int> {
    match at_point(wins, px, py) {
        Some(i) => Some(i),
        None => background(wins),
    }
}

/// The desk after the window at `idx` was brought forward by a press of the mouse.
pub open spec fn pressed_on(d: Desk, idx: int, frame: u32) -> Desk {
    let top = d.wins.len() - 1;
    d.raised(idx).focus_on(top)
}

/// What a press of the left button does: the topmost window there comes forward and is told
/// of the press; over the bare desktop the background is told, and stays where it is.
pub open spec fn left_down(before: Desk, after: Desk, px: int, py: int, frame: u32) -> bool {
    match at_point(before.wins, px, py) {
        Some(i) => desk_told(
            pressed_on(before, i, frame),
            after,
            before.wins.len() - 1,
            px,
            py,
            seq![left_button(true)],
            frame,
        ),
        None => match background(before.wins) {
            Some(b) => desk_told(before, after, b, px, py, seq![left_button(true)], frame),
            None => after == before,
        },
    }
}

/// The window that is told of a release of the left button: the dragged one, or else the one
/// in focus; over the bare desktop the background, where there is one.
pub open spec fn release_target(d: Desk, drag: Option<crate::wt::wm::DragState>, px: int, py: int) -> Option<int> {
    match drag {
        Some(g) => with_id(d.wins, g.win_id),
        None => if at_point(d.wins, px, py) is None && background(d.wins) is Some {
            background(d.wins)
        } else {
            Some(d.focused)
        },
    }
}

/// What the release of the left button does.
pub open spec fn left_up(
    before: Desk,
    after: Desk,
    drag: Option<crate::wt::wm::DragState>,
    px: int,
    py: int,
    frame: u32,
) -> bool {
    match release_target(before, drag, px, py) {
        Some(i) => if i < before.wins.len() {
            desk_told(before, after, i, px, py, seq![left_button(false)], frame)
        } else {
            after == before
        },
        None => after == before,
    }
}

impl Window {
    fn push_event(&mut self, e: GfxEvt)
        ensures
            queued(*old(self), *final(self), e),
    {
        self.state.events.push_back(e);
    }
}

proof fn lemma_search_bounds(wins: Seq<Window>, px: int, py: int)
    ensures
        at_point(wins, px, py) matches Some(i) ==> 0 <= i < wins.len(),
        background(wins) matches Some(i) ==> 0 <= i < wins.len(),
{
    crate::wt::wm::topmost_is_topmost(wins, wins.len() as int, crate::wt::wm::hit_at(px, py));
    crate::wt::wm::first_is_first(wins, 0, crate::wt::wm::is_bg());
}

impl Compositor {
    /// Tells a window where the mouse is.
    pub fn forward_mouse_move(&mut self, idx: usize, sx: i32, sy: i32)
        requires
            old(self).wf(),
            0 <= sx,
            0 <= sy,
        ensures
            final(self).wf(),
            final(self).same_rest(old(self)),
            if idx < old(self).wins@.len() {
                desk_told(
                    old(self)@,
                    final(self)@,
                    idx as int,
                    sx as int,
                    sy as int,
                    Seq::empty(),
                    old(self).frame_no,
                )
            } else {
                final(self)@ == old(self)@
            },
    {
        if idx >= self.wins.len() {
            return;
        }
        let lx: i32 = sx - self.wins[idx].rect.0 as i32;
        let ly: i32 = sy - self.wins[idx].rect.1 as i32;
        let p0: u32 = from_i32(lx);
        let p1: u32 = from_i32(ly);
        let ghost before = self.wins@[idx as int];
        self.wins[idx].push_event(GfxEvt { kind: MOVE, p0, p1, p2: 0 });
        let ghost mid = self.wins@[idx as int];
        self.wins[idx].last_active_frame = self.frame_no;
        proof {
            let after = self.wins@[idx as int];
            let n = before.state.events@.len() as int;
            assert(after.state.events@ == mid.state.events@);
            assert(after.state.events@.subrange(0, n) =~= before.state.events@);
            assert(after.state.events@.subrange(n + 1, n + 1) =~= Seq::<GfxEvt>::empty());
        }
    }

    /// Tells a window that the left button went down or up, after telling it where.
    pub fn forward_left_button(&mut self, idx: usize, sx: i32, sy: i32, pressed: bool)
        requires
            old(self).wf(),
            0 <= sx,
            0 <= sy,
        ensures
            final(self).wf(),
            final(self).same_rest(old(self)),
            if idx < old(self).wins@.len() {
                desk_told(
                    old(self)@,
                    final(self)@,
                    idx as int,
                    sx as int,
                    sy as int,
                    seq![left_button(pressed)],
                    old(self).frame_no,
                )
            } else {
                final(self)@ == old(self)@
            },
    {
        if idx >= self.wins.len() {
            return;
        }
        self.forward_event(idx, sx, sy, GfxEvt { kind: BUTTON, p0: 0, p1: if pressed { 1 } else { 0 }, p2: 0 });
    }

    /// Tells a window where the mouse is, and then of an event there.
    fn forward_event(&mut self, idx: usize, sx: i32, sy: i32, e: GfxEvt)
        requires
            old(self).wf(),
            0 <= sx,
            0 <= sy,
            idx < old(self).wins@.len(),
        ensures
            final(self).wf(),
            final(self).same_rest(old(self)),
            desk_told(
                old(self)@,
                final(self)@,
                idx as int,
                sx as int,
                sy as int,
                seq![e],
                old(self).frame_no,
            ),
    {
        let ghost before = self.wins@[idx as int];
        self.forward_mouse_move(idx, sx, sy);
        let ghost mid = self.wins@[idx as int];
        self.wins[idx].push_event(e);
        proof {
            let after = self.wins@[idx as int];
            let n = before.state.events@.len() as int;
            assert(mid.state.events@.subrange(0, n) == before.state.events@);
            assert(after.state.events@.subrange(0, n) =~= mid.state.events@.subrange(0, n));
            assert(after.state.events@[n] == mid.state.events@[n]);
            assert(after.state.events@.subrange(n + 1, n + 2) =~= seq![e]);
        }
    }

    /// A press of the left button at a point of the screen.
    pub fn on_left_down(&mut self, px: i32, py: i32)
        requires
            old(self).wf(),
            0 <= px,
            0 <= py,
        ensures
            final(self).wf(),
            final(self).same_rest(old(self)),
            left_down(old(self)@, final(self)@, px as int, py as int, old(self).frame_no),
    {
        proof {
            lemma_search_bounds(self.wins@, px as int, py as int);
        }
        if let Some(i) = self.window_at(px, py) {
            let top: usize = self.raise(i);
            self.set_focus(top);
            self.forward_left_button(top, px, py, true);
        } else if let Some(b) = self.bg_index() {
            self.forward_left_button(b, px, py, true);
        }
    }

    /// Routes an input event. `(cx, cy)` is where the cursor is, `btn_l` whether the left
    /// button was down; the result tells whether it is down now. A button is acted upon only
    /// when it changes. A release ends a drag. While a window is dragged no window is told of
    /// moves.
    pub fn on_event(&mut self, ev: GfxEvt, cx: i32, cy: i32, btn_l: bool, geom: (u32, u32)) -> (r: bool)
        requires
            old(self).wf(),
            0 <= cx,
            0 <= cy,
            geom.0 <= i32::MAX,
            geom.1 <= i32::MAX,
        ensures
            final(self).wf(),
            final(self).free_ids@ == old(self).free_ids@,
            final(self).next_id == old(self).next_id,
            final(self).frame_no == old(self).frame_no,
            r == if ev.kind == BUTTON && ev.p0 == 0 {
                ev.p1 != 0
            } else {
                btn_l
            },
            final(self).drag == if ev.kind == BUTTON && ev.p0 == 0 && ev.p1 == 0 && btn_l {
                None
            } else {
                old(self).drag
            },
            if ev.kind == MOVE {
                match old(self).drag {
                    Some(d) => match with_id(old(self).wins@, d.win_id) {
                        None => final(self)@ == old(self)@,
                        Some(i) => {
                            let w = old(self).wins@[i];
                            let to = crate::wt::wm::dragged_to(w, geom, (cx, cy), (d.grab_dx, d.grab_dy));
                            final(self)@ == (Desk {
                                wins: old(self).wins@.update(
                                    i,
                                    Window { rect: to, last_active_frame: old(self).frame_no, ..w },
                                ),
                                dirty: old(self).dirty || to.0 != w.rect.0 || to.1 != w.rect.1,
                                ..old(self)@
                            })
                        },
                    },
                    None => match under(old(self).wins@, cx as int, cy as int) {
                        Some(i) => desk_told(
                            old(self)@,
                            final(self)@,
                            i,
                            cx as int,
                            cy as int,
                            Seq::empty(),
                            old(self).frame_no,
                        ),
                        None => final(self)@ == old(self)@,
                    },
                }
            } else if ev.kind == BUTTON && ev.p0 == 0 && ev.p1 != 0 && !btn_l {
                left_down(old(self)@, final(self)@, cx as int, cy as int, old(self).frame_no)
            } else if ev.kind == BUTTON && ev.p0 == 0 && ev.p1 == 0 && btn_l {
                left_up(old(self)@, final(self)@, old(self).drag, cx as int, cy as int, old(self).frame_no)
            } else if ev.kind == KEY && old(self).wins@.len() > 0 {
                &&& only(old(self)@, final(self)@, old(self).focused as int)
                &&& queued(
                    old(self).wins@[old(self).focused as int],
                    final(self).wins@[old(self).focused as int],
                    ev,
                )
            } else if ev.kind == WHEEL && under(old(self).wins@, cx as int, cy as int) is Some {
                desk_told(
                    old(self)@,
                    final(self)@,
                    under(old(self).wins@, cx as int, cy as int)->0,
                    cx as int,
                    cy as int,
                    seq![ev],
                    old(self).frame_no,
                )
            } else {
                final(self)@ == old(self)@
            },
    {
        proof {
            lemma_search_bounds(self.wins@, cx as int, cy as int);
        }
        if ev.kind == MOVE {
            match self.drag {
                Some(d) => {
                    self.drag_to(d.win_id, cx, cy, (d.grab_dx, d.grab_dy), geom);
                },
                None => {
                    if let Some(i) = self.window_at(cx, cy) {
                        self.forward_mouse_move(i, cx, cy);
                    } else if let Some(b) = self.bg_index() {
                        self.forward_mouse_move(b, cx, cy);
                    }
                },
            }
            btn_l
        } else if ev.kind == BUTTON {
            if ev.p0 != 0 {
                return btn_l;
            }
            let pressed: bool = ev.p1 != 0;
            if pressed && !btn_l {
                self.on_left_down(cx, cy);
            } else if !pressed && btn_l {
                let drag = self.drag;
                self.drag = None;
                let target: Option<usize> = match drag {
                    Some(d) => self.index_of(d.win_id),
                    None => {
                        match self.window_at(cx, cy) {
                            Some(_) => Some(self.focused),
                            None => match self.bg_index() {
                                Some(b) => Some(b),
                                None => Some(self.focused),
                            },
                        }
                    },
                };
                if let Some(i) = target {
                    self.forward_left_button(i, cx, cy, false);
                }
            }
            pressed
        } else if ev.kind == KEY {
            if self.focused < self.wins.len() {
                let f: usize = self.focused;
                self.wins[f].push_event(ev);
            }
            btn_l
        } else if ev.kind == WHEEL {
            let target: Option<usize> = match self.window_at(cx, cy) {
                Some(i) => Some(i),
                None => self.bg_index(),
            };
            if let Some(i) = target {
                self.forward_event(i, cx, cy, ev);
            }
            btn_l
        } else {
            btn_l
        }
    }
}

/// A key reaches the window in focus and no other.
pub proof fn key_reaches_the_focus_alone(before: Desk, after: Desk, ev: GfxEvt, i: int)
    requires
        before.focus_ok(),
        only(before, after, before.focused),
        queued(before.wins[before.focused], after.wins[before.focused], ev),
        0 <= i < before.wins.len(),
        !before.wins[i].focused,
    ensures
        after.wins[i] == before.wins[i],
{
}

} // verus!
