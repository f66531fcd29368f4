//! What the compositor does once per frame besides running programs: answering the requests
//! that they left, listing the windows for the taskbar, and choosing what is composed.

use vstd::prelude::*;
use crate::wt::window::WmState;
use crate::wt::wm::{background, first_is_first, is_bg, Compositor, Desk, DragState, Window, MAX_WINS, WARMUP_FRAMES};

verus! {

/// A window to compose: which one, where, at which size, and whether it casts a shadow.
#[derive(Clone, Copy, PartialEq, Eq, Structural, Debug)]
pub struct Layer {
    pub win: usize,
    pub x: u32,
    pub y: u32,
    pub w: u32,
    pub h: u32,
    pub shadow: bool,
}

/// A window as the taskbar lists it.
pub struct TaskEntry {
    pub id: u32,
    /// Bit 0: minimized. Bit 1: in focus.
    pub flags: u32,
    pub title: String,
}

/// The windows above the background among the first `n`: those with a surface that are not
/// hidden, from bottom to top.
pub open spec fn layers_above(wins: Seq<Window>, n: int) -> Seq<Layer>
    decreases n,
{
    if n <= 0 {
        Seq::empty()
    } else {
        let w = wins[n - 1];
        let below = layers_above(wins, n - 1);
        if background(wins) == Some(n - 1) || w.minimized || w.state.pixels@.len() == 0 {
            below
        } else {
            below.push(
                Layer {
                    win: (n - 1) as usize,
                    x: w.rect.0,
                    y: w.rect.1,
                    w: w.state.win_w,
                    h: w.state.win_h,
                    shadow: true,
                },
            )
        }
    }
}

/// Everything to compose, from bottom to top: the background first, at the origin and
/// without a shadow.
pub open spec fn layers(wins: Seq<Window>) -> Seq<Layer> {
    let above = layers_above(wins, wins.len() as int);
    match background(wins) {
        Some(b) => if wins[b].state.pixels@.len() > 0 {
            seq![
                Layer {
                    win: b as usize,
                    x: 0,
                    y: 0,
                    w: wins[b].state.win_w,
                    h: wins[b].state.win_h,
                    shadow: false,
                },
            ] + above
        } else {
            above
        },
        None => above,
    }
}

/// The first entries of a list, as many as can be composed.
pub open spec fn capped(s: Seq<Layer>) -> Seq<Layer> {
    if s.len() > MAX_WINS { s.take(MAX_WINS as int) } else { s }
}

/// The windows with the background filling the screen.
pub open spec fn pinned(wins: Seq<Window>, geom: (u32, u32)) -> Seq<Window> {
    match background(wins) {
        Some(b) => wins.update(b, Window { rect: (0, 0, geom.0, geom.1), ..wins[b] }),
        None => wins,
    }
}

/// A window whose request to be the background was answered.
pub open spec fn bg_answered(w: Window) -> Window {
    Window { bg: w.bg || w.state.bg_request, state: WmState { bg_request: false, ..w.state }, ..w }
}

/// A window whose request to be moved was answered.
pub open spec fn move_answered(w: Window) -> Window {
    Window { state: WmState { move_requested: false, ..w.state }, ..w }
}

/// Whether one of the first `n` windows asked to be the background.
pub open spec fn any_bg_request(wins: Seq<Window>, n: int) -> bool {
    exists|i: int| 0 <= i < n && (#[trigger] wins[i]).state.bg_request
}

/// The drag that the requests of the first `n` windows lead to: that of the last window that
/// asked and is not the background.
pub open spec fn drag_after(wins: Seq<Window>, n: int, drag: Option<DragState>, cx: int, cy: int) -> Option<DragState>
    decreases n,
{
    if n <= 0 {
        drag
    } else if wins[n - 1].state.move_requested && !wins[n - 1].bg {
        Some(
            DragState {
                win_id: wins[n - 1].id,
                grab_dx: (cx - wins[n - 1].rect.0) as i32,
                grab_dy: (cy - wins[n - 1].rect.1) as i32,
            },
        )
    } else {
        drag_after(wins, n - 1, drag, cx, cy)
    }
}

/// A window without its request to be hidden, and hidden where `hide`.
pub open spec fn hidden_window(w: Window, hide: bool) -> Window {
    Window {
        minimized: hide || w.minimized,
        state: WmState { minimize_request: false, ..w.state },
        ..w
    }
}

/// The window at `i` without its request to be hidden, and hidden where `hide`.
pub open spec fn hidden(d: Desk, i: int, hide: bool) -> Desk {
    Desk { wins: d.wins.update(i, hidden_window(d.wins[i], hide)), dirty: d.dirty || hide, ..d }
}

/// The window at `i` hidden, where it asked for it and is not the background; the focus
/// leaves it then.
pub open spec fn minimize_answered(d: Desk, i: int) -> Desk {
    let w = d.wins[i];
    if !w.state.minimize_request {
        d
    } else if !w.bg && d.focused == i {
        hidden(d, i, true).focus_visible()
    } else {
        hidden(d, i, !w.bg)
    }
}

/// The window at `i` maximized or restored, where it asked for it.
pub open spec fn maximize_answered(d: Desk, i: int, geom: (u32, u32), frame: u32) -> Desk {
    let w = d.wins[i];
    let w1 = Window { state: WmState { maximize_request: false, ..w.state }, ..w };
    if !w.state.maximize_request {
        d
    } else {
        (Desk { wins: d.wins.update(i, w1), ..d }).maximize_toggled(i, geom, frame)
    }
}

/// The desk after the control requests of the first `n` windows were answered, in order.
pub open spec fn controls_answered(d: Desk, n: int, geom: (u32, u32), frame: u32) -> Desk
    decreases n,
{
    if n <= 0 {
        d
    } else {
        let before = controls_answered(d, n - 1, geom, frame);
        maximize_answered(minimize_answered(before, n - 1), n - 1, geom, frame)
    }
}

/// The ids that the first `n` windows ask to activate, in order.
pub open spec fn activations(wins: Seq<Window>, n: int) -> Seq<u32>
    decreases n,
{
    if n <= 0 {
        Seq::empty()
    } else {
        activations(wins, n - 1) + wins[n - 1].state.activate_request@
    }
}

/// The names that the first `n` windows ask to launch, in order.
pub open spec fn launches(wins: Seq<Window>, n: int) -> Seq<String>
    decreases n,
{
    if n <= 0 {
        Seq::empty()
    } else {
        launches(wins, n - 1) + wins[n - 1].state.spawn_request@
    }
}

/// The desk after the windows `ids` were activated, in order.
pub open spec fn all_activated(d: Desk, ids: Seq<u32>, frame: u32) -> Desk
    decreases ids.len(),
{
    if ids.len() == 0 {
        d
    } else {
        all_activated(d, ids.drop_last(), frame).activated(ids.last(), frame)
    }
}

/// How many windows the taskbar lists among the first `n`.
pub open spec fn listed(wins: Seq<Window>, n: int) -> nat
    decreases n,
{
    if n <= 0 {
        0
    } else {
        listed(wins, n - 1) + if wins[n - 1].bg { 0nat } else { 1nat }
    }
}

/// Whether `snap` lists the windows but the background, in stacking order.
pub open spec fn is_snapshot(snap: Seq<TaskEntry>, d: Desk) -> bool {
    &&& snap.len() == listed(d.wins, d.wins.len() as int)
    &&& forall|i: int|
        0 <= i < d.wins.len() && !(#[trigger] d.wins[i]).bg ==> {
            let e = snap[listed(d.wins, i) as int];
            &&& e.id == d.wins[i].id
            &&& e.title@ == d.wins[i].title@
            &&& e.flags == (if d.wins[i].minimized { 1int } else { 0 }) + (if i == d.focused { 2int } else { 0 })
        }
}

impl Window {
    fn answer_bg(&mut self)
        ensures
            *final(self) == bg_answered(*old(self)),
    {
        if self.state.bg_request {
            self.state.bg_request = false;
            self.bg = true;
        }
    }

    fn answer_move(&mut self)
        ensures
            *final(self) == move_answered(*old(self)),
    {
        self.state.move_requested = false;
    }

    fn answer_minimize(&mut self, hide: bool)
        ensures
            *final(self) == (Window {
                minimized: hide || old(self).minimized,
                state: WmState { minimize_request: false, ..old(self).state },
                ..*old(self)
            }),
    {
        self.state.minimize_request = false;
        if hide {
            self.minimized = true;
        }
    }

    fn answer_maximize(&mut self)
        ensures
            *final(self) == (Window {
                state: WmState { maximize_request: false, ..old(self).state },
                ..*old(self)
            }),
    {
        self.state.maximize_request = false;
    }

    fn fill(&mut self, w: u32, h: u32)
        ensures
            *final(self) == (Window { rect: (0, 0, w, h), ..*old(self) }),
    {
        self.rect = (0, 0, w, h);
    }

    fn take_activation(&mut self) -> (r: Option<u32>)
        ensures
            *final(self) == (Window {
                state: WmState { activate_request: final(self).state.activate_request, ..old(self).state },
                ..*old(self)
            }),
            match r {
                None => old(self).state.activate_request@.len() == 0 && final(self).state.activate_request@ == old(
                    self,
                ).state.activate_request@,
                Some(id) => old(self).state.activate_request@ == seq![id] + final(self).state.activate_request@,
            },
    {
        let ghost q = self.state.activate_request@;
        let r = self.state.activate_request.pop_front();
        proof {
            if r is Some {
                assert(q =~= seq![r->0] + self.state.activate_request@);
            }
        }
        r
    }

    fn take_launch(&mut self) -> (r: Option<String>)
        ensures
            *final(self) == (Window {
                state: WmState { spawn_request: final(self).state.spawn_request, ..old(self).state },
                ..*old(self)
            }),
            match r {
                None => old(self).state.spawn_request@.len() == 0 && final(self).state.spawn_request@ == old(
                    self,
                ).state.spawn_request@,
                Some(s) => old(self).state.spawn_request@ == seq![s] + final(self).state.spawn_request@,
            },
    {
        let ghost q = self.state.spawn_request@;
        let r = self.state.spawn_request.pop_front();
        proof {
            if r is Some {
                assert(q =~= seq![r->0] + self.state.spawn_request@);
            }
        }
        r
    }
}

impl Compositor {
    /// Starts the next frame.
    pub fn next_frame(&mut self)
        ensures
            final(self).frame_no == (if old(self).frame_no == u32::MAX { 0int } else { old(self).frame_no + 1 }),
            final(self)@ == old(self)@,
            final(self).drag == old(self).drag,
            final(self).free_ids == old(self).free_ids,
            final(self).next_id == old(self).next_id,
    {
        self.frame_no = if self.frame_no == u32::MAX { 0 } else { self.frame_no + 1 };
    }

    /// Lists what to compose, with the background made to fill the screen. Nothing is
    /// composed on a screen without pixels.
    pub fn present(&mut self, geom: (u32, u32)) -> (r: Option<Vec<Layer>>)
        requires
            old(self).wf(),
        ensures
            final(self).wf(),
            final(self).same_rest(old(self)),
            final(self).focused == old(self).focused,
            final(self).dirty == old(self).dirty,
            if geom.0 == 0 || geom.1 == 0 {
                r is None && final(self).wins@ == old(self).wins@
            } else {
                &&& final(self).wins@ == pinned(old(self).wins@, geom)
                &&& r is Some
                &&& r->0@ == capped(layers(final(self).wins@))
            },
    {
        if geom.0 == 0 || geom.1 == 0 {
            return None;
        }
        proof {
            first_is_first(self.wins@, 0, is_bg());
        }
        let bg = self.bg_index();
        if let Some(b) = bg {
            self.wins[b].fill(geom.0, geom.1);
            proof {
                let w = Window { rect: (0, 0, geom.0, geom.1), ..old(self).wins@[b as int] };
                assert(self.wins@ =~= old(self).wins@.update(b as int, w));
                lemma_background_kept(old(self).wins@, b as int, w);
            }
        }
        assert(self.wins@ == pinned(old(self).wins@, geom));
        let mut out: Vec<Layer> = Vec::new();
        if let Some(b) = bg {
            if self.wins[b].state.pixels.len() > 0 {
                out.push(
                    Layer {
                        win: b,
                        x: 0,
                        y: 0,
                        w: self.wins[b].state.win_w,
                        h: self.wins[b].state.win_h,
                        shadow: false,
                    },
                );
            }
        }
        let ghost first = out@;
        let mut i: usize = 0;
        assert(out@ =~= first + layers_above(self.wins@, 0));
        while i < self.wins.len()
            invariant
                i <= self.wins@.len(),
                match bg {
                    Some(b) => background(self.wins@) == Some(b as int),
                    None => background(self.wins@) is None,
                },
                out@ == first + layers_above(self.wins@, i as int),
            decreases self.wins@.len() - i,
        {
            let is_bg: bool = match bg {
                Some(b) => b == i,
                None => false,
            };
            let w = &self.wins[i];
            if !is_bg && !w.minimized && w.state.pixels.len() > 0 {
                out.push(
                    Layer {
                        win: i,
                        x: w.rect.0,
                        y: w.rect.1,
                        w: w.state.win_w,
                        h: w.state.win_h,
                        shadow: true,
                    },
                );
            }
            i += 1;
            assert(out@ =~= first + layers_above(self.wins@, i as int));
        }
        assert(out@ =~= layers(self.wins@));
        if out.len() > MAX_WINS {
            out.truncate(MAX_WINS);
            assert(out@ =~= layers(self.wins@).take(MAX_WINS as int));
        }
        Some(out)
    }

    /// Whether this frame is composed at all: something changed, a program drew, or the
    /// compositor is just starting.
    pub fn needs_present(&self) -> (r: bool)
        ensures
            r == (self.dirty || self.frame_no < WARMUP_FRAMES || exists|i: int|
                0 <= i < self.wins@.len() && (#[trigger] self.wins@[i]).state.committed),
    {
        if self.dirty || self.frame_no < WARMUP_FRAMES {
            return true;
        }
        let mut i: usize = 0;
        while i < self.wins.len()
            invariant
                i <= self.wins@.len(),
                forall|j: int| 0 <= j < i ==> !(#[trigger] self.wins@[j]).state.committed,
            decreases self.wins@.len() - i,
        {
            if self.wins[i].state.committed {
                return true;
            }
            i += 1;
        }
        false
    }

    /// Makes every window the background that asked for it.
    pub fn answer_backgrounds(&mut self)
        requires
            old(self).wf(),
        ensures
            final(self).wf(),
            final(self).same_rest(old(self)),
            final(self).focused == old(self).focused,
            final(self).dirty == (old(self).dirty || any_bg_request(old(self).wins@, old(self).wins@.len() as int)),
            final(self).wins@ == Seq::new(old(self).wins@.len(), |i: int| bg_answered(old(self).wins@[i])),
    {
        let ghost wins = self.wins@;
        let mut i: usize = 0;
        while i < self.wins.len()
            invariant
                i <= self.wins@.len(),
                self.wins@.len() == wins.len(),
                forall|j: int| 0 <= j < i ==> #[trigger] self.wins@[j] == bg_answered(wins[j]),
                forall|j: int| i <= j < wins.len() ==> #[trigger] self.wins@[j] == wins[j],
                self.focused == old(self).focused,
                self.dirty == (old(self).dirty || any_bg_request(wins, i as int)),
                self.same_rest(old(self)),
            decreases self.wins@.len() - i,
        {
            let asked: bool = self.wins[i].state.bg_request;
            if asked {
                self.dirty = true;
            }
            self.wins[i].answer_bg();
            i += 1;
            proof {
                assert(wins[i - 1].state.bg_request == asked);
                if any_bg_request(wins, i - 1) {
                    let k = choose|k: int| 0 <= k < i - 1 && (#[trigger] wins[k]).state.bg_request;
                    assert(wins[k].state.bg_request);
                }
                assert(any_bg_request(wins, i as int) == (any_bg_request(wins, i - 1) || asked));
            }
        }
        assert(self.wins@ =~= Seq::new(wins.len(), |i: int| bg_answered(wins[i])));
    }

    fn answer_move_at(&mut self, i: usize, cx: i32, cy: i32)
        requires
            i < old(self).wins@.len(),
            old(self).wins@[i as int].rect.0 <= i32::MAX,
            old(self).wins@[i as int].rect.1 <= i32::MAX,
            0 <= cx,
            0 <= cy,
        ensures
            final(self).wins@ == old(self).wins@.update(i as int, move_answered(old(self).wins@[i as int])),
            final(self).focused == old(self).focused,
            final(self).dirty == old(self).dirty,
            final(self).free_ids@ == old(self).free_ids@,
            final(self).next_id == old(self).next_id,
            final(self).frame_no == old(self).frame_no,
            final(self).drag == {
                let w = old(self).wins@[i as int];
                if w.state.move_requested && !w.bg {
                    Some(
                        DragState {
                            win_id: w.id,
                            grab_dx: (cx - w.rect.0) as i32,
                            grab_dy: (cy - w.rect.1) as i32,
                        },
                    )
                } else {
                    old(self).drag
                }
            },
    {
        if self.wins[i].state.move_requested && !self.wins[i].bg {
            let rect: (u32, u32, u32, u32) = self.wins[i].rect;
            self.drag = Some(
                DragState {
                    win_id: self.wins[i].id,
                    grab_dx: cx - rect.0 as i32,
                    grab_dy: cy - rect.1 as i32,
                },
            );
        }
        self.wins[i].answer_move();
        assert(self.wins@ =~= old(self).wins@.update(i as int, move_answered(old(self).wins@[i as int])));
    }

    /// Starts a drag of the last window that asked for one and is not the background.
    pub fn answer_moves(&mut self, cx: i32, cy: i32)
        requires
            old(self).wf(),
            0 <= cx,
            0 <= cy,
        ensures
            final(self).wf(),
            final(self).focused == old(self).focused,
            final(self).dirty == old(self).dirty,
            final(self).free_ids@ == old(self).free_ids@,
            final(self).next_id == old(self).next_id,
            final(self).frame_no == old(self).frame_no,
            final(self).drag == drag_after(
                old(self).wins@,
                old(self).wins@.len() as int,
                old(self).drag,
                cx as int,
                cy as int,
            ),
            final(self).wins@ == Seq::new(old(self).wins@.len(), |i: int| move_answered(old(self).wins@[i])),
    {
        let ghost wins = self.wins@;
        let mut i: usize = 0;
        while i < self.wins.len()
            invariant
                i <= self.wins@.len(),
                self.wins@.len() == wins.len(),
                0 <= cx,
                0 <= cy,
                crate::wt::wm::placed(wins),
                forall|j: int| 0 <= j < i ==> #[trigger] self.wins@[j] == move_answered(wins[j]),
                forall|j: int| i <= j < wins.len() ==> #[trigger] self.wins@[j] == wins[j],
                self.focused == old(self).focused,
                self.dirty == old(self).dirty,
                self.free_ids@ == old(self).free_ids@,
                self.next_id == old(self).next_id,
                self.frame_no == old(self).frame_no,
                self.drag == drag_after(wins, i as int, old(self).drag, cx as int, cy as int),
            decreases self.wins@.len() - i,
        {
            assert(self.wins@[i as int] == wins[i as int]);
            self.answer_move_at(i, cx, cy);
            i += 1;
        }
        assert(self.wins@ =~= Seq::new(wins.len(), |i: int| move_answered(wins[i])));
    }

    /// Hides, maximizes and restores the windows that asked for it, one after the other.
    pub fn answer_controls(&mut self, geom: (u32, u32))
        requires
            old(self).wf(),
        ensures
            final(self).wf(),
            final(self).same_rest(old(self)),
            final(self)@ == controls_answered(old(self)@, old(self).wins@.len() as int, geom, old(self).frame_no),
    {
        let ghost start = self@;
        let ghost frame = self.frame_no;
        let n: usize = self.wins.len();
        let mut i: usize = 0;
        while i < n
            invariant
                i <= n,
                n == self.wins@.len(),
                n == start.wins.len(),
                self.wf(),
                self.same_rest(old(self)),
                frame == old(self).frame_no,
                self@ == controls_answered(start, i as int, geom, frame),
            decreases n - i,
        {
            let ghost d0 = self@;
            self.answer_minimize_at(i);
            let ghost d1 = self@;
            self.answer_maximize_at(i, geom);
            i += 1;
            assert(self@ == maximize_answered(minimize_answered(d0, i - 1), i - 1, geom, frame));
        }
    }

    /// Takes the request to be hidden from the window at `i`, and hides it where `hide`.
    fn hide_at(&mut self, i: usize, hide: bool)
        requires
            old(self).wf(),
            i < old(self).wins@.len(),
        ensures
            final(self).wf(),
            final(self).same_rest(old(self)),
            final(self)@ == hidden(old(self)@, i as int, hide),
    {
        self.wins[i].answer_minimize(hide);
        if hide {
            self.dirty = true;
        }
        let ghost w = hidden_window(old(self).wins@[i as int], hide);
        assert(self.wins@ =~= old(self).wins@.update(i as int, w));
    }

    fn answer_minimize_at(&mut self, i: usize)
        requires
            old(self).wf(),
            i < old(self).wins@.len(),
        ensures
            final(self).wf(),
            final(self).same_rest(old(self)),
            final(self).wins@.len() == old(self).wins@.len(),
            final(self)@ == minimize_answered(old(self)@, i as int),
    {
        if !self.wins[i].state.minimize_request {
            return;
        }
        let hide: bool = !self.wins[i].bg;
        self.hide_at(i, hide);
        if hide && self.focused == i {
            self.focus_topmost_visible();
        }
    }

    fn answer_maximize_at(&mut self, i: usize, geom: (u32, u32))
        requires
            old(self).wf(),
            i < old(self).wins@.len(),
        ensures
            final(self).wf(),
            final(self).same_rest(old(self)),
            final(self).wins@.len() == old(self).wins@.len(),
            final(self)@ == maximize_answered(old(self)@, i as int, geom, old(self).frame_no),
    {
        if !self.wins[i].state.maximize_request {
            return;
        }
        self.wins[i].answer_maximize();
        let ghost w = self.wins@[i as int];
        assert(self.wins@ =~= old(self).wins@.update(i as int, w));
        self.toggle_maximize(i, geom);
    }
}

/// `after` is `before` with the list of programs to launch empty.
pub open spec fn launches_taken(before: Window, after: Window) -> bool {
    &&& after.state.spawn_request@.len() == 0
    &&& after == (Window {
        state: WmState { spawn_request: after.state.spawn_request, ..before.state },
        ..before
    })
}

/// `after` is `before` with the list of windows to activate empty.
pub open spec fn activations_taken(before: Window, after: Window) -> bool {
    &&& after.state.activate_request@.len() == 0
    &&& after == (Window {
        state: WmState { activate_request: after.state.activate_request, ..before.state },
        ..before
    })
}

impl Compositor {
    /// Takes the names of the programs that windows asked to launch, in order.
    pub fn take_launches(&mut self) -> (r: Vec<String>)
        requires
            old(self).wf(),
        ensures
            final(self).wf(),
            final(self).same_rest(old(self)),
            final(self).focused == old(self).focused,
            final(self).dirty == old(self).dirty,
            final(self).wins@.len() == old(self).wins@.len(),
            forall|i: int|
                0 <= i < old(self).wins@.len() ==> launches_taken(
                    old(self).wins@[i],
                    #[trigger] final(self).wins@[i],
                ),
            r@ == launches(old(self).wins@, old(self).wins@.len() as int),
    {
        let ghost wins = self.wins@;
        let mut out: Vec<String> = Vec::new();
        let mut i: usize = 0;
        while i < self.wins.len()
            invariant
                i <= self.wins@.len(),
                self.wins@.len() == wins.len(),
                forall|j: int| 0 <= j < i ==> launches_taken(wins[j], #[trigger] self.wins@[j]),
                forall|j: int| i <= j < wins.len() ==> #[trigger] self.wins@[j] == wins[j],
                self.focused == old(self).focused,
                self.dirty == old(self).dirty,
                self.same_rest(old(self)),
                out@ == launches(wins, i as int),
            decreases self.wins@.len() - i,
        {
            let ghost done = out@;
            let mut more: bool = true;
            while more
                invariant
                    i < self.wins@.len(),
                    self.wins@.len() == wins.len(),
                    forall|j: int| 0 <= j < i ==> launches_taken(wins[j], #[trigger] self.wins@[j]),
                    forall|j: int| i < j < wins.len() ==> #[trigger] self.wins@[j] == wins[j],
                    self.wins@[i as int] == (Window {
                        state: WmState {
                            spawn_request: self.wins@[i as int].state.spawn_request,
                            ..wins[i as int].state
                        },
                        ..wins[i as int]
                    }),
                    self.focused == old(self).focused,
                    self.dirty == old(self).dirty,
                    self.same_rest(old(self)),
                    out@ + self.wins@[i as int].state.spawn_request@ == done + wins[i as int].state.spawn_request@,
                    !more ==> self.wins@[i as int].state.spawn_request@.len() == 0,
                decreases self.wins@[i as int].state.spawn_request@.len() + (if more { 1int } else { 0 }),
            {
                let ghost q = self.wins@[i as int].state.spawn_request@;
                let ghost o = out@;
                match self.wins[i].take_launch() {
                    Some(name) => {
                        out.push(name);
                        assert(o + q =~= out@ + self.wins@[i as int].state.spawn_request@);
                    },
                    None => {
                        more = false;
                    },
                }
            }
            assert(out@ + self.wins@[i as int].state.spawn_request@ =~= out@);
            i += 1;
        }
        out
    }

    /// Takes the ids of the windows that windows asked to activate, in order.
    pub fn take_activations(&mut self) -> (r: Vec<u32>)
        requires
            old(self).wf(),
        ensures
            final(self).wf(),
            final(self).same_rest(old(self)),
            final(self).focused == old(self).focused,
            final(self).dirty == old(self).dirty,
            final(self).wins@.len() == old(self).wins@.len(),
            forall|i: int|
                0 <= i < old(self).wins@.len() ==> activations_taken(
                    old(self).wins@[i],
                    #[trigger] final(self).wins@[i],
                ),
            r@ == activations(old(self).wins@, old(self).wins@.len() as int),
    {
        let ghost wins = self.wins@;
        let mut out: Vec<u32> = Vec::new();
        let mut i: usize = 0;
        while i < self.wins.len()
            invariant
                i <= self.wins@.len(),
                self.wins@.len() == wins.len(),
                forall|j: int| 0 <= j < i ==> activations_taken(wins[j], #[trigger] self.wins@[j]),
                forall|j: int| i <= j < wins.len() ==> #[trigger] self.wins@[j] == wins[j],
                self.focused == old(self).focused,
                self.dirty == old(self).dirty,
                self.same_rest(old(self)),
                out@ == activations(wins, i as int),
            decreases self.wins@.len() - i,
        {
            let ghost done = out@;
            let mut more: bool = true;
            while more
                invariant
                    i < self.wins@.len(),
                    self.wins@.len() == wins.len(),
                    forall|j: int| 0 <= j < i ==> activations_taken(wins[j], #[trigger] self.wins@[j]),
                    forall|j: int| i < j < wins.len() ==> #[trigger] self.wins@[j] == wins[j],
                    self.wins@[i as int] == (Window {
                        state: WmState {
                            activate_request: self.wins@[i as int].state.activate_request,
                            ..wins[i as int].state
                        },
                        ..wins[i as int]
                    }),
                    self.focused == old(self).focused,
                    self.dirty == old(self).dirty,
                    self.same_rest(old(self)),
                    out@ + self.wins@[i as int].state.activate_request@ == done
                        + wins[i as int].state.activate_request@,
                    !more ==> self.wins@[i as int].state.activate_request@.len() == 0,
                decreases self.wins@[i as int].state.activate_request@.len() + (if more { 1int } else { 0 }),
            {
                let ghost q = self.wins@[i as int].state.activate_request@;
                let ghost o = out@;
                match self.wins[i].take_activation() {
                    Some(id) => {
                        out.push(id);
                        assert(o + q =~= out@ + self.wins@[i as int].state.activate_request@);
                    },
                    None => {
                        more = false;
                    },
                }
            }
            assert(out@ + self.wins@[i as int].state.activate_request@ =~= out@);
            i += 1;
        }
        out
    }

    /// Activates windows by id, one after the other.
    pub fn activate_all(&mut self, ids: &[u32])
        requires
            old(self).wf(),
        ensures
            final(self).wf(),
            final(self).same_rest(old(self)),
            final(self)@ == all_activated(old(self)@, ids@, old(self).frame_no),
    {
        let ghost start = self@;
        let mut i: usize = 0;
        while i < ids.len()
            invariant
                i <= ids@.len(),
                self.wf(),
                self.same_rest(old(self)),
                self@ == all_activated(start, ids@.take(i as int), old(self).frame_no),
            decreases ids@.len() - i,
        {
            self.activate(ids[i]);
            i += 1;
            assert(ids@.take(i as int).drop_last() =~= ids@.take(i - 1));
        }
        assert(ids@.take(i as int) =~= ids@);
    }

    /// Lists the windows for the taskbar.
    pub fn snapshot(&self) -> (r: Vec<TaskEntry>)
        ensures
            is_snapshot(r@, self@),
    {
        let mut out: Vec<TaskEntry> = Vec::new();
        let mut i: usize = 0;
        while i < self.wins.len()
            invariant
                i <= self.wins@.len(),
                out@.len() == listed(self.wins@, i as int),
                forall|k: int|
                    0 <= k < i && !(#[trigger] self.wins@[k]).bg ==> {
                        let e = out@[listed(self.wins@, k) as int];
                        &&& listed(self.wins@, k) < out@.len()
                        &&& e.id == self.wins@[k].id
                        &&& e.title@ == self.wins@[k].title@
                        &&& e.flags == (if self.wins@[k].minimized { 1int } else { 0 }) + (if k == self.focused {
                            2int
                        } else {
                            0
                        })
                    },
            decreases self.wins@.len() - i,
        {
            let w = &self.wins[i];
            if !w.bg {
                let minimized: u32 = if w.minimized { 1 } else { 0 };
                let in_focus: u32 = if i == self.focused { 2 } else { 0 };
                out.push(TaskEntry { id: w.id, flags: minimized + in_focus, title: w.title.clone() });
            }
            i += 1;
        }
        out
    }
}

proof fn lemma_background_kept(wins: Seq<Window>, b: int, w: Window)
    requires
        background(wins) == Some(b),
        0 <= b < wins.len(),
        w.bg,
    ensures
        background(wins.update(b, w)) == Some(b),
{
    first_is_first(wins, 0, is_bg());
    first_is_first(wins.update(b, w), 0, is_bg());
    let u = wins.update(b, w);
    assert forall|j: int| 0 <= j < b implies !is_bg()(#[trigger] u[j]) by {
        assert(!is_bg()(wins[j]));
    }
    assert(is_bg()(u[b]));
}

} // verus!
