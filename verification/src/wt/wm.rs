//! The compositor: windows in stacking order, focus, and the routing of input.
//!
//! The order of the windows is their stacking order, the last one on top. Exactly one
//! window has the focus as long as there is one. A window can be the background: it
//! lies below all others, fills the screen, and is neither raised, focused, moved nor hit.

use vstd::prelude::*;
use crate::wt::window::WmState;

verus! {

/// How many live windows there may be.
pub const MAX_WINDOWS: usize = 8;

/// Height of the strip at the bottom that new windows keep clear of.
pub const LAUNCHER_H: u32 = 28;

/// Height of the panel at the top that a maximized window keeps clear of.
pub const WORKAREA_TOP: u32 = 32;

/// How many windows are composed at most.
pub const MAX_WINS: usize = 64;

/// How many frames a window stays awake after its last activity.
pub const GRACE_FRAMES: u32 = 6;

/// How many frames are presented in any case at first.
pub const WARMUP_FRAMES: u32 = 90;

/// A window being dragged: which one, and where in it the cursor took hold.
#[derive(Clone, Copy, PartialEq, Eq, Structural, Debug)]
pub struct DragState {
    pub win_id: u32,
    pub grab_dx: i32,
    pub grab_dy: i32,
}

/// A window.
pub struct Window {
    pub id: u32,
    /// Left, top, width and height on the screen.
    pub rect: (u32, u32, u32, u32),
    pub title: String,
    pub focused: bool,
    /// Cleared when the window is to be taken down.
    pub alive: bool,
    pub pid: u32,
    /// Whether the window is the background.
    pub bg: bool,
    pub minimized: bool,
    pub maximized: bool,
    /// The place to return to from the maximized state.
    pub saved_rect: Option<(u32, u32, u32, u32)>,
    /// Whether the size is settled: it is taken from the first surface.
    pub sized: bool,
    /// Whether the program ran in this frame.
    pub awake: bool,
    /// The last frame with activity.
    pub last_active_frame: u32,
    /// Whether the program has drawn a surface.
    pub framed_once: bool,
    /// What the window shares with its program.
    pub state: WmState,
}

/// The windows and what the compositor remembers of them.
pub struct Compositor {
    /// The windows, from bottom to top.
    pub wins: Vec<Window>,
    /// Index of the window with the focus.
    pub focused: usize,
    pub drag: Option<DragState>,
    /// Ids of windows that are gone, for reuse.
    pub free_ids: Vec<u32>,
    /// The lowest id that was never used.
    pub next_id: u32,
    /// Whether the picture changed otherwise than by a new surface.
    pub dirty: bool,
    pub frame_no: u32,
}

/// The windows with their stacking order, the focus, and whether the picture changed.
pub struct Desk {
    pub wins: Seq<Window>,
    pub focused: int,
    pub dirty: bool,
}

/// A 32-bit word read as a signed number.
pub open spec fn signed(v: u32) -> int {
    if v >= 0x8000_0000 { v - 0x1_0000_0000 } else { v as int }
}

fn to_signed(v: u32) -> (r: i64)
    ensures
        r == signed(v),
{
    if v >= 0x8000_0000 { v as i64 - 0x1_0000_0000 } else { v as i64 }
}

/// Whether a point of the screen lies on a window that takes input there.
pub open spec fn hit(w: Window, px: int, py: int) -> bool {
    &&& !w.bg
    &&& !w.minimized
    &&& signed(w.rect.0) <= px < signed(w.rect.0) + signed(w.rect.2)
    &&& signed(w.rect.1) <= py < signed(w.rect.1) + signed(w.rect.3)
}

/// The topmost of the first `n` windows that `p` holds of.
pub open spec fn topmost(wins: Seq<Window>, n: int, p: spec_fn(Window) -> bool) -> Option<int>
    decreases n,
{
    if n <= 0 || n > wins.len() {
        None
    } else if p(wins[n - 1]) {
        Some(n - 1)
    } else {
        topmost(wins, n - 1, p)
    }
}

/// The first window from `i` on that `p` holds of.
pub open spec fn first_from(wins: Seq<Window>, i: int, p: spec_fn(Window) -> bool) -> Option<int>
    decreases wins.len() - i,
{
    if i < 0 || i >= wins.len() {
        None
    } else if p(wins[i]) {
        Some(i)
    } else {
        first_from(wins, i + 1, p)
    }
}

/// Picks the windows that a point hits.
pub open spec fn hit_at(px: int, py: int) -> spec_fn(Window) -> bool {
    |w: Window| hit(w, px, py)
}

/// Picks the background.
pub open spec fn is_bg() -> spec_fn(Window) -> bool {
    |w: Window| w.bg
}

/// Picks the window with an id.
pub open spec fn has_id(id: u32) -> spec_fn(Window) -> bool {
    |w: Window| w.id == id
}

/// Picks the windows that can be seen.
pub open spec fn is_visible() -> spec_fn(Window) -> bool {
    |w: Window| !w.bg && !w.minimized
}

/// The window that takes input at a point: the topmost one there.
pub open spec fn at_point(wins: Seq<Window>, px: int, py: int) -> Option<int> {
    topmost(wins, wins.len() as int, hit_at(px, py))
}

/// The background, if there is one.
pub open spec fn background(wins: Seq<Window>) -> Option<int> {
    first_from(wins, 0, is_bg())
}

/// The window with an id, if there is one.
pub open spec fn with_id(wins: Seq<Window>, id: u32) -> Option<int> {
    first_from(wins, 0, has_id(id))
}

/// What a search from the top finds: a window that `p` holds of, with none above it.
pub proof fn topmost_is_topmost(wins: Seq<Window>, n: int, p: spec_fn(Window) -> bool)
    requires
        0 <= n <= wins.len(),
    ensures
        match topmost(wins, n, p) {
            Some(i) => 0 <= i < n && p(wins[i]) && forall|j: int| i < j < n ==> !p(#[trigger] wins[j]),
            None => forall|j: int| 0 <= j < n ==> !p(#[trigger] wins[j]),
        },
    decreases n,
{
    if n > 0 && !p(wins[n - 1]) {
        topmost_is_topmost(wins, n - 1, p);
    }
}

/// What a search from the bottom finds: a window that `p` holds of, with none below it.
pub proof fn first_is_first(wins: Seq<Window>, i: int, p: spec_fn(Window) -> bool)
    requires
        0 <= i <= wins.len(),
    ensures
        match first_from(wins, i, p) {
            Some(k) => i <= k < wins.len() && p(wins[k]) && forall|j: int| i <= j < k ==> !p(#[trigger] wins[j]),
            None => forall|j: int| i <= j < wins.len() ==> !p(#[trigger] wins[j]),
        },
    decreases wins.len() - i,
{
    if i < wins.len() && !p(wins[i]) {
        first_is_first(wins, i + 1, p);
    }
}

/// The windows with the focus mark on one of them and on no other.
pub open spec fn marked(wins: Seq<Window>, idx: int) -> Seq<Window> {
    Seq::new(wins.len(), |i: int| Window { focused: i == idx, ..wins[i] })
}

impl Desk {
    /// The focus is on a window, and the mark is on that window alone.
    pub open spec fn focus_ok(self) -> bool {
        self.wins.len() > 0 ==> {
            &&& 0 <= self.focused < self.wins.len()
            &&& forall|i: int| 0 <= i < self.wins.len() ==> ((#[trigger] self.wins[i]).focused <==> i == self.focused)
        }
    }

    /// The focus on the window at `idx`; no change where there is none.
    pub open spec fn focus_on(self, idx: int) -> Desk {
        if idx >= self.wins.len() {
            self
        } else {
            Desk { wins: marked(self.wins, idx), focused: idx, ..self }
        }
    }

    /// The window at `idx` on top of the others; the focus stays with its window.
    pub open spec fn raised(self, idx: int) -> Desk {
        if idx >= self.wins.len() - 1 {
            self
        } else {
            Desk {
                wins: self.wins.remove(idx).push(self.wins[idx]),
                focused: if self.focused == idx {
                    self.wins.len() - 1
                } else if self.focused > idx {
                    self.focused - 1
                } else {
                    self.focused
                },
                dirty: true,
            }
        }
    }

    /// The window at `idx` gone. The focus stays with its window; where that is the one
    /// that is gone, it goes to the one above it, or to the topmost one.
    pub open spec fn without(self, idx: int) -> Desk {
        if idx >= self.wins.len() {
            self
        } else {
            let rest = self.wins.remove(idx);
            let f = if self.focused > idx || self.focused >= rest.len() {
                if self.focused == 0 { 0 } else { self.focused - 1 }
            } else {
                self.focused
            };
            if rest.len() == 0 {
                Desk { wins: rest, focused: 0, dirty: true }
            } else {
                Desk { wins: marked(rest, f), focused: f, dirty: true }
            }
        }
    }

    /// The window at `idx` changed to `w`, which is no less than a new picture.
    pub open spec fn changed(self, idx: int, w: Window) -> Desk {
        Desk { wins: self.wins.update(idx, w), dirty: true, ..self }
    }

    /// The focus on the topmost window that can be seen; no change where there is none.
    pub open spec fn focus_visible(self) -> Desk {
        match topmost(self.wins, self.wins.len() as int, is_visible()) {
            Some(i) => self.focus_on(i),
            None => self,
        }
    }

    /// The window at `idx` maximized below the panel, or put back to where it was.
    pub open spec fn maximize_toggled(self, idx: int, geom: (u32, u32), frame: u32) -> Desk {
        if idx >= self.wins.len() || self.wins[idx].bg {
            self
        } else {
            self.changed(idx, toggled(self.wins[idx], geom, frame))
        }
    }

    /// The window with an id shown, on top and in focus; no change where there is none.
    pub open spec fn activated(self, id: u32, frame: u32) -> Desk {
        match with_id(self.wins, id) {
            None => self,
            Some(i) => {
                let shown = self.changed(i, Window { minimized: false, ..self.wins[i] });
                let top = self.wins.len() - 1;
                let d = shown.raised(i).focus_on(top);
                d.changed(top, Window { last_active_frame: frame, ..d.wins[top] })
            },
        }
    }
}

/// The work area: the screen below the panel.
pub open spec fn workarea(geom: (u32, u32)) -> (u32, u32, u32, u32) {
    (0, WORKAREA_TOP, geom.0, if geom.1 < WORKAREA_TOP { 0 } else { (geom.1 - WORKAREA_TOP) as u32 })
}

/// A window maximized, or put back to where it was. The size to draw at follows.
pub open spec fn toggled(w: Window, geom: (u32, u32), frame: u32) -> Window {
    let base = Window { maximized: !w.maximized, sized: true, last_active_frame: frame, ..w };
    if w.maximized {
        match w.saved_rect {
            Some(r) => Window {
                rect: r,
                saved_rect: None,
                state: WmState { target_w: r.2, target_h: r.3, ..w.state },
                ..base
            },
            None => base,
        }
    } else {
        let r = workarea(geom);
        Window {
            rect: r,
            saved_rect: Some(w.rect),
            state: WmState { target_w: r.2, target_h: r.3, ..w.state },
            ..base
        }
    }
}

/// Maximizing a window and restoring it brings it back to where it was, and has it drawn
/// at its old size.
pub proof fn maximize_twice_restores(w: Window, geom1: (u32, u32), geom2: (u32, u32), frame1: u32, frame2: u32)
    requires
        !w.maximized,
    ensures
        toggled(toggled(w, geom1, frame1), geom2, frame2).rect == w.rect,
        !toggled(toggled(w, geom1, frame1), geom2, frame2).maximized,
        toggled(toggled(w, geom1, frame1), geom2, frame2).state.target_w == w.rect.2,
        toggled(toggled(w, geom1, frame1), geom2, frame2).state.target_h == w.rect.3,
        toggled(toggled(w, geom1, frame1), geom2, frame2).saved_rect is None,
{
}

/// Raising a window loses none and invents none, and the focus stays with its window.
pub proof fn raise_keeps_focus(d: Desk, idx: int)
    requires
        d.focus_ok(),
        0 <= idx < d.wins.len(),
    ensures
        d.raised(idx).focus_ok(),
        d.raised(idx).wins.len() == d.wins.len(),
        d.raised(idx).wins.last() == d.wins[idx],
        d.raised(idx).wins[d.raised(idx).focused] == d.wins[d.focused],
        forall|i: int| 0 <= i < idx ==> #[trigger] d.raised(idx).wins[i] == d.wins[i],
        forall|i: int| idx <= i < d.wins.len() - 1 ==> #[trigger] d.raised(idx).wins[i] == d.wins[i + 1],
{
}

/// Taking a window away leaves the focus with its window, unless that is the one.
pub proof fn removal_keeps_focus(d: Desk, idx: int)
    requires
        d.focus_ok(),
        0 <= idx < d.wins.len(),
    ensures
        d.without(idx).focus_ok(),
        d.without(idx).wins.len() == d.wins.len() - 1,
        idx != d.focused ==> d.without(idx).wins[d.without(idx).focused].id == d.wins[d.focused].id,
{
}

/// The picks that a window manager makes with ids: those of windows differ, none of them
/// is free, none is free twice, and all were handed out.
pub open spec fn ids_ok(wins: Seq<Window>, free: Seq<u32>, next: u32) -> bool {
    &&& forall|i: int, j: int| 0 <= i < j < wins.len() ==> (#[trigger] wins[i]).id != (#[trigger] wins[j]).id
    &&& forall|i: int| 0 <= i < wins.len() ==> (#[trigger] wins[i]).id < next && !free.contains(wins[i].id)
    &&& forall|i: int| 0 <= i < free.len() ==> #[trigger] free[i] < next
    &&& free.no_duplicates()
}

/// Whether an id is handed out, but to no window yet.
pub open spec fn fresh(wins: Seq<Window>, free: Seq<u32>, next: u32, id: u32) -> bool {
    &&& id < next
    &&& !free.contains(id)
    &&& forall|i: int| 0 <= i < wins.len() ==> (#[trigger] wins[i]).id != id
}

/// Every window's origin is a screen coordinate.
pub open spec fn placed(wins: Seq<Window>) -> bool {
    forall|i: int|
        0 <= i < wins.len() ==> {
            let w = #[trigger] wins[i];
            &&& w.rect.0 <= i32::MAX && w.rect.1 <= i32::MAX
            &&& w.saved_rect matches Some(r) ==> r.0 <= i32::MAX && r.1 <= i32::MAX
        }
}

impl View for Compositor {
    type V = Desk;

    open spec fn view(&self) -> Desk {
        Desk { wins: self.wins@, focused: self.focused as int, dirty: self.dirty }
    }
}

impl Compositor {
    /// Ids, focus and places are in order.
    pub open spec fn wf(&self) -> bool {
        &&& ids_ok(self.wins@, self.free_ids@, self.next_id)
        &&& self@.focus_ok()
        &&& placed(self.wins@)
    }

    /// Everything but the windows, the focus and the picture is the same.
    pub open spec fn same_rest(&self, o: &Compositor) -> bool {
        &&& self.drag == o.drag
        &&& self.free_ids@ == o.free_ids@
        &&& self.next_id == o.next_id
        &&& self.frame_no == o.frame_no
    }

    /// A compositor without windows.
    pub fn new_empty() -> (r: Self)
        ensures
            r.wf(),
            r.wins@ == Seq::<Window>::empty(),
            r.focused == 0,
            r.drag is None,
            r.free_ids@ == Seq::<u32>::empty(),
            r.next_id == 0,
            r.dirty,
            r.frame_no == 0,
    {
        Compositor {
            wins: Vec::new(),
            focused: 0,
            drag: None,
            free_ids: Vec::new(),
            next_id: 0,
            dirty: true,
            frame_no: 0,
        }
    }

    /// Hands out a window id: one that is free again, or else a new one.
    pub fn alloc_id(&mut self) -> (id: u32)
        requires
            old(self).wf(),
            old(self).next_id < u32::MAX,
        ensures
            final(self).wf(),
            final(self)@ == old(self)@,
            final(self).drag == old(self).drag,
            final(self).frame_no == old(self).frame_no,
            fresh(final(self).wins@, final(self).free_ids@, final(self).next_id, id),
            if old(self).free_ids@.len() > 0 {
                &&& id == old(self).free_ids@.last()
                &&& final(self).free_ids@ == old(self).free_ids@.drop_last()
                &&& final(self).next_id == old(self).next_id
            } else {
                &&& id == old(self).next_id
                &&& final(self).free_ids@ == old(self).free_ids@
                &&& final(self).next_id == old(self).next_id + 1
            },
    {
        let ghost free = self.free_ids@;
        match self.free_ids.pop() {
            Some(id) => {
                proof {
                    assert(free[free.len() - 1] == id);
                    assert(self.free_ids@ =~= free.drop_last());
                    assert forall|i: int| 0 <= i < self.wins@.len() implies (#[trigger] self.wins@[i]).id < self.next_id
                        && !self.free_ids@.contains(self.wins@[i].id) && self.wins@[i].id != id by {
                        assert(!free.contains(self.wins@[i].id));
                        assert(free.contains(id));
                        if self.free_ids@.contains(self.wins@[i].id) {
                            let j = choose|j: int| 0 <= j < self.free_ids@.len() && self.free_ids@[j]
                                == self.wins@[i].id;
                            assert(free[j] == self.wins@[i].id);
                        }
                    }
                    assert(!self.free_ids@.contains(id));
                }
                id
            },
            None => {
                let id: u32 = self.next_id;
                self.next_id = id + 1;
                id
            },
        }
    }

    /// The window that takes input at a point of the screen.
    pub fn window_at(&self, px: i32, py: i32) -> (r: Option<usize>)
        ensures
            match r {
                Some(i) => at_point(self.wins@, px as int, py as int) == Some(i as int),
                None => at_point(self.wins@, px as int, py as int) is None,
            },
    {
        let mut n: usize = self.wins.len();
        while n > 0
            invariant
                n <= self.wins@.len(),
                at_point(self.wins@, px as int, py as int) == topmost(
                    self.wins@,
                    n as int,
                    hit_at(px as int, py as int),
                ),
            decreases n,
        {
            let w = &self.wins[n - 1];
            let x: i64 = to_signed(w.rect.0);
            let y: i64 = to_signed(w.rect.1);
            if !w.bg && !w.minimized && px as i64 >= x && (px as i64) < x + to_signed(w.rect.2) && py as i64 >= y && (
            py as i64) < y + to_signed(w.rect.3) {
                return Some(n - 1);
            }
            n -= 1;
        }
        None
    }

    /// The background window.
    pub fn bg_index(&self) -> (r: Option<usize>)
        ensures
            match r {
                Some(i) => background(self.wins@) == Some(i as int),
                None => background(self.wins@) is None,
            },
    {
        let mut i: usize = 0;
        while i < self.wins.len()
            invariant
                i <= self.wins@.len(),
                background(self.wins@) == first_from(self.wins@, i as int, is_bg()),
            decreases self.wins@.len() - i,
        {
            if self.wins[i].bg {
                return Some(i);
            }
            i += 1;
        }
        None
    }

    /// The window with an id.
    pub fn index_of(&self, id: u32) -> (r: Option<usize>)
        ensures
            match r {
                Some(i) => with_id(self.wins@, id) == Some(i as int) && i < self.wins@.len() && self.wins@[i as int].id
                    == id,
                None => with_id(self.wins@, id) is None,
            },
    {
        let mut i: usize = 0;
        while i < self.wins.len()
            invariant
                i <= self.wins@.len(),
                with_id(self.wins@, id) == first_from(self.wins@, i as int, has_id(id)),
            decreases self.wins@.len() - i,
        {
            if self.wins[i].id == id {
                return Some(i);
            }
            i += 1;
        }
        None
    }

    /// Gives the focus to a window.
    pub fn set_focus(&mut self, idx: usize)
        requires
            old(self).wf(),
        ensures
            final(self).wf(),
            final(self)@ == old(self)@.focus_on(idx as int),
            final(self).same_rest(old(self)),
    {
        if idx >= self.wins.len() {
            return;
        }
        let f: usize = self.focused;
        self.wins[f].focused = false;
        self.wins[idx].focused = true;
        self.focused = idx;
        proof {
            assert(self.wins@ =~= marked(old(self).wins@, idx as int));
        }
    }

    /// Brings a window to the top and tells its new index.
    pub fn raise(&mut self, idx: usize) -> (r: usize)
        requires
            old(self).wf(),
        ensures
            final(self).wf(),
            final(self)@ == old(self)@.raised(idx as int),
            final(self).same_rest(old(self)),
            r == if idx >= old(self).wins@.len() {
                idx as int
            } else {
                old(self).wins@.len() - 1
            },
    {
        if idx >= self.wins.len() {
            return idx;
        }
        let last: usize = self.wins.len() - 1;
        if idx == last {
            return last;
        }
        self.dirty = true;
        let w = self.wins.remove(idx);
        self.wins.push(w);
        if self.focused == idx {
            self.focused = last;
        } else if self.focused > idx {
            self.focused = self.focused - 1;
        }
        proof {
            assert(self.wins@ =~= old(self)@.raised(idx as int).wins);
        }
        last
    }
}

/// Where a dragged window goes: under the cursor as it was taken hold of, but on the screen.
pub open spec fn dragged_to(w: Window, geom: (u32, u32), c: (i32, i32), grab: (i32, i32)) -> (u32, u32, u32, u32) {
    (
        on_axis(c.0 - grab.0, signed(geom.0) - signed(w.rect.2)),
        on_axis(c.1 - grab.1, signed(geom.1) - signed(w.rect.3)),
        w.rect.2,
        w.rect.3,
    )
}

/// `v` moved into `[0, room]`, or to zero where there is no room.
pub open spec fn on_axis(v: int, room: int) -> u32 {
    if room < 0 || v < 0 {
        0
    } else if v > room || v > i32::MAX {
        if room > i32::MAX { i32::MAX as u32 } else { room as u32 }
    } else {
        v as u32
    }
}

fn axis(v: i64, room: i64) -> (r: u32)
    ensures
        r == on_axis(v as int, room as int),
        r <= i32::MAX,
{
    if room < 0 || v < 0 {
        0
    } else if v > room || v > i32::MAX as i64 {
        if room > i32::MAX as i64 { i32::MAX as u32 } else { room as u32 }
    } else {
        v as u32
    }
}

impl Window {
    /// Sets the size that the window should be drawn at.
    pub fn set_size(&mut self, w: u32, h: u32)
        ensures
            *final(self) == (Window {
                state: WmState { target_w: w, target_h: h, ..old(self).state },
                ..*old(self)
            }),
    {
        self.state.target_w = w;
        self.state.target_h = h;
    }

    /// Puts the window somewhere else, and notes the activity.
    fn place(&mut self, rect: (u32, u32, u32, u32), frame: u32)
        ensures
            *final(self) == (Window { rect, last_active_frame: frame, ..*old(self) }),
    {
        self.rect = rect;
        self.last_active_frame = frame;
    }

    /// Notes an activity.
    pub fn touch(&mut self, frame: u32)
        ensures
            *final(self) == (Window { last_active_frame: frame, ..*old(self) }),
    {
        self.last_active_frame = frame;
    }

    /// Hides the window, or shows it again.
    pub fn set_minimized(&mut self, minimized: bool)
        ensures
            *final(self) == (Window { minimized, ..*old(self) }),
    {
        self.minimized = minimized;
    }

    /// Maximizes the window, or puts it back to where it was.
    fn toggle(&mut self, geom: (u32, u32), frame: u32)
        ensures
            *final(self) == toggled(*old(self), geom, frame),
    {
        if self.maximized {
            let saved = self.saved_rect;
            if let Some(r) = saved {
                self.saved_rect = None;
                self.rect = r;
                self.set_size(r.2, r.3);
            }
            self.maximized = false;
        } else {
            let r: (u32, u32, u32, u32) = self.rect;
            self.saved_rect = Some(r);
            let wa: (u32, u32, u32, u32) = (0, WORKAREA_TOP, geom.0, geom.1.saturating_sub(WORKAREA_TOP));
            self.rect = wa;
            self.set_size(wa.2, wa.3);
            self.maximized = true;
        }
        self.sized = true;
        self.last_active_frame = frame;
    }
}

impl Compositor {
    /// Moves a dragged window with the cursor. It counts as active while it is dragged.
    pub fn drag_to(&mut self, id: u32, cx: i32, cy: i32, grab: (i32, i32), geom: (u32, u32))
        requires
            old(self).wf(),
            geom.0 <= i32::MAX,
            geom.1 <= i32::MAX,
        ensures
            final(self).wf(),
            final(self).same_rest(old(self)),
            final(self)@ == match with_id(old(self).wins@, id) {
                None => old(self)@,
                Some(i) => {
                    let w = old(self).wins@[i];
                    let r = dragged_to(w, geom, (cx, cy), grab);
                    Desk {
                        wins: old(self).wins@.update(
                            i,
                            Window { rect: r, last_active_frame: old(self).frame_no, ..w },
                        ),
                        dirty: old(self).dirty || r.0 != w.rect.0 || r.1 != w.rect.1,
                        ..old(self)@
                    }
                },
            },
            forall|i: int|
                #![trigger old(self).wins@[i]]
                0 <= i < old(self).wins@.len() && old(self).wins@[i].id == id && old(self).wins@[i].rect.2 <= geom.0
                    && old(self).wins@[i].rect.3 <= geom.1 ==> {
                    let (x, y, w, h) = final(self).wins@[i].rect;
                    let (vx, vy) = (cx - grab.0, cy - grab.1);
                    &&& w == old(self).wins@[i].rect.2 && h == old(self).wins@[i].rect.3
                    &&& x == if vx < 0 { 0 } else if vx + w > geom.0 { geom.0 - w } else { vx }
                    &&& y == if vy < 0 { 0 } else if vy + h > geom.1 { geom.1 - h } else { vy }
                },
    {
        proof {
            assert forall|i: int| #![trigger self.wins@[i]] 0 <= i < self.wins@.len() && self.wins@[i].id
                == id implies with_id(self.wins@, id) == Some(i) by {
                let h = has_id(id);
                first_is_first(self.wins@, 0, h);
                match with_id(self.wins@, id) {
                    Some(k) => {
                        assert(h(self.wins@[k]));
                    },
                    None => {
                        assert(!h(self.wins@[i]));
                    },
                }
            }
        }
        if let Some(i) = self.index_of(id) {
            let r: (u32, u32, u32, u32) = self.wins[i].rect;
            let room_x: i64 = to_signed(geom.0) - to_signed(r.2);
            let room_y: i64 = to_signed(geom.1) - to_signed(r.3);
            let nx: u32 = axis(cx as i64 - grab.0 as i64, room_x);
            let ny: u32 = axis(cy as i64 - grab.1 as i64, room_y);
            if nx != r.0 || ny != r.1 {
                self.dirty = true;
            }
            let frame: u32 = self.frame_no;
            let to: (u32, u32, u32, u32) = (nx, ny, r.2, r.3);
            self.wins[i].place(to, frame);
            proof {
                let w = Window { rect: to, last_active_frame: frame, ..old(self).wins@[i as int] };
                assert(self.wins@ =~= old(self).wins@.update(i as int, w));
            }
        }
    }

    /// Maximizes a window, or puts it back to where it was.
    pub fn toggle_maximize(&mut self, i: usize, geom: (u32, u32))
        requires
            old(self).wf(),
        ensures
            final(self).wf(),
            final(self).same_rest(old(self)),
            final(self)@ == old(self)@.maximize_toggled(i as int, geom, old(self).frame_no),
    {
        if i >= self.wins.len() || self.wins[i].bg {
            return;
        }
        let frame: u32 = self.frame_no;
        self.wins[i].toggle(geom, frame);
        self.dirty = true;
        proof {
            let w = toggled(old(self).wins@[i as int], geom, frame);
            assert(self.wins@ =~= old(self).wins@.update(i as int, w));
        }
    }

    /// Sets the size that a window should be drawn at.
    pub fn set_target(&mut self, i: usize, w: u32, h: u32)
        requires
            i < old(self).wins@.len(),
        ensures
            final(self).wins@ == old(self).wins@.update(
                i as int,
                Window {
                    state: WmState { target_w: w, target_h: h, ..old(self).wins@[i as int].state },
                    ..old(self).wins@[i as int]
                },
            ),
            final(self).focused == old(self).focused,
            final(self).dirty == old(self).dirty,
            final(self).same_rest(old(self)),
    {
        self.wins[i].set_size(w, h);
    }

    /// Shows the window with an id, on top and in focus.
    #[verifier::rlimit(40)]
    pub fn activate(&mut self, id: u32)
        requires
            old(self).wf(),
        ensures
            final(self).wf(),
            final(self).same_rest(old(self)),
            final(self)@ == old(self)@.activated(id, old(self).frame_no),
    {
        if let Some(i) = self.index_of(id) {
            self.wins[i].set_minimized(false);
            self.dirty = true;
            let ghost shown = old(self)@.changed(i as int, Window { minimized: false, ..old(self).wins@[i as int] });
            proof {
                assert(self.wins@ =~= shown.wins);
            }
            let top: usize = self.raise(i);
            self.set_focus(top);
            let ghost d = self@;
            let frame: u32 = self.frame_no;
            self.wins[top].touch(frame);
            proof {
                assert(d == shown.raised(i as int).focus_on(top as int));
                let w = Window { last_active_frame: frame, ..d.wins[top as int] };
                assert(self.wins@ =~= d.wins.update(top as int, w));
            }
        }
    }

    /// Gives the focus to the topmost window that can be seen.
    pub fn focus_topmost_visible(&mut self)
        requires
            old(self).wf(),
        ensures
            final(self).wf(),
            final(self).same_rest(old(self)),
            final(self)@ == old(self)@.focus_visible(),
    {
        let mut n: usize = self.wins.len();
        while n > 0
            invariant
                n <= self.wins@.len(),
                *self == *old(self),
                self.wf(),
                topmost(self.wins@, self.wins@.len() as int, is_visible()) == topmost(
                    self.wins@,
                    n as int,
                    is_visible(),
                ),
            decreases n,
        {
            if !self.wins[n - 1].bg && !self.wins[n - 1].minimized {
                self.set_focus(n - 1);
                return;
            }
            n -= 1;
        }
    }

    /// Takes a window away. Its id is free again. This is the only way in which a window
    /// leaves.
    pub fn remove_at(&mut self, i: usize) -> (r: Option<Window>)
        requires
            old(self).wf(),
        ensures
            final(self).wf(),
            final(self)@ == old(self)@.without(i as int),
            final(self).drag == old(self).drag,
            final(self).next_id == old(self).next_id,
            final(self).frame_no == old(self).frame_no,
            match r {
                None => i >= old(self).wins@.len() && final(self).free_ids@ == old(self).free_ids@,
                Some(w) => i < old(self).wins@.len() && w == old(self).wins@[i as int] && final(self).free_ids@ == old(
                    self,
                ).free_ids@.push(w.id),
            },
    {
        if i >= self.wins.len() {
            return None;
        }
        self.dirty = true;
        let ghost wins = self.wins@;
        let ghost free = self.free_ids@;
        let w = self.wins.remove(i);
        self.free_ids.push(w.id);
        let ghost rest = self.wins@;
        proof {
            assert(!free.contains(w.id));
            assert forall|k: int| 0 <= k < rest.len() implies (#[trigger] rest[k]).id < self.next_id
                && !self.free_ids@.contains(rest[k].id) by {
                let o = if k < i { k } else { k + 1 };
                assert(rest[k] == wins[o]);
                assert(!free.contains(wins[o].id));
                if self.free_ids@.contains(rest[k].id) {
                    let j = choose|j: int| 0 <= j < self.free_ids@.len() && self.free_ids@[j] == rest[k].id;
                    if j < free.len() {
                        assert(free[j] == rest[k].id);
                    } else {
                        assert(wins[i as int].id == wins[o].id);
                    }
                }
            }
            assert forall|a: int, b: int| 0 <= a < b < rest.len() implies (#[trigger] rest[a]).id != (
            #[trigger] rest[b]).id by {
                let oa = if a < i { a } else { a + 1 };
                let ob = if b < i { b } else { b + 1 };
                assert(wins[oa].id != wins[ob].id);
            }
        }
        if self.wins.len() == 0 {
            self.focused = 0;
            return Some(w);
        }
        if self.focused > i || self.focused >= self.wins.len() {
            self.focused = self.focused.saturating_sub(1);
        }
        let f: usize = self.focused;
        let mut j: usize = 0;
        while j < self.wins.len()
            invariant
                j <= self.wins@.len(),
                self.wins@.len() == rest.len(),
                forall|k: int| 0 <= k < j ==> #[trigger] self.wins@[k] == (Window { focused: k == f, ..rest[k] }),
                forall|k: int| j <= k < rest.len() ==> #[trigger] self.wins@[k] == rest[k],
                self.free_ids@ == free.push(w.id),
                self.focused == f,
                self.dirty,
                self.drag == old(self).drag,
                self.next_id == old(self).next_id,
                self.frame_no == old(self).frame_no,
            decreases self.wins@.len() - j,
        {
            self.wins[j].focused = j == f;
            j += 1;
        }
        proof {
            assert(self.wins@ =~= marked(rest, f as int));
        }
        Some(w)
    }

    /// Closes the window with an id at once. Tells whether there was one.
    pub fn close(&mut self, id: u32) -> (r: bool)
        requires
            old(self).wf(),
        ensures
            final(self).wf(),
            r == (with_id(old(self).wins@, id) is Some),
            final(self)@ == match with_id(old(self).wins@, id) {
                Some(i) => old(self)@.without(i),
                None => old(self)@,
            },
            final(self).free_ids@ == if r {
                old(self).free_ids@.push(id)
            } else {
                old(self).free_ids@
            },
            final(self).drag == old(self).drag,
            final(self).next_id == old(self).next_id,
            final(self).frame_no == old(self).frame_no,
    {
        match self.index_of(id) {
            Some(i) => {
                self.remove_at(i);
                true
            },
            None => false,
        }
    }

    /// Marks the window with an id for teardown; no change where there is none.
    pub fn request_close(&mut self, id: u32)
        requires
            old(self).wf(),
        ensures
            final(self).wf(),
            final(self).same_rest(old(self)),
            final(self)@ == match with_id(old(self).wins@, id) {
                Some(i) => Desk {
                    wins: old(self).wins@.update(i, Window { alive: false, ..old(self).wins@[i] }),
                    ..old(self)@
                },
                None => old(self)@,
            },
    {
        if let Some(i) = self.index_of(id) {
            self.wins[i].alive = false;
            assert(self.wins@ =~= old(self).wins@.update(
                i as int,
                Window { alive: false, ..old(self).wins@[i as int] },
            ));
        }
    }
}

} // verus!
