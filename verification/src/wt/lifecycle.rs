//! The life of a window: spawning, the frame pass, closing and reaping.

use vstd::prelude::*;
use crate::wt::window::WmState;
use crate::wt::wm::{fresh, removal_keeps_focus, Compositor, Desk, Window, GRACE_FRAMES, LAUNCHER_H, MAX_WINDOWS};

verus! {

/// How many of the windows live.
pub open spec fn live_count(wins: Seq<Window>) -> nat
    decreases wins.len(),
{
    if wins.len() == 0 {
        0
    } else {
        live_count(wins.drop_last()) + if wins.last().alive { 1nat } else { 0nat }
    }
}

/// One coordinate of a new window: further in with every live window, but not so far that
/// it leaves the screen.
pub open spec fn cascade(n: int, extent: u32, margin: u32) -> u32 {
    let room = if extent < margin { 0 } else { extent - margin };
    if 40 + 28 * n < room { (40 + 28 * n) as u32 } else { room as u32 }
}

/// The place of a new window.
pub open spec fn placement(n: int, geom: (u32, u32)) -> (u32, u32, u32, u32) {
    (cascade(n, geom.0, 340), cascade(n, geom.1, (LAUNCHER_H + 260) as u32), 320, 240)
}

/// Whether `w` is a window as it comes up, in focus.
pub open spec fn newborn(w: Window, id: u32, name: Seq<char>, pid: u32, rect: (u32, u32, u32, u32)) -> bool {
    &&& w.id == id
    &&& w.title@ == name
    &&& w.pid == pid
    &&& w.rect == rect
    &&& w.focused && w.alive && w.awake
    &&& !w.bg && !w.minimized && !w.maximized && !w.sized && !w.framed_once
    &&& w.saved_rect is None
    &&& w.last_active_frame == 0
    &&& w.state.id == id
    &&& w.state.pixels@.len() == 0 && w.state.events@.len() == 0 && w.state.spawn_request@.len() == 0
    &&& w.state.activate_request@.len() == 0
    &&& w.state.win_w == 0 && w.state.win_h == 0 && w.state.target_w == 0 && w.state.target_h == 0
    &&& !w.state.close_requested && !w.state.move_requested && !w.state.bg_request && !w.state.committed
    &&& !w.state.minimize_request && !w.state.maximize_request && !w.state.stay_awake_request
    &&& w.state.wake_pty == -1 && w.state.tick == 0
}

/// The windows with those marked dead whose program asked to be closed.
pub open spec fn doomed(wins: Seq<Window>) -> Seq<Window> {
    Seq::new(wins.len(), |i: int| Window { alive: wins[i].alive && !wins[i].state.close_requested, ..wins[i] })
}

/// The desk after the dead windows from `i` on were taken away, one after the other.
pub open spec fn reaped(d: Desk, i: int) -> Desk
    decreases d.wins.len() - i,
{
    if i < 0 || i >= d.wins.len() {
        d
    } else if !d.wins[i].alive {
        reaped(d.without(i), i)
    } else {
        reaped(d, i + 1)
    }
}

/// The ids of the dead windows from `i` on, in order.
pub open spec fn dead_ids(d: Desk, i: int) -> Seq<u32>
    decreases d.wins.len() - i,
{
    if i < 0 || i >= d.wins.len() {
        Seq::empty()
    } else if !d.wins[i].alive {
        seq![d.wins[i].id] + dead_ids(d.without(i), i)
    } else {
        dead_ids(d, i + 1)
    }
}

/// The dead windows from `i` on, in order, each as it is when it is taken away.
pub open spec fn dead_windows(d: Desk, i: int) -> Seq<Window>
    decreases d.wins.len() - i,
{
    if i < 0 || i >= d.wins.len() {
        Seq::empty()
    } else if !d.wins[i].alive {
        seq![d.wins[i]] + dead_windows(d.without(i), i)
    } else {
        dead_windows(d, i + 1)
    }
}

/// The ids that a reap frees are those of the windows that it hands back, and each of these
/// windows was there before, with its process and its terminal.
pub proof fn reaped_windows_are_whole(d: Desk, i: int)
    requires
        0 <= i <= d.wins.len(),
    ensures
        dead_windows(d, i).map_values(|w: Window| w.id) == dead_ids(d, i),
        forall|k: int| 0 <= k < dead_windows(d, i).len() ==> came_from(#[trigger] dead_windows(d, i)[k], d.wins),
    decreases d.wins.len() - i,
{
    if i < d.wins.len() {
        if !d.wins[i].alive {
            let n = d.without(i);
            let rest = dead_windows(n, i);
            reaped_windows_are_whole(n, i);
            assert(dead_windows(d, i).map_values(|w: Window| w.id) =~= seq![d.wins[i].id] + rest.map_values(
                |w: Window| w.id,
            ));
            assert forall|k: int| 0 <= k < dead_windows(d, i).len() implies came_from(
                #[trigger] dead_windows(d, i)[k],
                d.wins,
            ) by {
                if k > 0 {
                    assert(came_from(rest[k - 1], n.wins));
                    let j = choose|j: int| 0 <= j < n.wins.len() && same_program(rest[k - 1], #[trigger] n.wins[j]);
                    let o = if j < i { j } else { j + 1 };
                    assert(same_program(n.wins[j], d.wins[o]));
                    assert(same_program(rest[k - 1], d.wins[o]));
                } else {
                    assert(same_program(d.wins[i], d.wins[i]));
                }
            }
        } else {
            reaped_windows_are_whole(d, i + 1);
        }
    } else {
        assert(dead_windows(d, i).map_values(|w: Window| w.id) =~= dead_ids(d, i));
    }
}

/// Two windows are the same but for the focus.
pub open spec fn same_program(a: Window, b: Window) -> bool {
    a == (Window { focused: a.focused, ..b })
}

/// A window was among others, perhaps with another focus.
pub open spec fn came_from(w: Window, wins: Seq<Window>) -> bool {
    exists|j: int| 0 <= j < wins.len() && same_program(w, #[trigger] wins[j])
}

/// After a reap every window lives.
pub proof fn reap_leaves_the_living(d: Desk, i: int)
    requires
        0 <= i <= d.wins.len(),
        forall|k: int| 0 <= k < i ==> (#[trigger] d.wins[k]).alive,
    ensures
        forall|k: int| 0 <= k < reaped(d, i).wins.len() ==> (#[trigger] reaped(d, i).wins[k]).alive,
        reaped(d, i).wins.len() + dead_ids(d, i).len() == d.wins.len(),
    decreases d.wins.len() - i,
{
    if i < d.wins.len() {
        if !d.wins[i].alive {
            let n = d.without(i);
            assert forall|k: int| 0 <= k < i implies (#[trigger] n.wins[k]).alive by {
                assert(d.wins[k].alive);
            }
            reap_leaves_the_living(n, i);
        } else {
            reap_leaves_the_living(d, i + 1);
        }
    }
}

/// After a reap exactly one of the windows that are left has the focus: the one that had it,
/// where that one lives.
pub proof fn reap_keeps_focus(d: Desk, i: int)
    requires
        0 <= i <= d.wins.len(),
        d.focus_ok(),
    ensures
        reaped(d, i).focus_ok(),
        d.wins.len() > 0 && d.wins[d.focused].alive ==> {
            &&& reaped(d, i).wins.len() > 0
            &&& reaped(d, i).wins[reaped(d, i).focused].id == d.wins[d.focused].id
        },
    decreases d.wins.len() - i,
{
    if i < d.wins.len() {
        if !d.wins[i].alive {
            removal_keeps_focus(d, i);
            reap_keeps_focus(d.without(i), i);
        } else {
            reap_keeps_focus(d, i + 1);
        }
    }
}

/// Whether a window's program runs in this frame: before its first surface, with input
/// waiting, when it asked for it, with output on its terminal, or within the grace period
/// after its last activity.
pub open spec fn wakes_up(
    framed_once: bool,
    has_events: bool,
    stay_awake: bool,
    frame_no: u32,
    last_active: u32,
    grace: u32,
    pty_has_output: bool,
) -> bool {
    ||| !framed_once
    ||| has_events
    ||| stay_awake
    ||| pty_has_output
    ||| frames_since(frame_no, last_active) < grace
}

/// How many frames ago `last` was; the frame count starts over at its end.
pub open spec fn frames_since(now: u32, last: u32) -> int {
    if now >= last { now - last } else { now - last + 0x1_0000_0000 }
}

/// Whether a window's program runs in this frame.
pub fn should_wake(
    framed_once: bool,
    has_events: bool,
    stay_awake: bool,
    frame_no: u32,
    last_active: u32,
    grace: u32,
    pty_has_output: bool,
) -> (r: bool)
    ensures
        r == wakes_up(framed_once, has_events, stay_awake, frame_no, last_active, grace, pty_has_output),
{
    !framed_once || has_events || stay_awake || pty_has_output || frame_no.wrapping_sub(last_active) < grace
}

/// Whether a window's program runs in frame `frame_no`. `pty_has_output` counts only for a
/// window that is tied to a terminal.
pub open spec fn awake_in(w: Window, frame_no: u32, pty_has_output: bool) -> bool {
    wakes_up(
        w.framed_once,
        w.state.events@.len() > 0,
        w.state.stay_awake_request,
        frame_no,
        w.last_active_frame,
        GRACE_FRAMES,
        w.state.wake_pty >= 0 && pty_has_output,
    )
}

/// Whether there is something to do for a window's program: it has drawn nothing yet, input
/// waits for it, it asked to stay awake, or its terminal has output.
pub open spec fn busy(w: Window, pty_has_output: bool) -> bool {
    ||| !w.framed_once
    ||| w.state.events@.len() > 0
    ||| w.state.stay_awake_request
    ||| w.state.wake_pty >= 0 && pty_has_output
}

/// A window after its program ran: one that trapped is to be closed, one that drew counts as
/// started, and the first surface settles the size.
pub open spec fn settled(w: Window, trapped: bool) -> Window {
    let adopt = w.state.win_w != 0 && w.state.win_h != 0 && !w.sized;
    Window {
        framed_once: w.framed_once || w.state.committed,
        rect: if adopt {
            (w.rect.0, w.rect.1, w.state.win_w, w.state.win_h)
        } else {
            w.rect
        },
        sized: w.sized || adopt,
        state: WmState {
            close_requested: w.state.close_requested || trapped,
            target_w: if adopt { w.state.win_w } else { w.state.target_w },
            target_h: if adopt { w.state.win_h } else { w.state.target_h },
            ..w.state
        },
        ..w
    }
}

/// A window after its program ran in frame `frame`. One that asked to stay awake was active.
pub open spec fn ran(w: Window, trapped: bool, frame: u32) -> Window {
    Window {
        last_active_frame: if w.state.stay_awake_request { frame } else { w.last_active_frame },
        ..settled(w, trapped)
    }
}

/// A window with a note on whether its program runs in frame `frame`. Only something to do
/// counts as an activity, so that a window falls asleep when the grace period is over.
pub open spec fn noted(w: Window, pty_has_output: bool, frame: u32) -> Window {
    Window {
        awake: awake_in(w, frame, pty_has_output),
        last_active_frame: if busy(w, pty_has_output) { frame } else { w.last_active_frame },
        ..w
    }
}

/// The frame behind another.
pub open spec fn next_frame(frame: u32) -> u32 {
    if frame == u32::MAX { 0 } else { (frame + 1) as u32 }
}

/// A window whose program asked to stay awake runs in the next frame, whatever comes between.
pub proof fn asking_keeps_awake(before: Window, after: Window, trapped: bool, frame: u32, pty_has_output: bool)
    requires
        before.state.stay_awake_request,
        after.last_active_frame == ran(before, trapped, frame).last_active_frame,
    ensures
        awake_in(after, next_frame(frame), pty_has_output),
{
}

/// A window with nothing to do runs through the grace period after its last activity, which
/// that does not renew, and then sleeps.
pub proof fn idle_window_falls_asleep(w: Window, frame: u32, pty_has_output: bool)
    requires
        !busy(w, pty_has_output),
    ensures
        awake_in(w, frame, pty_has_output) <==> frames_since(frame, w.last_active_frame) < GRACE_FRAMES,
        noted(w, pty_has_output, frame).last_active_frame == w.last_active_frame,
        !busy(noted(w, pty_has_output, frame), pty_has_output),
{
}

/// Something to do wakes a window that sleeps.
pub proof fn busy_window_wakes(w: Window, frame: u32, pty_has_output: bool)
    requires
        busy(w, pty_has_output),
    ensures
        awake_in(w, frame, pty_has_output),
        noted(w, pty_has_output, frame).last_active_frame == frame,
{
}

impl Window {
    /// Notes whether the program runs in this frame.
    fn note(&mut self, pty_has_output: bool, frame: u32)
        ensures
            *final(self) == noted(*old(self), pty_has_output, frame),
    {
        let has_events: bool = self.state.events.len() > 0;
        let output: bool = self.state.wake_pty >= 0 && pty_has_output;
        self.awake = should_wake(
            self.framed_once,
            has_events,
            self.state.stay_awake_request,
            frame,
            self.last_active_frame,
            GRACE_FRAMES,
            output,
        );
        if !self.framed_once || has_events || self.state.stay_awake_request || output {
            self.last_active_frame = frame;
        }
    }

    /// Settles what a run of the program changed.
    fn settle(&mut self, trapped: bool)
        ensures
            *final(self) == settled(*old(self), trapped),
    {
        if trapped {
            self.state.close();
        }
        if self.state.committed {
            self.framed_once = true;
        }
        let w: u32 = self.state.win_w;
        let h: u32 = self.state.win_h;
        if w != 0 && h != 0 && !self.sized {
            let x: u32 = self.rect.0;
            let y: u32 = self.rect.1;
            self.rect = (x, y, w, h);
            self.set_size(w, h);
            self.sized = true;
        }
    }
}

impl Compositor {
    /// Counts the live windows.
    pub fn live(&self) -> (r: usize)
        ensures
            r == live_count(self.wins@),
    {
        let mut n: usize = 0;
        let mut i: usize = 0;
        while i < self.wins.len()
            invariant
                i <= self.wins@.len(),
                n <= i,
                n == live_count(self.wins@.take(i as int)),
            decreases self.wins@.len() - i,
        {
            if self.wins[i].alive {
                n += 1;
            }
            i += 1;
            assert(self.wins@.take(i as int).drop_last() =~= self.wins@.take(i - 1));
        }
        assert(self.wins@.take(i as int) =~= self.wins@);
        n
    }

    /// Hands out the id of a window that is to come up; none where there are as many live
    /// windows as there may be.
    pub fn reserve_window(&mut self) -> (r: Option<u32>)
        requires
            old(self).wf(),
            old(self).next_id < u32::MAX,
        ensures
            final(self).wf(),
            final(self)@ == old(self)@,
            final(self).drag == old(self).drag,
            final(self).frame_no == old(self).frame_no,
            match r {
                None => live_count(old(self).wins@) >= MAX_WINDOWS && final(self).same_rest(old(self)),
                Some(id) => {
                    &&& live_count(old(self).wins@) < MAX_WINDOWS
                    &&& fresh(final(self).wins@, final(self).free_ids@, final(self).next_id, id)
                    &&& if old(self).free_ids@.len() > 0 {
                        &&& id == old(self).free_ids@.last()
                        &&& final(self).free_ids@ == old(self).free_ids@.drop_last()
                        &&& final(self).next_id == old(self).next_id
                    } else {
                        &&& id == old(self).next_id
                        &&& final(self).free_ids@ == old(self).free_ids@
                        &&& final(self).next_id == old(self).next_id + 1
                    }
                },
            },
    {
        if self.live() >= MAX_WINDOWS {
            return None;
        }
        Some(self.alloc_id())
    }

    /// Brings a window up on top and in focus, once its program is loaded; `started` is its
    /// process. Where the program could not be loaded, the id is free again.
    pub fn spawn_named(&mut self, id: u32, name: &str, started: Option<u32>, geom: (u32, u32)) -> (r: Option<u32>)
        requires
            old(self).wf(),
            fresh(old(self).wins@, old(self).free_ids@, old(self).next_id, id),
            live_count(old(self).wins@) < MAX_WINDOWS,
        ensures
            final(self).wf(),
            final(self).drag == old(self).drag,
            final(self).next_id == old(self).next_id,
            final(self).frame_no == old(self).frame_no,
            match started {
                None => {
                    &&& r is None
                    &&& final(self)@ == old(self)@
                    &&& final(self).free_ids@ == old(self).free_ids@.push(id)
                },
                Some(pid) => {
                    &&& r == Some(id)
                    &&& final(self).dirty
                    &&& final(self).free_ids@ == old(self).free_ids@
                    &&& final(self).wins@.len() == old(self).wins@.len() + 1
                    &&& final(self).focused == old(self).wins@.len()
                    &&& forall|i: int|
                        0 <= i < old(self).wins@.len() ==> #[trigger] final(self).wins@[i] == (Window {
                            focused: false,
                            ..old(self).wins@[i]
                        })
                    &&& newborn(
                        final(self).wins@.last(),
                        id,
                        name@,
                        pid,
                        placement(live_count(old(self).wins@) as int, geom),
                    )
                },
            },
    {
        let ghost wins = self.wins@;
        match started {
            None => {
                let ghost free = self.free_ids@;
                self.free_ids.push(id);
                proof {
                    assert forall|i: int| 0 <= i < wins.len() implies (#[trigger] wins[i]).id < self.next_id
                        && !self.free_ids@.contains(wins[i].id) by {
                        assert(!free.contains(wins[i].id));
                        if self.free_ids@.contains(wins[i].id) {
                            let j = choose|j: int| 0 <= j < self.free_ids@.len() && self.free_ids@[j] == wins[i].id;
                            if j < free.len() {
                                assert(free[j] == wins[i].id);
                            }
                        }
                    }
                }
                None
            },
            Some(pid) => {
                let n: u32 = self.live() as u32;
                let step: u32 = 40 + n * 28;
                let room_x: u32 = geom.0.saturating_sub(340);
                let room_y: u32 = geom.1.saturating_sub(LAUNCHER_H + 260);
                let ox: u32 = if step < room_x { step } else { room_x };
                let oy: u32 = if step < room_y { step } else { room_y };
                self.wins.push(
                    Window {
                        id,
                        rect: (ox, oy, 320, 240),
                        title: name.to_owned(),
                        focused: false,
                        alive: true,
                        pid,
                        bg: false,
                        minimized: false,
                        maximized: false,
                        saved_rect: None,
                        sized: false,
                        awake: true,
                        last_active_frame: 0,
                        framed_once: false,
                        state: WmState::new(id),
                    },
                );
                self.dirty = true;
                let last: usize = self.wins.len() - 1;
                if last == 0 {
                    self.wins[0].focused = true;
                    self.focused = 0;
                } else {
                    self.set_focus(last);
                }
                Some(id)
            },
        }
    }

    /// Takes away every window that is dead or whose program asked to be closed, and hands
    /// them back as they were: their processes and terminals are still to be let go.
    pub fn reap(&mut self) -> (gone: Vec<Window>)
        requires
            old(self).wf(),
        ensures
            final(self).wf(),
            final(self)@ == reaped(Desk { wins: doomed(old(self).wins@), ..old(self)@ }, 0),
            final(self).free_ids@ == old(self).free_ids@ + dead_ids(
                Desk { wins: doomed(old(self).wins@), ..old(self)@ },
                0,
            ),
            gone@ == dead_windows(Desk { wins: doomed(old(self).wins@), ..old(self)@ }, 0),
            final(self).drag == old(self).drag,
            final(self).next_id == old(self).next_id,
            final(self).frame_no == old(self).frame_no,
    {
        let ghost wins = self.wins@;
        let mut k: usize = 0;
        while k < self.wins.len()
            invariant
                k <= self.wins@.len(),
                self.wins@.len() == wins.len(),
                forall|j: int| 0 <= j < k ==> #[trigger] self.wins@[j] == doomed(wins)[j],
                forall|j: int| k <= j < wins.len() ==> #[trigger] self.wins@[j] == wins[j],
                self.focused == old(self).focused,
                self.dirty == old(self).dirty,
                self.same_rest(old(self)),
            decreases self.wins@.len() - k,
        {
            if self.wins[k].state.close_requested {
                self.wins[k].alive = false;
            }
            k += 1;
        }
        let ghost start = Desk { wins: doomed(wins), ..old(self)@ };
        let ghost free = self.free_ids@;
        assert(self.wins@ =~= doomed(wins));
        let mut gone: Vec<Window> = Vec::new();
        let mut i: usize = 0;
        assert(free + (Seq::<u32>::empty() + dead_ids(start, 0)) =~= free + dead_ids(start, 0));
        assert(gone@ + dead_windows(start, 0) =~= dead_windows(start, 0));
        while i < self.wins.len()
            invariant
                i <= self.wins@.len(),
                self.wf(),
                reaped(self@, i as int) == reaped(start, 0),
                self.free_ids@ + dead_ids(self@, i as int) == free + dead_ids(start, 0),
                gone@ + dead_windows(self@, i as int) == dead_windows(start, 0),
                self.drag == old(self).drag,
                self.next_id == old(self).next_id,
                self.frame_no == old(self).frame_no,
            decreases self.wins@.len() - i,
        {
            if !self.wins[i].alive {
                let ghost d = self@;
                let ghost f = self.free_ids@;
                let ghost g = gone@;
                let r = self.remove_at(i);
                if let Some(w) = r {
                    gone.push(w);
                }
                proof {
                    let ids = dead_ids(self@, i as int);
                    assert(f + (seq![d.wins[i as int].id] + ids) =~= self.free_ids@ + ids);
                    let rest = dead_windows(self@, i as int);
                    assert(g + (seq![d.wins[i as int]] + rest) =~= gone@ + rest);
                }
            } else {
                i += 1;
            }
        }
        proof {
            assert(self.free_ids@ + dead_ids(self@, i as int) =~= self.free_ids@);
            assert(gone@ + dead_windows(self@, i as int) =~= gone@);
        }
        gone
    }

    /// Decides whether the program of a window runs in this frame, and notes it. Without a
    /// run the last surface stays.
    pub fn frame_begin(&mut self, i: usize, pty_has_output: bool) -> (awake: bool)
        requires
            old(self).wf(),
            i < old(self).wins@.len(),
        ensures
            final(self).wf(),
            final(self).same_rest(old(self)),
            awake == awake_in(old(self).wins@[i as int], old(self).frame_no, pty_has_output),
            final(self)@ == (Desk {
                wins: old(self).wins@.update(
                    i as int,
                    noted(old(self).wins@[i as int], pty_has_output, old(self).frame_no),
                ),
                ..old(self)@
            }),
    {
        let frame: u32 = self.frame_no;
        self.wins[i].note(pty_has_output, frame);
        assert(self.wins@ =~= old(self).wins@.update(
            i as int,
            noted(old(self).wins@[i as int], pty_has_output, frame),
        ));
        self.wins[i].awake
    }

    /// Settles what a run of a window's program changed; `trapped` tells that it did not
    /// return.
    pub fn frame_end(&mut self, i: usize, trapped: bool)
        requires
            old(self).wf(),
            i < old(self).wins@.len(),
        ensures
            final(self).wf(),
            final(self).same_rest(old(self)),
            final(self)@ == (Desk {
                wins: old(self).wins@.update(i as int, ran(old(self).wins@[i as int], trapped, old(self).frame_no)),
                ..old(self)@
            }),
    {
        let frame: u32 = self.frame_no;
        let asked: bool = self.wins[i].state.stay_awake_request;
        self.wins[i].settle(trapped);
        if asked {
            self.wins[i].touch(frame);
        }
        assert(self.wins@ =~= old(self).wins@.update(i as int, ran(old(self).wins@[i as int], trapped, frame)));
    }

    /// Starts the frame pass: no window has drawn yet, and none has asked to stay awake.
    pub fn clear_damage(&mut self)
        requires
            old(self).wf(),
        ensures
            final(self).wf(),
            final(self).same_rest(old(self)),
            final(self).focused == old(self).focused,
            final(self).dirty == old(self).dirty,
            final(self).wins@ == Seq::new(
                old(self).wins@.len(),
                |i: int|
                    Window {
                        state: WmState { committed: false, stay_awake_request: false, ..old(self).wins@[i].state },
                        ..old(self).wins@[i]
                    },
            ),
    {
        let ghost wins = self.wins@;
        let ghost cleared = Seq::new(
            wins.len(),
            |i: int|
                Window { state: WmState { committed: false, stay_awake_request: false, ..wins[i].state }, ..wins[i] },
        );
        let mut i: usize = 0;
        while i < self.wins.len()
            invariant
                i <= self.wins@.len(),
                self.wins@.len() == wins.len(),
                cleared.len() == wins.len(),
                forall|j: int|
                    0 <= j < wins.len() ==> #[trigger] cleared[j] == (Window {
                        state: WmState { committed: false, stay_awake_request: false, ..wins[j].state },
                        ..wins[j]
                    }),
                forall|j: int| 0 <= j < i ==> #[trigger] self.wins@[j] == cleared[j],
                forall|j: int| i <= j < wins.len() ==> #[trigger] self.wins@[j] == wins[j],
                self.focused == old(self).focused,
                self.dirty == old(self).dirty,
                self.same_rest(old(self)),
            decreases self.wins@.len() - i,
        {
            self.wins[i].clear_flags();
            i += 1;
        }
        assert(self.wins@ =~= cleared);
    }
}

impl Window {
    fn clear_flags(&mut self)
        ensures
            *final(self) == (Window {
                state: WmState { committed: false, stay_awake_request: false, ..old(self).state },
                ..*old(self)
            }),
    {
        self.state.committed = false;
        self.state.stay_awake_request = false;
    }
}

} // verus!
