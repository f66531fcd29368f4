//! Laws of the life of a window: where it comes up, when its program runs, what a run settles,
//! and who is left after the dead are taken away.

use vstd::prelude::*;
use crate::wt::lifecycle::{
    awake_in, dead_ids, dead_windows, doomed, frames_since, live_count, newborn, next_frame, noted, placement, ran,
    reaped, reaped_windows_are_whole, wakes_up,
};
use crate::wt::wm::{Desk, Window};

verus! {

/// A new window is 320 by 240 pixels large. It comes up 28 pixels further in and down than the
/// one before it, the first one 40 pixels from the corner, but never so far that it would come
/// within 20 pixels of the right edge or of the launcher of 28 pixels at the bottom.
pub proof fn new_windows_cascade(n: int, geom: (u32, u32))
    requires
        0 <= n,
    ensures
        ({
            let r = placement(n, geom);
            &&& r.2 == 320 && r.3 == 240
            &&& 40 + 28 * n + 320 + 20 <= geom.0 ==> r.0 == 40 + 28 * n
            &&& 40 + 28 * n + 240 + 20 + 28 <= geom.1 ==> r.1 == 40 + 28 * n
            &&& 40 + 28 * n + 320 + 20 > geom.0 && geom.0 >= 340 ==> r.0 + r.2 + 20 == geom.0
            &&& 40 + 28 * n + 240 + 20 + 28 > geom.1 && geom.1 >= 288 ==> r.1 + r.3 + 20 + 28 == geom.1
            &&& geom.0 < 340 ==> r.0 == 0
            &&& geom.1 < 288 ==> r.1 == 0
        }),
{
}

/// Every window that lives counts once, and no other.
pub proof fn the_living_are_counted(wins: Seq<Window>, w: Window)
    ensures
        live_count(Seq::empty()) == 0,
        live_count(wins.push(w)) == live_count(wins) + if w.alive { 1nat } else { 0nat },
        live_count(wins) <= wins.len(),
    decreases wins.len(),
{
    assert(wins.push(w).drop_last() =~= wins);
    if wins.len() > 0 {
        the_living_are_counted(wins.drop_last(), w);
    }
}

/// A window comes up in focus, in sight and running, under its own id, title and process, with
/// nothing drawn, nothing asked for and nothing in its queue.
pub proof fn newborn_window_is_blank(w: Window, id: u32, name: Seq<char>, pid: u32, rect: (u32, u32, u32, u32))
    requires
        newborn(w, id, name, pid, rect),
    ensures
        w.id == id && w.state.id == id && w.title@ == name && w.pid == pid && w.rect == rect,
        w.focused && w.alive && w.awake && !w.bg && !w.minimized && !w.maximized,
        !w.sized && !w.framed_once && w.saved_rect is None,
        w.state.pixels@.len() == 0 && w.state.events@.len() == 0,
        w.state.spawn_request@.len() == 0 && w.state.activate_request@.len() == 0,
        !w.state.close_requested && !w.state.move_requested && !w.state.bg_request,
        !w.state.minimize_request && !w.state.maximize_request && !w.state.stay_awake_request,
        w.state.wake_pty < 0,
{
}

/// A program runs in a frame exactly where there is something to do for it or it was active
/// within the last six frames, in the count of frames that starts over at its end.
pub proof fn programs_run_while_active(w: Window, frame: u32, pty_has_output: bool)
    ensures
        awake_in(w, frame, pty_has_output) <==> {
            ||| !w.framed_once
            ||| w.state.events@.len() > 0
            ||| w.state.stay_awake_request
            ||| w.state.wake_pty >= 0 && pty_has_output
            ||| w.last_active_frame <= frame && frame - w.last_active_frame < 6
            ||| w.last_active_frame > frame && frame + 0x1_0000_0000 - w.last_active_frame < 6
        },
{
}

/// Whether a program wakes goes by its grace period: it is the number of frames after the last
/// activity in which it still runs.
pub proof fn grace_is_counted_in_frames(last: u32, now: u32, grace: u32)
    requires
        last <= now,
    ensures
        wakes_up(true, false, false, now, last, grace, false) <==> now < last + grace,
        wakes_up(false, false, false, now, last, grace, false),
        wakes_up(true, true, false, now, last, grace, false),
        wakes_up(true, false, true, now, last, grace, false),
        wakes_up(true, false, false, now, last, grace, true),
        frames_since(next_frame(now), now) == 1,
{
}

/// What is noted of a window at the start of a frame: whether its program runs, and that it is
/// active where there is something to do for it.
pub proof fn the_start_of_a_frame_notes_activity(w: Window, pty_has_output: bool, frame: u32)
    ensures
        ({
            let now = noted(w, pty_has_output, frame);
            &&& now.awake == awake_in(w, frame, pty_has_output)
            &&& !w.framed_once || w.state.events@.len() > 0 || w.state.stay_awake_request || (w.state.wake_pty >= 0
                && pty_has_output) ==> now.last_active_frame == frame
            &&& w.framed_once && w.state.events@.len() == 0 && !w.state.stay_awake_request && !(w.state.wake_pty >= 0
                && pty_has_output) ==> now.last_active_frame == w.last_active_frame
            &&& now == (Window { awake: now.awake, last_active_frame: now.last_active_frame, ..w })
        }),
{
}

/// What a run of a program settles. The first surface that is not empty gives the window its
/// size, for good; a program that trapped is to be closed; one that drew has started; one that
/// asked to stay awake is active. The window stays where it is.
pub proof fn a_run_settles_the_window(w: Window, trapped: bool, frame: u32)
    ensures
        ({
            let now = ran(w, trapped, frame);
            let adopts = !w.sized && w.state.win_w > 0 && w.state.win_h > 0;
            &&& now.rect.0 == w.rect.0 && now.rect.1 == w.rect.1
            &&& adopts ==> now.sized && now.rect.2 == w.state.win_w && now.rect.3 == w.state.win_h
                && now.state.target_w == w.state.win_w && now.state.target_h == w.state.win_h
            &&& !adopts ==> now.sized == w.sized && now.rect == w.rect && now.state.target_w == w.state.target_w
                && now.state.target_h == w.state.target_h
            &&& now.framed_once <==> w.framed_once || w.state.committed
            &&& now.state.close_requested <==> w.state.close_requested || trapped
            &&& now.last_active_frame == if w.state.stay_awake_request { frame } else { w.last_active_frame }
            &&& now.id == w.id && now.focused == w.focused && now.alive == w.alive && now.bg == w.bg
            &&& now.minimized == w.minimized && now.maximized == w.maximized && now.state.pixels == w.state.pixels
            &&& now.state.events == w.state.events
        }),
{
}

/// A window with its focus mark taken off.
pub open spec fn unmarked(w: Window) -> Window {
    Window { focused: false, ..w }
}

/// Windows with their focus marks taken off.
pub open spec fn all_unmarked(wins: Seq<Window>) -> Seq<Window> {
    wins.map_values(|w: Window| unmarked(w))
}

proof fn lemma_filter_kept(s: Seq<Window>, p: spec_fn(Window) -> bool)
    requires
        forall|k: int| 0 <= k < s.len() ==> p(#[trigger] s[k]),
    ensures
        s.filter(p) == s,
    decreases s.len(),
{
    reveal(Seq::filter);
    if s.len() > 0 {
        lemma_filter_kept(s.drop_last(), p);
        assert(s.drop_last().push(s.last()) =~= s);
    }
}

proof fn lemma_filter_gone(s: Seq<Window>, p: spec_fn(Window) -> bool)
    requires
        forall|k: int| 0 <= k < s.len() ==> !p(#[trigger] s[k]),
    ensures
        s.filter(p) == Seq::<Window>::empty(),
    decreases s.len(),
{
    reveal(Seq::filter);
    if s.len() > 0 {
        lemma_filter_gone(s.drop_last(), p);
    }
}

proof fn lemma_filter_without(s: Seq<Window>, i: int, p: spec_fn(Window) -> bool)
    requires
        0 <= i < s.len(),
    ensures
        !p(s[i]) ==> s.remove(i).filter(p) == s.filter(p),
        s.filter(p) == s.take(i).filter(p) + (if p(s[i]) { seq![s[i]] } else { Seq::empty() }) + s.skip(
            i + 1,
        ).filter(p),
        s.remove(i).filter(p) == s.take(i).filter(p) + s.skip(i + 1).filter(p),
{
    let a = s.take(i);
    let b = seq![s[i]];
    let c = s.skip(i + 1);
    assert(s =~= a + b + c);
    assert(s.remove(i) =~= a + c);
    Seq::filter_distributes_over_add(a + b, c, p);
    Seq::filter_distributes_over_add(a, b, p);
    Seq::filter_distributes_over_add(a, c, p);
    reveal_with_fuel(Seq::filter, 2);
    assert(b.drop_last() =~= Seq::<Window>::empty());
    assert(b.filter(p) =~= if p(s[i]) { b } else { Seq::empty() });
}

/// Exactly the windows that live are left after the dead are taken away, in their order and as
/// they were but for the focus; and exactly the dead are handed back, in their order.
pub proof fn reaping_parts_the_living_from_the_dead(d: Desk, i: int)
    requires
        0 <= i <= d.wins.len(),
        forall|k: int| 0 <= k < i ==> (#[trigger] d.wins[k]).alive,
    ensures
        all_unmarked(reaped(d, i).wins) == all_unmarked(d.wins).filter(|w: Window| w.alive),
        all_unmarked(dead_windows(d, i)) == all_unmarked(d.wins).filter(|w: Window| !w.alive),
        dead_ids(d, i) == dead_windows(d, i).map_values(|w: Window| w.id),
        (exists|k: int| 0 <= k < d.wins.len() && !(#[trigger] d.wins[k]).alive) ==> reaped(d, i).dirty,
    decreases d.wins.len() - i,
{
    let live = |w: Window| w.alive;
    let dead = |w: Window| !w.alive;
    let s = all_unmarked(d.wins);
    reaped_windows_are_whole(d, i);
    if i >= d.wins.len() {
        lemma_filter_kept(s, live);
        lemma_filter_gone(s, dead);
    } else if d.wins[i].alive {
        reaping_parts_the_living_from_the_dead(d, i + 1);
    } else {
        let r = d.without(i);
        let t = all_unmarked(r.wins);
        assert(t =~= s.remove(i));
        assert forall|k: int| 0 <= k < i implies (#[trigger] r.wins[k]).alive by {
            assert(d.wins[k].alive);
        }
        reaping_parts_the_living_from_the_dead(r, i);
        lemma_filter_without(s, i, live);
        lemma_filter_without(s, i, dead);
        lemma_prefix_lives(d, i);
        assert(s.take(i).filter(dead) == Seq::<Window>::empty());
        assert(s.filter(dead) =~= seq![s[i]] + s.remove(i).filter(dead));
        assert(all_unmarked(dead_windows(d, i)) =~= seq![s[i]] + all_unmarked(dead_windows(r, i)));
        lemma_stays_dirty(r, i);
    }
}

proof fn lemma_prefix_lives(d: Desk, i: int)
    requires
        0 <= i <= d.wins.len(),
        forall|k: int| 0 <= k < i ==> (#[trigger] d.wins[k]).alive,
    ensures
        all_unmarked(d.wins).take(i).filter(|w: Window| !w.alive) == Seq::<Window>::empty(),
{
    let dead = |w: Window| !w.alive;
    lemma_filter_gone(all_unmarked(d.wins).take(i), dead);
}

proof fn lemma_stays_dirty(d: Desk, i: int)
    requires
        d.dirty,
        0 <= i,
    ensures
        reaped(d, i).dirty,
    decreases d.wins.len() - i,
{
    if i < d.wins.len() {
        if !d.wins[i].alive {
            lemma_stays_dirty(d.without(i), i);
        } else {
            lemma_stays_dirty(d, i + 1);
        }
    }
}

/// A window is taken away at the start of a frame exactly where it is dead or its program asked
/// to be closed.
pub proof fn closing_dooms_a_window(wins: Seq<Window>, i: int)
    requires
        0 <= i < wins.len(),
    ensures
        doomed(wins).len() == wins.len(),
        doomed(wins)[i] == (Window { alive: doomed(wins)[i].alive, ..wins[i] }),
        !doomed(wins)[i].alive <==> !wins[i].alive || wins[i].state.close_requested,
{
}

} // verus!
