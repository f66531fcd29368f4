//! Laws of the desk: where windows go, which one is on top, which one has the focus, and which
//! one an event of the mouse reaches. Each is said of the windows themselves, by their place in
//! the stack and their rectangles.

use vstd::prelude::*;
use crate::wt::input::{left_down, left_up, under, desk_told};
use crate::wt::window::{GfxEvt, WmState};
use crate::wt::wm::{
    at_point, background, dragged_to, first_is_first, has_id, hit_at, is_bg, is_visible, signed, topmost_is_topmost,
    with_id, Desk, DragState, Window,
};

verus! {

/// A dragged window goes where the cursor takes it as long as it stays on the screen whole, and
/// otherwise to the nearest place where it does: it then touches the edge that the cursor passed.
/// It keeps its size. Each axis goes by its own extent of the screen and of the window.
pub proof fn drag_goes_to_the_nearest_place(w: Window, geom: (u32, u32), c: (i32, i32), grab: (i32, i32))
    requires
        geom.0 <= i32::MAX,
        geom.1 <= i32::MAX,
        w.rect.2 <= geom.0,
        w.rect.3 <= geom.1,
    ensures
        ({
            let r = dragged_to(w, geom, c, grab);
            let vx = c.0 - grab.0;
            let vy = c.1 - grab.1;
            &&& r.2 == w.rect.2 && r.3 == w.rect.3
            &&& r.0 + w.rect.2 <= geom.0
            &&& r.1 + w.rect.3 <= geom.1
            &&& 0 <= vx && vx + w.rect.2 <= geom.0 ==> r.0 == vx
            &&& 0 <= vy && vy + w.rect.3 <= geom.1 ==> r.1 == vy
            &&& vx < 0 ==> r.0 == 0
            &&& vy < 0 ==> r.1 == 0
            &&& vx + w.rect.2 > geom.0 ==> r.0 + w.rect.2 == geom.0
            &&& vy + w.rect.3 > geom.1 ==> r.1 + w.rect.3 == geom.1
        }),
{
}

/// A dragged window that is larger than the screen goes to the screen's edge on that axis.
pub proof fn drag_of_a_large_window_goes_to_the_edge(w: Window, geom: (u32, u32), c: (i32, i32), grab: (i32, i32))
    requires
        geom.0 <= i32::MAX,
        geom.1 <= i32::MAX,
        w.rect.2 <= i32::MAX,
        w.rect.3 <= i32::MAX,
    ensures
        dragged_to(w, geom, c, grab).2 == w.rect.2 && dragged_to(w, geom, c, grab).3 == w.rect.3,
        w.rect.2 > geom.0 ==> dragged_to(w, geom, c, grab).0 == 0,
        w.rect.3 > geom.1 ==> dragged_to(w, geom, c, grab).1 == 0,
{
}

/// As the cursor moves, the dragged window moves by as much in the same direction, unless the
/// screen's edge holds it back.
pub proof fn drag_follows_the_cursor(
    w: Window,
    geom: (u32, u32),
    c1: (i32, i32),
    c2: (i32, i32),
    grab: (i32, i32),
)
    requires
        geom.0 <= i32::MAX,
        geom.1 <= i32::MAX,
        c1.0 <= c2.0,
        c1.1 <= c2.1,
    ensures
        0 <= dragged_to(w, geom, c2, grab).0 - dragged_to(w, geom, c1, grab).0 <= c2.0 - c1.0,
        0 <= dragged_to(w, geom, c2, grab).1 - dragged_to(w, geom, c1, grab).1 <= c2.1 - c1.1,
{
}

/// A point of the screen belongs to the window whose rectangle holds it and above which no other
/// such window lies. A hidden window and the background take no part.
pub proof fn point_belongs_to_the_top_window(wins: Seq<Window>, px: int, py: int, i: int)
    requires
        forall|j: int|
            0 <= j < wins.len() ==> {
                let r = (#[trigger] wins[j]).rect;
                &&& r.0 <= i32::MAX && r.1 <= i32::MAX && r.2 <= i32::MAX && r.3 <= i32::MAX
            },
        0 <= i < wins.len(),
    ensures
        at_point(wins, px, py) == Some(i) <==> {
            &&& !wins[i].bg && !wins[i].minimized
            &&& wins[i].rect.0 <= px < wins[i].rect.0 + wins[i].rect.2
            &&& wins[i].rect.1 <= py < wins[i].rect.1 + wins[i].rect.3
            &&& forall|j: int|
                #![trigger wins[j]]
                i < j < wins.len() && !wins[j].bg && !wins[j].minimized ==> !(wins[j].rect.0 <= px < wins[j].rect.0
                    + wins[j].rect.2 && wins[j].rect.1 <= py < wins[j].rect.1 + wins[j].rect.3)
        },
        (at_point(wins, px, py) is None) ==> !(!wins[i].bg && !wins[i].minimized && wins[i].rect.0 <= px
            < wins[i].rect.0 + wins[i].rect.2 && wins[i].rect.1 <= py < wins[i].rect.1 + wins[i].rect.3),
{
    let p = hit_at(px, py);
    topmost_is_topmost(wins, wins.len() as int, p);
    match at_point(wins, px, py) {
        Some(k) => {
            assert(p(wins[k]));
            if k != i {
                if k < i {
                    assert(!p(wins[i]));
                } else {
                    assert(wins[k].rect.0 <= i32::MAX);
                }
            } else {
                assert forall|j: int| #![trigger wins[j]] i < j < wins.len() && !wins[j].bg && !wins[j].minimized implies !(
                wins[j].rect.0 <= px < wins[j].rect.0 + wins[j].rect.2 && wins[j].rect.1 <= py < wins[j].rect.1
                    + wins[j].rect.3) by {
                    assert(!p(wins[j]));
                }
            }
        },
        None => {
            assert(!p(wins[i]));
        },
    }
}

/// The background is the lowest window that is marked so, and the window with an id is the one
/// that bears it, where ids differ.
pub proof fn searches_find(wins: Seq<Window>, id: u32, i: int)
    requires
        0 <= i < wins.len(),
    ensures
        background(wins) == Some(i) <==> wins[i].bg && forall|j: int| 0 <= j < i ==> !(#[trigger] wins[j]).bg,
        background(wins) is None ==> !wins[i].bg,
        with_id(wins, id) == Some(i) <==> wins[i].id == id && forall|j: int| 0 <= j < i ==> (#[trigger] wins[j]).id != id,
        with_id(wins, id) is None ==> wins[i].id != id,
{
    let b = is_bg();
    first_is_first(wins, 0, b);
    match background(wins) {
        Some(k) => {
            assert(b(wins[k]));
            if k <= i {
                assert forall|j: int| 0 <= j < k implies !(#[trigger] wins[j]).bg by {
                    assert(!b(wins[j]));
                }
            } else {
                assert(!b(wins[i]));
            }
        },
        None => {
            assert(!b(wins[i]));
        },
    }
    let h = has_id(id);
    first_is_first(wins, 0, h);
    match with_id(wins, id) {
        Some(k) => {
            assert(h(wins[k]));
            if k <= i {
                assert forall|j: int| 0 <= j < k implies (#[trigger] wins[j]).id != id by {
                    assert(!h(wins[j]));
                }
            } else {
                assert(!h(wins[i]));
            }
        },
        None => {
            assert(!h(wins[i]));
        },
    }
}

/// A window that gets the focus is the only one to bear its mark, and nothing else changes.
pub proof fn focus_moves_the_mark_alone(d: Desk, idx: int, j: int)
    requires
        0 <= idx < d.wins.len(),
        0 <= j < d.wins.len(),
    ensures
        d.focus_on(idx).focused == idx,
        d.focus_on(idx).dirty == d.dirty,
        d.focus_on(idx).wins.len() == d.wins.len(),
        d.focus_on(idx).wins[j] == (Window { focused: j == idx, ..d.wins[j] }),
{
}

/// Raising a window that is not on top yet makes for a new picture; one on top stays, and so
/// does everything.
pub proof fn raise_is_seen(d: Desk, idx: int)
    requires
        0 <= idx < d.wins.len(),
    ensures
        idx < d.wins.len() - 1 ==> d.raised(idx).dirty,
        idx == d.wins.len() - 1 ==> d.raised(idx) == d,
{
}

/// A window that is taken away leaves all others as they are and in their order. The focus
/// stays with its window; where that is the one that goes, the window above it gets the focus,
/// or the topmost one where there is none above. The picture is new.
pub proof fn removal_moves_the_focus_up(d: Desk, idx: int, j: int)
    requires
        d.focus_ok(),
        0 <= idx < d.wins.len(),
        0 <= j < d.wins.len(),
        j != idx,
    ensures
        d.without(idx).dirty,
        d.without(idx).wins.len() == d.wins.len() - 1,
        ({
            let now = d.without(idx).wins[if j < idx { j } else { j - 1 }];
            let heir = if d.focused != idx {
                d.focused
            } else if idx == d.wins.len() - 1 {
                idx - 1
            } else {
                idx + 1
            };
            now == (Window { focused: j == heir, ..d.wins[j] })
        }),
{
}

/// The last window leaves an empty desk.
pub proof fn removal_of_the_last_window(d: Desk)
    requires
        d.wins.len() == 1,
    ensures
        d.without(0).wins.len() == 0,
        d.without(0).focused == 0,
        d.without(0).dirty,
{
}

/// A maximized window fills the screen below the panel, which is 32 pixels high, is to be drawn
/// at that size, and remembers its place; no other window changes, and the background never does.
pub proof fn maximized_fills_the_workarea(d: Desk, idx: int, geom: (u32, u32), frame: u32, j: int)
    requires
        0 <= idx < d.wins.len(),
        0 <= j < d.wins.len(),
    ensures
        j != idx || d.wins[idx].bg ==> d.maximize_toggled(idx, geom, frame).wins[j] == d.wins[j],
        d.maximize_toggled(idx, geom, frame).wins.len() == d.wins.len(),
        d.maximize_toggled(idx, geom, frame).focused == d.focused,
        !d.wins[idx].bg ==> d.maximize_toggled(idx, geom, frame).dirty,
        d.wins[idx].bg ==> d.maximize_toggled(idx, geom, frame) == d,
        !d.wins[idx].bg && !d.wins[idx].maximized ==> {
            let w = d.maximize_toggled(idx, geom, frame).wins[idx];
            &&& w.maximized && w.sized
            &&& w.rect.0 == 0 && w.rect.1 == 32 && w.rect.2 == geom.0
            &&& geom.1 >= 32 ==> w.rect.1 + w.rect.3 == geom.1
            &&& geom.1 < 32 ==> w.rect.3 == 0
            &&& w.state.target_w == w.rect.2 && w.state.target_h == w.rect.3
            &&& w.saved_rect == Some(d.wins[idx].rect)
            &&& w.last_active_frame == frame
            &&& w.id == d.wins[idx].id && w.focused == d.wins[idx].focused && w.minimized == d.wins[idx].minimized
            &&& w.state.events == d.wins[idx].state.events && w.state.pixels == d.wins[idx].state.pixels
        },
        !d.wins[idx].bg && d.wins[idx].maximized ==> {
            let w = d.maximize_toggled(idx, geom, frame).wins[idx];
            &&& !w.maximized && w.sized
            &&& w.last_active_frame == frame
            &&& d.wins[idx].saved_rect matches Some(r) ==> w.rect == r && w.saved_rect is None && w.state.target_w == r.2
                && w.state.target_h == r.3
            &&& d.wins[idx].saved_rect is None ==> w.rect == d.wins[idx].rect
        },
{
}

/// An activated window is shown, on top and the only one in focus, and counts as active; all
/// others keep their order and everything but the focus.
pub proof fn activation_brings_forward(d: Desk, id: u32, frame: u32, i: int, j: int)
    requires
        0 <= i < d.wins.len(),
        d.wins[i].id == id,
        forall|k: int| 0 <= k < d.wins.len() && k != i ==> (#[trigger] d.wins[k]).id != id,
        0 <= j < d.wins.len(),
        j != i,
    ensures
        d.activated(id, frame).wins.len() == d.wins.len(),
        d.activated(id, frame).focused == d.wins.len() - 1,
        d.activated(id, frame).dirty,
        d.activated(id, frame).wins.last() == (Window {
            minimized: false,
            focused: true,
            last_active_frame: frame,
            ..d.wins[i]
        }),
        d.activated(id, frame).wins[if j < i { j } else { j - 1 }] == (Window { focused: false, ..d.wins[j] }),
{
    searches_find(d.wins, id, i);
}

/// Activating an id that no window bears changes nothing.
pub proof fn activation_of_nobody(d: Desk, id: u32, frame: u32)
    requires
        forall|k: int| 0 <= k < d.wins.len() ==> (#[trigger] d.wins[k]).id != id,
    ensures
        d.activated(id, frame) == d,
{
    let h = has_id(id);
    first_is_first(d.wins, 0, h);
    if let Some(k) = with_id(d.wins, id) {
        assert(h(d.wins[k]));
    }
}

/// When a window is hidden, the focus goes to the topmost window that can still be seen.
pub proof fn focus_goes_to_the_top_visible(d: Desk, i: int)
    requires
        0 <= i < d.wins.len(),
        !d.wins[i].bg && !d.wins[i].minimized,
        forall|j: int| #![trigger d.wins[j]] i < j < d.wins.len() ==> d.wins[j].bg || d.wins[j].minimized,
    ensures
        d.focus_visible().focused == i,
        d.focus_visible().wins == d.focus_on(i).wins,
        d.focus_visible().dirty == d.dirty,
{
    let p = is_visible();
    topmost_is_topmost(d.wins, d.wins.len() as int, p);
    match crate::wt::wm::topmost(d.wins, d.wins.len() as int, p) {
        Some(k) => {
            assert(p(d.wins[k]));
            if k < i {
                assert(!p(d.wins[i]));
            }
        },
        None => {
            assert(!p(d.wins[i]));
        },
    }
}

/// What a window is told at a point of the screen: behind what waits in its queue comes a move of
/// the mouse to that point as counted from the window's own corner, and then what happened there.
/// The window counts as active; nothing else of it changes, and no other window does.
pub proof fn told_window_gets_the_place_and_the_event(
    before: Desk,
    after: Desk,
    idx: int,
    sx: int,
    sy: int,
    e: GfxEvt,
    frame: u32,
    j: int,
)
    requires
        desk_told(before, after, idx, sx, sy, seq![e], frame),
        0 <= j < before.wins.len(),
    ensures
        0 <= idx < before.wins.len(),
        after.wins.len() == before.wins.len(),
        after.focused == before.focused,
        after.dirty == before.dirty,
        j != idx ==> after.wins[j] == before.wins[j],
        ({
            let (was, now) = (before.wins[idx].state.events@, after.wins[idx].state.events@);
            &&& now.len() == was.len() + 2
            &&& now.subrange(0, was.len() as int) == was
            &&& now[was.len() as int].kind == 1
            &&& crate::raster::float::is_converted((sx - before.wins[idx].rect.0) as i32, now[was.len() as int].p0)
            &&& crate::raster::float::is_converted((sy - before.wins[idx].rect.1) as i32, now[was.len() as int].p1)
            &&& now[was.len() as int].p2 == 0
            &&& now[was.len() as int + 1] == e
        }),
        after.wins[idx].last_active_frame == frame,
        after.wins[idx] == (Window {
            last_active_frame: frame,
            state: WmState { events: after.wins[idx].state.events, ..before.wins[idx].state },
            ..before.wins[idx]
        }),
{
    let n = before.wins[idx].state.events@.len() as int;
    let now = after.wins[idx].state.events@;
    assert(now.subrange(n + 1, n + 2)[0] == now[n + 1]);
}

/// A move alone is told as the place alone.
pub proof fn told_window_gets_the_place(
    before: Desk,
    after: Desk,
    idx: int,
    sx: int,
    sy: int,
    frame: u32,
    j: int,
)
    requires
        desk_told(before, after, idx, sx, sy, Seq::empty(), frame),
        0 <= j < before.wins.len(),
    ensures
        0 <= idx < before.wins.len(),
        after.wins.len() == before.wins.len(),
        after.focused == before.focused,
        after.dirty == before.dirty,
        j != idx ==> after.wins[j] == before.wins[j],
        ({
            let (was, now) = (before.wins[idx].state.events@, after.wins[idx].state.events@);
            &&& now.len() == was.len() + 1
            &&& now.subrange(0, was.len() as int) == was
            &&& now.last().kind == 1
            &&& crate::raster::float::is_converted((sx - before.wins[idx].rect.0) as i32, now.last().p0)
            &&& crate::raster::float::is_converted((sy - before.wins[idx].rect.1) as i32, now.last().p1)
            &&& now.last().p2 == 0
        }),
        after.wins[idx].last_active_frame == frame,
        after.wins[idx].rect == before.wins[idx].rect && after.wins[idx].focused == before.wins[idx].focused,
{
}

/// A press of the left button on a window brings it to the top and into focus and tells it of the
/// press. All others keep their order and everything but the focus.
pub proof fn press_brings_the_window_forward(
    before: Desk,
    after: Desk,
    px: int,
    py: int,
    frame: u32,
    i: int,
    j: int,
)
    requires
        left_down(before, after, px, py, frame),
        at_point(before.wins, px, py) == Some(i),
        0 <= i < before.wins.len(),
        0 <= j < before.wins.len(),
        j != i,
    ensures
        after.wins.len() == before.wins.len(),
        after.focused == before.wins.len() - 1,
        after.wins[if j < i { j } else { j - 1 }] == (Window { focused: false, ..before.wins[j] }),
        ({
            let (was, now) = (before.wins[i], after.wins.last());
            let n = was.state.events@.len() as int;
            &&& now.id == was.id && now.rect == was.rect && now.focused && now.last_active_frame == frame
            &&& now.state.events@.len() == n + 2
            &&& now.state.events@.subrange(0, n) == was.state.events@
            &&& now.state.events@[n].kind == 1
            &&& now.state.events@[n + 1] == (GfxEvt { kind: 2, p0: 0, p1: 1, p2: 0 })
        }),
        i < before.wins.len() - 1 ==> after.dirty,
{
    let e = GfxEvt { kind: 2, p0: 0, p1: 1, p2: 0 };
    let mid = crate::wt::input::pressed_on(before, i, frame);
    told_window_gets_the_place_and_the_event(
        mid,
        after,
        before.wins.len() - 1,
        px,
        py,
        e,
        frame,
        if j < i { j } else { j - 1 },
    );
}

/// A press on the bare desktop is told to the background, which stays below and without the
/// focus; without a background nothing happens.
pub proof fn press_on_the_desktop(before: Desk, after: Desk, px: int, py: int, frame: u32, b: int, j: int)
    requires
        left_down(before, after, px, py, frame),
        at_point(before.wins, px, py) is None,
        0 <= b < before.wins.len(),
        0 <= j < before.wins.len(),
        j != b,
    ensures
        background(before.wins) is None ==> after == before,
        background(before.wins) == Some(b) ==> {
            &&& after.wins.len() == before.wins.len()
            &&& after.focused == before.focused
            &&& after.dirty == before.dirty
            &&& after.wins[j] == before.wins[j]
            &&& after.wins[b].state.events@.len() == before.wins[b].state.events@.len() + 2
            &&& after.wins[b].state.events@.last() == (GfxEvt { kind: 2, p0: 0, p1: 1, p2: 0 })
            &&& after.wins[b].focused == before.wins[b].focused
        },
{
    if background(before.wins) == Some(b) {
        let e = GfxEvt { kind: 2, p0: 0, p1: 1, p2: 0 };
        told_window_gets_the_place_and_the_event(before, after, b, px, py, e, frame, j);
    }
}

/// A release of the left button is told to the window that was dragged; else, over the bare
/// desktop, to the background; else to the window in focus. No window moves in the stack.
pub proof fn release_reaches_its_window(
    before: Desk,
    after: Desk,
    drag: Option<DragState>,
    px: int,
    py: int,
    frame: u32,
    i: int,
    j: int,
)
    requires
        left_up(before, after, drag, px, py, frame),
        0 <= i < before.wins.len(),
        0 <= j < before.wins.len(),
        j != i,
        match drag {
            Some(g) => with_id(before.wins, g.win_id) == Some(i),
            None => if at_point(before.wins, px, py) is None && background(before.wins) is Some {
                background(before.wins) == Some(i)
            } else {
                before.focused == i
            },
        },
    ensures
        after.wins.len() == before.wins.len(),
        after.focused == before.focused,
        after.dirty == before.dirty,
        after.wins[j] == before.wins[j],
        ({
            let (was, now) = (before.wins[i], after.wins[i]);
            let n = was.state.events@.len() as int;
            &&& now.id == was.id && now.rect == was.rect && now.focused == was.focused && now.last_active_frame == frame
            &&& now.state.events@.len() == n + 2
            &&& now.state.events@.subrange(0, n) == was.state.events@
            &&& now.state.events@[n].kind == 1
            &&& now.state.events@[n + 1] == (GfxEvt { kind: 2, p0: 0, p1: 0, p2: 0 })
        }),
{
    let e = GfxEvt { kind: 2, p0: 0, p1: 0, p2: 0 };
    told_window_gets_the_place_and_the_event(before, after, i, px, py, e, frame, j);
}

/// A point belongs to the topmost window there, and to the background where there is none.
pub proof fn point_belongs_to_a_window_or_the_background(wins: Seq<Window>, px: int, py: int)
    ensures
        at_point(wins, px, py) is Some ==> under(wins, px, py) == at_point(wins, px, py),
        at_point(wins, px, py) is None ==> under(wins, px, py) == background(wins),
{
}

/// A key goes behind what waits in a window's queue, and changes nothing else.
pub proof fn key_is_queued(before: Window, after: Window, e: GfxEvt)
    requires
        crate::wt::input::queued(before, after, e),
    ensures
        after.state.events@.len() == before.state.events@.len() + 1,
        after.state.events@.last() == e,
        after.state.events@.subrange(0, before.state.events@.len() as int) == before.state.events@,
        after == (Window { state: WmState { events: after.state.events, ..before.state }, ..before }),
{
    assert(after.state.events@.subrange(0, before.state.events@.len() as int) =~= before.state.events@);
}

/// Places left of or above the screen are kept in the upper half of the words: a word stands for the
/// one number of its residue that a signed word can hold.
pub proof fn words_hold_signed_places(v: u32)
    ensures
        i32::MIN <= signed(v) <= i32::MAX,
        (v - signed(v)) % 0x1_0000_0000 == 0,
{
}

} // verus!
