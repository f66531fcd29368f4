//! Laws of what the compositor does once per frame: which requests lead to what, what is listed
//! and what is composed.

use vstd::prelude::*;
use crate::wt::cycle::{composed, controlled, drained, ended, to_compose, FrameEnd};
use crate::wt::frame::{
    activations, all_activated, bg_answered, capped, controls_answered, drag_after, is_snapshot, launches, layers,
    layers_above, listed, maximize_answered, minimize_answered, move_answered, pinned, Layer, TaskEntry,
};
use crate::wt::stacking::{activation_brings_forward, activation_of_nobody};
use crate::wt::window::WmState;
use crate::wt::wm::{background, dragged_to, is_visible, topmost_is_topmost, Desk, DragState, Window};

verus! {

/// Whether a window is composed above the background: it is not hidden and has drawn something.
pub open spec fn is_shown(wins: Seq<Window>, i: int) -> bool {
    &&& 0 <= i < wins.len()
    &&& background(wins) != Some(i)
    &&& !wins[i].minimized
    &&& wins[i].state.pixels@.len() > 0
}

proof fn lemma_above(wins: Seq<Window>, n: int, i: int)
    requires
        0 <= n <= wins.len() <= usize::MAX,
    ensures
        forall|k: int| #![trigger layers_above(wins, n)[k]]
            0 <= k < layers_above(wins, n).len() ==> {
                let l = layers_above(wins, n)[k];
                &&& l.win < n
                &&& is_shown(wins, l.win as int)
                &&& l.x == wins[l.win as int].rect.0 && l.y == wins[l.win as int].rect.1
                &&& l.w == wins[l.win as int].state.win_w && l.h == wins[l.win as int].state.win_h
                &&& l.shadow
            },
        forall|j: int, k: int| #![trigger layers_above(wins, n)[j], layers_above(wins, n)[k]]
            0 <= j < k < layers_above(wins, n).len() ==> layers_above(wins, n)[j].win < layers_above(wins, n)[k].win,
        is_shown(wins, i) && i < n ==> exists|k: int|
            0 <= k < layers_above(wins, n).len() && #[trigger] layers_above(wins, n)[k].win == i,
    decreases n,
{
    if n > 0 {
        lemma_above(wins, n - 1, i);
        let below = layers_above(wins, n - 1);
        let all = layers_above(wins, n);
        if is_shown(wins, n - 1) {
            assert(all.len() == below.len() + 1);
            assert(forall|k: int| 0 <= k < below.len() ==> #[trigger] all[k] == below[k]);
            assert(all[below.len() as int].win == n - 1);
            if is_shown(wins, i) && i < n - 1 {
                let k = choose|k: int| 0 <= k < below.len() && #[trigger] below[k].win == i;
                assert(all[k].win == i);
            }
        } else {
            assert(all == below);
        }
    }
}

/// What is composed lies in the order of the windows, each one at its own place and in the size
/// of its last surface, with a shadow: every window that is in sight and has drawn, and no other.
/// The background comes first, at the corner of the screen and without a shadow.
pub proof fn layers_follow_the_stack(wins: Seq<Window>, i: int)
    requires
        wins.len() <= usize::MAX,
    ensures
        ({
            let all = layers(wins);
            let b = background(wins);
            let first = if b is Some && wins[b->0].state.pixels@.len() > 0 { 1int } else { 0 };
            &&& first == 1 ==> all.len() > 0 && all[0] == (Layer {
                win: b->0 as usize,
                x: 0,
                y: 0,
                w: wins[b->0].state.win_w,
                h: wins[b->0].state.win_h,
                shadow: false,
            })
            &&& forall|k: int| #![trigger all[k]]
                first <= k < all.len() ==> {
                    let l = all[k];
                    let w = wins[l.win as int];
                    &&& l.win < wins.len()
                    &&& b != Some(l.win as int) && !w.minimized && w.state.pixels@.len() > 0
                    &&& l.x == w.rect.0 && l.y == w.rect.1 && l.w == w.state.win_w && l.h == w.state.win_h
                    &&& l.shadow
                }
            &&& forall|j: int, k: int| #![trigger all[j], all[k]] first <= j < k < all.len() ==> all[j].win < all[k].win
            &&& 0 <= i < wins.len() && b != Some(i) && !wins[i].minimized && wins[i].state.pixels@.len() > 0
                ==> exists|k: int| first <= k < all.len() && #[trigger] all[k].win == i
        }),
{
    let n = wins.len() as int;
    lemma_above(wins, n, i);
    let above = layers_above(wins, n);
    let all = layers(wins);
    let b = background(wins);
    let first = if b is Some && wins[b->0].state.pixels@.len() > 0 { 1int } else { 0 };
    assert(all.len() == above.len() + first);
    assert forall|k: int| first <= k < all.len() implies #[trigger] all[k] == above[k - first] by {}
    if is_shown(wins, i) {
        let k = choose|k: int| 0 <= k < above.len() && #[trigger] above[k].win == i;
        assert(all[k + first].win == i);
    }
}

/// At most 64 windows are composed: the lowest ones.
pub proof fn only_so_many_layers(s: Seq<Layer>, k: int)
    requires
        0 <= k < s.len(),
    ensures
        capped(s).len() <= 64,
        capped(s).len() == s.len() || capped(s).len() == 64,
        k < capped(s).len() ==> capped(s)[k] == s[k],
        s.len() <= 64 ==> capped(s) == s,
{
}

/// The background fills the screen, whatever it was before, and no other window moves.
pub proof fn background_fills_the_screen(wins: Seq<Window>, geom: (u32, u32), b: int, j: int)
    requires
        background(wins) == Some(b),
        0 <= b < wins.len(),
        0 <= j < wins.len(),
        j != b,
    ensures
        pinned(wins, geom).len() == wins.len(),
        pinned(wins, geom)[b] == (Window { rect: (0, 0, geom.0, geom.1), ..wins[b] }),
        pinned(wins, geom)[j] == wins[j],
{
}

/// A window becomes the background exactly where it asked for it or is it already, and its
/// request is answered by that.
pub proof fn background_by_request(w: Window)
    ensures
        bg_answered(w).bg <==> w.bg || w.state.bg_request,
        !bg_answered(w).state.bg_request,
        bg_answered(w) == (Window {
            bg: bg_answered(w).bg,
            state: WmState { bg_request: false, ..w.state },
            ..w
        }),
{
}

proof fn lemma_drag(wins: Seq<Window>, n: int, drag: Option<DragState>, cx: int, cy: int, i: int)
    requires
        0 <= n <= wins.len(),
        0 <= i < n ==> wins[i].state.move_requested && !wins[i].bg,
        forall|j: int| #![trigger wins[j]] (if 0 <= i < n { i + 1 } else { 0 }) <= j < n ==> !wins[j].state.move_requested || wins[j].bg,
    ensures
        0 <= i < n ==> drag_after(wins, n, drag, cx, cy) == Some(
            DragState {
                win_id: wins[i].id,
                grab_dx: (cx - wins[i].rect.0) as i32,
                grab_dy: (cy - wins[i].rect.1) as i32,
            },
        ),
        !(0 <= i < n) ==> drag_after(wins, n, drag, cx, cy) == drag,
    decreases n,
{
    if n > 0 && i != n - 1 {
        assert(!wins[n - 1].state.move_requested || wins[n - 1].bg);
        lemma_drag(wins, n - 1, drag, cx, cy, i);
    }
}

/// The last window that asks to be moved and is not the background is dragged from now on, taken
/// hold of where the cursor is; where none asks, a drag under way goes on.
pub proof fn last_request_is_dragged(
    wins: Seq<Window>,
    drag: Option<DragState>,
    cx: i32,
    cy: i32,
    i: int,
)
    requires
        0 <= i < wins.len(),
        wins[i].rect.0 <= i32::MAX,
        wins[i].rect.1 <= i32::MAX,
        0 <= cx,
        0 <= cy,
    ensures
        wins[i].state.move_requested && !wins[i].bg && (forall|j: int| #![trigger wins[j]]
            i < j < wins.len() ==> !wins[j].state.move_requested || wins[j].bg) ==> {
            &&& drag_after(wins, wins.len() as int, drag, cx as int, cy as int) matches Some(g)
            &&& g.win_id == wins[i].id
            &&& g.grab_dx == cx - wins[i].rect.0
            &&& g.grab_dy == cy - wins[i].rect.1
        },
        (forall|j: int| #![trigger wins[j]] 0 <= j < wins.len() ==> !wins[j].state.move_requested || wins[j].bg)
            ==> drag_after(wins, wins.len() as int, drag, cx as int, cy as int) == drag,
{
    if wins[i].state.move_requested && !wins[i].bg && (forall|j: int| #![trigger wins[j]]
        i < j < wins.len() ==> !wins[j].state.move_requested || wins[j].bg) {
        lemma_drag(wins, wins.len() as int, drag, cx as int, cy as int, i);
    }
    if forall|j: int| #![trigger wins[j]] 0 <= j < wins.len() ==> !wins[j].state.move_requested || wins[j].bg {
        lemma_drag(wins, wins.len() as int, drag, cx as int, cy as int, -1);
    }
}

/// A window that was taken hold of moves by as much as the cursor does since, as long as it stays
/// on the screen: it does not jump to the cursor.
pub proof fn dragging_moves_by_the_cursor(
    wins: Seq<Window>,
    i: int,
    cx: i32,
    cy: i32,
    nx: i32,
    ny: i32,
    geom: (u32, u32),
)
    requires
        0 <= i < wins.len(),
        wins[i].state.move_requested && !wins[i].bg,
        forall|j: int| #![trigger wins[j]] i < j < wins.len() ==> !wins[j].state.move_requested || wins[j].bg,
        geom.0 <= i32::MAX,
        geom.1 <= i32::MAX,
        wins[i].rect.0 <= i32::MAX,
        wins[i].rect.1 <= i32::MAX,
        0 <= cx,
        0 <= cy,
        0 <= wins[i].rect.0 + (nx - cx),
        0 <= wins[i].rect.1 + (ny - cy),
        wins[i].rect.0 + (nx - cx) + wins[i].rect.2 <= geom.0,
        wins[i].rect.1 + (ny - cy) + wins[i].rect.3 <= geom.1,
    ensures
        drag_after(wins, wins.len() as int, None, cx as int, cy as int) matches Some(g) && {
            let r = dragged_to(wins[i], geom, (nx, ny), (g.grab_dx, g.grab_dy));
            &&& r.0 == wins[i].rect.0 + (nx - cx)
            &&& r.1 == wins[i].rect.1 + (ny - cy)
            &&& r.2 == wins[i].rect.2 && r.3 == wins[i].rect.3
        },
{
    lemma_drag(wins, wins.len() as int, None, cx as int, cy as int, i);
}

/// A window that asks to be hidden is, unless it is the background. Where it was in focus the
/// focus goes to the topmost window that can still be seen.
pub proof fn hiding_by_request(d: Desk, i: int, j: int)
    requires
        d.focus_ok(),
        0 <= i < d.wins.len(),
        0 <= j < d.wins.len(),
    ensures
        ({
            let now = minimize_answered(d, i);
            let w = now.wins[i];
            &&& now.wins.len() == d.wins.len()
            &&& now.focus_ok()
            &&& !w.state.minimize_request
            &&& w.minimized <==> d.wins[i].minimized || d.wins[i].state.minimize_request && !d.wins[i].bg
            &&& !d.wins[i].state.minimize_request ==> now == d
            &&& d.wins[i].state.minimize_request && !d.wins[i].bg ==> now.dirty
            &&& j != i ==> now.wins[j] == (Window { focused: now.wins[j].focused, ..d.wins[j] })
            &&& w == (Window {
                minimized: w.minimized,
                focused: w.focused,
                state: WmState { minimize_request: false, ..d.wins[i].state },
                ..d.wins[i]
            })
            &&& d.focused != i ==> now.focused == d.focused
            &&& d.focused == i && d.wins[i].state.minimize_request && !d.wins[i].bg ==> {
                ||| now.focused != i && !now.wins[now.focused].bg && !now.wins[now.focused].minimized && forall|k: int|
                    #![trigger now.wins[k]]
                    now.focused < k < now.wins.len() ==> now.wins[k].bg || now.wins[k].minimized
                ||| now.focused == i && forall|k: int| #![trigger now.wins[k]] 0 <= k < now.wins.len() ==> now.wins[k].bg
                    || now.wins[k].minimized
            }
        }),
{
    let w = d.wins[i];
    if w.state.minimize_request && !w.bg && d.focused == i {
        let h = crate::wt::frame::hidden(d, i, true);
        let p = is_visible();
        topmost_is_topmost(h.wins, h.wins.len() as int, p);
        let now = minimize_answered(d, i);
        match crate::wt::wm::topmost(h.wins, h.wins.len() as int, p) {
            Some(t) => {
                assert(p(h.wins[t]));
                lemma_focus_on_the_top(h, t);
                assert forall|k: int| #![trigger now.wins[k]] now.focused < k < now.wins.len() implies now.wins[k].bg
                    || now.wins[k].minimized by {
                    assert(!p(h.wins[k]));
                }
            },
            None => {
                assert forall|k: int| #![trigger now.wins[k]] 0 <= k < now.wins.len() implies now.wins[k].bg
                    || now.wins[k].minimized by {
                    assert(!p(h.wins[k]));
                }
            },
        }
    }
}

proof fn lemma_focus_on_the_top(h: Desk, t: int)
    requires
        0 <= t < h.wins.len(),
        crate::wt::wm::topmost(h.wins, h.wins.len() as int, is_visible()) == Some(t),
    ensures
        h.focus_visible() == h.focus_on(t),
{
}

/// A window that asks to be maximized or restored is, once, unless it is the background.
pub proof fn maximizing_by_request(d: Desk, i: int, geom: (u32, u32), frame: u32, j: int)
    requires
        0 <= i < d.wins.len(),
        0 <= j < d.wins.len(),
    ensures
        ({
            let now = maximize_answered(d, i, geom, frame);
            &&& now.wins.len() == d.wins.len()
            &&& now.focused == d.focused
            &&& !now.wins[i].state.maximize_request
            &&& now.wins[i].maximized <==> (d.wins[i].maximized != (d.wins[i].state.maximize_request && !d.wins[i].bg))
            &&& j != i ==> now.wins[j] == d.wins[j]
            &&& !d.wins[i].state.maximize_request ==> now == d
            &&& d.wins[i].bg ==> now.wins[i].rect == d.wins[i].rect
            &&& d.wins[i].state.maximize_request && !d.wins[i].bg && !d.wins[i].maximized ==> now.wins[i].rect.0 == 0
                && now.wins[i].rect.1 == 32 && now.wins[i].rect.2 == geom.0
            &&& now.wins[i].minimized == d.wins[i].minimized && now.wins[i].id == d.wins[i].id
            &&& now.wins[i].focused == d.wins[i].focused
        }),
{
}

proof fn lemma_controls(d: Desk, n: int, geom: (u32, u32), frame: u32, i: int)
    requires
        d.focus_ok(),
        0 <= n <= d.wins.len(),
        0 <= i < d.wins.len(),
    ensures
        ({
            let now = controls_answered(d, n, geom, frame);
            &&& now.wins.len() == d.wins.len()
            &&& now.focus_ok()
            &&& i >= n ==> now.wins[i] == (Window { focused: now.wins[i].focused, ..d.wins[i] })
            &&& i < n ==> {
                let (was, w) = (d.wins[i], now.wins[i]);
                &&& w.id == was.id && w.bg == was.bg && w.alive == was.alive
                &&& !w.state.minimize_request && !w.state.maximize_request
                &&& w.minimized <==> was.minimized || was.state.minimize_request && !was.bg
                &&& w.maximized <==> (was.maximized != (was.state.maximize_request && !was.bg))
                &&& !was.state.maximize_request || was.bg ==> w.rect == was.rect
                &&& was.state.maximize_request && !was.bg && !was.maximized ==> w.rect.0 == 0 && w.rect.1 == 32
                    && w.rect.2 == geom.0
            }
        }),
    decreases n,
{
    if n > 0 {
        lemma_controls(d, n - 1, geom, frame, i);
        lemma_controls(d, n - 1, geom, frame, n - 1);
        let before = controls_answered(d, n - 1, geom, frame);
        let mid = minimize_answered(before, n - 1);
        hiding_by_request(before, n - 1, i);
        maximizing_by_request(mid, n - 1, geom, frame, i);
        lemma_maximize_keeps_focus(mid, n - 1, geom, frame);
    }
}

proof fn lemma_maximize_keeps_focus(d: Desk, i: int, geom: (u32, u32), frame: u32)
    requires
        d.focus_ok(),
        0 <= i < d.wins.len(),
    ensures
        maximize_answered(d, i, geom, frame).focus_ok(),
{
}

/// In each frame every window gets what it asked for, and only that: it is hidden where it asked
/// for it, and maximized or restored where it asked for that. No window changes its place in the
/// stack, and no request is left.
pub proof fn every_request_is_answered(d: Desk, geom: (u32, u32), frame: u32, i: int)
    requires
        d.focus_ok(),
        0 <= i < d.wins.len(),
    ensures
        ({
            let now = controls_answered(d, d.wins.len() as int, geom, frame);
            let (was, w) = (d.wins[i], now.wins[i]);
            &&& now.wins.len() == d.wins.len()
            &&& now.focus_ok()
            &&& w.id == was.id && w.bg == was.bg && w.alive == was.alive
            &&& !w.state.minimize_request && !w.state.maximize_request
            &&& w.minimized <==> was.minimized || was.state.minimize_request && !was.bg
            &&& w.maximized <==> (was.maximized != (was.state.maximize_request && !was.bg))
            &&& !was.state.maximize_request || was.bg ==> w.rect == was.rect
            &&& was.state.maximize_request && !was.bg && !was.maximized ==> w.rect.0 == 0 && w.rect.1 == 32 && w.rect.2
                == geom.0
        }),
{
    lemma_controls(d, d.wins.len() as int, geom, frame, i);
}

proof fn lemma_requests(a: Seq<Window>, b: Seq<Window>, n: int)
    requires
        0 <= n <= a.len(),
        n <= b.len(),
        forall|k: int| 0 <= k < n ==> #[trigger] a[k] == b[k],
    ensures
        activations(a, n) == activations(b, n),
        launches(a, n) == launches(b, n),
    decreases n,
{
    if n > 0 {
        lemma_requests(a, b, n - 1);
        assert(a[n - 1] == b[n - 1]);
    }
}

/// What windows ask to activate or to launch is taken in the order of the windows, and of each
/// window in the order in which it asked.
pub proof fn requests_are_taken_in_order(a: Seq<Window>, b: Seq<Window>, w: Window)
    ensures
        activations(a + b, (a + b).len() as int) == activations(a, a.len() as int) + activations(b, b.len() as int),
        activations(seq![w], 1) == w.state.activate_request@,
        launches(a + b, (a + b).len() as int) == launches(a, a.len() as int) + launches(b, b.len() as int),
        launches(seq![w], 1) == w.state.spawn_request@,
    decreases b.len(),
{
    reveal_with_fuel(activations, 2);
    reveal_with_fuel(launches, 2);
    assert(activations(seq![w], 1) =~= w.state.activate_request@);
    assert(launches(seq![w], 1) =~= w.state.spawn_request@);
    if b.len() == 0 {
        assert(a + b =~= a);
    } else {
        let c = b.drop_last();
        requests_are_taken_in_order(a, c, w);
        lemma_requests(a + b, a + c, (a + c).len() as int);
        lemma_requests(b, c, c.len() as int);
        assert((a + b)[(a + b).len() - 1] == b[b.len() - 1]);
        assert(activations(a + b, (a + b).len() as int) =~= activations(a, a.len() as int) + activations(
            b,
            b.len() as int,
        ));
        assert(launches(a + b, (a + b).len() as int) =~= launches(a, a.len() as int) + launches(b, b.len() as int));
    }
}

/// Whether each id is that of one window at most.
pub open spec fn ids_differ(wins: Seq<Window>) -> bool {
    forall|i: int, j: int| 0 <= i < j < wins.len() ==> (#[trigger] wins[i]).id != (#[trigger] wins[j]).id
}

/// Whether some window bears an id.
pub open spec fn bears(wins: Seq<Window>, id: u32) -> bool {
    exists|i: int| 0 <= i < wins.len() && (#[trigger] wins[i]).id == id
}

proof fn lemma_activation_keeps_ids(d: Desk, id: u32, frame: u32, other: u32)
    requires
        ids_differ(d.wins),
    ensures
        d.activated(id, frame).wins.len() == d.wins.len(),
        ids_differ(d.activated(id, frame).wins),
        bears(d.activated(id, frame).wins, other) == bears(d.wins, other),
{
    let now = d.activated(id, frame);
    if bears(d.wins, id) {
        let i = choose|i: int| 0 <= i < d.wins.len() && (#[trigger] d.wins[i]).id == id;
        let top = d.wins.len() - 1;
        crate::wt::stacking::searches_find(d.wins, id, i);
        assert(now.wins.len() == d.wins.len());
        assert forall|k: int| 0 <= k < now.wins.len() implies (#[trigger] now.wins[k]).id == d.wins[if k == top {
            i
        } else if k < i {
            k
        } else {
            k + 1
        }].id by {}
        if bears(d.wins, other) {
            let j = choose|j: int| 0 <= j < d.wins.len() && (#[trigger] d.wins[j]).id == other;
            assert(now.wins[if j == i { top } else if j < i { j } else { j - 1 }].id == other);
        }
    } else {
        activation_of_nobody(d, id, frame);
    }
}

/// Of several windows that are activated one after the other, the last one ends up on top, in
/// focus and in sight.
pub proof fn last_activation_is_on_top(d: Desk, ids: Seq<u32>, frame: u32)
    requires
        ids_differ(d.wins),
        ids.len() > 0,
        bears(d.wins, ids.last()),
    ensures
        ({
            let now = all_activated(d, ids, frame);
            &&& now.wins.len() == d.wins.len()
            &&& now.wins.last().id == ids.last()
            &&& now.wins.last().focused && !now.wins.last().minimized
            &&& now.focused == now.wins.len() - 1
        }),
{
    lemma_all_activated(d, ids.drop_last(), frame, ids.last());
    let before = all_activated(d, ids.drop_last(), frame);
    let id = ids.last();
    let i = choose|i: int| 0 <= i < before.wins.len() && (#[trigger] before.wins[i]).id == id;
    crate::wt::stacking::searches_find(before.wins, id, i);
    if before.wins.len() > 1 {
        activation_brings_forward(before, id, frame, i, if i == 0 { 1 } else { 0 });
    }
}

proof fn lemma_all_activated(d: Desk, ids: Seq<u32>, frame: u32, other: u32)
    requires
        ids_differ(d.wins),
    ensures
        ids_differ(all_activated(d, ids, frame).wins),
        bears(all_activated(d, ids, frame).wins, other) == bears(d.wins, other),
        all_activated(d, ids, frame).wins.len() == d.wins.len(),
    decreases ids.len(),
{
    if ids.len() > 0 {
        lemma_all_activated(d, ids.drop_last(), frame, other);
        lemma_activation_keeps_ids(all_activated(d, ids.drop_last(), frame), ids.last(), frame, other);
    }
}

proof fn lemma_controls_keep(d: Desk, n: int, geom: (u32, u32), frame: u32, i: int)
    requires
        d.focus_ok(),
        0 <= n <= d.wins.len(),
        0 <= i < d.wins.len(),
    ensures
        ({
            let now = controls_answered(d, n, geom, frame);
            &&& now.wins.len() == d.wins.len()
            &&& now.focus_ok()
            &&& now.wins[i].id == d.wins[i].id
            &&& now.wins[i].state.activate_request == d.wins[i].state.activate_request
        }),
    decreases n,
{
    if n > 0 {
        lemma_controls_keep(d, n - 1, geom, frame, i);
        let before = controls_answered(d, n - 1, geom, frame);
        let mid = minimize_answered(before, n - 1);
        hiding_by_request(before, n - 1, i);
        maximizing_by_request(mid, n - 1, geom, frame, i);
        lemma_maximize_keeps_focus(mid, n - 1, geom, frame);
    }
}

proof fn lemma_same_activations(a: Seq<Window>, b: Seq<Window>, n: int)
    requires
        0 <= n <= a.len(),
        n <= b.len(),
        forall|k: int| 0 <= k < n ==> (#[trigger] a[k]).state.activate_request == b[k].state.activate_request,
    ensures
        activations(a, n) == activations(b, n),
    decreases n,
{
    if n > 0 {
        lemma_same_activations(a, b, n - 1);
        assert(a[n - 1].state.activate_request == b[n - 1].state.activate_request);
    }
}

/// At the end of a frame the window that was activated last is on top, in focus and in sight, even
/// where it asked to be hidden in the same frame; nobody asks for an activation any more, and the
/// picture is up to date. What is composed is made of the windows as they stand then.
pub proof fn a_frame_ends_with_the_last_activation(
    before: Desk,
    after: Desk,
    end: FrameEnd,
    geom: (u32, u32),
    frame: u32,
)
    requires
        before.focus_ok(),
        ids_differ(before.wins),
        ended(before, after, end, geom, frame),
        activations(before.wins, before.wins.len() as int).len() > 0,
        bears(before.wins, activations(before.wins, before.wins.len() as int).last()),
    ensures
        after.wins.len() == before.wins.len(),
        after.wins.last().id == activations(before.wins, before.wins.len() as int).last(),
        after.wins.last().focused && !after.wins.last().minimized,
        after.focused == after.wins.len() - 1,
        !after.dirty,
        end.layers is Some ==> end.layers->0@ == capped(layers(after.wins)),
        is_snapshot(end.tasks@, after),
{
    let moved = Desk { wins: Seq::new(before.wins.len(), |i: int| move_answered(before.wins[i])), ..before };
    let n = before.wins.len() as int;
    let c = controlled(before, geom, frame);
    assert(moved.focus_ok());
    assert forall|i: int| 0 <= i < n implies (#[trigger] c.wins[i]).state.activate_request
        == before.wins[i].state.activate_request && c.wins[i].id == before.wins[i].id by {
        lemma_controls_keep(moved, n, geom, frame, i);
    }
    if n > 0 {
        lemma_controls_keep(moved, n, geom, frame, 0);
    }
    lemma_same_activations(c.wins, before.wins, n);
    let ids = activations(c.wins, c.wins.len() as int);
    let mid = choose|mid: Desk|
        #![trigger drained(c, mid)]
        drained(c, mid) && composed(all_activated(mid, ids, frame), after, end, geom, frame);
    assert forall|i: int| 0 <= i < n implies (#[trigger] mid.wins[i]).id == before.wins[i].id by {
        assert(mid.wins[i].id == c.wins[i].id);
    }
    let w = choose|i: int| 0 <= i < before.wins.len() && (#[trigger] before.wins[i]).id == ids.last();
    assert(mid.wins[w].id == ids.last());
    last_activation_is_on_top(mid, ids, frame);
    let d = all_activated(mid, ids, frame);
    lemma_pinned_is_listed(end.tasks@, d, after, geom);
}

proof fn lemma_pinned_is_listed(tasks: Seq<TaskEntry>, d: Desk, after: Desk, geom: (u32, u32))
    requires
        is_snapshot(tasks, d),
        after.focused == d.focused,
        after.wins == d.wins || after.wins == pinned(d.wins, geom),
    ensures
        is_snapshot(tasks, after),
        after.wins.len() == d.wins.len(),
        forall|i: int|
            0 <= i < d.wins.len() ==> (#[trigger] after.wins[i]) == (Window { rect: after.wins[i].rect, ..d.wins[i] }),
{
    crate::wt::wm::first_is_first(d.wins, 0, crate::wt::wm::is_bg());
    assert forall|i: int| 0 <= i < d.wins.len() implies (#[trigger] after.wins[i]) == (Window {
        rect: after.wins[i].rect,
        ..d.wins[i]
    }) by {}
    lemma_listed_alike(d.wins, after.wins, d.wins.len() as int);
    assert forall|i: int| 0 <= i < after.wins.len() && !(#[trigger] after.wins[i]).bg implies {
        let e = tasks[listed(after.wins, i) as int];
        &&& e.id == after.wins[i].id
        &&& e.title@ == after.wins[i].title@
        &&& e.flags == (if after.wins[i].minimized { 1int } else { 0 }) + (if i == after.focused { 2int } else { 0 })
    } by {
        assert(!d.wins[i].bg);
        lemma_listed_alike(d.wins, after.wins, i);
    }
}

proof fn lemma_listed_alike(a: Seq<Window>, b: Seq<Window>, n: int)
    requires
        0 <= n <= a.len(),
        n <= b.len(),
        forall|k: int| 0 <= k < n ==> (#[trigger] b[k]) == (Window { rect: b[k].rect, ..a[k] }),
    ensures
        listed(a, n) == listed(b, n),
    decreases n,
{
    if n > 0 {
        lemma_listed_alike(a, b, n - 1);
        assert(b[n - 1] == (Window { rect: b[n - 1].rect, ..a[n - 1] }));
    }
}

proof fn lemma_listed(wins: Seq<Window>, i: int, j: int)
    requires
        0 <= i <= j <= wins.len(),
    ensures
        listed(wins, i) <= listed(wins, j),
        i < j && !wins[i].bg ==> listed(wins, i) < listed(wins, j),
        listed(wins, j) <= j,
        listed(wins, j) - listed(wins, i) <= j - i,
        (forall|k: int| i <= k < j ==> !(#[trigger] wins[k]).bg) ==> listed(wins, j) - listed(wins, i) == j - i,
    decreases j,
{
    if i < j {
        lemma_listed(wins, i, j - 1);
    } else if j > 0 {
        lemma_listed(wins, i - 1, j - 1);
    }
}

/// The taskbar lists every window but the background, in the order of the stack: with its id, its
/// title, and a mark of 1 where it is hidden and of 2 where it has the focus.
pub proof fn taskbar_lists_the_windows(snap: Seq<TaskEntry>, d: Desk, i: int, j: int)
    requires
        is_snapshot(snap, d),
        0 <= i < d.wins.len(),
        0 <= j < d.wins.len(),
        !d.wins[i].bg,
        !d.wins[j].bg,
    ensures
        exists|k: int|
            #![trigger snap[k]]
            0 <= k < snap.len() && k <= i && snap[k].id == d.wins[i].id && snap[k].title@ == d.wins[i].title@
                && snap[k].flags == (if d.wins[i].minimized { 1int } else { 0 }) + (if i == d.focused { 2int } else { 0 }),
        i < j ==> exists|k: int, l: int|
            #![trigger snap[k], snap[l]]
            0 <= k < l < snap.len() && snap[k].id == d.wins[i].id && snap[l].id == d.wins[j].id,
        snap.len() <= d.wins.len(),
        (forall|k: int| 0 <= k < d.wins.len() ==> !(#[trigger] d.wins[k]).bg) ==> snap.len() == d.wins.len()
            && snap[i].id == d.wins[i].id,
{
    let n = d.wins.len() as int;
    lemma_listed(d.wins, i, n);
    lemma_listed(d.wins, j, n);
    lemma_listed(d.wins, 0, i);
    lemma_listed(d.wins, 0, n);
    let (k, l) = (listed(d.wins, i) as int, listed(d.wins, j) as int);
    assert(snap[k].id == d.wins[i].id);
    assert(snap[l].id == d.wins[j].id);
    if i < j {
        lemma_listed(d.wins, i, j);
    }
}

/// A frame is composed exactly where something changed, a program drew, or fewer than 90 frames
/// have passed.
pub proof fn frames_are_composed_on_change(d: Desk, frame: u32)
    ensures
        to_compose(d, frame) <==> {
            ||| d.dirty
            ||| frame < 90
            ||| exists|i: int| 0 <= i < d.wins.len() && (#[trigger] d.wins[i]).state.committed
        },
{
}

} // verus!
