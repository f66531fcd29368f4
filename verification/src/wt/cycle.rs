//! The order of things in a frame of the compositor. Between the steps the programs run and
//! new ones are loaded.

use vstd::prelude::*;
use crate::wt::frame::{
    activations, activations_taken, all_activated, capped, controls_answered, drag_after, is_snapshot, layers,
    move_answered, pinned, Layer, TaskEntry,
};
use crate::wt::lifecycle::{dead_ids, dead_windows, doomed, reaped};
use crate::wt::wm::{Compositor, Desk, Window, WARMUP_FRAMES};

verus! {

/// The frame after which the processors that compose are reported, once.
pub const MARKER_FRAME: u32 = 30;

/// What a frame leaves behind: the windows for the taskbar, and what is to be composed, if
/// anything.
pub struct FrameEnd {
    pub tasks: Vec<TaskEntry>,
    pub layers: Option<Vec<Layer>>,
}

/// The desk with the requests to move, hide, maximize and restore answered.
pub open spec fn controlled(d: Desk, geom: (u32, u32), frame: u32) -> Desk {
    controls_answered(
        Desk { wins: Seq::new(d.wins.len(), |i: int| move_answered(d.wins[i])), ..d },
        d.wins.len() as int,
        geom,
        frame,
    )
}

/// `after` is `before` with no window asking to activate another.
pub open spec fn drained(before: Desk, after: Desk) -> bool {
    &&& after.wins.len() == before.wins.len()
    &&& after.focused == before.focused
    &&& after.dirty == before.dirty
    &&& forall|i: int|
        0 <= i < before.wins.len() ==> activations_taken(before.wins[i], #[trigger] after.wins[i])
}

/// Whether a frame is composed: something changed, a program drew, or the compositor is just
/// starting.
pub open spec fn to_compose(d: Desk, frame: u32) -> bool {
    d.dirty || frame < WARMUP_FRAMES || exists|i: int| 0 <= i < d.wins.len() && (#[trigger] d.wins[i]).state.committed
}

/// `after` and `end` are what the rest of a frame makes of `d`, on which every request was
/// answered.
pub open spec fn composed(d: Desk, after: Desk, end: FrameEnd, geom: (u32, u32), frame: u32) -> bool {
    &&& is_snapshot(end.tasks@, d)
    &&& if !to_compose(d, frame) {
        end.layers is None && after == d
    } else if geom.0 == 0 || geom.1 == 0 {
        end.layers is None && after == (Desk { dirty: false, ..d })
    } else {
        &&& after == (Desk { wins: pinned(d.wins, geom), dirty: false, ..d })
        &&& end.layers matches Some(l) && l@ == capped(layers(after.wins))
    }
}

/// What the end of a frame does: moves, controls and activations in this order, then the
/// picture.
pub open spec fn ended(before: Desk, after: Desk, end: FrameEnd, geom: (u32, u32), frame: u32) -> bool {
    let c = controlled(before, geom, frame);
    exists|mid: Desk|
        #![trigger drained(c, mid)]
        drained(c, mid) && composed(
            all_activated(mid, activations(c.wins, c.wins.len() as int), frame),
            after,
            end,
            geom,
            frame,
        )
}

/// Whether the processors that compose are to be reported now.
pub fn marker_due(frame_no: u32, done: bool) -> (r: bool)
    ensures
        r == (!done && frame_no >= MARKER_FRAME),
{
    !done && frame_no >= MARKER_FRAME
}

impl Compositor {
    /// Starts a frame: counts it, and takes away the windows that are to be closed.
    pub fn begin_frame(&mut self) -> (gone: Vec<Window>)
        requires
            old(self).wf(),
        ensures
            final(self).wf(),
            final(self).frame_no == (if old(self).frame_no == u32::MAX { 0int } else { old(self).frame_no + 1 }),
            final(self)@ == reaped(Desk { wins: doomed(old(self).wins@), ..old(self)@ }, 0),
            final(self).free_ids@ == old(self).free_ids@ + dead_ids(
                Desk { wins: doomed(old(self).wins@), ..old(self)@ },
                0,
            ),
            gone@ == dead_windows(Desk { wins: doomed(old(self).wins@), ..old(self)@ }, 0),
            final(self).drag == old(self).drag,
            final(self).next_id == old(self).next_id,
    {
        self.next_frame();
        self.reap()
    }

    /// Composes the frame where something changed; the picture is up to date afterwards.
    pub fn compose(&mut self, geom: (u32, u32)) -> (r: Option<Vec<Layer>>)
        requires
            old(self).wf(),
        ensures
            final(self).wf(),
            final(self).same_rest(old(self)),
            if !to_compose(old(self)@, old(self).frame_no) {
                r is None && final(self)@ == old(self)@
            } else if geom.0 == 0 || geom.1 == 0 {
                r is None && final(self)@ == (Desk { dirty: false, ..old(self)@ })
            } else {
                &&& final(self)@ == (Desk { wins: pinned(old(self).wins@, geom), dirty: false, ..old(self)@ })
                &&& r matches Some(l) && l@ == capped(layers(final(self).wins@))
            },
    {
        if self.needs_present() {
            let r = self.present(geom);
            self.dirty = false;
            r
        } else {
            None
        }
    }

    /// Ends a frame, once the programs ran and those that they launched came up: answers what
    /// the windows asked for, lists them for the taskbar, and composes what changed.
    pub fn end_frame(&mut self, cx: i32, cy: i32, geom: (u32, u32)) -> (r: FrameEnd)
        requires
            old(self).wf(),
            0 <= cx,
            0 <= cy,
        ensures
            final(self).wf(),
            final(self).free_ids@ == old(self).free_ids@,
            final(self).next_id == old(self).next_id,
            final(self).frame_no == old(self).frame_no,
            final(self).drag == drag_after(
                old(self).wins@,
                old(self).wins@.len() as int,
                old(self).drag,
                cx as int,
                cy as int,
            ),
            ended(old(self)@, final(self)@, r, geom, old(self).frame_no),
    {
        let ghost before = self@;
        let ghost frame = self.frame_no;
        self.answer_moves(cx, cy);
        self.answer_controls(geom);
        let ghost c = self@;
        assert(c == controlled(before, geom, frame));
        let ids = self.take_activations();
        let ghost mid = self@;
        assert(drained(c, mid));
        self.activate_all(ids.as_slice());
        let tasks = self.snapshot();
        let ghost d = self@;
        let layers = self.compose(geom);
        let end = FrameEnd { tasks, layers };
        assert(composed(d, self@, end, geom, frame));
        end
    }
}

/// A frame in which nothing changed composes nothing, once the start is over.
pub proof fn idle_frame_composes_nothing(d: Desk, after: Desk, end: FrameEnd, geom: (u32, u32), frame: u32)
    requires
        composed(d, after, end, geom, frame),
        !d.dirty,
        frame >= WARMUP_FRAMES,
        forall|i: int| 0 <= i < d.wins.len() ==> !(#[trigger] d.wins[i]).state.committed,
    ensures
        end.layers is None,
        after == d,
{
}

/// After a frame the picture is up to date, until something changes again.
pub proof fn composed_is_clean(d: Desk, after: Desk, end: FrameEnd, geom: (u32, u32), frame: u32)
    requires
        composed(d, after, end, geom, frame),
    ensures
        !after.dirty,
{
}

} // verus!
