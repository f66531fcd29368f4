//! The one place at which a program is handed over that a shell wants to run.
//!
//! The shell waits until the program has ended before it hands over another one.

use vstd::prelude::*;

verus! {

/// A program that was asked for. Its outcome is left in the queue.
pub struct ExecSlot {
    pub path: String,
    pub argv: Vec<Vec<u8>>,
    pub cwd: String,
    pub term_pts: usize,
}

/// The place at which a program is handed over and its outcome is left.
pub struct ExecQueue {
    pub pending: Option<ExecSlot>,
    /// Whether the program has ended.
    pub done: bool,
    pub result: i32,
}

/// A shell's wait for a program.
pub struct ExecFuture {
    pub posted: bool,
    pub slot: Option<ExecSlot>,
}

impl ExecQueue {
    /// An empty place.
    pub fn new() -> (r: Self)
        ensures
            r == (ExecQueue { pending: None, done: false, result: 0 }),
    {
        ExecQueue { pending: None, done: false, result: 0 }
    }

    /// A wait for a program that is handed over when the wait is first looked at.
    pub fn post_and_wait(&self, path: String, argv: Vec<Vec<u8>>, cwd: String, term_pts: usize) -> (r: ExecFuture)
        ensures
            r == (ExecFuture { posted: false, slot: Some(ExecSlot { path, argv, cwd, term_pts }) }),
    {
        ExecFuture { posted: false, slot: Some(ExecSlot { path, argv, cwd, term_pts }) }
    }

    /// The worker takes what was handed over.
    pub fn take(&mut self) -> (r: Option<ExecSlot>)
        ensures
            r == old(self).pending,
            *final(self) == (ExecQueue { pending: None, ..*old(self) }),
    {
        let mut slot: Option<ExecSlot> = None;
        std::mem::swap(&mut slot, &mut self.pending);
        slot
    }

    /// The worker leaves the outcome.
    pub fn finish(&mut self, code: i32)
        ensures
            *final(self) == (ExecQueue { result: code, done: true, ..*old(self) }),
    {
        self.result = code;
        self.done = true;
    }
}

impl ExecFuture {
    /// Looks at the wait: hands the program over where that was not done yet, and tells the
    /// outcome where there is one. The second result tells whether the worker has to be woken.
    pub fn poll(&mut self, q: &mut ExecQueue) -> (r: (Option<i32>, bool))
        ensures
            final(self).posted,
            r.1 == !old(self).posted,
            if old(self).posted {
                &&& *final(self) == *old(self)
                &&& *final(q) == *old(q)
                &&& r.0 == if old(q).done { Some(old(q).result) } else { None }
            } else {
                &&& *final(q) == (ExecQueue { pending: old(self).slot, done: false, result: 0 })
                &&& final(self).slot is None
                &&& r.0 is None
            },
    {
        if !self.posted {
            q.done = false;
            q.result = 0;
            let mut slot: Option<ExecSlot> = None;
            std::mem::swap(&mut slot, &mut self.slot);
            q.pending = slot;
            self.posted = true;
            return (None, true);
        }
        (if q.done { Some(q.result) } else { None }, false)
    }
}

/// What a shell hands over is what the worker takes, and what the worker leaves is what the
/// shell gets.
pub fn exchange(q: &mut ExecQueue, wait: &mut ExecFuture, code: i32) -> (r: (Option<ExecSlot>, Option<i32>))
    requires
        !old(wait).posted,
    ensures
        r.0 == old(wait).slot,
        r.1 == Some(code),
        final(q).pending is None,
{
    wait.poll(q);
    let slot = q.take();
    q.finish(code);
    let (outcome, _) = wait.poll(q);
    (slot, outcome)
}

} // verus!
