//! Programs that run side by side, the output of each the input of the next.

use vstd::prelude::*;
use crate::bytes::contents;
use crate::fiber::{bind_fd, elsewhere, file_of, pwd, rebind_stdio_pty, set_cwd};
use crate::host::state::{opened, FdEntry, RuntimeState};
use crate::suspend::Stage;

verus! {

/// The most stages of a pipeline.
pub const PIPE_MAX_STAGES: usize = 4;

/// A pipeline that was asked for.
pub struct PipeRequest {
    pub stages: Vec<Stage>,
    pub cwd: String,
    pub term_pts: usize,
}

/// The one place at which a pipeline is handed over and its outcome is left.
pub struct PipelineQueue {
    pub pending: Option<PipeRequest>,
    pub done: bool,
    pub result: i32,
}

/// A shell's wait for a pipeline.
pub struct PipelineFuture {
    pub posted: bool,
    pub stages: Vec<Stage>,
    pub cwd: String,
    pub term_pts: usize,
}

/// A wait for a pipeline that is handed over when the wait is first looked at.
pub fn post_and_wait(stages: Vec<Stage>, cwd: String, term_pts: usize) -> (r: PipelineFuture)
    ensures
        r == (PipelineFuture { posted: false, stages, cwd, term_pts }),
{
    PipelineFuture { posted: false, stages, cwd, term_pts }
}

impl PipelineQueue {
    /// An empty place.
    pub fn new() -> (r: Self)
        ensures
            r == (PipelineQueue { pending: None, done: false, result: 0 }),
    {
        PipelineQueue { pending: None, done: false, result: 0 }
    }

    /// The worker takes what was handed over.
    pub fn take(&mut self) -> (r: Option<PipeRequest>)
        ensures
            r == old(self).pending,
            *final(self) == (PipelineQueue { pending: None, ..*old(self) }),
    {
        let mut req: Option<PipeRequest> = None;
        std::mem::swap(&mut req, &mut self.pending);
        req
    }

    /// The worker leaves the outcome.
    pub fn finish(&mut self, code: i32)
        ensures
            *final(self) == (PipelineQueue { result: code, done: true, ..*old(self) }),
    {
        self.result = code;
        self.done = true;
    }
}

impl PipelineFuture {
    /// Looks at the wait: hands the pipeline over where that was not done yet, and tells the
    /// outcome where there is one. The second result tells whether the worker has to be woken.
    pub fn poll(&mut self, q: &mut PipelineQueue) -> (r: (Option<i32>, bool))
        ensures
            final(self).posted,
            final(self).term_pts == old(self).term_pts,
            r.1 == !old(self).posted,
            if old(self).posted {
                &&& *final(self) == *old(self)
                &&& *final(q) == *old(q)
                &&& r.0 == if old(q).done { Some(old(q).result) } else { None }
            } else {
                &&& final(q).pending matches Some(req) && req.stages == old(self).stages && req.cwd == old(self).cwd
                    && req.term_pts == old(self).term_pts
                &&& !final(q).done && final(q).result == 0
                &&& r.0 is None
                &&& final(self).stages@.len() == 0
                &&& final(self).cwd@.len() == 0
            },
    {
        if !self.posted {
            q.done = false;
            q.result = 0;
            let mut stages: Vec<Stage> = Vec::new();
            std::mem::swap(&mut stages, &mut self.stages);
            let mut cwd: String = String::new();
            std::mem::swap(&mut cwd, &mut self.cwd);
            q.pending = Some(PipeRequest { stages, cwd, term_pts: self.term_pts });
            self.posted = true;
            return (None, true);
        }
        (if q.done { Some(q.result) } else { None }, false)
    }
}

/// How a pipeline begins: its outcome where it is over at once.
pub fn pipeline_refused(n: usize) -> (r: Option<i32>)
    ensures
        r == if n == 0 {
            Some(0i32)
        } else if n > PIPE_MAX_STAGES {
            Some(1i32)
        } else {
            None
        },
{
    if n == 0 {
        Some(0)
    } else if n > PIPE_MAX_STAGES {
        Some(1)
    } else {
        None
    }
}

/// The ends of a pipe that a stage reads from and writes to; nothing is the terminal.
pub open spec fn wiring(pipes: Seq<(u32, u32)>, n: int, i: int) -> (Option<u32>, Option<u32>) {
    (
        if i > 0 { Some(pipes[i - 1].0) } else { None },
        if i + 1 < n { Some(pipes[i].1) } else { None },
    )
}

/// The ends that stage `i` of `n` reads from and writes to. Pipe `i` leads from stage `i` to
/// the next; its first number is the end that is read.
pub fn stage_wiring(pipes: &Vec<(u32, u32)>, n: usize, i: usize) -> (r: (Option<u32>, Option<u32>))
    requires
        i < n,
        pipes@.len() + 1 == n,
    ensures
        r == wiring(pipes@, n as int, i as int),
{
    let stdin: Option<u32> = if i > 0 { Some(pipes[i - 1].0) } else { None };
    let stdout: Option<u32> = if i + 1 < n { Some(pipes[i].1) } else { None };
    (stdin, stdout)
}

/// Every end of every pipe belongs to exactly one stage: the writing end of pipe `k` to stage
/// `k`, the reading end to the stage behind it.
pub proof fn every_end_has_a_stage(pipes: Seq<(u32, u32)>, n: int, k: int)
    requires
        pipes.len() + 1 == n,
        0 <= k < pipes.len(),
    ensures
        wiring(pipes, n, k).1 == Some(pipes[k].1),
        wiring(pipes, n, k + 1).0 == Some(pipes[k].0),
        wiring(pipes, n, 0).0 is None,
        wiring(pipes, n, n - 1).1 is None,
{
}

/// What one of the first three descriptors of a stage stands for: an end of a pipe, where it
/// has one, and else the terminal.
pub open spec fn stage_entry(pipe: Option<u32>, pts: Option<u32>) -> Option<FdEntry> {
    match pipe {
        Some(f) => Some(FdEntry::Vfs(f)),
        None => opened(pts),
    }
}

/// The files that a descriptor no longer stands for: the one that it had, and the terminal
/// where a pipe takes its place.
pub open spec fn let_go(had: Option<FdEntry>, pts: Option<u32>, pipe: Option<u32>) -> (Seq<u32>, Seq<u32>) {
    (
        match file_of(had) {
            Some(f) => seq![f],
            None => Seq::empty(),
        },
        match (pipe, pts) {
            (Some(_), Some(f)) => seq![f],
            _ => Seq::empty(),
        },
    )
}

fn note(out: &mut Vec<u32>, f: Option<u32>)
    ensures
        final(out)@ == match f {
            Some(f) => old(out)@.push(f),
            None => old(out)@,
        },
{
    if let Some(f) = f {
        out.push(f);
    }
}

/// Prepares the program of a stage: its arguments, its directory, the ends of its pipes, and
/// for what is left of the first three descriptors the terminal, as it could be opened for
/// each of them. Returns the files that are to be closed, in order.
pub fn prepare_stage(
    st: &mut RuntimeState,
    argv: Vec<Vec<u8>>,
    cwd: String,
    pts: (Option<u32>, Option<u32>, Option<u32>),
    input: Option<u32>,
    output: Option<u32>,
) -> (closes: Vec<u32>)
    requires
        old(st).fds@.len() >= 3,
    ensures
        final(st).args == argv,
        final(st).cwd == cwd,
        contents(final(st).env@) == elsewhere(contents(old(st).env@), old(st).env@.len() as int).push(pwd(cwd@)),
        final(st).exit_code == old(st).exit_code,
        final(st).fds@ == old(st).fds@.update(0, stage_entry(input, pts.0)).update(1, stage_entry(output, pts.1)).update(
            2,
            opened(pts.2),
        ),
        ({
            let a = let_go(old(st).fds@[0], pts.0, input);
            let b = let_go(old(st).fds@[1], pts.1, output);
            let c = let_go(old(st).fds@[2], pts.2, None);
            closes@ == a.0 + b.0 + c.0 + a.1 + b.1
        }),
{
    let mut closes: Vec<u32> = Vec::new();
    st.args = argv;
    set_cwd(st, cwd);
    let f: Option<u32> = rebind_stdio_pty(st, 0, pts.0);
    note(&mut closes, f);
    let f: Option<u32> = rebind_stdio_pty(st, 1, pts.1);
    note(&mut closes, f);
    let f: Option<u32> = rebind_stdio_pty(st, 2, pts.2);
    note(&mut closes, f);
    if let Some(fd) = input {
        let f: Option<u32> = bind_fd(st, 0, fd);
        note(&mut closes, f);
    }
    if let Some(fd) = output {
        let f: Option<u32> = bind_fd(st, 1, fd);
        note(&mut closes, f);
    }
    proof {
        let a = let_go(old(st).fds@[0], pts.0, input);
        let b = let_go(old(st).fds@[1], pts.1, output);
        let c = let_go(old(st).fds@[2], pts.2, None);
        assert(closes@ =~= a.0 + b.0 + c.0 + a.1 + b.1);
        assert(st.fds@ =~= old(st).fds@.update(0, stage_entry(input, pts.0)).update(
            1,
            stage_entry(output, pts.1),
        ).update(2, opened(pts.2)));
    }
    closes
}

/// The files that a stage lets go of when it ends: its ends of pipes, so that its neighbours
/// see the end.
pub fn stage_ends(input: Option<u32>, output: Option<u32>) -> (r: Vec<u32>)
    ensures
        r@ == let_go(opened(input), None, None).0 + let_go(opened(output), None, None).0,
{
    let mut r: Vec<u32> = Vec::new();
    note(&mut r, input);
    note(&mut r, output);
    assert(r@ =~= let_go(opened(input), None, None).0 + let_go(opened(output), None, None).0);
    r
}

/// Why a stage did not run.
#[derive(Clone, Copy, PartialEq, Eq, Structural, Debug)]
pub enum StageFailure {
    /// Its file could not be read.
    Read,
    /// Its file is no program.
    Instantiate,
}

/// The code of a stage that did not run.
pub fn failure_code(f: StageFailure) -> (r: i32)
    ensures
        r == match f {
            StageFailure::Read => 127i32,
            StageFailure::Instantiate => 126,
        },
{
    match f {
        StageFailure::Read => 127,
        StageFailure::Instantiate => 126,
    }
}

/// The code of a pipeline: that of its last stage.
pub fn pipeline_code(codes: &Vec<i32>) -> (r: i32)
    ensures
        r == if codes@.len() == 0 { 0 } else { codes@.last() },
{
    if codes.len() == 0 {
        0
    } else {
        codes[codes.len() - 1]
    }
}

/// The stages of a pipeline while they run: their codes, and which of them have ended.
pub struct JoinAll {
    pub codes: Vec<i32>,
    pub ended: Vec<bool>,
}

impl JoinAll {
    /// Both lists are about the same stages.
    pub open spec fn wf(self) -> bool {
        self.codes@.len() == self.ended@.len()
    }

    /// `n` stages that have just begun.
    pub fn new(n: usize) -> (r: Self)
        ensures
            r.wf(),
            r.codes@ == Seq::new(n as nat, |i: int| 0i32),
            r.ended@ == Seq::new(n as nat, |i: int| false),
    {
        let codes: Vec<i32> = vec![0; n];
        let ended: Vec<bool> = vec![false; n];
        assert(codes@ =~= Seq::new(n as nat, |i: int| 0i32));
        assert(ended@ =~= Seq::new(n as nat, |i: int| false));
        JoinAll { codes, ended }
    }

    /// Notes the stages that ended: `answers` has a code for each of them. A stage that had
    /// ended keeps its code. The result tells whether all have ended.
    pub fn poll(&mut self, answers: &Vec<Option<i32>>) -> (done: bool)
        requires
            old(self).wf(),
            answers@.len() == old(self).codes@.len(),
        ensures
            final(self).wf(),
            final(self).codes@ == Seq::new(
                old(self).codes@.len(),
                |i: int|
                    if !old(self).ended@[i] && answers@[i] is Some {
                        answers@[i]->0
                    } else {
                        old(self).codes@[i]
                    },
            ),
            final(self).ended@ == Seq::new(
                old(self).ended@.len(),
                |i: int| old(self).ended@[i] || answers@[i] is Some,
            ),
            done == forall|i: int| 0 <= i < final(self).ended@.len() ==> final(self).ended@[i],
    {
        let ghost codes = self.codes@;
        let ghost ended = self.ended@;
        let ghost new_codes = Seq::new(
            codes.len(),
            |i: int| if !ended[i] && answers@[i] is Some { answers@[i]->0 } else { codes[i] },
        );
        let ghost new_ended = Seq::new(ended.len(), |i: int| ended[i] || answers@[i] is Some);
        let mut i: usize = 0;
        while i < self.codes.len()
            invariant
                i <= self.codes@.len(),
                self.wf(),
                self.codes@.len() == codes.len(),
                codes.len() == ended.len(),
                answers@.len() == codes.len(),
                new_codes == Seq::new(
                    codes.len(),
                    |i: int| if !ended[i] && answers@[i] is Some { answers@[i]->0 } else { codes[i] },
                ),
                new_ended == Seq::new(ended.len(), |i: int| ended[i] || answers@[i] is Some),
                forall|k: int| 0 <= k < i ==> self.codes@[k] == new_codes[k] && self.ended@[k] == new_ended[k],
                forall|k: int| i <= k < codes.len() ==> self.codes@[k] == codes[k] && self.ended@[k] == ended[k],
            decreases self.codes@.len() - i,
        {
            if !self.ended[i] {
                if let Some(code) = answers[i] {
                    self.codes[i] = code;
                    self.ended[i] = true;
                }
            }
            i += 1;
        }
        assert(self.codes@ =~= new_codes);
        assert(self.ended@ =~= new_ended);
        all_set(&self.ended)
    }
}

fn all_set(flags: &Vec<bool>) -> (r: bool)
    ensures
        r == forall|i: int| 0 <= i < flags@.len() ==> flags@[i],
{
    let mut i: usize = 0;
    while i < flags.len()
        invariant
            i <= flags@.len(),
            forall|k: int| 0 <= k < i ==> flags@[k],
        decreases flags@.len() - i,
    {
        if !flags[i] {
            return false;
        }
        i += 1;
    }
    true
}

} // verus!
