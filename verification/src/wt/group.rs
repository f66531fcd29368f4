//! Thread groups of compiled modules and the futex rules.

use vstd::prelude::*;
use crate::text::{decimal, push_decimal};
use crate::wt::threads::{FOREVER, TICK_NS};

verus! {

/// Thread numbers end below this.
pub const TID_LIMIT: u32 = 0x2000_0000;

/// The exit code of a group that a trap killed.
pub const EXIT_TRAP: i32 = 134;

/// The exit code of a module that could not be set up.
pub const EXIT_SETUP: i32 = 126;

/// What a processor core is for.
#[derive(Clone, Copy, PartialEq, Eq, Structural, Debug)]
pub enum CoreRole {
    /// The boot processor: devices and the executor.
    BspIo,
    /// The compositor.
    GuiCompositor,
    /// Programs.
    ComputeApp,
}

/// Whether fibers run on a core: on those for programs, and on the boot processor where
/// there are none.
pub fn core_allowed(role: CoreRole, any_compute_core: bool) -> (r: bool)
    ensures
        r == (role is ComputeApp || role is BspIo && !any_compute_core),
{
    match role {
        CoreRole::ComputeApp => true,
        CoreRole::BspIo => !any_compute_core,
        CoreRole::GuiCompositor => false,
    }
}

/// What the threads of one program share.
pub struct ThreadGroup {
    /// The number of the next thread.
    pub next_tid: u32,
    /// How many threads live.
    pub live: u32,
    /// Whether a thread trapped: then the whole group dies.
    pub poisoned: bool,
    /// The exit code of the main thread, once it ended.
    pub exit: Option<i32>,
}

/// What the body of a thread calls.
#[derive(Clone, Copy, PartialEq, Eq, Structural, Debug)]
pub enum Entry {
    /// `_start`, of the main thread, which also inherits the terminal.
    Main,
    /// `wasi_thread_start`, of any other thread, with its number and argument.
    Thread(u32, i32),
}

/// How the call of a thread's body ended.
#[derive(Clone, Copy, PartialEq, Eq, Structural, Debug)]
pub enum Ended {
    /// The module could not be instantiated.
    NotStarted,
    /// The body returned.
    Returned,
    /// The body trapped; an exit call traps too.
    Trapped,
}

/// The number that the kernel would give the next thread, where it may have one.
pub open spec fn next_thread(g: ThreadGroup) -> Option<u32> {
    if g.poisoned || g.next_tid >= TID_LIMIT {
        None
    } else {
        Some(g.next_tid)
    }
}

impl ThreadGroup {
    /// A group that no thread belongs to yet.
    pub fn new() -> (r: Self)
        ensures
            r.next_tid == 1,
            r.live == 0,
            !r.poisoned,
            r.exit is None,
    {
        ThreadGroup { next_tid: 1, live: 0, poisoned: false, exit: None }
    }

    /// Asks for a new thread. A dying group gets none, and neither does one that has used
    /// up its numbers; a number is used up by asking, unless the group is dying.
    pub fn thread_spawn(&mut self) -> (r: Option<u32>)
        requires
            old(self).next_tid < u32::MAX,
        ensures
            r == next_thread(*old(self)),
            final(self).next_tid == old(self).next_tid + (if old(self).poisoned { 0int } else { 1int }),
            final(self).live == old(self).live,
            final(self).poisoned == old(self).poisoned,
            final(self).exit == old(self).exit,
    {
        if self.poisoned {
            return None;
        }
        let tid: u32 = self.next_tid;
        self.next_tid = tid + 1;
        if tid >= TID_LIMIT {
            return None;
        }
        Some(tid)
    }

    /// Counts a thread that is being set up, and tells what its body calls.
    pub fn spawn_fiber(&mut self, tid: u32, start_arg: i32) -> (r: Entry)
        requires
            old(self).live < u32::MAX,
        ensures
            r == if tid == 0 { Entry::Main } else { Entry::Thread(tid, start_arg) },
            final(self).live == old(self).live + 1,
            final(self).next_tid == old(self).next_tid,
            final(self).poisoned == old(self).poisoned,
            final(self).exit == old(self).exit,
    {
        self.live = self.live + 1;
        if tid == 0 { Entry::Main } else { Entry::Thread(tid, start_arg) }
    }

    /// Takes back the count of a thread that could not be set up: the group is poisoned.
    pub fn spawn_failed(&mut self)
        requires
            old(self).live > 0,
        ensures
            final(self).live == old(self).live - 1,
            final(self).poisoned,
            final(self).next_tid == old(self).next_tid,
            final(self).exit == old(self).exit,
    {
        self.poisoned = true;
        self.live = self.live - 1;
    }

    /// The exit code of a thread whose body ended, by how it ended and by the code that it
    /// asked for. An exit call traps to unwind the stack, which is no error; any other trap
    /// poisons the group.
    pub fn thread_ended(&mut self, ended: Ended, asked: Option<i32>) -> (code: i32)
        ensures
            code == match ended {
                Ended::NotStarted => EXIT_SETUP,
                Ended::Returned => if asked is Some { asked->0 } else { 0 },
                Ended::Trapped => if asked is Some { asked->0 } else { EXIT_TRAP },
            },
            final(self).poisoned == (old(self).poisoned || ended is NotStarted || ended is Trapped && asked is None),
            final(self).live == old(self).live,
            final(self).next_tid == old(self).next_tid,
            final(self).exit == old(self).exit,
    {
        match ended {
            Ended::NotStarted => {
                self.poisoned = true;
                EXIT_SETUP
            },
            Ended::Returned => match asked {
                Some(c) => c,
                None => 0,
            },
            Ended::Trapped => match asked {
                Some(c) => c,
                None => {
                    self.poisoned = true;
                    EXIT_TRAP
                },
            },
        }
    }

    /// Strikes off a thread that ended with `code`. The code of the main thread is that of
    /// the group. Tells whether it was the last one, so that whoever waits is woken.
    pub fn finish_fiber(&mut self, tid: u32, code: i32) -> (last: bool)
        requires
            old(self).live > 0,
        ensures
            last == (old(self).live == 1),
            final(self).live == old(self).live - 1,
            final(self).exit == if tid == 0 { Some(code) } else { old(self).exit },
            final(self).poisoned == old(self).poisoned,
            final(self).next_tid == old(self).next_tid,
    {
        if tid == 0 {
            self.exit = Some(code);
        }
        self.live = self.live - 1;
        self.live == 0
    }

    /// The exit code of the program, once no thread lives: that of the main thread, or that
    /// of a trap where the group was poisoned before the main thread ended.
    pub fn exec_threaded(&self) -> (r: Option<i32>)
        ensures
            r is Some <==> self.live == 0,
            r is Some ==> r->0 == (if self.exit is Some {
                self.exit->0
            } else if self.poisoned {
                EXIT_TRAP
            } else {
                0
            }),
    {
        if self.live != 0 {
            return None;
        }
        match self.exit {
            Some(c) => Some(c),
            None => if self.poisoned { Some(EXIT_TRAP) } else { Some(0) },
        }
    }
}

/// How many threads a program should use: one per core that is for programs.
pub open spec fn parallelism(cpus_online: int) -> int {
    if cpus_online + 1 - 2 < 1 { 1 } else { cpus_online - 1 }
}

/// The entry of the environment that tells a program how many threads to use.
pub fn thread_environment(cpus_online: u32) -> (r: Vec<u8>)
    ensures
        r@ == seq![82u8, 65, 89, 79, 78, 95, 78, 85, 77, 95, 84, 72, 82, 69, 65, 68, 83, 61] + decimal(
            parallelism(cpus_online as int) as nat,
        ),
{
    let n: u64 = if cpus_online < 2 { 1 } else { cpus_online as u64 - 1 };
    let mut out: Vec<u8> = vec![82, 65, 89, 79, 78, 95, 78, 85, 77, 95, 84, 72, 82, 69, 65, 68, 83, 61];
    assert(out@ =~= seq![82u8, 65, 89, 79, 78, 95, 78, 85, 77, 95, 84, 72, 82, 69, 65, 68, 83, 61]);
    push_decimal(&mut out, n);
    out
}

/// What a thread that waits for an atomic word does.
#[derive(Clone, Copy, PartialEq, Eq, Structural, Debug)]
pub enum WaitAction {
    /// The word already changed: the wait answers 1.
    NotEqual,
    /// The fiber parks until it is woken or the deadline comes; on no key it stays runnable.
    Park(usize, u64),
    /// There is no fiber to park: the caller looks at the word until it changes.
    Spin,
}

/// The tick at which a wait that starts at `now` gives up. A timeout is rounded up to
/// whole ticks and lasts at least one; a negative one never comes.
pub open spec fn wait_deadline(now: u64, timeout_ns: i64) -> int {
    if timeout_ns < 0 {
        FOREVER as int
    } else {
        let ticks = (timeout_ns + TICK_NS - 1) / TICK_NS as int;
        now + if ticks < 1 { 1 } else { ticks }
    }
}

/// What a wait for the word at `key` does, once spinning and a second look at the word, both
/// without success, are over.
pub fn futex_wait(key: usize, timeout_ns: i64, now: u64, changed: bool, on_fiber: bool) -> (r: WaitAction)
    requires
        now < 0x8000_0000_0000_0000,
    ensures
        r == if changed {
            WaitAction::NotEqual
        } else if !on_fiber {
            WaitAction::Spin
        } else {
            WaitAction::Park(key, wait_deadline(now, timeout_ns) as u64)
        },
        timeout_ns >= 0 ==> now < wait_deadline(now, timeout_ns) < FOREVER,
{
    if changed {
        return WaitAction::NotEqual;
    }
    if !on_fiber {
        return WaitAction::Spin;
    }
    if timeout_ns < 0 {
        return WaitAction::Park(key, FOREVER);
    }
    let ticks: u64 = (timeout_ns as u64 + (TICK_NS - 1)) / TICK_NS;
    let wait: u64 = if ticks < 1 { 1 } else { ticks };
    WaitAction::Park(key, now + wait)
}

/// What a wait that was parked answers: 2 where its deadline has come, else 0.
pub fn futex_woken(deadline: u64, now: u64) -> (r: u32)
    ensures
        r == if deadline != FOREVER && now >= deadline { 2u32 } else { 0 },
{
    if deadline != FOREVER && now >= deadline { 2 } else { 0 }
}

/// The code that the second thread check ends with.
pub const GATE2_CODE: i32 = 99;

/// The code that the third thread check ends with.
pub const GATE3_CODE: i32 = 7;

/// What a thread check that is waited for has come to: it goes on while threads live and there
/// is time, and holds where its main thread ended with the code that is wanted.
pub open spec fn gate_outcome(live: u32, now: u64, deadline: u64, code: Option<i32>, want: i32) -> Option<bool> {
    if live == 0 {
        Some(code == Some(want))
    } else if now > deadline {
        Some(false)
    } else {
        None
    }
}

fn gate_step(live: u32, now: u64, deadline: u64, code: Option<i32>, want: i32) -> (r: Option<bool>)
    ensures
        r == gate_outcome(live, now, deadline, code, want),
{
    if live == 0 {
        Some(
            match code {
                Some(c) => c == want,
                None => false,
            },
        )
    } else if now > deadline {
        Some(false)
    } else {
        None
    }
}

/// Boot check of threads: a thread that the main thread started wrote 99 and woke it.
pub fn gate2_run(live: u32, now: u64, deadline: u64, code: Option<i32>) -> (r: Option<bool>)
    ensures
        r == gate_outcome(live, now, deadline, code, GATE2_CODE),
{
    gate_step(live, now, deadline, code, GATE2_CODE)
}

/// Boot check of threads: two threads met in shared memory.
pub fn gate3_run(live: u32, now: u64, deadline: u64, code: Option<i32>) -> (r: Option<bool>)
    ensures
        r == gate_outcome(live, now, deadline, code, GATE3_CODE),
{
    gate_step(live, now, deadline, code, GATE3_CODE)
}

} // verus!
