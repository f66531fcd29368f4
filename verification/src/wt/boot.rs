//! How programs are started and watched, and the checks that run at boot.

use vstd::prelude::*;
use crate::tools::reactor::{closing_frame, probe_frame, reactor_frame, spinning_frame, SURFACE};
use crate::wt::catalog::{registry_self_test, set_flags};
use crate::wt::frame::{bg_answered, launches};
use crate::wt::group::{CoreRole, EXIT_SETUP, EXIT_TRAP};
use crate::wt::lifecycle::{dead_ids, doomed, live_count, newborn, placement, reaped};
use crate::wt::window::{pack_size, packed_size, WmState};
use crate::wt::wm::{background, is_bg, Compositor, Desk, Window, MAX_WINDOWS};

verus! {

/// Ticks of ten milliseconds that a program may take for a frame.
pub const FRAME_DEADLINE_TICKS: u64 = 100;

/// Ticks that a program may take for its first frame.
pub const FIRST_FRAME_DEADLINE_TICKS: u64 = 300;

/// Ticks that a program may take to initialize.
pub const INIT_DEADLINE_TICKS: u64 = 300;

/// Ticks that a program may take to tell its manifest.
pub const PROBE_DEADLINE_TICKS: u64 = 100;

/// A deadline that does not come: for programs that may run as long as they like.
pub const NO_DEADLINE_TICKS: u64 = 0x7fff_ffff_ffff_ffff;

/// The exit code where a program needs another that is not there.
pub const EXIT_MISSING: i32 = 127;

/// Rounds of frames that a check runs.
pub const ROUNDS: u32 = 8;

/// Width and height that stand for the screen before it is set up.
pub const STANDIN: (u32, u32) = (1280, 800);

/// How long a program may take for a frame.
pub fn frame_deadline(framed_once: bool) -> (r: u64)
    ensures
        r == if framed_once {
            FRAME_DEADLINE_TICKS
        } else {
            FIRST_FRAME_DEADLINE_TICKS
        },
{
    if framed_once {
        FRAME_DEADLINE_TICKS
    } else {
        FIRST_FRAME_DEADLINE_TICKS
    }
}

/// Counts a tick of the timer for the engine's programs. Without an engine nothing is counted,
/// and none is made.
pub fn epoch_tick(engine: &mut Option<u64>)
    ensures
        match *old(engine) {
            None => *final(engine) is None,
            Some(e) => *final(engine) == Some(if e == u64::MAX { 0u64 } else { (e + 1) as u64 }),
        },
{
    if let Some(e) = *engine {
        *engine = Some(if e == u64::MAX { 0 } else { e + 1 });
    }
}

/// How a compiled program ended.
#[derive(Clone, Copy, PartialEq, Eq, Structural, Debug)]
pub enum CwasmEnd {
    /// It draws text screens, and the program that does so for it is missing.
    NoProvider,
    /// It could not be loaded, linked or instantiated.
    NotLoaded,
    /// A text screen program trapped.
    TuiTrapped,
    /// A text screen program returned a code.
    TuiReturned(i32),
    /// It ran; the code that it exited with, if it did.
    Ran(Option<i32>),
}

/// The exit code of a compiled program.
pub open spec fn exit_code(end: CwasmEnd) -> i32 {
    match end {
        CwasmEnd::NoProvider => EXIT_MISSING,
        CwasmEnd::NotLoaded => EXIT_SETUP,
        CwasmEnd::TuiTrapped => EXIT_TRAP,
        CwasmEnd::TuiReturned(c) => c,
        CwasmEnd::Ran(Some(c)) => c,
        CwasmEnd::Ran(None) => 0,
    }
}

/// The exit code of a compiled program.
pub fn run_cwasm(end: CwasmEnd) -> (r: i32)
    ensures
        r == exit_code(end),
{
    match end {
        CwasmEnd::NoProvider => EXIT_MISSING,
        CwasmEnd::NotLoaded => EXIT_SETUP,
        CwasmEnd::TuiTrapped => EXIT_TRAP,
        CwasmEnd::TuiReturned(c) => c,
        CwasmEnd::Ran(Some(c)) => c,
        CwasmEnd::Ran(None) => 0,
    }
}

fn equals(a: &Vec<u8>, b: &Vec<u8>) -> (r: bool)
    ensures
        r == (a@ == b@),
{
    if a.len() != b.len() {
        return false;
    }
    let mut i: usize = 0;
    while i < a.len()
        invariant
            i <= a@.len(),
            a@.len() == b@.len(),
            forall|k: int| 0 <= k < i ==> a@[k] == b@[k],
        decreases a@.len() - i,
    {
        if a[i] != b[i] {
            return false;
        }
        i += 1;
    }
    assert(a@ =~= b@);
    true
}

/// The argument that asks a text screen program for a single picture.
pub open spec fn once_flag() -> Seq<u8> {
    seq![45u8, 45, 111, 110, 99, 101]
}

/// Whether a text screen program is asked for a single picture: one of its arguments is
/// `--once`.
pub fn asks_once(args: &Vec<Vec<u8>>) -> (r: bool)
    ensures
        r == exists|i: int| 0 <= i < args@.len() && (#[trigger] args@[i])@ == once_flag(),
{
    let flag: Vec<u8> = vec![45, 45, 111, 110, 99, 101];
    assert(flag@ =~= once_flag());
    let mut i: usize = 0;
    while i < args.len()
        invariant
            i <= args@.len(),
            flag@ == once_flag(),
            forall|k: int| 0 <= k < i ==> (#[trigger] args@[k])@ != once_flag(),
        decreases args@.len() - i,
    {
        if equals(&args[i], &flag) {
            return true;
        }
        i += 1;
    }
    false
}

/// What a compiled file looks like.
#[derive(Clone, Copy, PartialEq, Eq, Structural, Debug)]
pub enum Artifact {
    /// A module.
    Module,
    /// A component: a program that draws text screens.
    Component,
}

/// What a compiled file looks like, by its bytes.
pub uninterp spec fn artifact_of(bytes: Seq<u8>) -> Option<Artifact>;

/// `wasmtime::Engine::detect_precompiled`: what the bytes look like depends on the bytes alone,
/// of which the header is read.
#[verifier::external_body]
fn detect_precompiled(bytes: &[u8]) -> (r: Option<Artifact>)
    ensures
        r == artifact_of(bytes@),
{
    match wasmtime::Engine::detect_precompiled(bytes) {
        Some(wasmtime::Precompiled::Module) => Some(Artifact::Module),
        Some(wasmtime::Precompiled::Component) => Some(Artifact::Component),
        None => None,
    }
}

/// How a compiled program is run.
#[derive(Clone, Copy, PartialEq, Eq, Structural, Debug)]
pub enum Plan {
    /// Not at all: it draws text screens, and the program that does so for it is missing.
    NoProvider,
    /// With the program that draws text screens; a single picture where `once`.
    TextScreen { once: bool },
    /// As a module.
    Module,
}

/// How a compiled program is run, by what it looks like. What looks like nothing known is run
/// as a module, and fails there.
pub open spec fn plan_of(kind: Option<Artifact>, args: Seq<Vec<u8>>, provider: bool) -> Plan {
    if kind != Some(Artifact::Component) {
        Plan::Module
    } else if !provider {
        Plan::NoProvider
    } else {
        Plan::TextScreen { once: exists|i: int| 0 <= i < args.len() && (#[trigger] args[i])@ == once_flag() }
    }
}

/// Chooses how a compiled program is run, by what it looks like. `provider` tells whether the
/// program that draws text screens is there.
pub fn plan_artifact(kind: Option<Artifact>, args: &Vec<Vec<u8>>, provider: bool) -> (r: Plan)
    ensures
        r == plan_of(kind, args@, provider),
{
    match kind {
        Some(Artifact::Component) => if provider {
            Plan::TextScreen { once: asks_once(args) }
        } else {
            Plan::NoProvider
        },
        _ => Plan::Module,
    }
}

/// Chooses how a compiled program is run.
pub fn plan_cwasm(cwasm: &[u8], args: &Vec<Vec<u8>>, provider: bool) -> (r: Plan)
    ensures
        r == plan_of(artifact_of(cwasm@), args@, provider),
{
    plan_artifact(detect_precompiled(cwasm), args, provider)
}

/// How the first component of the bring-up ended.
#[derive(Clone, Copy, PartialEq, Eq, Structural, Debug)]
pub enum ComponentEnd {
    NotLoaded,
    NotLinked,
    NotInstantiated,
    Trapped,
    Returned(i32),
}

/// The code of a component's run; negative where it did not come to an end.
pub fn run_component(end: ComponentEnd) -> (r: i32)
    ensures
        r == match end {
            ComponentEnd::NotLoaded => -1i32,
            ComponentEnd::NotLinked => -2i32,
            ComponentEnd::NotInstantiated => -3i32,
            ComponentEnd::Trapped => -4i32,
            ComponentEnd::Returned(c) => c,
        },
{
    match end {
        ComponentEnd::NotLoaded => -1,
        ComponentEnd::NotLinked => -2,
        ComponentEnd::NotInstantiated => -3,
        ComponentEnd::Trapped => -4,
        ComponentEnd::Returned(c) => c,
    }
}

/// Boot check: the code of the bring-up component.
pub fn run_bringup_demo(end: ComponentEnd) -> (r: i32)
    ensures
        r == match end {
            ComponentEnd::NotLoaded => -1i32,
            ComponentEnd::NotLinked => -2i32,
            ComponentEnd::NotInstantiated => -3i32,
            ComponentEnd::Trapped => -4i32,
            ComponentEnd::Returned(c) => c,
        },
{
    run_component(end)
}

/// Whether a program that was run printed the number 42. `prints` is what it printed, nothing
/// where it could not be run to its end.
pub fn run_hello(prints: Option<&Vec<i32>>) -> (r: bool)
    ensures
        r == (prints matches Some(p) && p@.contains(42i32)),
{
    match prints {
        None => false,
        Some(p) => printed(p, 42),
    }
}

fn printed(p: &Vec<i32>, v: i32) -> (r: bool)
    ensures
        r == p@.contains(v),
{
    let mut i: usize = 0;
    while i < p.len()
        invariant
            i <= p@.len(),
            forall|k: int| 0 <= k < i ==> p@[k] != v,
        decreases p@.len() - i,
    {
        if p[i] == v {
            assert(p@.contains(p@[i as int]));
            return true;
        }
        i += 1;
    }
    false
}

/// Boot check: whether the first compiled program printed 42.
pub fn run_hello_demo(prints: Option<&Vec<i32>>) -> (r: bool)
    ensures
        r == (prints matches Some(p) && p@.contains(42i32)),
{
    run_hello(prints)
}

/// The arguments of the program that echoes.
pub fn echo_args() -> (r: Vec<Vec<u8>>)
    ensures
        r@.len() == 2,
        r@[0]@ == seq![101u8, 99, 104, 111],
        r@[1]@ == seq![87u8, 84, 45, 69, 67, 72, 79, 45, 79, 75],
{
    let name: Vec<u8> = vec![101, 99, 104, 111];
    let word: Vec<u8> = vec![87, 84, 45, 69, 67, 72, 79, 45, 79, 75];
    assert(name@ =~= seq![101u8, 99, 104, 111]);
    assert(word@ =~= seq![87u8, 84, 45, 69, 67, 72, 79, 45, 79, 75]);
    let mut out: Vec<Vec<u8>> = Vec::new();
    out.push(name);
    out.push(word);
    out
}

/// Boot check: the exit code of the program that echoes.
pub fn run_echo_demo(end: CwasmEnd) -> (r: i32)
    ensures
        r == exit_code(end),
{
    run_cwasm(end)
}

/// Boot check: the exit code of the program that keeps a processor busy.
pub fn run_spin_demo(end: CwasmEnd) -> (r: i32)
    ensures
        r == exit_code(end),
{
    run_cwasm(end)
}

/// Boot check: whether atomic additions in shared memory gave 42. `result` is what the program
/// returned, nothing where it could not be run.
pub fn run_threads_gate1(result: Option<i32>) -> (r: bool)
    ensures
        r == (result == Some(42i32)),
{
    match result {
        Some(v) => v == 42,
        None => false,
    }
}

/// Boot check of the stacking order and of drags: bit 0 for the order, bit 1 for the drags.
pub fn wm_logic_selftest() -> (r: u32)
    ensures
        r == 3,
{
    let mut flags: u32 = 0;
    let mut order: Vec<u32> = vec![10, 11, 12];
    let w: u32 = order.remove(0);
    order.push(w);
    assert(order@ =~= seq![11u32, 12, 10]);
    if order.len() == 3 && order[0] == 11 && order[1] == 12 && order[2] == 10 {
        flags = flags + 1;
    }
    let grab: (i32, i32) = (10, 5);
    let cursor: (i32, i32) = (200, 160);
    if cursor.0 - grab.0 == 190 && cursor.1 - grab.1 == 155 {
        flags = flags + 2;
    }
    flags
}

/// Boot check of the window manager's rules.
pub fn run_wm_logic_selftest() -> (r: u32)
    ensures
        r == 3,
{
    wm_logic_selftest()
}

/// Boot check of the programs of the system image: their number, and how many could be loaded.
pub fn run_registry_demo(loaded: &Vec<bool>) -> (r: (u32, u32))
    requires
        loaded@.len() <= u32::MAX,
    ensures
        r.0 == loaded@.len(),
        r.1 == set_flags(loaded@, loaded@.len() as int),
{
    registry_self_test(loaded)
}

impl Compositor {
    /// Brings a window up for a program, `started` where it could be loaded; none where there
    /// are as many windows as there may be.
    pub fn launch(&mut self, name: &str, started: Option<u32>, geom: (u32, u32)) -> (r: Option<u32>)
        requires
            old(self).wf(),
            old(self).next_id < u32::MAX,
        ensures
            final(self).wf(),
            final(self).drag == old(self).drag,
            final(self).frame_no == old(self).frame_no,
            live_count(old(self).wins@) >= MAX_WINDOWS || started is None ==> r is None && final(self)@ == old(self)@,
            live_count(old(self).wins@) >= MAX_WINDOWS ==> final(self).same_rest(old(self)),
            live_count(old(self).wins@) < MAX_WINDOWS ==> {
                let id = next_window_id(*old(self));
                let rest = if old(self).free_ids@.len() > 0 {
                    old(self).free_ids@.drop_last()
                } else {
                    old(self).free_ids@
                };
                &&& final(self).next_id == old(self).next_id + if old(self).free_ids@.len() > 0 { 0int } else { 1 }
                &&& match started {
                    None => final(self).free_ids@ == rest.push(id),
                    Some(pid) => {
                        &&& r == Some(id)
                        &&& final(self).dirty
                        &&& final(self).free_ids@ == rest
                        &&& final(self).wins@.len() == old(self).wins@.len() + 1
                        &&& final(self).focused == old(self).wins@.len()
                        &&& forall|i: int|
                            0 <= i < old(self).wins@.len() ==> #[trigger] final(self).wins@[i] == (Window {
                                focused: false,
                                ..old(self).wins@[i]
                            })
                        &&& newborn(
                            final(self).wins@.last(),
                            id,
                            name@,
                            pid,
                            placement(live_count(old(self).wins@) as int, geom),
                        )
                    },
                }
            },
    {
        match self.reserve_window() {
            None => None,
            Some(id) => self.spawn_named(id, name, started, geom),
        }
    }
}

/// The id that the next window gets: one that is free again, or else a new one.
pub open spec fn next_window_id(c: Compositor) -> u32 {
    if c.free_ids@.len() > 0 { c.free_ids@.last() } else { c.next_id }
}

impl Window {
    fn run_closing(&mut self, count: &mut u32)
        requires
            old(self).state.tick < u32::MAX,
            *old(count) < 3,
        ensures
            *final(count) == *old(count) + 1,
            final(self).state.tick == old(self).state.tick + 1,
            final(self).state.close_requested == (old(self).state.close_requested || *final(count) == 3),
            *final(self) == (Window { state: final(self).state, ..*old(self) }),
    {
        closing_frame(count, &mut self.state);
    }

    fn run_probe(&mut self)
        requires
            old(self).state.tick < u32::MAX,
        ensures
            final(self).state.pixels@.len() == SURFACE,
            *final(self) == (Window { state: final(self).state, ..*old(self) }),
    {
        probe_frame(&mut self.state);
    }

    fn run_reactor(&mut self, count: &mut u32)
        requires
            old(self).state.tick < u32::MAX,
        ensures
            final(self).state.tick == old(self).state.tick + 1,
            final(self).state.close_requested == old(self).state.close_requested,
            *final(self) == (Window { state: final(self).state, ..*old(self) }),
    {
        reactor_frame(count, &mut self.state);
    }

    fn run_spinning(&mut self, count: &mut u32) -> (r: bool)
        requires
            old(self).state.tick < u32::MAX,
            *old(count) < 2,
        ensures
            *final(count) == *old(count) + 1,
            r == (*final(count) < 2),
            final(self).state.tick == old(self).state.tick + 1,
            final(self).state.close_requested == old(self).state.close_requested,
            *final(self) == (Window { state: final(self).state, ..*old(self) }),
    {
        spinning_frame(count, &mut self.state)
    }
}

/// A compositor with at most one window, whose program asks to be closed in its third frame
/// and has run `n` frames.
spec fn closing(c: Compositor, n: u32) -> bool {
    &&& c.wf()
    &&& c.frame_no == 0
    &&& c.next_id == 1
    &&& n <= 3
    &&& c.wins@.len() <= 1
    &&& c.wins@.len() == 1 ==> {
        let w = c.wins@[0];
        &&& w.alive
        &&& w.id == 0
        &&& w.last_active_frame == 0
        &&& w.state.tick == n
        &&& w.state.close_requested == (n == 3)
        &&& c.free_ids@.len() == 0
    }
    &&& c.wins@.len() == 0 ==> c.free_ids@ == seq![0u32]
}

/// One round: what asked to be closed goes, and the program runs a frame.
fn closing_round(c: &mut Compositor, count: &mut u32)
    requires
        closing(*old(c), *old(count)),
    ensures
        closing(*final(c), *final(count)),
        if old(c).wins@.len() == 1 && *old(count) < 3 {
            final(c).wins@.len() == 1 && *final(count) == *old(count) + 1
        } else {
            final(c).wins@.len() == 0 && *final(count) == *old(count)
        },
{
    proof {
        reveal_with_fuel(reaped, 3);
        reveal_with_fuel(dead_ids, 3);
    }
    let ghost start = Desk { wins: doomed(c.wins@), ..c@ };
    let ghost free = c.free_ids@;
    let _ = c.reap();
    proof {
        if start.wins.len() == 1 && *count == 3 {
            assert(start.without(0).wins.len() == 0);
            assert(dead_ids(start.without(0), 0) =~= Seq::<u32>::empty());
            assert(c.free_ids@ =~= seq![0u32]);
        } else if start.wins.len() == 1 {
            assert(dead_ids(start, 1) =~= Seq::<u32>::empty());
            assert(c.free_ids@ =~= free);
            assert(c.wins@ == start.wins);
        } else {
            assert(c.free_ids@ =~= free);
        }
    }
    if c.wins.len() > 0 {
        let _ = c.frame_begin(0, false);
        c.wins[0].run_closing(count);
        c.frame_end(0, false);
    }
}

/// Runs the program that asks to be closed. How many windows came up, how many there were at
/// most, and how many there are at the end; and the compositor.
fn lifecycle_run(started: Option<u32>) -> (r: (Compositor, u32, u32, u32))
    ensures
        match started {
            Some(_) => closing(r.0, 3) && r.0.wins@.len() == 0 && r.1 == 1 && r.2 == 1 && r.3 == 0,
            None => closing(r.0, 0) && r.0.wins@.len() == 0 && r.1 == 0 && r.2 == 0 && r.3 == 0,
        },
{
    let mut c = Compositor::new_empty();
    assert(live_count(c.wins@) == 0);
    let spawned = c.launch("selfclose", started, (0, 0));
    let spawns: u32 = if spawned.is_some() { 1 } else { 0 };
    let mut peak: u32 = 0;
    let mut count: u32 = 0;
    let mut i: u32 = 0;
    proof {
        if started is None {
            assert(c.free_ids@ =~= seq![0u32]);
        }
    }
    while i < ROUNDS
        invariant
            i <= ROUNDS,
            closing(c, count),
            peak <= 1,
            started is None ==> c.wins@.len() == 0 && count == 0 && peak == 0,
            started is Some && i == 0 ==> c.wins@.len() == 1 && count == 0,
            started is Some && 1 <= i <= 3 ==> c.wins@.len() == 1 && count == i && peak == 1,
            started is Some && i > 3 ==> c.wins@.len() == 0 && count == 3 && peak == 1,
        decreases ROUNDS - i,
    {
        closing_round(&mut c, &mut count);
        let live: u32 = c.live() as u32;
        proof {
            reveal_with_fuel(live_count, 2);
        }
        if live > peak {
            peak = live;
        }
        i += 1;
    }
    proof {
        reveal_with_fuel(reaped, 2);
        reveal_with_fuel(dead_ids, 2);
    }
    let ghost free = c.free_ids@;
    let _ = c.reap();
    assert(c.free_ids@ =~= free);
    let live: u32 = c.live() as u32;
    (c, spawns, peak, live)
}

/// Boot check of the life of a window: how many came up, how many there were at most, and how
/// many there are after its program asked to be closed. `started` is its process, where it
/// could be loaded.
pub fn lifecycle_self_test(started: Option<u32>) -> (r: (u32, u32, u32))
    ensures
        r == match started {
            Some(_) => (1u32, 1u32, 0u32),
            None => (0u32, 0u32, 0u32),
        },
{
    let (_, spawns, peak, live) = lifecycle_run(started);
    (spawns, peak, live)
}

/// The id of a window that comes up after another was closed: that of the closed one again.
pub fn recycled_window_id(started: Option<u32>) -> (r: Option<u32>)
    ensures
        r == match started {
            Some(_) => Some(0u32),
            None => None,
        },
{
    let (mut c, _, _, _) = lifecycle_run(started);
    assert(live_count(c.wins@) == 0);
    c.launch("selfclose", started, (0, 0))
}

/// Boot check of the life of a window.
pub fn run_lifecycle_demo(started: Option<u32>) -> (r: (u32, u32, u32))
    ensures
        r == match started {
            Some(_) => (1u32, 1u32, 0u32),
            None => (0u32, 0u32, 0u32),
        },
{
    lifecycle_self_test(started)
}

/// What a program hands over as its surface in a frame.
pub struct Surface {
    pub pixels: Vec<u8>,
    pub w: u32,
    pub h: u32,
}

/// A window that has come up alone, before the frame count started.
spec fn alone(c: Compositor) -> bool {
    c.wf() && c.frame_no == 0 && c.wins@.len() == 1 && c.wins@[0].last_active_frame == 0
}

impl Window {
    fn draw(&mut self, s: &Surface)
        requires
            s.pixels@.len() <= u32::MAX,
        ensures
            final(self).state.pixels@ == s.pixels@,
            *final(self) == (Window { state: final(self).state, ..*old(self) }),
    {
        self.state.commit(s.pixels.as_slice(), 0, s.pixels.len() as u32, s.w, s.h);
        assert(s.pixels@.subrange(0, s.pixels@.len() as int) =~= s.pixels@);
    }
}

/// The bytes of the surface after a frame: those of the surface that was handed over, or else
/// those before.
pub open spec fn shown(frame: Option<Surface>, before: nat) -> nat {
    match frame {
        Some(s) => s.pixels@.len(),
        None => before,
    }
}

/// The surface that is handed over in a frame can be counted.
pub open spec fn countable(frame: Option<Surface>) -> bool {
    frame matches Some(s) ==> s.pixels@.len() <= u32::MAX
}

fn draw_frame(c: &mut Compositor, frame: &Option<Surface>)
    requires
        alone(*old(c)),
        countable(*frame),
    ensures
        alone(*final(c)),
        final(c).wins@[0].state.pixels@.len() == shown(*frame, old(c).wins@[0].state.pixels@.len()),
{
    let awake: bool = c.frame_begin(0, false);
    assert(awake);
    if let Some(s) = frame {
        c.wins[0].draw(s);
    }
    c.frame_end(0, false);
}

/// The bytes of the surface of a program's window after its first two frames; no bytes where
/// it could not be loaded.
fn surface_after(name: &str, started: Option<u32>, first: &Option<Surface>, second: &Option<Surface>) -> (r: usize)
    requires
        countable(*first),
        countable(*second),
    ensures
        r == if started is Some {
            shown(*second, shown(*first, 0))
        } else {
            0
        },
{
    let mut c = Compositor::new_empty();
    assert(live_count(c.wins@) == 0);
    if c.launch(name, started, (0, 0)).is_none() {
        return 0;
    }
    draw_frame(&mut c, first);
    draw_frame(&mut c, second);
    c.wins[0].state.pixels.len()
}

/// Boot check: the bytes of the surface of the program that allocates memory in a frame.
pub fn wasip1_probe_self_test(started: Option<u32>) -> (r: usize)
    ensures
        r == if started is Some {
            SURFACE as usize
        } else {
            0
        },
{
    let mut c = Compositor::new_empty();
    assert(live_count(c.wins@) == 0);
    if c.launch("wasip1-probe", started, (0, 0)).is_none() {
        return 0;
    }
    let _ = c.frame_begin(0, false);
    c.wins[0].run_probe();
    c.frame_end(0, false);
    c.wins[0].state.pixels.len()
}

/// Boot check: the bytes of the surface of the demo after its first frame, in which it handed
/// over `frame`.
pub fn egui_demo_self_test(started: Option<u32>, frame: &Option<Surface>) -> (r: usize)
    requires
        countable(*frame),
    ensures
        r == if started is Some {
            shown(*frame, 0)
        } else {
            0
        },
{
    surface_after("egui-demo", started, frame, &None)
}

/// Boot check of the demo.
pub fn run_egui_demo_demo(started: Option<u32>, frame: &Option<Surface>) -> (r: usize)
    requires
        countable(*frame),
    ensures
        r == if started is Some {
            shown(*frame, 0)
        } else {
            0
        },
{
    egui_demo_self_test(started, frame)
}

/// Boot check: the bytes of the surface of the layout benchmark after its first frame.
pub fn gate_self_test(started: Option<u32>, frame: &Option<Surface>) -> (r: usize)
    requires
        countable(*frame),
    ensures
        r == if started is Some {
            shown(*frame, 0)
        } else {
            0
        },
{
    surface_after("viewer-gate", started, frame, &None)
}

/// Boot check: the bytes of the surface of the page viewer after its first two frames. The
/// page is laid out in the first and drawn in the second.
pub fn viewer_self_test(started: Option<u32>, first: &Option<Surface>, second: &Option<Surface>) -> (r: usize)
    requires
        countable(*first),
        countable(*second),
    ensures
        r == if started is Some {
            shown(*second, shown(*first, 0))
        } else {
            0
        },
{
    surface_after("viewer", started, first, second)
}

/// The size of the screen, or its stand-in while there is none.
pub open spec fn screen_or_standin(geom: (u32, u32)) -> (u32, u32) {
    if geom.0 != 0 && geom.1 != 0 { geom } else { STANDIN }
}

/// Makes the first window the background by its own request, and returns the size that it is
/// given then.
fn pin_first(c: &mut Compositor, geom: (u32, u32)) -> (r: Option<(u32, u32)>)
    requires
        old(c).wf(),
        old(c).wins@.len() > 0,
    ensures
        r == Some(screen_or_standin(geom)),
{
    c.wins[0].state.bg_request = true;
    let ghost asked = c.wins@;
    c.answer_backgrounds();
    assert(c.wins@[0] == bg_answered(asked[0]));
    assert(is_bg()(c.wins@[0]));
    let (sw, sh): (u32, u32) = if geom.0 != 0 && geom.1 != 0 { geom } else { STANDIN };
    assert(background(c.wins@) == Some(0int));
    match c.bg_index() {
        Some(b) => {
            c.wins[b].rect = (0, 0, sw, sh);
            let rect = c.wins[b].rect;
            Some((rect.2, rect.3))
        },
        None => None,
    }
}

/// Boot check of launches and of the background. Bit 0: a window that asks for a program gets
/// a second window. Bit 1: a window that asks for it becomes the background and fills the
/// screen. `first` and `second` are the processes, where they could be loaded.
pub fn spc_self_test(first: Option<u32>, second: Option<u32>, geom: (u32, u32)) -> (r: u32)
    ensures
        r == if first is None {
            0int
        } else {
            2 + if second is Some { 1int } else { 0 }
        },
{
    let mut c = Compositor::new_empty();
    assert(live_count(c.wins@) == 0);
    if c.launch("egui-demo", first, geom).is_none() {
        return 0;
    }
    let mut flags: u32 = 0;
    let name: String = String::from_str("egui-demo");
    c.wins[0].state.spawn_request.push_back(name);
    let ghost wins = c.wins@;
    let names = c.take_launches();
    proof {
        assert(wins[0].state.spawn_request@.len() == 1);
        reveal_with_fuel(launches, 2);
        assert(names@.len() == 1);
    }
    let mut i: usize = 0;
    while i < names.len()
        invariant
            i <= names@.len(),
            names@.len() == 1,
            c.wf(),
            c.next_id <= 1 + i,
            c.wins@.len() == 1 + if i == 1 && second is Some { 1int } else { 0 },
        decreases names@.len() - i,
    {
        proof {
            reveal_with_fuel(live_count, 2);
        }
        let _ = c.launch(names[i].as_str(), second, geom);
        i += 1;
    }
    if c.wins.len() == 2 {
        flags = flags + 1;
    }
    let size = pin_first(&mut c, geom);
    if size.is_some() {
        flags = flags + 2;
    }
    flags
}

/// Boot check of launches and of the background.
pub fn run_spc_demo(first: Option<u32>, second: Option<u32>, geom: (u32, u32)) -> (r: u32)
    ensures
        r == if first is None {
            0int
        } else {
            2 + if second is Some { 1int } else { 0 }
        },
{
    spc_self_test(first, second, geom)
}

/// Boot check of the desktop: the size that the background is given, as one number; nothing
/// where its program could not be loaded.
pub fn spd_self_test(started: Option<u32>, geom: (u32, u32)) -> (r: i64)
    ensures
        r == if started is None {
            0
        } else {
            packed_size(screen_or_standin(geom).0, screen_or_standin(geom).1)
        },
{
    let mut c = Compositor::new_empty();
    assert(live_count(c.wins@) == 0);
    if c.launch("shell", started, geom).is_none() {
        return 0;
    }
    match pin_first(&mut c, geom) {
        Some((w, h)) => pack_size(w, h),
        None => 0,
    }
}

/// Boot check of the desktop.
pub fn run_spd_demo(started: Option<u32>, geom: (u32, u32)) -> (r: i64)
    ensures
        r == if started is None {
            0
        } else {
            packed_size(screen_or_standin(geom).0, screen_or_standin(geom).1)
        },
{
    spd_self_test(started, geom)
}

/// The watchdog check after `n` rounds: the program that hangs has run `spun` frames, and its
/// window is gone once it was stopped; the other window runs on.
spec fn watched(c: Compositor, spun: u32, n: u32) -> bool {
    &&& c.wf()
    &&& c.frame_no == 0
    &&& n <= ROUNDS
    &&& 1 <= c.wins@.len() <= 2
    &&& forall|i: int| 0 <= i < c.wins@.len() ==> (#[trigger] c.wins@[i]).alive && c.wins@[i].last_active_frame == 0
    &&& c.wins@.last().id == 1
    &&& c.wins@.last().state.tick == n
    &&& !c.wins@.last().state.close_requested
    &&& c.wins@.len() == 2 ==> {
        &&& n <= 2
        &&& spun == n
        &&& c.wins@[0].id == 0
        &&& c.wins@[0].state.tick == spun
        &&& c.wins@[0].state.close_requested == (spun == 2)
    }
    &&& c.wins@.len() == 1 ==> spun == 2 && n > 2
}

/// `after` is `before` after one more frame of the window at `i`, at the start of time.
spec fn stepped(before: Compositor, after: Compositor, i: int, closing: bool) -> bool {
    &&& after.wf()
    &&& after.frame_no == 0
    &&& after.wins@.len() == before.wins@.len()
    &&& forall|j: int| 0 <= j < before.wins@.len() && j != i ==> #[trigger] after.wins@[j] == before.wins@[j]
    &&& after.wins@[i].id == before.wins@[i].id
    &&& after.wins@[i].alive == before.wins@[i].alive
    &&& after.wins@[i].last_active_frame == 0
    &&& after.wins@[i].state.tick == before.wins@[i].state.tick + 1
    &&& after.wins@[i].state.close_requested == (before.wins@[i].state.close_requested || closing)
}

fn spinning_step(c: &mut Compositor, spun: &mut u32)
    requires
        old(c).wf(),
        old(c).frame_no == 0,
        old(c).wins@.len() > 0,
        old(c).wins@[0].last_active_frame == 0,
        old(c).wins@[0].state.tick < u32::MAX,
        *old(spun) < 2,
    ensures
        *final(spun) == *old(spun) + 1,
        stepped(*old(c), *final(c), 0, *final(spun) == 2),
{
    let _ = c.frame_begin(0, false);
    let returned: bool = c.wins[0].run_spinning(spun);
    c.frame_end(0, !returned);
}

fn reactor_step(c: &mut Compositor, i: usize, count: &mut u32)
    requires
        old(c).wf(),
        old(c).frame_no == 0,
        i < old(c).wins@.len(),
        old(c).wins@[i as int].last_active_frame == 0,
        old(c).wins@[i as int].state.tick < u32::MAX,
    ensures
        stepped(*old(c), *final(c), i as int, false),
{
    let _ = c.frame_begin(i, false);
    c.wins[i].run_reactor(count);
    c.frame_end(i, false);
}

fn watchdog_round(c: &mut Compositor, spun: &mut u32, count: &mut u32, n: u32)
    requires
        watched(*old(c), *old(spun), n),
        n < ROUNDS,
    ensures
        watched(*final(c), *final(spun), (n + 1) as u32),
{
    proof {
        reveal_with_fuel(reaped, 4);
    }
    let ghost start = Desk { wins: doomed(c.wins@), ..c@ };
    let _ = c.reap();
    proof {
        if start.wins.len() == 2 && *spun == 2 {
            assert(!start.wins[0].alive);
            assert(start.without(0).wins.len() == 1);
            assert(c@ == start.without(0));
        } else {
            assert(c@ == start);
        }
    }
    if c.wins.len() == 2 {
        spinning_step(c, spun);
        reactor_step(c, 1, count);
    } else {
        reactor_step(c, 0, count);
    }
}

/// Boot check of the watchdog: whether the window of a program that hangs was taken away, and
/// how often the other program ran meanwhile. `started` are the two processes, where both
/// could be loaded.
pub fn run_watchdog_demo(started: Option<(u32, u32)>) -> (r: (bool, u32))
    ensures
        r == match started {
            Some(_) => (true, ROUNDS),
            None => (false, 0u32),
        },
{
    let (spinner, healthy) = match started {
        Some(p) => p,
        None => {
            return (false, 0);
        },
    };
    let mut c = Compositor::new_empty();
    proof {
        reveal_with_fuel(live_count, 2);
    }
    let _ = c.launch("spin", Some(spinner), (0, 0));
    let _ = c.launch("reactor", Some(healthy), (0, 0));
    let mut spun: u32 = 0;
    let mut count: u32 = 0;
    let mut n: u32 = 0;
    while n < ROUNDS
        invariant
            n <= ROUNDS,
            watched(c, spun, n),
        decreases ROUNDS - n,
    {
        watchdog_round(&mut c, &mut spun, &mut count, n);
        n += 1;
    }
    let reaped: bool = c.wins.len() == 1 && c.wins[0].id == 1;
    let last: usize = c.wins.len() - 1;
    (reaped, c.wins[last].state.tick)
}

/// Where the first program of the desktop comes from.
#[derive(Clone, Copy, PartialEq, Eq, Structural, Debug)]
pub enum Initial {
    /// The desktop.
    Shell,
    /// The demo, in place of the desktop.
    Demo,
    /// The demo that comes with the kernel.
    BuiltIn,
}

/// Chooses the first program: the desktop where it can be loaded, else the demo, else the demo
/// that comes with the kernel.
pub fn initial_program(shell: bool, demo: bool, built_in: bool) -> (r: Option<Initial>)
    ensures
        r == if shell {
            Some(Initial::Shell)
        } else if demo {
            Some(Initial::Demo)
        } else if built_in {
            Some(Initial::BuiltIn)
        } else {
            None
        },
{
    if shell {
        Some(Initial::Shell)
    } else if demo {
        Some(Initial::Demo)
    } else if built_in {
        Some(Initial::BuiltIn)
    } else {
        None
    }
}

/// The title of the first window.
pub open spec fn initial_title(i: Initial) -> Seq<char> {
    match i {
        Initial::Shell => "shell"@,
        _ => "egui-demo"@,
    }
}

/// Starts the compositor with the window of its first program, in front of which it then runs
/// for good. `started` is the program's process, where it could be instantiated; a compositor
/// without a first window is one too.
pub fn run_compositor_gate(initial: Option<Initial>, started: Option<u32>, geom: (u32, u32)) -> (r: Compositor)
    ensures
        r.wf(),
        r.frame_no == 0,
        r.drag is None,
        r.dirty,
        match (initial, started) {
            (Some(i), Some(pid)) => r.wins@.len() == 1 && newborn(
                r.wins@[0],
                0,
                initial_title(i),
                pid,
                placement(0, geom),
            ),
            _ => r.wins@.len() == 0,
        },
{
    let mut c = Compositor::new_empty();
    assert(live_count(c.wins@) == 0);
    match initial {
        Some(Initial::Shell) => {
            let _ = c.launch("shell", started, geom);
        },
        Some(_) => {
            let _ = c.launch("egui-demo", started, geom);
        },
        None => {},
    }
    c
}

/// The program of the compositor on its way from the boot processor to its own.
pub struct CompositorMailbox {
    pub program: Option<Vec<u8>>,
}

/// The first processor from `i` on that is there for the compositor.
pub open spec fn gui_core(roles: Seq<CoreRole>, i: int) -> Option<int>
    decreases roles.len() - i,
{
    if i < 0 || i >= roles.len() {
        None
    } else if roles[i] == CoreRole::GuiCompositor {
        Some(i)
    } else {
        gui_core(roles, i + 1)
    }
}

impl CompositorMailbox {
    /// An empty mailbox.
    pub fn new() -> (r: Self)
        ensures
            r.program is None,
    {
        CompositorMailbox { program: None }
    }

    /// Hands the compositor's program to the processor that is there for it, which is to be
    /// woken then. Where there is none, the program is not handed over: the caller runs it.
    pub fn send_compositor_to_gui_core(&mut self, roles: &Vec<CoreRole>, bytes: Vec<u8>) -> (r: Option<usize>)
        ensures
            match gui_core(roles@, 0) {
                Some(c) => r == Some(c as usize) && c < roles@.len() && final(self).program == Some(bytes),
                None => r is None && final(self).program == old(self).program,
            },
    {
        let mut c: usize = 0;
        while c < roles.len()
            invariant
                c <= roles@.len(),
                self.program == old(self).program,
                gui_core(roles@, 0) == gui_core(roles@, c as int),
            decreases roles@.len() - c,
        {
            if roles[c] == CoreRole::GuiCompositor {
                self.program = Some(bytes);
                return Some(c);
            }
            c += 1;
        }
        None
    }

    /// What the processor of the compositor looks for whenever it wakes up: the program, once
    /// it was handed over.
    pub fn poll(&self) -> (r: Option<&Vec<u8>>)
        ensures
            match self.program {
                Some(b) => r == Some(&b),
                None => r is None,
            },
    {
        match &self.program {
            Some(b) => Some(b),
            None => None,
        }
    }
}

/// Frames that the first check of a window's program runs.
pub const SPIKE_FRAMES: u32 = 5;

/// Boot check: five frames of a program. How often it ran, the first byte of its surface and
/// the surface's length; zeros where it could not be loaded.
pub fn run_reactor_spike(loaded: bool) -> (r: (u32, u8, usize))
    ensures
        r == if loaded {
            (SPIKE_FRAMES, 5u8, SURFACE as usize)
        } else {
            (0u32, 0u8, 0usize)
        },
{
    if !loaded {
        return (0, 0, 0);
    }
    let mut win = WmState::new(0);
    let mut count: u32 = 0;
    let mut i: u32 = 0;
    while i < SPIKE_FRAMES
        invariant
            i <= SPIKE_FRAMES,
            count == i,
            win.id == 0,
            win.tick == i,
            i > 0 ==> win.pixels@.len() == SURFACE && win.pixels@[0] == i as u8,
        decreases SPIKE_FRAMES - i,
    {
        reactor_frame(&mut count, &mut win);
        i += 1;
    }
    (win.tick, win.pixels[0], win.pixels.len())
}

} // verus!
