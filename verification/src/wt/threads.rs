//! Scheduler of the threads of compiled modules: cooperative fibers, a run queue and a
//! futex wait queue.
//!
//! A fiber that parks is put into the wait queue by whoever ran it, once it has stopped. A
//! wake-up that comes before that finds no waiter and leaves a credit; a fiber that parks
//! on a key with a credit stays runnable. At most one credit is left per key: a stale one
//! costs one spurious wake-up, after which the waiter looks at its value again.

use std::collections::VecDeque;
use vstd::prelude::*;

verus! {

/// How many parts the wait queue has.
pub const WAITQ_SHARDS: usize = 16;

/// The deadline of a wait without timeout.
pub const FOREVER: u64 = u64::MAX;

/// The key that stands for no park: no word has this address.
pub const NO_KEY: usize = 0;

/// Nanoseconds of a timer tick.
pub const TICK_NS: u64 = 10_000_000;

/// A thread of a module: which fiber it runs on, the group that it belongs to and its
/// number there.
#[derive(Clone, Copy, PartialEq, Eq, Structural, Debug)]
pub struct ThreadFiber {
    pub fiber: u64,
    pub group: Option<u64>,
    pub tid: u32,
}

/// A parked fiber: the key that it waits for and the tick at which it gives up.
#[derive(Clone, Copy, PartialEq, Eq, Structural, Debug)]
pub struct Waiter {
    pub key: usize,
    pub deadline: u64,
    pub fiber: ThreadFiber,
}

/// A part of the wait queue.
pub struct WaitShard {
    /// The parked fibers.
    pub waiters: Vec<Waiter>,
    /// The keys with a credit.
    pub credits: Vec<usize>,
}

/// The scheduler.
pub struct Scheduler {
    /// Runnable fibers, first come first served.
    pub runq: VecDeque<ThreadFiber>,
    /// Parked fibers, by key.
    pub waitq: Vec<WaitShard>,
    /// How many parked fibers have a deadline.
    pub timed: u64,
}

/// The part of the wait queue that a key belongs to. Keys are addresses of atomic words,
/// so their low bits carry nothing.
pub open spec fn shard_of(key: usize) -> int {
    (key / 8) as int % 16
}

/// What a scan of the wait queue picks.
#[derive(Clone, Copy, PartialEq, Eq, Structural, Debug)]
pub enum Pick {
    /// The waiters for a key.
    Key(usize),
    /// The waiters whose deadline has come.
    Due(u64),
}

/// Whether a scan picks a waiter.
pub open spec fn picks(p: Pick, w: Waiter) -> bool {
    match p {
        Pick::Key(k) => w.key == k,
        Pick::Due(now) => w.deadline <= now,
    }
}

/// The sequence without the element at `i`, whose place the last one takes.
pub open spec fn swap_removed(s: Seq<Waiter>, i: int) -> Seq<Waiter> {
    s.update(i, s.last()).drop_last()
}

/// What a scan from `i` on that picks at most `budget` waiters leaves.
pub open spec fn left(s: Seq<Waiter>, i: int, p: Pick, budget: int) -> Seq<Waiter>
    decreases s.len() - i,
{
    if i < 0 || i >= s.len() || budget <= 0 {
        s
    } else if picks(p, s[i]) {
        left(swap_removed(s, i), i, p, budget - 1)
    } else {
        left(s, i + 1, p, budget)
    }
}

/// What a scan from `i` on that picks at most `budget` waiters takes, in order.
pub open spec fn taken(s: Seq<Waiter>, i: int, p: Pick, budget: int) -> Seq<ThreadFiber>
    decreases s.len() - i,
{
    if i < 0 || i >= s.len() || budget <= 0 {
        Seq::empty()
    } else if picks(p, s[i]) {
        seq![s[i].fiber] + taken(swap_removed(s, i), i, p, budget - 1)
    } else {
        taken(s, i + 1, p, budget)
    }
}

/// How many waiters `f` holds of.
pub open spec fn tally(s: Seq<Waiter>, f: spec_fn(Waiter) -> bool) -> nat
    decreases s.len(),
{
    if s.len() == 0 {
        0
    } else {
        tally(s.drop_last(), f) + if f(s.last()) { 1nat } else { 0nat }
    }
}

/// How many waiters of all parts `f` holds of.
pub open spec fn tally_all(s: Seq<WaitShard>, f: spec_fn(Waiter) -> bool) -> nat
    decreases s.len(),
{
    if s.len() == 0 {
        0
    } else {
        tally_all(s.drop_last(), f) + tally(s.last().waiters@, f)
    }
}

/// How often a fiber is in a queue.
pub open spec fn occurrences(q: Seq<ThreadFiber>, t: ThreadFiber) -> nat
    decreases q.len(),
{
    if q.len() == 0 {
        0
    } else {
        occurrences(q.drop_last(), t) + if q.last() == t { 1nat } else { 0nat }
    }
}

/// Picks the waiters that are a fiber.
pub open spec fn is_fiber(t: ThreadFiber) -> spec_fn(Waiter) -> bool {
    |w: Waiter| w.fiber == t
}

/// Picks the waiters with a deadline.
pub open spec fn has_deadline() -> spec_fn(Waiter) -> bool {
    |w: Waiter| w.deadline != FOREVER
}

/// Picks what a scan picks.
pub open spec fn as_filter(p: Pick) -> spec_fn(Waiter) -> bool {
    |w: Waiter| picks(p, w)
}

proof fn lemma_tally_update(s: Seq<Waiter>, i: int, w: Waiter, f: spec_fn(Waiter) -> bool)
    requires
        0 <= i < s.len(),
    ensures
        tally(s.update(i, w), f) + (if f(s[i]) { 1nat } else { 0nat }) == tally(s, f) + (if f(w) { 1nat } else { 0nat }),
    decreases s.len(),
{
    if i < s.len() - 1 {
        assert(s.update(i, w).drop_last() =~= s.drop_last().update(i, w));
        lemma_tally_update(s.drop_last(), i, w, f);
    } else {
        assert(s.update(i, w).drop_last() =~= s.drop_last());
    }
}

pub proof fn lemma_tally_swap_removed(s: Seq<Waiter>, i: int, f: spec_fn(Waiter) -> bool)
    requires
        0 <= i < s.len(),
    ensures
        tally(swap_removed(s, i), f) + (if f(s[i]) { 1nat } else { 0nat }) == tally(s, f),
{
    lemma_tally_update(s, i, s.last(), f);
    let u = s.update(i, s.last());
    assert(u.last() == s.last());
}

proof fn lemma_occurrences_prepend(t0: ThreadFiber, q: Seq<ThreadFiber>, t: ThreadFiber)
    ensures
        occurrences(seq![t0] + q, t) == occurrences(q, t) + (if t0 == t { 1nat } else { 0nat }),
    decreases q.len(),
{
    reveal_with_fuel(occurrences, 2);
    if q.len() == 0 {
        assert((seq![t0] + q).drop_last() =~= Seq::<ThreadFiber>::empty());
        assert((seq![t0] + q).last() == t0);
    } else {
        assert((seq![t0] + q).drop_last() =~= seq![t0] + q.drop_last());
        lemma_occurrences_prepend(t0, q.drop_last(), t);
    }
}

proof fn lemma_occurrences_add(a: Seq<ThreadFiber>, b: Seq<ThreadFiber>, t: ThreadFiber)
    ensures
        occurrences(a + b, t) == occurrences(a, t) + occurrences(b, t),
    decreases b.len(),
{
    if b.len() == 0 {
        assert(a + b =~= a);
    } else {
        assert((a + b).drop_last() =~= a + b.drop_last());
        lemma_occurrences_add(a, b.drop_last(), t);
    }
}

/// A scan loses no waiter and invents none: what it leaves and what it takes is what was
/// there.
pub proof fn scan_conserves(s: Seq<Waiter>, i: int, p: Pick, budget: int, t: ThreadFiber)
    requires
        0 <= i <= s.len(),
    ensures
        tally(left(s, i, p, budget), is_fiber(t)) + occurrences(taken(s, i, p, budget), t) == tally(s, is_fiber(t)),
    decreases s.len() - i,
{
    if i >= s.len() || budget <= 0 {
    } else if picks(p, s[i]) {
        scan_conserves(swap_removed(s, i), i, p, budget - 1, t);
        lemma_tally_swap_removed(s, i, is_fiber(t));
        lemma_occurrences_prepend(s[i].fiber, taken(swap_removed(s, i), i, p, budget - 1), t);
    } else {
        scan_conserves(s, i + 1, p, budget, t);
    }
}

/// A waiter that a scan leaves was there before; one that the scan picks is left only
/// where the budget is used up.
proof fn lemma_scan_from(s: Seq<Waiter>, i: int, p: Pick, budget: int)
    requires
        0 <= i <= s.len(),
        0 <= budget,
        forall|k: int| 0 <= k < i ==> !picks(p, #[trigger] s[k]),
    ensures
        taken(s, i, p, budget).len() <= budget,
        taken(s, i, p, budget).len() == if tally(s, as_filter(p)) < budget {
            tally(s, as_filter(p)) as int
        } else {
            budget
        },
        left(s, i, p, budget).len() + taken(s, i, p, budget).len() == s.len(),
        forall|k: int|
            0 <= k < left(s, i, p, budget).len() ==> #[trigger] s.contains(left(s, i, p, budget)[k]),
        taken(s, i, p, budget).len() < budget ==> forall|k: int|
            0 <= k < left(s, i, p, budget).len() ==> !picks(p, #[trigger] left(s, i, p, budget)[k]),
    decreases s.len() - i,
{
    if i >= s.len() || budget <= 0 {
        lemma_tally_none(s, p, i);
        assert forall|k: int| 0 <= k < s.len() implies #[trigger] s.contains(s[k]) by {}
    } else if picks(p, s[i]) {
        let u = swap_removed(s, i);
        assert forall|k: int| 0 <= k < i implies !picks(p, #[trigger] u[k]) by {
            assert(u[k] == s[k]);
        }
        lemma_scan_from(u, i, p, budget - 1);
        lemma_tally_swap_removed(s, i, as_filter(p));
        assert forall|k: int| 0 <= k < left(s, i, p, budget).len() implies #[trigger] s.contains(
            left(s, i, p, budget)[k],
        ) by {
            let w = left(s, i, p, budget)[k];
            assert(u.contains(left(u, i, p, budget - 1)[k]));
            let j = choose|j: int| 0 <= j < u.len() && u[j] == w;
            if j == i {
                assert(s[s.len() - 1] == w);
            } else {
                assert(s[j] == w);
            }
        }
    } else {
        lemma_scan_from(s, i + 1, p, budget);
    }
}

proof fn lemma_tally_none(s: Seq<Waiter>, p: Pick, n: int)
    requires
        0 <= n <= s.len(),
        forall|k: int| 0 <= k < n ==> !picks(p, #[trigger] s[k]),
    ensures
        n == s.len() ==> tally(s, as_filter(p)) == 0,
    decreases s.len(),
{
    if n == s.len() && s.len() > 0 {
        let d = s.drop_last();
        assert(forall|k: int| 0 <= k < d.len() ==> d[k] == s[k]);
        lemma_tally_none(d, p, d.len() as int);
    }
}

/// A scan of a part picks exactly as many waiters as there are to pick, but no more than
/// its budget; and it leaves one that it could pick only where the budget is used up.
pub proof fn scan_takes_what_it_may(s: Seq<Waiter>, p: Pick, budget: int)
    requires
        0 <= budget,
    ensures
        taken(s, 0, p, budget).len() == if tally(s, as_filter(p)) < budget {
            tally(s, as_filter(p)) as int
        } else {
            budget
        },
        taken(s, 0, p, budget).len() < budget ==> forall|k: int|
            0 <= k < left(s, 0, p, budget).len() ==> !picks(p, #[trigger] left(s, 0, p, budget)[k]),
{
    lemma_scan_from(s, 0, p, budget);
}

proof fn lemma_tally_all_update(s: Seq<WaitShard>, i: int, n: WaitShard, f: spec_fn(Waiter) -> bool)
    requires
        0 <= i < s.len(),
    ensures
        tally_all(s.update(i, n), f) + tally(s[i].waiters@, f) == tally_all(s, f) + tally(n.waiters@, f),
    decreases s.len(),
{
    if i < s.len() - 1 {
        assert(s.update(i, n).drop_last() =~= s.drop_last().update(i, n));
        lemma_tally_all_update(s.drop_last(), i, n, f);
    } else {
        assert(s.update(i, n).drop_last() =~= s.drop_last());
    }
}

proof fn lemma_tally_part(s: Seq<WaitShard>, i: int, f: spec_fn(Waiter) -> bool)
    requires
        0 <= i < s.len(),
    ensures
        tally(s[i].waiters@, f) <= tally_all(s, f),
    decreases s.len(),
{
    if i < s.len() - 1 {
        lemma_tally_part(s.drop_last(), i, f);
    }
}

/// Timed waiters that a scan takes were counted.
proof fn lemma_timed_scan(s: Seq<Waiter>, i: int, p: Pick, budget: int)
    requires
        0 <= i <= s.len(),
    ensures
        tally(left(s, i, p, budget), has_deadline()) <= tally(s, has_deadline()),
        p is Due && p->Due_0 < FOREVER ==> tally(left(s, i, p, budget), has_deadline()) + taken(s, i, p, budget).len()
            == tally(s, has_deadline()),
    decreases s.len() - i,
{
    if i >= s.len() || budget <= 0 {
    } else if picks(p, s[i]) {
        lemma_timed_scan(swap_removed(s, i), i, p, budget - 1);
        lemma_tally_swap_removed(s, i, has_deadline());
    } else {
        lemma_timed_scan(s, i + 1, p, budget);
    }
}

/// A part holds only waiters and credits of its own keys, and one credit per key at most.
pub open spec fn shard_wf(s: WaitShard, n: int) -> bool {
    &&& forall|i: int| 0 <= i < s.waiters@.len() ==> shard_of((#[trigger] s.waiters@[i]).key) == n
    &&& forall|i: int| 0 <= i < s.credits@.len() ==> shard_of(#[trigger] s.credits@[i]) == n
    &&& s.credits@.no_duplicates()
}

/// `after` is `before` with a fiber parked on `key`: a credit of the key is used up and
/// keeps the fiber runnable; without one the fiber waits.
pub open spec fn parks(before: Scheduler, after: Scheduler, f: ThreadFiber, key: usize, deadline: u64) -> bool {
    &&& after.same_but(before, key)
    &&& !after.credit(key)
    &&& forall|k: usize| k != key ==> after.credit(k) == before.credit(k)
    &&& if before.credit(key) {
        after.runq@ == before.runq@.push(f) && after.part(key) == before.part(key)
    } else {
        after.runq@ == before.runq@ && after.part(key) == before.part(key).push(Waiter { key, deadline, fiber: f })
    }
}

/// `after` is `before` with up to `count` waiters for `key` made runnable, of which there
/// were `woken`; where there were fewer than `count`, the key has a credit.
pub open spec fn wakes(before: Scheduler, after: Scheduler, key: usize, count: u32, woken: u32) -> bool {
    &&& woken == taken(before.part(key), 0, Pick::Key(key), count as int).len()
    &&& after.runq@ == before.runq@ + taken(before.part(key), 0, Pick::Key(key), count as int)
    &&& after.part(key) == left(before.part(key), 0, Pick::Key(key), count as int)
    &&& after.same_but(before, key)
    &&& after.credit(key) == (before.credit(key) || woken < count)
    &&& forall|k: usize| k != key ==> after.credit(k) == before.credit(k)
}

/// A wake-up that comes before the fiber is parked is not lost: where it finds too few
/// waiters, the next fiber that parks on the key stays runnable.
pub proof fn early_wake_is_not_lost(
    before: Scheduler,
    between: Scheduler,
    after: Scheduler,
    key: usize,
    count: u32,
    woken: u32,
    f: ThreadFiber,
    deadline: u64,
)
    requires
        wakes(before, between, key, count, woken),
        woken < count,
        parks(between, after, f, key, deadline),
    ensures
        after.runq@ == between.runq@.push(f),
        after.part(key) == between.part(key),
{
}

/// A wake-up for one key after a fiber parked on it, with no credit around, makes a waiter
/// for the key runnable.
pub proof fn wake_reaches_a_parked_fiber(
    before: Scheduler,
    between: Scheduler,
    after: Scheduler,
    key: usize,
    count: u32,
    woken: u32,
    f: ThreadFiber,
    deadline: u64,
)
    requires
        !before.credit(key),
        parks(before, between, f, key, deadline),
        count > 0,
        wakes(between, after, key, count, woken),
    ensures
        woken >= 1,
        after.runq@.len() >= before.runq@.len() + 1,
{
    let s = between.part(key);
    scan_takes_what_it_may(s, Pick::Key(key), count as int);
    assert(s.drop_last() =~= before.part(key));
    assert(as_filter(Pick::Key(key))(s.last()));
}

impl Scheduler {
    /// The wait queue has all of its parts, each with its own keys only, and the count of
    /// waiters with a deadline is right.
    pub open spec fn wf(self) -> bool {
        &&& self.waitq@.len() == 16
        &&& forall|n: int| 0 <= n < 16 ==> shard_wf(#[trigger] self.waitq@[n], n)
        &&& self.timed == tally_all(self.waitq@, has_deadline())
    }

    /// How often a fiber is held, runnable or parked.
    pub open spec fn held(self, t: ThreadFiber) -> nat {
        occurrences(self.runq@, t) + tally_all(self.waitq@, is_fiber(t))
    }

    /// Whether a key has a credit.
    pub open spec fn credit(self, key: usize) -> bool {
        self.waitq@[shard_of(key)].credits@.contains(key)
    }

    /// The fibers parked in the part of a key.
    pub open spec fn part(self, key: usize) -> Seq<Waiter> {
        self.waitq@[shard_of(key)].waiters@
    }

    /// Every part but that of `key` is the same.
    pub open spec fn same_but(self, other: Self, key: usize) -> bool {
        forall|n: int| 0 <= n < 16 && n != shard_of(key) ==> #[trigger] self.waitq@[n] == other.waitq@[n]
    }

    /// A scheduler without fibers.
    pub fn new() -> (r: Self)
        ensures
            r.wf(),
            r.runq@ == Seq::<ThreadFiber>::empty(),
            r.timed == 0,
            forall|n: int| 0 <= n < 16 ==> (#[trigger] r.waitq@[n]).waiters@.len() == 0 && r.waitq@[n].credits@.len() == 0,
    {
        let mut waitq: Vec<WaitShard> = Vec::new();
        let mut i: usize = 0;
        while i < WAITQ_SHARDS
            invariant
                i <= 16,
                waitq@.len() == i,
                forall|n: int| 0 <= n < i ==> (#[trigger] waitq@[n]).waiters@.len() == 0 && waitq@[n].credits@.len() == 0,
                tally_all(waitq@, has_deadline()) == 0,
            decreases 16 - i,
        {
            let ghost before = waitq@;
            waitq.push(WaitShard { waiters: Vec::new(), credits: Vec::new() });
            assert(waitq@.drop_last() =~= before);
            i += 1;
        }
        Scheduler { runq: VecDeque::new(), waitq, timed: 0 }
    }

    /// Whether no fiber is runnable.
    pub fn runnable_empty(&self) -> (r: bool)
        ensures
            r == (self.runq@.len() == 0),
    {
        self.runq.len() == 0
    }

    /// Makes a fiber runnable.
    pub fn enqueue_runnable(&mut self, f: ThreadFiber)
        requires
            old(self).wf(),
        ensures
            final(self).wf(),
            final(self).runq@ == old(self).runq@.push(f),
            final(self).waitq == old(self).waitq,
            final(self).timed == old(self).timed,
            forall|t: ThreadFiber|
                #[trigger] final(self).held(t) == old(self).held(t) + (if t == f { 1nat } else { 0nat }),
    {
        self.runq.push_back(f);
        assert(self.runq@.drop_last() =~= old(self).runq@);
    }

    /// Takes the fiber to run next: the one that has been runnable longest.
    pub fn run_one(&mut self) -> (r: Option<ThreadFiber>)
        requires
            old(self).wf(),
        ensures
            final(self).wf(),
            final(self).waitq == old(self).waitq,
            final(self).timed == old(self).timed,
            match r {
                None => old(self).runq@.len() == 0 && final(self).runq@ == old(self).runq@,
                Some(f) => old(self).runq@.len() > 0 && f == old(self).runq@[0] && final(self).runq@ == old(
                    self,
                ).runq@.subrange(1, old(self).runq@.len() as int),
            },
            forall|t: ThreadFiber|
                #[trigger] old(self).held(t) == final(self).held(t) + (if r == Some(t) { 1nat } else { 0nat }),
    {
        let ghost q = self.runq@;
        let r = self.runq.pop_front();
        proof {
            if r is Some {
                let f = r->0;
                let rest = q.subrange(1, q.len() as int);
                assert(self.runq@ =~= rest);
                assert(q =~= seq![f] + rest);
                assert forall|t: ThreadFiber| #[trigger] old(self).held(t) == self.held(t) + (if r == Some(t) {
                    1nat
                } else {
                    0nat
                }) by {
                    lemma_occurrences_prepend(f, rest, t);
                }
            }
        }
        r
    }

    /// Takes back a fiber that stopped without having finished. One that asked for no park, or
    /// for one on no key, stays runnable; one that parks on a key with a credit uses the credit up and stays
    /// runnable; any other one waits.
    pub fn suspended(&mut self, f: ThreadFiber, park: Option<(usize, u64)>)
        requires
            old(self).wf(),
            old(self).timed < u64::MAX,
        ensures
            final(self).wf(),
            match park {
                Some((key, deadline)) if key != NO_KEY => parks(*old(self), *final(self), f, key, deadline),
                _ => {
                    &&& final(self).runq@ == old(self).runq@.push(f)
                    &&& final(self).waitq == old(self).waitq
                    &&& final(self).timed == old(self).timed
                },
            },
            forall|t: ThreadFiber|
                #[trigger] final(self).held(t) == old(self).held(t) + (if t == f { 1nat } else { 0nat }),
    {
        match park {
            None => {
                self.enqueue_runnable(f);
            },
            Some((key, deadline)) => {
                if key == NO_KEY {
                    self.enqueue_runnable(f);
                    return;
                }
                let n: usize = key / 8 % WAITQ_SHARDS;
                let ghost shards = self.waitq@;
                assert(shard_wf(shards[n as int], n as int));
                let mut shard = WaitShard { waiters: Vec::new(), credits: Vec::new() };
                std::mem::swap(&mut shard, &mut self.waitq[n]);
                let ghost before = shard;
                let mut pos: usize = 0;
                while pos < shard.credits.len() && shard.credits[pos] != key
                    invariant
                        pos <= shard.credits@.len(),
                        shard == before,
                        forall|k: int| 0 <= k < pos ==> #[trigger] shard.credits@[k] != key,
                    decreases shard.credits@.len() - pos,
                {
                    pos += 1;
                }
                if pos < shard.credits.len() {
                    assert(shard.credits@[pos as int] == key);
                    shard.credits.swap_remove(pos);
                    proof {
                        lemma_credit_removed(before.credits@, pos as int);
                        assert forall|i: int| 0 <= i < shard.credits@.len() implies shard_of(
                            #[trigger] shard.credits@[i],
                        ) == n by {
                            assert(before.credits@.contains(shard.credits@[i]));
                            let j = choose|j: int| 0 <= j < before.credits@.len() && before.credits@[j]
                                == shard.credits@[i];
                            assert(shard_of(before.credits@[j]) == n);
                        }
                    }
                    std::mem::swap(&mut shard, &mut self.waitq[n]);
                    self.runq.push_back(f);
                    assert(self.runq@.drop_last() =~= old(self).runq@);
                } else {
                    shard.waiters.push(Waiter { key, deadline, fiber: f });
                    assert(shard.waiters@.drop_last() =~= before.waiters@);
                    std::mem::swap(&mut shard, &mut self.waitq[n]);
                    if deadline != FOREVER {
                        self.timed = self.timed + 1;
                    }
                    assert(!before.credits@.contains(key));
                }
                proof {
                    let now = self.waitq@[n as int];
                    assert(self.waitq@ =~= shards.update(n as int, now));
                    lemma_tally_all_update(shards, n as int, now, has_deadline());
                    assert forall|t: ThreadFiber| #[trigger] self.held(t) == old(self).held(t) + (if t == f {
                        1nat
                    } else {
                        0nat
                    }) by {
                        lemma_tally_all_update(shards, n as int, now, is_fiber(t));
                    }
                    assert forall|m: int| 0 <= m < 16 implies shard_wf(#[trigger] self.waitq@[m], m) by {
                        assert(shard_wf(shards[m], m));
                    }
                }
            },
        }
    }
}

/// Takes at most `budget` waiters that `p` picks out of a part.
fn scan(waiters: &mut Vec<Waiter>, p: Pick, budget: usize) -> (r: (Vec<ThreadFiber>, u64))
    ensures
        final(waiters)@ == left(old(waiters)@, 0, p, budget as int),
        r.0@ == taken(old(waiters)@, 0, p, budget as int),
        tally(final(waiters)@, has_deadline()) + r.1 == tally(old(waiters)@, has_deadline()),
{
    let mut out: Vec<ThreadFiber> = Vec::new();
    let mut timed: u64 = 0;
    let mut i: usize = 0;
    let mut room: usize = budget;
    proof {
        lemma_tally_bound(waiters@, has_deadline());
    }
    while i < waiters.len() && room > 0
        invariant
            i <= waiters@.len(),
            room <= budget,
            timed <= budget - room,
            left(waiters@, i as int, p, room as int) == left(old(waiters)@, 0, p, budget as int),
            out@ + taken(waiters@, i as int, p, room as int) == taken(old(waiters)@, 0, p, budget as int),
            tally(waiters@, has_deadline()) + timed == tally(old(waiters)@, has_deadline()),
        decreases waiters@.len() - i,
    {
        let w = waiters[i];
        let hit: bool = match p {
            Pick::Key(k) => w.key == k,
            Pick::Due(now) => w.deadline <= now,
        };
        if hit {
            let ghost s = waiters@;
            let ghost o = out@;
            proof {
                lemma_tally_swap_removed(s, i as int, has_deadline());
            }
            waiters.swap_remove(i);
            if w.deadline != FOREVER {
                timed += 1;
            }
            out.push(w.fiber);
            room -= 1;
            assert(o + (seq![w.fiber] + taken(waiters@, i as int, p, room as int)) =~= out@ + taken(
                waiters@,
                i as int,
                p,
                room as int,
            ));
        } else {
            i += 1;
        }
    }
    assert(out@ + taken(waiters@, i as int, p, room as int) =~= out@);
    (out, timed)
}

proof fn lemma_tally_bound(s: Seq<Waiter>, f: spec_fn(Waiter) -> bool)
    ensures
        tally(s, f) <= s.len(),
    decreases s.len(),
{
    if s.len() > 0 {
        lemma_tally_bound(s.drop_last(), f);
    }
}

proof fn lemma_shard_kept(s: WaitShard, n: int, p: Pick, budget: int, after: WaitShard)
    requires
        shard_wf(s, n),
        0 <= budget,
        after.waiters@ == left(s.waiters@, 0, p, budget),
        after.credits@.no_duplicates(),
        forall|i: int| 0 <= i < after.credits@.len() ==> shard_of(#[trigger] after.credits@[i]) == n,
    ensures
        shard_wf(after, n),
{
    lemma_scan_from(s.waiters@, 0, p, budget);
    assert forall|i: int| 0 <= i < after.waiters@.len() implies shard_of((#[trigger] after.waiters@[i]).key) == n by {
        assert(s.waiters@.contains(left(s.waiters@, 0, p, budget)[i]));
        let j = choose|j: int| 0 <= j < s.waiters@.len() && s.waiters@[j] == after.waiters@[i];
        assert(shard_of(s.waiters@[j].key) == n);
    }
}

/// What the scan for waiters whose deadline has come takes out of the first `n` parts.
pub open spec fn expired(s: Seq<WaitShard>, n: int, now: u64) -> Seq<ThreadFiber>
    decreases n,
{
    if n <= 0 {
        Seq::empty()
    } else {
        expired(s, n - 1, now) + taken(
            s[n - 1].waiters@,
            0,
            Pick::Due(now),
            s[n - 1].waiters@.len() as int,
        )
    }
}

proof fn lemma_nothing_due(s: Seq<Waiter>, i: int, now: u64, budget: int)
    requires
        0 <= i <= s.len(),
        now < FOREVER,
        tally(s, has_deadline()) == 0,
    ensures
        left(s, i, Pick::Due(now), budget) == s,
        taken(s, i, Pick::Due(now), budget) == Seq::<ThreadFiber>::empty(),
    decreases s.len() - i,
{
    if i < s.len() {
        lemma_tally_member(s, i);
        lemma_nothing_due(s, i + 1, now, budget);
    }
}

proof fn lemma_tally_member(s: Seq<Waiter>, i: int)
    requires
        0 <= i < s.len(),
        tally(s, has_deadline()) == 0,
    ensures
        s[i].deadline == FOREVER,
    decreases s.len(),
{
    if i < s.len() - 1 {
        lemma_tally_member(s.drop_last(), i);
    }
}

proof fn lemma_no_timed_parts(s: Seq<WaitShard>, n: int, now: u64)
    requires
        0 <= n <= s.len(),
        now < FOREVER,
        tally_all(s, has_deadline()) == 0,
    ensures
        expired(s, n, now) == Seq::<ThreadFiber>::empty(),
        forall|k: int|
            0 <= k < s.len() ==> left(
                (#[trigger] s[k]).waiters@,
                0,
                Pick::Due(now),
                s[k].waiters@.len() as int,
            ) == s[k].waiters@,
    decreases n,
{
    assert forall|k: int| 0 <= k < s.len() implies left(
        (#[trigger] s[k]).waiters@,
        0,
        Pick::Due(now),
        s[k].waiters@.len() as int,
    ) == s[k].waiters@ by {
        lemma_tally_part(s, k, has_deadline());
        lemma_nothing_due(s[k].waiters@, 0, now, s[k].waiters@.len() as int);
    }
    if n > 0 {
        lemma_no_timed_parts(s, n - 1, now);
        lemma_tally_part(s, n - 1, has_deadline());
        lemma_nothing_due(s[n - 1].waiters@, 0, now, s[n - 1].waiters@.len() as int);
    }
}

impl Scheduler {
    /// Wakes up to `count` fibers that wait for `key`, and tells how many. Where there were
    /// fewer, one credit is left for a fiber that is about to park.
    pub fn wake_key(&mut self, key: usize, count: u32) -> (woken: u32)
        requires
            old(self).wf(),
        ensures
            final(self).wf(),
            wakes(*old(self), *final(self), key, count, woken),
            final(self).timed <= old(self).timed,
            forall|t: ThreadFiber| #[trigger] final(self).held(t) == old(self).held(t),
    {
        let n: usize = key / 8 % WAITQ_SHARDS;
        let ghost shards = self.waitq@;
        let ghost queue = self.runq@;
        assert(shard_wf(shards[n as int], n as int));
        let mut shard = WaitShard { waiters: Vec::new(), credits: Vec::new() };
        std::mem::swap(&mut shard, &mut self.waitq[n]);
        let ghost before = shard;
        let (fibers, timed) = scan(&mut shard.waiters, Pick::Key(key), count as usize);
        proof {
            lemma_scan_from(before.waiters@, 0, Pick::Key(key), count as int);
            lemma_tally_part(shards, n as int, has_deadline());
        }
        let woken: u32 = fibers.len() as u32;
        self.timed = self.timed - timed;
        let mut pos: usize = 0;
        while pos < shard.credits.len() && shard.credits[pos] != key
            invariant
                pos <= shard.credits@.len(),
                shard.credits@ == before.credits@,
                forall|k: int| 0 <= k < pos ==> #[trigger] shard.credits@[k] != key,
            decreases shard.credits@.len() - pos,
        {
            pos += 1;
        }
        if woken < count && pos == shard.credits.len() {
            shard.credits.push(key);
            proof {
                assert(!before.credits@.contains(key));
                assert(shard.credits@[before.credits@.len() as int] == key);
                assert forall|k: usize| before.credits@.contains(k) implies shard.credits@.contains(k) by {
                    let j = choose|j: int| 0 <= j < before.credits@.len() && before.credits@[j] == k;
                    assert(shard.credits@[j] == k);
                }
            }
        } else {
            assert(pos < shard.credits@.len() ==> before.credits@[pos as int] == key);
        }
        let ghost after = shard;
        std::mem::swap(&mut shard, &mut self.waitq[n]);
        proof {
            assert(self.waitq@ =~= shards.update(n as int, after));
            lemma_tally_all_update(shards, n as int, after, has_deadline());
            lemma_shard_kept(before, n as int, Pick::Key(key), count as int, after);
            assert forall|m: int| 0 <= m < 16 implies shard_wf(#[trigger] self.waitq@[m], m) by {
                assert(shard_wf(shards[m], m));
            }
        }
        let mut i: usize = 0;
        assert(self.runq@ =~= queue + fibers@.take(0));
        while i < fibers.len()
            invariant
                i <= fibers@.len(),
                self.waitq@ == shards.update(n as int, after),
                self.timed == tally_all(self.waitq@, has_deadline()),
                self.runq@ == queue + fibers@.take(i as int),
            decreases fibers@.len() - i,
        {
            self.runq.push_back(fibers[i]);
            i += 1;
            assert(self.runq@ =~= queue + fibers@.take(i as int));
        }
        proof {
            assert(fibers@.take(i as int) =~= fibers@);
            assert forall|t: ThreadFiber| #[trigger] self.held(t) == old(self).held(t) by {
                lemma_tally_all_update(shards, n as int, after, is_fiber(t));
                scan_conserves(before.waiters@, 0, Pick::Key(key), count as int, t);
                lemma_occurrences_add(queue, fibers@, t);
            }
        }
        woken
    }

    /// Makes every fiber whose deadline has come runnable.
    pub fn expire_timeouts(&mut self, now: u64)
        requires
            old(self).wf(),
            now < FOREVER,
        ensures
            final(self).wf(),
            final(self).runq@ == old(self).runq@ + expired(old(self).waitq@, 16, now),
            forall|n: int|
                0 <= n < 16 ==> (#[trigger] final(self).waitq@[n]).waiters@ == left(
                    old(self).waitq@[n].waiters@,
                    0,
                    Pick::Due(now),
                    old(self).waitq@[n].waiters@.len() as int,
                ) && final(self).waitq@[n].credits@ == old(self).waitq@[n].credits@,
            forall|t: ThreadFiber| #[trigger] final(self).held(t) == old(self).held(t),
    {
        let ghost shards = self.waitq@;
        let ghost queue = self.runq@;
        if self.timed == 0 {
            proof {
                lemma_no_timed_parts(shards, 16, now);
                assert(self.runq@ =~= queue + expired(shards, 16, now));
            }
            return;
        }
        let mut n: usize = 0;
        assert(self.runq@ =~= queue + expired(shards, 0, now));
        while n < WAITQ_SHARDS
            invariant
                n <= 16,
                now < FOREVER,
                shards.len() == 16,
                self.waitq@.len() == 16,
                forall|k: int| 0 <= k < 16 ==> shard_wf(#[trigger] shards[k], k),
                forall|k: int| 0 <= k < 16 ==> shard_wf(#[trigger] self.waitq@[k], k),
                self.timed == tally_all(self.waitq@, has_deadline()),
                self.runq@ == queue + expired(shards, n as int, now),
                forall|k: int| n <= k < 16 ==> #[trigger] self.waitq@[k] == shards[k],
                forall|k: int|
                    0 <= k < n ==> (#[trigger] self.waitq@[k]).waiters@ == left(
                        shards[k].waiters@,
                        0,
                        Pick::Due(now),
                        shards[k].waiters@.len() as int,
                    ) && self.waitq@[k].credits@ == shards[k].credits@,
                forall|t: ThreadFiber|
                    occurrences(self.runq@, t) + tally_all(self.waitq@, #[trigger] is_fiber(t)) == occurrences(queue, t)
                        + tally_all(shards, is_fiber(t)),
            decreases 16 - n,
        {
            let ghost mid = self.waitq@;
            let ghost q = self.runq@;
            assert(mid[n as int] == shards[n as int]);
            assert(shard_wf(shards[n as int], n as int));
            let mut shard = WaitShard { waiters: Vec::new(), credits: Vec::new() };
            std::mem::swap(&mut shard, &mut self.waitq[n]);
            let ghost before = shard;
            let budget: usize = shard.waiters.len();
            let (fibers, timed) = scan(&mut shard.waiters, Pick::Due(now), budget);
            let ghost after = shard;
            std::mem::swap(&mut shard, &mut self.waitq[n]);
            proof {
                lemma_tally_part(mid, n as int, has_deadline());
                assert(self.waitq@ =~= mid.update(n as int, after));
                lemma_tally_all_update(mid, n as int, after, has_deadline());
                lemma_shard_kept(before, n as int, Pick::Due(now), budget as int, after);
            }
            self.timed = self.timed - timed;
            let mut i: usize = 0;
            assert(self.runq@ =~= q + fibers@.take(0));
            while i < fibers.len()
                invariant
                    i <= fibers@.len(),
                    self.waitq@ == mid.update(n as int, after),
                    self.timed == tally_all(self.waitq@, has_deadline()),
                    self.runq@ == q + fibers@.take(i as int),
                decreases fibers@.len() - i,
            {
                self.runq.push_back(fibers[i]);
                i += 1;
                assert(self.runq@ =~= q + fibers@.take(i as int));
            }
            n += 1;
            proof {
                assert(fibers@.take(i as int) =~= fibers@);
                assert(self.runq@ =~= queue + expired(shards, n as int, now));
                assert forall|t: ThreadFiber|
                    occurrences(self.runq@, t) + tally_all(self.waitq@, #[trigger] is_fiber(t)) == occurrences(queue, t)
                        + tally_all(shards, is_fiber(t)) by {
                    lemma_tally_all_update(mid, n - 1, after, is_fiber(t));
                    scan_conserves(before.waiters@, 0, Pick::Due(now), budget as int, t);
                    lemma_occurrences_add(q, fibers@, t);
                }
            }
        }
    }
}

proof fn lemma_credit_removed(s: Seq<usize>, i: int)
    requires
        s.no_duplicates(),
        0 <= i < s.len(),
    ensures
        s.update(i, s.last()).drop_last().no_duplicates(),
        !s.update(i, s.last()).drop_last().contains(s[i]),
        forall|k: usize| k != s[i] ==> (s.update(i, s.last()).drop_last().contains(k) <==> s.contains(k)),
{
    let u = s.update(i, s.last()).drop_last();
    assert forall|k: usize| k != s[i] && s.contains(k) implies u.contains(k) by {
        let j = choose|j: int| 0 <= j < s.len() && s[j] == k;
        if j == s.len() - 1 {
            assert(u[i] == k);
        } else {
            assert(u[j] == k);
        }
    }
    assert forall|k: usize| k != s[i] && u.contains(k) implies s.contains(k) by {
        let j = choose|j: int| 0 <= j < u.len() && u[j] == k;
        if j == i {
            assert(s[s.len() - 1] == k);
        } else {
            assert(s[j] == k);
        }
    }
    if u.contains(s[i]) {
        let j = choose|j: int| 0 <= j < u.len() && u[j] == s[i];
        if j == i {
            assert(s[s.len() - 1] == s[i]);
        } else {
            assert(s[j] == s[i]);
        }
    }
}

/// Ticks that the boot check of parking may take.
pub const CHECK_TICKS: u64 = 300;

/// The core that is told where the fiber of the boot check has not run.
pub const NO_CORE: u32 = u32::MAX;

/// How far the boot check of parking is.
#[derive(Clone, Copy, PartialEq, Eq, Structural, Debug)]
pub struct FiberCheck {
    /// The key that the fiber parks on.
    pub key: usize,
    /// Whether there was a stack and a fiber for the check.
    pub made: bool,
    /// 0 before the fiber ran, 1 after its first stretch, 2 once it has ended.
    pub stage: u32,
    /// The core of the first stretch.
    pub first_core: u32,
    /// The core that the fiber was resumed on.
    pub resume_core: u32,
    /// Whether the key was woken.
    pub woken: bool,
    /// The last tick at which the check may still wait.
    pub deadline: u64,
}

impl FiberCheck {
    /// Begins a check with the fiber that was made for it.
    pub fn begin(s: &mut Scheduler, fiber: Option<ThreadFiber>, key: usize, now: u64) -> (r: Self)
        requires
            old(s).wf(),
            now + CHECK_TICKS <= u64::MAX,
        ensures
            final(s).wf(),
            final(s).waitq == old(s).waitq,
            final(s).timed == old(s).timed,
            final(s).runq@ == match fiber {
                Some(f) => old(s).runq@.push(f),
                None => old(s).runq@,
            },
            r == (FiberCheck {
                key,
                made: fiber is Some,
                stage: 0,
                first_core: NO_CORE,
                resume_core: NO_CORE,
                woken: false,
                deadline: (now + CHECK_TICKS) as u64,
            }),
    {
        let made: bool = fiber.is_some();
        if let Some(f) = fiber {
            s.enqueue_runnable(f);
        }
        FiberCheck {
            key,
            made,
            stage: 0,
            first_core: NO_CORE,
            resume_core: NO_CORE,
            woken: false,
            deadline: now + CHECK_TICKS,
        }
    }

    /// What the fiber does on a core until it stops: its first stretch ends with a park
    /// without timeout, its second with the fiber itself. Returns the park.
    pub fn runs(&mut self, core: u32) -> (park: Option<(usize, u64)>)
        ensures
            old(self).stage == 0 ==> {
                &&& *final(self) == (FiberCheck { stage: 1, first_core: core, ..*old(self) })
                &&& park == Some((old(self).key, FOREVER))
            },
            old(self).stage != 0 ==> {
                &&& *final(self) == (FiberCheck { stage: 2, resume_core: core, ..*old(self) })
                &&& park is None
            },
    {
        if self.stage == 0 {
            self.first_core = core;
            self.stage = 1;
            Some((self.key, FOREVER))
        } else {
            self.resume_core = core;
            self.stage = 2;
            None
        }
    }

    /// Whether the key is to be woken now: once, after the first stretch.
    pub open spec fn wakes_now(self) -> bool {
        self.made && self.stage >= 1 && !self.woken
    }

    /// What the check has come to: it fails without a fiber, holds once the fiber has ended,
    /// and fails where that takes too long. The cores of both stretches are told with it.
    pub open spec fn outcome(self, now: u64) -> Option<(bool, u32, u32)> {
        if !self.made {
            Some((false, self.first_core, self.resume_core))
        } else if self.stage >= 2 {
            Some((true, self.first_core, self.resume_core))
        } else if now > self.deadline {
            Some((false, self.first_core, self.resume_core))
        } else {
            None
        }
    }
}

/// Boot check of parking, looked at from time to time until it has come to something: a fiber
/// runs, parks and is woken by this function, on its way to the wait queue or in it, and runs
/// again.
pub fn fiber_self_test(s: &mut Scheduler, check: &mut FiberCheck, now: u64) -> (r: Option<(bool, u32, u32)>)
    requires
        old(s).wf(),
    ensures
        final(s).wf(),
        r == old(check).outcome(now),
        *final(check) == (FiberCheck { woken: old(check).woken || old(check).wakes_now(), ..*old(check) }),
        if old(check).wakes_now() {
            wakes(
                *old(s),
                *final(s),
                old(check).key,
                1,
                taken(old(s).part(old(check).key), 0, Pick::Key(old(check).key), 1).len() as u32,
            )
        } else {
            *final(s) == *old(s)
        },
{
    if check.made && check.stage >= 1 && !check.woken {
        let _ = s.wake_key(check.key, 1);
        check.woken = true;
    }
    if !check.made {
        Some((false, check.first_core, check.resume_core))
    } else if check.stage >= 2 {
        Some((true, check.first_core, check.resume_core))
    } else if now > check.deadline {
        Some((false, check.first_core, check.resume_core))
    } else {
        None
    }
}

/// No fiber waits for a key.
pub open spec fn nobody_waits(s: Seq<Waiter>, key: usize) -> bool {
    forall|i: int| 0 <= i < s.len() ==> (#[trigger] s[i]).key != key
}

proof fn lemma_none_taken(s: Seq<Waiter>, i: int, key: usize, budget: int)
    requires
        0 <= i <= s.len(),
        nobody_waits(s, key),
    ensures
        taken(s, i, Pick::Key(key), budget) == Seq::<ThreadFiber>::empty(),
    decreases s.len() - i,
{
    if i < s.len() {
        lemma_none_taken(s, i + 1, key, budget);
    }
}

proof fn lemma_last_taken(s: Seq<Waiter>, i: int, key: usize, w: Waiter)
    requires
        0 <= i <= s.len(),
        nobody_waits(s, key),
        w.key == key,
    ensures
        taken(s.push(w), i, Pick::Key(key), 1) == seq![w.fiber],
    decreases s.len() - i,
{
    let t = s.push(w);
    if i < s.len() {
        lemma_last_taken(s, i + 1, key, w);
        assert(t[i] == s[i]);
    } else {
        assert(t[i] == w);
        assert(swap_removed(t, i) =~= s);
        assert(taken(s, i, Pick::Key(key), 0) == Seq::<ThreadFiber>::empty());
        assert(taken(t, i, Pick::Key(key), 1) =~= seq![w.fiber]);
    }
}

/// A fiber that parks on a key for which nobody waits, and one wake-up for that key, leave the
/// fiber runnable and the key without a credit, in whichever order they come.
pub proof fn woken_fiber_runs_again(
    before: Scheduler,
    between: Scheduler,
    after: Scheduler,
    key: usize,
    woken: u32,
    f: ThreadFiber,
    deadline: u64,
)
    requires
        nobody_waits(before.part(key), key),
        !before.credit(key),
        parks(before, between, f, key, deadline) && wakes(between, after, key, 1, woken)
            || wakes(before, between, key, 1, woken) && parks(between, after, f, key, deadline),
    ensures
        after.runq@ == before.runq@.push(f),
        !after.credit(key),
{
    lemma_none_taken(before.part(key), 0, key, 1);
    lemma_last_taken(before.part(key), 0, key, Waiter { key, deadline, fiber: f });
    assert(before.runq@ + Seq::<ThreadFiber>::empty() =~= before.runq@);
    assert(before.runq@ + seq![f] =~= before.runq@.push(f));
}

} // verus!
