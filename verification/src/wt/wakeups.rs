//! Laws of waiting: who is woken, who goes on waiting, how long a wait lasts, and what memory
//! is committed for.

use vstd::prelude::*;
use crate::wt::demand::{committable, page_flags, prot_at, WtRange};
use crate::wt::group::{gate_outcome, next_thread, parallelism, wait_deadline, ThreadGroup};
use crate::wt::platform::{pages_for, readers, takes, writing};
use crate::wt::threads::{
    as_filter, expired, lemma_tally_swap_removed, left, parks, picks, scan_takes_what_it_may, shard_of,
    swap_removed, taken, tally, wakes, Pick, Scheduler, ThreadFiber, WaitShard, Waiter,
};

verus! {

/// Picks one waiter.
pub open spec fn is_waiter(w: Waiter) -> spec_fn(Waiter) -> bool {
    |x: Waiter| x == w
}

/// How often a waiter is in a part of the wait queue.
pub open spec fn copies(s: Seq<Waiter>, w: Waiter) -> nat {
    tally(s, is_waiter(w))
}

proof fn lemma_taken_wait(s: Seq<Waiter>, i: int, p: Pick, budget: int)
    requires
        0 <= i <= s.len(),
    ensures
        forall|k: int|
            #![trigger taken(s, i, p, budget)[k]]
            0 <= k < taken(s, i, p, budget).len() ==> exists|j: int|
                #![trigger s[j]]
                0 <= j < s.len() && picks(p, s[j]) && s[j].fiber == taken(s, i, p, budget)[k],
    decreases s.len() - i,
{
    if i >= s.len() || budget <= 0 {
        assert(taken(s, i, p, budget).len() == 0);
    } else if picks(p, s[i]) {
        let r = swap_removed(s, i);
        assert(taken(s, i, p, budget) == seq![s[i].fiber] + taken(r, i, p, budget - 1));
        lemma_taken_wait(r, i, p, budget - 1);
        let t = taken(r, i, p, budget - 1);
        assert forall|k: int| #![trigger taken(s, i, p, budget)[k]] 0 <= k < taken(s, i, p, budget).len() implies exists|j: int|
            #![trigger s[j]]
            0 <= j < s.len() && picks(p, s[j]) && s[j].fiber == taken(s, i, p, budget)[k] by {
            if k == 0 {
                assert(picks(p, s[i]) && s[i].fiber == taken(s, i, p, budget)[k]);
            } else {
                assert(taken(s, i, p, budget)[k] == t[k - 1]);
                let j = choose|j: int|
                    #![trigger r[j]]
                    0 <= j < r.len() && picks(p, r[j]) && r[j].fiber == t[k - 1];
                let o = if j == i { s.len() - 1 } else { j };
                assert(s[o] == r[j]);
            }
        }
    } else {
        lemma_taken_wait(s, i + 1, p, budget);
        assert(taken(s, i, p, budget) == taken(s, i + 1, p, budget));
    }
}

proof fn lemma_others_stay(s: Seq<Waiter>, i: int, p: Pick, budget: int, w: Waiter)
    requires
        0 <= i <= s.len(),
        !picks(p, w),
    ensures
        copies(left(s, i, p, budget), w) == copies(s, w),
    decreases s.len() - i,
{
    if i >= s.len() || budget <= 0 {
    } else if picks(p, s[i]) {
        lemma_others_stay(swap_removed(s, i), i, p, budget - 1, w);
        lemma_tally_swap_removed(s, i, is_waiter(w));
    } else {
        lemma_others_stay(s, i + 1, p, budget, w);
    }
}

proof fn lemma_first_taken(s: Seq<Waiter>, i: int, p: Pick, budget: int, j: int)
    requires
        0 <= i <= j < s.len(),
        budget > 0,
        picks(p, s[j]),
        forall|k: int| i <= k < j ==> !picks(p, #[trigger] s[k]),
    ensures
        taken(s, i, p, budget).len() > 0,
        taken(s, i, p, budget)[0] == s[j].fiber,
    decreases j - i,
{
    if i < j {
        assert(!picks(p, s[i]));
        lemma_first_taken(s, i + 1, p, budget, j);
    }
}

proof fn lemma_tally_pointwise(s: Seq<Waiter>, f: spec_fn(Waiter) -> bool, g: spec_fn(Waiter) -> bool)
    requires
        forall|k: int| 0 <= k < s.len() ==> f(#[trigger] s[k]) == g(s[k]),
    ensures
        tally(s, f) == tally(s, g),
    decreases s.len(),
{
    if s.len() > 0 {
        lemma_tally_pointwise(s.drop_last(), f, g);
    }
}

/// A wake-up makes fibers runnable that wait for its key, and no other: as many as there are, up
/// to the count. They come behind those that are runnable already. A waiter for another key goes
/// on waiting, and so does everybody in the other parts of the queue.
pub proof fn wake_reaches_its_key_alone(
    before: Scheduler,
    after: Scheduler,
    key: usize,
    count: u32,
    woken: u32,
    w: Waiter,
    n: int,
)
    requires
        wakes(before, after, key, count, woken),
        w.key != key,
        0 <= n < 16,
        n != (key / 8) as int % 16,
    ensures
        after.runq@.len() == before.runq@.len() + woken,
        after.runq@.subrange(0, before.runq@.len() as int) == before.runq@,
        forall|k: int|
            #![trigger after.runq@[k]]
            before.runq@.len() <= k < after.runq@.len() ==> exists|j: int|
                #![trigger before.part(key)[j]]
                0 <= j < before.part(key).len() && before.part(key)[j].key == key && before.part(key)[j].fiber
                    == after.runq@[k],
        woken <= count,
        woken <= tally(before.part(key), |x: Waiter| x.key == key),
        woken == count || woken == tally(before.part(key), |x: Waiter| x.key == key),
        woken < count ==> forall|j: int|
            0 <= j < after.part(key).len() ==> (#[trigger] after.part(key)[j]).key != key,
        copies(after.part(key), w) == copies(before.part(key), w),
        after.waitq@[n] == before.waitq@[n],
{
    let s = before.part(key);
    let p = Pick::Key(key);
    scan_takes_what_it_may(s, p, count as int);
    lemma_tally_pointwise(s, as_filter(p), |x: Waiter| x.key == key);
    lemma_taken_wait(s, 0, p, count as int);
    lemma_others_stay(s, 0, p, count as int, w);
    let t = taken(s, 0, p, count as int);
    assert(after.runq@.subrange(0, before.runq@.len() as int) =~= before.runq@);
    assert forall|k: int| #![trigger after.runq@[k]] before.runq@.len() <= k < after.runq@.len() implies exists|j: int|
        #![trigger before.part(key)[j]]
        0 <= j < before.part(key).len() && before.part(key)[j].key == key && before.part(key)[j].fiber
            == after.runq@[k] by {
        assert(after.runq@[k] == t[k - before.runq@.len()]);
    }
    if woken < count {
        assert forall|j: int| 0 <= j < after.part(key).len() implies (#[trigger] after.part(key)[j]).key != key by {
            assert(!picks(p, left(s, 0, p, count as int)[j]));
        }
    }
}

/// The first one in the queue that waits for a key is the first one to be woken.
pub proof fn first_waiter_is_woken_first(before: Scheduler, after: Scheduler, key: usize, count: u32, woken: u32, j: int)
    requires
        wakes(before, after, key, count, woken),
        count > 0,
        0 <= j < before.part(key).len(),
        before.part(key)[j].key == key,
        forall|k: int| 0 <= k < j ==> (#[trigger] before.part(key)[k]).key != key,
    ensures
        woken >= 1,
        after.runq@[before.runq@.len() as int] == before.part(key)[j].fiber,
{
    lemma_first_taken(before.part(key), 0, Pick::Key(key), count as int, j);
}

/// A fiber that parks with no credit around waits for the key that it named, until the deadline
/// that it named; one that finds a credit is runnable, behind all others, and the credit is gone.
pub proof fn parking_waits_or_spends_the_credit(
    before: Scheduler,
    after: Scheduler,
    f: ThreadFiber,
    key: usize,
    deadline: u64,
    k: usize,
)
    requires
        parks(before, after, f, key, deadline),
        k != key,
    ensures
        !before.credit(key) ==> {
            &&& after.runq@ == before.runq@
            &&& after.part(key).len() == before.part(key).len() + 1
            &&& after.part(key).last().key == key
            &&& after.part(key).last().deadline == deadline
            &&& after.part(key).last().fiber == f
        },
        before.credit(key) ==> {
            &&& after.runq@.len() == before.runq@.len() + 1
            &&& after.runq@.last() == f
            &&& after.part(key) == before.part(key)
        },
        !after.credit(key),
        after.credit(k) == before.credit(k),
{
}

/// When a deadline comes, exactly the fibers whose deadline it is, or was before, stop waiting.
pub proof fn deadlines_end_waits(s: Seq<Waiter>, now: u64, w: Waiter, j: int)
    requires
        0 <= j < s.len(),
    ensures
        ({
            let n = s.len() as int;
            let kept = left(s, 0, Pick::Due(now), n);
            let gone = taken(s, 0, Pick::Due(now), n);
            &&& gone.len() == tally(s, |x: Waiter| x.deadline <= now)
            &&& forall|k: int| 0 <= k < kept.len() ==> (#[trigger] kept[k]).deadline > now
            &&& w.deadline > now ==> copies(kept, w) == copies(s, w)
            &&& forall|k: int|
                #![trigger gone[k]]
                0 <= k < gone.len() ==> exists|i: int|
                    #![trigger s[i]]
                    0 <= i < s.len() && s[i].deadline <= now && s[i].fiber == gone[k]
        }),
{
    let n = s.len() as int;
    let p = Pick::Due(now);
    scan_takes_what_it_may(s, p, n);
    lemma_tally_pointwise(s, as_filter(p), |x: Waiter| x.deadline <= now);
    lemma_tally_bound(s, as_filter(p));
    lemma_taken_wait(s, 0, p, n);
    if w.deadline > now {
        lemma_others_stay(s, 0, p, n, w);
    }
    let kept = left(s, 0, p, n);
    lemma_all_due_taken(s, 0, p, n);
    assert forall|k: int| 0 <= k < kept.len() implies (#[trigger] kept[k]).deadline > now by {
        assert(!picks(p, kept[k]));
    }
    assert forall|k: int| #![trigger taken(s, 0, p, n)[k]] 0 <= k < taken(s, 0, p, n).len() implies exists|i: int|
        #![trigger s[i]]
        0 <= i < s.len() && s[i].deadline <= now && s[i].fiber == taken(s, 0, p, n)[k] by {
        let i = choose|i: int|
            #![trigger s[i]]
            0 <= i < s.len() && picks(p, s[i]) && s[i].fiber == taken(s, 0, p, n)[k];
        assert(s[i].deadline <= now);
    }
}

proof fn lemma_all_due_taken(s: Seq<Waiter>, i: int, p: Pick, budget: int)
    requires
        0 <= i <= s.len(),
        budget >= s.len() - i,
        forall|k: int| 0 <= k < i ==> !picks(p, #[trigger] s[k]),
    ensures
        forall|k: int| 0 <= k < left(s, i, p, budget).len() ==> !picks(p, #[trigger] left(s, i, p, budget)[k]),
    decreases s.len() - i,
{
    if i >= s.len() {
        assert(left(s, i, p, budget) == s);
    } else if picks(p, s[i]) {
        let r = swap_removed(s, i);
        assert(left(s, i, p, budget) == left(r, i, p, budget - 1));
        assert forall|k: int| 0 <= k < i implies !picks(p, #[trigger] r[k]) by {
            assert(r[k] == s[k]);
        }
        lemma_all_due_taken(r, i, p, budget - 1);
    } else {
        assert(left(s, i, p, budget) == left(s, i + 1, p, budget));
        lemma_all_due_taken(s, i + 1, p, budget);
    }
}

proof fn lemma_tally_bound(s: Seq<Waiter>, f: spec_fn(Waiter) -> bool)
    ensures
        tally(s, f) <= s.len(),
    decreases s.len(),
{
    if s.len() > 0 {
        lemma_tally_bound(s.drop_last(), f);
    }
}

/// The fibers whose deadline has come are taken part by part, from the first on.
pub proof fn deadlines_are_taken_part_by_part(s: Seq<WaitShard>, n: int, now: u64)
    requires
        0 < n <= s.len(),
    ensures
        expired(s, 0, now) == Seq::<ThreadFiber>::empty(),
        expired(s, n, now) == expired(s, n - 1, now) + taken(
            s[n - 1].waiters@,
            0,
            Pick::Due(now),
            s[n - 1].waiters@.len() as int,
        ),
{
}

/// A key belongs to one of sixteen parts, and keys of the same word to the same one.
pub proof fn keys_are_spread(key: usize)
    ensures
        0 <= shard_of(key) < 16,
        shard_of(key) == shard_of((key / 8 * 8) as usize),
        key <= usize::MAX - 8 ==> shard_of((key + 8) as usize) != shard_of(key),
{
}

/// A wait with a timeout lasts no shorter than that, in ticks of ten milliseconds, no more than a
/// tick longer, and at least one tick; one without never ends.
pub proof fn timeouts_are_kept(now: u64, timeout_ns: i64)
    ensures
        timeout_ns < 0 ==> wait_deadline(now, timeout_ns) == u64::MAX,
        timeout_ns >= 0 ==> (wait_deadline(now, timeout_ns) - now) * 10_000_000 >= timeout_ns,
        timeout_ns > 0 ==> (wait_deadline(now, timeout_ns) - now) * 10_000_000 < timeout_ns + 10_000_000,
        timeout_ns >= 0 ==> wait_deadline(now, timeout_ns) >= now + 1,
        timeout_ns == 0 ==> wait_deadline(now, timeout_ns) == now + 1,
{
}

/// A group that lives and has numbers left gives the next one; any other gives none.
pub proof fn threads_are_numbered(g: ThreadGroup)
    ensures
        next_thread(g) == Some(g.next_tid) <==> !g.poisoned && g.next_tid < 0x2000_0000,
        next_thread(g) is None <==> g.poisoned || g.next_tid >= 0x2000_0000,
{
}

/// A program uses one thread for each core but the first, and always one.
pub proof fn threads_for_cores(cpus: int)
    ensures
        cpus <= 2 ==> parallelism(cpus) == 1,
        cpus >= 2 ==> parallelism(cpus) == cpus - 1,
{
}

/// A check that is waited for holds exactly where all threads ended in time with the wanted code.
pub proof fn check_ends_in_time(live: u32, now: u64, deadline: u64, code: Option<i32>, want: i32)
    ensures
        gate_outcome(live, now, deadline, code, want) == Some(true) <==> live == 0 && code == Some(want),
        gate_outcome(live, now, deadline, code, want) is None <==> live > 0 && now <= deadline,
{
}

/// A size takes just as many pages of 4096 bytes as hold it.
pub proof fn pages_hold_the_size(size: int)
    requires
        0 <= size,
    ensures
        pages_for(size) * 4096 >= size,
        (pages_for(size) - 1) * 4096 < size || size == 0 && pages_for(size) == 0,
{
}

/// A mapping begins where the ones before it end, and takes whole pages: no fewer bytes than were
/// asked for, and less than a page more.
pub proof fn mappings_take_whole_pages(before: u64, after: u64, base: u64, size: int)
    requires
        0 <= size,
        takes(before, after, base, size),
    ensures
        base == before,
        (after - before) % 4096 == 0,
        size <= after - before < size + 4096,
{
    pages_hold_the_size(size);
    assert((pages_for(size) * 4096) % 4096 == 0);
}

/// A lock word counts readers, and its last value stands for a writer.
pub proof fn lock_words_count(word: usize)
    ensures
        writing(word) <==> word == usize::MAX,
        word < usize::MAX ==> readers(word) == word,
        writing(word) ==> readers(word) == 0,
{
}

/// A page that is mapped is present; it can be written exactly where that is allowed, and run
/// exactly where that is.
pub proof fn flags_say_what_is_allowed(writable: bool, executable: bool)
    ensures
        0 <= page_flags(writable, executable) <= u64::MAX,
        page_flags(writable, executable) % 2 == 1,
        (page_flags(writable, executable) / 2) % 2 == 1 <==> writable,
        page_flags(writable, executable) >= 0x8000_0000_0000_0000 <==> !executable,
        page_flags(writable, executable) % 0x8000_0000_0000_0000 < 4,
{
}

/// Memory is committed exactly where it may be read, written or run.
pub proof fn commitment_needs_a_right(prot: u32)
    ensures
        committable(prot) <==> prot & 1 != 0 || prot & 2 != 0 || prot & 4 != 0,
{
    assert(prot & 7 != 0 <==> prot & 1 != 0 || prot & 2 != 0 || prot & 4 != 0) by (bit_vector);
}

/// An address that lies in no range has no protection.
pub proof fn unreserved_has_no_protection(s: Seq<WtRange>, a: int)
    requires
        forall|i: int| 0 <= i < s.len() ==> !((#[trigger] s[i]).base <= a < s[i].end),
    ensures
        prot_at(s, a) is None,
    decreases s.len(),
{
    if s.len() > 0 {
        let d = s.drop_last();
        assert forall|i: int| 0 <= i < d.len() implies !((#[trigger] d[i]).base <= a < d[i].end) by {
            assert(d[i] == s[i]);
        }
        unreserved_has_no_protection(d, a);
        assert(s.last() == s[s.len() - 1]);
    }
}

} // verus!
