//! Demand paging of the module memory window: which addresses are reserved, with which
//! protection, and what a page fault commits.
//!
//! A reservation records a range and commits no memory. A fault in a range that can be
//! read, written or executed commits one page; a fault anywhere else is a real fault.

use vstd::prelude::*;
use x86_64::structures::paging::PageTableFlags;

verus! {

/// Bytes of a page.
pub const PAGE: u64 = 0x1000;

/// Protection bit: readable.
pub const PROT_READ: u32 = 1;

/// Protection bit: writable.
pub const PROT_WRITE: u32 = 2;

/// Protection bit: executable.
pub const PROT_EXEC: u32 = 4;

/// Base of the window. Reservations grow upward from here.
pub const WT_VM_BASE: u64 = 0xFFFF_D000_0000_0000;

/// A range of addresses with one protection.
#[derive(Clone, Copy, PartialEq, Eq, Structural, Debug)]
pub struct WtRange {
    pub base: u64,
    pub end: u64,
    pub prot: u32,
}

/// The reserved part of the window and the protection of its ranges.
pub struct Registry {
    /// Where the next reservation starts.
    pub next: u64,
    /// The ranges. No address lies in two of them.
    pub ranges: Vec<WtRange>,
}

/// The protection of an address, by the first range that has it.
pub open spec fn prot_at(s: Seq<WtRange>, addr: int) -> Option<u32>
    decreases s.len(),
{
    if s.len() == 0 {
        None
    } else if prot_at(s.drop_last(), addr) is Some {
        prot_at(s.drop_last(), addr)
    } else if s.last().base <= addr < s.last().end {
        Some(s.last().prot)
    } else {
        None
    }
}

/// Every range has an address, and no address lies in two ranges.
pub open spec fn partition(s: Seq<WtRange>) -> bool {
    &&& forall|i: int| 0 <= i < s.len() ==> (#[trigger] s[i]).base < s[i].end
    &&& forall|i: int, j: int| 0 <= i < j < s.len() ==> apart(#[trigger] s[i], #[trigger] s[j])
}

/// Two ranges share no address.
pub open spec fn apart(a: WtRange, b: WtRange) -> bool {
    a.end <= b.base || b.end <= a.base
}

/// A range inside one of the first `n` ranges of `s`.
spec fn sliver(s: Seq<WtRange>, n: int, p: WtRange) -> bool {
    exists|i: int| 0 <= i < n && (#[trigger] s[i]).base <= p.base && p.end <= s[i].end
}

proof fn lemma_prot_push(s: Seq<WtRange>, r: WtRange)
    ensures
        forall|a: int|
            #[trigger] prot_at(s.push(r), a) == if prot_at(s, a) is Some {
                prot_at(s, a)
            } else if r.base <= a < r.end {
                Some(r.prot)
            } else {
                None
            },
{
    assert(s.push(r).drop_last() =~= s);
}

/// An address in a range of a partition has the range's protection.
pub proof fn range_decides(s: Seq<WtRange>, i: int, a: int)
    requires
        partition(s),
        0 <= i < s.len(),
        s[i].base <= a < s[i].end,
    ensures
        prot_at(s, a) == Some(s[i].prot),
    decreases s.len(),
{
    let t = s.drop_last();
    assert(forall|k: int| 0 <= k < t.len() ==> t[k] == s[k]);
    assert(partition(t));
    if i < t.len() {
        range_decides(t, i, a);
    } else {
        lemma_outside_all(t, a);
    }
}

proof fn lemma_outside_all(s: Seq<WtRange>, a: int)
    requires
        forall|k: int| 0 <= k < s.len() ==> !((#[trigger] s[k]).base <= a < s[k].end),
    ensures
        prot_at(s, a) is None,
    decreases s.len(),
{
    if s.len() > 0 {
        let t = s.drop_last();
        assert(forall|k: int| 0 <= k < t.len() ==> t[k] == s[k]);
        lemma_outside_all(t, a);
    }
}

proof fn lemma_some_range(s: Seq<WtRange>, a: int)
    requires
        prot_at(s, a) is Some,
    ensures
        exists|k: int| 0 <= k < s.len() && (#[trigger] s[k]).base <= a < s[k].end,
    decreases s.len(),
{
    let t = s.drop_last();
    if prot_at(t, a) is Some {
        lemma_some_range(t, a);
        let k = choose|k: int| 0 <= k < t.len() && (#[trigger] t[k]).base <= a < t[k].end;
        assert(s[k] == t[k]);
    } else {
        assert(s[s.len() - 1] == s.last());
    }
}

impl Registry {
    /// The ranges form a partition.
    pub open spec fn wf(self) -> bool {
        partition(self.ranges@) && WT_VM_BASE <= self.next
    }

    /// The protection of an address; none where it is not registered.
    pub open spec fn prot(self, addr: int) -> Option<u32> {
        prot_at(self.ranges@, addr)
    }

    /// An empty registry.
    pub fn new() -> (r: Self)
        ensures
            r.wf(),
            r.next == WT_VM_BASE,
            forall|a: int| r.prot(a) is None,
    {
        Registry { next: WT_VM_BASE, ranges: Vec::new() }
    }
}

/// Whether an address lies in the reserved part of the window.
pub fn in_window(reg: &Registry, addr: u64) -> (r: bool)
    ensures
        r == (WT_VM_BASE <= addr < reg.next),
{
    addr >= WT_VM_BASE && addr < reg.next
}

/// The ranges with `[base, end)` cut out of them.
fn carve(ranges: &Vec<WtRange>, base: u64, end: u64) -> (out: Vec<WtRange>)
    requires
        partition(ranges@),
        base < end,
    ensures
        partition(out@),
        forall|i: int| 0 <= i < out@.len() ==> (#[trigger] out@[i]).end <= base || end <= out@[i].base,
        forall|a: int|
            #[trigger] prot_at(out@, a) == if base <= a < end {
                None
            } else {
                prot_at(ranges@, a)
            },
{
    let mut out: Vec<WtRange> = Vec::with_capacity(ranges.len());
    let mut i: usize = 0;
    while i < ranges.len()
        invariant
            i <= ranges@.len(),
            base < end,
            partition(ranges@),
            partition(out@),
            forall|k: int| 0 <= k < out@.len() ==> (#[trigger] out@[k]).end <= base || end <= out@[k].base,
            forall|k: int| 0 <= k < out@.len() ==> sliver(ranges@, i as int, #[trigger] out@[k]),
            forall|a: int|
                #[trigger] prot_at(out@, a) == if base <= a < end {
                    None
                } else {
                    prot_at(ranges@.take(i as int), a)
                },
        decreases ranges@.len() - i,
    {
        let r = ranges[i];
        let ghost before = out@;
        proof {
            assert(ranges@.take(i + 1).drop_last() =~= ranges@.take(i as int));
            assert(ranges@.take(i + 1).last() == r);
            // Whatever was kept so far lies in an earlier range, so it is apart from `r`.
            assert forall|k: int| 0 <= k < before.len() implies apart(#[trigger] before[k], r) by {
                let j = choose|j: int|
                    0 <= j < i && (#[trigger] ranges@[j]).base <= before[k].base && before[k].end <= ranges@[j].end;
                assert(apart(ranges@[j], ranges@[i as int]));
                assert(before[k].base < before[k].end);
            }
            assert forall|a: int| r.base <= a < r.end implies #[trigger] prot_at(before, a) is None by {
                if prot_at(before, a) is Some {
                    lemma_some_range(before, a);
                    let k = choose|k: int| 0 <= k < before.len() && (#[trigger] before[k]).base <= a < before[k].end;
                    assert(apart(before[k], r));
                }
            }
            assert forall|a: int| r.base <= a < r.end implies prot_at(ranges@.take(i as int), a) is None by {
                if prot_at(ranges@.take(i as int), a) is Some {
                    lemma_some_range(ranges@.take(i as int), a);
                    let k = choose|k: int|
                        0 <= k < i && (#[trigger] ranges@.take(i as int)[k]).base <= a < ranges@.take(i as int)[k].end;
                    assert(apart(ranges@[k], ranges@[i as int]));
                }
            }
        }
        if r.end <= base || r.base >= end {
            proof {
                lemma_prot_push(out@, r);
            }
            out.push(r);
        } else {
            if r.base < base {
                let left = WtRange { base: r.base, end: base, prot: r.prot };
                proof {
                    lemma_prot_push(out@, left);
                }
                out.push(left);
            }
            if r.end > end {
                let right = WtRange { base: end, end: r.end, prot: r.prot };
                proof {
                    lemma_prot_push(out@, right);
                }
                out.push(right);
            }
        }
        i += 1;
        proof {
            assert forall|k: int| 0 <= k < out@.len() implies sliver(ranges@, i as int, #[trigger] out@[k]) by {
                if k < before.len() {
                    assert(out@[k] == before[k]);
                    assert(sliver(ranges@, i - 1, before[k]));
                } else {
                    assert(ranges@[i - 1] == r);
                }
            }
            assert forall|a: int| #[trigger] prot_at(out@, a) == if base <= a < end {
                None
            } else {
                prot_at(ranges@.take(i as int), a)
            } by {
                assert(prot_at(before, a) == if base <= a < end {
                    None
                } else {
                    prot_at(ranges@.take(i - 1), a)
                });
            }
        }
    }
    assert(ranges@.take(i as int) =~= ranges@);
    out
}

/// `after` answers every address as `before` does, but those of `[base, end)` with `p`.
pub open spec fn reprotected(before: Registry, after: Registry, base: u64, end: u64, p: Option<u32>) -> bool {
    forall|a: int|
        #[trigger] after.prot(a) == if base <= a < end {
            p
        } else {
            before.prot(a)
        }
}

/// Sets the protection of `[base, end)` and of nothing else.
pub fn set_prot(reg: &mut Registry, base: u64, end: u64, prot: u32)
    requires
        old(reg).wf(),
    ensures
        final(reg).wf(),
        final(reg).next == old(reg).next,
        reprotected(*old(reg), *final(reg), base, end, Some(prot)),
{
    if end <= base {
        return;
    }
    let mut out = carve(&reg.ranges, base, end);
    let r = WtRange { base, end, prot };
    proof {
        lemma_prot_push(out@, r);
    }
    out.push(r);
    reg.ranges = out;
}

/// Takes `[base, end)` out of the registry, and nothing else.
pub fn remove(reg: &mut Registry, base: u64, end: u64)
    requires
        old(reg).wf(),
    ensures
        final(reg).wf(),
        final(reg).next == old(reg).next,
        reprotected(*old(reg), *final(reg), base, end, None),
{
    if end <= base {
        return;
    }
    reg.ranges = carve(&reg.ranges, base, end);
}

/// Reserves `pages` fresh pages and returns their base. No memory is committed; without
/// pages nothing is recorded.
pub fn reserve(reg: &mut Registry, pages: u64, prot: u32) -> (base: u64)
    requires
        old(reg).wf(),
        old(reg).next + pages * PAGE <= u64::MAX,
    ensures
        final(reg).wf(),
        base == old(reg).next,
        final(reg).next == old(reg).next + pages * PAGE,
        reprotected(*old(reg), *final(reg), base, (base + pages * PAGE) as u64, Some(prot)),
{
    let bytes: u64 = pages * PAGE;
    let base: u64 = reg.next;
    reg.next = base + bytes;
    if bytes != 0 {
        set_prot(reg, base, base + bytes, prot);
    }
    base
}

/// The protection of an address; none where it is not registered.
pub fn lookup(reg: &Registry, addr: u64) -> (r: Option<u32>)
    requires
        reg.wf(),
    ensures
        r == reg.prot(addr as int),
{
    let mut i: usize = 0;
    while i < reg.ranges.len()
        invariant
            i <= reg.ranges@.len(),
            reg.wf(),
            forall|k: int| 0 <= k < i ==> !((#[trigger] reg.ranges@[k]).base <= addr < reg.ranges@[k].end),
        decreases reg.ranges@.len() - i,
    {
        let r = reg.ranges[i];
        if addr >= r.base && addr < r.end {
            proof {
                range_decides(reg.ranges@, i as int, addr as int);
            }
            return Some(r.prot);
        }
        i += 1;
    }
    proof {
        lemma_outside_all(reg.ranges@, addr as int);
    }
    None
}

/// `PageTableFlags::PRESENT`, as a page table entry holds it: the bit is bit 0.
#[verifier::external_body]
fn flag_present() -> (r: u64)
    ensures
        r == 1,
{
    PageTableFlags::PRESENT.bits()
}

/// `PageTableFlags::WRITABLE`, as a page table entry holds it: the bit is bit 1.
#[verifier::external_body]
fn flag_writable() -> (r: u64)
    ensures
        r == 2,
{
    PageTableFlags::WRITABLE.bits()
}

/// `PageTableFlags::NO_EXECUTE`, as a page table entry holds it: the bit is bit 63.
#[verifier::external_body]
fn flag_no_execute() -> (r: u64)
    ensures
        r == 0x8000_0000_0000_0000,
{
    PageTableFlags::NO_EXECUTE.bits()
}

/// The page table flags of a page that may be written where `writable` and executed where
/// `executable`.
pub open spec fn page_flags(writable: bool, executable: bool) -> int {
    1 + (if writable { 2int } else { 0 }) + (if executable { 0 } else { 0x8000_0000_0000_0000int })
}

/// The page table flags of a protection.
pub fn prot_to_flags(prot: u32) -> (r: u64)
    ensures
        r == page_flags(prot & PROT_WRITE != 0, prot & PROT_EXEC != 0),
{
    let mut f: u64 = flag_present();
    if prot & PROT_WRITE != 0 {
        f = f + flag_writable();
    }
    if prot & PROT_EXEC == 0 {
        f = f + flag_no_execute();
    }
    f
}

/// What a page fault commits: a page and the flags to map it with.
#[derive(Clone, Copy, PartialEq, Eq, Structural, Debug)]
pub struct Commit {
    pub page: u64,
    pub flags: u64,
}

/// Whether a protection allows anything at all.
pub open spec fn committable(prot: u32) -> bool {
    prot & 7 != 0
}

/// What a fault at `cr2` commits: the page around it, where the address is reserved with a
/// protection that allows something; nothing else, which is a real fault.
pub fn commit_fault(reg: &Registry, cr2: u64) -> (r: Option<Commit>)
    requires
        reg.wf(),
    ensures
        r is Some <==> WT_VM_BASE <= cr2 < reg.next && reg.prot(cr2 as int) is Some && committable(
            reg.prot(cr2 as int)->0,
        ),
        r is Some ==> r->0.page == cr2 - cr2 % PAGE && r->0.flags == page_flags(
            reg.prot(cr2 as int)->0 & PROT_WRITE != 0,
            reg.prot(cr2 as int)->0 & PROT_EXEC != 0,
        ),
{
    if !in_window(reg, cr2) {
        return None;
    }
    match lookup(reg, cr2) {
        None => None,
        Some(p) => {
            if p & 7 == 0 {
                None
            } else {
                Some(Commit { page: cr2 - cr2 % PAGE, flags: prot_to_flags(p) })
            }
        },
    }
}

/// How mapping the page of a fault ended.
#[derive(Clone, Copy, PartialEq, Eq, Structural, Debug)]
pub enum MapOutcome {
    Mapped,
    AlreadyMapped,
    Failed,
}

/// Whether the fault is handled, and whether the frame taken for it goes back: a core that
/// lost the race for the page gives its frame back and goes on.
pub fn after_map(outcome: MapOutcome) -> (r: (bool, bool))
    ensures
        r.0 == !(outcome is Failed),
        r.1 == !(outcome is Mapped),
{
    match outcome {
        MapOutcome::Mapped => (true, false),
        MapOutcome::AlreadyMapped => (true, true),
        MapOutcome::Failed => (false, true),
    }
}

/// Removing a range undoes setting its protection: where the range was not registered
/// before, every address is answered as at first.
pub proof fn remove_undoes_set_prot(before: Registry, between: Registry, after: Registry, base: u64, end: u64, prot: u32)
    requires
        reprotected(before, between, base, end, Some(prot)),
        reprotected(between, after, base, end, None),
        forall|a: int| base <= a < end ==> #[trigger] before.prot(a) is None,
    ensures
        forall|a: int| #[trigger] after.prot(a) == before.prot(a),
{
    assert forall|a: int| #[trigger] after.prot(a) == before.prot(a) by {
        assert(between.prot(a) == if base <= a < end {
            Some(prot)
        } else {
            before.prot(a)
        });
    }
}

/// Setting protections one after the other: where the ranges overlap, the later one holds.
pub proof fn last_set_prot_holds(
    before: Registry,
    between: Registry,
    after: Registry,
    first: (u64, u64, u32),
    second: (u64, u64, u32),
    a: int,
)
    requires
        reprotected(before, between, first.0, first.1, Some(first.2)),
        reprotected(between, after, second.0, second.1, Some(second.2)),
    ensures
        after.prot(a) == if second.0 <= a < second.1 {
            Some(second.2)
        } else if first.0 <= a < first.1 {
            Some(first.2)
        } else {
            before.prot(a)
        },
{
    assert(between.prot(a) == if first.0 <= a < first.1 {
        Some(first.2)
    } else {
        before.prot(a)
    });
}

/// Pages that the boot check reserves.
pub const CHECK_PAGES: u64 = 4096;

/// The page that the boot check touches.
pub const CHECK_TOUCHED: u64 = 1234;

/// Boot check: reserving commits nothing, and a touch commits a page of zeros. `free` counts
/// the free frames before, after the reservation and after the touch; `value` is what the touch
/// read. A check that holds leaves no address reserved that was not before.
pub fn self_test(reg: &mut Registry, free: (u64, u64, u64), value: u8) -> (r: bool)
    requires
        old(reg).wf(),
        old(reg).next + CHECK_PAGES * PAGE <= u64::MAX,
        forall|a: int| a >= old(reg).next ==> #[trigger] old(reg).prot(a) is None,
    ensures
        final(reg).wf(),
        r == (free.1 == free.0 && value == 0 && free.2 < free.0),
        r ==> forall|a: int| #[trigger] final(reg).prot(a) == old(reg).prot(a),
{
    let base: u64 = reserve(reg, CHECK_PAGES, PROT_READ | PROT_WRITE);
    let ghost between = *reg;
    if free.1 != free.0 {
        return false;
    }
    let touched: u64 = base + CHECK_TOUCHED * PAGE;
    proof {
        reserved_is_committable(*old(reg), *reg, base, (base + CHECK_PAGES * PAGE) as u64, touched as int);
    }
    if commit_fault(reg, touched).is_none() || value != 0 || free.2 >= free.0 {
        return false;
    }
    remove(reg, base, base + CHECK_PAGES * PAGE);
    proof {
        remove_undoes_set_prot(
            *old(reg),
            between,
            *reg,
            base,
            (base + CHECK_PAGES * PAGE) as u64,
            PROT_READ | PROT_WRITE,
        );
    }
    true
}

/// Memory that was reserved to be written is committed at the first touch, and not before.
pub proof fn reserved_is_committable(before: Registry, after: Registry, base: u64, end: u64, a: int)
    requires
        reprotected(before, after, base, end, Some(PROT_READ | PROT_WRITE)),
        base <= a < end,
    ensures
        after.prot(a) matches Some(p) && committable(p),
{
    assert((PROT_READ | PROT_WRITE) & 7 != 0) by (bit_vector);
}

} // verus!
