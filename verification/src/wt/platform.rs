//! What the module runtime asks of the platform: lock words and page mappings.
//!
//! A lock word is zero when it is free. An acquisition that does not succeed at once is
//! tried again by the caller.

use vstd::prelude::*;
use crate::wt::demand::{page_flags, prot_to_flags, PAGE, PROT_EXEC, PROT_WRITE};

verus! {

/// The word of a reader-writer lock that is held for writing.
pub const RW_WRITER: usize = usize::MAX;

/// How many readers a lock word stands for.
pub open spec fn readers(word: usize) -> int {
    if word == RW_WRITER { 0 } else { word as int }
}

/// Whether a lock word stands for a writer.
pub open spec fn writing(word: usize) -> bool {
    word == RW_WRITER
}

/// One try at a mutual exclusion lock: the new word, where the lock was free.
pub fn wasmtime_sync_lock_acquire(word: usize) -> (r: Option<usize>)
    ensures
        r == if word == 0 { Some(1usize) } else { None },
{
    if word == 0 { Some(1) } else { None }
}

/// The word of a mutual exclusion lock that was let go.
pub fn wasmtime_sync_lock_release(word: usize) -> (r: usize)
    ensures
        r == 0,
{
    0
}

/// One try at a lock for reading: the new word has one reader more. It fails while there
/// is a writer. The last two words are never reached by readers: there are at most as many
/// as processors.
pub fn wasmtime_sync_rwlock_read(word: usize) -> (r: Option<usize>)
    requires
        word != usize::MAX - 1,
    ensures
        r is Some <==> !writing(word),
        r is Some ==> readers(r->0) == readers(word) + 1 && !writing(r->0),
{
    if word != RW_WRITER { Some(word + 1) } else { None }
}

/// The word after a reader left.
pub fn wasmtime_sync_rwlock_read_release(word: usize) -> (r: usize)
    requires
        readers(word) > 0,
    ensures
        readers(r) == readers(word) - 1,
        !writing(r),
{
    word - 1
}

/// One try at a lock for writing: it succeeds only where there is neither a reader nor a
/// writer.
pub fn wasmtime_sync_rwlock_write(word: usize) -> (r: Option<usize>)
    ensures
        r is Some <==> readers(word) == 0 && !writing(word),
        r is Some ==> writing(r->0),
{
    if word == 0 { Some(RW_WRITER) } else { None }
}

/// The word after the writer left.
pub fn wasmtime_sync_rwlock_write_release(word: usize) -> (r: usize)
    ensures
        readers(r) == 0,
        !writing(r),
{
    0
}

/// No lock word stands for readers and a writer at once.
pub proof fn readers_exclude_writer(word: usize)
    ensures
        !(readers(word) > 0 && writing(word)),
{
}

/// Bytes of a page.
pub fn wasmtime_page_size() -> (r: usize)
    ensures
        r == PAGE,
{
    0x1000
}

/// How many pages hold `size` bytes.
pub open spec fn pages_for(size: int) -> int {
    (size + PAGE - 1) / PAGE as int
}

/// How to map fresh pages: from where on, how many, with which flags in the end, and whether a
/// page that was mapped writable to be cleared has its flags lowered afterwards.
#[derive(Clone, Copy, PartialEq, Eq, Structural, Debug)]
pub struct MapPlan {
    pub base: u64,
    pub pages: u64,
    pub clear_flags: u64,
    pub flags: u64,
    pub lower: bool,
    /// Whether pages are mapped at all, or only taken away.
    pub map: bool,
}

/// How many pages hold `size` bytes.
pub fn page_count(size: usize) -> (r: u64)
    requires
        size + PAGE - 1 <= u64::MAX,
    ensures
        r == pages_for(size as int),
{
    (size as u64 + (PAGE - 1)) / PAGE
}

/// The address of a page of a mapping.
pub fn page_address(base: u64, i: u64) -> (r: u64)
    requires
        base + i * PAGE <= u64::MAX,
    ensures
        r == base + i * PAGE,
{
    base + i * PAGE
}

/// A mapping of `size` bytes takes the addresses from `base` on, where the ones before it end.
pub open spec fn takes(before: u64, after: u64, base: u64, size: int) -> bool {
    base == before && after == before + pages_for(size) * PAGE
}

/// Addresses are given out once: a mapping and one that is made later, after any number of
/// others, share no byte. Each is given by the counter before and after it, its base and its
/// size.
pub proof fn mappings_are_apart(
    first: (u64, u64, u64, usize),
    later: (u64, u64, u64, usize),
    a: int,
)
    requires
        takes(first.0, first.1, first.2, first.3 as int),
        takes(later.0, later.1, later.2, later.3 as int),
        first.1 <= later.0,
        first.2 <= a < first.2 + first.3,
    ensures
        first.2 <= a < first.1,
        !(later.2 <= a < later.2 + later.3),
{
}

/// The part of a plan that does not depend on where it maps.
fn plan_at(base: u64, size: usize, prot_flags: u32, map: bool) -> (r: MapPlan)
    requires
        size + PAGE - 1 <= u64::MAX,
    ensures
        r.base == base,
        r.pages == pages_for(size as int),
        r.clear_flags == page_flags(true, false),
        r.flags == page_flags(prot_flags & PROT_WRITE != 0, prot_flags & PROT_EXEC != 0),
        r.lower == (prot_flags & PROT_WRITE == 0 || prot_flags & PROT_EXEC != 0),
        r.lower <==> r.flags != r.clear_flags,
        r.map == map,
{
    assert(2u32 & 2u32 != 0 && 2u32 & 4u32 == 0) by (bit_vector);
    MapPlan {
        base,
        pages: page_count(size),
        clear_flags: prot_to_flags(PROT_WRITE),
        flags: prot_to_flags(prot_flags),
        lower: prot_flags & PROT_WRITE == 0 || prot_flags & PROT_EXEC != 0,
        map,
    }
}

/// The plan for a new mapping, behind all others: `next` is where they end. Every page is
/// cleared first, also those that cannot be written yet: a module takes fresh memory to read
/// as zero.
pub fn wasmtime_mmap_new(next: &mut u64, size: usize, prot_flags: u32) -> (r: MapPlan)
    requires
        size + PAGE - 1 <= u64::MAX,
        *old(next) + pages_for(size as int) * PAGE <= u64::MAX,
    ensures
        takes(*old(next), *final(next), r.base, size as int),
        r.pages == pages_for(size as int),
        r.clear_flags == page_flags(true, false),
        r.flags == page_flags(prot_flags & PROT_WRITE != 0, prot_flags & PROT_EXEC != 0),
        r.lower == (prot_flags & PROT_WRITE == 0 || prot_flags & PROT_EXEC != 0),
        r.lower <==> r.flags != r.clear_flags,
        r.map,
{
    let plan = plan_at(*next, size, prot_flags, true);
    *next = *next + plan.pages * PAGE;
    plan
}

/// The plan for replacing the mapping at `addr` by a blank one. Without protection bits the
/// pages are only taken away.
pub fn wasmtime_mmap_remap(addr: u64, size: usize, prot_flags: u32) -> (r: MapPlan)
    requires
        size + PAGE - 1 <= u64::MAX,
    ensures
        r.base == addr,
        r.pages == pages_for(size as int),
        r.clear_flags == page_flags(true, false),
        r.flags == page_flags(prot_flags & PROT_WRITE != 0, prot_flags & PROT_EXEC != 0),
        r.lower == (prot_flags & PROT_WRITE == 0 || prot_flags & PROT_EXEC != 0),
        r.map == (prot_flags != 0),
{
    plan_at(addr, size, prot_flags, prot_flags != 0)
}

/// The plan for changing the protection of a mapping: how many pages, with which flags.
pub fn wasmtime_mprotect(size: usize, prot_flags: u32) -> (r: (u64, u64))
    requires
        size + PAGE - 1 <= u64::MAX,
    ensures
        r.0 == pages_for(size as int),
        r.1 == page_flags(prot_flags & PROT_WRITE != 0, prot_flags & PROT_EXEC != 0),
{
    (page_count(size), prot_to_flags(prot_flags))
}

/// How many pages to take away.
pub fn wasmtime_munmap(size: usize) -> (r: u64)
    requires
        size + PAGE - 1 <= u64::MAX,
    ensures
        r == pages_for(size as int),
{
    page_count(size)
}

/// Boot check: whether fresh memory holds zeros. `page` are its bytes, nothing where it could
/// not be mapped.
pub fn zero_init_self_test(page: Option<&[u8]>) -> (r: bool)
    ensures
        r == (page matches Some(p) && forall|i: int| 0 <= i < p@.len() ==> p@[i] == 0),
{
    match page {
        None => false,
        Some(p) => all_zero(p),
    }
}

fn all_zero(p: &[u8]) -> (r: bool)
    ensures
        r == forall|i: int| 0 <= i < p@.len() ==> p@[i] == 0,
{
    let mut i: usize = 0;
    while i < p.len()
        invariant
            i <= p@.len(),
            forall|k: int| 0 <= k < i ==> p@[k] == 0,
        decreases p@.len() - i,
    {
        if p[i] != 0 {
            return false;
        }
        i += 1;
    }
    true
}

} // verus!
