//! Laws of the calls of compiled programs: which bytes go where, in which order, and what the
//! numbers that a program is told stand for.

use vstd::prelude::*;
use vstd::utf8::{decode_utf8, encode_utf8, valid_utf8};
use crate::bytes::{bytes_run_upwards, le16, le32, le32_decodes, le64, le64_decodes, u16_at, u32_at, u64_at};
use crate::host::fd::total;
use crate::host::sysinfo::Proc;
use crate::wasi::{bits_are_those_of_the_word, clock_event, whence_of, zeros, Whence};
use crate::wt::boot::{plan_of, Artifact, Plan};
use crate::wt::catalog::ManifestView;
use crate::wt::frame::TaskEntry;
use crate::wt::gfx::{event_place, geom_record, handed, plain_event, with_events, Geom};
use crate::wt::lists::{app_record, app_records, padded, told, window_record, window_records};
use crate::wt::mem::{read_gives_back_write, stored};
use crate::wt::net::{free_slot, port_of, wanted_name, Slot};
use crate::wt::sys::{cpustat_blob, stat_row, stat_rows};
use crate::wt::term::{free_pair, pair_of, side};
use crate::wt::wasi::{
    clock_ns, fallback_flags, gathered, good_until, iov_good, iov_len, iov_ptr, nonempty_from, open_flags, table_fits,
    total_len, without_slashes, write_result,
};
use crate::wt::window::{event_record, packed_size, GfxEvt};

verus! {

/// A file is opened to be read and written, made where it is missing and cut to nothing exactly as
/// the bits of the call ask for; the second try is for reading alone.
pub proof fn files_are_opened_by_the_bits(oflags: i32)
    ensures
        open_flags(oflags).read && open_flags(oflags).write,
        open_flags(oflags).create <==> oflags & 1 != 0,
        open_flags(oflags).truncate <==> oflags & 8 != 0,
        fallback_flags().read && !fallback_flags().write && !fallback_flags().create && !fallback_flags().truncate,
        write_result(true) == 0,
        write_result(false) == 28,
{
    bits_are_those_of_the_word(oflags as i64);
}

/// Buffers count up to the first one that is not empty and does not lie in the memory.
pub proof fn buffers_count_up_to_the_first_bad_one(mem: Seq<u8>, iovs: u32, n: int, i: int, k: int)
    requires
        0 <= i <= k <= n,
        forall|j: int| i <= j < k ==> #[trigger] iov_good(mem, iovs, j),
        k < n ==> u32_at(mem, iovs + 8 * k + 4) > 0 && u32_at(mem, iovs + 8 * k) + u32_at(mem, iovs + 8 * k + 4)
            > mem.len(),
    ensures
        good_until(mem, iovs, n, i) == k,
    decreases n - i,
{
    if i < k {
        assert(iov_good(mem, iovs, i));
        buffers_count_up_to_the_first_bad_one(mem, iovs, n, i + 1, k);
    }
}

/// Whether buffer `j` of a table holds something and lies in the memory.
pub open spec fn holds_bytes(mem: Seq<u8>, iovs: u32, j: int) -> bool {
    &&& u32_at(mem, iovs + 8 * j + 4) > 0
    &&& u32_at(mem, iovs + 8 * j) + u32_at(mem, iovs + 8 * j + 4) <= mem.len()
}

/// What a program writes are its buffers in their order, each from its address on and of its
/// length.
pub proof fn output_is_gathered_in_order(mem: Seq<u8>, iovs: u32, n: int, k: int)
    requires
        0 <= k < n,
        forall|j: int| 0 <= j < n ==> #[trigger] holds_bytes(mem, iovs, j),
    ensures
        gathered(mem, iovs, n).len() == n,
        ({
            let (p, len) = (u32_at(mem, iovs + 8 * k), u32_at(mem, iovs + 8 * k + 4));
            gathered(mem, iovs, n)[k] == mem.subrange(p, p + len)
        }),
    decreases n,
{
    assert(holds_bytes(mem, iovs, n - 1));
    reveal_with_fuel(gathered, 2);
    if n > 1 {
        output_is_gathered_in_order(mem, iovs, n - 1, if k < n - 1 { k } else { 0 });
    }
}

/// A program is told as many bytes as it wrote: empty buffers add nothing.
pub proof fn written_bytes_are_counted(mem: Seq<u8>, iovs: u32, n: int)
    requires
        0 <= n,
        forall|j: int| 0 <= j < n ==> #[trigger] iov_good(mem, iovs, j),
    ensures
        total_len(mem, iovs, n) == total(gathered(mem, iovs, n)),
    decreases n,
{
    if n > 0 {
        assert(iov_good(mem, iovs, n - 1));
        written_bytes_are_counted(mem, iovs, n - 1);
        let was = gathered(mem, iovs, n - 1);
        let now = gathered(mem, iovs, n);
        if u32_at(mem, iovs + 8 * (n - 1) + 4) != 0 {
            assert(now.drop_last() =~= was);
        }
    }
}

/// The buffer that is filled next is the first from a place on that is not empty.
pub proof fn next_buffer_is_not_empty(iovs: Seq<(u32, u32)>, i: int)
    requires
        0 <= i <= iovs.len(),
    ensures
        i <= nonempty_from(iovs, i) <= iovs.len(),
        nonempty_from(iovs, i) < iovs.len() ==> iovs[nonempty_from(iovs, i)].1 > 0,
        forall|j: int| i <= j < nonempty_from(iovs, i) ==> (#[trigger] iovs[j]).1 == 0,
    decreases iovs.len() - i,
{
    if i < iovs.len() && iovs[i].1 == 0 {
        next_buffer_is_not_empty(iovs, i + 1);
    }
}

/// All slashes at the start of a path are taken off, and nothing else.
pub proof fn leading_slashes_are_taken_off(s: Seq<char>)
    ensures
        ({
            let t = without_slashes(s);
            let n = s.len() - t.len();
            &&& 0 <= n
            &&& t == s.subrange(n, s.len() as int)
            &&& forall|i: int| 0 <= i < n ==> s[i] == '/'
            &&& t.len() > 0 ==> t[0] != '/'
        }),
    decreases s.len(),
{
    if s.len() > 0 && s[0] == '/' {
        let r = s.drop_first();
        leading_slashes_are_taken_off(r);
        let t = without_slashes(s);
        let n = s.len() - t.len();
        assert(t =~= s.subrange(n, s.len() as int));
        assert forall|i: int| 0 <= i < n implies s[i] == '/' by {
            if i > 0 {
                assert(s[i] == r[i - 1]);
            }
        }
    } else {
        assert(s =~= s.subrange(0, s.len() as int));
    }
}

/// A clock moves on by ten milliseconds with every tick. Clock 0 tells the time of day, which is
/// that of the boot and the time since; every other tells the time since the boot.
pub proof fn clocks_count_ticks(id: i32, ticks: u64, boot: u64)
    requires
        ticks < 900_000_000_000,
        boot < 0x7000_0000_0000_0000,
    ensures
        id != 0 ==> clock_ns(id, ticks, boot) == 10_000_000 * ticks,
        id == 0 ==> clock_ns(id, ticks, boot) == boot + 10_000_000 * ticks,
{
}

/// The shape of the screen is told in four words: width, height, stride and format.
pub proof fn screen_shape_is_laid_out(g: Geom)
    ensures
        geom_record(g).len() == 16,
        u32_at(geom_record(g), 0) == g.width,
        u32_at(geom_record(g), 4) == g.height,
        u32_at(geom_record(g), 8) == g.stride,
        u32_at(geom_record(g), 12) == g.format,
{
    let r = geom_record(g);
    assert(r.subrange(0, 4) =~= le32(g.width));
    assert(r.subrange(4, 8) =~= le32(g.height));
    assert(r.subrange(8, 12) =~= le32(g.stride));
    assert(r.subrange(12, 16) =~= le32(g.format));
    le32_decodes(r, 0, g.width);
    le32_decodes(r, 4, g.height);
    le32_decodes(r, 8, g.stride);
    le32_decodes(r, 12, g.format);
}

/// An event is told in four words, its kind first; in the longer record a word comes before them
/// that is 1 for an event and 0 for none.
pub proof fn events_are_laid_out(e: GfxEvt, i: int)
    requires
        0 <= i < 20,
    ensures
        plain_event(e).len() == 16,
        u32_at(plain_event(e), 0) == e.kind,
        u32_at(plain_event(e), 4) == e.p0,
        u32_at(plain_event(e), 8) == e.p1,
        u32_at(plain_event(e), 12) == e.p2,
        event_record(Some(e)).len() == 20,
        u32_at(event_record(Some(e)), 0) == 1,
        event_record(Some(e)).subrange(4, 20) == plain_event(e),
        event_record(None).len() == 20,
        event_record(None)[i] == 0,
{
    let r = plain_event(e);
    assert(r.subrange(0, 4) =~= le32(e.kind));
    assert(r.subrange(4, 8) =~= le32(e.p0));
    assert(r.subrange(8, 12) =~= le32(e.p1));
    assert(r.subrange(12, 16) =~= le32(e.p2));
    le32_decodes(r, 0, e.kind);
    le32_decodes(r, 4, e.p0);
    le32_decodes(r, 8, e.p1);
    le32_decodes(r, 12, e.p2);
    let q = event_record(Some(e));
    assert(q.subrange(0, 4) =~= le32(1));
    le32_decodes(q, 0, 1);
    assert(q.subrange(4, 20) =~= r);
}

proof fn lemma_events(mem: Seq<u8>, out: u32, q: Seq<GfxEvt>, k: int, i: int)
    requires
        0 <= i < k <= q.len(),
        out + 16 * k <= mem.len() <= u32::MAX,
    ensures
        with_events(mem, out, q, k).len() == mem.len(),
        with_events(mem, out, q, k).subrange(out + 16 * i, out + 16 * i + 16) == plain_event(q[i]),
    decreases k,
{
    let m = with_events(mem, out, q, k - 1);
    if k > 1 {
        lemma_events(mem, out, q, k - 1, if i < k - 1 { i } else { 0 });
    }
    assert(m.len() == mem.len());
    let at = event_place(out, k - 1);
    assert(at == out + 16 * (k - 1));
    events_are_laid_out(q[k - 1], 0);
    read_gives_back_write(m, at, plain_event(q[k - 1]));
    if i < k - 1 {
        assert(stored(m, at, plain_event(q[k - 1])).subrange(out + 16 * i, out + 16 * i + 16) =~= m.subrange(
            out + 16 * i,
            out + 16 * i + 16,
        ));
    }
}

/// Events are handed over in the order in which they came, one behind the other, as many as were
/// asked for and are there and fit.
pub proof fn events_are_handed_over_in_order(mem: Seq<u8>, out: u32, q: Seq<GfxEvt>, max: int, i: int)
    requires
        mem.len() <= u32::MAX,
        out + 16 * max <= mem.len(),
        0 <= max,
    ensures
        ({
            let k = handed(mem.len() as int, out, max, q.len() as int, 0);
            let n = if q.len() < max { q.len() as int } else { max };
            &&& k == n
            &&& 0 <= i < k ==> with_events(mem, out, q, k).subrange(out + 16 * i, out + 16 * i + 16) == plain_event(
                q[i],
            )
        }),
{
    let n = if q.len() < max { q.len() as int } else { max };
    lemma_handed(mem.len() as int, out, max, q.len() as int, 0);
    if 0 <= i < n {
        lemma_events(mem, out, q, n, i);
    }
}

proof fn lemma_handed(len: int, out: u32, max: int, n: int, i: int)
    requires
        len <= u32::MAX,
        out + 16 * max <= len,
        0 <= i <= max,
        i <= n,
    ensures
        handed(len, out, max, n, i) == if n < max { n } else { max },
    decreases n - i,
{
    if i < max && i < n {
        assert(event_place(out, i) == out + 16 * i);
        lemma_handed(len, out, max, n, i + 1);
    }
}

/// A size is packed with its width in the upper half of the number and its height in the lower.
pub proof fn sizes_are_packed(w: u32, h: u32)
    ensures
        i64::MIN <= packed_size(w, h) <= i64::MAX,
        packed_size(w, h) % 0x1_0000_0000 == h,
        packed_size(w, h) >= 0 ==> packed_size(w, h) / 0x1_0000_0000 == w,
        w < 0x8000_0000 ==> packed_size(w, h) >= 0,
        w >= 0x8000_0000 ==> packed_size(w, h) / 0x1_0000_0000 == w - 0x1_0000_0000,
{
}

/// A text field holds the text as far as it goes, and zeros behind it.
pub proof fn text_fields_are_padded(s: Seq<u8>, n: nat, i: int)
    requires
        0 <= i < n,
    ensures
        padded(s, n).len() == n,
        i < s.len() ==> padded(s, n)[i] == s[i],
        i >= s.len() ==> padded(s, n)[i] == 0,
{
}

/// The record of a window: its id, its marks and 24 bytes of its title.
pub proof fn window_record_is_laid_out(e: TaskEntry)
    ensures
        window_record(e).len() == 32,
        u32_at(window_record(e), 0) == e.id,
        u32_at(window_record(e), 4) == e.flags,
        window_record(e).subrange(8, 32) == padded(encode_utf8(e.title@), 24),
{
    let r = window_record(e);
    assert(r.subrange(0, 4) =~= le32(e.id));
    assert(r.subrange(4, 8) =~= le32(e.flags));
    le32_decodes(r, 0, e.id);
    le32_decodes(r, 4, e.flags);
    assert(r.subrange(8, 32) =~= padded(encode_utf8(e.title@), 24));
}

/// The record of a program: 24 bytes of its id and 40 of its title.
pub proof fn app_record_is_laid_out(m: ManifestView)
    ensures
        app_record(m).len() == 64,
        app_record(m).subrange(0, 24) == padded(encode_utf8(m.id), 24),
        app_record(m).subrange(24, 64) == padded(encode_utf8(m.title), 40),
{
    assert(app_record(m).subrange(0, 24) =~= padded(encode_utf8(m.id), 24));
    assert(app_record(m).subrange(24, 64) =~= padded(encode_utf8(m.title), 40));
}

/// The records of windows stand one behind the other, in the order of the list: the `i`th at 32
/// times `i`.
pub proof fn window_records_stand_in_order(s: Seq<TaskEntry>, n: int, i: int)
    requires
        0 <= i < n <= s.len(),
    ensures
        window_records(s, n).len() == 32 * n,
        window_records(s, n).subrange(32 * i, 32 * i + 32) == window_record(s[i]),
    decreases n,
{
    window_record_is_laid_out(s[n - 1]);
    if n > 1 {
        window_records_stand_in_order(s, n - 1, if i < n - 1 { i } else { 0 });
    }
    let was = window_records(s, n - 1);
    assert(was.len() == 32 * (n - 1));
    if i < n - 1 {
        assert(window_records(s, n).subrange(32 * i, 32 * i + 32) =~= was.subrange(32 * i, 32 * i + 32));
    } else {
        assert(window_records(s, n).subrange(32 * i, 32 * i + 32) =~= window_record(s[i]));
    }
}

/// The records of programs stand one behind the other, in the order of the list: the `i`th at 64
/// times `i`.
pub proof fn app_records_stand_in_order(s: Seq<ManifestView>, n: int, i: int)
    requires
        0 <= i < n <= s.len(),
    ensures
        app_records(s, n).len() == 64 * n,
        app_records(s, n).subrange(64 * i, 64 * i + 64) == app_record(s[i]),
    decreases n,
{
    app_record_is_laid_out(s[n - 1]);
    if n > 1 {
        app_records_stand_in_order(s, n - 1, if i < n - 1 { i } else { 0 });
    }
    let was = app_records(s, n - 1);
    assert(was.len() == 64 * (n - 1));
    if i < n - 1 {
        assert(app_records(s, n).subrange(64 * i, 64 * i + 64) =~= was.subrange(64 * i, 64 * i + 64));
    } else {
        assert(app_records(s, n).subrange(64 * i, 64 * i + 64) =~= app_record(s[i]));
    }
}

/// As many records are told as there are, but no more than were asked for.
pub proof fn records_are_told_up_to_the_limit(len: nat, max: i32)
    ensures
        0 <= told(len, max) <= len,
        max >= 0 ==> told(len, max) <= max,
        max >= len ==> told(len, max) == len,
        0 <= max <= len ==> told(len, max) == max,
        max < 0 ==> told(len, max) == 0,
{
}

/// The first free number for a name: free, with none free before it.
pub proof fn free_number_is_the_first(s: Seq<Option<Slot>>, from: int)
    requires
        0 <= from <= s.len(),
    ensures
        from <= free_slot(s, from) <= s.len(),
        free_slot(s, from) < s.len() ==> s[free_slot(s, from)] is None,
        forall|i: int| from <= i < free_slot(s, from) ==> #[trigger] s[i] is Some,
    decreases s.len() - from,
{
    if from < s.len() && s[from] is Some {
        free_number_is_the_first(s, from + 1);
    }
}

/// The first free pair of terminals: free, with none free before it.
pub proof fn free_pair_is_the_first(claimed: Seq<bool>, from: int)
    requires
        0 <= from <= claimed.len(),
    ensures
        from <= free_pair(claimed, from) <= claimed.len(),
        free_pair(claimed, from) < claimed.len() ==> !claimed[free_pair(claimed, from)],
        forall|i: int| from <= i < free_pair(claimed, from) ==> #[trigger] claimed[i],
    decreases claimed.len() - from,
{
    if from < claimed.len() && claimed[from] {
        free_pair_is_the_first(claimed, from + 1);
    }
}

/// A side of a terminal that is a size stays as it is; a negative one is none.
pub proof fn sides_are_sizes(v: i32)
    ensures
        0 <= v <= 65535 ==> side(v) == v,
        v < 0 ==> side(v) == 0,
{
}

/// Connections begin from the 16384 ports behind 49151, in turn.
pub proof fn ports_are_used_in_turn(n: u32)
    ensures
        port_of(0) == 49152,
        49152 <= port_of(n) <= 65535,
        n < u32::MAX && port_of(n) < 65535 ==> port_of((n + 1) as u32) == port_of(n) + 1,
        n < u32::MAX && port_of(n) == 65535 ==> port_of((n + 1) as u32) == 49152,
{
}

/// What is told of the processors: their number in four bytes, the ticks of a millisecond in
/// eight, and then for each processor how long it was busy and how long idle, in eight bytes each.
#[verifier::rlimit(40)]
pub proof fn processor_times_stand_in_order(per_ms: u64, cores: Seq<(u64, u64)>, n: int, i: int)
    requires
        0 <= n <= cores.len() <= u32::MAX,
    ensures
        ({
            let b = cpustat_blob(per_ms, cores, n);
            &&& b.len() == 12 + 16 * n
            &&& u32_at(b, 0) == cores.len()
            &&& u64_at(b, 4) == per_ms
            &&& 0 <= i < n ==> u64_at(b, 12 + 16 * i) == cores[i].0 && u64_at(b, 20 + 16 * i) == cores[i].1
        }),
    decreases n,
{
    let b = cpustat_blob(per_ms, cores, n);
    if n == 0 {
        assert(b.subrange(0, 4) =~= le32(cores.len() as u32));
        assert(b.subrange(4, 12) =~= le64(per_ms));
        le32_decodes(b, 0, cores.len() as u32);
        le64_decodes(b, 4, per_ms);
    } else {
        let was = cpustat_blob(per_ms, cores, n - 1);
        processor_times_stand_in_order(per_ms, cores, n - 1, i);
        lemma_prefix_numbers(was, b, 0);
        lemma_prefix_numbers(was, b, 4);
        if 0 <= i < n - 1 {
            lemma_prefix_numbers(was, b, 12 + 16 * i);
            lemma_prefix_numbers(was, b, 20 + 16 * i);
        } else if i == n - 1 {
            assert(b.subrange(12 + 16 * i, 20 + 16 * i) =~= le64(cores[i].0));
            assert(b.subrange(20 + 16 * i, 28 + 16 * i) =~= le64(cores[i].1));
            le64_decodes(b, 12 + 16 * i, cores[i].0);
            le64_decodes(b, 20 + 16 * i, cores[i].1);
        }
    }
}

proof fn lemma_prefix_numbers(a: Seq<u8>, b: Seq<u8>, at: int)
    requires
        0 <= at,
        a.len() <= b.len(),
        forall|i: int| 0 <= i < a.len() ==> #[trigger] a[i] == b[i],
    ensures
        at + 4 <= a.len() ==> u32_at(a, at) == u32_at(b, at),
        at + 8 <= a.len() ==> u64_at(a, at) == u64_at(b, at),
{
}

proof fn lemma_parts(a: Seq<u8>, b: Seq<u8>, c: Seq<u8>, d: Seq<u8>, e: Seq<u8>, f: Seq<u8>, g: Seq<u8>)
    requires
        a.len() == 4 && b.len() == 8 && c.len() == 8 && d.len() == 8 && e.len() == 2 && f.len() == 2,
    ensures
        ({
            let r = a + b + c + d + e + f + g;
            &&& r.len() == 32 + g.len()
            &&& r.subrange(0, 4) == a
            &&& r.subrange(4, 12) == b
            &&& r.subrange(12, 20) == c
            &&& r.subrange(20, 28) == d
            &&& r[28] == e[0] && r[29] == e[1]
            &&& r[30] == f[0] && r[31] == f[1]
            &&& r.subrange(32, r.len() as int) == g
        }),
{
    let r = a + b + c + d + e + f + g;
    assert(r.subrange(0, 4) =~= a);
    assert(r.subrange(4, 12) =~= b);
    assert(r.subrange(12, 20) =~= c);
    assert(r.subrange(20, 28) =~= d);
    assert(r.subrange(32, r.len() as int) =~= g);
}

/// The row of a program: its number, when it was started, the time and the memory that it took,
/// the length of its name, two zeros, and the name.
#[verifier::rlimit(60)]
pub proof fn program_row_is_laid_out(p: Proc)
    requires
        encode_utf8(p.name@).len() <= u16::MAX,
    ensures
        ({
            let r = stat_row(p);
            let b = encode_utf8(p.name@);
            &&& r.len() == 32 + b.len()
            &&& u32_at(r, 0) == p.pid
            &&& u64_at(r, 4) == p.start_tick
            &&& u64_at(r, 12) == p.cpu_tsc
            &&& u64_at(r, 20) == p.mem_bytes
            &&& u16_at(r, 28) == b.len()
            &&& r[30] == 0 && r[31] == 0
            &&& r.subrange(32, r.len() as int) == b
        }),
{
    let r = stat_row(p);
    let b = encode_utf8(p.name@);
    lemma_parts(
        le32(p.pid),
        le64(p.start_tick),
        le64(p.cpu_tsc),
        le64(p.mem_bytes),
        le16(b.len() as u16),
        seq![0u8, 0u8],
        b,
    );
    le32_decodes(r, 0, p.pid);
    le64_decodes(r, 4, p.start_tick);
    le64_decodes(r, 12, p.cpu_tsc);
    le64_decodes(r, 20, p.mem_bytes);
    assert(u16_at(r, 28) == b.len()) by {
        bytes_run_upwards(b.len() as u16, 0, 0, r, 28);
    }
}

/// The rows of programs come behind their number, in the order of the programs.
pub proof fn program_rows_stand_in_order(s: Seq<Proc>, n: int)
    requires
        0 < n <= s.len() <= u32::MAX,
    ensures
        u32_at(stat_rows(s, 0), 0) == s.len(),
        stat_rows(s, 0).len() == 4,
        stat_rows(s, n).subrange(0, stat_rows(s, n - 1).len() as int) == stat_rows(s, n - 1),
        stat_rows(s, n).subrange(stat_rows(s, n - 1).len() as int, stat_rows(s, n).len() as int) == stat_row(s[n - 1]),
{
    let first = stat_rows(s, 0);
    assert(first.subrange(0, 4) =~= le32(s.len() as u32));
    le32_decodes(first, 0, s.len() as u32);
    let was = stat_rows(s, n - 1);
    assert(stat_rows(s, n).subrange(0, was.len() as int) =~= was);
    assert(stat_rows(s, n).subrange(was.len() as int, stat_rows(s, n).len() as int) =~= stat_row(s[n - 1]));
}

/// The event that ends a wait: the tag of the subscription, and zeros up to 32 bytes.
pub proof fn clock_event_is_laid_out(tag: Seq<u8>, i: int)
    requires
        tag.len() == 8,
        0 <= i < 32,
    ensures
        clock_event(tag).len() == 32,
        i < 8 ==> clock_event(tag)[i] == tag[i],
        i >= 8 ==> clock_event(tag)[i] == 0,
        zeros(32)[i] == 0,
{
}

/// A position is counted from the start for 0, from where the file stands for 1, from its end for
/// 2, and no other number says from where.
pub proof fn positions_are_counted_by_number(n: i32)
    ensures
        whence_of(n) == Some(Whence::Start) <==> n == 0,
        whence_of(n) == Some(Whence::Cur) <==> n == 1,
        whence_of(n) == Some(Whence::End) <==> n == 2,
        whence_of(n) is None <==> n < 0 || n > 2,
{
}

/// A name is looked up where it is text of one to 253 bytes that lie in the memory; it is the text
/// that stands there.
pub proof fn names_are_taken_from_memory(mem: Seq<u8>, ptr: u32, len: i32)
    ensures
        wanted_name(mem, ptr, len) is Some <==> {
            &&& 1 <= len <= 253
            &&& ptr + len <= mem.len()
            &&& valid_utf8(mem.subrange(ptr as int, ptr + len))
        },
        wanted_name(mem, ptr, len) is Some ==> wanted_name(mem, ptr, len) == Some(
            decode_utf8(mem.subrange(ptr as int, ptr + len)),
        ),
{
}

/// A handle is the number of its pair, and stands for nothing where there is no such pair.
pub proof fn handles_are_numbers_of_pairs(h: i32, pairs: nat)
    ensures
        pair_of(h, pairs) is Some <==> h >= 0 && h < pairs,
        pair_of(h, pairs) is Some ==> pair_of(h, pairs) == Some(h as int),
{
}

/// Only a component draws text screens, and only where the program that does so for it is there; a
/// single picture is drawn where one of the arguments asks for it, whichever it is.
pub proof fn components_draw_text_screens(kind: Option<Artifact>, args: Seq<Vec<u8>>, provider: bool, i: int)
    ensures
        plan_of(kind, args, provider) is Module <==> kind is None || kind == Some(Artifact::Module),
        plan_of(kind, args, provider) is NoProvider <==> kind == Some(Artifact::Component) && !provider,
        0 <= i < args.len() && args[i]@ == seq![45u8, 45, 111, 110, 99, 101] && kind == Some(Artifact::Component)
            && provider ==> plan_of(kind, args, provider) == (Plan::TextScreen { once: true }),
        (forall|j: int| 0 <= j < args.len() ==> (#[trigger] args[j])@ != seq![45u8, 45, 111, 110, 99, 101]) && kind
            == Some(Artifact::Component) && provider ==> plan_of(kind, args, provider) == (Plan::TextScreen { once: false }),
{
    match kind {
        Some(Artifact::Module) => {},
        Some(Artifact::Component) => {},
        None => {},
    }
}

/// A table of buffers has eight bytes for each of them, the address and then the length, and is good
/// where all of it lies in the memory.
pub proof fn tables_of_buffers_are_laid_out(mem: Seq<u8>, iovs: u32, n: i32, i: int)
    ensures
        table_fits(mem, iovs, n) <==> n >= 0 && iovs + 8 * n <= mem.len(),
        iov_ptr(mem, iovs, i) == u32_at(mem, iovs + 8 * i),
        iov_len(mem, iovs, i) == u32_at(mem, iovs + 8 * i + 4),
{
}

} // verus!
