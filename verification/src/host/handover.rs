//! Laws of how calls hand values over to an interpreted program: what stands where in its memory
//! afterwards, and which errno tells that it could not be written.

use vstd::prelude::*;
use vstd::utf8::{decode_utf8, encode_utf8, encode_utf8_decode_utf8, encode_utf8_valid_utf8, valid_utf8};
use crate::bytes::{bytes_run_upwards, le32, le32_decodes, le64, le64_decodes, u16_at, u32_at, u64_at};
use crate::host::blob::argv_of;
use crate::host::fd::{buffer_at, console_run, fd_filetype, is_console, legible, outgoing, total, ConsoleStep};
use crate::host::lifecycle::{given, write_or_exit};
use crate::host::mem::{bounds, guest_reads_back, write_errno, written};
use crate::host::net::{gateway, sockets, Route};
use crate::host::proc::{in_turn, text_arg, time_fields, DateTime};
use crate::host::reply::{start_of, text_at, whole};
use crate::host::state::FdEntry;
use crate::suspend::HostCall;
use crate::wasi::{clock_sub, fdstat, prestat, wake_tick, VfsKind};
use crate::wt::args::{handed_out, space};
use crate::wt::mem::stored;

verus! {

/// A write goes through exactly where its place is not negative and all of it lies in the memory.
/// Otherwise nothing changes, and the errno is 28 for a place or a length that is none, and 21 for
/// one that lies outside.
pub proof fn writes_go_through_where_they_fit(mem: Seq<u8>, ptr: i32, b: Seq<u8>, i: int)
    requires
        0 <= i < mem.len(),
    ensures
        write_errno(mem, ptr, b) == 0 <==> ptr >= 0 && b.len() <= 0x7fff_ffff && ptr + b.len() <= mem.len(),
        ptr < 0 ==> write_errno(mem, ptr, b) == 28,
        ptr >= 0 && b.len() <= 0x7fff_ffff && ptr + b.len() > mem.len() ==> write_errno(mem, ptr, b) == 21,
        written(mem, ptr, b).len() == mem.len(),
        write_errno(mem, ptr, b) != 0 ==> written(mem, ptr, b) == mem,
        write_errno(mem, ptr, b) == 0 ==> written(mem, ptr, b)[i] == if ptr <= i < ptr + b.len() {
            b[i - ptr]
        } else {
            mem[i]
        },
{
}

/// A place and a length are good exactly where neither is negative and the bytes lie in the
/// memory.
pub proof fn places_are_good_where_they_lie_inside(ptr: i32, len: i32, size: int)
    ensures
        bounds(ptr, len, size) is Ok <==> ptr >= 0 && len >= 0 && ptr + len <= size,
        bounds(ptr, len, size) matches Ok(p) ==> p.0 == ptr && p.1 == len,
        ptr < 0 || len < 0 ==> bounds(ptr, len, size) == Err::<(int, int), i32>(28),
        ptr >= 0 && len >= 0 && ptr + len > size ==> bounds(ptr, len, size) == Err::<(int, int), i32>(21),
{
}

proof fn lemma_word(mem: Seq<u8>, ptr: i32, v: u32)
    requires
        0 <= ptr,
        ptr + 4 <= mem.len(),
    ensures
        write_errno(mem, ptr, le32(v)) == 0,
        u32_at(written(mem, ptr, le32(v)), ptr as int) == v,
{
    guest_reads_back(mem, ptr, le32(v));
    le32_decodes(written(mem, ptr, le32(v)), ptr as int, v);
}

/// A text is handed over whole or not at all. Its length is told in any case; where the buffer is
/// shorter the errno is 8 and no byte of the text is written.
pub proof fn texts_are_handed_over_whole(
    mem: Seq<u8>,
    text: Seq<u8>,
    buf_ptr: i32,
    buf_len: i32,
    used_ptr: i32,
    i: int,
)
    requires
        0 <= used_ptr,
        used_ptr + 4 <= mem.len() <= 0x7fff_ffff,
        0 <= buf_ptr,
        0 <= buf_len,
        buf_ptr + buf_len <= mem.len(),
        buf_ptr + buf_len <= used_ptr || used_ptr + 4 <= buf_ptr,
        text.len() <= u32::MAX,
        0 <= i < mem.len(),
    ensures
        ({
            let (now, errno) = whole(mem, text, buf_ptr, buf_len, used_ptr);
            &&& now.len() == mem.len()
            &&& u32_at(now, used_ptr as int) == text.len()
            &&& text.len() <= buf_len ==> errno == 0 && now.subrange(buf_ptr as int, buf_ptr + text.len()) == text
            &&& text.len() > buf_len ==> errno == 8
            &&& !(used_ptr <= i < used_ptr + 4) && (text.len() > buf_len || !(buf_ptr <= i < buf_ptr + text.len()))
                ==> now[i] == mem[i]
        }),
{
    let v = text.len() as u32;
    lemma_word(mem, used_ptr, v);
    guest_reads_back(mem, used_ptr, le32(v));
    let m = written(mem, used_ptr, le32(v));
    if text.len() <= buf_len {
        guest_reads_back(m, buf_ptr, text);
        let now = written(m, buf_ptr, text);
        assert(now.subrange(used_ptr as int, used_ptr + 4) =~= m.subrange(used_ptr as int, used_ptr + 4));
        le32_decodes(now, used_ptr as int, v);
    }
}

/// Of a record as much is handed over as the buffer takes, from its start, and a length is told.
pub proof fn records_are_handed_over_as_far_as_they_fit(
    mem: Seq<u8>,
    record: Seq<u8>,
    buf_ptr: i32,
    buf_len: i32,
    used_ptr: i32,
    told: nat,
    i: int,
)
    requires
        0 <= used_ptr,
        used_ptr + 4 <= mem.len() <= 0x7fff_ffff,
        0 <= buf_ptr,
        0 <= buf_len,
        buf_ptr + buf_len <= mem.len(),
        buf_ptr + buf_len <= used_ptr || used_ptr + 4 <= buf_ptr,
        told <= u32::MAX,
        0 <= i < mem.len(),
    ensures
        ({
            let (now, errno) = start_of(mem, record, buf_ptr, buf_len, used_ptr, told);
            let n = if record.len() < buf_len { record.len() as int } else { buf_len as int };
            &&& errno == 0
            &&& now.len() == mem.len()
            &&& now.subrange(buf_ptr as int, buf_ptr + n) == record.subrange(0, n)
            &&& u32_at(now, used_ptr as int) == told
            &&& !(used_ptr <= i < used_ptr + 4) && !(buf_ptr <= i < buf_ptr + n) ==> now[i] == mem[i]
        }),
{
    let n = if record.len() < buf_len { record.len() as int } else { buf_len as int };
    let part = record.subrange(0, n);
    assert(record.take(n) =~= part);
    assert(crate::host::reply::taken(record.len(), buf_len) == n);
    guest_reads_back(mem, buf_ptr, part);
    let m = written(mem, buf_ptr, part);
    lemma_word(m, used_ptr, told as u32);
    guest_reads_back(m, used_ptr, le32(told as u32));
    let now = written(m, used_ptr, le32(told as u32));
    assert(now.subrange(buf_ptr as int, buf_ptr + n) =~= m.subrange(buf_ptr as int, buf_ptr + n));
}

/// A call that writes one value succeeds where it fits, and otherwise ends the program.
pub proof fn one_value_or_the_end(mem: Seq<u8>, ptr: i32, b: Seq<u8>)
    requires
        b.len() <= 0x7fff_ffff,
    ensures
        ptr >= 0 && ptr + b.len() <= mem.len() ==> write_or_exit(mem, ptr, b).1 == HostCall::Return(0) && write_or_exit(
            mem,
            ptr,
            b,
        ).0.subrange(ptr as int, ptr + b.len()) == b,
        ptr < 0 || ptr + b.len() > mem.len() ==> write_or_exit(mem, ptr, b).0 == mem && write_or_exit(mem, ptr, b).1
            == HostCall::Exit(-1i32),
{
    if ptr >= 0 && ptr + b.len() <= mem.len() {
        guest_reads_back(mem, ptr, b);
    }
}

/// A text that a program names is what its bytes encode; a place outside the memory is an errno,
/// and bytes that encode nothing end the program.
pub proof fn texts_are_read_from_memory(mem: Seq<u8>, ptr: i32, len: i32)
    ensures
        ptr >= 0 && len >= 0 && ptr + len <= mem.len() && valid_utf8(mem.subrange(ptr as int, ptr + len)) ==> {
            &&& text_at(mem, ptr, len) == Some(decode_utf8(mem.subrange(ptr as int, ptr + len)))
            &&& text_arg(mem, ptr, len) == Ok::<Seq<char>, HostCall>(decode_utf8(mem.subrange(ptr as int, ptr + len)))
        },
        ptr >= 0 && len >= 0 && ptr + len <= mem.len() && !valid_utf8(mem.subrange(ptr as int, ptr + len)) ==> {
            &&& text_at(mem, ptr, len) is None
            &&& text_arg(mem, ptr, len) == Err::<Seq<char>, HostCall>(HostCall::Exit(-1i32))
        },
        ptr < 0 || len < 0 ==> text_at(mem, ptr, len) is None && text_arg(mem, ptr, len) == Err::<Seq<char>, HostCall>(
            HostCall::Return(28),
        ),
        ptr >= 0 && len >= 0 && ptr + len > mem.len() ==> text_at(mem, ptr, len) is None && text_arg(mem, ptr, len)
            == Err::<Seq<char>, HostCall>(HostCall::Return(21)),
{
}

/// A program that names a text by its bytes names that text.
pub proof fn named_text_is_the_text(mem: Seq<u8>, ptr: i32, len: i32, text: Seq<char>)
    requires
        ptr >= 0,
        len >= 0,
        ptr + len <= mem.len(),
        mem.subrange(ptr as int, ptr + len) == encode_utf8(text),
    ensures
        text_at(mem, ptr, len) == Some(text),
{
    encode_utf8_valid_utf8(text);
    encode_utf8_decode_utf8(text);
}

proof fn lemma_given(mem: Seq<u8>, s: Seq<Seq<u8>>, table: i32, buf: i32, n: int)
    requires
        0 <= n <= s.len(),
        0 <= table,
        0 <= buf,
        mem.len() <= 0x7fff_ffff,
        table + 4 * n <= mem.len(),
        buf + space(s, n) <= mem.len(),
    ensures
        given(mem, s, table, buf, n) == (handed_out(mem, s, table as u32, buf as u32, n).0, 0i32),
        handed_out(mem, s, table as u32, buf as u32, n).1,
        given(mem, s, table, buf, n).0.len() == mem.len(),
        0 <= space(s, n),
    decreases n,
{
    reveal(given);
    reveal(handed_out);
    if n > 0 {
        lemma_space(s, n - 1);
        lemma_given(mem, s, table, buf, n - 1);
        let m = given(mem, s, table, buf, n - 1).0;
        let slot = (table + 4 * (n - 1)) as u32;
        let at = (buf + space(s, n - 1)) as u32;
        let w = s[n - 1].push(0);
        assert(crate::wt::args::behind(table as u32, 4 * (n - 1)) == slot);
        assert(crate::wt::args::behind(buf as u32, space(s, n - 1)) == at);
        let m2 = written(m, slot as i32, le32(at));
        assert(m2 =~= stored(m, slot, le32(at)));
        assert(written(m2, at as i32, w) =~= stored(m2, at, w));
    }
}

proof fn lemma_space(s: Seq<Seq<u8>>, n: int)
    requires
        0 <= n <= s.len(),
    ensures
        0 <= space(s, n),
    decreases n,
{
    if n > 0 {
        lemma_space(s, n - 1);
    }
}

/// A program finds its arguments: the table tells where each one begins, each stands there with a
/// zero byte behind it, and the next one follows.
pub proof fn arguments_stand_in_a_row(mem: Seq<u8>, s: Seq<Seq<u8>>, table: i32, buf: i32, k: int)
    requires
        0 <= k < s.len(),
        0 <= table,
        0 <= buf,
        mem.len() <= 0x7fff_ffff,
        table + 4 * s.len() <= mem.len(),
        buf + space(s, s.len() as int) <= mem.len(),
        table + 4 * s.len() <= buf || buf + space(s, s.len() as int) <= table,
    ensures
        ({
            let (m, errno) = given(mem, s, table, buf, s.len() as int);
            let at = u32_at(m, table + 4 * k);
            &&& errno == 0
            &&& m.subrange(at, at + s[k].len()) == s[k]
            &&& m[at + s[k].len()] == 0
            &&& u32_at(m, table as int) == buf
            &&& k + 1 < s.len() ==> u32_at(m, table + 4 * (k + 1)) == at + s[k].len() + 1
        }),
{
    lemma_given(mem, s, table, buf, s.len() as int);
    crate::wt::args::strings_stand_in_a_row(mem, s, table as u32, buf as u32, s.len() as int, k);
}

/// The space of arguments is their lengths and one byte more for each.
pub proof fn space_is_lengths_and_zeros(s: Seq<Seq<u8>>, n: int)
    requires
        0 < n <= s.len(),
    ensures
        space(s, 0) == 0,
        space(s, n) == space(s, n - 1) + s[n - 1].len() + 1,
{
}

/// A write takes the buffer that its table names, and no more than 4096 bytes of it.
pub proof fn writes_take_the_named_buffer(mem: Seq<u8>, at: int)
    requires
        0 <= at,
        at + 8 <= mem.len() <= 0x7fff_ffff,
    ensures
        buffer_at(mem, at) == Some((u32_at(mem, at), u32_at(mem, at + 4))),
        ({
            let (p, len) = (u32_at(mem, at), u32_at(mem, at + 4));
            let n = if len < 4096 { len } else { 4096 };
            &&& p + n <= mem.len() ==> outgoing(mem, at) == Some(mem.subrange(p, p + n))
            &&& p + n > mem.len() ==> outgoing(mem, at) is None
        }),
{
}

/// Whether buffer `j` of a table is not empty and lies in the memory.
pub open spec fn is_readable(mem: Seq<u8>, iovs: int, j: int) -> bool {
    &&& 0 < u32_at(mem, iovs + 8 * j + 4)
    &&& u32_at(mem, iovs + 8 * j) + u32_at(mem, iovs + 8 * j + 4) <= mem.len()
}

/// The console shows the buffers of a table in their order, each as far as 4096 bytes; one that is
/// empty shows nothing.
pub proof fn console_shows_buffers_in_order(mem: Seq<u8>, iovs: int, n: int, i: int, k: int)
    requires
        0 <= iovs,
        0 <= i <= n,
        iovs + 8 * n <= mem.len() <= 0x7fff_ffff,
        forall|j: int| i <= j < n ==> #[trigger] is_readable(mem, iovs, j),
        i <= k < n,
    ensures
        ({
            let (shown, end) = console_run(mem, true, iovs, n, i);
            let (p, len) = (u32_at(mem, iovs + 8 * k), u32_at(mem, iovs + 8 * k + 4));
            &&& end is Skip
            &&& shown.len() == n - i
            &&& shown[k - i] == mem.subrange(p, p + if len < 4096 { len } else { 4096 })
        }),
    decreases n - i,
{
    assert(is_readable(mem, iovs, i));
    writes_take_the_named_buffer(mem, iovs + 8 * i);
    reveal_with_fuel(console_run, 2);
    if i + 1 < n {
        console_shows_buffers_in_order(mem, iovs, n, i + 1, if k > i { k } else { i + 1 });
    }
}

/// An empty buffer is skipped; one that cannot be read ends the program before anything behind
/// it; and a descriptor that is not the console shows nothing.
pub proof fn console_stops_at_a_bad_buffer(mem: Seq<u8>, console: bool, iovs: int, n: int, i: int)
    requires
        0 <= i < n,
    ensures
        buffer_at(mem, iovs + 8 * i) is None ==> console_run(mem, console, iovs, n, i).0.len() == 0 && console_run(
            mem,
            console,
            iovs,
            n,
            i,
        ).1 is Exit,
        buffer_at(mem, iovs + 8 * i) matches Some(b) ==> {
            &&& b.1 == 0 ==> console_run(mem, console, iovs, n, i) == console_run(mem, console, iovs, n, i + 1)
            &&& b.1 != 0 && outgoing(mem, iovs + 8 * i) is None ==> console_run(mem, console, iovs, n, i).0.len() == 0
                && console_run(mem, console, iovs, n, i).1 is Exit
            &&& b.1 != 0 && outgoing(mem, iovs + 8 * i) is Some && !console ==> console_run(
                mem,
                console,
                iovs,
                n,
                i,
            ).0.len() == 0 && console_run(mem, console, iovs, n, i).1 is Badf
        },
        console_run(mem, console, iovs, n, n) == (Seq::<Seq<u8>>::empty(), ConsoleStep::Skip),
{
    let (rest, end) = console_run(mem, console, iovs, n, i + 1);
}

/// What was shown is counted byte by byte, and shown where it is a text.
pub proof fn shown_bytes_are_counted(s: Seq<Seq<u8>>, b: Seq<u8>)
    ensures
        total(Seq::empty()) == 0,
        total(s.push(b)) == total(s) + b.len(),
        legible(Seq::empty()) == Seq::<Seq<char>>::empty(),
        valid_utf8(b) ==> legible(s.push(b)) == legible(s).push(decode_utf8(b)),
        !valid_utf8(b) ==> legible(s.push(b)) == legible(s),
        is_console(Some(FdEntry::StdoutConsole)),
        !is_console(None),
        forall|f: u32| !is_console(Some(FdEntry::Vfs(f))),
{
    assert(s.push(b).drop_last() =~= s);
}

/// What a descriptor is told to be: 3 for a directory, 4 for a regular file, 2 for a device or the
/// console, 7 for a socket, and 0 where it is not known.
pub proof fn descriptors_tell_their_kind(f: u32, sock: usize, fd: i32, e: Option<FdEntry>, kind: Option<VfsKind>)
    requires
        fd != 3,
    ensures
        fd_filetype(e, 3, kind) == Some(3u8),
        fd_filetype(Some(FdEntry::Vfs(f)), fd, Some(VfsKind::Reg)) == Some(4u8),
        fd_filetype(Some(FdEntry::Vfs(f)), fd, Some(VfsKind::Dir)) == Some(3u8),
        fd_filetype(Some(FdEntry::Vfs(f)), fd, Some(VfsKind::Device)) == Some(2u8),
        fd_filetype(Some(FdEntry::Vfs(f)), fd, None) == Some(0u8),
        fd_filetype(Some(FdEntry::StdoutConsole), fd, kind) == Some(2u8),
        fd_filetype(Some(FdEntry::Socket(sock)), fd, kind) == Some(7u8),
        fd_filetype(None, fd, kind) is None,
{
}

/// The state of a descriptor: 24 bytes, its kind first, then zeros, and every right in the last
/// sixteen.
pub proof fn fdstat_is_laid_out(ft: u8, i: int)
    requires
        0 <= i < 24,
    ensures
        fdstat(ft).len() == 24,
        fdstat(ft)[0] == ft,
        1 <= i < 8 ==> fdstat(ft)[i] == 0,
        8 <= i ==> fdstat(ft)[i] == 255,
        prestat().len() == 8,
        u32_at(prestat(), 0) == 0,
        u32_at(prestat(), 4) == 1,
{
    let f = fdstat(ft);
    if 8 <= i < 16 {
        assert(f[i] == le64(u64::MAX)[i - 8]);
    } else if 16 <= i {
        assert(f[i] == le64(u64::MAX)[i - 16]);
    }
    assert(prestat().subrange(0, 4) =~= le32(0));
    assert(prestat().subrange(4, 8) =~= le32(1));
    le32_decodes(prestat(), 0, 0);
    le32_decodes(prestat(), 4, 1);
}

/// A subscription of 48 bytes to a clock is one whose kind, in two bytes at 8, is zero. Its tag
/// are the first eight bytes, how long it waits stands in eight bytes at 24, and whether that is a
/// point in time in the lowest bit at 40.
pub proof fn clock_subscriptions_are_laid_out(s: Seq<u8>, timeout: u64)
    requires
        s.len() == 48,
        s.subrange(24, 32) == le64(timeout),
    ensures
        s[8] == 0 && s[9] == 0 ==> clock_sub(s) == Some((s.subrange(0, 8), timeout as int, s[40] % 2 == 1)),
        s[8] != 0 || s[9] != 0 ==> clock_sub(s) is None,
{
    le64_decodes(s, 24, timeout);
    let v = s[40] + 256 * s[41];
    assert(v % 2 == s[40] % 2);
}

/// A wait for a length of time ends no sooner than that, in ticks of ten milliseconds, and less
/// than a tick later. One for a point in time ends in the tick of that point, and at once where
/// that is over.
pub proof fn waits_end_in_their_tick(now: u64, timeout_ns: u64)
    ensures
        ({
            let t = wake_tick(now, timeout_ns as int, false);
            &&& t >= now
            &&& t < u64::MAX ==> (t - now) * 10_000_000 >= timeout_ns
            &&& t < u64::MAX ==> (t - now) * 10_000_000 < timeout_ns + 10_000_000
        }),
        ({
            let t = wake_tick(now, timeout_ns as int, true);
            &&& t >= now
            &&& timeout_ns < now * 10_000_000 ==> t == now
            &&& timeout_ns >= now * 10_000_000 ==> t * 10_000_000 <= timeout_ns < (t + 1) * 10_000_000
        }),
{
}

proof fn lemma_gateway(s: Seq<Route>, n: int, i: int)
    requires
        0 <= i < n <= s.len(),
        s[i].prefix == 0,
        forall|j: int| i < j < n ==> (#[trigger] s[j]).prefix != 0,
    ensures
        gateway(s, n) == Some(s[i].via@),
    decreases n,
{
    if i < n - 1 {
        assert(s[n - 1].prefix != 0);
        lemma_gateway(s, n - 1, i);
    }
}

/// The gateway is that of the last route that leads everywhere; without such a route there is
/// none.
pub proof fn last_default_route_counts(s: Seq<Route>, i: int)
    ensures
        0 <= i < s.len() && s[i].prefix == 0 && (forall|j: int| i < j < s.len() ==> (#[trigger] s[j]).prefix != 0)
            ==> gateway(s, s.len() as int) == Some(s[i].via@),
        (forall|j: int| 0 <= j < s.len() ==> (#[trigger] s[j]).prefix != 0) ==> gateway(s, s.len() as int) is None,
{
    if 0 <= i < s.len() && s[i].prefix == 0 && (forall|j: int| i < j < s.len() ==> (#[trigger] s[j]).prefix != 0) {
        lemma_gateway(s, s.len() as int, i);
    }
    if forall|j: int| 0 <= j < s.len() ==> (#[trigger] s[j]).prefix != 0 {
        lemma_no_gateway(s, s.len() as int);
    }
}

proof fn lemma_no_gateway(s: Seq<Route>, n: int)
    requires
        0 <= n <= s.len(),
        forall|j: int| 0 <= j < n ==> (#[trigger] s[j]).prefix != 0,
    ensures
        gateway(s, n) is None,
    decreases n,
{
    if n > 0 {
        assert(s[n - 1].prefix != 0);
        lemma_no_gateway(s, n - 1);
    }
}

/// Every descriptor that stands for a socket counts once, and no other.
pub proof fn sockets_are_counted(fds: Seq<Option<FdEntry>>, e: Option<FdEntry>)
    ensures
        sockets(fds.push(e), fds.len() as int + 1) == sockets(fds, fds.len() as int) + if e matches Some(FdEntry::Socket(_)) {
            1nat
        } else {
            0
        },
        sockets(fds, 0) == 0,
{
    lemma_sockets_agree(fds.push(e), fds, fds.len() as int);
}

proof fn lemma_sockets_agree(a: Seq<Option<FdEntry>>, b: Seq<Option<FdEntry>>, n: int)
    requires
        forall|i: int| 0 <= i < n ==> #[trigger] a[i] == b[i],
    ensures
        sockets(a, n) == sockets(b, n),
    decreases n,
{
    if n > 0 {
        lemma_sockets_agree(a, b, n - 1);
        assert(a[n - 1] == b[n - 1]);
    }
}

proof fn lemma_in_turn(mem: Seq<u8>, ptrs: Seq<i32>, values: Seq<Seq<u8>>, n: int, k: int)
    requires
        0 <= k < n <= values.len(),
        ptrs.len() >= n,
        mem.len() <= 0x7fff_ffff,
        forall|i: int| 0 <= i < n ==> #[trigger] ptrs[i] >= 0 && ptrs[i] + values[i].len() <= mem.len(),
        forall|i: int, j: int| 0 <= i < j < n ==> #[trigger] ptrs[i] + values[i].len() <= #[trigger] ptrs[j] || ptrs[j]
            + values[j].len() <= ptrs[i],
    ensures
        in_turn(mem, ptrs, values, n).1 == 0,
        in_turn(mem, ptrs, values, n).0.len() == mem.len(),
        in_turn(mem, ptrs, values, n).0.subrange(ptrs[k] as int, ptrs[k] + values[k].len()) == values[k],
    decreases n,
{
    if n > 1 {
        lemma_in_turn(mem, ptrs, values, n - 1, if k < n - 1 { k } else { 0 });
    } else {
        assert(in_turn(mem, ptrs, values, 0) == (mem, 0i32));
    }
    let m = in_turn(mem, ptrs, values, n - 1).0;
    let p = ptrs[n - 1];
    let v = values[n - 1];
    guest_reads_back(m, p, v);
    if k < n - 1 {
        assert(ptrs[k] + values[k].len() <= ptrs[n - 1] || ptrs[n - 1] + values[n - 1].len() <= ptrs[k]);
        assert(written(m, p, v).subrange(ptrs[k] as int, ptrs[k] + values[k].len()) =~= m.subrange(
            ptrs[k] as int,
            ptrs[k] + values[k].len(),
        ));
    }
}

/// The fields of a time stand each at its place: the year in two bytes, the month, the day, the
/// hour, the minute and the second in one, and the seconds since 1970 in eight.
pub proof fn time_fields_stand_at_their_places(mem: Seq<u8>, ptrs: Seq<i32>, t: DateTime, epoch: u64)
    requires
        ptrs.len() == 7,
        mem.len() <= 0x7fff_ffff,
        forall|i: int| 0 <= i < 7 ==> #[trigger] ptrs[i] >= 0 && ptrs[i] + 8 <= mem.len(),
        forall|i: int, j: int| 0 <= i < j < 7 ==> #[trigger] ptrs[i] + 8 <= #[trigger] ptrs[j] || ptrs[j] + 8 <= ptrs[i],
    ensures
        ({
            let (m, errno) = in_turn(mem, ptrs, time_fields(t, epoch), 7);
            &&& errno == 0
            &&& u16_at(m, ptrs[0] as int) == t.year
            &&& m[ptrs[1] as int] == t.month
            &&& m[ptrs[2] as int] == t.day
            &&& m[ptrs[3] as int] == t.hour
            &&& m[ptrs[4] as int] == t.minute
            &&& m[ptrs[5] as int] == t.second
            &&& u64_at(m, ptrs[6] as int) == epoch
        }),
{
    let v = time_fields(t, epoch);
    let m = in_turn(mem, ptrs, v, 7).0;
    assert(forall|i: int| 0 <= i < 7 ==> #[trigger] v[i].len() <= 8);
    assert forall|i: int, j: int| 0 <= i < j < 7 implies #[trigger] ptrs[i] + v[i].len() <= #[trigger] ptrs[j] || ptrs[j]
        + v[j].len() <= ptrs[i] by {
        assert(v[i].len() <= 8 && v[j].len() <= 8);
    }
    assert forall|i: int| 0 <= i < 7 implies #[trigger] ptrs[i] >= 0 && ptrs[i] + v[i].len() <= mem.len() by {
        assert(v[i].len() <= 8);
    }
    assert forall|k: int| 0 <= k < 7 implies #[trigger] m.subrange(ptrs[k] as int, ptrs[k] + v[k].len()) == v[k] by {
        lemma_in_turn(mem, ptrs, v, 7, k);
    }
    lemma_in_turn(mem, ptrs, v, 7, 0);
    assert(m.subrange(ptrs[0] as int, ptrs[0] + v[0].len()) == v[0]);
    let y = m.subrange(ptrs[0] as int, ptrs[0] + 2);
    assert(y[0] == m[ptrs[0] as int] && y[1] == m[ptrs[0] + 1]);
    bytes_run_upwards(t.year, 0, 0, m, ptrs[0] as int);
    assert(m.subrange(ptrs[1] as int, ptrs[1] + v[1].len()) == v[1]);
    assert(m.subrange(ptrs[1] as int, ptrs[1] + 1)[0] == t.month);
    assert(m.subrange(ptrs[2] as int, ptrs[2] + v[2].len()) == v[2]);
    assert(m.subrange(ptrs[2] as int, ptrs[2] + 1)[0] == t.day);
    assert(m.subrange(ptrs[3] as int, ptrs[3] + v[3].len()) == v[3]);
    assert(m.subrange(ptrs[3] as int, ptrs[3] + 1)[0] == t.hour);
    assert(m.subrange(ptrs[4] as int, ptrs[4] + v[4].len()) == v[4]);
    assert(m.subrange(ptrs[4] as int, ptrs[4] + 1)[0] == t.minute);
    assert(m.subrange(ptrs[5] as int, ptrs[5] + v[5].len()) == v[5]);
    assert(m.subrange(ptrs[5] as int, ptrs[5] + 1)[0] == t.second);
    assert(m.subrange(ptrs[6] as int, ptrs[6] + v[6].len()) == v[6]);
    le64_decodes(m, ptrs[6] as int, epoch);
}

/// A list of arguments is read by its table: a count in the first four bytes, and then for each
/// argument its place and its length, in four bytes each. One argument that does not lie in the
/// byte string spoils the list.
pub proof fn argument_lists_go_by_their_table(b: Seq<u8>, n: int, k: int)
    requires
        b.len() >= 4,
        n == b[0] + 256 * b[1] + 65536 * b[2] + 16777216 * b[3],
        b.len() >= 4 + 8 * n,
        0 <= k < n,
    ensures
        (forall|i: int| #![trigger u32_at(b, 4 + 8 * i)] 0 <= i < n ==> u32_at(b, 4 + 8 * i) + u32_at(b, 4 + 8 * i + 4) <= b.len())
            ==> {
            &&& argv_of(b) matches Some(v)
            &&& v.len() == n
            &&& v[k] == b.subrange(u32_at(b, 4 + 8 * k), u32_at(b, 4 + 8 * k) + u32_at(b, 4 + 8 * k + 4))
        },
        u32_at(b, 4 + 8 * k) + u32_at(b, 4 + 8 * k + 4) > b.len() ==> argv_of(b) is None,
{
    assert(u32_at(b, 4 + 8 * k + 4) == u32_at(b, 8 + 8 * k));
    if u32_at(b, 4 + 8 * k) + u32_at(b, 4 + 8 * k + 4) > b.len() {
        assert(!crate::host::blob::arg_fits(b, k));
    }
    if forall|i: int| #![trigger u32_at(b, 4 + 8 * i)] 0 <= i < n ==> u32_at(b, 4 + 8 * i) + u32_at(b, 4 + 8 * i + 4) <= b.len() {
        assert forall|i: int| 0 <= i < n implies #[trigger] crate::host::blob::arg_fits(b, i) by {
            assert(u32_at(b, 4 + 8 * i) + u32_at(b, 4 + 8 * i + 4) <= b.len());
            assert(4 + 8 * i + 4 == 8 + 8 * i);
        }
    }
}

} // verus!
