//! Laws of how a waiting program goes on: what stands in its memory and in its table of
//! descriptors after the answer, said of the bytes and the places themselves.

use vstd::prelude::*;
use vstd::utf8::encode_utf8;
use crate::bytes::{bytes_run_upwards, le16, le32, le32_decodes, le64, le64_decodes, u16_at, u32_at, u64_at};
use crate::fiber::{
    is_answer, name_record, name_records, outcome, socket_fd, with_bytes, Answer, DirName, VfsError,
};
use crate::host::net::free_from;
use crate::host::state::FdEntry;
use crate::suspend::SuspendReason;
use crate::wasi::{clock_event, filestat, filestat_places, filetype, zeros, Stat};
use crate::wt::mem::{read_gives_back_write, stored};

verus! {

proof fn lemma_word(mem: Seq<u8>, ptr: u32, v: u32)
    requires
        ptr + 4 <= mem.len(),
    ensures
        u32_at(stored(mem, ptr, le32(v)), ptr as int) == v,
        stored(mem, ptr, le32(v)).len() == mem.len(),
{
    read_gives_back_write(mem, ptr, le32(v));
    le32_decodes(stored(mem, ptr, le32(v)), ptr as int, v);
}

proof fn lemma_kept(mem: Seq<u8>, ptr: u32, buf: Seq<u8>, at: int, n: int)
    requires
        0 <= at,
        0 <= n,
        at + n <= mem.len(),
        at + n <= ptr || ptr + buf.len() <= at,
    ensures
        stored(mem, ptr, buf).subrange(at, at + n) == mem.subrange(at, at + n),
{
    if ptr + buf.len() <= mem.len() {
        read_gives_back_write(mem, ptr, buf);
    }
    assert(stored(mem, ptr, buf).subrange(at, at + n) =~= mem.subrange(at, at + n));
}

/// Bytes that are written into a memory together with their number, at two places that do not
/// overlap, both stand there, and nothing else changes.
pub proof fn bytes_land_with_their_count(mem: Seq<u8>, buf_ptr: u32, b: Seq<u8>, n_ptr: u32, k: int)
    requires
        buf_ptr + b.len() <= mem.len(),
        n_ptr + 4 <= mem.len(),
        n_ptr + 4 <= buf_ptr || buf_ptr + b.len() <= n_ptr,
        b.len() <= u32::MAX,
        0 <= k < mem.len(),
    ensures
        with_bytes(mem, buf_ptr, b, n_ptr).len() == mem.len(),
        with_bytes(mem, buf_ptr, b, n_ptr).subrange(buf_ptr as int, buf_ptr + b.len()) == b,
        u32_at(with_bytes(mem, buf_ptr, b, n_ptr), n_ptr as int) == b.len(),
        !(buf_ptr <= k < buf_ptr + b.len()) && !(n_ptr <= k < n_ptr + 4) ==> with_bytes(mem, buf_ptr, b, n_ptr)[k]
            == mem[k],
{
    let m = stored(mem, buf_ptr, b);
    read_gives_back_write(mem, buf_ptr, b);
    lemma_word(m, n_ptr, b.len() as u32);
    lemma_kept(m, n_ptr, le32(b.len() as u32), buf_ptr as int, b.len() as int);
    read_gives_back_write(m, n_ptr, le32(b.len() as u32));
}

/// The bytes that a read brings stand in the program's buffer, all of them and in order, and
/// the program is told their number. No other byte of its memory changes, and no descriptor.
pub proof fn read_delivers(
    reason: SuspendReason,
    b: Vec<u8>,
    mem: Seq<u8>,
    fds: Seq<Option<FdEntry>>,
    buf_ptr: u32,
    n_ptr: u32,
    k: int,
)
    requires
        ({
            ||| reason matches SuspendReason::VfsRead { buf_ptr: p, nread_ptr: q, .. } && p == buf_ptr && q == n_ptr
            ||| reason matches SuspendReason::SockRecv { buf_ptr: p, nrecv_ptr: q, .. } && p == buf_ptr && q == n_ptr
        }),
        buf_ptr + b@.len() <= mem.len(),
        n_ptr + 4 <= mem.len(),
        n_ptr + 4 <= buf_ptr || buf_ptr + b@.len() <= n_ptr,
        b@.len() <= u32::MAX,
        0 <= k < mem.len(),
    ensures
        ({
            let (errno, now, table) = outcome(reason, Answer::Bytes(b), mem, fds);
            &&& errno == 0
            &&& now.len() == mem.len()
            &&& now.subrange(buf_ptr as int, buf_ptr + b@.len()) == b@
            &&& u32_at(now, n_ptr as int) == b@.len()
            &&& !(buf_ptr <= k < buf_ptr + b@.len()) && !(n_ptr <= k < n_ptr + 4) ==> now[k] == mem[k]
            &&& table == fds
        }),
{
    bytes_land_with_their_count(mem, buf_ptr, b@, n_ptr, k);
}

/// A write or a send tells the program how many bytes went out, and changes nothing else.
pub proof fn write_tells_the_count(
    reason: SuspendReason,
    n: u64,
    mem: Seq<u8>,
    fds: Seq<Option<FdEntry>>,
    n_ptr: u32,
    k: int,
)
    requires
        ({
            ||| reason matches SuspendReason::VfsWrite { nwritten_ptr: q, .. } && q == n_ptr
            ||| reason matches SuspendReason::SockSend { nsent_ptr: q, .. } && q == n_ptr
        }),
        n_ptr + 4 <= mem.len(),
        0 <= k < mem.len(),
    ensures
        ({
            let (errno, now, table) = outcome(reason, Answer::Count(n), mem, fds);
            &&& errno == 0
            &&& now.len() == mem.len()
            &&& n <= u32::MAX ==> u32_at(now, n_ptr as int) == n
            &&& !(n_ptr <= k < n_ptr + 4) ==> now[k] == mem[k]
            &&& table == fds
        }),
{
    lemma_word(mem, n_ptr, (n % 0x1_0000_0000) as u32);
    read_gives_back_write(mem, n_ptr, le32((n % 0x1_0000_0000) as u32));
}

/// A seek tells the program the new position, in eight bytes, and changes nothing else.
pub proof fn seek_tells_the_position(
    reason: SuspendReason,
    p: u64,
    mem: Seq<u8>,
    fds: Seq<Option<FdEntry>>,
    at: u32,
    k: int,
)
    requires
        reason matches SuspendReason::VfsSeek { newoffset_ptr, .. } && newoffset_ptr == at,
        at + 8 <= mem.len(),
        0 <= k < mem.len(),
    ensures
        ({
            let (errno, now, table) = outcome(reason, Answer::Position(p), mem, fds);
            &&& errno == 0
            &&& now.len() == mem.len()
            &&& u64_at(now, at as int) == p
            &&& !(at <= k < at + 8) ==> now[k] == mem[k]
            &&& table == fds
        }),
{
    read_gives_back_write(mem, at, le64(p));
    le64_decodes(stored(mem, at, le64(p)), at as int, p);
}

/// The first free descriptor: free, and none before it is.
pub proof fn free_is_the_first(fds: Seq<Option<FdEntry>>, from: int)
    requires
        0 <= from <= fds.len(),
    ensures
        from <= free_from(fds, from) <= fds.len(),
        free_from(fds, from) < fds.len() ==> fds[free_from(fds, from)] is None,
        forall|i: int| from <= i < free_from(fds, from) ==> #[trigger] fds[i] is Some,
    decreases fds.len() - from,
{
    if from < fds.len() && fds[from] is Some {
        free_is_the_first(fds, from + 1);
    }
}

/// A program that opens something is told a descriptor that was free, behind the first three and
/// before every other free one. That descriptor stands for what was opened, and all others stand
/// for what they did.
pub proof fn opening_takes_the_first_free_descriptor(
    reason: SuspendReason,
    answer: Answer,
    mem: Seq<u8>,
    fds: Seq<Option<FdEntry>>,
    at: u32,
    j: int,
)
    requires
        ({
            ||| reason matches SuspendReason::PathOpen { opened_fd_ptr, .. } && opened_fd_ptr == at && answer is Opened
            ||| reason matches SuspendReason::OpenDir { opened_fd_ptr, .. } && opened_fd_ptr == at && (
            answer matches Answer::Stat(s) && s.kind is Dir)
        }),
        at + 4 <= mem.len(),
        3 <= fds.len() <= u32::MAX,
        0 <= j < fds.len(),
    ensures
        ({
            let (errno, now, table) = outcome(reason, answer, mem, fds);
            let fd = u32_at(now, at as int);
            &&& errno == 0
            &&& 3 <= fd <= fds.len()
            &&& fd < fds.len() ==> fds[fd] is None
            &&& forall|i: int| 3 <= i < fd ==> #[trigger] fds[i] is Some
            &&& fd < table.len()
            &&& answer matches Answer::Opened(f) ==> table[fd] == Some(FdEntry::Vfs(f))
            &&& reason matches SuspendReason::OpenDir { path, .. } ==> table[fd] == Some(FdEntry::Dir(path))
            &&& j != fd ==> table[j] == fds[j]
            &&& table.len() == if fd < fds.len() { fds.len() } else { fds.len() + 1 }
            &&& now.len() == mem.len()
        }),
{
    free_is_the_first(fds, 3);
    lemma_word(mem, at, free_from(fds, 3) as u32);
}

/// A path that is no directory cannot be opened as one.
pub proof fn opening_no_directory_fails(path: String, at: u32, s: Stat, mem: Seq<u8>, fds: Seq<Option<FdEntry>>)
    requires
        !(s.kind is Dir),
    ensures
        outcome(SuspendReason::OpenDir { path, opened_fd_ptr: at }, Answer::Stat(s), mem, fds) == (54i32, mem, fds),
{
}

/// A program that ran others is told the code with which they ended, sign and all.
pub proof fn exec_tells_the_code(
    reason: SuspendReason,
    c: i32,
    mem: Seq<u8>,
    fds: Seq<Option<FdEntry>>,
    at: u32,
    k: int,
)
    requires
        ({
            ||| reason matches SuspendReason::Exec { exit_code_ptr, .. } && exit_code_ptr == at
            ||| reason matches SuspendReason::ExecPipeline { exit_code_ptr, .. } && exit_code_ptr == at
        }),
        at + 4 <= mem.len(),
        0 <= k < mem.len(),
    ensures
        ({
            let (errno, now, table) = outcome(reason, Answer::Code(c), mem, fds);
            &&& errno == 0
            &&& now.len() == mem.len()
            &&& u32_at(now, at as int) == c || u32_at(now, at as int) == c + 0x1_0000_0000
            &&& !(at <= k < at + 4) ==> now[k] == mem[k]
            &&& table == fds
        }),
{
    let v = crate::bytes::unsigned32(c) as u32;
    lemma_word(mem, at, v);
    read_gives_back_write(mem, at, le32(v));
}

/// What a program is told of a file: 64 bytes that are zero but for the kind of file, which
/// stands at 16 and is 4 for a regular file, 3 for a directory and 2 for a device, and for the
/// size in the eight bytes at 32.
pub proof fn filestat_tells_kind_and_size(
    path: String,
    at: u32,
    s: Stat,
    mem: Seq<u8>,
    fds: Seq<Option<FdEntry>>,
    k: int,
)
    requires
        at + 64 <= mem.len(),
        0 <= k < mem.len(),
    ensures
        ({
            let (errno, now, table) = outcome(
                SuspendReason::PathFilestat { path, buf_ptr: at },
                Answer::Stat(s),
                mem,
                fds,
            );
            &&& errno == 0
            &&& now.len() == mem.len()
            &&& s.kind is Reg ==> now[at + 16] == 4
            &&& s.kind is Dir ==> now[at + 16] == 3
            &&& s.kind is Device ==> now[at + 16] == 2
            &&& u64_at(now, at + 32) == s.size
            &&& at <= k < at + 64 && k != at + 16 && !(at + 32 <= k < at + 40) ==> now[k] == 0
            &&& !(at <= k < at + 64) ==> now[k] == mem[k]
            &&& table == fds
        }),
{
    let b = filestat(filetype(s.kind), s.size);
    filestat_places(filetype(s.kind), s.size);
    read_gives_back_write(mem, at, b);
    let now = stored(mem, at, b);
    assert(b =~= now.subrange(at as int, at + 64));
    assert forall|i: int| 0 <= i < 64 implies #[trigger] now[at + i] == b[i] by {
        assert(now.subrange(at as int, at + 64)[i] == now[at + i]);
    }
    assert(now.subrange(at + 32, at + 40) =~= le64(s.size)) by {
        assert forall|i: int| 0 <= i < 8 implies #[trigger] now[at + 32 + i] == le64(s.size)[i] by {
            assert(now[at + (32 + i)] == b[32 + i]);
        }
    }
    le64_decodes(now, at + 32, s.size);
    assert(now[at + 16] == b[16]);
    if at <= k < at + 64 {
        assert(now[at + (k - at)] == b[k - at]);
    }
}

/// A ping tells the program how many milliseconds the answer took.
pub proof fn ping_tells_the_latency(
    reason: SuspendReason,
    ms: u64,
    mem: Seq<u8>,
    fds: Seq<Option<FdEntry>>,
    at: u32,
    k: int,
)
    requires
        reason matches SuspendReason::Ping { latency_ms_ptr, .. } && latency_ms_ptr == at,
        at + 4 <= mem.len(),
        ms <= u32::MAX,
        0 <= k < mem.len(),
    ensures
        ({
            let (errno, now, table) = outcome(reason, Answer::Latency(ms), mem, fds);
            &&& errno == 0
            &&& now.len() == mem.len()
            &&& u32_at(now, at as int) == ms
            &&& !(at <= k < at + 4) ==> now[k] == mem[k]
            &&& table == fds
        }),
{
    let v = (ms % 0x1_0000_0000) as u32;
    assert(v == ms);
    lemma_word(mem, at, v);
    read_gives_back_write(mem, at, le32(v));
}

/// The end of a sleep is one event, 32 bytes of zeros, and its number.
pub proof fn sleep_ends_with_one_event(
    ticks: u64,
    events_ptr: u32,
    nevents_ptr: u32,
    mem: Seq<u8>,
    fds: Seq<Option<FdEntry>>,
    k: int,
)
    requires
        events_ptr + 32 <= mem.len(),
        nevents_ptr + 4 <= mem.len(),
        events_ptr + 32 <= nevents_ptr || nevents_ptr + 4 <= events_ptr,
        0 <= k < mem.len(),
    ensures
        ({
            let (errno, now, table) = outcome(
                SuspendReason::Sleep { ticks, events_ptr, nevents_ptr },
                Answer::Done,
                mem,
                fds,
            );
            &&& errno == 0
            &&& now.len() == mem.len()
            &&& u32_at(now, nevents_ptr as int) == 1
            &&& events_ptr <= k < events_ptr + 32 ==> now[k] == 0
            &&& !(events_ptr <= k < events_ptr + 32) && !(nevents_ptr <= k < nevents_ptr + 4) ==> now[k] == mem[k]
            &&& table == fds
        }),
{
    let e = clock_event(zeros(8));
    let m = stored(mem, events_ptr, e);
    read_gives_back_write(mem, events_ptr, e);
    lemma_word(m, nevents_ptr, 1);
    read_gives_back_write(m, nevents_ptr, le32(1));
    if events_ptr <= k < events_ptr + 32 {
        assert(m.subrange(events_ptr as int, events_ptr + 32)[k - events_ptr] == m[k]);
        assert(stored(m, nevents_ptr, le32(1))[k] == m[k]);
    }
}

proof fn lemma_socket(fds: Seq<Option<FdEntry>>, sock: usize, from: int, i: int)
    requires
        0 <= from <= i < fds.len(),
        fds[i] == Some(FdEntry::Socket(sock)),
        forall|j: int| from <= j < i ==> #[trigger] fds[j] != Some(FdEntry::Socket(sock)),
    ensures
        socket_fd(fds, sock, from) == i,
    decreases i - from,
{
    if from < i {
        assert(fds[from] != Some(FdEntry::Socket(sock)));
        lemma_socket(fds, sock, from + 1, i);
    }
}

/// A program that waited for a caller is told the descriptor that stands for the socket.
pub proof fn accept_tells_the_descriptor(
    sock: usize,
    at: u32,
    mem: Seq<u8>,
    fds: Seq<Option<FdEntry>>,
    i: int,
)
    requires
        0 <= i < fds.len() <= u32::MAX,
        fds[i] == Some(FdEntry::Socket(sock)),
        forall|j: int| 0 <= j < i ==> #[trigger] fds[j] != Some(FdEntry::Socket(sock)),
        at + 4 <= mem.len(),
    ensures
        ({
            let (errno, now, table) = outcome(
                SuspendReason::SockAccept { sock, new_fd_ptr: at },
                Answer::Done,
                mem,
                fds,
            );
            &&& errno == 0
            &&& u32_at(now, at as int) == i
            &&& table == fds
        }),
{
    lemma_socket(fds, sock, 0, i);
    lemma_word(mem, at, i as u32);
}

/// The record of one name of a directory: the kind, which is 0 for a regular file, 1 for a
/// directory and 2 for a device; a zero; the length of the name in two bytes; the size of the
/// file in eight; and then the name.
pub proof fn name_record_is_laid_out(d: DirName)
    requires
        encode_utf8(d.name@).len() <= u16::MAX,
    ensures
        ({
            let r = name_record(d);
            let b = encode_utf8(d.name@);
            &&& r.len() == 12 + b.len()
            &&& d.kind is Reg ==> r[0] == 0
            &&& d.kind is Dir ==> r[0] == 1
            &&& d.kind is Device ==> r[0] == 2
            &&& r[1] == 0
            &&& u16_at(r, 2) == b.len()
            &&& u64_at(r, 4) == d.size
            &&& r.subrange(12, r.len() as int) == b
        }),
{
    let r = name_record(d);
    let b = encode_utf8(d.name@);
    bytes_run_upwards(b.len() as u16, 0, d.size, r, 0);
    assert(r[2] == le16(b.len() as u16)[0] && r[3] == le16(b.len() as u16)[1]);
    assert(r.subrange(4, 12) =~= le64(d.size));
    le64_decodes(r, 4, d.size);
    assert(r.subrange(12, r.len() as int) =~= b);
}

/// The names of a directory are listed in their order: the records of the first ones come before
/// those of the others. A name that is too long for its record is left out, and every other one
/// is there.
pub proof fn names_are_listed_in_order(v: Seq<DirName>, n: int)
    requires
        0 < n <= v.len(),
    ensures
        name_records(v, 0) == Seq::<u8>::empty(),
        encode_utf8(v[n - 1].name@).len() <= 65535 ==> name_records(v, n) == name_records(v, n - 1) + name_record(
            v[n - 1],
        ),
        encode_utf8(v[n - 1].name@).len() > 65535 ==> name_records(v, n) == name_records(v, n - 1),
{
}

/// A program that lists a directory gets the records as far as its buffer goes, and is told how
/// many bytes that is.
pub proof fn readdir_fills_the_buffer(
    reason: SuspendReason,
    v: Vec<DirName>,
    mem: Seq<u8>,
    fds: Seq<Option<FdEntry>>,
    buf_ptr: u32,
    buf_len: u64,
    n_ptr: u32,
)
    requires
        reason matches SuspendReason::ReadDir { buf_ptr: p, buf_len: l, nread_ptr: q, .. } && p == buf_ptr && l
            == buf_len && q == n_ptr,
        buf_ptr + buf_len <= mem.len() <= u32::MAX,
        n_ptr + 4 <= mem.len(),
        n_ptr + 4 <= buf_ptr || buf_ptr + buf_len <= n_ptr,
    ensures
        ({
            let (errno, now, table) = outcome(reason, Answer::Names(v), mem, fds);
            let all = name_records(v@, v@.len() as int);
            let n = u32_at(now, n_ptr as int);
            &&& errno == 0
            &&& n <= buf_len && n <= all.len()
            &&& n == buf_len || n == all.len()
            &&& now.subrange(buf_ptr as int, buf_ptr + n) == all.subrange(0, n)
            &&& table == fds
        }),
{
    let all = name_records(v@, v@.len() as int);
    let n = if all.len() < buf_len { all.len() as int } else { buf_len as int };
    assert(all.take(n) =~= all.subrange(0, n));
    bytes_land_with_their_count(mem, buf_ptr, all.take(n), n_ptr, 0);
}

/// A directory that cannot be listed gives no bytes.
pub proof fn failed_readdir_gives_nothing(
    reason: SuspendReason,
    e: VfsError,
    mem: Seq<u8>,
    fds: Seq<Option<FdEntry>>,
    n_ptr: u32,
    k: int,
)
    requires
        reason matches SuspendReason::ReadDir { nread_ptr: q, .. } && q == n_ptr,
        n_ptr + 4 <= mem.len(),
        0 <= k < mem.len(),
    ensures
        ({
            let (errno, now, table) = outcome(reason, Answer::Failed(e), mem, fds);
            &&& errno == 44
            &&& u32_at(now, n_ptr as int) == 0
            &&& !(n_ptr <= k < n_ptr + 4) ==> now[k] == mem[k]
            &&& table == fds
        }),
{
    lemma_word(mem, n_ptr, 0);
    read_gives_back_write(mem, n_ptr, le32(0));
}

/// A call that failed leaves the memory and the descriptors alone, and the program goes on with
/// the errno of what failed: 44 for what is not there, 20 for what is there already, 31 for what
/// is a directory, 54 for what is none, 55 for a directory that is not empty, 28 for what makes
/// no sense, and 8 where nothing better is known.
pub proof fn failures_change_nothing(
    reason: SuspendReason,
    e: VfsError,
    mem: Seq<u8>,
    fds: Seq<Option<FdEntry>>,
)
    requires
        is_answer(reason, Answer::Failed(e)),
        !(reason is ReadDir),
        !(reason is VfsClose),
    ensures
        outcome(reason, Answer::Failed(e), mem, fds).1 == mem,
        outcome(reason, Answer::Failed(e), mem, fds).2 == fds,
        outcome(reason, Answer::Failed(e), mem, fds).0 == match reason {
            SuspendReason::PathOpen { .. } | SuspendReason::OpenDir { .. } | SuspendReason::PathFilestat { .. } => 44int,
            SuspendReason::Ping { .. } => 110,
            SuspendReason::PathUnlink { .. } => if e is NotFound {
                44
            } else if e is IsDirectory {
                31
            } else {
                8
            },
            SuspendReason::PathMkdir { .. } => if e is NotFound {
                44
            } else if e is AlreadyExists {
                20
            } else if e is NotDirectory {
                54
            } else {
                8
            },
            SuspendReason::PathRmdir { .. } => if e is NotFound {
                44
            } else if e is NotDirectory {
                54
            } else if e is NotPermitted {
                55
            } else {
                8
            },
            SuspendReason::PathRename { .. } => if e is NotFound {
                44
            } else if e is AlreadyExists {
                20
            } else if e is NotDirectory {
                54
            } else if e is Invalid {
                28
            } else {
                8
            },
            _ => 8,
        },
{
}

/// A call that only had to happen leaves the memory and the descriptors alone.
pub proof fn success_without_a_result(reason: SuspendReason, mem: Seq<u8>, fds: Seq<Option<FdEntry>>)
    requires
        reason is SockConnect || reason is VfsClose || reason is PathUnlink || reason is PathMkdir || reason is PathRmdir
            || reason is PathRename,
    ensures
        outcome(reason, Answer::Done, mem, fds) == (0i32, mem, fds),
{
}

} // verus!
