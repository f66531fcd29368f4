//! How a waiting program goes on.
//!
//! An interpreted program runs until it ends or has to wait. What it waits for is done
//! outside; the answer decides what is written into the program's memory, which descriptor
//! it gets, and with which errno it goes on.

use vstd::prelude::*;
use vstd::utf8::encode_utf8;
use crate::answers::bytes_land_with_their_count;
use crate::bytes::{bits32, contents, le16, le32, le64, push_all, push_u16, push_u64, unsigned32};
use crate::host::net::{free_from, place_entry};
use crate::host::reply::{first_bytes, tell_len, told_len};
use crate::host::state::{entry, opened, FdEntry, RuntimeState};
use crate::suspend::{SuspendReason, TRAP};
use crate::text::same;
use crate::wasi::{clock_event, encode_clock_event, encode_filestat, filestat, filetype, kind_to_filetype, zeros, Stat, VfsKind};
use crate::wt::mem::{stored, write_u32};

verus! {

/// Why the file system refused.
#[derive(Clone, Copy, PartialEq, Eq, Structural, Debug)]
pub enum VfsError {
    NotFound,
    IsDirectory,
    NotDirectory,
    AlreadyExists,
    NotPermitted,
    Invalid,
    Other,
}

/// A name in a directory.
pub struct DirName {
    pub name: String,
    pub kind: VfsKind,
    pub size: u64,
}

/// What became of what a program waited for.
pub enum Answer {
    /// It happened.
    Done,
    /// It failed.
    Failed(VfsError),
    /// These bytes came.
    Bytes(Vec<u8>),
    /// So many bytes went out.
    Count(u64),
    /// The position in the file.
    Position(u64),
    /// The file is open, by its number in the file system.
    Opened(u32),
    /// The other program ended with this code.
    Code(i32),
    /// What the file is.
    Stat(Stat),
    /// The milliseconds that an answer took.
    Latency(u64),
    /// The names in the directory.
    Names(Vec<DirName>),
}

/// Whether an answer is one to this wait.
pub open spec fn is_answer(reason: SuspendReason, answer: Answer) -> bool {
    match reason {
        SuspendReason::Sleep { .. } => answer is Done,
        SuspendReason::VfsClose { .. } | SuspendReason::SockAccept { .. } | SuspendReason::SockConnect { .. }
        | SuspendReason::PathUnlink { .. } | SuspendReason::PathMkdir { .. } | SuspendReason::PathRmdir { .. }
        | SuspendReason::PathRename { .. } => answer is Done || answer is Failed,
        SuspendReason::SockRecv { .. } | SuspendReason::VfsRead { .. } => answer is Bytes || answer is Failed,
        SuspendReason::SockSend { .. } | SuspendReason::VfsWrite { .. } => answer is Count || answer is Failed,
        SuspendReason::VfsSeek { .. } => answer is Position || answer is Failed,
        SuspendReason::PathOpen { .. } => answer is Opened || answer is Failed,
        SuspendReason::OpenDir { .. } | SuspendReason::PathFilestat { .. } => answer is Stat || answer is Failed,
        SuspendReason::Exec { .. } | SuspendReason::ExecPipeline { .. } => answer is Code,
        SuspendReason::Ping { .. } => answer is Latency || answer is Failed,
        SuspendReason::ReadDir { .. } => answer is Names || answer is Failed,
    }
}

/// The descriptor of a socket: the first that stands for it, and 0 where none does.
pub open spec fn socket_fd(fds: Seq<Option<FdEntry>>, sock: usize, from: int) -> int
    decreases fds.len() - from,
{
    if from >= fds.len() {
        0
    } else if fds[from] matches Some(FdEntry::Socket(s)) && s == sock {
        from
    } else {
        socket_fd(fds, sock, from + 1)
    }
}

/// The number of a kind of file in a list of names.
pub open spec fn name_kind(k: VfsKind) -> u8 {
    match k {
        VfsKind::Reg => 0,
        VfsKind::Dir => 1,
        VfsKind::Device => 2,
    }
}

/// The record of a name: its kind, the name's length, the file's size, and the name.
pub open spec fn name_record(d: DirName) -> Seq<u8> {
    let b = encode_utf8(d.name@);
    seq![name_kind(d.kind), 0u8] + le16(b.len() as u16) + le64(d.size) + b
}

/// The records of the first `n` names. A name too long for its record is left out.
pub open spec fn name_records(s: Seq<DirName>, n: int) -> Seq<u8>
    decreases n,
{
    if n <= 0 {
        Seq::empty()
    } else if encode_utf8(s[n - 1].name@).len() > u16::MAX {
        name_records(s, n - 1)
    } else {
        name_records(s, n - 1) + name_record(s[n - 1])
    }
}

/// The descriptors with one more, at the first free place behind the first three.
pub open spec fn with_entry(fds: Seq<Option<FdEntry>>, e: FdEntry) -> Seq<Option<FdEntry>> {
    let i = free_from(fds, 3);
    if i < fds.len() { fds.update(i, Some(e)) } else { fds.push(Some(e)) }
}

/// The errno of a call that names a file, by what failed.
pub open spec fn unlink_errno(e: VfsError) -> i32 {
    match e {
        VfsError::NotFound => 44,
        VfsError::IsDirectory => 31,
        _ => 8,
    }
}

/// The errno of making a directory.
pub open spec fn mkdir_errno(e: VfsError) -> i32 {
    match e {
        VfsError::AlreadyExists => 20,
        VfsError::NotFound => 44,
        VfsError::NotDirectory => 54,
        _ => 8,
    }
}

/// The errno of removing a directory.
pub open spec fn rmdir_errno(e: VfsError) -> i32 {
    match e {
        VfsError::NotFound => 44,
        VfsError::NotDirectory => 54,
        VfsError::NotPermitted => 55,
        _ => 8,
    }
}

/// The errno of renaming.
pub open spec fn rename_errno(e: VfsError) -> i32 {
    match e {
        VfsError::NotFound => 44,
        VfsError::AlreadyExists => 20,
        VfsError::NotDirectory => 54,
        VfsError::Invalid => 28,
        _ => 8,
    }
}

/// The memory after `b` and its length were written.
pub open spec fn with_bytes(mem: Seq<u8>, buf_ptr: u32, b: Seq<u8>, n_ptr: u32) -> Seq<u8> {
    stored(stored(mem, buf_ptr, b), n_ptr, le32(told_len(b.len())))
}

/// The memory after a number was written in four bytes.
pub open spec fn with_number(mem: Seq<u8>, ptr: u32, n: u64) -> Seq<u8> {
    stored(mem, ptr, le32((n % 0x1_0000_0000) as u32))
}

/// The errno with which a program goes on, its memory, and its descriptors. What cannot be
/// written is not written.
pub open spec fn outcome(
    reason: SuspendReason,
    answer: Answer,
    mem: Seq<u8>,
    fds: Seq<Option<FdEntry>>,
) -> (i32, Seq<u8>, Seq<Option<FdEntry>>) {
    match (reason, answer) {
        (SuspendReason::Sleep { ticks, events_ptr, nevents_ptr }, _) => (
            0,
            stored(stored(mem, events_ptr, clock_event(zeros(8))), nevents_ptr, le32(1)),
            fds,
        ),
        (SuspendReason::SockAccept { sock, new_fd_ptr }, Answer::Done) => (
            0,
            stored(mem, new_fd_ptr, le32(socket_fd(fds, sock, 0) as u32)),
            fds,
        ),
        (SuspendReason::SockConnect { .. }, Answer::Done) => (0, mem, fds),
        (SuspendReason::SockRecv { sock, buf_ptr, max_len, nrecv_ptr }, Answer::Bytes(b)) => (
            0,
            with_bytes(mem, buf_ptr, b@, nrecv_ptr),
            fds,
        ),
        (SuspendReason::VfsRead { fd, buf_ptr, max_len, nread_ptr }, Answer::Bytes(b)) => (
            0,
            with_bytes(mem, buf_ptr, b@, nread_ptr),
            fds,
        ),
        (SuspendReason::SockSend { sock, bytes, nsent_ptr }, Answer::Count(n)) => (
            0,
            with_number(mem, nsent_ptr, n),
            fds,
        ),
        (SuspendReason::VfsWrite { fd, bytes, nwritten_ptr }, Answer::Count(n)) => (
            0,
            with_number(mem, nwritten_ptr, n),
            fds,
        ),
        (SuspendReason::VfsSeek { fd, offset, whence, newoffset_ptr }, Answer::Position(p)) => (
            0,
            stored(mem, newoffset_ptr, le64(p)),
            fds,
        ),
        (SuspendReason::VfsClose { .. }, _) => (0, mem, fds),
        (SuspendReason::PathOpen { path, flags, opened_fd_ptr }, Answer::Opened(f)) => (
            0,
            stored(mem, opened_fd_ptr, le32(free_from(fds, 3) as u32)),
            with_entry(fds, FdEntry::Vfs(f)),
        ),
        (SuspendReason::PathOpen { .. }, _) => (44, mem, fds),
        (SuspendReason::OpenDir { path, opened_fd_ptr }, Answer::Stat(s)) => if s.kind == VfsKind::Dir {
            (
                0,
                stored(mem, opened_fd_ptr, le32(free_from(fds, 3) as u32)),
                with_entry(fds, FdEntry::Dir(path)),
            )
        } else {
            (54, mem, fds)
        },
        (SuspendReason::OpenDir { .. }, _) => (44, mem, fds),
        (SuspendReason::Exec { path, argv, cwd, term_pts, exit_code_ptr }, Answer::Code(c)) => (
            0,
            stored(mem, exit_code_ptr, le32(unsigned32(c) as u32)),
            fds,
        ),
        (SuspendReason::ExecPipeline { stages, cwd, term_pts, exit_code_ptr }, Answer::Code(c)) => (
            0,
            stored(mem, exit_code_ptr, le32(unsigned32(c) as u32)),
            fds,
        ),
        (SuspendReason::PathUnlink { .. }, Answer::Failed(e)) => (unlink_errno(e), mem, fds),
        (SuspendReason::PathMkdir { .. }, Answer::Failed(e)) => (mkdir_errno(e), mem, fds),
        (SuspendReason::PathRmdir { .. }, Answer::Failed(e)) => (rmdir_errno(e), mem, fds),
        (SuspendReason::PathRename { .. }, Answer::Failed(e)) => (rename_errno(e), mem, fds),
        (SuspendReason::PathUnlink { .. }, _) => (0, mem, fds),
        (SuspendReason::PathMkdir { .. }, _) => (0, mem, fds),
        (SuspendReason::PathRmdir { .. }, _) => (0, mem, fds),
        (SuspendReason::PathRename { .. }, _) => (0, mem, fds),
        (SuspendReason::PathFilestat { path, buf_ptr }, Answer::Stat(s)) => (
            0,
            stored(mem, buf_ptr, filestat(filetype(s.kind), s.size)),
            fds,
        ),
        (SuspendReason::PathFilestat { .. }, _) => (44, mem, fds),
        (SuspendReason::Ping { target, timeout_ticks, latency_ms_ptr }, Answer::Latency(ms)) => (
            0,
            with_number(mem, latency_ms_ptr, ms),
            fds,
        ),
        (SuspendReason::Ping { .. }, _) => (110, mem, fds),
        (SuspendReason::ReadDir { path, buf_ptr, buf_len, nread_ptr }, Answer::Names(v)) => {
            let all = name_records(v@, v@.len() as int);
            let n = if all.len() < buf_len { all.len() as int } else { buf_len as int };
            (0, with_bytes(mem, buf_ptr, all.take(n), nread_ptr), fds)
        },
        (SuspendReason::ReadDir { path, buf_ptr, buf_len, nread_ptr }, _) => (
            44,
            stored(mem, nread_ptr, le32(0)),
            fds,
        ),
        _ => (8, mem, fds),
    }
}

fn find_socket(st: &RuntimeState, sock: usize) -> (r: u32)
    requires
        st.fds@.len() <= u32::MAX,
    ensures
        r == socket_fd(st.fds@, sock, 0),
{
    let mut i: usize = 0;
    while i < st.fds.len()
        invariant
            i <= st.fds@.len() <= u32::MAX,
            socket_fd(st.fds@, sock, i as int) == socket_fd(st.fds@, sock, 0),
        decreases st.fds@.len() - i,
    {
        if let Some(FdEntry::Socket(s)) = &st.fds[i] {
            if *s == sock {
                return i as u32;
            }
        }
        i += 1;
    }
    0
}

fn encode_names(s: &Vec<DirName>) -> (r: Vec<u8>)
    ensures
        r@ == name_records(s@, s@.len() as int),
{
    let mut out: Vec<u8> = Vec::new();
    let mut i: usize = 0;
    while i < s.len()
        invariant
            i <= s@.len(),
            out@ == name_records(s@, i as int),
        decreases s@.len() - i,
    {
        let d = &s[i];
        let b = d.name.as_str().as_bytes();
        if b.len() <= u16::MAX as usize {
            let ghost was = out@;
            out.push(
                match d.kind {
                    VfsKind::Reg => 0,
                    VfsKind::Dir => 1,
                    VfsKind::Device => 2,
                },
            );
            out.push(0);
            push_u16(&mut out, b.len() as u16);
            push_u64(&mut out, d.size);
            push_all(&mut out, b);
            assert(out@ =~= was + name_record(*d));
        }
        i += 1;
    }
    out
}

fn write_bytes(mem: &mut [u8], buf_ptr: u32, b: &[u8], n_ptr: u32)
    ensures
        final(mem)@ == with_bytes(old(mem)@, buf_ptr, b@, n_ptr),
{
    crate::wt::mem::write(mem, buf_ptr, b);
    write_u32(mem, n_ptr, tell_len(b.len()));
}

fn write_number(mem: &mut [u8], ptr: u32, n: u64)
    ensures
        final(mem)@ == with_number(old(mem)@, ptr, n),
{
    write_u32(mem, ptr, (n % 0x1_0000_0000) as u32);
}

fn write_names(mem: &mut [u8], buf_ptr: u32, buf_len: u64, n_ptr: u32, v: &Vec<DirName>)
    ensures
        ({
            let all = name_records(v@, v@.len() as int);
            let n = if all.len() < buf_len { all.len() as int } else { buf_len as int };
            final(mem)@ == with_bytes(old(mem)@, buf_ptr, all.take(n), n_ptr)
        }),
{
    let all: Vec<u8> = encode_names(v);
    let n: usize = if (all.len() as u64) < buf_len { all.len() } else { buf_len as usize };
    let part: Vec<u8> = first_bytes(all.as_slice(), n);
    write_bytes(mem, buf_ptr, part.as_slice(), n_ptr);
}

/// Puts an entry at the first free place behind the first three descriptors, and tells the
/// program which.
fn give_fd(st: &mut RuntimeState, mem: &mut [u8], e: FdEntry, ptr: u32)
    requires
        old(st).fds@.len() <= u32::MAX,
    ensures
        final(mem)@ == stored(old(mem)@, ptr, le32(free_from(old(st).fds@, 3) as u32)),
        final(st).fds@ == with_entry(old(st).fds@, e),
        *final(st) == (RuntimeState { fds: final(st).fds, ..*old(st) }),
{
    let fd: usize = place_entry(st, 3, e);
    write_u32(mem, ptr, fd as u32);
}

/// The errno of a failed call that names a file.
fn path_errno(reason: &SuspendReason, e: VfsError) -> (r: i32)
    requires
        reason is PathUnlink || reason is PathMkdir || reason is PathRmdir || reason is PathRename,
    ensures
        r == match *reason {
            SuspendReason::PathUnlink { .. } => unlink_errno(e),
            SuspendReason::PathMkdir { .. } => mkdir_errno(e),
            SuspendReason::PathRmdir { .. } => rmdir_errno(e),
            _ => rename_errno(e),
        },
{
    match reason {
        SuspendReason::PathUnlink { .. } => match e {
            VfsError::NotFound => 44,
            VfsError::IsDirectory => 31,
            _ => 8,
        },
        SuspendReason::PathMkdir { .. } => match e {
            VfsError::AlreadyExists => 20,
            VfsError::NotFound => 44,
            VfsError::NotDirectory => 54,
            _ => 8,
        },
        SuspendReason::PathRmdir { .. } => match e {
            VfsError::NotFound => 44,
            VfsError::NotDirectory => 54,
            VfsError::NotPermitted => 55,
            _ => 8,
        },
        _ => match e {
            VfsError::NotFound => 44,
            VfsError::AlreadyExists => 20,
            VfsError::NotDirectory => 54,
            VfsError::Invalid => 28,
            _ => 8,
        },
    }
}

/// Takes the answer to a wait, and returns the errno with which the program goes on.
pub fn dispatch(st: &mut RuntimeState, mem: &mut [u8], reason: SuspendReason, answer: Answer) -> (r: i32)
    requires
        is_answer(reason, answer),
        old(st).fds@.len() <= u32::MAX,
    ensures
        (r, final(mem)@, final(st).fds@) == outcome(reason, answer, old(mem)@, old(st).fds@),
        *final(st) == (RuntimeState { fds: final(st).fds, ..*old(st) }),
        final(mem)@.len() == old(mem)@.len(),
        reason matches SuspendReason::VfsRead { buf_ptr, nread_ptr, .. } ==> answer matches Answer::Bytes(b) ==> {
            let m = final(mem)@;
            let n = nread_ptr as int;
            &&& r == 0
            &&& final(st).fds@ == old(st).fds@
            &&& buf_ptr + b@.len() <= m.len() && n + 4 <= m.len() && b@.len() <= u32::MAX && (n + 4 <= buf_ptr || buf_ptr
                + b@.len() <= n) ==> {
                &&& m.subrange(buf_ptr as int, buf_ptr + b@.len()) == b@
                &&& m[n] + 256 * m[n + 1] + 65536 * m[n + 2] + 16777216 * m[n + 3] == b@.len()
            }
        },
        reason matches SuspendReason::SockRecv { buf_ptr, nrecv_ptr, .. } ==> answer matches Answer::Bytes(b) ==> {
            let m = final(mem)@;
            let n = nrecv_ptr as int;
            &&& r == 0
            &&& final(st).fds@ == old(st).fds@
            &&& buf_ptr + b@.len() <= m.len() && n + 4 <= m.len() && b@.len() <= u32::MAX && (n + 4 <= buf_ptr || buf_ptr
                + b@.len() <= n) ==> {
                &&& m.subrange(buf_ptr as int, buf_ptr + b@.len()) == b@
                &&& m[n] + 256 * m[n + 1] + 65536 * m[n + 2] + 16777216 * m[n + 3] == b@.len()
            }
        },
{
    match (reason, answer) {
        (SuspendReason::Sleep { ticks: _, events_ptr, nevents_ptr }, _) => {
            let tag: Vec<u8> = vec![0u8, 0, 0, 0, 0, 0, 0, 0];
            assert(tag@ =~= zeros(8));
            let e: Vec<u8> = encode_clock_event(tag.as_slice());
            crate::wt::mem::write(mem, events_ptr, e.as_slice());
            write_u32(mem, nevents_ptr, 1);
            0
        },
        (SuspendReason::SockAccept { sock, new_fd_ptr }, Answer::Done) => {
            let fd: u32 = find_socket(st, sock);
            write_u32(mem, new_fd_ptr, fd);
            0
        },
        (SuspendReason::SockConnect { .. }, Answer::Done) => 0,
        (SuspendReason::SockRecv { sock: _, buf_ptr, max_len: _, nrecv_ptr }, Answer::Bytes(b)) => {
            write_bytes(mem, buf_ptr, b.as_slice(), nrecv_ptr);
            proof {
                let (m, n) = (old(mem)@, nrecv_ptr as int);
                if buf_ptr + b@.len() <= m.len() && n + 4 <= m.len() && b@.len() <= u32::MAX && (n + 4 <= buf_ptr
                    || buf_ptr + b@.len() <= n) {
                    bytes_land_with_their_count(m, buf_ptr, b@, nrecv_ptr, n);
                }
            }
            0
        },
        (SuspendReason::VfsRead { fd: _, buf_ptr, max_len: _, nread_ptr }, Answer::Bytes(b)) => {
            write_bytes(mem, buf_ptr, b.as_slice(), nread_ptr);
            proof {
                let (m, n) = (old(mem)@, nread_ptr as int);
                if buf_ptr + b@.len() <= m.len() && n + 4 <= m.len() && b@.len() <= u32::MAX && (n + 4 <= buf_ptr
                    || buf_ptr + b@.len() <= n) {
                    bytes_land_with_their_count(m, buf_ptr, b@, nread_ptr, n);
                }
            }
            0
        },
        (SuspendReason::SockSend { sock: _, bytes: _, nsent_ptr }, Answer::Count(n)) => {
            write_number(mem, nsent_ptr, n);
            0
        },
        (SuspendReason::VfsWrite { fd: _, bytes: _, nwritten_ptr }, Answer::Count(n)) => {
            write_number(mem, nwritten_ptr, n);
            0
        },
        (SuspendReason::VfsSeek { fd: _, offset: _, whence: _, newoffset_ptr }, Answer::Position(p)) => {
            let mut b: Vec<u8> = Vec::new();
            push_u64(&mut b, p);
            assert(b@ =~= le64(p));
            crate::wt::mem::write(mem, newoffset_ptr, b.as_slice());
            0
        },
        (SuspendReason::VfsClose { .. }, _) => 0,
        (SuspendReason::PathOpen { path: _, flags: _, opened_fd_ptr }, Answer::Opened(f)) => {
            give_fd(st, mem, FdEntry::Vfs(f), opened_fd_ptr);
            0
        },
        (SuspendReason::PathOpen { .. }, _) => 44,
        (SuspendReason::OpenDir { path, opened_fd_ptr }, Answer::Stat(s)) => {
            if s.kind == VfsKind::Dir {
                give_fd(st, mem, FdEntry::Dir(path), opened_fd_ptr);
                0
            } else {
                54
            }
        },
        (SuspendReason::OpenDir { .. }, _) => 44,
        (SuspendReason::Exec { path: _, argv: _, cwd: _, term_pts: _, exit_code_ptr }, Answer::Code(c)) => {
            write_u32(mem, exit_code_ptr, bits32(c));
            0
        },
        (SuspendReason::ExecPipeline { stages: _, cwd: _, term_pts: _, exit_code_ptr }, Answer::Code(c)) => {
            write_u32(mem, exit_code_ptr, bits32(c));
            0
        },
        (SuspendReason::PathFilestat { path: _, buf_ptr }, Answer::Stat(s)) => {
            let b: Vec<u8> = encode_filestat(kind_to_filetype(s.kind), s.size);
            crate::wt::mem::write(mem, buf_ptr, b.as_slice());
            0
        },
        (SuspendReason::PathFilestat { .. }, _) => 44,
        (SuspendReason::Ping { target: _, timeout_ticks: _, latency_ms_ptr }, Answer::Latency(ms)) => {
            write_number(mem, latency_ms_ptr, ms);
            0
        },
        (SuspendReason::Ping { .. }, _) => 110,
        (SuspendReason::ReadDir { path: _, buf_ptr, buf_len, nread_ptr }, Answer::Names(v)) => {
            write_names(mem, buf_ptr, buf_len, nread_ptr, &v);
            0
        },
        (SuspendReason::ReadDir { path: _, buf_ptr: _, buf_len: _, nread_ptr }, _) => {
            write_u32(mem, nread_ptr, 0);
            44
        },
        (why, Answer::Failed(e)) => match &why {
            SuspendReason::PathUnlink { .. } | SuspendReason::PathMkdir { .. } | SuspendReason::PathRmdir { .. }
            | SuspendReason::PathRename { .. } => path_errno(&why, e),
            _ => 8,
        },
        (_, _) => 0,
    }
}

/// How many instructions a program may run. Every call into the system gives it as many anew,
/// so that only a program that computes for too long comes to an end.
pub const FUEL: u64 = 2_000_000_000;

/// The code of a program that was killed.
pub const KILLED: i32 = 137;

/// Where a program stands after it ran for a while.
pub enum Progress {
    /// It has no entry.
    NoStart,
    /// It ended.
    Finished,
    /// It waits.
    Suspended,
    /// It was stopped: with a code where it asked for that.
    Stopped(Option<i32>),
    /// It ran `FUEL` instructions without a call into the system.
    OutOfFuel,
}

/// The code of a program that does not go on.
pub open spec fn exit_code(p: Progress) -> Option<i32> {
    match p {
        Progress::Finished => Some(0),
        Progress::Stopped(Some(c)) => Some(c),
        Progress::Suspended => None,
        Progress::OutOfFuel => Some(KILLED),
        _ => Some(TRAP),
    }
}

/// Whether a program is over, and with which code.
pub fn run_ends(p: Progress) -> (r: Option<i32>)
    ensures
        r == exit_code(p),
{
    match p {
        Progress::Finished => Some(0),
        Progress::Stopped(Some(c)) => Some(c),
        Progress::Suspended => None,
        Progress::OutOfFuel => Some(KILLED),
        _ => Some(TRAP),
    }
}

/// How a program goes on after a wait: it is over where it was to be killed meanwhile.
pub fn after_wait(errno: i32, kill_pending: bool) -> (r: Result<i32, i32>)
    ensures
        r == if kill_pending { Err::<i32, i32>(KILLED) } else { Ok::<i32, i32>(errno) },
{
    if kill_pending { Err(KILLED) } else { Ok(errno) }
}

/// The file behind an entry.
pub open spec fn file_of(e: Option<FdEntry>) -> Option<u32> {
    match e {
        Some(FdEntry::Vfs(f)) => Some(f),
        _ => None,
    }
}

fn file_at(st: &RuntimeState, slot: usize) -> (r: Option<u32>)
    requires
        slot < st.fds@.len(),
    ensures
        r == file_of(st.fds@[slot as int]),
{
    match &st.fds[slot] {
        Some(FdEntry::Vfs(f)) => Some(*f),
        _ => None,
    }
}

/// Ties one of the first three descriptors to the terminal that was opened for it, and
/// returns the file that is to be closed for it.
pub fn rebind_stdio_pty(st: &mut RuntimeState, slot: usize, pts: Option<u32>) -> (r: Option<u32>)
    requires
        slot < 3,
        old(st).fds@.len() >= 3,
    ensures
        r == file_of(old(st).fds@[slot as int]),
        final(st).fds@ == old(st).fds@.update(slot as int, opened(pts)),
        *final(st) == (RuntimeState { fds: final(st).fds, ..*old(st) }),
{
    let before: Option<u32> = file_at(st, slot);
    st.fds[slot] = match pts {
        Some(f) => Some(FdEntry::Vfs(f)),
        None => None,
    };
    before
}

/// Ties a descriptor to a file, and returns the file that is to be closed for it. A
/// descriptor that the program does not have is left alone.
pub fn bind_fd(st: &mut RuntimeState, slot: usize, fd: u32) -> (r: Option<u32>)
    ensures
        if slot < old(st).fds@.len() {
            &&& r == file_of(old(st).fds@[slot as int])
            &&& final(st).fds@ == old(st).fds@.update(slot as int, Some(FdEntry::Vfs(fd)))
            &&& *final(st) == (RuntimeState { fds: final(st).fds, ..*old(st) })
        } else {
            r is None && *final(st) == *old(st)
        },
{
    if slot >= st.fds.len() {
        return None;
    }
    let before: Option<u32> = file_at(st, slot);
    st.fds[slot] = Some(FdEntry::Vfs(fd));
    before
}

/// Ties descriptor 4 to a socket.
pub fn inject_socket(st: &mut RuntimeState, sock: usize)
    ensures
        ({
            let n = old(st).fds@.len();
            &&& final(st).fds@.len() == if n < 5 { 5 } else { n }
            &&& final(st).fds@[4] == Some(FdEntry::Socket(sock))
            &&& forall|i: int| 0 <= i < n && i != 4 ==> #[trigger] final(st).fds@[i] == old(st).fds@[i]
            &&& forall|i: int| n <= i < 4 ==> #[trigger] final(st).fds@[i] is None
        }),
        *final(st) == (RuntimeState { fds: final(st).fds, ..*old(st) }),
{
    let ghost n = st.fds@.len();
    while st.fds.len() < 5
        invariant
            n == old(st).fds@.len(),
            n <= st.fds@.len(),
            st.fds@.len() <= if n < 5 { 5 } else { n },
            forall|i: int| 0 <= i < n ==> #[trigger] st.fds@[i] == old(st).fds@[i],
            forall|i: int| n <= i < st.fds@.len() ==> #[trigger] st.fds@[i] is None,
            *st == (RuntimeState { fds: st.fds, ..*old(st) }),
        decreases 5 - st.fds@.len(),
    {
        st.fds.push(None);
    }
    st.fds[4] = Some(FdEntry::Socket(sock));
}

/// The entry of the environment that tells a program its directory: `PWD=` and the path.
pub open spec fn pwd(cwd: Seq<char>) -> Seq<u8> {
    seq![80u8, 87u8, 68u8, 61u8] + encode_utf8(cwd)
}

/// Whether an entry of the environment tells a directory.
pub open spec fn is_pwd(e: Seq<u8>) -> bool {
    e.len() >= 4 && e[0] == 80 && e[1] == 87 && e[2] == 68 && e[3] == 61
}

/// The first `n` entries of an environment, without those that tell a directory.
pub open spec fn elsewhere(env: Seq<Seq<u8>>, n: int) -> Seq<Seq<u8>>
    decreases n,
{
    if n <= 0 {
        Seq::empty()
    } else if is_pwd(env[n - 1]) {
        elsewhere(env, n - 1)
    } else {
        elsewhere(env, n - 1).push(env[n - 1])
    }
}

/// Lets a program start in a directory, which its environment tells it.
pub fn set_cwd(st: &mut RuntimeState, cwd: String)
    ensures
        final(st).cwd == cwd,
        contents(final(st).env@) == elsewhere(contents(old(st).env@), old(st).env@.len() as int).push(pwd(cwd@)),
        *final(st) == (RuntimeState { cwd: final(st).cwd, env: final(st).env, ..*old(st) }),
{
    let ghost before = contents(st.env@);
    let mut env: Vec<Vec<u8>> = Vec::new();
    let mut i: usize = 0;
    assert(contents(env@) =~= elsewhere(before, 0));
    while i < st.env.len()
        invariant
            i <= st.env@.len(),
            *st == *old(st),
            before == contents(st.env@),
            contents(env@) == elsewhere(before, i as int),
        decreases st.env@.len() - i,
    {
        let e = &st.env[i];
        assert(before[i as int] == e@);
        if !(e.len() >= 4 && e[0] == 80 && e[1] == 87 && e[2] == 68 && e[3] == 61) {
            let ghost was = env@;
            let mut kept: Vec<u8> = Vec::new();
            push_all(&mut kept, e.as_slice());
            assert(kept@ =~= e@);
            env.push(kept);
            assert(contents(env@) =~= contents(was).push(e@));
        }
        i += 1;
    }
    let ghost was = env@;
    let mut own: Vec<u8> = vec![80u8, 87u8, 68u8, 61u8];
    push_all(&mut own, cwd.as_str().as_bytes());
    assert(own@ =~= pwd(cwd@));
    env.push(own);
    assert(contents(env@) =~= contents(was).push(pwd(cwd@)));
    st.env = env;
    st.cwd = cwd;
}

/// A program that was started in a directory finds that directory in its environment, and no
/// other.
pub proof fn told_directory_is_own(env: Seq<Seq<u8>>, cwd: Seq<char>, i: int)
    requires
        0 <= i <= elsewhere(env, env.len() as int).len(),
    ensures
        is_pwd(elsewhere(env, env.len() as int).push(pwd(cwd))[i])
            <==> i == elsewhere(env, env.len() as int).len(),
{
    lemma_elsewhere(env, env.len() as int);
}

proof fn lemma_elsewhere(env: Seq<Seq<u8>>, n: int)
    requires
        n <= env.len(),
    ensures
        forall|i: int| 0 <= i < elsewhere(env, n).len() ==> !is_pwd(#[trigger] elsewhere(env, n)[i]),
    decreases n,
{
    if n > 0 {
        lemma_elsewhere(env, n - 1);
        let rest = elsewhere(env, n - 1);
        assert forall|i: int| 0 <= i < elsewhere(env, n).len() implies !is_pwd(#[trigger] elsewhere(env, n)[i]) by {
            if i < rest.len() {
                assert(elsewhere(env, n)[i] == rest[i]);
            }
        }
    }
}

/// The path of a name in a directory.
pub open spec fn below(dir: Seq<char>, name: Seq<char>) -> Seq<char> {
    if dir.len() > 0 && dir.last() == '/' {
        dir + name
    } else {
        dir + "/"@ + name
    }
}

/// The path by which the size of a listed name is found.
pub fn entry_path(dir: &str, name: &str) -> (r: String)
    ensures
        r@ == below(dir@, name@),
{
    let n: usize = dir.unicode_len();
    if n > 0 && dir.get_char(n - 1) == '/' {
        String::from_str(dir).concat(name)
    } else {
        String::from_str(dir).concat("/").concat(name)
    }
}

/// What a program needs before it starts.
#[derive(Clone, Copy, PartialEq, Eq, Structural, Debug)]
pub enum Role {
    /// A socket that listens on port 8080.
    Server,
    /// A socket that is connected to port 8080 of this machine.
    Client,
    /// Nothing.
    Plain,
}

/// What the program of this path needs before it starts.
pub fn role(path: &str) -> (r: Role)
    ensures
        r == if path@ == "/root/server.wasm"@ {
            Role::Server
        } else if path@ == "/root/client.wasm"@ {
            Role::Client
        } else {
            Role::Plain
        },
{
    if same(path, "/root/server.wasm") {
        Role::Server
    } else if same(path, "/root/client.wasm") {
        Role::Client
    } else {
        Role::Plain
    }
}

/// A file that was opened is found under the descriptor that the program was told, and no
/// descriptor that stood for something was taken.
pub proof fn opened_is_found(fds: Seq<Option<FdEntry>>, e: FdEntry)
    requires
        fds.len() <= i32::MAX,
    ensures
        entry(with_entry(fds, e), free_from(fds, 3) as i32) == Some(e),
        forall|fd: i32| entry(fds, fd) is Some ==> #[trigger] entry(with_entry(fds, e), fd) == entry(fds, fd),
{
    lemma_free(fds, 3);
}

proof fn lemma_free(fds: Seq<Option<FdEntry>>, from: int)
    requires
        0 <= from,
    ensures
        free_from(fds, from) <= fds.len(),
        0 <= free_from(fds, from),
        free_from(fds, from) < fds.len() ==> fds[free_from(fds, from)] is None,
    decreases fds.len() - from,
{
    if from < fds.len() && fds[from] is Some {
        lemma_free(fds, from + 1);
    }
}

} // verus!
