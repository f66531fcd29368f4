//! The descriptors of an interpreted program.

use vstd::prelude::*;
use vstd::utf8::{decode_utf8, valid_utf8};
use crate::bytes::{bits32, get_u32, le32, u32_at, unsigned32};
use crate::host::cwd::texts;
use crate::host::lifecycle::{write_else_exit, write_or_exit};
use crate::host::mem::guest_write_u32;
use crate::host::state::{entry, FdEntry, RuntimeState};
use crate::suspend::{HostCall, SuspendReason, TRAP};
use crate::text::utf8;
use crate::wasi::{encode_fdstat, encode_filestat, encode_prestat, fdstat, filestat, filetype, kind_to_filetype, prestat, whence, whence_of, Stat, VfsKind};

verus! {

/// WASI errno: bad descriptor.
pub const EBADF: i32 = 8;

/// WASI errno: invalid argument.
pub const EINVAL: i32 = 28;

/// The most bytes that one write takes.
pub const MAX_WRITE: u32 = 4096;

/// Whether a word at `at` can be read.
pub open spec fn word_fits(mem: Seq<u8>, at: int) -> bool {
    0 <= at <= i32::MAX && at + 4 <= mem.len()
}

/// The buffer in a table at `at`: its address and its length, where both can be read.
pub open spec fn buffer_at(mem: Seq<u8>, at: int) -> Option<(int, int)> {
    if word_fits(mem, at) && word_fits(mem, at + 4) {
        Some((u32_at(mem, at), u32_at(mem, at + 4)))
    } else {
        None
    }
}

fn read_buffer(mem: &[u8], at: i64) -> (r: Option<(u32, u32)>)
    ensures
        match r {
            Some(b) => buffer_at(mem@, at as int) == Some((b.0 as int, b.1 as int)),
            None => buffer_at(mem@, at as int) is None,
        },
{
    if at < 0 || at > 0x7fff_ffff - 4 || at as u64 + 8 > mem.len() as u64 {
        return None;
    }
    assert(mem.len() == mem@.len());
    Some((get_u32(mem, at as usize), get_u32(mem, at as usize + 4)))
}

/// The bytes of a write: the start of the buffer at `at`, where it lies in the memory.
pub open spec fn outgoing(mem: Seq<u8>, at: int) -> Option<Seq<u8>> {
    match buffer_at(mem, at) {
        None => None,
        Some(b) => {
            let n = if b.1 < MAX_WRITE { b.1 } else { MAX_WRITE as int };
            if b.0 + n <= mem.len() {
                Some(mem.subrange(b.0, b.0 + n))
            } else {
                None
            }
        },
    }
}

fn read_outgoing(mem: &[u8], at: i64) -> (r: Option<Vec<u8>>)
    ensures
        match r {
            Some(b) => outgoing(mem@, at as int) == Some(b@),
            None => outgoing(mem@, at as int) is None,
        },
{
    match read_buffer(mem, at) {
        None => None,
        Some((ptr, len)) => {
            let n: u32 = if len < MAX_WRITE { len } else { MAX_WRITE };
            crate::wt::mem::read(mem, ptr, n)
        },
    }
}

/// What one buffer does to a write to the console.
pub enum ConsoleStep {
    /// The buffer cannot be read.
    Exit,
    /// The buffer is empty.
    Skip,
    /// The descriptor is not the console.
    Badf,
    /// These bytes are shown.
    Show(Seq<u8>),
}

/// What the buffer at `at` does.
pub open spec fn console_step(mem: Seq<u8>, console: bool, at: int) -> ConsoleStep {
    match buffer_at(mem, at) {
        None => ConsoleStep::Exit,
        Some(b) => if b.1 == 0 {
            ConsoleStep::Skip
        } else {
            match outgoing(mem, at) {
                None => ConsoleStep::Exit,
                Some(s) => if console {
                    ConsoleStep::Show(s)
                } else {
                    ConsoleStep::Badf
                },
            }
        },
    }
}

/// What buffers `i` to `n` of a table show on the console, and how the write ends: with an
/// exit, with a bad descriptor, or after the last buffer.
pub open spec fn console_run(mem: Seq<u8>, console: bool, iovs: int, n: int, i: int) -> (Seq<Seq<u8>>, ConsoleStep)
    decreases n - i,
{
    if i >= n {
        (Seq::empty(), ConsoleStep::Skip)
    } else {
        let (rest, end) = console_run(mem, console, iovs, n, i + 1);
        match console_step(mem, console, iovs + 8 * i) {
            ConsoleStep::Exit => (Seq::empty(), ConsoleStep::Exit),
            ConsoleStep::Badf => (Seq::empty(), ConsoleStep::Badf),
            ConsoleStep::Skip => (rest, end),
            ConsoleStep::Show(s) => (seq![s] + rest, end),
        }
    }
}

/// The length of byte strings together.
pub open spec fn total(s: Seq<Seq<u8>>) -> int
    decreases s.len(),
{
    if s.len() == 0 {
        0
    } else {
        total(s.drop_last()) + s.last().len()
    }
}

/// The texts that byte strings encode, in order. A byte string that encodes none is left out.
pub open spec fn legible(s: Seq<Seq<u8>>) -> Seq<Seq<char>>
    decreases s.len(),
{
    if s.len() == 0 {
        Seq::empty()
    } else if valid_utf8(s.last()) {
        legible(s.drop_last()).push(decode_utf8(s.last()))
    } else {
        legible(s.drop_last())
    }
}

/// Whether an entry is the console.
pub open spec fn is_console(e: Option<FdEntry>) -> bool {
    e matches Some(FdEntry::StdoutConsole)
}

/// `fd_write`: what the console shows, in order, and how the call ends. What is no text is not
/// shown, and counts as written. A socket or a file takes one buffer, and no more than 4096
/// bytes of it; `open` tells whether the kernel still has the socket.
pub fn fd_write(
    st: &RuntimeState,
    mem: &mut [u8],
    fd: i32,
    iovs_ptr: i32,
    iovs_len: i32,
    nwritten_ptr: i32,
    open: bool,
) -> (r: (Vec<String>, HostCall))
    ensures
        match entry(st.fds@, fd) {
            Some(FdEntry::Socket(idx)) => {
                &&& r.0@.len() == 0
                &&& final(mem)@ == old(mem)@
                &&& if iovs_len != 1 {
                    r.1 == HostCall::Return(EINVAL)
                } else {
                    match outgoing(old(mem)@, iovs_ptr as int) {
                        Some(s) if open => {
                            &&& r.1 matches HostCall::Suspend(SuspendReason::SockSend { sock, bytes, nsent_ptr })
                            &&& sock == idx && bytes@ == s && nsent_ptr == unsigned32(nwritten_ptr)
                        },
                        _ => r.1 == HostCall::Exit(TRAP),
                    }
                }
            },
            Some(FdEntry::Vfs(vfd)) => {
                &&& r.0@.len() == 0
                &&& final(mem)@ == old(mem)@
                &&& if iovs_len != 1 {
                    r.1 == HostCall::Return(EINVAL)
                } else {
                    match outgoing(old(mem)@, iovs_ptr as int) {
                        Some(s) => {
                            &&& r.1 matches HostCall::Suspend(SuspendReason::VfsWrite { fd: f, bytes, nwritten_ptr: p })
                            &&& f == vfd && bytes@ == s && p == unsigned32(nwritten_ptr)
                        },
                        None => r.1 == HostCall::Exit(TRAP),
                    }
                }
            },
            e => {
                let (shown, end) = console_run(old(mem)@, is_console(e), iovs_ptr as int, iovs_len as int, 0);
                &&& texts(r.0@) == legible(shown)
                &&& match end {
                    ConsoleStep::Exit => r.1 == HostCall::Exit(TRAP) && final(mem)@ == old(mem)@,
                    ConsoleStep::Badf => r.1 == HostCall::Return(EBADF) && final(mem)@ == old(mem)@,
                    _ => (final(mem)@, r.1) == write_or_exit(
                        old(mem)@,
                        nwritten_ptr,
                        le32((total(shown) % 0x1_0000_0000) as u32),
                    ),
                }
            },
        },
{
    let none: Vec<String> = Vec::new();
    let mut console: bool = false;
    match st.get(fd) {
        Some(FdEntry::Socket(idx)) => {
            if iovs_len != 1 {
                return (none, HostCall::Return(EINVAL));
            }
            if !open {
                return (none, HostCall::Exit(TRAP));
            }
            return match read_outgoing(mem, iovs_ptr as i64) {
                Some(bytes) => {
                    let why = SuspendReason::SockSend { sock: *idx, bytes, nsent_ptr: bits32(nwritten_ptr) };
                    (none, HostCall::Suspend(why))
                },
                None => (none, HostCall::Exit(TRAP)),
            };
        },
        Some(FdEntry::Vfs(vfd)) => {
            if iovs_len != 1 {
                return (none, HostCall::Return(EINVAL));
            }
            return match read_outgoing(mem, iovs_ptr as i64) {
                Some(bytes) => {
                    let why = SuspendReason::VfsWrite { fd: *vfd, bytes, nwritten_ptr: bits32(nwritten_ptr) };
                    (none, HostCall::Suspend(why))
                },
                None => (none, HostCall::Exit(TRAP)),
            };
        },
        Some(FdEntry::StdoutConsole) => {
            console = true;
        },
        _ => {},
    }
    write_console(mem, console, iovs_ptr, iovs_len, nwritten_ptr)
}

fn write_console(mem: &mut [u8], console: bool, iovs_ptr: i32, iovs_len: i32, nwritten_ptr: i32) -> (r: (
    Vec<String>,
    HostCall,
))
    ensures
        ({
            let (shown, end) = console_run(old(mem)@, console, iovs_ptr as int, iovs_len as int, 0);
            &&& texts(r.0@) == legible(shown)
            &&& match end {
                ConsoleStep::Exit => r.1 == HostCall::Exit(TRAP) && final(mem)@ == old(mem)@,
                ConsoleStep::Badf => r.1 == HostCall::Return(EBADF) && final(mem)@ == old(mem)@,
                _ => (final(mem)@, r.1) == write_or_exit(
                    old(mem)@,
                    nwritten_ptr,
                    le32((total(shown) % 0x1_0000_0000) as u32),
                ),
            }
        }),
{
    let ghost m = mem@;
    let ghost all = console_run(m, console, iovs_ptr as int, iovs_len as int, 0);
    let mut out: Vec<String> = Vec::new();
    let ghost mut shown: Seq<Seq<u8>> = Seq::empty();
    let mut sum: u32 = 0;
    let mut i: i32 = 0;
    assert(texts(out@) =~= legible(shown));
    assert(shown + all.0 =~= all.0);
    while i < iovs_len
        invariant
            0 <= i,
            i <= iovs_len || i == 0,
            mem@ == m,
            m == old(mem)@,
            all == console_run(m, console, iovs_ptr as int, iovs_len as int, 0),
            sum == total(shown) % 0x1_0000_0000,
            texts(out@) == legible(shown),
            all == (
                shown + console_run(m, console, iovs_ptr as int, iovs_len as int, i as int).0,
                console_run(m, console, iovs_ptr as int, iovs_len as int, i as int).1,
            ),
        decreases iovs_len - i,
    {
        let ghost rest = console_run(m, console, iovs_ptr as int, iovs_len as int, i + 1).0;
        let at: i64 = iovs_ptr as i64 + 8 * i as i64;
        let b = read_buffer(mem, at);
        match b {
            None => {
                assert(shown + Seq::empty() =~= shown);
                return (out, HostCall::Exit(TRAP));
            },
            Some((_, len)) => {
                if len != 0 {
                    match read_outgoing(mem, at) {
                        None => {
                            assert(shown + Seq::empty() =~= shown);
                            return (out, HostCall::Exit(TRAP));
                        },
                        Some(s) => {
                            if !console {
                                assert(shown + Seq::empty() =~= shown);
                                return (out, HostCall::Return(EBADF));
                            }
                            let ghost before = out@;
                            let ghost was = sum;
                            let ghost bytes = s@;
                            assert(s@.len() <= MAX_WRITE);
                            sum = sum.wrapping_add(s.len() as u32);
                            if let Some(t) = utf8(s) {
                                out.push(t);
                                assert(texts(out@) =~= texts(before).push(t@));
                            }
                            proof {
                                let after = shown.push(bytes);
                                assert(after.drop_last() =~= shown);
                                assert(shown + (seq![bytes] + rest) =~= after + rest);
                                vstd::arithmetic::div_mod::lemma_add_mod_noop(
                                    total(shown),
                                    bytes.len() as int,
                                    0x1_0000_0000,
                                );
                                vstd::arithmetic::div_mod::lemma_add_mod_noop(
                                    was as int,
                                    bytes.len() as int,
                                    0x1_0000_0000,
                                );
                                shown = after;
                            }
                        },
                    }
                }
            },
        }
        i += 1;
    }
    assert(shown + Seq::empty() =~= shown);
    match guest_write_u32(mem, nwritten_ptr, sum) {
        Ok(_) => (out, HostCall::Return(0)),
        Err(_) => (out, HostCall::Exit(TRAP)),
    }
}

/// `fd_read`: a socket or a file fills one buffer; `open` tells whether the kernel still has
/// the socket.
pub fn fd_read(
    st: &RuntimeState,
    mem: &[u8],
    fd: i32,
    iovs_ptr: i32,
    iovs_len: i32,
    nread_ptr: i32,
    open: bool,
) -> (r: HostCall)
    ensures
        match entry(st.fds@, fd) {
            Some(FdEntry::Socket(idx)) => if iovs_len != 1 {
                r == HostCall::Return(EINVAL)
            } else {
                match buffer_at(mem@, iovs_ptr as int) {
                    Some(b) if open => {
                        &&& r matches HostCall::Suspend(SuspendReason::SockRecv { sock, buf_ptr, max_len, nrecv_ptr })
                        &&& sock == idx && buf_ptr == b.0 && max_len == b.1 && nrecv_ptr == unsigned32(nread_ptr)
                    },
                    _ => r == HostCall::Exit(TRAP),
                }
            },
            Some(FdEntry::Vfs(vfd)) => if iovs_len != 1 {
                r == HostCall::Return(EINVAL)
            } else {
                match buffer_at(mem@, iovs_ptr as int) {
                    Some(b) => {
                        &&& r matches HostCall::Suspend(SuspendReason::VfsRead { fd: f, buf_ptr, max_len, nread_ptr: p })
                        &&& f == vfd && buf_ptr == b.0 && max_len == b.1 && p == unsigned32(nread_ptr)
                    },
                    None => r == HostCall::Exit(TRAP),
                }
            },
            _ => r == HostCall::Return(EBADF),
        },
{
    match st.get(fd) {
        Some(FdEntry::Socket(idx)) => {
            if iovs_len != 1 {
                return HostCall::Return(EINVAL);
            }
            if !open {
                return HostCall::Exit(TRAP);
            }
            match read_buffer(mem, iovs_ptr as i64) {
                Some((buf_ptr, max_len)) => HostCall::Suspend(
                    SuspendReason::SockRecv { sock: *idx, buf_ptr, max_len, nrecv_ptr: bits32(nread_ptr) },
                ),
                None => HostCall::Exit(TRAP),
            }
        },
        Some(FdEntry::Vfs(vfd)) => {
            if iovs_len != 1 {
                return HostCall::Return(EINVAL);
            }
            match read_buffer(mem, iovs_ptr as i64) {
                Some((buf_ptr, max_len)) => HostCall::Suspend(
                    SuspendReason::VfsRead { fd: *vfd, buf_ptr, max_len, nread_ptr: bits32(nread_ptr) },
                ),
                None => HostCall::Exit(TRAP),
            }
        },
        _ => HostCall::Return(EBADF),
    }
}

/// `fd_seek`: only a file has a position.
pub fn fd_seek(st: &RuntimeState, fd: i32, offset: i64, from: i32, newoffset_ptr: i32) -> (r: HostCall)
    ensures
        match entry(st.fds@, fd) {
            Some(FdEntry::Vfs(vfd)) => match whence_of(from) {
                Some(w) => {
                    &&& r matches HostCall::Suspend(
                        SuspendReason::VfsSeek { fd: f, offset: o, whence: x, newoffset_ptr: p },
                    )
                    &&& f == vfd && o == offset && x == w && p == unsigned32(newoffset_ptr)
                },
                None => r == HostCall::Return(EINVAL),
            },
            _ => r == HostCall::Return(EBADF),
        },
{
    match st.get(fd) {
        Some(FdEntry::Vfs(vfd)) => match whence(from) {
            Some(w) => HostCall::Suspend(
                SuspendReason::VfsSeek { fd: *vfd, offset, whence: w, newoffset_ptr: bits32(newoffset_ptr) },
            ),
            None => HostCall::Return(EINVAL),
        },
        _ => HostCall::Return(EBADF),
    }
}

/// `fd_close`: a file is closed, and its descriptor is free. Other descriptors stay.
pub fn fd_close(st: &mut RuntimeState, fd: i32) -> (r: HostCall)
    ensures
        match entry(old(st).fds@, fd) {
            Some(FdEntry::Vfs(vfd)) => {
                &&& r == HostCall::Suspend(SuspendReason::VfsClose { fd: vfd })
                &&& final(st).fds@ == old(st).fds@.update(fd as int, None)
                &&& *final(st) == (RuntimeState { fds: final(st).fds, ..*old(st) })
            },
            Some(_) => r == HostCall::Return(0) && *final(st) == *old(st),
            None => r == HostCall::Return(EBADF) && *final(st) == *old(st),
        },
{
    let vfd: u32 = match st.get(fd) {
        Some(FdEntry::Vfs(f)) => *f,
        Some(_) => {
            return HostCall::Return(0);
        },
        None => {
            return HostCall::Return(EBADF);
        },
    };
    st.fds[fd as usize] = None;
    HostCall::Suspend(SuspendReason::VfsClose { fd: vfd })
}

/// `fd_filestat_get`: `stat` is what the file system tells of the open file that the
/// descriptor stands for, where it stands for one.
pub fn fd_filestat_get(st: &RuntimeState, mem: &mut [u8], fd: i32, stat: Option<Stat>, buf_ptr: i32) -> (r: HostCall)
    ensures
        match (entry(st.fds@, fd), stat) {
            (Some(FdEntry::Vfs(_)), Some(s)) => (final(mem)@, r) == write_or_exit(
                old(mem)@,
                buf_ptr,
                filestat(filetype(s.kind), s.size),
            ),
            (Some(FdEntry::StdoutConsole), _) => (final(mem)@, r) == write_or_exit(old(mem)@, buf_ptr, filestat(2, 0)),
            _ => r == HostCall::Return(EBADF) && final(mem)@ == old(mem)@,
        },
{
    let (ft, size): (u8, u64) = match st.get(fd) {
        Some(FdEntry::Vfs(_)) => match stat {
            Some(s) => (kind_to_filetype(s.kind), s.size),
            None => {
                return HostCall::Return(EBADF);
            },
        },
        Some(FdEntry::StdoutConsole) => (2, 0),
        _ => {
            return HostCall::Return(EBADF);
        },
    };
    let b: Vec<u8> = encode_filestat(ft, size);
    write_else_exit(mem, buf_ptr, b.as_slice())
}

/// The kind of file that a descriptor stands for. Descriptor 3 is the root directory.
pub open spec fn fd_filetype(e: Option<FdEntry>, fd: i32, kind: Option<VfsKind>) -> Option<u8> {
    if fd == 3 {
        Some(3)
    } else {
        match e {
            Some(FdEntry::Vfs(_)) => Some(
                match kind {
                    Some(k) => filetype(k),
                    None => 0,
                },
            ),
            Some(FdEntry::StdoutConsole) => Some(2),
            Some(FdEntry::Socket(_)) => Some(7),
            _ => None,
        }
    }
}

/// `fd_fdstat_get`: `kind` is what the file system tells of the open file that the
/// descriptor stands for, where it stands for one.
pub fn fd_fdstat_get(st: &RuntimeState, mem: &mut [u8], fd: i32, kind: Option<VfsKind>, stat_ptr: i32) -> (r: HostCall)
    ensures
        match fd_filetype(entry(st.fds@, fd), fd, kind) {
            Some(ft) => (final(mem)@, r) == write_or_exit(old(mem)@, stat_ptr, fdstat(ft)),
            None => r == HostCall::Return(EBADF) && final(mem)@ == old(mem)@,
        },
{
    let ft: u8 = if fd == 3 {
        3
    } else {
        match st.get(fd) {
            Some(FdEntry::Vfs(_)) => match kind {
                Some(k) => kind_to_filetype(k),
                None => 0,
            },
            Some(FdEntry::StdoutConsole) => 2,
            Some(FdEntry::Socket(_)) => 7,
            _ => {
                return HostCall::Return(EBADF);
            },
        }
    };
    let b: Vec<u8> = encode_fdstat(ft);
    write_else_exit(mem, stat_ptr, b.as_slice())
}

/// `fd_prestat_get`: descriptor 3 is the root directory, the only one that is open from the
/// start.
pub fn fd_prestat_get(mem: &mut [u8], fd: i32, stat_ptr: i32) -> (r: HostCall)
    ensures
        if fd != 3 {
            r == HostCall::Return(EBADF) && final(mem)@ == old(mem)@
        } else {
            (final(mem)@, r) == write_or_exit(old(mem)@, stat_ptr, prestat())
        },
{
    if fd != 3 {
        return HostCall::Return(EBADF);
    }
    let b: Vec<u8> = encode_prestat();
    write_else_exit(mem, stat_ptr, b.as_slice())
}

/// `fd_prestat_dir_name`: the name of descriptor 3.
pub fn fd_prestat_dir_name(mem: &mut [u8], fd: i32, path_ptr: i32) -> (r: HostCall)
    ensures
        if fd != 3 {
            r == HostCall::Return(EBADF) && final(mem)@ == old(mem)@
        } else {
            (final(mem)@, r) == write_or_exit(old(mem)@, path_ptr, seq![47u8])
        },
{
    if fd != 3 {
        return HostCall::Return(EBADF);
    }
    let b: Vec<u8> = vec![47u8];
    assert(b@ =~= seq![47u8]);
    write_else_exit(mem, path_ptr, b.as_slice())
}

/// `sock_accept`: a socket waits for its peer; `open` tells whether the kernel still has it.
pub fn sock_accept(st: &RuntimeState, fd: i32, new_fd_ptr: i32, open: bool) -> (r: HostCall)
    ensures
        match entry(st.fds@, fd) {
            Some(FdEntry::Socket(idx)) => if open {
                &&& r matches HostCall::Suspend(SuspendReason::SockAccept { sock, new_fd_ptr: p })
                &&& sock == idx && p == unsigned32(new_fd_ptr)
            } else {
                r == HostCall::Exit(TRAP)
            },
            _ => r == HostCall::Return(EBADF),
        },
{
    match st.get(fd) {
        Some(FdEntry::Socket(idx)) => {
            if open {
                HostCall::Suspend(SuspendReason::SockAccept { sock: *idx, new_fd_ptr: bits32(new_fd_ptr) })
            } else {
                HostCall::Exit(TRAP)
            }
        },
        _ => HostCall::Return(EBADF),
    }
}

} // verus!
