//! The calls of WASI Preview 1, as a compiled program makes them.
//!
//! A call that needs the file system, the clock or the console comes in parts: one that
//! tells what to ask, and one that takes the answer.

use vstd::prelude::*;
use vstd::utf8::{decode_utf8, valid_utf8};
use crate::bytes::{contents, get_u32, le32, le64, push_all, push_u64, u32_at};
use crate::text::{chars, part, utf8};
use crate::wasi::{bit, bits_are_those_of_the_word, clock_event, clock_sub, encode_clock_event, encode_fdstat, encode_filestat, encode_prestat, fdstat, filestat, filetype, has_bit, kind_to_filetype, prestat, read_clock_sub, wait_until, wake_tick, whence, whence_of, OpenFlags, Stat, VfsKind, Whence, TICK_NS};
use crate::wt::mem::{fits, read, stored, write_u32};
use crate::wt::state::{fd_of, WtFd, WtState};

verus! {

/// Success.
pub const OK: i32 = 0;

/// WASI errno: bad descriptor.
pub const EBADF: i32 = 8;

/// WASI errno: invalid argument.
pub const EINVAL: i32 = 28;

/// WASI errno: the device failed.
pub const EIO: i32 = 29;

/// WASI errno: not a directory.
pub const ENOTDIR: i32 = 54;

/// WASI errno: no such file.
pub const ENOENT: i32 = 44;

/// The errno of a call that ends with a write into the program's memory.
pub open spec fn write_result(ok: bool) -> i32 {
    if ok { OK } else { EINVAL }
}

/// Whether a table of `n` buffers lies in the program's memory.
pub open spec fn table_fits(mem: Seq<u8>, iovs: u32, n: i32) -> bool {
    n >= 0 && fits(iovs, 8 * n, mem.len() as int)
}

/// The address of buffer `i` of a table.
pub open spec fn iov_ptr(mem: Seq<u8>, iovs: u32, i: int) -> int {
    u32_at(mem, iovs + 8 * i)
}

/// The length of buffer `i` of a table.
pub open spec fn iov_len(mem: Seq<u8>, iovs: u32, i: int) -> int {
    u32_at(mem, iovs + 8 * i + 4)
}

/// Whether buffer `i` is empty or lies in the program's memory.
pub open spec fn iov_good(mem: Seq<u8>, iovs: u32, i: int) -> bool {
    iov_len(mem, iovs, i) == 0 || iov_ptr(mem, iovs, i) + iov_len(mem, iovs, i) <= mem.len()
}

/// The number of good buffers before the first bad one, from `i` on.
pub open spec fn good_until(mem: Seq<u8>, iovs: u32, n: int, i: int) -> int
    decreases n - i,
{
    if i >= n {
        n
    } else if !iov_good(mem, iovs, i) {
        i
    } else {
        good_until(mem, iovs, n, i + 1)
    }
}

/// The contents of the buffers that are not empty, among the first `k`.
pub open spec fn gathered(mem: Seq<u8>, iovs: u32, k: int) -> Seq<Seq<u8>>
    decreases k,
{
    if k <= 0 {
        Seq::empty()
    } else if iov_len(mem, iovs, k - 1) == 0 {
        gathered(mem, iovs, k - 1)
    } else {
        gathered(mem, iovs, k - 1).push(
            mem.subrange(iov_ptr(mem, iovs, k - 1), iov_ptr(mem, iovs, k - 1) + iov_len(mem, iovs, k - 1)),
        )
    }
}

/// The length of the first `k` buffers together.
pub open spec fn total_len(mem: Seq<u8>, iovs: u32, k: int) -> int
    decreases k,
{
    if k <= 0 {
        0
    } else {
        total_len(mem, iovs, k - 1) + iov_len(mem, iovs, k - 1)
    }
}

/// Where a part of a program's output goes.
pub enum Output {
    /// To a terminal, by its file.
    Terminal(u32, Vec<u8>),
    /// To the console, where it is a text, and in any case to the kernel's log.
    Console { text: Option<String>, log: Vec<u8> },
}

/// Sends a part of a program's output to its terminal, or to the console where it has none.
pub fn route(st: &WtState, part: Vec<u8>) -> (r: Output)
    ensures
        match st.stdout_pty {
            Some(f) => r == Output::Terminal(f, part),
            None => {
                &&& r matches Output::Console { text, log }
                &&& log@ == part@
                &&& text is Some <==> valid_utf8(part@)
                &&& text matches Some(t) ==> t@ == decode_utf8(part@)
            },
        },
{
    match st.stdout_pty {
        Some(f) => Output::Terminal(f, part),
        None => {
            let mut log: Vec<u8> = Vec::new();
            push_all(&mut log, part.as_slice());
            assert(log@ =~= part@);
            Output::Console { text: utf8(part), log }
        },
    }
}

/// `fd_write`: what goes to the program's output, in order, and the errno. Buffers before
/// a bad one are written.
pub fn fd_write(mem: &mut [u8], fd: i32, iovs: u32, iovs_len: i32, nwritten: u32) -> (r: (Vec<Vec<u8>>, i32))
    ensures
        ({
            let m = old(mem)@;
            let k = good_until(m, iovs, iovs_len as int, 0);
            if fd != 1 && fd != 2 {
                r.0@.len() == 0 && r.1 == EBADF && final(mem)@ == m
            } else if !table_fits(m, iovs, iovs_len) {
                r.0@.len() == 0 && r.1 == EINVAL && final(mem)@ == m
            } else {
                &&& contents(r.0@) == gathered(m, iovs, k)
                &&& if k < iovs_len {
                    r.1 == EINVAL && final(mem)@ == m
                } else {
                    &&& r.1 == write_result(fits(nwritten, 4, m.len() as int))
                    &&& final(mem)@ == stored(m, nwritten, le32((total_len(m, iovs, k) % 0x1_0000_0000) as u32))
                }
            }
        }),
{
    let mut out: Vec<Vec<u8>> = Vec::new();
    if fd != 1 && fd != 2 {
        return (out, EBADF);
    }
    let ghost m = mem@;
    if iovs_len < 0 || iovs_len as u64 * 8 + iovs as u64 > mem.len() as u64 {
        return (out, EINVAL);
    }
    let mut total: u32 = 0;
    let mut i: i32 = 0;
    assert(contents(out@) =~= gathered(m, iovs, 0));
    while i < iovs_len
        invariant
            0 <= i <= iovs_len,
            fd == 1 || fd == 2,
            mem@ == m,
            m == old(mem)@,
            table_fits(m, iovs, iovs_len),
            contents(out@) == gathered(m, iovs, i as int),
            total == total_len(m, iovs, i as int) % 0x1_0000_0000,
            good_until(m, iovs, iovs_len as int, i as int) == good_until(m, iovs, iovs_len as int, 0),
        decreases iovs_len - i,
    {
        assert(mem.len() == mem@.len());
        let at: usize = iovs as usize + 8 * i as usize;
        let ptr: u32 = get_u32(mem, at);
        let len: u32 = get_u32(mem, at + 4);
        if len != 0 {
            match read(mem, ptr, len) {
                Some(b) => {
                    let ghost before = out@;
                    out.push(b);
                    assert(contents(out@) =~= contents(before).push(b@));
                },
                None => {
                    return (out, EINVAL);
                },
            }
        }
        total = total.wrapping_add(len);
        i += 1;
    }
    if write_u32(mem, nwritten, total) {
        (out, OK)
    } else {
        (out, EINVAL)
    }
}

/// A read into a table of buffers, under way.
pub struct Scatter {
    /// Addresses and lengths of the buffers.
    pub iovs: Vec<(u32, u32)>,
    /// The buffer that is filled next.
    pub at: usize,
    pub total: u32,
}

/// How a read begins.
pub enum ReadStart {
    /// It is over, with this errno.
    Done(i32),
    /// An open file is read into buffers.
    Read(u32, Scatter),
}

/// `fd_read`, the first part. The console is at its end.
pub fn fd_read(st: &WtState, mem: &mut [u8], fd: i32, iovs: u32, iovs_len: i32, nread: u32) -> (r: ReadStart)
    ensures
        match fd_of(st.fds@, fd) {
            Some(WtFd::Vfs(f)) => {
                &&& final(mem)@ == old(mem)@
                &&& if table_fits(old(mem)@, iovs, iovs_len) {
                    &&& r matches ReadStart::Read(g, s)
                    &&& g == f
                    &&& s.at == 0
                    &&& s.total == 0
                    &&& s.iovs@.len() == iovs_len
                    &&& forall|i: int|
                        0 <= i < iovs_len ==> (#[trigger] s.iovs@[i]).0 == iov_ptr(old(mem)@, iovs, i) && s.iovs@[i].1
                            == iov_len(old(mem)@, iovs, i)
                } else {
                    r == ReadStart::Done(EINVAL)
                }
            },
            Some(WtFd::Console) => {
                &&& r == ReadStart::Done(write_result(fits(nread, 4, old(mem)@.len() as int)))
                &&& final(mem)@ == stored(old(mem)@, nread, le32(0))
            },
            _ => r == ReadStart::Done(EBADF) && final(mem)@ == old(mem)@,
        },
{
    let f: u32 = match st.get(fd) {
        Some(WtFd::Vfs(f)) => *f,
        Some(WtFd::Console) => {
            return ReadStart::Done(if write_u32(mem, nread, 0) { OK } else { EINVAL });
        },
        _ => {
            return ReadStart::Done(EBADF);
        },
    };
    if iovs_len < 0 || iovs_len as u64 * 8 + iovs as u64 > mem.len() as u64 {
        return ReadStart::Done(EINVAL);
    }
    let mut table: Vec<(u32, u32)> = Vec::new();
    let mut i: i32 = 0;
    while i < iovs_len
        invariant
            0 <= i <= iovs_len,
            mem@ == old(mem)@,
            table_fits(mem@, iovs, iovs_len),
            table@.len() == i,
            forall|k: int|
                0 <= k < i ==> (#[trigger] table@[k]).0 == iov_ptr(mem@, iovs, k) && table@[k].1 == iov_len(
                    mem@,
                    iovs,
                    k,
                ),
        decreases iovs_len - i,
    {
        assert(mem.len() == mem@.len());
        let at: usize = iovs as usize + 8 * i as usize;
        table.push((get_u32(mem, at), get_u32(mem, at + 4)));
        i += 1;
    }
    ReadStart::Read(f, Scatter { iovs: table, at: 0, total: 0 })
}

/// The first buffer from `i` on that is not empty.
pub open spec fn nonempty_from(iovs: Seq<(u32, u32)>, i: int) -> int
    decreases iovs.len() - i,
{
    if i >= iovs.len() {
        iovs.len() as int
    } else if iovs[i].1 != 0 {
        i
    } else {
        nonempty_from(iovs, i + 1)
    }
}

impl Scatter {
    /// How many bytes to read next; nothing when all buffers are full or the file ended.
    pub fn want(&mut self) -> (r: Option<u32>)
        requires
            old(self).at <= old(self).iovs@.len(),
        ensures
            final(self).at == nonempty_from(old(self).iovs@, old(self).at as int),
            *final(self) == (Scatter { at: final(self).at, ..*old(self) }),
            match r {
                Some(n) => {
                    &&& final(self).at < final(self).iovs@.len()
                    &&& n == final(self).iovs@[final(self).at as int].1
                    &&& n > 0
                },
                None => final(self).at == final(self).iovs@.len(),
            },
    {
        while self.at < self.iovs.len() && self.iovs[self.at].1 == 0
            invariant
                self.at <= self.iovs@.len(),
                *self == (Scatter { at: self.at, ..*old(self) }),
                nonempty_from(self.iovs@, self.at as int) == nonempty_from(old(self).iovs@, old(self).at as int),
            decreases self.iovs@.len() - self.at,
        {
            self.at += 1;
        }
        if self.at < self.iovs.len() {
            Some(self.iovs[self.at].1)
        } else {
            None
        }
    }

    /// Takes what was read for the buffer that was asked for. A short read is the last one.
    /// Returns an errno where the read is over by it.
    pub fn give(&mut self, mem: &mut [u8], data: Option<&[u8]>) -> (r: Option<i32>)
        requires
            old(self).at < old(self).iovs@.len(),
            data matches Some(d) ==> d@.len() <= old(self).iovs@[old(self).at as int].1,
        ensures
            final(self).iovs == old(self).iovs,
            ({
                let (ptr, len) = old(self).iovs@[old(self).at as int];
                match data {
                    None => r == Some(EIO) && final(mem)@ == old(mem)@ && *final(self) == *old(self),
                    Some(d) => if d@.len() > 0 && !fits(ptr, d@.len() as int, old(mem)@.len() as int) {
                        r == Some(EINVAL) && final(mem)@ == old(mem)@ && *final(self) == *old(self)
                    } else {
                        &&& r is None
                        &&& final(mem)@ == if d@.len() > 0 {
                            stored(old(mem)@, ptr, d@)
                        } else {
                            old(mem)@
                        }
                        &&& final(self).total == (old(self).total + d@.len()) % 0x1_0000_0000
                        &&& final(self).at == if d@.len() < len {
                            old(self).iovs@.len() as int
                        } else {
                            old(self).at + 1
                        }
                    },
                }
            }),
    {
        let (ptr, len): (u32, u32) = self.iovs[self.at];
        let count: usize = self.iovs.len();
        match data {
            None => Some(EIO),
            Some(d) => {
                if d.len() > 0 && !crate::wt::mem::write(mem, ptr, d) {
                    return Some(EINVAL);
                }
                self.total = self.total.wrapping_add(d.len() as u32);
                if (d.len() as u32) < len {
                    self.at = count;
                } else {
                    self.at += 1;
                }
                None
            },
        }
    }

    /// Ends the read: tells the program how many bytes were read.
    pub fn finish(&self, mem: &mut [u8], nread: u32) -> (r: i32)
        ensures
            r == write_result(fits(nread, 4, old(mem)@.len() as int)),
            final(mem)@ == stored(old(mem)@, nread, le32(self.total)),
    {
        if write_u32(mem, nread, self.total) { OK } else { EINVAL }
    }
}

/// `fd_seek`, the first part: the open file, and from where its position is counted.
pub fn fd_seek(st: &WtState, fd: i32, from: i32) -> (r: Result<(u32, Whence), i32>)
    ensures
        match fd_of(st.fds@, fd) {
            Some(WtFd::Vfs(f)) => match whence_of(from) {
                Some(w) => r == Ok::<(u32, Whence), i32>((f, w)),
                None => r == Err::<(u32, Whence), i32>(EINVAL),
            },
            _ => r == Err::<(u32, Whence), i32>(EBADF),
        },
{
    match st.get(fd) {
        Some(WtFd::Vfs(f)) => match whence(from) {
            Some(w) => Ok((*f, w)),
            None => Err(EINVAL),
        },
        _ => Err(EBADF),
    }
}

/// `fd_seek`, the second part: the new position.
pub fn fd_seek_done(mem: &mut [u8], pos: Option<u64>, newoff: u32) -> (r: i32)
    ensures
        match pos {
            None => r == EIO && final(mem)@ == old(mem)@,
            Some(p) => {
                &&& r == write_result(fits(newoff, 8, old(mem)@.len() as int))
                &&& final(mem)@ == stored(old(mem)@, newoff, le64(p))
            },
        },
{
    match pos {
        None => EIO,
        Some(p) => {
            let mut b: Vec<u8> = Vec::new();
            push_u64(&mut b, p);
            assert(b@ =~= le64(p));
            if crate::wt::mem::write(mem, newoff, b.as_slice()) { OK } else { EINVAL }
        },
    }
}

/// `fd_close`: the errno, and the open file that is to be closed. Its descriptor stands for
/// nothing from now on.
pub fn fd_close(st: &mut WtState, fd: i32) -> (r: (i32, Option<u32>))
    ensures
        match fd_of(old(st).fds@, fd) {
            Some(WtFd::Vfs(f)) => {
                &&& r == (OK, Some(f))
                &&& final(st).fds@ == old(st).fds@.update(fd as int, WtFd::Closed)
                &&& *final(st) == (WtState { fds: final(st).fds, ..*old(st) })
            },
            Some(WtFd::Console) => r == (OK, None::<u32>) && *final(st) == *old(st),
            _ => r == (EBADF, None::<u32>) && *final(st) == *old(st),
        },
{
    let entry: Option<WtFd> = match st.get(fd) {
        Some(f) => Some(*f),
        None => None,
    };
    match entry {
        Some(WtFd::Vfs(f)) => {
            st.fds[fd as usize] = WtFd::Closed;
            (OK, Some(f))
        },
        Some(WtFd::Console) => (OK, None),
        _ => (EBADF, None),
    }
}

/// `fd_fdstat_get`: `kind` is what the file system tells of the open file that the
/// descriptor stands for, where it stands for one.
pub fn fd_fdstat_get(st: &WtState, mem: &mut [u8], fd: i32, kind: Option<VfsKind>, out: u32) -> (r: i32)
    ensures
        ({
            let ft: Option<u8> = if fd == 3 {
                Some(3)
            } else {
                match fd_of(st.fds@, fd) {
                    Some(WtFd::Console) => Some(2),
                    Some(WtFd::Vfs(_)) => Some(
                        match kind {
                            Some(k) => filetype(k),
                            None => 0,
                        },
                    ),
                    _ => None,
                }
            };
            match ft {
                Some(ft) => {
                    &&& r == write_result(fits(out, 24, old(mem)@.len() as int))
                    &&& final(mem)@ == stored(old(mem)@, out, fdstat(ft))
                },
                None => r == EBADF && final(mem)@ == old(mem)@,
            }
        }),
{
    let ft: u8 = if fd == 3 {
        3
    } else {
        match st.get(fd) {
            Some(WtFd::Console) => 2,
            Some(WtFd::Vfs(_)) => match kind {
                Some(k) => kind_to_filetype(k),
                None => 0,
            },
            _ => {
                return EBADF;
            },
        }
    };
    let b: Vec<u8> = encode_fdstat(ft);
    if crate::wt::mem::write(mem, out, b.as_slice()) { OK } else { EINVAL }
}

/// `fd_filestat_get`: `stat` is what the file system tells of the open file that the
/// descriptor stands for, where it stands for one.
pub fn fd_filestat_get(st: &WtState, mem: &mut [u8], fd: i32, stat: Option<Stat>, out: u32) -> (r: i32)
    ensures
        match (fd_of(st.fds@, fd), stat) {
            (Some(WtFd::Console), _) => {
                &&& r == write_result(fits(out, 64, old(mem)@.len() as int))
                &&& final(mem)@ == stored(old(mem)@, out, filestat(2, 0))
            },
            (Some(WtFd::Vfs(_)), Some(s)) => {
                &&& r == write_result(fits(out, 64, old(mem)@.len() as int))
                &&& final(mem)@ == stored(old(mem)@, out, filestat(filetype(s.kind), s.size))
            },
            (Some(WtFd::Vfs(_)), None) => r == EIO && final(mem)@ == old(mem)@,
            _ => r == EBADF && final(mem)@ == old(mem)@,
        },
{
    let (ft, size): (u8, u64) = match st.get(fd) {
        Some(WtFd::Console) => (2, 0),
        Some(WtFd::Vfs(_)) => match stat {
            Some(s) => (kind_to_filetype(s.kind), s.size),
            None => {
                return EIO;
            },
        },
        _ => {
            return EBADF;
        },
    };
    write_filestat(mem, ft, size, out)
}

fn write_filestat(mem: &mut [u8], ft: u8, size: u64, out: u32) -> (r: i32)
    ensures
        r == write_result(fits(out, 64, old(mem)@.len() as int)),
        final(mem)@ == stored(old(mem)@, out, filestat(ft, size)),
{
    let b: Vec<u8> = encode_filestat(ft, size);
    if crate::wt::mem::write(mem, out, b.as_slice()) { OK } else { EINVAL }
}

/// A text without the slashes that it begins with.
pub open spec fn without_slashes(s: Seq<char>) -> Seq<char>
    decreases s.len(),
{
    if s.len() > 0 && s[0] == '/' {
        without_slashes(s.drop_first())
    } else {
        s
    }
}

/// The path that a program names: always from the root.
pub open spec fn path_of(mem: Seq<u8>, path: u32, len: u32) -> Option<Seq<char>> {
    if fits(path, len as int, mem.len() as int) && valid_utf8(mem.subrange(path as int, path + len)) {
        Some("/"@ + without_slashes(decode_utf8(mem.subrange(path as int, path + len))))
    } else {
        None
    }
}

/// Reads the path that a program names. A path that does not lie in the program's memory,
/// or is no text, is refused.
pub fn read_path(mem: &[u8], path: u32, len: u32) -> (r: Result<String, i32>)
    ensures
        match path_of(mem@, path, len) {
            Some(p) => r is Ok && r->Ok_0@ == p,
            None => r == Err::<String, i32>(EINVAL),
        },
{
    match read(mem, path, len) {
        None => Err(EINVAL),
        Some(b) => match utf8(b) {
            None => Err(EINVAL),
            Some(s) => {
                let cs: Vec<char> = chars(s.as_str());
                let mut i: usize = 0;
                assert(s@.subrange(0, s@.len() as int) =~= s@);
                while i < cs.len() && cs[i] == '/'
                    invariant
                        i <= cs@.len(),
                        cs@ == s@,
                        without_slashes(s@.subrange(i as int, s@.len() as int)) == without_slashes(s@),
                    decreases cs@.len() - i,
                {
                    assert(s@.subrange(i as int, s@.len() as int).drop_first() =~= s@.subrange(
                        i + 1,
                        s@.len() as int,
                    ));
                    i += 1;
                }
                let rest: String = part(s.as_str(), i, cs.len());
                Ok(String::from_str("/").concat(rest.as_str()))
            },
        },
    }
}

/// `path_filestat_get`, the second part: what the file system tells of the path.
pub fn path_filestat_done(mem: &mut [u8], stat: Option<Stat>, out: u32) -> (r: i32)
    ensures
        match stat {
            Some(s) => {
                &&& r == write_result(fits(out, 64, old(mem)@.len() as int))
                &&& final(mem)@ == stored(old(mem)@, out, filestat(filetype(s.kind), s.size))
            },
            None => r == ENOENT && final(mem)@ == old(mem)@,
        },
{
    match stat {
        Some(s) => write_filestat(mem, kind_to_filetype(s.kind), s.size, out),
        None => ENOENT,
    }
}

/// `fd_prestat_get`: descriptor 3 is the root directory.
pub fn fd_prestat_get(mem: &mut [u8], fd: i32, out: u32) -> (r: i32)
    ensures
        if fd != 3 {
            r == EBADF && final(mem)@ == old(mem)@
        } else {
            &&& r == write_result(fits(out, 8, old(mem)@.len() as int))
            &&& final(mem)@ == stored(old(mem)@, out, prestat())
        },
{
    if fd != 3 {
        return EBADF;
    }
    let b: Vec<u8> = encode_prestat();
    if crate::wt::mem::write(mem, out, b.as_slice()) { OK } else { EINVAL }
}

/// `fd_prestat_dir_name`: the name of descriptor 3.
pub fn fd_prestat_dir_name(mem: &mut [u8], fd: i32, path: u32) -> (r: i32)
    ensures
        if fd != 3 {
            r == EBADF && final(mem)@ == old(mem)@
        } else {
            &&& r == write_result(fits(path, 1, old(mem)@.len() as int))
            &&& final(mem)@ == stored(old(mem)@, path, seq![47u8])
        },
{
    if fd != 3 {
        return EBADF;
    }
    let b: Vec<u8> = vec![47u8];
    assert(b@ =~= seq![47u8]);
    if crate::wt::mem::write(mem, path, b.as_slice()) { OK } else { EINVAL }
}

/// How `path_open` goes on.
pub enum OpenStart {
    /// It is over, with this errno.
    Done(i32),
    /// A directory is asked for; only whether the path is there decides the errno.
    Dir(String),
    /// The path is opened with the first flags, and where that fails with the second.
    File(String, OpenFlags, OpenFlags),
}

/// The flags with which a file is opened first.
pub open spec fn open_flags(oflags: i32) -> OpenFlags {
    OpenFlags {
        read: true,
        write: true,
        create: has_bit(oflags as int, 1),
        truncate: has_bit(oflags as int, 8),
    }
}

/// The flags with which a file is opened that cannot be written: for reading alone.
pub open spec fn fallback_flags() -> OpenFlags {
    OpenFlags { read: true, write: false, create: false, truncate: false }
}

/// `path_open`, the first part.
pub fn path_open(mem: &[u8], path: u32, len: u32, oflags: i32) -> (r: OpenStart)
    ensures
        match path_of(mem@, path, len) {
            None => r == OpenStart::Done(EINVAL),
            Some(p) => if has_bit(oflags as int, 2) {
                r matches OpenStart::Dir(q) && q@ == p
            } else {
                r matches OpenStart::File(q, f, g) && q@ == p && f == open_flags(oflags) && g == fallback_flags()
            },
        },
        r is Dir ==> oflags & 2 != 0,
        r matches OpenStart::File(q, f, g) ==> {
            &&& oflags & 2 == 0
            &&& f.read && f.write && g.read && !g.write && !g.create && !g.truncate
            &&& f.create <==> oflags & 1 != 0
            &&& f.truncate <==> oflags & 8 != 0
        },
{
    proof {
        bits_are_those_of_the_word(oflags as i64);
    }
    match read_path(mem, path, len) {
        Err(e) => OpenStart::Done(e),
        Ok(p) => {
            if bit(oflags as i64, 2) {
                OpenStart::Dir(p)
            } else {
                let flags = OpenFlags {
                    read: true,
                    write: true,
                    create: bit(oflags as i64, 1),
                    truncate: bit(oflags as i64, 8),
                };
                OpenStart::File(p, flags, OpenFlags { read: true, write: false, create: false, truncate: false })
            }
        },
    }
}

/// `path_open`, the end for a directory: directories are not opened.
pub fn path_open_dir(found: bool) -> (r: i32)
    ensures
        r == if found { ENOTDIR } else { ENOENT },
{
    if found { ENOTDIR } else { ENOENT }
}

/// `path_open`, the end for a file: the open file gets the next descriptor.
pub fn path_opened(st: &mut WtState, mem: &mut [u8], file: Option<u32>, opened: u32) -> (r: i32)
    requires
        old(st).fds@.len() <= i32::MAX,
    ensures
        match file {
            None => r == ENOENT && *final(st) == *old(st) && final(mem)@ == old(mem)@,
            Some(f) => {
                &&& final(st).fds@ == old(st).fds@.push(WtFd::Vfs(f))
                &&& *final(st) == (WtState { fds: final(st).fds, ..*old(st) })
                &&& r == write_result(fits(opened, 4, old(mem)@.len() as int))
                &&& final(mem)@ == stored(old(mem)@, opened, le32(old(st).fds@.len() as u32))
            },
        },
{
    match file {
        None => ENOENT,
        Some(f) => {
            let fd: i32 = st.install_vfs(f);
            if write_u32(mem, opened, fd as u32) { OK } else { EINVAL }
        },
    }
}

/// `proc_exit`: the program ends with this code.
pub fn proc_exit(st: &mut WtState, code: i32)
    ensures
        *final(st) == (WtState { exit: Some(code), ..*old(st) }),
{
    st.exit = Some(code);
}

/// The time of a clock at a tick: clock 0 is the time of day, in nanoseconds since 1970,
/// every other counts from boot.
pub open spec fn clock_ns(id: i32, ticks: u64, boot_epoch: u64) -> int {
    if id == 0 {
        (boot_epoch + ticks * TICK_NS) % 0x1_0000_0000_0000_0000
    } else {
        (ticks * TICK_NS) % 0x1_0000_0000_0000_0000
    }
}

fn clock_at(id: i32, ticks: u64, boot_epoch: u64) -> (r: u64)
    ensures
        r == clock_ns(id, ticks, boot_epoch),
{
    let mono: u64 = ticks.wrapping_mul(TICK_NS);
    assert(mono == (ticks * TICK_NS) % 0x1_0000_0000_0000_0000);
    if id != 0 {
        return mono;
    }
    let r: u64 = boot_epoch.wrapping_add(mono);
    assert(r == (boot_epoch + ticks * TICK_NS) % 0x1_0000_0000_0000_0000) by {
        let m: int = 0x1_0000_0000_0000_0000;
        let p: int = ticks * TICK_NS;
        vstd::arithmetic::div_mod::lemma_add_mod_noop(boot_epoch as int, p, m);
        vstd::arithmetic::div_mod::lemma_add_mod_noop(boot_epoch as int, mono as int, m);
        vstd::arithmetic::div_mod::lemma_small_mod(mono as nat, m as nat);
        assert(r == (boot_epoch + mono) % m);
    }
    r
}

/// `clock_time_get`.
pub fn clock_time_get(mem: &mut [u8], id: i32, ticks: u64, boot_epoch: u64, out: u32) -> (r: i32)
    ensures
        r == write_result(fits(out, 8, old(mem)@.len() as int)),
        final(mem)@ == stored(old(mem)@, out, le64(clock_ns(id, ticks, boot_epoch) as u64)),
{
    let ns: u64 = clock_at(id, ticks, boot_epoch);
    let mut b: Vec<u8> = Vec::new();
    push_u64(&mut b, ns);
    assert(b@ =~= le64(ns));
    if crate::wt::mem::write(mem, out, b.as_slice()) { OK } else { EINVAL }
}

/// The time of day at boot, in nanoseconds since 1970: reckoned at the first call from the
/// clock's seconds, and kept.
pub fn boot_epoch_ns(kept: &mut u64, epoch_s: u64, ticks: u64) -> (r: u64)
    ensures
        r == *final(kept),
        *final(kept) == if *old(kept) != 0 {
            *old(kept) as int
        } else {
            (epoch_s * 1_000_000_000 - ticks * TICK_NS) % 0x1_0000_0000_0000_0000
        },
{
    if *kept == 0 {
        let a: u64 = epoch_s.wrapping_mul(1_000_000_000);
        let b: u64 = ticks.wrapping_mul(TICK_NS);
        *kept = a.wrapping_sub(b);
        assert((a - b) % 0x1_0000_0000_0000_0000 == (epoch_s * 1_000_000_000 - ticks * TICK_NS)
            % 0x1_0000_0000_0000_0000) by {
            vstd::arithmetic::div_mod::lemma_sub_mod_noop(
                epoch_s * 1_000_000_000,
                ticks * TICK_NS,
                0x1_0000_0000_0000_0000,
            );
        }
    }
    *kept
}

/// `random_get`: `fill` is as many random bytes as were asked for.
pub fn random_get(mem: &mut [u8], buf: u32, len: i32, fill: &[u8]) -> (r: i32)
    requires
        len >= 0 ==> fill@.len() == len,
    ensures
        if len < 0 {
            r == EINVAL && final(mem)@ == old(mem)@
        } else {
            &&& r == write_result(fits(buf, len as int, old(mem)@.len() as int))
            &&& final(mem)@ == stored(old(mem)@, buf, fill@)
        },
{
    if len < 0 {
        return EINVAL;
    }
    if crate::wt::mem::write(mem, buf, fill) { OK } else { EINVAL }
}

/// `poll_oneoff`, the first part: the tick until which to wait, and the tag of the
/// subscription. Only the first subscription counts, and it has to be to a clock.
pub fn poll_oneoff(mem: &[u8], in_ptr: u32, nsubs: i32, now: u64) -> (r: Result<(u64, Vec<u8>), i32>)
    ensures
        if nsubs < 1 || !fits(in_ptr, 48, mem@.len() as int) {
            r == Err::<(u64, Vec<u8>), i32>(EINVAL)
        } else {
            match clock_sub(mem@.subrange(in_ptr as int, in_ptr + 48)) {
                None => r == Err::<(u64, Vec<u8>), i32>(EINVAL),
                Some(c) => {
                    &&& r is Ok
                    &&& r->Ok_0.0 == wake_tick(now, c.1, c.2)
                    &&& r->Ok_0.1@ == c.0
                },
            }
        },
{
    if nsubs < 1 {
        return Err(EINVAL);
    }
    match read(mem, in_ptr, 48) {
        None => Err(EINVAL),
        Some(s) => match read_clock_sub(s.as_slice()) {
            None => Err(EINVAL),
            Some((tag, timeout, abstime)) => Ok((wait_until(now, timeout, abstime), tag)),
        },
    }
}

/// `poll_oneoff`, the end: one event, with the tag of the subscription.
pub fn poll_done(mem: &mut [u8], out_ptr: u32, nevents: u32, tag: &[u8]) -> (r: i32)
    ensures
        ({
            let m = old(mem)@;
            let e = clock_event(tag@);
            let m1 = stored(m, out_ptr, e);
            if !fits(out_ptr, e.len() as int, m.len() as int) {
                r == EINVAL && final(mem)@ == m
            } else {
                r == write_result(fits(nevents, 4, m.len() as int)) && final(mem)@ == stored(m1, nevents, le32(1))
            }
        }),
{
    let e: Vec<u8> = encode_clock_event(tag);
    if !crate::wt::mem::write(mem, out_ptr, e.as_slice()) {
        return EINVAL;
    }
    if write_u32(mem, nevents, 1) { OK } else { EINVAL }
}

} // verus!
