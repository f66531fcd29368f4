//! The calls by which an interpreted program starts other programs, moves between
//! directories and reads the clock.

use vstd::prelude::*;
use crate::bytes::{bits32, contents, le16, le64, push_u16, push_u64, unsigned32};
use crate::host::blob::{argv_of, decode_argv, decode_pipeline, pipeline_of, stage_views};
use crate::host::cwd::{resolve_cwd, resolved};
use crate::host::mem::{bounds, guest_read, guest_write, write_errno, written};
use crate::host::reply::text_at;
use crate::host::state::{entry, RuntimeState};
use crate::host::term::terminal;
use crate::pipeline::PIPE_MAX_STAGES;
use crate::suspend::{HostCall, SuspendReason, TRAP};
use crate::text::{same, utf8};
use crate::wasi::VfsKind;

verus! {

/// Invalid argument.
pub const EINVAL: i32 = 22;

/// Too many stages.
pub const E2BIG: i32 = 7;

/// No such file.
pub const ENOENT: i32 = 44;

/// Not a directory.
pub const ENOTDIR: i32 = 54;

/// How a call begins that takes a text: an address that does not fit is an errno, bytes that
/// are no text end the program.
pub open spec fn text_arg(mem: Seq<u8>, ptr: i32, len: i32) -> Result<Seq<char>, HostCall> {
    match bounds(ptr, len, mem.len() as int) {
        Err(e) => Err(HostCall::Return(e)),
        Ok(_) => match text_at(mem, ptr, len) {
            Some(s) => Ok(s),
            None => Err(HostCall::Exit(TRAP)),
        },
    }
}

/// Reads a text.
pub fn read_text(mem: &[u8], ptr: i32, len: i32) -> (r: Result<String, HostCall>)
    ensures
        match text_arg(mem@, ptr, len) {
            Ok(s) => r is Ok && r->Ok_0@ == s,
            Err(c) => r == Err::<String, HostCall>(c),
        },
{
    match guest_read(mem, ptr, len) {
        Err(e) => Err(HostCall::Return(e)),
        Ok(b) => match utf8(b) {
            None => Err(HostCall::Exit(TRAP)),
            Some(s) => Ok(s),
        },
    }
}

/// The terminal that a program's children get: the one behind its output, or the first.
pub open spec fn child_terminal(st: RuntimeState, pts: Option<usize>) -> usize {
    match terminal(entry(st.fds@, 1), pts) {
        Some(i) => i,
        None => 0,
    }
}

/// The terminal that a program's children get; `pts` is the terminal of the open file behind
/// its output, where that file is one.
fn term_pts(st: &RuntimeState, pts: Option<usize>) -> (r: usize)
    ensures
        r == child_terminal(*st, pts),
{
    match crate::host::term::fd_to_pty(st, 1, pts) {
        Some(i) => i,
        None => 0,
    }
}

/// The arguments in a byte string; none where it is malformed.
pub open spec fn argv_or_none(b: Seq<u8>) -> Seq<Seq<u8>> {
    match argv_of(b) {
        Some(v) => v,
        None => Seq::empty(),
    }
}

/// `exec`: the program waits for a child. The child inherits the directory and the terminal.
pub fn ruos_exec(
    st: &RuntimeState,
    mem: &[u8],
    path_ptr: i32,
    path_len: i32,
    argv_ptr: i32,
    argv_len: i32,
    exit_code_ptr: i32,
    pts: Option<usize>,
) -> (r: HostCall)
    ensures
        match text_arg(mem@, path_ptr, path_len) {
            Err(c) => r == c,
            Ok(p) => match bounds(argv_ptr, argv_len, mem@.len() as int) {
                Err(e) => r == HostCall::Return(e),
                Ok(a) => {
                    &&& r matches HostCall::Suspend(SuspendReason::Exec { path, argv, cwd, term_pts, exit_code_ptr: q })
                    &&& path@ == p
                    &&& contents(argv@) == argv_or_none(mem@.subrange(a.0, a.0 + a.1))
                    &&& cwd@ == st.cwd@
                    &&& term_pts == child_terminal(*st, pts)
                    &&& q == unsigned32(exit_code_ptr)
                },
            },
        },
{
    let path: String = match read_text(mem, path_ptr, path_len) {
        Err(c) => {
            return c;
        },
        Ok(p) => p,
    };
    let blob: Vec<u8> = match guest_read(mem, argv_ptr, argv_len) {
        Err(e) => {
            return HostCall::Return(e);
        },
        Ok(b) => b,
    };
    let argv: Vec<Vec<u8>> = match decode_argv(blob.as_slice()) {
        Some(v) => v,
        None => Vec::new(),
    };
    assert(contents(argv@) =~= argv_or_none(blob@));
    let cwd: String = st.cwd.clone();
    let term_pts: usize = term_pts(st, pts);
    HostCall::Suspend(SuspendReason::Exec { path, argv, cwd, term_pts, exit_code_ptr: bits32(exit_code_ptr) })
}

/// `exec_pipeline`: the program waits for stages that run side by side.
pub fn ruos_exec_pipeline(
    st: &RuntimeState,
    mem: &[u8],
    buf_ptr: i32,
    buf_len: i32,
    exit_code_ptr: i32,
    pts: Option<usize>,
) -> (r: HostCall)
    ensures
        match bounds(buf_ptr, buf_len, mem@.len() as int) {
            Err(e) => r == HostCall::Return(e),
            Ok(b) => match pipeline_of(mem@.subrange(b.0, b.0 + b.1)) {
                Some(s) if s.len() > 0 => if s.len() > PIPE_MAX_STAGES {
                    r == HostCall::Return(E2BIG)
                } else {
                    &&& r matches HostCall::Suspend(
                        SuspendReason::ExecPipeline { stages, cwd, term_pts, exit_code_ptr: q },
                    )
                    &&& stage_views(stages@) == s
                    &&& cwd@ == st.cwd@
                    &&& term_pts == child_terminal(*st, pts)
                    &&& q == unsigned32(exit_code_ptr)
                },
                _ => r == HostCall::Return(EINVAL),
            },
        },
{
    let blob: Vec<u8> = match guest_read(mem, buf_ptr, buf_len) {
        Err(e) => {
            return HostCall::Return(e);
        },
        Ok(b) => b,
    };
    match decode_pipeline(blob.as_slice()) {
        None => HostCall::Return(EINVAL),
        Some(stages) => {
            if stages.len() == 0 {
                return HostCall::Return(EINVAL);
            }
            if stages.len() > PIPE_MAX_STAGES {
                return HostCall::Return(E2BIG);
            }
            let cwd: String = st.cwd.clone();
            let term_pts: usize = term_pts(st, pts);
            HostCall::Suspend(
                SuspendReason::ExecPipeline { stages, cwd, term_pts, exit_code_ptr: bits32(exit_code_ptr) },
            )
        },
    }
}

/// `chdir`, the first part: the directory to go to.
pub fn ruos_chdir(st: &RuntimeState, mem: &[u8], path_ptr: i32, path_len: i32) -> (r: Result<String, HostCall>)
    ensures
        match text_arg(mem@, path_ptr, path_len) {
            Ok(p) => r is Ok && r->Ok_0@ == resolved(st.cwd@, p),
            Err(c) => r == Err::<String, HostCall>(c),
        },
{
    match read_text(mem, path_ptr, path_len) {
        Err(c) => Err(c),
        Ok(p) => Ok(resolve_cwd(st.cwd.as_str(), p.as_str())),
    }
}

/// `chdir`, the second part: `kind` is what the file system tells of the directory. The root
/// is always there.
pub fn ruos_chdir_done(st: &mut RuntimeState, dir: String, kind: Option<VfsKind>) -> (r: i32)
    ensures
        ({
            let errno = if dir@ == "/"@ || kind == Some(VfsKind::Dir) {
                0i32
            } else if kind is Some {
                ENOTDIR
            } else {
                ENOENT
            };
            &&& r == errno
            &&& *final(st) == if errno == 0 {
                RuntimeState { cwd: dir, ..*old(st) }
            } else {
                *old(st)
            }
        }),
{
    if !same(dir.as_str(), "/") {
        match kind {
            Some(VfsKind::Dir) => {},
            Some(_) => {
                return ENOTDIR;
            },
            None => {
                return ENOENT;
            },
        }
    }
    st.cwd = dir;
    0
}

/// A length as the kernel takes it: a negative one is very large.
pub open spec fn size_of_len(v: i32) -> int {
    if v < 0 { v + 0x1_0000_0000_0000_0000 } else { v as int }
}

/// `readdir`: the program waits for the names in a directory.
pub fn ruos_readdir(
    st: &RuntimeState,
    mem: &[u8],
    path_ptr: i32,
    path_len: i32,
    buf_ptr: i32,
    buf_len: i32,
    nread_ptr: i32,
) -> (r: HostCall)
    ensures
        match text_arg(mem@, path_ptr, path_len) {
            Err(c) => r == c,
            Ok(p) => {
                &&& r matches HostCall::Suspend(
                    SuspendReason::ReadDir { path, buf_ptr: b, buf_len: n, nread_ptr: q },
                )
                &&& path@ == resolved(st.cwd@, p)
                &&& b == unsigned32(buf_ptr)
                &&& n == size_of_len(buf_len)
                &&& q == unsigned32(nread_ptr)
            },
        },
{
    match read_text(mem, path_ptr, path_len) {
        Err(c) => c,
        Ok(p) => {
            let path: String = resolve_cwd(st.cwd.as_str(), p.as_str());
            let buf_len: u64 = if buf_len < 0 {
                (buf_len as i64 + 0x1_0000_0000) as u64 + 0xffff_ffff_0000_0000
            } else {
                buf_len as u64
            };
            HostCall::Suspend(
                SuspendReason::ReadDir { path, buf_ptr: bits32(buf_ptr), buf_len, nread_ptr: bits32(nread_ptr) },
            )
        },
    }
}

/// A date and a time of day.
#[derive(Clone, Copy, PartialEq, Eq, Structural, Debug)]
pub struct DateTime {
    pub year: u16,
    pub month: u8,
    pub day: u8,
    pub hour: u8,
    pub minute: u8,
    pub second: u8,
}

/// The memory and the errno after the first `n` values were written, each at its place. A
/// value that does not fit ends it.
pub open spec fn in_turn(mem: Seq<u8>, ptrs: Seq<i32>, values: Seq<Seq<u8>>, n: int) -> (Seq<u8>, i32)
    decreases n,
{
    if n <= 0 {
        (mem, 0)
    } else {
        let (m, e) = in_turn(mem, ptrs, values, n - 1);
        if e != 0 {
            (m, e)
        } else {
            (written(m, ptrs[n - 1], values[n - 1]), write_errno(m, ptrs[n - 1], values[n - 1]))
        }
    }
}

proof fn lemma_in_turn_over(mem: Seq<u8>, ptrs: Seq<i32>, values: Seq<Seq<u8>>, k: int, n: int)
    requires
        0 <= k <= n,
        in_turn(mem, ptrs, values, k).1 != 0,
    ensures
        in_turn(mem, ptrs, values, n) == in_turn(mem, ptrs, values, k),
    decreases n - k,
{
    if k < n {
        lemma_in_turn_over(mem, ptrs, values, k, n - 1);
    }
}

/// The fields of a time, and the seconds since 1970, as they are written.
pub open spec fn time_fields(t: DateTime, epoch: u64) -> Seq<Seq<u8>> {
    seq![le16(t.year), seq![t.month], seq![t.day], seq![t.hour], seq![t.minute], seq![t.second], le64(epoch)]
}

fn one(b: u8) -> (r: Vec<u8>)
    ensures
        r@ == seq![b],
{
    let r: Vec<u8> = vec![b];
    assert(r@ =~= seq![b]);
    r
}

/// `time_get`: the fields of the time, each at its place: year, month, day, hour, minute,
/// second, and the seconds since 1970.
pub fn ruos_time_get(mem: &mut [u8], ptrs: [i32; 7], t: DateTime, epoch: u64) -> (r: i32)
    ensures
        (final(mem)@, r) == in_turn(old(mem)@, ptrs@, time_fields(t, epoch), 7),
{
    let mut year: Vec<u8> = Vec::new();
    push_u16(&mut year, t.year);
    let mut secs: Vec<u8> = Vec::new();
    push_u64(&mut secs, epoch);
    let values: Vec<Vec<u8>> = vec![
        year,
        one(t.month),
        one(t.day),
        one(t.hour),
        one(t.minute),
        one(t.second),
        secs,
    ];
    assert(contents(values@) =~= time_fields(t, epoch)) by {
        assert(values@[0]@ =~= le16(t.year));
        assert(values@[6]@ =~= le64(epoch));
    }
    let ghost v = contents(values@);
    let mut i: usize = 0;
    while i < 7
        invariant
            i <= 7,
            values@.len() == 7,
            v == contents(values@),
            v == time_fields(t, epoch),
            in_turn(old(mem)@, ptrs@, v, i as int) == (mem@, 0i32),
        decreases 7 - i,
    {
        assert(v[i as int] == values@[i as int]@);
        if let Err(e) = guest_write(mem, ptrs[i], values[i].as_slice()) {
            proof {
                lemma_in_turn_over(old(mem)@, ptrs@, v, i + 1, 7);
            }
            return e;
        }
        i += 1;
    }
    0
}

} // verus!
