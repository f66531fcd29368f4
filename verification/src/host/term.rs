//! The terminal settings of an interpreted program.

use vstd::prelude::*;
use crate::host::mem::{bounds, guest_read, guest_write, write_errno, written};
use crate::host::state::{entry, FdEntry, RuntimeState};

verus! {

/// The descriptor is not a terminal.
pub const ENOTTY: i32 = 25;

/// The terminal behind a descriptor; `pts` is the terminal of the open file that the
/// descriptor stands for, where that file is one.
pub open spec fn terminal(e: Option<FdEntry>, pts: Option<usize>) -> Option<usize> {
    match e {
        Some(FdEntry::Vfs(_)) => pts,
        _ => None,
    }
}

/// The terminal behind a descriptor.
pub fn fd_to_pty(st: &RuntimeState, fd: i32, pts: Option<usize>) -> (r: Option<usize>)
    ensures
        r == terminal(entry(st.fds@, fd), pts),
{
    match st.get(fd) {
        Some(FdEntry::Vfs(_)) => pts,
        _ => None,
    }
}

/// `isatty`.
pub fn isatty(st: &RuntimeState, fd: i32, pts: Option<usize>) -> (r: i32)
    ensures
        r == if terminal(entry(st.fds@, fd), pts) is Some { 1i32 } else { 0 },
{
    match fd_to_pty(st, fd, pts) {
        Some(_) => 1,
        None => 0,
    }
}

/// `tcgetattr`: `settings` are those of the terminal.
pub fn tcgetattr(
    st: &RuntimeState,
    mem: &mut [u8],
    fd: i32,
    termios_ptr: i32,
    pts: Option<usize>,
    settings: &[u8],
) -> (r: i32)
    ensures
        if terminal(entry(st.fds@, fd), pts) is None {
            r == ENOTTY && final(mem)@ == old(mem)@
        } else {
            &&& r == write_errno(old(mem)@, termios_ptr, settings@)
            &&& final(mem)@ == written(old(mem)@, termios_ptr, settings@)
        },
{
    match fd_to_pty(st, fd, pts) {
        None => ENOTTY,
        Some(_) => match guest_write(mem, termios_ptr, settings) {
            Err(e) => e,
            Ok(_) => 0,
        },
    }
}

/// `tcsetattr`: the terminal, and its new settings, of `size` bytes.
pub fn tcsetattr(
    st: &RuntimeState,
    mem: &[u8],
    fd: i32,
    termios_ptr: i32,
    pts: Option<usize>,
    size: i32,
) -> (r: Result<(usize, Vec<u8>), i32>)
    ensures
        match terminal(entry(st.fds@, fd), pts) {
            None => r == Err::<(usize, Vec<u8>), i32>(ENOTTY),
            Some(idx) => match bounds(termios_ptr, size, mem@.len() as int) {
                Err(e) => r == Err::<(usize, Vec<u8>), i32>(e),
                Ok(p) => r is Ok && r->Ok_0.0 == idx && r->Ok_0.1@ == mem@.subrange(p.0, p.0 + p.1),
            },
        },
{
    match fd_to_pty(st, fd, pts) {
        None => Err(ENOTTY),
        Some(idx) => match guest_read(mem, termios_ptr, size) {
            Err(e) => Err(e),
            Ok(b) => Ok((idx, b)),
        },
    }
}

} // verus!
