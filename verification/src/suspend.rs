//! What a program may have to wait for.
//!
//! A call that has to wait does not block. It ends with a reason; the program is resumed
//! with an errno when what it waits for has happened.

use vstd::prelude::*;
use crate::wasi::{OpenFlags, Whence};

verus! {

/// A stage of a pipeline: the program's path and its arguments.
pub struct Stage {
    pub path: String,
    pub argv: Vec<Vec<u8>>,
}

/// What a program waits for, and where the outcome is to be written. Sockets are places in
/// the kernel's pool, files are numbers of the file system.
pub enum SuspendReason {
    Sleep { ticks: u64, events_ptr: u32, nevents_ptr: u32 },
    SockAccept { sock: usize, new_fd_ptr: u32 },
    SockConnect { sock: usize, addr: [u8; 4], port: u16, local_port: u16 },
    SockRecv { sock: usize, buf_ptr: u32, max_len: u32, nrecv_ptr: u32 },
    SockSend { sock: usize, bytes: Vec<u8>, nsent_ptr: u32 },
    VfsRead { fd: u32, buf_ptr: u32, max_len: u32, nread_ptr: u32 },
    VfsWrite { fd: u32, bytes: Vec<u8>, nwritten_ptr: u32 },
    VfsSeek { fd: u32, offset: i64, whence: Whence, newoffset_ptr: u32 },
    VfsClose { fd: u32 },
    PathOpen { path: String, flags: OpenFlags, opened_fd_ptr: u32 },
    OpenDir { path: String, opened_fd_ptr: u32 },
    PathUnlink { path: String },
    PathMkdir { path: String },
    PathRmdir { path: String },
    PathFilestat { path: String, buf_ptr: u32 },
    PathRename { src: String, dst: String },
    Exec { path: String, argv: Vec<Vec<u8>>, cwd: String, term_pts: usize, exit_code_ptr: u32 },
    ExecPipeline { stages: Vec<Stage>, cwd: String, term_pts: usize, exit_code_ptr: u32 },
    Ping { target: [u8; 4], timeout_ticks: u64, latency_ms_ptr: u32 },
    ReadDir { path: String, buf_ptr: u32, buf_len: u64, nread_ptr: u32 },
}

/// The code with which a program ends that the kernel has to stop.
pub const TRAP: i32 = -1;

/// How a call of a program ends.
pub enum HostCall {
    /// The program goes on with this errno.
    Return(i32),
    /// The program ends with this code.
    Exit(i32),
    /// The program waits.
    Suspend(SuspendReason),
}

} // verus!
