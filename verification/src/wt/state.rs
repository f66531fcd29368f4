//! What a compiled program's instance holds: its arguments, its environment, its exit code
//! and its descriptors.

use vstd::prelude::*;
use crate::wt::window::{HasWindow, WmState};

verus! {

/// What a descriptor of a program stands for.
#[derive(Clone, Copy, PartialEq, Eq, Structural, Debug)]
pub enum WtFd {
    /// The console: written to, and at its end when read.
    Console,
    /// An open file, by its number in the file system.
    Vfs(u32),
    /// Nothing.
    Closed,
}

/// The state of a program's instance.
pub struct WtState {
    pub args: Vec<Vec<u8>>,
    /// Entries `NAME=value`.
    pub env: Vec<Vec<u8>>,
    pub exit: Option<i32>,
    /// By descriptor: 0 to 2 are the console, 3 is the root directory, files follow.
    pub fds: Vec<WtFd>,
    /// The terminal that output goes to; the console where there is none.
    pub stdout_pty: Option<u32>,
    /// The group of threads that the instance belongs to, where it has threads.
    pub threads: Option<u32>,
}

/// What a descriptor stands for; nothing where there is no such descriptor.
pub open spec fn fd_of(fds: Seq<WtFd>, fd: i32) -> Option<WtFd> {
    if 0 <= fd < fds.len() { Some(fds[fd as int]) } else { None }
}

impl WtState {
    /// An instance with these arguments, no environment, and the console.
    pub fn new(args: Vec<Vec<u8>>) -> (r: Self)
        ensures
            r.args == args,
            r.env@ == Seq::<Vec<u8>>::empty(),
            r.exit is None,
            r.fds@ == seq![WtFd::Console, WtFd::Console, WtFd::Console, WtFd::Closed],
            r.stdout_pty is None,
            r.threads is None,
    {
        WtState {
            args,
            env: Vec::new(),
            exit: None,
            fds: vec![WtFd::Console, WtFd::Console, WtFd::Console, WtFd::Closed],
            stdout_pty: None,
            threads: None,
        }
    }

    /// Gives an open file the next descriptor.
    pub fn install_vfs(&mut self, f: u32) -> (r: i32)
        requires
            old(self).fds@.len() <= i32::MAX,
        ensures
            r == old(self).fds@.len(),
            final(self).fds@ == old(self).fds@.push(WtFd::Vfs(f)),
            *final(self) == (WtState { fds: final(self).fds, ..*old(self) }),
    {
        self.fds.push(WtFd::Vfs(f));
        (self.fds.len() - 1) as i32
    }

    /// What a descriptor stands for.
    pub fn get(&self, fd: i32) -> (r: Option<&WtFd>)
        ensures
            match r {
                Some(f) => fd_of(self.fds@, fd) == Some(*f),
                None => fd_of(self.fds@, fd) is None,
            },
    {
        if fd < 0 || fd as usize >= self.fds.len() {
            return None;
        }
        Some(&self.fds[fd as usize])
    }
}

/// Capability of a program's state that holds a [`WtState`].
pub trait HasWasi {
    /// The instance's state, to change it.
    fn wasi(&mut self) -> &mut WtState;

    /// The instance's state.
    fn wasi_ref(&self) -> &WtState;
}

impl HasWasi for WtState {
    fn wasi(&mut self) -> (r: &mut WtState)
        ensures
            *r == *old(self),
            *final(self) == *final(r),
    {
        self
    }

    fn wasi_ref(&self) -> (r: &WtState)
        ensures
            *r == *self,
    {
        self
    }
}

/// The state of a program with a window.
pub struct AppState {
    pub wasi: WtState,
    pub win: WmState,
}

impl HasWasi for AppState {
    fn wasi(&mut self) -> (r: &mut WtState)
        ensures
            *r == old(self).wasi,
            *final(self) == (AppState { wasi: *final(r), ..*old(self) }),
    {
        &mut self.wasi
    }

    fn wasi_ref(&self) -> (r: &WtState)
        ensures
            *r == self.wasi,
    {
        &self.wasi
    }
}

impl HasWindow for AppState {
    fn win(&mut self) -> (r: &mut WmState)
        ensures
            *r == old(self).win,
            *final(self) == (AppState { win: *final(r), ..*old(self) }),
    {
        &mut self.win
    }

    fn win_ref(&self) -> (r: &WmState)
        ensures
            *r == self.win,
    {
        &self.win
    }
}

/// An installed file is found under the descriptor that it was given.
pub proof fn installed_is_found(fds: Seq<WtFd>, f: u32)
    requires
        fds.len() <= i32::MAX,
    ensures
        fd_of(fds.push(WtFd::Vfs(f)), fds.len() as i32) == Some(WtFd::Vfs(f)),
        forall|fd: i32|
            fd_of(fds, fd) is Some ==> #[trigger] fd_of(fds.push(WtFd::Vfs(f)), fd) == fd_of(fds, fd),
{
}

} // verus!
