//! What an interpreted program's instance holds.

use vstd::prelude::*;

verus! {

/// What a descriptor of a program stands for.
pub enum FdEntry {
    /// The console: what is written goes there directly.
    StdoutConsole,
    /// An open file, by its number in the file system. Terminals are files too.
    Vfs(u32),
    /// A socket, by its place in the kernel's pool.
    Socket(usize),
    /// An open directory, by its path.
    Dir(String),
}

/// The state of a program's instance.
pub struct RuntimeState {
    /// By descriptor; nothing where there is no such descriptor.
    pub fds: Vec<Option<FdEntry>>,
    pub args: Vec<Vec<u8>>,
    pub env: Vec<Vec<u8>>,
    pub exit_code: i32,
    /// The directory from which a relative path is taken.
    pub cwd: String,
}

/// What a descriptor stands for.
pub open spec fn entry(fds: Seq<Option<FdEntry>>, fd: i32) -> Option<FdEntry> {
    if 0 <= fd < fds.len() { fds[fd as int] } else { None }
}

/// What one of the first three descriptors stands for, given the terminal that was opened
/// for it.
pub open spec fn opened(pts: Option<u32>) -> Option<FdEntry> {
    match pts {
        Some(f) => Some(FdEntry::Vfs(f)),
        None => None,
    }
}

fn entry_for(pts: Option<u32>) -> (r: Option<FdEntry>)
    ensures
        r == opened(pts),
{
    match pts {
        Some(f) => Some(FdEntry::Vfs(f)),
        None => None,
    }
}

impl RuntimeState {
    /// An instance at the root directory, with sixteen descriptors: the first three are the
    /// terminal, each as it could be opened.
    pub fn new(stdin: Option<u32>, stdout: Option<u32>, stderr: Option<u32>) -> (r: Self)
        ensures
            r.fds@.len() == 16,
            r.fds@[0] == opened(stdin),
            r.fds@[1] == opened(stdout),
            r.fds@[2] == opened(stderr),
            forall|i: int| 3 <= i < 16 ==> #[trigger] r.fds@[i] is None,
            r.args@.len() == 0,
            r.env@.len() == 0,
            r.exit_code == 0,
            r.cwd@ == "/"@,
    {
        let mut fds: Vec<Option<FdEntry>> = Vec::new();
        fds.push(entry_for(stdin));
        fds.push(entry_for(stdout));
        fds.push(entry_for(stderr));
        let mut i: usize = 3;
        while i < 16
            invariant
                3 <= i <= 16,
                fds@.len() == i,
                fds@[0] == opened(stdin),
                fds@[1] == opened(stdout),
                fds@[2] == opened(stderr),
                forall|k: int| 3 <= k < i ==> #[trigger] fds@[k] is None,
            decreases 16 - i,
        {
            fds.push(None);
            i += 1;
        }
        RuntimeState { fds, args: Vec::new(), env: Vec::new(), exit_code: 0, cwd: String::from_str("/") }
    }

    /// What a descriptor stands for.
    pub fn get(&self, fd: i32) -> (r: Option<&FdEntry>)
        ensures
            match r {
                Some(e) => entry(self.fds@, fd) == Some(*e),
                None => entry(self.fds@, fd) is None,
            },
    {
        if fd < 0 || fd as usize >= self.fds.len() {
            return None;
        }
        match &self.fds[fd as usize] {
            Some(e) => Some(e),
            None => None,
        }
    }
}

} // verus!
