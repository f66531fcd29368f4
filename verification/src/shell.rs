//! How shells are started.

use vstd::prelude::*;
use crate::text::push_decimal;

verus! {

/// A shell that is to run on a terminal.
pub struct ShellOnPty {
    pub idx: usize,
    pub path: String,
}

/// Asks for the shell on terminal `idx`.
pub fn spawn_shell_on_pty(idx: usize) -> (r: ShellOnPty)
    ensures
        r.idx == idx,
        r.path@ == "/bin/shell.wasm"@,
{
    ShellOnPty { idx, path: String::from_str("/bin/shell.wasm") }
}

/// The path of a terminal.
pub fn pts_path(idx: u64) -> (r: Vec<u8>)
    ensures
        r@ == vstd::utf8::encode_utf8("/dev/pts/"@) + crate::text::decimal(idx as nat),
{
    let mut out: Vec<u8> = Vec::new();
    crate::bytes::push_all(&mut out, "/dev/pts/".as_bytes());
    push_decimal(&mut out, idx);
    out
}

/// The arguments of the console's shell: at boot its path, by which it runs the boot script;
/// later a flag by which it does not.
pub fn boot_shell_args(replay_init: bool) -> (r: Vec<Vec<u8>>)
    ensures
        crate::bytes::contents(r@) == if replay_init {
            seq![vstd::utf8::encode_utf8("/bin/shell.wasm"@)]
        } else {
            seq![vstd::utf8::encode_utf8("shell"@), vstd::utf8::encode_utf8("--no-init"@)]
        },
{
    let mut out: Vec<Vec<u8>> = Vec::new();
    if replay_init {
        out.push("/bin/shell.wasm".as_bytes_vec());
        assert(crate::bytes::contents(out@) =~= seq![vstd::utf8::encode_utf8("/bin/shell.wasm"@)]);
    } else {
        out.push("shell".as_bytes_vec());
        out.push("--no-init".as_bytes_vec());
        assert(crate::bytes::contents(out@) =~= seq![
            vstd::utf8::encode_utf8("shell"@),
            vstd::utf8::encode_utf8("--no-init"@),
        ]);
    }
    out
}

/// A file while it is read whole: its bytes, zero where nothing was read yet, and how many
/// were read.
pub struct ReadAll {
    pub buf: Vec<u8>,
    pub read: usize,
}

impl ReadAll {
    /// No more was read than the file holds.
    pub open spec fn wf(self) -> bool {
        self.read <= self.buf@.len()
    }

    /// A file of `end` bytes of which nothing was read yet.
    pub fn new(end: usize) -> (r: Self)
        ensures
            r.wf(),
            r.buf@ == Seq::new(end as nat, |i: int| 0u8),
            r.read == 0,
    {
        let buf: Vec<u8> = vec![0; end];
        assert(buf@ =~= Seq::new(end as nat, |i: int| 0u8));
        ReadAll { buf, read: 0 }
    }

    /// How many bytes are still to be read.
    pub fn missing(&self) -> (r: usize)
        requires
            self.wf(),
        ensures
            r == self.buf@.len() - self.read,
    {
        self.buf.len() - self.read
    }

    /// Takes the bytes that the next read gave, and tells whether to go on: a read that gives
    /// nothing ends the file early, and the rest stays zero.
    pub fn got(&mut self, chunk: &[u8]) -> (more: bool)
        requires
            old(self).wf(),
            chunk@.len() <= old(self).buf@.len() - old(self).read,
        ensures
            final(self).wf(),
            final(self).read == old(self).read + chunk@.len(),
            final(self).buf@ == old(self).buf@.subrange(0, old(self).read as int) + chunk@ + old(self).buf@.subrange(
                old(self).read + chunk@.len(),
                old(self).buf@.len() as int,
            ),
            more == (chunk@.len() > 0 && final(self).read < final(self).buf@.len()),
    {
        let ghost before = self.buf@;
        let start: usize = self.read;
        let n: usize = chunk.len();
        let total: usize = self.buf.len();
        let mut i: usize = 0;
        while i < n
            invariant
                i <= n,
                n == chunk@.len(),
                start == self.read,
                start + n <= total,
                total == before.len(),
                self.buf@ == before.subrange(0, start as int) + chunk@.subrange(0, i as int) + before.subrange(
                    start + i,
                    before.len() as int,
                ),
            decreases n - i,
        {
            self.buf[start + i] = chunk[i];
            i += 1;
            assert(self.buf@ =~= before.subrange(0, start as int) + chunk@.subrange(0, i as int) + before.subrange(
                start + i,
                before.len() as int,
            ));
        }
        assert(chunk@.subrange(0, n as int) =~= chunk@);
        self.read = start + n;
        n > 0 && self.read < self.buf.len()
    }
}

} // verus!
