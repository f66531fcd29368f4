//! The keys and the mode of the terminal of a text program.

use vstd::prelude::*;

verus! {

/// What a wait for a key sees when it looks.
pub struct KeyView {
    /// Whether the program has a terminal.
    pub has_pty: bool,
    /// Whether it runs on the processor that moves the terminal's bytes.
    pub on_boot_core: bool,
    pub shutdown: bool,
    pub kill_pending: bool,
    /// Whether the wait has lasted as long as it may.
    pub late: bool,
}

/// Whether a wait for a key is over before the next byte is looked at: -1 where no key can
/// come any more.
pub open spec fn key_refused(v: KeyView) -> bool {
    !v.has_pty || v.on_boot_core || v.shutdown || v.kill_pending
}

/// What a wait for a key returns: -1 where none can come, a byte plus one, 0 after the time;
/// nothing while it goes on. `byte` is the next byte of the terminal.
pub fn poll_key(v: &KeyView, byte: Option<u8>) -> (r: Option<i32>)
    ensures
        r == if key_refused(*v) {
            Some(-1i32)
        } else {
            match byte {
                Some(b) => Some((b + 1) as i32),
                None => if v.late { Some(0i32) } else { None },
            }
        },
        r == Some(-1i32) <==> !v.has_pty || v.on_boot_core || v.shutdown || v.kill_pending,
{
    if !v.has_pty || v.on_boot_core || v.shutdown || v.kill_pending {
        return Some(-1);
    }
    match byte {
        Some(b) => Some(b as i32 + 1),
        None => if v.late { Some(0) } else { None },
    }
}

/// The tick at which a wait for a key is over.
pub fn key_deadline(now: u64, timeout_ticks: i64) -> (r: u64)
    requires
        timeout_ticks > 0 ==> now + timeout_ticks <= u64::MAX,
    ensures
        r == now + if timeout_ticks > 0 { timeout_ticks as int } else { 0 },
{
    now + (if timeout_ticks > 0 { timeout_ticks as u64 } else { 0 })
}

/// The mode that a terminal had before a program changed it.
pub struct SavedMode {
    pub saved: Option<u32>,
}

impl SavedMode {
    /// Puts the terminal into raw mode, by clearing `mask` in its flags, or back into the mode
    /// that it had. Returns the flags that the terminal gets, where they change.
    pub fn set_raw(&mut self, raw: bool, flags: u32, mask: u32) -> (r: Option<u32>)
        ensures
            if raw {
                r == Some(flags & !mask) && final(self).saved == Some(flags)
            } else {
                r == old(self).saved && final(self).saved is None
            },
    {
        if raw {
            self.saved = Some(flags);
            return Some(flags & !mask);
        }
        let before: Option<u32> = self.saved;
        self.saved = None;
        before
    }
}

/// A terminal that was put into raw mode has its own flags again after it was put back.
pub fn raw_and_back(m: &mut SavedMode, flags: u32, mask: u32) -> (r: Option<u32>)
    ensures
        r == Some(flags),
        final(m).saved is None,
{
    m.set_raw(true, flags, mask);
    m.set_raw(false, flags & !mask, mask)
}

} // verus!
