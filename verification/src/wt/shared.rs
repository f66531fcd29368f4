//! Memory that several threads share, and waiting for a change in it.

use vstd::prelude::*;

verus! {

/// How a wait ended.
#[derive(Clone, Copy, PartialEq, Eq, Structural, Debug)]
pub enum WaitResult {
    /// It was woken.
    Woken,
    /// The word did not hold the expected value, so there was no wait.
    Mismatch,
    /// Its time was over.
    TimedOut,
}

/// Why memory cannot be shared.
#[derive(Clone, Copy, PartialEq, Eq, Structural, Debug)]
pub enum SharedError {
    /// The engine has shared memory switched off.
    Disabled,
    /// The memory's type is not a shared one.
    NotShared,
}

/// Whether memory of a type can be shared.
pub fn wrap(enabled: bool, shared: bool) -> (r: Result<(), SharedError>)
    ensures
        r == if !enabled {
            Err::<(), SharedError>(SharedError::Disabled)
        } else if !shared {
            Err::<(), SharedError>(SharedError::NotShared)
        } else {
            Ok::<(), SharedError>(())
        },
{
    if !enabled {
        Err(SharedError::Disabled)
    } else if !shared {
        Err(SharedError::NotShared)
    } else {
        Ok(())
    }
}

/// The length that programs see after an attempt to grow the memory: the new one where it grew,
/// `grown` being the old and the new length.
pub fn grow(length: usize, grown: Option<(usize, usize)>) -> (r: usize)
    ensures
        r == match grown {
            Some((_, new)) => new,
            None => length,
        },
{
    match grown {
        Some((_, new)) => new,
        None => length,
    }
}

/// A timeout in nanoseconds as the kernel takes it: negative for none, and no more than a
/// signed number holds.
pub fn timeout_ns(timeout: Option<u128>) -> (r: i64)
    ensures
        r == match timeout {
            None => -1,
            Some(ns) => if ns > i64::MAX {
                i64::MAX as int
            } else {
                ns as int
            },
        },
{
    match timeout {
        None => -1,
        Some(ns) => if ns > i64::MAX as u128 {
            i64::MAX
        } else {
            ns as i64
        },
    }
}

/// How a wait ended, by the kernel's code for it.
pub fn wait_result(code: u32) -> (r: WaitResult)
    ensures
        r == if code == 0 {
            WaitResult::Woken
        } else if code == 1 {
            WaitResult::Mismatch
        } else {
            WaitResult::TimedOut
        },
{
    if code == 0 {
        WaitResult::Woken
    } else if code == 1 {
        WaitResult::Mismatch
    } else {
        WaitResult::TimedOut
    }
}

} // verus!
