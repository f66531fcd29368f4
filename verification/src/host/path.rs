//! The calls of an interpreted program that name files.

use vstd::prelude::*;
use crate::bytes::{bits32, unsigned32};
use crate::host::cwd::{resolve_cwd, resolved};
use crate::host::proc::{read_text, text_arg};
use crate::host::reply::{read_name, text_at};
use crate::host::state::{entry, FdEntry, RuntimeState};
use crate::suspend::{HostCall, SuspendReason, TRAP};
use crate::text::{part, same};
use crate::wasi::{bit, bits_are_those_of_the_word, has_bit, OpenFlags};

verus! {

/// The path lies outside what the program may reach.
pub const ENOTCAPABLE: i32 = 76;

/// Whether a plain path is a directory or lies below it.
pub open spec fn within(root: Seq<char>, path: Seq<char>) -> bool {
    ||| root == "/"@
    ||| path == root
    ||| root.len() < path.len() && path.take(root.len() as int) == root && path[root.len() as int] == '/'
}

/// Whether a program that may reach a directory may reach a plain path.
pub fn grants(root: &str, path: &str) -> (r: bool)
    ensures
        r == within(root@, path@),
{
    if same(root, "/") || same(path, root) {
        return true;
    }
    let n: usize = root.unicode_len();
    if n >= path.unicode_len() {
        return false;
    }
    let start: String = part(path, 0, n);
    assert(path@.subrange(0, n as int) =~= path@.take(n as int));
    same(start.as_str(), root) && path.get_char(n) == '/'
}

/// The directory from which a path is taken: that of an open directory, else the root.
pub open spec fn base_of(st: RuntimeState, dir_fd: i32) -> Seq<char> {
    match entry(st.fds@, dir_fd) {
        Some(FdEntry::Dir(p)) => p@,
        _ => "/"@,
    }
}

/// Takes a path from the directory of a descriptor, and makes it plain.
pub fn resolve_at(st: &RuntimeState, dir_fd: i32, path: &str) -> (r: String)
    ensures
        r@ == resolved(base_of(*st, dir_fd), path@),
{
    match st.get(dir_fd) {
        Some(FdEntry::Dir(p)) => resolve_cwd(p.as_str(), path),
        _ => resolve_cwd("/", path),
    }
}

/// The path that a call names; the program ends where it names none.
pub open spec fn path_named(st: RuntimeState, mem: Seq<u8>, dir_fd: i32, ptr: i32, len: i32) -> Option<Seq<char>> {
    match text_at(mem, ptr, len) {
        Some(s) => Some(resolved(base_of(st, dir_fd), s)),
        None => None,
    }
}

/// Reads the path that a call names.
pub fn read_path(st: &RuntimeState, mem: &[u8], dir_fd: i32, path_ptr: i32, path_len: i32) -> (r: Result<
    String,
    HostCall,
>)
    ensures
        match path_named(*st, mem@, dir_fd, path_ptr, path_len) {
            Some(p) => r is Ok && r->Ok_0@ == p,
            None => r == Err::<String, HostCall>(HostCall::Exit(TRAP)),
        },
{
    match read_name(mem, path_ptr, path_len) {
        Err(code) => Err(HostCall::Exit(code)),
        Ok(s) => Ok(resolve_at(st, dir_fd, s.as_str())),
    }
}

/// The path that a call names and the program may reach. The call is over where it names none,
/// and where the path lies outside what the program may reach.
pub open spec fn reached(st: RuntimeState, root: Seq<char>, mem: Seq<u8>, dir_fd: i32, ptr: i32, len: i32) -> Result<
    Seq<char>,
    HostCall,
> {
    match path_named(st, mem, dir_fd, ptr, len) {
        None => Err(HostCall::Exit(TRAP)),
        Some(p) => if within(root, p) {
            Ok(p)
        } else {
            Err(HostCall::Return(ENOTCAPABLE))
        },
    }
}

fn reach(st: &RuntimeState, root: &str, mem: &[u8], dir_fd: i32, path_ptr: i32, path_len: i32) -> (r: Result<
    String,
    HostCall,
>)
    ensures
        match reached(*st, root@, mem@, dir_fd, path_ptr, path_len) {
            Ok(p) => r is Ok && r->Ok_0@ == p,
            Err(e) => r == Err::<String, HostCall>(e),
        },
{
    match read_path(st, mem, dir_fd, path_ptr, path_len) {
        Err(e) => Err(e),
        Ok(p) => {
            if grants(root, p.as_str()) {
                Ok(p)
            } else {
                Err(HostCall::Return(ENOTCAPABLE))
            }
        },
    }
}

/// What a call of this module waits for names only paths that the program may reach.
pub open spec fn stays_within(root: Seq<char>, r: HostCall) -> bool {
    match r {
        HostCall::Suspend(SuspendReason::PathOpen { path, .. }) => within(root, path@),
        HostCall::Suspend(SuspendReason::OpenDir { path, .. }) => within(root, path@),
        HostCall::Suspend(SuspendReason::PathUnlink { path }) => within(root, path@),
        HostCall::Suspend(SuspendReason::PathMkdir { path }) => within(root, path@),
        HostCall::Suspend(SuspendReason::PathRmdir { path }) => within(root, path@),
        HostCall::Suspend(SuspendReason::PathFilestat { path, .. }) => within(root, path@),
        HostCall::Suspend(SuspendReason::PathRename { src, dst }) => within(root, src@) && within(root, dst@),
        HostCall::Suspend(_) => false,
        _ => true,
    }
}

/// The flags with which a file is opened: for reading, where neither reading nor writing is
/// asked for.
pub open spec fn open_flags(oflags: i32, rights: i64) -> OpenFlags {
    let write = has_bit(rights as int, 64);
    OpenFlags {
        read: has_bit(rights as int, 2) || !write,
        write,
        create: has_bit(oflags as int, 1),
        truncate: has_bit(oflags as int, 8),
    }
}

/// A file is made where it is missing, cut to nothing and written to exactly as the bits of a
/// call ask for each, and it is read from where that is asked for or writing is not.
pub proof fn flags_follow_the_bits(oflags: i32, rights: i64)
    ensures
        open_flags(oflags, rights).create <==> oflags & 1 != 0,
        open_flags(oflags, rights).truncate <==> oflags & 8 != 0,
        open_flags(oflags, rights).write <==> rights & 64 != 0,
        open_flags(oflags, rights).read <==> rights & 2 != 0 || rights & 64 == 0,
{
    bits_are_those_of_the_word(oflags as i64);
    bits_are_those_of_the_word(rights);
}

/// `path_open`: opens a file or a directory that the program may reach below `root`.
pub fn path_open(
    st: &RuntimeState,
    root: &str,
    mem: &[u8],
    dir_fd: i32,
    path_ptr: i32,
    path_len: i32,
    oflags: i32,
    fs_rights_base: i64,
    opened_fd_ptr: i32,
) -> (r: HostCall)
    ensures
        stays_within(root@, r),
        match text_arg(mem@, path_ptr, path_len) {
            Err(c) => r == c,
            Ok(s) => {
                let p = resolved(base_of(*st, dir_fd), s);
                if !within(root@, p) {
                    r == HostCall::Return(ENOTCAPABLE)
                } else if has_bit(oflags as int, 2) {
                    &&& r matches HostCall::Suspend(SuspendReason::OpenDir { path, opened_fd_ptr: q })
                    &&& path@ == p && q == unsigned32(opened_fd_ptr)
                } else {
                    &&& r matches HostCall::Suspend(SuspendReason::PathOpen { path, flags, opened_fd_ptr: q })
                    &&& path@ == p && flags == open_flags(oflags, fs_rights_base) && q == unsigned32(opened_fd_ptr)
                }
            },
        },
        r matches HostCall::Suspend(SuspendReason::PathOpen { flags, opened_fd_ptr: q, .. }) ==> {
            &&& flags.create <==> oflags & 1 != 0
            &&& flags.truncate <==> oflags & 8 != 0
            &&& flags.write <==> fs_rights_base & 64 != 0
            &&& flags.read <==> fs_rights_base & 2 != 0 || fs_rights_base & 64 == 0
            &&& oflags & 2 == 0
            &&& q == if opened_fd_ptr < 0 { opened_fd_ptr + 0x1_0000_0000 } else { opened_fd_ptr as int }
        },
        r matches HostCall::Suspend(SuspendReason::OpenDir { opened_fd_ptr: q, .. }) ==> {
            &&& oflags & 2 != 0
            &&& q == if opened_fd_ptr < 0 { opened_fd_ptr + 0x1_0000_0000 } else { opened_fd_ptr as int }
        },
{
    proof {
        bits_are_those_of_the_word(oflags as i64);
        bits_are_those_of_the_word(fs_rights_base);
    }
    let path: String = match read_text(mem, path_ptr, path_len) {
        Err(c) => {
            return c;
        },
        Ok(s) => resolve_at(st, dir_fd, s.as_str()),
    };
    if !grants(root, path.as_str()) {
        return HostCall::Return(ENOTCAPABLE);
    }
    let opened_fd_ptr: u32 = bits32(opened_fd_ptr);
    if bit(oflags as i64, 2) {
        return HostCall::Suspend(SuspendReason::OpenDir { path, opened_fd_ptr });
    }
    let write: bool = bit(fs_rights_base, 64);
    let flags = OpenFlags {
        read: bit(fs_rights_base, 2) || !write,
        write,
        create: bit(oflags as i64, 1),
        truncate: bit(oflags as i64, 8),
    };
    HostCall::Suspend(SuspendReason::PathOpen { path, flags, opened_fd_ptr })
}

/// `path_unlink_file`: takes a file away that the program may reach below `root`.
pub fn path_unlink_file(st: &RuntimeState, root: &str, mem: &[u8], dir_fd: i32, path_ptr: i32, path_len: i32) -> (r: HostCall)
    ensures
        stays_within(root@, r),
        match reached(*st, root@, mem@, dir_fd, path_ptr, path_len) {
            Err(e) => r == e,
            Ok(p) => r matches HostCall::Suspend(SuspendReason::PathUnlink { path }) && path@ == p,
        },
{
    match reach(st, root, mem, dir_fd, path_ptr, path_len) {
        Err(e) => e,
        Ok(path) => HostCall::Suspend(SuspendReason::PathUnlink { path }),
    }
}

/// `path_create_directory`: makes a directory that the program may reach below `root`.
pub fn path_create_directory(st: &RuntimeState, root: &str, mem: &[u8], dir_fd: i32, path_ptr: i32, path_len: i32) -> (r: HostCall)
    ensures
        stays_within(root@, r),
        match reached(*st, root@, mem@, dir_fd, path_ptr, path_len) {
            Err(e) => r == e,
            Ok(p) => r matches HostCall::Suspend(SuspendReason::PathMkdir { path }) && path@ == p,
        },
{
    match reach(st, root, mem, dir_fd, path_ptr, path_len) {
        Err(e) => e,
        Ok(path) => HostCall::Suspend(SuspendReason::PathMkdir { path }),
    }
}

/// `path_remove_directory`: takes a directory away that the program may reach below `root`.
pub fn path_remove_directory(st: &RuntimeState, root: &str, mem: &[u8], dir_fd: i32, path_ptr: i32, path_len: i32) -> (r: HostCall)
    ensures
        stays_within(root@, r),
        match reached(*st, root@, mem@, dir_fd, path_ptr, path_len) {
            Err(e) => r == e,
            Ok(p) => r matches HostCall::Suspend(SuspendReason::PathRmdir { path }) && path@ == p,
        },
{
    match reach(st, root, mem, dir_fd, path_ptr, path_len) {
        Err(e) => e,
        Ok(path) => HostCall::Suspend(SuspendReason::PathRmdir { path }),
    }
}

/// `path_filestat_get`: asks for the record of a file that the program may reach below `root`.
pub fn path_filestat_get(
    st: &RuntimeState,
    root: &str,
    mem: &[u8],
    dir_fd: i32,
    path_ptr: i32,
    path_len: i32,
    buf_ptr: i32,
) -> (r: HostCall)
    ensures
        stays_within(root@, r),
        match reached(*st, root@, mem@, dir_fd, path_ptr, path_len) {
            Err(e) => r == e,
            Ok(p) => r matches HostCall::Suspend(SuspendReason::PathFilestat { path, buf_ptr: b }) && path@ == p && b
                == unsigned32(buf_ptr),
        },
{
    match reach(st, root, mem, dir_fd, path_ptr, path_len) {
        Err(e) => e,
        Ok(path) => HostCall::Suspend(SuspendReason::PathFilestat { path, buf_ptr: bits32(buf_ptr) }),
    }
}

/// `path_rename`: both paths lie below `root`. The second one is read only where the program
/// may reach the first.
pub fn path_rename(
    st: &RuntimeState,
    root: &str,
    mem: &[u8],
    old_fd: i32,
    old_path_ptr: i32,
    old_path_len: i32,
    new_fd: i32,
    new_path_ptr: i32,
    new_path_len: i32,
) -> (r: HostCall)
    ensures
        stays_within(root@, r),
        match reached(*st, root@, mem@, old_fd, old_path_ptr, old_path_len) {
            Err(e) => r == e,
            Ok(p) => match reached(*st, root@, mem@, new_fd, new_path_ptr, new_path_len) {
                Err(e) => r == e,
                Ok(q) => r matches HostCall::Suspend(SuspendReason::PathRename { src, dst }) && src@ == p && dst@ == q,
            },
        },
{
    match reach(st, root, mem, old_fd, old_path_ptr, old_path_len) {
        Err(e) => e,
        Ok(src) => match reach(st, root, mem, new_fd, new_path_ptr, new_path_len) {
            Err(e) => e,
            Ok(dst) => HostCall::Suspend(SuspendReason::PathRename { src, dst }),
        },
    }
}

} // verus!
