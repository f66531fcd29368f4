//! Laws of paths: what each name of a path does to the directory it is taken from, and which
//! paths a directory grants.

use vstd::prelude::*;
use crate::host::cwd::{
    combined, joined, lemma_find_none, lemma_walk_joined, lemma_walk_parts, plain, resolved, resolved_is_plain, walk,
};
use crate::host::path::{path_named, reached, within};
use crate::host::reply::text_at;
use crate::host::state::{FdEntry, RuntimeState};
use crate::suspend::HostCall;

verus! {

/// Whether a path is taken from a directory: it does not begin with a slash.
pub open spec fn is_relative(path: Seq<char>) -> bool {
    path.len() == 0 || path[0] != '/'
}

proof fn lemma_empty_walk()
    ensures
        walk(Seq::empty(), Seq::<char>::empty()) == Seq::<Seq<char>>::empty(),
{
    lemma_find_none(Seq::<char>::empty(), '/', 0);
}

/// The names of a path made plain, and what comes of a relative path that is taken from there.
proof fn lemma_from_there(base: Seq<char>, path: Seq<char>, q: Seq<char>)
    requires
        is_relative(q),
    ensures
        walk(Seq::empty(), combined(resolved(base, path), q)) == walk(walk(Seq::empty(), combined(base, path)), q),
{
    let names = walk(Seq::empty(), combined(base, path));
    let d = resolved(base, path);
    resolved_is_plain(base, path);
    lemma_empty_walk();
    if names.len() == 0 {
        assert(names =~= Seq::empty());
        assert(d =~= seq!['/']);
        assert(combined(d, q) =~= Seq::<char>::empty().push('/') + q);
        lemma_walk_parts(Seq::empty(), Seq::empty(), q);
    } else {
        let last = names.last();
        assert(plain(names[names.len() - 1]));
        assert(d.last() == last.last());
        assert(combined(d, q) == d.push('/') + q);
        lemma_walk_parts(Seq::empty(), d, q);
        assert(d =~= Seq::<char>::empty().push('/') + joined(names));
        lemma_walk_parts(Seq::empty(), Seq::empty(), joined(names));
        lemma_walk_joined(names);
    }
}

proof fn lemma_one_name(names: Seq<Seq<char>>, name: Seq<char>)
    requires
        forall|i: int| 0 <= i < name.len() ==> name[i] != '/',
    ensures
        walk(names, name) == crate::host::cwd::step(names, name),
{
    lemma_find_none(name, '/', 0);
}

/// An ordinary name leads one step down: its path is that of the directory, a slash and the name.
pub proof fn a_name_leads_down(base: Seq<char>, path: Seq<char>, name: Seq<char>)
    requires
        name.len() > 0,
        name != seq!['.'],
        name != seq!['.', '.'],
        forall|i: int| 0 <= i < name.len() ==> name[i] != '/',
    ensures
        ({
            let d = resolved(base, path);
            resolved(d, name) == if d == seq!['/'] { d + name } else { d.push('/') + name }
        }),
{
    reveal_strlit(".");
    reveal_strlit("..");
    assert("."@ =~= seq!['.']);
    assert(".."@ =~= seq!['.', '.']);
    let names = walk(Seq::empty(), combined(base, path));
    let d = resolved(base, path);
    lemma_from_there(base, path, name);
    lemma_one_name(names, name);
    let more = names.push(name);
    assert(more.drop_last() =~= names);
    resolved_is_plain(base, path);
    if names.len() == 0 {
        assert(names =~= Seq::empty());
        assert(d =~= seq!['/']);
        assert(resolved(d, name) =~= d + name);
    } else {
        assert(plain(names[names.len() - 1]));
        assert(plain(names[0]));
        lemma_joined_is_long(names);
        assert(d.len() > 1);
        assert(resolved(d, name) =~= d.push('/') + name);
    }
}

proof fn lemma_joined_is_long(names: Seq<Seq<char>>)
    requires
        names.len() > 0,
        names.last().len() > 0,
    ensures
        joined(names).len() > 0,
{
}

/// A dot, and no name at all, stay where they are.
pub proof fn a_dot_stays(base: Seq<char>, path: Seq<char>)
    ensures
        resolved(resolved(base, path), seq!['.']) == resolved(base, path),
        resolved(resolved(base, path), Seq::empty()) == resolved(base, path),
{
    reveal_strlit(".");
    assert("."@ =~= seq!['.']);
    let names = walk(Seq::empty(), combined(base, path));
    lemma_from_there(base, path, seq!['.']);
    lemma_one_name(names, seq!['.']);
    lemma_from_there(base, path, Seq::empty());
    lemma_one_name(names, Seq::empty());
}

/// Two dots lead back up to where an ordinary name led down from, and at the root they stay.
pub proof fn two_dots_lead_up(base: Seq<char>, path: Seq<char>, name: Seq<char>)
    requires
        name.len() > 0,
        name != seq!['.'],
        name != seq!['.', '.'],
        forall|i: int| 0 <= i < name.len() ==> name[i] != '/',
    ensures
        resolved(resolved(resolved(base, path), name), seq!['.', '.']) == resolved(base, path),
        resolved(seq!['/'], seq!['.', '.']) == seq!['/'],
{
    reveal_strlit(".");
    reveal_strlit("..");
    assert("."@ =~= seq!['.']);
    assert(".."@ =~= seq!['.', '.']);
    let names = walk(Seq::empty(), combined(base, path));
    let d = resolved(base, path);
    lemma_from_there(base, path, name);
    lemma_one_name(names, name);
    lemma_from_there(d, name, seq!['.', '.']);
    lemma_one_name(names.push(name), seq!['.', '.']);
    assert(names.push(name).drop_last() =~= names);
    the_root_is_plain(seq!['/']);
    lemma_from_there(seq!['/'], seq!['/'], seq!['.', '.']);
    lemma_root_names(seq!['/']);
    lemma_one_name(Seq::empty(), seq!['.', '.']);
    assert(joined(Seq::<Seq<char>>::empty()) =~= Seq::<char>::empty());
}

proof fn lemma_root_names(base: Seq<char>)
    ensures
        walk(Seq::empty(), combined(base, seq!['/'])) == Seq::<Seq<char>>::empty(),
{
    assert(seq!['/'] =~= Seq::<char>::empty().push('/') + Seq::<char>::empty());
    lemma_walk_parts(Seq::empty(), Seq::empty(), Seq::empty());
    lemma_empty_walk();
}

/// A slash alone is the root, from wherever it is taken.
pub proof fn the_root_is_plain(base: Seq<char>)
    ensures
        resolved(base, seq!['/']) == seq!['/'],
{
    lemma_root_names(base);
    assert(joined(Seq::<Seq<char>>::empty()) =~= Seq::<char>::empty());
    assert(resolved(base, seq!['/']) =~= seq!['/']);
}

/// A path with a slash in it is walked through part by part: the part behind the slash is taken
/// from where the part before it leads to.
pub proof fn paths_are_walked_part_by_part(base: Seq<char>, path: Seq<char>, rest: Seq<char>)
    requires
        path.len() > 0,
        is_relative(rest),
    ensures
        resolved(base, path.push('/') + rest) == resolved(resolved(base, path), rest),
{
    let whole = path.push('/') + rest;
    lemma_from_there(base, path, rest);
    assert(whole[0] == path[0]);
    assert(combined(base, whole) =~= combined(base, path).push('/') + rest);
    lemma_walk_parts(Seq::empty(), combined(base, path), rest);
}

/// A directory grants itself and what lies below it, name by name; the root grants everything.
/// A path that only begins with the same letters is not granted.
pub proof fn directories_grant_what_lies_below(root: Seq<char>, path: Seq<char>)
    ensures
        within(root, path) <==> {
            ||| root == seq!['/']
            ||| path == root
            ||| exists|rest: Seq<char>| path == #[trigger] (root.push('/') + rest)
        },
{
    reveal_strlit("/");
    assert("/"@ =~= seq!['/']);
    let n = root.len() as int;
    if root.len() < path.len() && path.take(n) == root && path[n] == '/' {
        let rest = path.skip(n + 1);
        assert(path =~= root.push('/') + rest) by {
            assert forall|i: int| 0 <= i < path.len() implies path[i] == (root.push('/') + rest)[i] by {
                if i < n {
                    assert(path.take(n)[i] == path[i]);
                }
            }
        }
    }
    if exists|rest: Seq<char>| path == #[trigger] (root.push('/') + rest) {
        let rest = choose|rest: Seq<char>| path == #[trigger] (root.push('/') + rest);
        assert(path.take(n) =~= root);
        assert(path[n] == '/');
    }
}

/// A path that a program names is taken from the directory that its descriptor stands for, and from
/// the root where the descriptor stands for no directory. Where the path leads out of what the
/// program was granted, the call fails with errno 76; where it is no text, the program is stopped.
pub proof fn paths_are_taken_from_their_directory(
    st: RuntimeState,
    root: Seq<char>,
    mem: Seq<u8>,
    fd: i32,
    ptr: i32,
    len: i32,
    dir: String,
    name: Seq<char>,
)
    requires
        text_at(mem, ptr, len) == Some(name),
    ensures
        0 <= fd < st.fds@.len() && st.fds@[fd as int] == Some(FdEntry::Dir(dir)) ==> path_named(st, mem, fd, ptr, len)
            == Some(resolved(dir@, name)),
        !(0 <= fd < st.fds@.len()) ==> path_named(st, mem, fd, ptr, len) == Some(resolved(seq!['/'], name)),
        0 <= fd < st.fds@.len() && !(st.fds@[fd as int] matches Some(FdEntry::Dir(_))) ==> path_named(
            st,
            mem,
            fd,
            ptr,
            len,
        ) == Some(resolved(seq!['/'], name)),
        within(root, path_named(st, mem, fd, ptr, len)->Some_0) ==> reached(st, root, mem, fd, ptr, len) == Ok::<
            Seq<char>,
            HostCall,
        >(path_named(st, mem, fd, ptr, len)->Some_0),
        !within(root, path_named(st, mem, fd, ptr, len)->Some_0) ==> reached(st, root, mem, fd, ptr, len) == Err::<
            Seq<char>,
            HostCall,
        >(HostCall::Return(76i32)),
{
    reveal_strlit("/");
    assert("/"@ =~= seq!['/']);
}

} // verus!
