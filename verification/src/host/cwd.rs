//! Paths, taken from a directory and made plain.

use vstd::prelude::*;
use crate::text::{chars, find_char, find_from, part, same};

verus! {

/// The texts of a list.
pub open spec fn texts(s: Seq<String>) -> Seq<Seq<char>> {
    Seq::new(s.len(), |i: int| s[i]@)
}

/// The path from a directory on: an absolute path stands for itself.
pub open spec fn combined(base: Seq<char>, path: Seq<char>) -> Seq<char> {
    if path.len() > 0 && path[0] == '/' {
        path
    } else if base.len() > 0 && base.last() == '/' {
        base + path
    } else {
        base.push('/') + path
    }
}

/// The names of a path after one more: the empty name and `.` name nothing, and `..` takes
/// the last name back, where there is one.
pub open spec fn step(names: Seq<Seq<char>>, name: Seq<char>) -> Seq<Seq<char>> {
    if name.len() == 0 || name == "."@ {
        names
    } else if name == ".."@ {
        if names.len() > 0 { names.drop_last() } else { names }
    } else {
        names.push(name)
    }
}

/// The names of a path, walked through from its start.
pub open spec fn walk(names: Seq<Seq<char>>, s: Seq<char>) -> Seq<Seq<char>>
    decreases s.len(),
{
    let k = find_from(s, '/', 0);
    if 0 <= k < s.len() {
        walk(step(names, s.subrange(0, k)), s.subrange(k + 1, s.len() as int))
    } else {
        step(names, s)
    }
}

/// Names with slashes between them.
pub open spec fn joined(names: Seq<Seq<char>>) -> Seq<char>
    decreases names.len(),
{
    if names.len() == 0 {
        Seq::empty()
    } else if names.len() == 1 {
        names[0]
    } else {
        joined(names.drop_last()).push('/') + names.last()
    }
}

/// A path from a directory on, without empty names, `.` and `..`.
pub open spec fn resolved(base: Seq<char>, path: Seq<char>) -> Seq<char> {
    seq!['/'] + joined(walk(Seq::empty(), combined(base, path)))
}

/// Whether a name stands for itself in a path.
pub open spec fn plain(name: Seq<char>) -> bool {
    &&& name.len() > 0
    &&& name != "."@
    &&& name != ".."@
    &&& forall|i: int| 0 <= i < name.len() ==> name[i] != '/'
}

/// Whether every name stands for itself.
pub open spec fn all_plain(names: Seq<Seq<char>>) -> bool {
    forall|i: int| 0 <= i < names.len() ==> plain(#[trigger] names[i])
}

proof fn lemma_find(s: Seq<char>, c: char, from: int)
    requires
        0 <= from <= s.len(),
    ensures
        from <= find_from(s, c, from) <= s.len(),
        find_from(s, c, from) < s.len() ==> s[find_from(s, c, from)] == c,
        forall|i: int| from <= i < find_from(s, c, from) ==> s[i] != c,
    decreases s.len() - from,
{
    if from < s.len() && s[from] != c {
        lemma_find(s, c, from + 1);
    }
}

proof fn lemma_find_is(s: Seq<char>, c: char, from: int, k: int)
    requires
        0 <= from <= k < s.len(),
        s[k] == c,
        forall|i: int| from <= i < k ==> s[i] != c,
    ensures
        find_from(s, c, from) == k,
    decreases k - from,
{
    if from < k {
        lemma_find_is(s, c, from + 1, k);
    }
}

pub proof fn lemma_find_none(s: Seq<char>, c: char, from: int)
    requires
        0 <= from <= s.len(),
        forall|i: int| from <= i < s.len() ==> s[i] != c,
    ensures
        find_from(s, c, from) == s.len(),
    decreases s.len() - from,
{
    if from < s.len() {
        lemma_find_none(s, c, from + 1);
    }
}

proof fn lemma_walk_plain(names: Seq<Seq<char>>, s: Seq<char>)
    requires
        all_plain(names),
    ensures
        all_plain(walk(names, s)),
    decreases s.len(),
{
    let k = find_from(s, '/', 0);
    lemma_find(s, '/', 0);
    if k < s.len() {
        let t = step(names, s.subrange(0, k));
        assert(all_plain(t)) by {
            assert forall|i: int| 0 <= i < t.len() implies plain(#[trigger] t[i]) by {
                if i < names.len() {
                    assert(t[i] == names[i]);
                }
            }
        }
        lemma_walk_plain(t, s.subrange(k + 1, s.len() as int));
    } else {
        let t = step(names, s);
        assert forall|i: int| 0 <= i < t.len() implies plain(#[trigger] t[i]) by {
            if i < names.len() {
                assert(t[i] == names[i]);
            }
        }
    }
}

/// Walking through two paths with a slash between them is walking through one and then
/// through the other.
pub proof fn lemma_walk_parts(names: Seq<Seq<char>>, a: Seq<char>, b: Seq<char>)
    ensures
        walk(names, a.push('/') + b) == walk(walk(names, a), b),
    decreases a.len(),
{
    let s = a.push('/') + b;
    let k = find_from(a, '/', 0);
    lemma_find(a, '/', 0);
    if k < a.len() {
        assert forall|i: int| 0 <= i < k implies s[i] != '/' by {
            assert(s[i] == a[i]);
        }
        assert(s[k] == '/');
        lemma_find_is(s, '/', 0, k);
        let rest = a.subrange(k + 1, a.len() as int);
        assert(s.subrange(k + 1, s.len() as int) =~= rest.push('/') + b);
        assert(s.subrange(0, k) =~= a.subrange(0, k));
        lemma_walk_parts(step(names, a.subrange(0, k)), rest, b);
    } else {
        assert forall|i: int| 0 <= i < k implies s[i] != '/' by {
            assert(s[i] == a[i]);
        }
        assert(s[k] == '/');
        lemma_find_is(s, '/', 0, k);
        assert(s.subrange(k + 1, s.len() as int) =~= b);
        assert(s.subrange(0, k) =~= a);
    }
}

/// The names of a path that was made plain are found again in it.
pub proof fn lemma_walk_joined(names: Seq<Seq<char>>)
    requires
        all_plain(names),
        names.len() > 0,
    ensures
        walk(Seq::empty(), joined(names)) == names,
    decreases names.len(),
{
    let last = names.last();
    assert(plain(names[names.len() - 1]));
    lemma_find_none(last, '/', 0);
    if names.len() == 1 {
        assert(Seq::<Seq<char>>::empty().push(last) =~= names);
    } else {
        let init = names.drop_last();
        assert(all_plain(init)) by {
            assert forall|i: int| 0 <= i < init.len() implies plain(#[trigger] init[i]) by {
                assert(init[i] == names[i]);
            }
        }
        lemma_walk_joined(init);
        lemma_walk_parts(Seq::empty(), joined(init), last);
        assert(init.push(last) =~= names);
    }
}

/// A path made plain begins with a slash, and every name in it stands for itself: no path
/// leads above the root.
pub proof fn resolved_is_plain(base: Seq<char>, path: Seq<char>)
    ensures
        resolved(base, path).len() > 0,
        resolved(base, path)[0] == '/',
        all_plain(walk(Seq::empty(), combined(base, path))),
{
    lemma_walk_plain(Seq::empty(), combined(base, path));
}

/// A path made plain stays as it is, from whatever directory it is taken.
pub proof fn resolved_stays(base: Seq<char>, path: Seq<char>, other: Seq<char>)
    ensures
        resolved(other, resolved(base, path)) == resolved(base, path),
{
    let names = walk(Seq::empty(), combined(base, path));
    let p = resolved(base, path);
    resolved_is_plain(base, path);
    assert(combined(other, p) == p);
    assert(p =~= Seq::<char>::empty().push('/') + joined(names));
    lemma_walk_parts(Seq::empty(), Seq::empty(), joined(names));
    lemma_find_none(Seq::<char>::empty(), '/', 0);
    assert(walk(Seq::empty(), Seq::<char>::empty()) =~= Seq::<Seq<char>>::empty());
    if names.len() > 0 {
        lemma_walk_joined(names);
    } else {
        assert(names =~= Seq::empty());
        assert(joined(names) =~= Seq::<char>::empty());
    }
}

/// An absolute path does not depend on the directory.
pub proof fn absolute_ignores_base(a: Seq<char>, b: Seq<char>, path: Seq<char>)
    requires
        path.len() > 0,
        path[0] == '/',
    ensures
        resolved(a, path) == resolved(b, path),
{
}

fn take_name(names: &mut Vec<String>, name: String)
    ensures
        texts(final(names)@) == step(texts(old(names)@), name@),
{
    let ghost n0 = names@;
    if name.as_str().is_empty() || same(name.as_str(), ".") {
        return;
    }
    if same(name.as_str(), "..") {
        if names.len() > 0 {
            names.pop();
        }
        assert(texts(names@) =~= step(texts(n0), name@));
        return;
    }
    names.push(name);
    assert(texts(names@) =~= texts(n0).push(name@));
}

/// Takes a path from a directory on, and makes it plain.
pub fn resolve_cwd(base: &str, path: &str) -> (r: String)
    ensures
        r@ == resolved(base@, path@),
{
    let absolute: bool = path.unicode_len() > 0 && path.get_char(0) == '/';
    proof {
        reveal_strlit("/");
        assert("/"@ =~= seq!['/']);
    }
    let all: String = if absolute {
        String::from_str(path)
    } else {
        let n: usize = base.unicode_len();
        if n > 0 && base.get_char(n - 1) == '/' {
            String::from_str(base).concat(path)
        } else {
            String::from_str(base).concat("/").concat(path)
        }
    };
    assert(all@ =~= combined(base@, path@));
    let cs: Vec<char> = chars(all.as_str());
    let mut names: Vec<String> = Vec::new();
    let mut from: usize = 0;
    let mut more: bool = true;
    assert(texts(names@) =~= Seq::empty());
    assert(all@.subrange(0, all@.len() as int) =~= all@);
    while more
        invariant
            cs@ == all@,
            from <= all@.len(),
            if more {
                walk(texts(names@), all@.subrange(from as int, all@.len() as int)) == walk(Seq::empty(), all@)
            } else {
                texts(names@) == walk(Seq::empty(), all@)
            },
        decreases all@.len() - from + (if more { 1int } else { 0 }),
    {
        let ghost s = all@.subrange(from as int, all@.len() as int);
        let k: usize = find_char(&cs, '/', from);
        proof {
            lemma_find(all@, '/', from as int);
            if k < all@.len() {
                lemma_find_is(s, '/', 0, k - from);
            } else {
                lemma_find_none(s, '/', 0);
            }
        }
        let name: String = part(all.as_str(), from, k);
        take_name(&mut names, name);
        assert(cs.len() == all@.len());
        if k < cs.len() {
            assert(s.subrange(0, k - from) =~= all@.subrange(from as int, k as int));
            assert(s.subrange(k - from + 1, s.len() as int) =~= all@.subrange(k + 1, all@.len() as int));
            from = k + 1;
        } else {
            assert(s =~= all@.subrange(from as int, k as int));
            more = false;
        }
    }
    let mut out: String = String::from_str("/");
    let mut i: usize = 0;
    assert(seq!['/'] + joined(texts(names@).take(0)) =~= seq!['/']);
    while i < names.len()
        invariant
            i <= names@.len(),
            "/"@ == seq!['/'],
            out@ == seq!['/'] + joined(texts(names@).take(i as int)),
        decreases names@.len() - i,
    {
        let ghost t = texts(names@).take(i + 1);
        assert(t.drop_last() =~= texts(names@).take(i as int));
        assert(t.last() == names@[i as int]@);
        if i > 0 {
            out.append("/");
        }
        out.append(names[i].as_str());
        i += 1;
        assert(out@ =~= seq!['/'] + joined(t));
    }
    assert(texts(names@).take(i as int) =~= texts(names@));
    out
}

} // verus!
