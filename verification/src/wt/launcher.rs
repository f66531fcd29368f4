//! Laws of the launcher's list: which files are programs, which of several files of one name
//! counts, what a record says, and in which order the list stands.

use vstd::prelude::*;
use vstd::utf8::{encode_utf8, encode_utf8_decode_utf8, encode_utf8_valid_utf8};
use crate::text::{before, before_is_total, find_from, trimmed};
use crate::wording::characters_are_found_first;
use crate::wt::catalog::{
    app_path_in, by_title, by_title_orders, described, excluded, fresh, has_id, has_stem, manifest_of, ordered,
    present, record_place, record_text, set_flags, slot_of, stem_of, to_ask, with_entries, DirEntry, FileView,
    Listing, ManifestView, Probe,
};

verus! {

/// A file is a program's exactly where its name is the program's with the ending `.cwasm`, and the
/// path by which a program is read is that of its file.
pub proof fn programs_are_files_with_the_ending(name: Seq<char>, stem: Seq<char>, dir: Seq<char>)
    ensures
        stem_of(name) == Some(stem) <==> name == stem + seq!['.', 'c', 'w', 'a', 's', 'm'],
        stem_of(name) == Some(stem) ==> app_path_in(dir, stem) == dir + seq!['/'] + name,
        excluded(stem) <==> stem == seq!['s', 'h', 'e', 'l', 'l'] || stem == seq![
            'c',
            'o',
            'm',
            'p',
            'o',
            's',
            'i',
            't',
            'o',
            'r',
        ],
{
    reveal_strlit(".cwasm");
    reveal_strlit("/");
    reveal_strlit("shell");
    reveal_strlit("compositor");
    let e = seq!['.', 'c', 'w', 'a', 's', 'm'];
    assert(".cwasm"@ =~= e);
    assert("/"@ =~= seq!['/']);
    assert("shell"@ =~= seq!['s', 'h', 'e', 'l', 'l']);
    assert("compositor"@ =~= seq!['c', 'o', 'm', 'p', 'o', 's', 'i', 't', 'o', 'r']);
    let n = name.len() as int;
    if name == stem + e {
        assert(name.subrange(n - 6, n) =~= e);
        assert(name.subrange(0, n - 6) =~= stem);
    }
    if stem_of(name) == Some(stem) {
        let t = name.subrange(n - 6, n);
        assert(name =~= stem + e) by {
            assert forall|i: int| 0 <= i < n implies name[i] == (stem + e)[i] by {
                if i >= n - 6 {
                    assert(t[i - (n - 6)] == name[i]);
                } else {
                    assert(stem[i] == name[i]);
                }
            }
        }
        assert(app_path_in(dir, stem) =~= dir + seq!['/'] + name);
    }
}

/// Whether a file of a directory is a program that a launcher may show.
pub open spec fn is_program(e: DirEntry) -> bool {
    e.size is Some && stem_of(e.name@) is Some && !excluded(stem_of(e.name@)->0)
}

/// A program's file as the list holds it.
pub open spec fn entry_view(dir: Seq<char>, e: DirEntry) -> FileView {
    FileView { stem: stem_of(e.name@)->0, path: dir + "/"@ + e.name@, size: e.size->0 }
}

/// Whether a program in the list comes from one of the first `n` files of a directory.
pub open spec fn comes_from(v: FileView, dir: Seq<char>, es: Seq<DirEntry>, n: int) -> bool {
    exists|j: int| 0 <= j < n && is_program(#[trigger] es[j]) && v == entry_view(dir, es[j])
}

proof fn lemma_entries(s: Seq<FileView>, dir: Seq<char>, es: Seq<DirEntry>, n: int, k: int)
    requires
        0 <= n <= es.len(),
    ensures
        ({
            let t = with_entries(s, dir, es, n);
            &&& t.len() >= s.len()
            &&& forall|i: int| 0 <= i < s.len() ==> #[trigger] t[i] == s[i]
            &&& forall|i: int| s.len() <= i < t.len() ==> comes_from(#[trigger] t[i], dir, es, n)
            &&& 0 <= k < n && is_program(es[k]) ==> has_stem(t, stem_of(es[k].name@)->0)
        }),
    decreases n,
{
    if n > 0 {
        lemma_entries(s, dir, es, n - 1, k);
        let was = with_entries(s, dir, es, n - 1);
        let t = with_entries(s, dir, es, n);
        let e = es[n - 1];
        assert forall|i: int| s.len() <= i < t.len() implies comes_from(#[trigger] t[i], dir, es, n) by {
            if i < was.len() {
                assert(t[i] == was[i]);
                assert(comes_from(was[i], dir, es, n - 1));
                let j = choose|j: int|
                    0 <= j < n - 1 && is_program(#[trigger] es[j]) && was[i] == entry_view(dir, es[j]);
                assert(is_program(es[j]));
            } else {
                assert(is_program(es[n - 1]));
            }
        }
        if 0 <= k < n && is_program(es[k]) {
            let stem = stem_of(es[k].name@)->0;
            if k < n - 1 {
                let i = choose|i: int| 0 <= i < was.len() && (#[trigger] was[i]).stem == stem;
                assert(t[i].stem == stem);
            } else if has_stem(was, stem) {
                assert(t == was);
            } else {
                assert(t[was.len() as int].stem == stem);
            }
        }
    }
}

/// Every program's file in a directory leads to a program of its name in the list, and every
/// program in the list comes from a file of one of the directories.
pub proof fn every_program_is_listed(ls: Seq<Listing>, n: int, d: int, k: int, i: int)
    requires
        0 <= n <= ls.len(),
    ensures
        0 <= d < n && 0 <= k < ls[d].entries@.len() && is_program(ls[d].entries@[k]) ==> has_stem(
            present(ls, n),
            stem_of(ls[d].entries@[k].name@)->0,
        ),
        0 <= i < present(ls, n).len() ==> exists|a: int, b: int|
            0 <= a < n && 0 <= b < ls[a].entries@.len() && is_program(#[trigger] ls[a].entries@[b]) && present(
                ls,
                n,
            )[i] == entry_view(ls[a].dir@, ls[a].entries@[b]),
    decreases n,
{
    if n > 0 {
        let was = present(ls, n - 1);
        let l = ls[n - 1];
        lemma_entries(was, l.dir@, l.entries@, l.entries@.len() as int, k);
        every_program_is_listed(ls, n - 1, d, k, i);
        let t = present(ls, n);
        if 0 <= d < n - 1 && 0 <= k < ls[d].entries@.len() && is_program(ls[d].entries@[k]) {
            let stem = stem_of(ls[d].entries@[k].name@)->0;
            let j = choose|j: int| 0 <= j < was.len() && (#[trigger] was[j]).stem == stem;
            assert(t[j].stem == stem);
        }
        if 0 <= i < t.len() {
            if i < was.len() {
                let (a, b) = choose|a: int, b: int|
                    0 <= a < n - 1 && 0 <= b < ls[a].entries@.len() && is_program(#[trigger] ls[a].entries@[b])
                        && was[i] == entry_view(ls[a].dir@, ls[a].entries@[b]);
                assert(is_program(ls[a].entries@[b]) && t[i] == entry_view(ls[a].dir@, ls[a].entries@[b]));
            } else {
                assert(comes_from(t[i], l.dir@, l.entries@, l.entries@.len() as int));
                let b = choose|b: int|
                    0 <= b < l.entries@.len() && is_program(#[trigger] l.entries@[b]) && t[i] == entry_view(
                        l.dir@,
                        l.entries@[b],
                    );
                assert(is_program(ls[n - 1].entries@[b]));
            }
        }
    }
}

/// A program that an earlier directory has keeps its place whatever later directories hold: the
/// list of some directories is the start of the list of these and more.
pub proof fn earlier_directories_come_first(ls: Seq<Listing>, m: int, n: int, i: int)
    requires
        0 <= m <= n <= ls.len(),
        0 <= i < present(ls, m).len(),
    ensures
        present(ls, m).len() <= present(ls, n).len(),
        present(ls, n)[i] == present(ls, m)[i],
    decreases n,
{
    if m < n {
        earlier_directories_come_first(ls, m, n - 1, i);
        lemma_entries(present(ls, n - 1), ls[n - 1].dir@, ls[n - 1].entries@, ls[n - 1].entries@.len() as int, 0);
    }
}

/// A record says its id and its label, set apart by a unit separator, each without the white space
/// around it. What follows a second separator is not looked at; without a label the id is one; and
/// a record without an id says nothing.
pub proof fn records_say_id_and_label(id: Seq<char>, title: Seq<char>, rest: Seq<char>)
    requires
        forall|i: int| 0 <= i < id.len() ==> id[i] != '\u{1f}',
        forall|i: int| 0 <= i < title.len() ==> title[i] != '\u{1f}',
    ensures
        ({
            let (a, b) = (trimmed(id), trimmed(title));
            let said = if a.len() == 0 {
                None
            } else if b.len() == 0 {
                Some(ManifestView { id: a, title: a })
            } else {
                Some(ManifestView { id: a, title: b })
            };
            &&& manifest_of(id.push('\u{1f}') + title) == said
            &&& manifest_of(id.push('\u{1f}') + title.push('\u{1f}') + rest) == said
        }),
        manifest_of(id) == if trimmed(id).len() == 0 {
            None
        } else {
            Some(ManifestView { id: trimmed(id), title: trimmed(id) })
        },
{
    let n = id.len() as int;
    let m = title.len() as int;
    let s = id.push('\u{1f}') + title;
    let t = id.push('\u{1f}') + title.push('\u{1f}') + rest;
    lemma_found(s, n, 0);
    lemma_found(t, n, 0);
    lemma_found(t, n + 1 + m, n + 1);
    lemma_not_found(s, n + 1);
    lemma_not_found(id, 0);
    assert(s.subrange(0, n) =~= id);
    assert(t.subrange(0, n) =~= id);
    assert(s.subrange(n + 1, n + 1 + m) =~= title);
    assert(t.subrange(n + 1, n + 1 + m) =~= title);
    assert(id.subrange(0, n) =~= id);
    assert(trimmed(Seq::<char>::empty()) =~= Seq::<char>::empty());
}

proof fn lemma_found(s: Seq<char>, k: int, from: int)
    requires
        0 <= from <= k < s.len(),
        s[k] == '\u{1f}',
        forall|i: int| from <= i < k ==> s[i] != '\u{1f}',
    ensures
        find_from(s, '\u{1f}', from) == k,
{
    characters_are_found_first(s, '\u{1f}', from);
    let f = find_from(s, '\u{1f}', from);
    if f < k {
        assert(s[f] == '\u{1f}');
    }
}

proof fn lemma_not_found(s: Seq<char>, from: int)
    requires
        0 <= from <= s.len(),
        forall|i: int| from <= i < s.len() ==> s[i] != '\u{1f}',
    ensures
        find_from(s, '\u{1f}', from) == s.len(),
{
    characters_are_found_first(s, '\u{1f}', from);
}

/// A program's answer holds the address of its record in its upper half and the length in its
/// lower one.
pub proof fn answers_point_at_records(ptr: u32, len: u32)
    ensures
        ({
            let v = ptr * 0x1_0000_0000 + len;
            let packed = if v > i64::MAX { v - 0x1_0000_0000_0000_0000 } else { v };
            record_place(packed as i64) == (ptr as int, len as int)
        }),
{
}

/// The record is what its bytes encode, where they lie in the memory and are one to 4096.
pub proof fn records_are_read_from_memory(mem: Seq<u8>, ptr: u32, len: u32, text: Seq<char>)
    requires
        ptr < 0x8000_0000,
        ptr + len <= mem.len(),
        mem.subrange(ptr as int, ptr + len) == encode_utf8(text),
    ensures
        0 < len <= 4096 ==> record_text(mem, (ptr * 0x1_0000_0000 + len) as i64) == Some(text),
        len == 0 || len > 4096 ==> record_text(mem, (ptr * 0x1_0000_0000 + len) as i64) is None,
{
    answers_point_at_records(ptr, len);
    encode_utf8_valid_utf8(text);
    encode_utf8_decode_utf8(text);
}

/// Whether one of the first `n` files says this of itself.
pub open spec fn is_said(m: Map<Seq<char>, Probe>, s: Seq<FileView>, n: int, what: ManifestView) -> bool {
    exists|j: int| 0 <= j < n && m.dom().contains((#[trigger] s[j]).stem) && m[s[j].stem].manifest == Some(what)
}

/// The list of manifests holds what each file with an answer says, unless a file before it says
/// the same id; and it holds nothing else.
pub proof fn every_manifest_is_listed(m: Map<Seq<char>, Probe>, s: Seq<FileView>, n: int, k: int)
    requires
        0 <= n <= s.len(),
    ensures
        0 <= k < n && m.dom().contains(s[k].stem) && m[s[k].stem].manifest is Some ==> {
            let what = m[s[k].stem].manifest->0;
            &&& has_id(described(m, s, n), what.id)
            &&& (forall|j: int|
                0 <= j < k && m.dom().contains((#[trigger] s[j]).stem) && m[s[j].stem].manifest is Some
                    ==> m[s[j].stem].manifest->0.id != what.id) ==> described(m, s, n).contains(what)
        },
        forall|i: int| 0 <= i < described(m, s, n).len() ==> is_said(m, s, n, #[trigger] described(m, s, n)[i]),
    decreases n,
{
    if n > 0 {
        every_manifest_is_listed(m, s, n - 1, k);
        let was = described(m, s, n - 1);
        let now = described(m, s, n);
        assert(now.len() >= was.len());
        assert(forall|i: int| 0 <= i < was.len() ==> #[trigger] now[i] == was[i]);
        assert forall|i: int| 0 <= i < now.len() implies is_said(m, s, n, #[trigger] now[i]) by {
            if i < was.len() {
                assert(is_said(m, s, n - 1, was[i]));
                let j = choose|j: int|
                    0 <= j < n - 1 && m.dom().contains((#[trigger] s[j]).stem) && m[s[j].stem].manifest == Some(was[i]);
                assert(m[s[j].stem].manifest == Some(now[i]));
            } else {
                assert(m[s[n - 1].stem].manifest == Some(now[i]));
            }
        }
        if 0 <= k < n && m.dom().contains(s[k].stem) && m[s[k].stem].manifest is Some {
            let what = m[s[k].stem].manifest->0;
            if k < n - 1 {
                let i = choose|i: int| 0 <= i < was.len() && (#[trigger] was[i]).id == what.id;
                assert(now[i].id == what.id);
                if was.contains(what) {
                    let i = choose|i: int| 0 <= i < was.len() && was[i] == what;
                    assert(now[i] == what);
                }
            } else if has_id(was, what.id) {
                let i = choose|i: int| 0 <= i < was.len() && (#[trigger] was[i]).id == what.id;
                assert(now[i].id == what.id);
                assert(is_said(m, s, n - 1, was[i]));
                let j = choose|j: int|
                    0 <= j < n - 1 && m.dom().contains((#[trigger] s[j]).stem) && m[s[j].stem].manifest == Some(was[i]);
                assert(m[s[j].stem].manifest->0.id == what.id);
            } else {
                assert(now[was.len() as int] == what);
            }
        }
    }
}

proof fn lemma_slot(s: Seq<ManifestView>, title: Seq<char>)
    requires
        ordered(s),
    ensures
        0 <= slot_of(s, title) <= s.len(),
        forall|i: int| slot_of(s, title) <= i < s.len() ==> before(title, (#[trigger] s[i]).title),
    decreases s.len(),
{
    if s.len() > 0 && before(title, s.last().title) {
        let d = s.drop_last();
        assert(ordered(d)) by {
            assert forall|i: int, j: int| 0 <= i < j < d.len() implies !before(
                (#[trigger] d[j]).title,
                (#[trigger] d[i]).title,
            ) by {
                assert(!before(s[j].title, s[i].title));
            }
        }
        lemma_slot(d, title);
        assert forall|i: int| slot_of(s, title) <= i < s.len() implies before(title, (#[trigger] s[i]).title) by {
            if i < d.len() {
                assert(d[i] == s[i]);
            }
        }
    }
}

/// Picks the manifests with a label.
pub open spec fn has_title(title: Seq<char>) -> spec_fn(ManifestView) -> bool {
    |m: ManifestView| m.title == title
}

/// Programs with the same label keep their order when the list is ordered.
pub proof fn equal_labels_keep_their_order(s: Seq<ManifestView>, title: Seq<char>)
    ensures
        by_title(s).filter(has_title(title)) == s.filter(has_title(title)),
    decreases s.len(),
{
    let p = has_title(title);
    if s.len() > 0 {
        let d = s.drop_last();
        let x = s.last();
        equal_labels_keep_their_order(d, title);
        by_title_orders(d);
        let t = by_title(d);
        lemma_slot(t, x.title);
        let k = slot_of(t, x.title);
        let (a, b) = (t.take(k), t.skip(k));
        assert(t =~= a + b);
        assert(by_title(s) =~= a + seq![x] + b);
        Seq::filter_distributes_over_add(a, b, p);
        Seq::filter_distributes_over_add(a + seq![x], b, p);
        Seq::filter_distributes_over_add(a, seq![x], p);
        reveal_with_fuel(Seq::filter, 2);
        assert(seq![x].drop_last() =~= Seq::<ManifestView>::empty());
        if p(x) {
            assert forall|i: int| 0 <= i < b.len() implies !p(#[trigger] b[i]) by {
                assert(b[i] == t[k + i]);
                before_is_total(x.title, b[i].title);
            }
            lemma_none_picked(b, p);
            assert(seq![x].filter(p) =~= seq![x]);
            assert(by_title(s).filter(p) =~= t.filter(p).push(x));
        } else {
            assert(seq![x].filter(p) =~= Seq::<ManifestView>::empty());
            assert(by_title(s).filter(p) =~= t.filter(p));
        }
    }
}

proof fn lemma_none_picked(s: Seq<ManifestView>, p: spec_fn(ManifestView) -> bool)
    requires
        forall|i: int| 0 <= i < s.len() ==> !p(#[trigger] s[i]),
    ensures
        s.filter(p) == Seq::<ManifestView>::empty(),
    decreases s.len(),
{
    reveal(Seq::filter);
    if s.len() > 0 {
        lemma_none_picked(s.drop_last(), p);
    }
}

/// Exactly the files are asked whose answer is missing, or was given by a file at another path or
/// of another size; in their order.
pub proof fn files_without_an_answer_are_asked(m: Map<Seq<char>, Probe>, f: Seq<FileView>, n: int, k: int)
    requires
        0 <= n <= f.len() <= usize::MAX,
        0 <= k < n,
    ensures
        to_ask(m, f, n).contains(k as usize) <==> !(m.dom().contains(f[k].stem) && m[f[k].stem].path == f[k].path
            && m[f[k].stem].size == f[k].size),
        forall|i: int, j: int|
            0 <= i < j < to_ask(m, f, n).len() ==> (#[trigger] to_ask(m, f, n)[i]) < (#[trigger] to_ask(m, f, n)[j]),
        forall|i: int| 0 <= i < to_ask(m, f, n).len() ==> (#[trigger] to_ask(m, f, n)[i]) < n,
    decreases n,
{
    let was = to_ask(m, f, n - 1);
    let now = to_ask(m, f, n);
    if n > 1 {
        files_without_an_answer_are_asked(m, f, n - 1, if k < n - 1 { k } else { 0 });
    } else {
        assert(was =~= Seq::<usize>::empty());
    }
    if k < n - 1 {
        if was.contains(k as usize) {
            let i = choose|i: int| 0 <= i < was.len() && was[i] == k as usize;
            assert(now[i] == k as usize);
        }
        if now.contains(k as usize) {
            let i = choose|i: int| 0 <= i < now.len() && now[i] == k as usize;
            assert(was[i] == k as usize);
        }
    } else if !fresh(m, f[k]) {
        assert(now[was.len() as int] == k as usize);
    }
}

/// Every flag that is set counts once.
pub proof fn set_flags_are_counted(s: Seq<bool>, n: int)
    requires
        0 < n <= s.len(),
    ensures
        set_flags(s, 0) == 0,
        s[n - 1] ==> set_flags(s, n) == set_flags(s, n - 1) + 1,
        !s[n - 1] ==> set_flags(s, n) == set_flags(s, n - 1),
{
}

} // verus!
