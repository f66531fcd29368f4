//! The programs that a desktop can launch: where they are looked for, what they say of
//! themselves, and the list that the launcher shows.
//!
//! A program is a file `<stem>.cwasm` in one of the program directories. It stands in the
//! launcher when it describes itself by a manifest record. Asking for the record is costly,
//! so what a file answered is kept for as long as its path and its size stay the same.

use vstd::prelude::*;
use vstd::utf8::{decode_utf8, valid_utf8};
use crate::text::{before, before_is_total, before_is_transitive, chars, find_char, find_from, is_before, part, same, trim, trimmed, utf8};
use crate::wt::mem::read;

verus! {

/// A program that is part of the system image.
pub struct AppEntry {
    pub name: &'static str,
    pub cwasm: &'static [u8],
    /// Whether the launcher shows it; a hidden one is still found by its name.
    pub show_in_launcher: bool,
}

/// What a program says of itself: the name by which it is launched, and its label.
pub struct Manifest {
    pub id: String,
    pub title: String,
}

/// A manifest as text.
pub struct ManifestView {
    pub id: Seq<char>,
    pub title: Seq<char>,
}

impl View for Manifest {
    type V = ManifestView;

    open spec fn view(&self) -> ManifestView {
        ManifestView { id: self.id@, title: self.title@ }
    }
}

/// A file of a program directory; its size is missing where the file could not be asked.
pub struct DirEntry {
    pub name: String,
    pub size: Option<u64>,
}

/// A program directory and its files.
pub struct Listing {
    pub dir: String,
    pub entries: Vec<DirEntry>,
}

/// A program's file.
pub struct AppFile {
    pub stem: String,
    pub path: String,
    pub size: u64,
}

/// A program's file as text.
pub struct FileView {
    pub stem: Seq<char>,
    pub path: Seq<char>,
    pub size: u64,
}

impl View for AppFile {
    type V = FileView;

    open spec fn view(&self) -> FileView {
        FileView { stem: self.stem@, path: self.path@, size: self.size }
    }
}

/// The views of a list.
pub open spec fn files(s: Seq<AppFile>) -> Seq<FileView> {
    Seq::new(s.len(), |i: int| s[i]@)
}

/// The views of a list.
pub open spec fn manifests(s: Seq<Manifest>) -> Seq<ManifestView> {
    Seq::new(s.len(), |i: int| s[i]@)
}

/// What the file of a program answered.
pub struct ProbeEntry {
    pub stem: String,
    pub path: String,
    pub size: u64,
    pub manifest: Option<Manifest>,
}

/// What the file at a path, of a size, answered.
pub struct Probe {
    pub path: Seq<char>,
    pub size: u64,
    pub manifest: Option<ManifestView>,
}

/// The system's own program directory.
pub open spec fn bin_dir() -> Seq<char> {
    "/bin"@
}

/// The directory into which programs are dropped, on the mounted disk.
pub open spec fn drop_dir() -> Seq<char> {
    "/mnt/apps"@
}

/// The name that a program's file has without its ending.
pub open spec fn stem_of(name: Seq<char>) -> Option<Seq<char>> {
    let ending = ".cwasm"@;
    if name.len() >= ending.len() && name.subrange(name.len() - ending.len(), name.len() as int) == ending {
        Some(name.subrange(0, name.len() - ending.len()))
    } else {
        None
    }
}

/// Whether a stem names a part of the desktop itself, which no launcher shows.
pub open spec fn excluded(stem: Seq<char>) -> bool {
    stem == "shell"@ || stem == "compositor"@
}

/// Whether a list holds a program of this stem.
pub open spec fn has_stem(s: Seq<FileView>, stem: Seq<char>) -> bool {
    exists|i: int| 0 <= i < s.len() && (#[trigger] s[i]).stem == stem
}

/// The list after one more file of `dir` was looked at.
pub open spec fn with_entry(s: Seq<FileView>, dir: Seq<char>, e: DirEntry) -> Seq<FileView> {
    match (stem_of(e.name@), e.size) {
        (Some(stem), Some(size)) => if excluded(stem) || has_stem(s, stem) {
            s
        } else {
            s.push(FileView { stem, path: dir + "/"@ + e.name@, size })
        },
        _ => s,
    }
}

/// The list after the first `n` files of `dir` were looked at.
pub open spec fn with_entries(s: Seq<FileView>, dir: Seq<char>, es: Seq<DirEntry>, n: int) -> Seq<FileView>
    decreases n,
{
    if n <= 0 {
        s
    } else {
        with_entry(with_entries(s, dir, es, n - 1), dir, es[n - 1])
    }
}

/// The programs in the first `n` directories. An earlier directory hides a later one.
pub open spec fn present(ls: Seq<Listing>, n: int) -> Seq<FileView>
    decreases n,
{
    if n <= 0 {
        Seq::empty()
    } else {
        with_entries(present(ls, n - 1), ls[n - 1].dir@, ls[n - 1].entries@, ls[n - 1].entries@.len() as int)
    }
}

/// No stem stands twice in a list.
pub open spec fn stems_differ(s: Seq<FileView>) -> bool {
    forall|i: int, j: int| 0 <= i < j < s.len() ==> (#[trigger] s[i]).stem != (#[trigger] s[j]).stem
}

proof fn lemma_entries_keep_stems(s: Seq<FileView>, dir: Seq<char>, es: Seq<DirEntry>, n: int)
    requires
        stems_differ(s),
    ensures
        stems_differ(with_entries(s, dir, es, n)),
    decreases n,
{
    if n > 0 {
        lemma_entries_keep_stems(s, dir, es, n - 1);
        let t = with_entries(s, dir, es, n - 1);
        let u = with_entry(t, dir, es[n - 1]);
        assert forall|i: int, j: int| 0 <= i < j < u.len() implies (#[trigger] u[i]).stem != (#[trigger] u[j]).stem by {
            if j < t.len() {
                assert(u[i] == t[i] && u[j] == t[j]);
            } else {
                assert(u[i] == t[i]);
            }
        }
    }
}

/// No program is found twice, however many directories hold a file of its name.
pub proof fn present_stems_differ(ls: Seq<Listing>, n: int)
    ensures
        stems_differ(present(ls, n)),
    decreases n,
{
    if n > 0 {
        present_stems_differ(ls, n - 1);
        lemma_entries_keep_stems(
            present(ls, n - 1),
            ls[n - 1].dir@,
            ls[n - 1].entries@,
            ls[n - 1].entries@.len() as int,
        );
    }
}

/// The directories that are looked through, the first of them first: the drop directory
/// only where a disk is mounted.
pub fn app_dirs(mounted: bool) -> (r: Vec<String>)
    ensures
        r@.len() == if mounted { 2int } else { 1 },
        r@[0]@ == bin_dir(),
        mounted ==> r@[1]@ == drop_dir(),
{
    let mut out: Vec<String> = Vec::new();
    out.push(String::from_str("/bin"));
    if mounted {
        out.push(String::from_str("/mnt/apps"));
    }
    out
}

/// The path of the program `name` in a directory.
pub open spec fn app_path_in(dir: Seq<char>, name: Seq<char>) -> Seq<char> {
    dir + "/"@ + name + ".cwasm"@
}

/// The path of the program `name` in a directory.
pub fn app_path(dir: &str, name: &str) -> (r: String)
    ensures
        r@ == app_path_in(dir@, name@),
{
    String::from_str(dir).concat("/").concat(name).concat(".cwasm")
}

/// What `read` may have answered for a path.
pub open spec fn may_read<R: Fn(&String) -> Option<Vec<u8>>>(read: R, path: Seq<char>, r: Option<Vec<u8>>) -> bool {
    exists|p: String| p@ == path && #[trigger] call_ensures(read, (&p,), r)
}

/// Reads the program `name` from the first directory that has it.
pub fn read_app_bytes<R: Fn(&String) -> Option<Vec<u8>>>(name: &str, mounted: bool, read: R) -> (r: Option<Vec<u8>>)
    requires
        forall|p: String| #[trigger] call_requires(read, (&p,)),
    ensures
        match r {
            Some(b) => {
                ||| may_read(read, app_path_in(bin_dir(), name@), Some(b))
                ||| {
                    &&& mounted
                    &&& may_read(read, app_path_in(bin_dir(), name@), None)
                    &&& may_read(read, app_path_in(drop_dir(), name@), Some(b))
                }
            },
            None => {
                &&& may_read(read, app_path_in(bin_dir(), name@), None)
                &&& mounted ==> may_read(read, app_path_in(drop_dir(), name@), None)
            },
        },
{
    let dirs: Vec<String> = app_dirs(mounted);
    let first: String = app_path(dirs[0].as_str(), name);
    let b = read(&first);
    assert(may_read(read, app_path_in(bin_dir(), name@), b));
    if b.is_some() || !mounted {
        return b;
    }
    let second: String = app_path(dirs[1].as_str(), name);
    let c = read(&second);
    assert(may_read(read, app_path_in(drop_dir(), name@), c));
    c
}

/// The name that a program's file has without its ending.
fn stem(name: &str) -> (r: Option<String>)
    ensures
        r is Some <==> stem_of(name@) is Some,
        r is Some ==> r->0@ == stem_of(name@)->0,
{
    proof {
        reveal_strlit(".cwasm");
    }
    let n: usize = name.unicode_len();
    if n < 6 {
        return None;
    }
    if same(part(name, n - 6, n).as_str(), ".cwasm") {
        Some(part(name, 0, n - 6))
    } else {
        None
    }
}

fn contains_stem(s: &Vec<AppFile>, stem: &String) -> (r: bool)
    ensures
        r == has_stem(files(s@), stem@),
{
    let mut i: usize = 0;
    while i < s.len()
        invariant
            i <= s@.len(),
            forall|j: int| 0 <= j < i ==> (#[trigger] files(s@)[j]).stem != stem@,
        decreases s@.len() - i,
    {
        if s[i].stem == *stem {
            assert(files(s@)[i as int].stem == stem@);
            return true;
        }
        i += 1;
    }
    false
}

/// The programs that the directories hold, each once.
pub fn present_apps(ls: &Vec<Listing>) -> (r: Vec<AppFile>)
    ensures
        files(r@) == present(ls@, ls@.len() as int),
{
    let mut out: Vec<AppFile> = Vec::new();
    let mut d: usize = 0;
    assert(files(out@) =~= present(ls@, 0));
    while d < ls.len()
        invariant
            d <= ls@.len(),
            files(out@) == present(ls@, d as int),
        decreases ls@.len() - d,
    {
        let dir = &ls[d].dir;
        let es = &ls[d].entries;
        let ghost start = files(out@);
        let mut i: usize = 0;
        while i < es.len()
            invariant
                i <= es@.len(),
                files(out@) == with_entries(start, dir@, es@, i as int),
            decreases es@.len() - i,
        {
            let ghost s = out@;
            if let Some(st) = stem(es[i].name.as_str()) {
                if let Some(size) = es[i].size {
                    if !same(st.as_str(), "shell") && !same(st.as_str(), "compositor") && !contains_stem(&out, &st) {
                        let path: String = dir.clone().concat("/").concat(es[i].name.as_str());
                        out.push(AppFile { stem: st, path, size });
                        assert(files(out@) =~= files(s).push(out@.last()@));
                    }
                }
            }
            i += 1;
        }
        d += 1;
    }
    out
}

/// The text of a manifest record: an id and a label, set apart by a unit separator, and
/// more fields that are not looked at. A record without a label is labelled by its id.
pub open spec fn manifest_of(s: Seq<char>) -> Option<ManifestView> {
    let a = find_from(s, '\u{1f}', 0);
    let id = trimmed(s.subrange(0, a));
    let title = if a < s.len() {
        trimmed(s.subrange(a + 1, find_from(s, '\u{1f}', a + 1)))
    } else {
        Seq::empty()
    };
    if id.len() == 0 {
        None
    } else if title.len() == 0 {
        Some(ManifestView { id, title: id })
    } else {
        Some(ManifestView { id, title })
    }
}

/// Reads a manifest record.
pub fn parse_manifest(s: &str) -> (r: Option<Manifest>)
    ensures
        match r {
            Some(m) => manifest_of(s@) == Some(m@),
            None => manifest_of(s@) is None,
        },
{
    let cs: Vec<char> = chars(s);
    let a: usize = find_char(&cs, '\u{1f}', 0);
    let id: String = trim(part(s, 0, a).as_str());
    if id.as_str().is_empty() {
        return None;
    }
    if a < cs.len() {
        let b: usize = find_char(&cs, '\u{1f}', a + 1);
        let title: String = trim(part(s, a + 1, b).as_str());
        if !title.as_str().is_empty() {
            return Some(Manifest { id, title });
        }
    }
    let title: String = id.clone();
    Some(Manifest { id, title })
}

/// Where the record lies that a program's answer points at: the address in the upper half
/// of the answer, the length in the lower.
pub open spec fn record_place(packed: i64) -> (int, int) {
    ((packed as int / 0x1_0000_0000) % 0x1_0000_0000, packed as int % 0x1_0000_0000)
}

/// The record that a program's answer points at, where it is not empty, holds no more than
/// 4096 bytes, lies in the program's memory and is text.
pub open spec fn record_text(mem: Seq<u8>, packed: i64) -> Option<Seq<char>> {
    let (ptr, len) = record_place(packed);
    if 0 < len <= 4096 && ptr + len <= mem.len() && valid_utf8(mem.subrange(ptr, ptr + len)) {
        Some(decode_utf8(mem.subrange(ptr, ptr + len)))
    } else {
        None
    }
}

/// Reads the manifest that a program's answer points at.
pub fn extract_manifest(mem: &[u8], packed: i64) -> (r: Option<Manifest>)
    ensures
        match record_text(mem@, packed) {
            None => r is None,
            Some(s) => match r {
                Some(m) => manifest_of(s) == Some(m@),
                None => manifest_of(s) is None,
            },
        },
{
    let bits: u64 = if packed >= 0 {
        packed as u64
    } else {
        (packed + 0x4000_0000_0000_0000 + 0x4000_0000_0000_0000) as u64 + 0x8000_0000_0000_0000
    };
    let ptr: u32 = (bits / 0x1_0000_0000) as u32;
    let len: u32 = (bits % 0x1_0000_0000) as u32;
    if len == 0 || len > 4096 {
        return None;
    }
    match read(mem, ptr, len) {
        None => None,
        Some(b) => match utf8(b) {
            None => None,
            Some(s) => parse_manifest(s.as_str()),
        },
    }
}

/// The launcher's list, and what each present file answered.
pub struct Catalog {
    pub cache: Vec<ProbeEntry>,
    pub apps: Vec<Manifest>,
    /// Hundredths of a second of the clock at the last scan.
    pub last_scan: i64,
}

/// The part of an answer that is kept.
pub open spec fn probe(e: ProbeEntry) -> Probe {
    Probe {
        path: e.path@,
        size: e.size,
        manifest: match e.manifest {
            Some(m) => Some(m@),
            None => None,
        },
    }
}

/// The answers by the stems of their files.
pub open spec fn answers(cache: Seq<ProbeEntry>) -> Map<Seq<char>, Probe> {
    Map::new(
        |k: Seq<char>| exists|i: int| 0 <= i < cache.len() && (#[trigger] cache[i]).stem@ == k,
        |k: Seq<char>| probe(cache[choose|i: int| 0 <= i < cache.len() && (#[trigger] cache[i]).stem@ == k]),
    )
}

/// Whether an answer is still good for a file.
pub open spec fn fresh(m: Map<Seq<char>, Probe>, f: FileView) -> bool {
    m.dom().contains(f.stem) && m[f.stem].path == f.path && m[f.stem].size == f.size
}

/// The answers whose files are still there.
pub open spec fn kept(m: Map<Seq<char>, Probe>, s: Seq<FileView>) -> Map<Seq<char>, Probe> {
    m.restrict(Set::new(|k: Seq<char>| has_stem(s, k)))
}

/// Whether a list of manifests holds one of this id.
pub open spec fn has_id(s: Seq<ManifestView>, id: Seq<char>) -> bool {
    exists|i: int| 0 <= i < s.len() && (#[trigger] s[i]).id == id
}

/// The manifests of the first `n` files, in the order of the files, each id once.
pub open spec fn described(m: Map<Seq<char>, Probe>, s: Seq<FileView>, n: int) -> Seq<ManifestView>
    decreases n,
{
    if n <= 0 {
        Seq::empty()
    } else {
        let t = described(m, s, n - 1);
        let stem = s[n - 1].stem;
        if m.dom().contains(stem) && m[stem].manifest is Some && !has_id(t, m[stem].manifest->0.id) {
            t.push(m[stem].manifest->0)
        } else {
            t
        }
    }
}

/// Where a label goes into an ordered list: behind every label that does not stand after it.
pub open spec fn slot_of(s: Seq<ManifestView>, title: Seq<char>) -> int
    decreases s.len(),
{
    if s.len() == 0 || !before(title, s.last().title) {
        s.len() as int
    } else {
        slot_of(s.drop_last(), title)
    }
}

/// A list in the order of its labels; equal labels keep their order.
pub open spec fn by_title(s: Seq<ManifestView>) -> Seq<ManifestView>
    decreases s.len(),
{
    if s.len() == 0 {
        s
    } else {
        let t = by_title(s.drop_last());
        t.insert(slot_of(t, s.last().title), s.last())
    }
}

/// No label of a list stands before an earlier one.
pub open spec fn ordered(s: Seq<ManifestView>) -> bool {
    forall|i: int, j: int| 0 <= i < j < s.len() ==> !before((#[trigger] s[j]).title, (#[trigger] s[i]).title)
}

proof fn lemma_slot(s: Seq<ManifestView>, title: Seq<char>)
    requires
        ordered(s),
    ensures
        0 <= slot_of(s, title) <= s.len(),
        forall|i: int| 0 <= i < slot_of(s, title) ==> !before(title, (#[trigger] s[i]).title),
        forall|i: int| slot_of(s, title) <= i < s.len() ==> before(title, (#[trigger] s[i]).title),
    decreases s.len(),
{
    if s.len() > 0 {
        if before(title, s.last().title) {
            let t = s.drop_last();
            assert forall|i: int, j: int| 0 <= i < j < t.len() implies !before((#[trigger] t[j]).title, (#[trigger] t[i]).title) by {
                assert(t[i] == s[i] && t[j] == s[j]);
            }
            lemma_slot(t, title);
            assert forall|i: int| 0 <= i < slot_of(s, title) implies !before(title, (#[trigger] s[i]).title) by {
                assert(t[i] == s[i]);
            }
            assert forall|i: int| slot_of(s, title) <= i < s.len() implies before(title, (#[trigger] s[i]).title) by {
                if i < t.len() {
                    assert(t[i] == s[i]);
                }
            }
        } else {
            assert forall|i: int| 0 <= i < s.len() implies !before(title, (#[trigger] s[i]).title) by {
                if i < s.len() - 1 {
                    before_is_total(title, s.last().title);
                    before_is_transitive(s[i].title, s.last().title, title);
                }
            }
        }
    }
}

/// Ordering a list by label leaves nothing out, adds nothing, and orders it.
pub proof fn by_title_orders(s: Seq<ManifestView>)
    ensures
        ordered(by_title(s)),
        by_title(s).len() == s.len(),
        by_title(s).to_multiset() == s.to_multiset(),
    decreases s.len(),
{
    broadcast use vstd::seq_lib::group_to_multiset_ensures;

    if s.len() > 0 {
        let t = by_title(s.drop_last());
        by_title_orders(s.drop_last());
        let x = s.last();
        lemma_slot(t, x.title);
        let k = slot_of(t, x.title);
        let u = t.insert(k, x);
        assert forall|i: int, j: int| 0 <= i < j < u.len() implies !before((#[trigger] u[j]).title, (#[trigger] u[i]).title) by {
            let i2 = if i > k { i - 1 } else { i };
            let j2 = if j > k { j - 1 } else { j };
            if i != k {
                assert(u[i] == t[i2]);
            }
            if j != k {
                assert(u[j] == t[j2]);
            }
            if i == k {
                before_is_total(x.title, t[j2].title);
            }
        }
        assert(s =~= s.drop_last().push(x));
        assert(u.to_multiset() =~= t.to_multiset().insert(x));
        assert(s.to_multiset() =~= s.drop_last().to_multiset().insert(x));
    }
}

/// No two programs of the launcher's list have the same id.
pub proof fn described_ids_differ(m: Map<Seq<char>, Probe>, s: Seq<FileView>, n: int)
    ensures
        forall|i: int, j: int|
            0 <= i < j < described(m, s, n).len() ==> (#[trigger] described(m, s, n)[i]).id != (
            #[trigger] described(m, s, n)[j]).id,
    decreases n,
{
    if n > 0 {
        described_ids_differ(m, s, n - 1);
        let t = described(m, s, n - 1);
        let u = described(m, s, n);
        assert forall|i: int, j: int| 0 <= i < j < u.len() implies (#[trigger] u[i]).id != (#[trigger] u[j]).id by {
            assert(u[i] == t[i]);
            if j < t.len() {
                assert(u[j] == t[j]);
            }
        }
    }
}

/// No stem stands twice among the answers.
pub open spec fn answered_once(cache: Seq<ProbeEntry>) -> bool {
    forall|i: int, j: int| 0 <= i < j < cache.len() ==> (#[trigger] cache[i]).stem@ != (#[trigger] cache[j]).stem@
}

proof fn lemma_answer(cache: Seq<ProbeEntry>, i: int)
    requires
        answered_once(cache),
        0 <= i < cache.len(),
    ensures
        answers(cache).dom().contains(cache[i].stem@),
        answers(cache)[cache[i].stem@] == probe(cache[i]),
{
    let k = cache[i].stem@;
    let j = choose|j: int| 0 <= j < cache.len() && (#[trigger] cache[j]).stem@ == k;
    if i < j {
        assert(cache[i].stem@ != cache[j].stem@);
    } else if j < i {
        assert(cache[j].stem@ != cache[i].stem@);
    }
}

/// Whether a list of texts holds `k`.
pub open spec fn has_text(s: Seq<String>, k: Seq<char>) -> bool {
    exists|i: int| 0 <= i < s.len() && (#[trigger] s[i])@ == k
}

/// Whether an answer stands at `n` or behind.
#[verifier::opaque]
spec fn among(all: Seq<ProbeEntry>, n: int, e: ProbeEntry) -> bool {
    exists|j: int| n <= j < all.len() && #[trigger] all[j] == e
}

/// Whether an answer of this stem stands at `n` or behind.
#[verifier::opaque]
spec fn stem_among(all: Seq<ProbeEntry>, n: int, k: Seq<char>) -> bool {
    exists|j: int| n <= j < all.len() && (#[trigger] all[j]).stem@ == k
}

/// Whether `keep` and `gone` hold the answers from `n` on: those whose files are in `f`, and the
/// stems of the others.
spec fn sorted_out(all: Seq<ProbeEntry>, f: Seq<FileView>, keep: Seq<ProbeEntry>, gone: Seq<String>, n: int) -> bool {
    &&& answered_once(keep)
    &&& forall|i: int|
        0 <= i < keep.len() ==> {
            &&& has_stem(f, (#[trigger] keep[i]).stem@)
            &&& among(all, n, keep[i])
        }
    &&& forall|i: int|
        0 <= i < gone.len() ==> {
            &&& !has_stem(f, (#[trigger] gone[i])@)
            &&& stem_among(all, n, gone[i]@)
        }
    &&& forall|j: int|
        n <= j < all.len() ==> if has_stem(f, (#[trigger] all[j]).stem@) {
            among(keep, 0, all[j])
        } else {
            has_text(gone, all[j].stem@)
        }
}

proof fn lemma_keep_one(all: Seq<ProbeEntry>, f: Seq<FileView>, keep: Seq<ProbeEntry>, gone: Seq<String>, n: int)
    requires
        answered_once(all),
        0 < n <= all.len(),
        sorted_out(all, f, keep, gone, n),
        has_stem(f, all[n - 1].stem@),
    ensures
        sorted_out(all, f, keep.push(all[n - 1]), gone, n - 1),
{
    reveal(among);
    reveal(stem_among);
    let k2 = keep.push(all[n - 1]);
    assert(k2[keep.len() as int] == all[n - 1]);
    assert forall|i: int, j: int| 0 <= i < j < k2.len() implies (#[trigger] k2[i]).stem@ != (#[trigger] k2[j]).stem@ by {
        assert(k2[i] == keep[i]);
        if j == keep.len() {
            let a = choose|a: int| n <= a < all.len() && #[trigger] all[a] == keep[i];
            assert(all[n - 1].stem@ != all[a].stem@);
        } else {
            assert(k2[j] == keep[j]);
        }
    }
    assert forall|i: int| 0 <= i < k2.len() implies {
        &&& has_stem(f, (#[trigger] k2[i]).stem@)
        &&& among(all, n - 1, k2[i])
    } by {
        if i < keep.len() {
            assert(k2[i] == keep[i]);
        }
    }
    assert forall|j: int| n - 1 <= j < all.len() && has_stem(f, (#[trigger] all[j]).stem@) implies among(k2, 0, all[j]) by {
        if j >= n {
            let i = choose|i: int| 0 <= i < keep.len() && #[trigger] keep[i] == all[j];
            assert(k2[i] == all[j]);
        }
    }
}

proof fn lemma_drop_one(
    all: Seq<ProbeEntry>,
    f: Seq<FileView>,
    keep: Seq<ProbeEntry>,
    gone: Seq<String>,
    gone2: Seq<String>,
    n: int,
)
    requires
        answered_once(all),
        0 < n <= all.len(),
        sorted_out(all, f, keep, gone, n),
        !has_stem(f, all[n - 1].stem@),
        gone2.len() == gone.len() + 1,
        gone2.drop_last() == gone,
        gone2.last()@ == all[n - 1].stem@,
    ensures
        sorted_out(all, f, keep, gone2, n - 1),
{
    reveal(among);
    reveal(stem_among);
    assert forall|i: int| 0 <= i < gone.len() implies #[trigger] gone2[i] == gone[i] by {
        assert(gone2.drop_last()[i] == gone2[i]);
    }
    assert forall|j: int| n - 1 <= j < all.len() && !has_stem(f, (#[trigger] all[j]).stem@) implies has_text(
        gone2,
        all[j].stem@,
    ) by {
        if j >= n {
            let i = choose|i: int| 0 <= i < gone.len() && (#[trigger] gone[i])@ == all[j].stem@;
            assert(gone2[i]@ == all[j].stem@);
        } else {
            assert(gone2[gone2.len() - 1]@ == all[j].stem@);
        }
    }
}

proof fn lemma_sorted_out(all: Seq<ProbeEntry>, f: Seq<FileView>, keep: Seq<ProbeEntry>, gone: Seq<String>)
    requires
        answered_once(all),
        sorted_out(all, f, keep, gone, 0),
    ensures
        answers(keep) == kept(answers(all), f),
        forall|k: Seq<char>| has_text(gone, k) <==> #[trigger] answers(all).dom().contains(k) && !has_stem(f, k),
{
    let m = answers(all);
    let a = answers(keep);
    assert forall|k: Seq<char>| #[trigger] a.dom().contains(k) implies m.dom().contains(k) && has_stem(f, k) && a[k]
        == m[k] by {
        let i = choose|i: int| 0 <= i < keep.len() && (#[trigger] keep[i]).stem@ == k;
        assert(among(all, 0, keep[i]));
        reveal(among);
        let j = choose|j: int| 0 <= j < all.len() && #[trigger] all[j] == keep[i];
        lemma_answer(keep, i);
        lemma_answer(all, j);
    }
    assert forall|k: Seq<char>| #[trigger] m.dom().contains(k) && has_stem(f, k) implies a.dom().contains(k) by {
        let j = choose|j: int| 0 <= j < all.len() && (#[trigger] all[j]).stem@ == k;
        assert(among(keep, 0, all[j]));
        reveal(among);
        let i = choose|i: int| 0 <= i < keep.len() && #[trigger] keep[i] == all[j];
        assert(keep[i].stem@ == k);
    }
    assert(a =~= kept(m, f));
    assert forall|k: Seq<char>| #[trigger] m.dom().contains(k) && !has_stem(f, k) implies has_text(gone, k) by {
        let j = choose|j: int| 0 <= j < all.len() && (#[trigger] all[j]).stem@ == k;
        assert(!has_stem(f, all[j].stem@));
    }
    assert forall|k: Seq<char>| has_text(gone, k) implies #[trigger] m.dom().contains(k) && !has_stem(f, k) by {
        let i = choose|i: int| 0 <= i < gone.len() && (#[trigger] gone[i])@ == k;
        assert(stem_among(all, 0, gone[i]@));
        reveal(stem_among);
    }
}

impl Catalog {
    /// No stem has two answers.
    pub open spec fn wf(&self) -> bool {
        answered_once(self.cache@)
    }

    /// An empty catalog, due to be scanned.
    pub fn new() -> (r: Self)
        ensures
            r.wf(),
            r.cache@.len() == 0,
            r.apps@.len() == 0,
            r.last_scan == -100_000_000_000,
    {
        Catalog { cache: Vec::new(), apps: Vec::new(), last_scan: -100_000_000_000 }
    }

    fn find(&self, stem: &String) -> (r: Option<usize>)
        requires
            self.wf(),
        ensures
            match r {
                Some(i) => {
                    &&& i < self.cache@.len()
                    &&& self.cache@[i as int].stem@ == stem@
                    &&& answers(self.cache@).dom().contains(stem@)
                    &&& answers(self.cache@)[stem@] == probe(self.cache@[i as int])
                },
                None => !answers(self.cache@).dom().contains(stem@),
            },
    {
        let mut i: usize = 0;
        while i < self.cache.len()
            invariant
                i <= self.cache@.len(),
                self.wf(),
                forall|j: int| 0 <= j < i ==> (#[trigger] self.cache@[j]).stem@ != stem@,
            decreases self.cache@.len() - i,
        {
            if self.cache[i].stem == *stem {
                proof {
                    lemma_answer(self.cache@, i as int);
                }
                return Some(i);
            }
            i += 1;
        }
        None
    }

    /// Whether a new scan is due: a second after the last one at the earliest. A due scan
    /// counts as begun.
    pub fn refresh_app_catalog(&mut self, now: i64) -> (r: bool)
        requires
            now - old(self).last_scan <= i64::MAX,
            now - old(self).last_scan >= i64::MIN,
        ensures
            r == (now - old(self).last_scan >= 100),
            *final(self) == (Catalog { last_scan: if r { now } else { old(self).last_scan }, ..*old(self) }),
    {
        if now - self.last_scan < 100 {
            return false;
        }
        self.last_scan = now;
        true
    }

    /// Forgets the answers of the files that are gone. Returns their stems.
    pub fn evict(&mut self, present: &Vec<AppFile>) -> (r: Vec<String>)
        requires
            old(self).wf(),
        ensures
            final(self).wf(),
            final(self).apps == old(self).apps,
            final(self).last_scan == old(self).last_scan,
            answers(final(self).cache@) == kept(answers(old(self).cache@), files(present@)),
            forall|k: Seq<char>|
                has_text(r@, k) <==> #[trigger] answers(old(self).cache@).dom().contains(k) && !has_stem(
                    files(present@),
                    k,
                ),
    {
        let mut keep: Vec<ProbeEntry> = Vec::new();
        let mut gone: Vec<String> = Vec::new();
        let ghost all = self.cache@;
        let mut cache: Vec<ProbeEntry> = Vec::new();
        std::mem::swap(&mut cache, &mut self.cache);
        while cache.len() > 0
            invariant
                old(self).wf(),
                all == old(self).cache@,
                self.apps == old(self).apps,
                self.last_scan == old(self).last_scan,
                cache@.len() <= all.len(),
                cache@ == all.subrange(0, cache@.len() as int),
                sorted_out(all, files(present@), keep@, gone@, cache@.len() as int),
            decreases cache@.len(),
        {
            let ghost n = cache@.len() as int;
            let ghost gone0 = gone@;
            if let Some(e) = cache.pop() {
                assert(e == all[n - 1]);
                if contains_stem(present, &e.stem) {
                    proof {
                        lemma_keep_one(all, files(present@), keep@, gone@, n);
                    }
                    keep.push(e);
                } else {
                    gone.push(e.stem);
                    assert(gone@.drop_last() =~= gone0);
                    proof {
                        lemma_drop_one(all, files(present@), keep@, gone0, gone@, n);
                    }
                }
            }
        }
        proof {
            lemma_sorted_out(all, files(present@), keep@, gone@);
        }
        self.cache = keep;
        gone
    }

    /// Whether a file has to be asked: it is new, or its path or its size changed.
    pub fn needs_probe(&self, f: &AppFile) -> (r: bool)
        requires
            self.wf(),
        ensures
            r == !fresh(answers(self.cache@), f@),
    {
        match self.find(&f.stem) {
            Some(i) => !(self.cache[i].path == f.path && self.cache[i].size == f.size),
            None => true,
        }
    }

    /// Keeps the answer of a file, a missing one too.
    pub fn record(&mut self, f: &AppFile, manifest: Option<Manifest>)
        requires
            old(self).wf(),
        ensures
            final(self).wf(),
            final(self).apps == old(self).apps,
            final(self).last_scan == old(self).last_scan,
            answers(final(self).cache@) == answers(old(self).cache@).insert(
                f@.stem,
                (Probe {
                    path: f@.path,
                    size: f@.size,
                    manifest: match manifest {
                        Some(m) => Some(m@),
                        None => None,
                    },
                }),
            ),
    {
        let e = ProbeEntry { stem: f.stem.clone(), path: f.path.clone(), size: f.size, manifest };
        let ghost new = e;
        let found = self.find(&f.stem);
        let ghost at: int = match found {
            Some(i) => i as int,
            None => self.cache@.len() as int,
        };
        match found {
            Some(i) => {
                self.cache[i] = e;
            },
            None => {
                self.cache.push(e);
            },
        }
        proof {
            let c0 = old(self).cache@;
            let c1 = self.cache@;
            assert(c1[at] == new);
            assert forall|j: int| 0 <= j < c0.len() && j != at implies c1[j] == c0[j] && (#[trigger] c0[j]).stem@ != f@.stem by {
                if found is None {
                    assert(c0[j].stem@ != f@.stem) by {
                        lemma_answer(old(self).cache@, j);
                    }
                } else if j < at {
                    assert(c0[j].stem@ != c0[at].stem@);
                } else {
                    assert(c0[at].stem@ != c0[j].stem@);
                }
            }
            assert(self.wf());
            let a0 = answers(c0);
            let a1 = answers(c1);
            assert forall|k: Seq<char>| #[trigger] a1.dom().contains(k) <==> a0.dom().contains(k) || k == f@.stem by {
                if a1.dom().contains(k) {
                    let i = choose|i: int| 0 <= i < c1.len() && (#[trigger] c1[i]).stem@ == k;
                    if i != at {
                        assert(c0[i].stem@ == k);
                    }
                }
                if a0.dom().contains(k) {
                    let i = choose|i: int| 0 <= i < c0.len() && (#[trigger] c0[i]).stem@ == k;
                    assert(c1[i].stem@ == k);
                }
                assert(c1[at].stem@ == f@.stem);
            }
            assert forall|k: Seq<char>| #[trigger] a1.dom().contains(k) implies a1[k] == if k == f@.stem {
                probe(new)
            } else {
                a0[k]
            } by {
                let i = choose|i: int| 0 <= i < c1.len() && (#[trigger] c1[i]).stem@ == k;
                lemma_answer(self.cache@, i);
                if i != at {
                    lemma_answer(old(self).cache@, i);
                    assert(c0[i].stem@ != f@.stem);
                }
            }
            assert(a1 =~= a0.insert(f@.stem, probe(new)));
        }
    }

    /// Rebuilds the launcher's list from the files that are present.
    pub fn publish(&mut self, present: &Vec<AppFile>)
        requires
            old(self).wf(),
        ensures
            final(self).wf(),
            final(self).cache == old(self).cache,
            final(self).last_scan == old(self).last_scan,
            manifests(final(self).apps@) == by_title(
                described(answers(old(self).cache@), files(present@), present@.len() as int),
            ),
    {
        let mut found: Vec<Manifest> = Vec::new();
        let ghost m = answers(self.cache@);
        let ghost f = files(present@);
        let mut i: usize = 0;
        assert(manifests(found@) =~= described(m, f, 0));
        while i < present.len()
            invariant
                i <= present@.len(),
                self.wf(),
                m == answers(self.cache@),
                f == files(present@),
                manifests(found@) == described(m, f, i as int),
            decreases present@.len() - i,
        {
            assert(f[i as int] == present@[i as int]@);
            let ghost t = found@;
            if let Some(k) = self.find(&present[i].stem) {
                if let Some(app) = &self.cache[k].manifest {
                    let mut j: usize = 0;
                    let mut twice: bool = false;
                    while j < found.len()
                        invariant
                            j <= found@.len(),
                            found@ == t,
                            twice == exists|a: int| 0 <= a < j && (#[trigger] manifests(t)[a]).id == app@.id,
                        decreases found@.len() - j,
                    {
                        assert(manifests(t)[j as int].id == found@[j as int].id@);
                        if found[j].id == app.id {
                            twice = true;
                        }
                        j += 1;
                    }
                    if !twice {
                        found.push(Manifest { id: app.id.clone(), title: app.title.clone() });
                        assert(manifests(found@) =~= manifests(t).push(app@));
                    }
                }
            }
            i += 1;
        }
        let ghost all = manifests(found@);
        let mut apps: Vec<Manifest> = Vec::new();
        let ghost total = found@;
        let mut rest: Vec<Manifest> = Vec::new();
        while found.len() > 0
            invariant
                found@.len() + rest@.len() == total.len(),
                found@ == total.subrange(0, found@.len() as int),
                forall|a: int| 0 <= a < rest@.len() ==> #[trigger] rest@[a] == total[total.len() - 1 - a],
            decreases found@.len(),
        {
            if let Some(x) = found.pop() {
                rest.push(x);
            }
        }
        assert(manifests(apps@) =~= by_title(all.take(0)));
        while rest.len() > 0
            invariant
                all == manifests(total),
                rest@.len() <= total.len(),
                forall|a: int| 0 <= a < rest@.len() ==> #[trigger] rest@[a] == total[total.len() - 1 - a],
                manifests(apps@) == by_title(all.take(total.len() - rest@.len())),
            decreases rest@.len(),
        {
            let ghost n = total.len() - rest@.len();
            let ghost t = apps@;
            if let Some(x) = rest.pop() {
                assert(all.take(n + 1).drop_last() =~= all.take(n));
                assert(all.take(n + 1).last() == x@);
                let mut k: usize = apps.len();
                assert(manifests(t).take(k as int) =~= manifests(t));
                while k > 0 && is_before(x.title.as_str(), apps[k - 1].title.as_str())
                    invariant
                        k <= apps@.len(),
                        apps@ == t,
                        slot_of(manifests(t).take(k as int), x@.title) == slot_of(manifests(t), x@.title),
                    decreases k,
                {
                    assert(manifests(t).take(k as int).drop_last() =~= manifests(t).take(k - 1));
                    k -= 1;
                }
                assert(slot_of(manifests(t), x@.title) == k);
                apps.insert(k, x);
                assert(manifests(apps@) =~= manifests(t).insert(k as int, x@));
            }
        }
        assert(all.take(total.len() as int) =~= all);
        self.apps = apps;
    }
}

/// The places, among the first `n` files, of those that have to be asked.
pub open spec fn to_ask(m: Map<Seq<char>, Probe>, f: Seq<FileView>, n: int) -> Seq<usize>
    decreases n,
{
    if n <= 0 {
        Seq::empty()
    } else if fresh(m, f[n - 1]) {
        to_ask(m, f, n - 1)
    } else {
        to_ask(m, f, n - 1).push((n - 1) as usize)
    }
}

/// A file that was asked is not asked again while its path and its size stay the same.
pub proof fn answer_is_kept(m: Map<Seq<char>, Probe>, f: FileView, manifest: Option<ManifestView>)
    ensures
        fresh(m.insert(f.stem, Probe { path: f.path, size: f.size, manifest }), f),
{
}

/// A file that was gone when the directories were read is asked when it comes back.
pub proof fn gone_file_is_asked(m: Map<Seq<char>, Probe>, s: Seq<FileView>, f: FileView)
    requires
        !has_stem(s, f.stem),
    ensures
        !fresh(kept(m, s), f),
{
}

impl Catalog {
    /// Begins a scan: forgets the answers of files that are gone, and tells which of the
    /// present files to ask, by their places, and which stems name a loaded program that is
    /// no longer the one of its file.
    pub fn scan_apps(&mut self, present: &Vec<AppFile>) -> (r: (Vec<usize>, Vec<String>))
        requires
            old(self).wf(),
        ensures
            final(self).wf(),
            final(self).apps == old(self).apps,
            final(self).last_scan == old(self).last_scan,
            answers(final(self).cache@) == kept(answers(old(self).cache@), files(present@)),
            r.0@ == to_ask(answers(final(self).cache@), files(present@), present@.len() as int),
            forall|k: Seq<char>| #[trigger]
                has_text(r.1@, k) <==> {
                    ||| answers(old(self).cache@).dom().contains(k) && !has_stem(files(present@), k)
                    ||| exists|i: int|
                        0 <= i < present@.len() && (#[trigger] files(present@)[i]).stem == k && !fresh(
                            answers(final(self).cache@),
                            files(present@)[i],
                        )
                },
    {
        let mut stale: Vec<String> = self.evict(present);
        let ghost gone = stale@;
        let ghost m = answers(self.cache@);
        let ghost f = files(present@);
        let mut need: Vec<usize> = Vec::new();
        let mut i: usize = 0;
        while i < present.len()
            invariant
                i <= present@.len(),
                self.wf(),
                m == answers(self.cache@),
                f == files(present@),
                self.apps == old(self).apps,
                self.last_scan == old(self).last_scan,
                need@ == to_ask(m, f, i as int),
                forall|k: Seq<char>| #[trigger]
                    has_text(stale@, k) <==> has_text(gone, k) || exists|j: int|
                        0 <= j < i && (#[trigger] f[j]).stem == k && !fresh(m, f[j]),
            decreases present@.len() - i,
        {
            let ghost s0 = stale@;
            assert(f[i as int] == present@[i as int]@);
            if self.needs_probe(&present[i]) {
                need.push(i);
                stale.push(present[i].stem.clone());
                assert forall|k: Seq<char>| #[trigger]
                    has_text(stale@, k) <==> has_text(s0, k) || k == f[i as int].stem by {
                    if has_text(s0, k) {
                        let a = choose|a: int| 0 <= a < s0.len() && (#[trigger] s0[a])@ == k;
                        assert(stale@[a]@ == k);
                    }
                    assert(stale@[s0.len() as int]@ == f[i as int].stem);
                }
            }
            i += 1;
        }
        (need, stale)
    }
}

/// How many of the first `n` flags are set.
pub open spec fn set_flags(s: Seq<bool>, n: int) -> nat
    decreases n,
{
    if n <= 0 {
        0
    } else {
        set_flags(s, n - 1) + if s[n - 1] { 1nat } else { 0 }
    }
}

/// The programs of the system image: two of them are one program under two names.
pub fn apps(
    reactor: &'static [u8],
    reactor_close: &'static [u8],
    probe: &'static [u8],
    egui_demo: &'static [u8],
) -> (r: Vec<AppEntry>)
    ensures
        r@.len() == 5,
        r@[0] == (AppEntry { name: "react-A", cwasm: reactor, show_in_launcher: false }),
        r@[1] == (AppEntry { name: "react-B", cwasm: reactor, show_in_launcher: false }),
        r@[2] == (AppEntry { name: "selfclose", cwasm: reactor_close, show_in_launcher: false }),
        r@[3] == (AppEntry { name: "wasip1-probe", cwasm: probe, show_in_launcher: false }),
        r@[4] == (AppEntry { name: "egui-demo", cwasm: egui_demo, show_in_launcher: true }),
{
    let mut out: Vec<AppEntry> = Vec::new();
    out.push(AppEntry { name: "react-A", cwasm: reactor, show_in_launcher: false });
    out.push(AppEntry { name: "react-B", cwasm: reactor, show_in_launcher: false });
    out.push(AppEntry { name: "selfclose", cwasm: reactor_close, show_in_launcher: false });
    out.push(AppEntry { name: "wasip1-probe", cwasm: probe, show_in_launcher: false });
    out.push(AppEntry { name: "egui-demo", cwasm: egui_demo, show_in_launcher: true });
    out
}

/// Counts the programs of the system image, and those of them that could be loaded.
pub fn registry_self_test(loaded: &Vec<bool>) -> (r: (u32, u32))
    requires
        loaded@.len() <= u32::MAX,
    ensures
        r.0 == loaded@.len(),
        r.1 == set_flags(loaded@, loaded@.len() as int),
{
    let mut ok: u32 = 0;
    let mut i: usize = 0;
    while i < loaded.len()
        invariant
            i <= loaded@.len() <= u32::MAX,
            ok == set_flags(loaded@, i as int),
            ok <= i,
        decreases loaded@.len() - i,
    {
        if loaded[i] {
            ok += 1;
        }
        i += 1;
    }
    (loaded.len() as u32, ok)
}

} // verus!
