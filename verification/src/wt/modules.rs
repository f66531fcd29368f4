//! Programs that were loaded once: a program is read and translated the first time its name is
//! asked for, and taken from here afterwards.

use vstd::prelude::*;

verus! {

/// A loaded program: its name, and the number that the engine knows it by.
pub struct Loaded {
    pub name: String,
    pub module: u64,
}

/// The programs that were loaded. No name occurs twice.
pub struct ModuleCache {
    pub loaded: Vec<Loaded>,
}

/// The program of a name among the first `n`.
pub open spec fn found(s: Seq<Loaded>, n: int, name: Seq<char>) -> Option<u64>
    decreases n,
{
    if n <= 0 {
        None
    } else if s[n - 1].name@ == name {
        Some(s[n - 1].module)
    } else {
        found(s, n - 1, name)
    }
}

impl ModuleCache {
    /// No name occurs twice.
    pub open spec fn wf(self) -> bool {
        forall|i: int, j: int|
            0 <= i < j < self.loaded@.len() ==> (#[trigger] self.loaded@[i]).name@ != (#[trigger] self.loaded@[j]).name@
    }

    /// The program of a name.
    pub open spec fn get(self, name: Seq<char>) -> Option<u64> {
        found(self.loaded@, self.loaded@.len() as int, name)
    }

    /// No programs.
    pub fn new() -> (r: Self)
        ensures
            r.wf(),
            forall|n: Seq<char>| r.get(n) is None,
    {
        ModuleCache { loaded: Vec::new() }
    }

    /// Looks a name up.
    pub fn lookup(&self, name: &str) -> (r: Option<u64>)
        ensures
            r == self.get(name@),
    {
        let mut n: usize = self.loaded.len();
        while n > 0
            invariant
                n <= self.loaded@.len(),
                self.get(name@) == found(self.loaded@, n as int, name@),
            decreases n,
        {
            if crate::text::same(self.loaded[n - 1].name.as_str(), name) {
                return Some(self.loaded[n - 1].module);
            }
            n -= 1;
        }
        None
    }

    /// The program of a name. `fresh` is what loading it gives, nothing where it cannot be
    /// loaded; it counts only for a name that was not loaded before, and a failure is not
    /// remembered.
    pub fn module_by_name(&mut self, name: &str, fresh: Option<u64>) -> (r: Option<u64>)
        requires
            old(self).wf(),
        ensures
            final(self).wf(),
            r == match old(self).get(name@) {
                Some(m) => Some(m),
                None => fresh,
            },
            final(self).get(name@) == r,
            forall|n: Seq<char>| n != name@ ==> #[trigger] final(self).get(n) == old(self).get(n),
    {
        if let Some(m) = self.lookup(name) {
            return Some(m);
        }
        if let Some(m) = fresh {
            let ghost before = self.loaded@;
            let entry = Loaded { name: String::from_str(name), module: m };
            self.loaded.push(entry);
            proof {
                lemma_absent(before, before.len() as int, name@);
                assert forall|n: Seq<char>| n != name@ implies #[trigger] self.get(n) == found(
                    before,
                    before.len() as int,
                    n,
                ) by {
                    lemma_found_prefix(before, entry, before.len() as int, n);
                }
            }
        }
        fresh
    }

    /// Drops the programs of some names: their files changed or are gone, so that what was
    /// loaded of them must not run again.
    pub fn forget(&mut self, names: &Vec<String>)
        requires
            old(self).wf(),
        ensures
            final(self).wf(),
            forall|n: Seq<char>| #[trigger]
                final(self).get(n) == if (exists|k: int| 0 <= k < names@.len() && (#[trigger] names@[k])@ == n) {
                    None
                } else {
                    old(self).get(n)
                },
    {
        let mut i: usize = 0;
        while i < self.loaded.len()
            invariant
                i <= self.loaded@.len(),
                self.wf(),
                forall|n: Seq<char>| !named(names@, n) ==> #[trigger] self.get(n) == old(self).get(n),
                forall|k: int| 0 <= k < i ==> !named(names@, (#[trigger] self.loaded@[k]).name@),
            decreases self.loaded@.len() - i,
        {
            if is_named(names, self.loaded[i].name.as_str()) {
                let ghost was = *self;
                let ghost before = self.loaded@;
                self.loaded.remove(i);
                proof {
                    assert forall|a: int, b: int| 0 <= a < b < self.loaded@.len() implies (#[trigger] self.loaded@[a]).name@
                        != (#[trigger] self.loaded@[b]).name@ by {
                        let c = if a < i { a } else { a + 1 };
                        let d = if b < i { b } else { b + 1 };
                        assert(self.loaded@[a] == before[c] && self.loaded@[b] == before[d]);
                        assert(was.loaded@[c].name@ != was.loaded@[d].name@);
                    }
                    assert forall|n: Seq<char>| !named(names@, n) implies #[trigger] self.get(n) == old(self).get(n) by {
                        assert(was.get(n) == old(self).get(n));
                        lemma_found_without(before, i as int, before.len() as int, n);
                    }
                }
            } else {
                i += 1;
            }
        }
        proof {
            assert forall|n: Seq<char>| #[trigger] self.get(n) == if named(names@, n) {
                None
            } else {
                old(self).get(n)
            } by {
                if named(names@, n) {
                    lemma_not_found(self.loaded@, self.loaded@.len() as int, names@, n);
                }
            }
        }
    }
}

/// Whether a name is among others.
pub open spec fn named(names: Seq<String>, n: Seq<char>) -> bool {
    exists|k: int| 0 <= k < names.len() && (#[trigger] names[k])@ == n
}

fn is_named(names: &Vec<String>, n: &str) -> (r: bool)
    ensures
        r == named(names@, n@),
{
    let mut k: usize = 0;
    while k < names.len()
        invariant
            k <= names@.len(),
            forall|j: int| 0 <= j < k ==> (#[trigger] names@[j])@ != n@,
        decreases names@.len() - k,
    {
        if crate::text::same(names[k].as_str(), n) {
            return true;
        }
        k += 1;
    }
    false
}

proof fn lemma_found_without(s: Seq<Loaded>, i: int, n: int, name: Seq<char>)
    requires
        0 <= i < s.len(),
        i < n <= s.len(),
        s[i].name@ != name,
    ensures
        found(s.remove(i), n - 1, name) == found(s, n, name),
    decreases n,
{
    if n == i + 1 {
        lemma_found_below(s, i, i, name);
    } else {
        lemma_found_without(s, i, n - 1, name);
    }
}

proof fn lemma_found_below(s: Seq<Loaded>, i: int, n: int, name: Seq<char>)
    requires
        0 <= i < s.len(),
        n <= i,
    ensures
        found(s.remove(i), n, name) == found(s, n, name),
    decreases n,
{
    if n > 0 {
        lemma_found_below(s, i, n - 1, name);
    }
}

proof fn lemma_not_found(s: Seq<Loaded>, n: int, names: Seq<String>, name: Seq<char>)
    requires
        n <= s.len(),
        named(names, name),
        forall|k: int| 0 <= k < s.len() ==> !named(names, (#[trigger] s[k]).name@),
    ensures
        found(s, n, name) is None,
    decreases n,
{
    if n > 0 {
        assert(!named(names, s[n - 1].name@));
        lemma_not_found(s, n - 1, names, name);
    }
}

proof fn lemma_absent(s: Seq<Loaded>, n: int, name: Seq<char>)
    requires
        n <= s.len(),
        found(s, n, name) is None,
    ensures
        forall|k: int| 0 <= k < n ==> (#[trigger] s[k]).name@ != name,
    decreases n,
{
    if n > 0 {
        lemma_absent(s, n - 1, name);
    }
}

proof fn lemma_found_prefix(s: Seq<Loaded>, e: Loaded, n: int, name: Seq<char>)
    requires
        n <= s.len(),
    ensures
        found(s.push(e), n, name) == found(s, n, name),
    decreases n,
{
    if n > 0 {
        lemma_found_prefix(s, e, n - 1, name);
    }
}

} // verus!
