//! How a program gets its arguments and its environment: a table of addresses, and the
//! strings that they point at, each with a zero byte behind it.

use vstd::prelude::*;
use crate::bytes::{contents, le32, le32_decodes, push_all, u32_at};
use crate::wt::mem::{fits, read_gives_back_write, stored, write_u32};
use crate::wt::wasi::{write_result, EINVAL, OK};

verus! {

/// The space that the first `n` strings take, the zero bytes with them.
pub open spec fn space(s: Seq<Seq<u8>>, n: int) -> int
    decreases n,
{
    if n <= 0 {
        0
    } else {
        space(s, n - 1) + s[n - 1].len() + 1
    }
}

/// An address `n` bytes behind another.
pub open spec fn behind(ptr: u32, n: int) -> u32 {
    ((ptr + n) % 0x1_0000_0000) as u32
}

/// A string with a zero byte behind it.
pub open spec fn terminated(s: Seq<u8>) -> Seq<u8> {
    s.push(0)
}

/// The memory after the first `n` strings were handed out, and whether all of them fitted.
/// What does not fit ends it.
#[verifier::opaque]
pub open spec fn handed_out(mem: Seq<u8>, s: Seq<Seq<u8>>, table: u32, buf: u32, n: int) -> (Seq<u8>, bool)
    decreases n,
{
    if n <= 0 {
        (mem, true)
    } else {
        let (m, ok) = handed_out(mem, s, table, buf, n - 1);
        let slot = behind(table, 4 * (n - 1));
        let at = behind(buf, space(s, n - 1));
        let m2 = stored(m, slot, le32(at));
        if !ok {
            (m, false)
        } else if !fits(slot, 4, m.len() as int) {
            (m, false)
        } else if !fits(at, s[n - 1].len() as int + 1, m.len() as int) {
            (m2, false)
        } else {
            (stored(m2, at, terminated(s[n - 1])), true)
        }
    }
}

pub(crate) proof fn lemma_behind(p: u32, a: int, b: int)
    requires
        0 <= a,
        0 <= b,
    ensures
        behind(behind(p, a), b) == behind(p, a + b),
{
    vstd::arithmetic::div_mod::lemma_add_mod_noop(p + a, b, 0x1_0000_0000);
    vstd::arithmetic::div_mod::lemma_add_mod_noop((p + a) % 0x1_0000_0000, b, 0x1_0000_0000);
}

pub(crate) fn advance(p: u32, n: usize) -> (r: u32)
    ensures
        r == behind(p, n as int),
{
    let low: u64 = n as u64 % 0x1_0000_0000;
    proof {
        vstd::arithmetic::div_mod::lemma_add_mod_noop(p as int, n as int, 0x1_0000_0000);
        vstd::arithmetic::div_mod::lemma_add_mod_noop(p as int, low as int, 0x1_0000_0000);
    }
    ((p as u64 + low) % 0x1_0000_0000) as u32
}

/// How many strings there are, and the space that they take.
pub(crate) fn sizes(s: &Vec<Vec<u8>>) -> (r: (u32, u32))
    ensures
        r.0 == (s@.len() % 0x1_0000_0000) as u32,
        r.1 == (space(contents(s@), s@.len() as int) % 0x1_0000_0000) as u32,
{
    let ghost c = contents(s@);
    let mut sz: u32 = 0;
    let mut n: u32 = 0;
    let mut i: usize = 0;
    while i < s.len()
        invariant
            i <= s@.len(),
            c == contents(s@),
            n == behind(0, i as int),
            sz == behind(0, space(c, i as int)),
            0 <= space(c, i as int),
        decreases s@.len() - i,
    {
        assert(c[i as int] == s@[i as int]@);
        assert(space(c, i + 1) == space(c, i as int) + s@[i as int]@.len() + 1);
        proof {
            lemma_behind(0, space(c, i as int), s@[i as int]@.len() as int);
            lemma_behind(0, space(c, i as int) + s@[i as int]@.len(), 1);
            lemma_behind(0, i as int, 1);
        }
        sz = advance(advance(sz, s[i].len()), 1);
        n = advance(n, 1);
        i += 1;
    }
    (n, sz)
}

/// `args_sizes_get` and `environ_sizes_get`: how many strings there are, and the space that
/// they take.
pub fn sizes_get(s: &Vec<Vec<u8>>, mem: &mut [u8], count_ptr: u32, space_ptr: u32) -> (r: i32)
    ensures
        ({
            let m = old(mem)@;
            let m1 = stored(m, count_ptr, le32((s@.len() % 0x1_0000_0000) as u32));
            let sz = (space(contents(s@), s@.len() as int) % 0x1_0000_0000) as u32;
            if !fits(count_ptr, 4, m.len() as int) {
                r == EINVAL && final(mem)@ == m
            } else {
                &&& r == write_result(fits(space_ptr, 4, m.len() as int))
                &&& final(mem)@ == stored(m1, space_ptr, le32(sz))
            }
        }),
{
    let (n, sz): (u32, u32) = sizes(s);
    if !write_u32(mem, count_ptr, n) {
        return EINVAL;
    }
    if !write_u32(mem, space_ptr, sz) {
        return EINVAL;
    }
    OK
}

/// `args_get` and `environ_get`: hands the strings out.
pub fn strings_get(s: &Vec<Vec<u8>>, mem: &mut [u8], table: u32, buf: u32) -> (r: i32)
    ensures
        r == write_result(handed_out(old(mem)@, contents(s@), table, buf, s@.len() as int).1),
        final(mem)@ == handed_out(old(mem)@, contents(s@), table, buf, s@.len() as int).0,
{
    reveal(handed_out);
    let ghost c = contents(s@);
    let ghost m = mem@;
    let mut slot: u32 = table;
    let mut at: u32 = buf;
    let mut i: usize = 0;
    while i < s.len()
        invariant
            i <= s@.len(),
            c == contents(s@),
            m == old(mem)@,
            handed_out(m, c, table, buf, i as int) == (mem@, true),
            slot == behind(table, 4 * i),
            at == behind(buf, space(c, i as int)),
            0 <= space(c, i as int),
        decreases s@.len() - i,
    {
        reveal(handed_out);
        assert(c[i as int] == s@[i as int]@);
        let ghost m0 = mem@;
        let ghost n = s@.len() as int;
        if !write_u32(mem, slot, at) {
            proof {
                assert(handed_out(m, c, table, buf, i + 1) == (m0, false));
                lemma_over(m, c, table, buf, i + 1, n);
            }
            return EINVAL;
        }
        let mut owned: Vec<u8> = Vec::new();
        push_all(&mut owned, s[i].as_slice());
        owned.push(0);
        assert(owned@ =~= terminated(c[i as int]));
        if !crate::wt::mem::write(mem, at, owned.as_slice()) {
            proof {
                assert(handed_out(m, c, table, buf, i + 1) == (mem@, false));
                lemma_over(m, c, table, buf, i + 1, n);
            }
            return EINVAL;
        }
        assert(space(c, i + 1) == space(c, i as int) + owned@.len());
        proof {
            lemma_behind(table, 4 * i, 4);
            lemma_behind(buf, space(c, i as int), owned@.len() as int);
        }
        slot = advance(slot, 4);
        at = advance(at, owned.len());
        i += 1;
    }
    OK
}

/// Once a string did not fit, nothing more is handed out.
proof fn lemma_over(mem: Seq<u8>, s: Seq<Seq<u8>>, table: u32, buf: u32, k: int, n: int)
    requires
        0 <= k <= n,
        !handed_out(mem, s, table, buf, k).1,
    ensures
        handed_out(mem, s, table, buf, n) == handed_out(mem, s, table, buf, k),
    decreases n - k,
{
    reveal(handed_out);
    if k < n {
        lemma_over(mem, s, table, buf, k, n - 1);
    }
}

proof fn lemma_space_grows(s: Seq<Seq<u8>>, k: int, n: int)
    requires
        0 <= k <= n,
    ensures
        0 <= space(s, k) <= space(s, n),
        k < n ==> space(s, k) + s[k].len() + 1 <= space(s, n),
    decreases n,
{
    if n > 0 {
        if k < n {
            lemma_space_grows(s, k, n - 1);
        } else {
            lemma_space_grows(s, k - 1, n - 1);
        }
    }
}

proof fn lemma_two_writes(m0: Seq<u8>, slot: u32, at: u32, w: Seq<u8>)
    requires
        fits(slot, 4, m0.len() as int),
        fits(at, w.len() as int, m0.len() as int),
        slot + 4 <= at || at + w.len() <= slot,
    ensures
        ({
            let m = stored(stored(m0, slot, le32(at)), at, w);
            &&& m.len() == m0.len()
            &&& u32_at(m, slot as int) == at
            &&& m.subrange(at as int, at + w.len()) == w
            &&& forall|i: int|
                0 <= i < m0.len() && !(slot <= i < slot + 4) && !(at <= i < at + w.len()) ==> #[trigger] m[i] == m0[i]
        }),
{
    let m1 = stored(m0, slot, le32(at));
    let m = stored(m1, at, w);
    read_gives_back_write(m0, slot, le32(at));
    read_gives_back_write(m1, at, w);
    assert(m.subrange(slot as int, slot + 4) =~= m1.subrange(slot as int, slot + 4));
    le32_decodes(m, slot as int, at);
}

proof fn lemma_no_wrap(p: u32, n: int)
    requires
        0 <= n,
        p + n < 0x1_0000_0000,
    ensures
        behind(p, n) == p + n,
{
}

proof fn lemma_all_fit(mem: Seq<u8>, s: Seq<Seq<u8>>, table: u32, buf: u32, n: int)
    requires
        0 <= n <= s.len(),
        mem.len() <= 0x1_0000_0000,
        table + 4 * n <= mem.len(),
        buf + space(s, n) <= mem.len(),
    ensures
        handed_out(mem, s, table, buf, n).1,
        handed_out(mem, s, table, buf, n).0.len() == mem.len(),
    decreases n,
{
    reveal(handed_out);
    if n > 0 {
        lemma_space_grows(s, n - 1, n);
        lemma_all_fit(mem, s, table, buf, n - 1);
        lemma_no_wrap(table, 4 * (n - 1));
        lemma_no_wrap(buf, space(s, n - 1));
    }
}

/// What handing out the last of `n` strings changes.
proof fn lemma_last_string(mem: Seq<u8>, s: Seq<Seq<u8>>, table: u32, buf: u32, n: int)
    requires
        0 < n <= s.len(),
        mem.len() <= 0x1_0000_0000,
        table + 4 * n <= mem.len(),
        buf + space(s, n) <= mem.len(),
        table + 4 * n <= buf || buf + space(s, n) <= table,
    ensures
        ({
            let (m, ok) = handed_out(mem, s, table, buf, n);
            let (m0, ok0) = handed_out(mem, s, table, buf, n - 1);
            let slot = table + 4 * (n - 1);
            let at = buf + space(s, n - 1);
            let w = terminated(s[n - 1]);
            &&& ok
            &&& m.len() == mem.len()
            &&& m0.len() == mem.len()
            &&& u32_at(m, slot) == at
            &&& m.subrange(at, at + w.len()) == w
            &&& forall|i: int|
                0 <= i < m0.len() && !(slot <= i < slot + 4) && !(at <= i < at + w.len()) ==> #[trigger] m[i] == m0[i]
        }),
{
    reveal(handed_out);
    lemma_space_grows(s, n - 1, n);
    lemma_all_fit(mem, s, table, buf, n - 1);
    let m0 = handed_out(mem, s, table, buf, n - 1).0;
    let slot = behind(table, 4 * (n - 1));
    let at = behind(buf, space(s, n - 1));
    lemma_no_wrap(table, 4 * (n - 1));
    lemma_no_wrap(buf, space(s, n - 1));
    lemma_two_writes(m0, slot, at, terminated(s[n - 1]));
}

/// Whether the program finds string `k` through the table.
pub open spec fn finds(m: Seq<u8>, s: Seq<Seq<u8>>, table: u32, buf: u32, k: int) -> bool {
    let at = buf + space(s, k);
    &&& u32_at(m, table + 4 * k) == at
    &&& m.subrange(at, at + s[k].len() + 1) == terminated(s[k])
}

/// Bytes that are set outside do not hide a string.
proof fn lemma_still_found(m0: Seq<u8>, m: Seq<u8>, s: Seq<Seq<u8>>, table: u32, buf: u32, k: int)
    requires
        finds(m0, s, table, buf, k),
        m.len() == m0.len(),
        0 <= k < s.len(),
        table + 4 * k + 4 <= m.len(),
        0 <= space(s, k),
        buf + space(s, k) + s[k].len() + 1 <= m.len(),
        forall|i: int|
            table + 4 * k <= i < table + 4 * k + 4 || buf + space(s, k) <= i < buf + space(s, k) + s[k].len() + 1
                ==> #[trigger] m[i] == m0[i],
    ensures
        finds(m, s, table, buf, k),
{
    let at = buf + space(s, k);
    assert(m.subrange(at, at + s[k].len() + 1) =~= m0.subrange(at, at + s[k].len() + 1));
}

/// Where the table and the strings lie in the memory and apart from each other, the program
/// finds every string through the table, with its zero byte.
pub proof fn program_finds_its_strings(mem: Seq<u8>, s: Seq<Seq<u8>>, table: u32, buf: u32, n: int, k: int)
    requires
        0 <= k < n <= s.len(),
        mem.len() <= 0x1_0000_0000,
        table + 4 * n <= mem.len(),
        buf + space(s, n) <= mem.len(),
        table + 4 * n <= buf || buf + space(s, n) <= table,
    ensures
        handed_out(mem, s, table, buf, n).1,
        finds(handed_out(mem, s, table, buf, n).0, s, table, buf, k),
    decreases n,
{
    lemma_last_string(mem, s, table, buf, n);
    lemma_space_grows(s, n - 1, n);
    lemma_space_grows(s, k, n - 1);
    let m0 = handed_out(mem, s, table, buf, n - 1).0;
    let m = handed_out(mem, s, table, buf, n).0;
    if k < n - 1 {
        program_finds_its_strings(mem, s, table, buf, n - 1, k);
        lemma_still_found(m0, m, s, table, buf, k);
    }
}

/// The strings stand one behind the other, each with one zero byte behind it: the table tells
/// where each begins, and the next one begins right behind that byte.
pub proof fn strings_stand_in_a_row(mem: Seq<u8>, s: Seq<Seq<u8>>, table: u32, buf: u32, n: int, k: int)
    requires
        0 <= k < n <= s.len(),
        mem.len() <= 0x1_0000_0000,
        table + 4 * n <= mem.len(),
        buf + space(s, n) <= mem.len(),
        table + 4 * n <= buf || buf + space(s, n) <= table,
    ensures
        ({
            let (m, ok) = handed_out(mem, s, table, buf, n);
            let at = u32_at(m, table + 4 * k);
            &&& ok
            &&& m.subrange(at, at + s[k].len()) == s[k]
            &&& m[at + s[k].len()] == 0
            &&& u32_at(m, table as int) == buf
            &&& k + 1 < n ==> u32_at(m, table + 4 * (k + 1)) == at + s[k].len() + 1
            &&& k + 1 == n ==> space(s, n) == at + s[k].len() + 1 - buf
        }),
{
    let m = handed_out(mem, s, table, buf, n).0;
    program_finds_its_strings(mem, s, table, buf, n, k);
    program_finds_its_strings(mem, s, table, buf, n, 0);
    lemma_all_fit(mem, s, table, buf, n);
    lemma_space_grows(s, k, n);
    let at = buf + space(s, k);
    let w = m.subrange(at, at + s[k].len() + 1);
    assert(w == s[k].push(0));
    assert(m.subrange(at, at + s[k].len()) =~= s[k]) by {
        assert forall|i: int| 0 <= i < s[k].len() implies m[at + i] == s[k][i] by {
            assert(w[i] == m[at + i]);
        }
    }
    assert(w[s[k].len() as int] == m[at + s[k].len()]);
    if k + 1 < n {
        program_finds_its_strings(mem, s, table, buf, n, k + 1);
    }
}

} // verus!
