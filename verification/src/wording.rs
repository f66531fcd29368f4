//! Laws of text: what the digits of a number stand for, what trimming leaves, where a character
//! is found, and in which order texts stand.

use vstd::prelude::*;
use crate::text::{before, decimal, find_from, hex, hex_digit, trimmed, white};

verus! {

/// The number that decimal digits in ASCII stand for.
pub open spec fn number_of(s: Seq<u8>) -> int
    decreases s.len(),
{
    if s.len() == 0 {
        0
    } else {
        10 * number_of(s.drop_last()) + (s.last() - 48)
    }
}

/// The digit that a hexadecimal character stands for.
pub open spec fn digit_of(c: u8) -> int {
    if 48 <= c <= 57 {
        c - 48
    } else {
        c - 97 + 10
    }
}

/// The number that hexadecimal digits in ASCII stand for.
pub open spec fn hex_number_of(s: Seq<u8>) -> int
    decreases s.len(),
{
    if s.len() == 0 {
        0
    } else {
        16 * hex_number_of(s.drop_last()) + digit_of(s.last())
    }
}

/// The largest number of so many hexadecimal digits, and one more.
pub open spec fn hex_limit(n: nat) -> int
    decreases n,
{
    if n == 0 {
        1
    } else {
        16 * hex_limit((n - 1) as nat)
    }
}

/// A number in decimal is written in digits that stand for it, without a zero in front unless it
/// is zero.
pub proof fn decimal_digits_stand_for_the_number(v: nat)
    ensures
        number_of(decimal(v)) == v,
        decimal(v).len() >= 1,
        forall|i: int| 0 <= i < decimal(v).len() ==> 48 <= #[trigger] decimal(v)[i] <= 57,
        v > 0 ==> decimal(v)[0] != 48,
        decimal(v).len() == 1 <==> v < 10,
    decreases v,
{
    if v >= 10 {
        decimal_digits_stand_for_the_number(v / 10);
        assert(decimal(v).drop_last() =~= decimal(v / 10));
    } else {
        assert(decimal(v).drop_last() =~= Seq::<u8>::empty());
        reveal_with_fuel(number_of, 2);
    }
}

/// A number in hexadecimal has as many digits as were asked for, in lower case, and they stand for
/// it where it fits into so many.
pub proof fn hex_digits_stand_for_the_number(v: nat, n: nat)
    ensures
        hex(v, n).len() == n,
        v < hex_limit(n) ==> hex_number_of(hex(v, n)) == v,
        forall|i: int|
            0 <= i < n ==> 48 <= #[trigger] hex(v, n)[i] <= 57 || 97 <= hex(v, n)[i] <= 102,
    decreases n,
{
    if n > 0 {
        let m = (n - 1) as nat;
        hex_digits_stand_for_the_number(v / 16, m);
        assert(hex(v, n).drop_last() =~= hex(v / 16, m));
        let d = (v % 16) as int;
        assert(digit_of(hex_digit(d)) == d);
        if v < hex_limit(n) {
            assert(v / 16 < hex_limit(m));
        }
    }
}

/// A character is found at the first place from where it is looked for; where it stands nowhere
/// from there on the end is told.
pub proof fn characters_are_found_first(s: Seq<char>, c: char, from: int)
    requires
        0 <= from <= s.len(),
    ensures
        from <= find_from(s, c, from) <= s.len(),
        find_from(s, c, from) < s.len() ==> s[find_from(s, c, from)] == c,
        forall|i: int| from <= i < find_from(s, c, from) ==> s[i] != c,
    decreases s.len() - from,
{
    if from < s.len() && s[from] != c {
        characters_are_found_first(s, c, from + 1);
    }
}

/// What trimming leaves is a part of the text that begins and ends with no white space, and only
/// white space stood before and behind it.
pub proof fn trimming_takes_white_space_off(s: Seq<char>) -> (r: (int, int))
    ensures
        0 <= r.0 <= r.1 <= s.len(),
        trimmed(s) == s.subrange(r.0, r.1),
        forall|i: int| 0 <= i < r.0 ==> white(#[trigger] s[i]),
        forall|i: int| r.1 <= i < s.len() ==> white(#[trigger] s[i]),
        trimmed(s).len() > 0 ==> !white(trimmed(s)[0]) && !white(trimmed(s).last()),
    decreases s.len(),
{
    if s.len() > 0 && white(s[0]) {
        let d = s.drop_first();
        let (a, b) = trimming_takes_white_space_off(d);
        assert(trimmed(s) =~= s.subrange(a + 1, b + 1));
        assert forall|i: int| 0 <= i < a + 1 implies white(#[trigger] s[i]) by {
            if i > 0 {
                assert(s[i] == d[i - 1]);
            }
        }
        assert forall|i: int| b + 1 <= i < s.len() implies white(#[trigger] s[i]) by {
            assert(s[i] == d[i - 1]);
        }
        (a + 1, b + 1)
    } else if s.len() > 0 && white(s.last()) {
        let d = s.drop_last();
        let (a, b) = trimming_takes_white_space_off(d);
        assert(trimmed(s) =~= s.subrange(a, b));
        assert forall|i: int| 0 <= i < a implies white(#[trigger] s[i]) by {
            assert(s[i] == d[i]);
        }
        assert forall|i: int| b <= i < s.len() implies white(#[trigger] s[i]) by {
            if i < d.len() {
                assert(s[i] == d[i]);
            }
        }
        (a, b)
    } else {
        assert(s =~= s.subrange(0, s.len() as int));
        (0, s.len() as int)
    }
}

/// Spaces, tabs and line ends are white; letters, digits and signs are not.
pub proof fn white_is_white(c: char)
    ensures
        white(' ') && white('\t') && white('\n') && white('\r'),
        '!' <= c <= '~' ==> !white(c),
{
}

/// Of two texts with the same start, the one stands before the other that has the smaller
/// character behind it, or that ends there.
pub proof fn texts_stand_in_order(a: Seq<char>, b: Seq<char>, k: int)
    requires
        0 <= k <= a.len(),
        k <= b.len(),
        forall|i: int| 0 <= i < k ==> a[i] == b[i],
        k < a.len() && k < b.len() ==> a[k] != b[k],
    ensures
        k == a.len() && k < b.len() ==> before(a, b),
        k == b.len() ==> !before(a, b),
        k < a.len() && k < b.len() ==> (before(a, b) <==> (a[k] as int) < (b[k] as int)),
    decreases a.len(),
{
    if k > 0 {
        let (p, q) = (a.drop_first(), b.drop_first());
        assert forall|i: int| 0 <= i < k - 1 implies p[i] == q[i] by {
            assert(a[i + 1] == b[i + 1]);
        }
        assert(a[0] == b[0]);
        texts_stand_in_order(p, q, k - 1);
    }
}

} // verus!
