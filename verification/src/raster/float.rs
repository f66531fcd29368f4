//! Exact rounding and comparison of single precision numbers, on their bits.

use vstd::arithmetic::div_mod::{lemma_div_denominator, lemma_fundamental_div_mod_converse};
use vstd::arithmetic::power2::{
    lemma2_to64, lemma_pow2_adds, lemma_pow2_pos, lemma_pow2_strictly_increases, lemma_pow2_unfold, pow2,
};
use vstd::prelude::*;

verus! {

/// The bits of positive infinity.
pub const INFINITY: u32 = 0x7f80_0000;

/// The bits of negative infinity.
pub const NEG_INFINITY: u32 = 0xff80_0000;

/// The bits without the sign.
pub open spec fn mag(b: u32) -> int {
    (b % 0x8000_0000) as int
}

/// The sign bit.
pub open spec fn negative(b: u32) -> bool {
    b >= 0x8000_0000
}

/// Whether the bits stand for no number.
pub open spec fn is_nan(b: u32) -> bool {
    mag(b) > 0x7f80_0000
}

/// Whether the bits stand for a number that is not infinite.
pub open spec fn is_finite(b: u32) -> bool {
    mag(b) < 0x7f80_0000
}

/// The absolute value in units of 2^-149, the smallest positive number. The formula
/// gives an infinity a value above that of every finite number.
pub open spec fn mag_units(m: int) -> int {
    if m / 0x80_0000 == 0 {
        m % 0x80_0000
    } else {
        (0x80_0000 + m % 0x80_0000) * pow2((m / 0x80_0000 - 1) as nat)
    }
}

/// The value in units of 2^-149.
pub open spec fn units(b: u32) -> int {
    if negative(b) {
        -mag_units(mag(b))
    } else {
        mag_units(mag(b))
    }
}

/// The number one in units of 2^-149.
pub open spec fn one() -> int {
    pow2(149) as int
}

/// The largest integer that is not above the value.
pub open spec fn floor_int(b: u32) -> int {
    units(b) / one()
}

/// The smallest integer that is not below the value.
pub open spec fn ceil_int(b: u32) -> int {
    -((-units(b)) / one())
}

/// The integer nearest to the value; of two equally near ones, that farther from zero.
pub open spec fn round_int(b: u32) -> int {
    let m = mag_units(mag(b));
    let n = if 2 * (m % one()) >= one() {
        m / one() + 1
    } else {
        m / one()
    };
    if negative(b) {
        -n
    } else {
        n
    }
}

/// The integer between zero and the value that is nearest to the value.
pub open spec fn trunc_int(b: u32) -> int {
    if negative(b) {
        -(mag_units(mag(b)) / one())
    } else {
        mag_units(mag(b)) / one()
    }
}

/// `r` is the result of rounding `b` to the integer `n`: a number with the sign of `b`
/// and the value `n`, or `b` itself where `b` is not finite.
pub open spec fn rounds_to(b: u32, n: int, r: u32) -> bool {
    if is_finite(b) {
        is_finite(r) && negative(r) == negative(b) && units(r) == n * one()
    } else {
        r == b
    }
}

/// `n` moved into the range of `i32`.
pub open spec fn saturated(n: int) -> int {
    if n < i32::MIN {
        i32::MIN as int
    } else if n > i32::MAX {
        i32::MAX as int
    } else {
        n
    }
}

/// The value rounded down into the range of `i32`; zero for what is no number.
pub open spec fn floor32(b: u32) -> i32 {
    if is_nan(b) { 0 } else { saturated(floor_int(b)) as i32 }
}

/// The value rounded up into the range of `i32`; zero for what is no number.
pub open spec fn ceil32(b: u32) -> i32 {
    if is_nan(b) { 0 } else { saturated(ceil_int(b)) as i32 }
}

/// The numeric order: false as soon as one side is not a number.
pub open spec fn less(a: u32, b: u32) -> bool {
    !is_nan(a) && !is_nan(b) && units(a) < units(b)
}

/// The numeric equality: false as soon as one side is not a number, and true of the
/// two zeros.
pub open spec fn same(a: u32, b: u32) -> bool {
    !is_nan(a) && !is_nan(b) && units(a) == units(b)
}

/// The smaller of two numbers; the other one where one is not a number.
pub open spec fn fmin(a: u32, b: u32) -> u32 {
    if is_nan(a) || less(b, a) {
        if is_nan(b) { a } else { b }
    } else {
        a
    }
}

/// The larger of two numbers; the other one where one is not a number.
pub open spec fn fmax(a: u32, b: u32) -> u32 {
    if is_nan(a) || less(a, b) {
        if is_nan(b) { a } else { b }
    } else {
        a
    }
}

proof fn lemma_one_pos()
    ensures
        one() > 0,
{
    lemma_pow2_pos(149);
}

/// Magnitudes are ordered as their bits are.
proof fn lemma_mag_units_increases(m1: int, m2: int)
    requires
        0 <= m1 < m2,
    ensures
        0 <= mag_units(m1) < mag_units(m2),
{
    let e1 = m1 / 0x80_0000;
    let e2 = m2 / 0x80_0000;
    let f1 = m1 % 0x80_0000;
    let f2 = m2 % 0x80_0000;
    assert(e1 <= e2);
    if e2 == 0 {
    } else {
        let p2 = pow2((e2 - 1) as nat) as int;
        lemma_pow2_pos((e2 - 1) as nat);
        if e1 == 0 {
            assert((0x80_0000 + f2) * p2 >= 0x80_0000) by (nonlinear_arith)
                requires
                    p2 >= 1,
                    f2 >= 0,
            ;
        } else if e1 == e2 {
            assert(f1 < f2);
            assert(0 <= (0x80_0000 + f1) * p2 < (0x80_0000 + f2) * p2) by (nonlinear_arith)
                requires
                    p2 >= 1,
                    0 <= f1 < f2,
            ;
        } else {
            let p1 = pow2((e1 - 1) as nat) as int;
            lemma_pow2_pos((e1 - 1) as nat);
            lemma_pow2_unfold(e1 as nat);
            if e1 < e2 - 1 {
                lemma_pow2_strictly_increases(e1 as nat, (e2 - 1) as nat);
            }
            assert(2 * p1 <= p2);
            assert(0 <= (0x80_0000 + f1) * p1 < (0x80_0000 + f2) * p2) by (nonlinear_arith)
                requires
                    p1 >= 1,
                    2 * p1 <= p2,
                    0 <= f1 < 0x80_0000,
                    0 <= f2,
            ;
        }
    }
}

/// The signed bits: an integer that orders as the numbers do.
spec fn key(b: u32) -> int {
    if negative(b) {
        -mag(b)
    } else {
        mag(b)
    }
}

proof fn lemma_key_orders(a: u32, b: u32)
    ensures
        key(a) < key(b) <==> units(a) < units(b),
        key(a) == key(b) <==> units(a) == units(b),
{
    let ma = mag(a);
    let mb = mag(b);
    if ma < mb {
        lemma_mag_units_increases(ma, mb);
    }
    if mb < ma {
        lemma_mag_units_increases(mb, ma);
    }
    if 0 < ma {
        lemma_mag_units_increases(0, ma);
    }
    if 0 < mb {
        lemma_mag_units_increases(0, mb);
    }
}

/// How a number of the middle range, with a whole part and maybe a fraction, splits at
/// the point: `d` units of its last place make one.
proof fn lemma_middle(m: int, d: int)
    requires
        127 <= m / 0x80_0000 < 150,
        d == pow2((150 - m / 0x80_0000) as nat),
    ensures
        1 < d <= 0x80_0000,
        mag_units(m) / one() == (0x80_0000 + m % 0x80_0000) / d,
        mag_units(m) % one() == ((m % 0x80_0000) % d) * pow2((m / 0x80_0000 - 1) as nat),
        one() == d * pow2((m / 0x80_0000 - 1) as nat),
        (0x80_0000 + m % 0x80_0000) / d * d == 0x80_0000 + m % 0x80_0000 - (m % 0x80_0000) % d,
        (0x80_0000 + m % 0x80_0000) / d < 0x80_0000,
{
    let e = m / 0x80_0000;
    let f = m % 0x80_0000;
    let s = 0x80_0000 + f;
    let p = pow2((e - 1) as nat) as int;
    let k = pow2((e - 127) as nat) as int;
    lemma2_to64();
    lemma_pow2_pos((e - 1) as nat);
    lemma_pow2_pos((e - 127) as nat);
    lemma_pow2_adds((150 - e) as nat, (e - 1) as nat);
    lemma_pow2_adds((150 - e) as nat, (e - 127) as nat);
    assert(one() == d * p);
    assert(d * k == 0x80_0000);
    lemma_pow2_unfold((150 - e) as nat);
    lemma_pow2_pos((149 - e) as nat);
    if e > 127 {
        lemma_pow2_strictly_increases((150 - e) as nat, 23);
    }
    let fq = f / d;
    let fr = f % d;
    assert(f == fq * d + fr && 0 <= fr < d) by (nonlinear_arith)
        requires
            fq == f / d,
            fr == f % d,
            d > 1,
    ;
    assert(s == (k + fq) * d + fr) by (nonlinear_arith)
        requires
            d * k == 0x80_0000,
            f == fq * d + fr,
            s == 0x80_0000 + f,
    ;
    lemma_fundamental_div_mod_converse(s, d, k + fq, fr);
    assert(s * p == (k + fq) * (d * p) + fr * p) by (nonlinear_arith)
        requires
            s == (k + fq) * d + fr,
    ;
    assert(0 <= fr * p < d * p) by (nonlinear_arith)
        requires
            0 <= fr < d,
            p > 0,
    ;
    lemma_fundamental_div_mod_converse(s * p, d * p, k + fq, fr * p);
    assert((k + fq) < 0x80_0000) by (nonlinear_arith)
        requires
            s == (k + fq) * d + fr,
            s < 0x100_0000,
            d >= 2,
            0 <= fr,
    ;
}

/// A number below one in absolute value has no whole part.
proof fn lemma_small(m: int)
    requires
        0 <= m,
        m / 0x80_0000 < 127,
    ensures
        0 <= mag_units(m) < one(),
        mag_units(m) / one() == 0,
        mag_units(m) % one() == mag_units(m),
        2 * mag_units(m) >= one() <==> m / 0x80_0000 == 126,
{
    lemma_one_pos();
    lemma2_to64();
    let h: int = 0x3f00_0000;
    let w: int = 0x3f80_0000;
    lemma_pow2_adds(23, 126);
    assert(w / 0x80_0000 == 127);
    assert(mag_units(w) == one());
    lemma_mag_units_increases(m, w);
    lemma_pow2_adds(23, 125);
    lemma_pow2_unfold(149);
    assert(mag_units(h) == pow2(148));
    if m > h {
        lemma_mag_units_increases(h, m);
    } else if m < h {
        lemma_mag_units_increases(m, h);
    }
    lemma_fundamental_div_mod_converse(mag_units(m), one(), 0, mag_units(m));
}

/// A number of large absolute value is whole.
proof fn lemma_large(m: int)
    requires
        150 <= m / 0x80_0000,
    ensures
        mag_units(m) == (0x80_0000 + m % 0x80_0000) * pow2((m / 0x80_0000 - 150) as nat) * one(),
        mag_units(m) / one() == (0x80_0000 + m % 0x80_0000) * pow2((m / 0x80_0000 - 150) as nat),
        mag_units(m) % one() == 0,
{
    let e = m / 0x80_0000;
    let s = 0x80_0000 + m % 0x80_0000;
    lemma_one_pos();
    lemma_pow2_adds((e - 150) as nat, 149);
    let q = pow2((e - 150) as nat) as int;
    assert(s * (q * one()) == s * q * one() + 0) by (nonlinear_arith);
    lemma_fundamental_div_mod_converse(mag_units(m), one(), s * q, 0);
}

/// Divisions of a negated number, by the parts of the number.
proof fn lemma_negated(x: int, d: int)
    requires
        d > 0,
    ensures
        x % d == 0 ==> (-x) / d == -(x / d),
        x % d != 0 ==> (-x) / d == -(x / d) - 1,
        x == x / d * d + x % d,
{
    let q = x / d;
    let r = x % d;
    assert(x == q * d + r && 0 <= r < d) by (nonlinear_arith)
        requires
            q == x / d,
            r == x % d,
            d > 0,
    ;
    if r == 0 {
        assert(-x == (-q) * d + 0) by (nonlinear_arith)
            requires
                x == q * d + r,
                r == 0,
        ;
        lemma_fundamental_div_mod_converse(-x, d, -q, 0);
    } else {
        assert(-x == (-q - 1) * d + (d - r)) by (nonlinear_arith)
            requires
                x == q * d + r,
        ;
        lemma_fundamental_div_mod_converse(-x, d, -q - 1, d - r);
    }
}

/// The power of two with exponent `n`.
fn power(n: u32) -> (r: u64)
    requires
        n <= 32,
    ensures
        r == pow2(n as nat),
{
    proof {
        lemma2_to64();
    }
    let mut r: u64 = 1;
    let mut i: u32 = 0;
    while i < n
        invariant
            i <= n <= 32,
            r == pow2(i as nat),
        decreases n - i,
    {
        proof {
            lemma_pow2_unfold((i + 1) as nat);
            lemma2_to64();
            if i + 1 < 32 {
                lemma_pow2_strictly_increases((i + 1) as nat, 32);
            }
        }
        r = 2 * r;
        i += 1;
    }
    r
}

/// The unsigned bits of the whole number `n`.
fn whole(n: u32) -> (r: u32)
    requires
        n <= 0x80_0000,
    ensures
        r < 0x7f80_0000,
        mag_units(r as int) == n * one(),
{
    if n == 0 {
        return 0;
    }
    let mut s: u32 = n;
    let mut e: u32 = 150;
    proof {
        lemma2_to64();
        lemma_pow2_adds(0, 149);
    }
    while s < 0x80_0000
        invariant
            127 <= e <= 150,
            1 <= n <= s < 0x100_0000,
            s * pow2((e - 1) as nat) == n * pow2(149),
            s >= pow2((150 - e) as nat),
        decreases e,
    {
        proof {
            lemma2_to64();
            lemma_pow2_unfold((e - 1) as nat);
            lemma_pow2_unfold((151 - e) as nat);
            let p = pow2((e - 2) as nat) as int;
            assert((2 * s) * p == s * (2 * p)) by (nonlinear_arith);
            if e == 127 {
                assert(pow2(23) == 0x80_0000);
            }
        }
        s = 2 * s;
        e -= 1;
    }
    proof {
        let m: int = e * 0x80_0000 + (s - 0x80_0000);
        assert(m / 0x80_0000 == e);
        assert(m % 0x80_0000 == s - 0x80_0000);
    }
    e * 0x80_0000 + (s - 0x80_0000)
}

/// The numeric order of two numbers.
pub fn lt(a: u32, b: u32) -> (r: bool)
    ensures
        r == less(a, b),
{
    let ma: u32 = a % 0x8000_0000;
    let mb: u32 = b % 0x8000_0000;
    if ma > INFINITY || mb > INFINITY {
        return false;
    }
    let ka: i64 = if a >= 0x8000_0000 { -(ma as i64) } else { ma as i64 };
    let kb: i64 = if b >= 0x8000_0000 { -(mb as i64) } else { mb as i64 };
    proof {
        lemma_key_orders(a, b);
    }
    ka < kb
}

/// The numeric equality of two numbers.
pub fn eq(a: u32, b: u32) -> (r: bool)
    ensures
        r == same(a, b),
{
    let ma: u32 = a % 0x8000_0000;
    let mb: u32 = b % 0x8000_0000;
    if ma > INFINITY || mb > INFINITY {
        return false;
    }
    let ka: i64 = if a >= 0x8000_0000 { -(ma as i64) } else { ma as i64 };
    let kb: i64 = if b >= 0x8000_0000 { -(mb as i64) } else { mb as i64 };
    proof {
        lemma_key_orders(a, b);
    }
    ka == kb
}

/// The smaller of two numbers.
pub fn min(a: u32, b: u32) -> (r: u32)
    ensures
        r == fmin(a, b),
{
    if a % 0x8000_0000 > INFINITY || lt(b, a) {
        if b % 0x8000_0000 > INFINITY { a } else { b }
    } else {
        a
    }
}

/// The larger of two numbers.
pub fn max(a: u32, b: u32) -> (r: u32)
    ensures
        r == fmax(a, b),
{
    if a % 0x8000_0000 > INFINITY || lt(a, b) {
        if b % 0x8000_0000 > INFINITY { a } else { b }
    } else {
        a
    }
}

/// The whole part of the absolute value, and whether there is a fraction and whether
/// it is at least one half. For numbers that can have a fraction.
fn split(b: u32) -> (r: (u32, bool, bool))
    requires
        mag(b) / 0x80_0000 < 150,
    ensures
        r.0 == mag_units(mag(b)) / one(),
        r.0 < 0x80_0000,
        r.1 == (mag_units(mag(b)) % one() != 0),
        r.2 == (2 * (mag_units(mag(b)) % one()) >= one()),
{
    let m: u32 = b % 0x8000_0000;
    let e: u32 = m / 0x80_0000;
    let f: u32 = m % 0x80_0000;
    if e < 127 {
        proof {
            lemma_small(m as int);
            if m > 0 {
                lemma_mag_units_increases(0, m as int);
            }
        }
        (0, m != 0, e == 126)
    } else {
        let wide: u64 = power(150 - e);
        proof {
            lemma_middle(m as int, wide as int);
        }
        let d: u32 = wide as u32;
        proof {
            let p = pow2((e - 1) as nat) as int;
            lemma_pow2_pos((e - 1) as nat);
            let fr = (f % d) as int;
            assert(fr * p == 0 <==> fr == 0) by (nonlinear_arith)
                requires
                    p > 0,
            ;
            assert(2 * (fr * p) >= d * p <==> 2 * fr >= d) by (nonlinear_arith)
                requires
                    p > 0,
            ;
        }
        ((0x80_0000 + f) / d, f % d != 0, 2 * (f % d) >= d)
    }
}

/// Whole numbers and what is no finite number stay what they are.
proof fn lemma_unchanged(b: u32)
    requires
        mag(b) / 0x80_0000 >= 150,
    ensures
        rounds_to(b, trunc_int(b), b),
        rounds_to(b, floor_int(b), b),
        rounds_to(b, ceil_int(b), b),
        rounds_to(b, round_int(b), b),
{
    lemma_large(mag(b));
    lemma_one_pos();
    let m = mag_units(mag(b));
    lemma_negated(m, one());
    assert((-(m / one())) * one() == -(m / one() * one())) by (nonlinear_arith);
}

/// A magnitude from an integer, with the sign of `b`.
proof fn lemma_signed(b: u32, n: int, r: u32)
    requires
        r < 0x7f80_0000,
        mag_units(r as int) == n * one(),
    ensures
        negative(b) ==> units((r + 0x8000_0000) as u32) == (-n) * one(),
        !negative(b) ==> units(r) == n * one(),
{
    assert((-n) * one() == -(n * one())) by (nonlinear_arith);
}

/// Rounds toward zero.
pub fn trunc(b: u32) -> (r: u32)
    ensures
        rounds_to(b, trunc_int(b), r),
{
    if b % 0x8000_0000 / 0x80_0000 >= 150 {
        proof {
            lemma_unchanged(b);
        }
        return b;
    }
    let (n, _, _) = split(b);
    let r: u32 = whole(n);
    proof {
        lemma_signed(b, n as int, r);
    }
    if b >= 0x8000_0000 { r + 0x8000_0000 } else { r }
}

/// Rounds down.
pub fn floor(b: u32) -> (r: u32)
    ensures
        rounds_to(b, floor_int(b), r),
{
    if b % 0x8000_0000 / 0x80_0000 >= 150 {
        proof {
            lemma_unchanged(b);
        }
        return b;
    }
    let (n, fraction, _) = split(b);
    proof {
        lemma_one_pos();
        lemma_negated(mag_units(mag(b)), one());
    }
    let k: u32 = if b >= 0x8000_0000 && fraction { n + 1 } else { n };
    let r: u32 = whole(k);
    proof {
        lemma_signed(b, k as int, r);
    }
    if b >= 0x8000_0000 { r + 0x8000_0000 } else { r }
}

/// Rounds up.
pub fn ceil(b: u32) -> (r: u32)
    ensures
        rounds_to(b, ceil_int(b), r),
{
    if b % 0x8000_0000 / 0x80_0000 >= 150 {
        proof {
            lemma_unchanged(b);
        }
        return b;
    }
    let (n, fraction, _) = split(b);
    proof {
        lemma_one_pos();
        lemma_negated(mag_units(mag(b)), one());
    }
    let k: u32 = if b < 0x8000_0000 && fraction { n + 1 } else { n };
    let r: u32 = whole(k);
    proof {
        lemma_signed(b, k as int, r);
    }
    if b >= 0x8000_0000 { r + 0x8000_0000 } else { r }
}

/// Rounds to the nearest integer, halves away from zero.
pub fn round(b: u32) -> (r: u32)
    ensures
        rounds_to(b, round_int(b), r),
{
    if b % 0x8000_0000 / 0x80_0000 >= 150 {
        proof {
            lemma_unchanged(b);
        }
        return b;
    }
    let (n, _, half) = split(b);
    let k: u32 = if half { n + 1 } else { n };
    let r: u32 = whole(k);
    proof {
        lemma_signed(b, k as int, r);
    }
    if b >= 0x8000_0000 { r + 0x8000_0000 } else { r }
}

/// The whole part of the absolute value, at most 2^31, for every number.
fn whole_part(b: u32) -> (r: (i64, bool))
    requires
        !is_nan(b),
    ensures
        0 <= r.0 <= 0x8000_0000,
        r.0 == 0x8000_0000 ==> mag_units(mag(b)) / one() >= 0x8000_0000,
        r.0 < 0x8000_0000 ==> r.0 == mag_units(mag(b)) / one(),
        r.1 == (mag_units(mag(b)) % one() != 0),
{
    let m: u32 = b % 0x8000_0000;
    let e: u32 = m / 0x80_0000;
    if e < 150 {
        let (n, fraction, _) = split(b);
        return (n as i64, fraction);
    }
    proof {
        lemma_large(m as int);
        lemma2_to64();
    }
    if e >= 158 {
        proof {
            if e > 158 {
                lemma_pow2_strictly_increases(8, (e - 150) as nat);
            }
            let s = (0x80_0000 + m % 0x80_0000) as int;
            let q = pow2((e - 150) as nat) as int;
            assert(s * q >= 0x8000_0000) by (nonlinear_arith)
                requires
                    s >= 0x80_0000,
                    q >= 256,
            ;
        }
        return (0x8000_0000, false);
    }
    let q: i64 = power(e - 150) as i64;
    let s: i64 = (0x80_0000 + m % 0x80_0000) as i64;
    proof {
        if e < 157 {
            lemma_pow2_strictly_increases((e - 150) as nat, 7);
        }
        assert(0 <= s * q < 0x8000_0000) by (nonlinear_arith)
            requires
                0 <= s < 0x100_0000,
                0 <= q <= 128,
        ;
    }
    (s * q, false)
}

/// The value rounded down, as an `i32`: saturated at the ends, zero for what is no
/// number.
pub fn floor_i32(b: u32) -> (r: i32)
    ensures
        r == floor32(b),
{
    if b % 0x8000_0000 > INFINITY {
        return 0;
    }
    let (n, fraction) = whole_part(b);
    proof {
        lemma_one_pos();
        lemma_negated(mag_units(mag(b)), one());
    }
    let v: i64 = if b >= 0x8000_0000 {
        if fraction { -n - 1 } else { -n }
    } else {
        n
    };
    to_i32(v)
}

/// The value rounded up, as an `i32`: saturated at the ends, zero for what is no
/// number.
pub fn ceil_i32(b: u32) -> (r: i32)
    ensures
        r == ceil32(b),
{
    if b % 0x8000_0000 > INFINITY {
        return 0;
    }
    let (n, fraction) = whole_part(b);
    proof {
        lemma_one_pos();
        lemma_negated(mag_units(mag(b)), one());
    }
    let v: i64 = if b >= 0x8000_0000 {
        -n
    } else {
        if fraction { n + 1 } else { n }
    };
    to_i32(v)
}

/// The step between the numbers that can be represented around a whole number `n`.
pub open spec fn step(n: int) -> int
    decreases n,
{
    if n < 0x100_0000 {
        1
    } else {
        2 * step(n / 2)
    }
}

/// The whole number nearest to `n` that can be represented; of two equally near ones, the
/// one that is an even multiple of the step.
pub open spec fn nearest(n: int) -> int {
    let s = step(n);
    let q = n / s;
    let r = n % s;
    if 2 * r > s || 2 * r == s && q % 2 == 1 {
        (q + 1) * s
    } else {
        q * s
    }
}

/// The number nearest to an integer: `r` has its sign and the nearest absolute value.
pub open spec fn is_converted(v: i32, r: u32) -> bool {
    &&& is_finite(r)
    &&& negative(r) == (v < 0)
    &&& units(r) == if v < 0 { -(nearest(-v) * one()) } else { nearest(v as int) * one() }
}

/// Converts an integer to the nearest number.
pub fn from_i32(v: i32) -> (r: u32)
    ensures
        is_converted(v, r),
{
    let n: u32 = if v < 0 { (-(v as i64)) as u32 } else { v as u32 };
    let mut s: u32 = 1;
    let mut e: u32 = 150;
    let mut m: u32 = n;
    proof {
        lemma2_to64();
        assert(n == 1 * n);
    }
    while m >= 0x100_0000
        invariant
            n <= 0x8000_0000,
            150 <= e <= 158,
            s == pow2((e - 150) as nat),
            1 <= s <= 256,
            m == n / s,
            step(n as int) == s * step(m as int),
        decreases m,
    {
        proof {
            lemma_pow2_unfold((e - 149) as nat);
            lemma2_to64();
            lemma_div_denominator(n as int, s as int, 2);
            assert(s * (2 * step((m / 2) as int)) == (2 * s) * step((m / 2) as int)) by (nonlinear_arith);
            if e == 158 {
                assert(s == 256);
                assert(n / 256 < 0x100_0000);
            }
        }
        m = m / 2;
        s = 2 * s;
        e += 1;
    }
    let r: u32 = n % s;
    let up: bool = 2 * r > s || 2 * r == s && m % 2 == 1;
    let k: u32 = if up { m + 1 } else { m };
    proof {
        assert(step(m as int) == 1);
        assert(step(n as int) == s);
        assert(nearest(n as int) == k * s);
        if e > 150 {
            lemma2_to64();
            lemma_pow2_strictly_increases(0, (e - 150) as nat);
            lemma_shifted(n as int, s as int);
        }
    }
    let bits: u32 = if k == 0x100_0000 {
        (e + 1) * 0x80_0000
    } else if e == 150 && k <= 0x80_0000 {
        whole(k)
    } else {
        e * 0x80_0000 + (k - 0x80_0000)
    };
    proof {
        let p = pow2((e - 1) as nat) as int;
        lemma_pow2_adds((e - 150) as nat, 149);
        assert(p == s * one());
        lemma_pow2_unfold(e as nat);
        let exponent = bits as int / 0x80_0000;
        assert((k * s) * one() == k * (s * one())) by (nonlinear_arith);
        assert(nearest(n as int) * one() == k * p);
        if k == 0x100_0000 {
            assert(exponent == e + 1);
            assert(bits as int % 0x80_0000 == 0);
            assert(pow2((exponent - 1) as nat) == 2 * p);
            assert(mag_units(bits as int) == 0x80_0000 * pow2((exponent - 1) as nat));
            assert(0x80_0000 * (2 * p) == 0x100_0000 * p) by (nonlinear_arith);
        } else if e == 150 && k <= 0x80_0000 {
            assert(s == 1);
        } else {
            assert(k >= 0x80_0000);
            assert(exponent == e);
            assert(bits as int % 0x80_0000 == k - 0x80_0000);
            assert(mag_units(bits as int) == k * pow2((exponent - 1) as nat));
        }
        assert(mag_units(bits as int) == nearest(n as int) * one());
    }
    if v < 0 { bits + 0x8000_0000 } else { bits }
}

/// A number that needs a step above one has at least that many steps.
proof fn lemma_shifted(n: int, s: int)
    requires
        0 <= n,
        step(n) == s,
        s > 1,
    ensures
        n / s >= 0x80_0000,
    decreases n,
{
    let h = n / 2;
    if step(h) > 1 {
        lemma_shifted(h, step(h));
        let t = step(h);
        lemma_div_denominator(n, 2, t);
    } else {
        lemma_step_pos(h);
        assert(step(h) == 1);
    }
}

proof fn lemma_step_pos(n: int)
    ensures
        step(n) >= 1,
    decreases n,
{
    if n >= 0x100_0000 {
        lemma_step_pos(n / 2);
    }
}

fn to_i32(v: i64) -> (r: i32)
    ensures
        r == saturated(v as int),
{
    if v < i32::MIN as i64 {
        i32::MIN
    } else if v > i32::MAX as i64 {
        i32::MAX
    } else {
        v as i32
    }
}

} // verus!
