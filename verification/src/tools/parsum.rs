//! A sum, computed by one thread and by many.

use rayon::iter::{IntoParallelIterator, ParallelIterator};
use vstd::prelude::*;
use vstd::utf8::encode_utf8;
use crate::bytes::push_all;
use crate::text::{decimal, push_decimal};

verus! {

/// How many numbers are summed up.
pub const NUMBERS: u64 = 50_000_000;

/// The most numbers whose sum fits for certain.
pub const MAX_NUMBERS: u64 = 0x8000_0000;

/// A number of the sum.
pub open spec fn mixed(x: u64) -> u64 {
    x ^ (x >> 3)
}

/// The sum of the first `n` numbers.
pub open spec fn sum_to(n: int) -> int
    decreases n,
{
    if n <= 0 {
        0
    } else {
        sum_to(n - 1) + mixed((n - 1) as u64)
    }
}

/// A number of the sum.
pub fn mix(x: u64) -> (r: u64)
    ensures
        r == mixed(x),
{
    x ^ (x >> 3)
}

proof fn lemma_mixed_small(x: u64)
    requires
        x < MAX_NUMBERS,
    ensures
        mixed(x) < MAX_NUMBERS,
{
    assert(x < 0x8000_0000u64 ==> (x ^ (x >> 3)) < 0x8000_0000u64) by (bit_vector);
}

proof fn lemma_sum_fits(n: int)
    requires
        0 <= n <= MAX_NUMBERS,
    ensures
        0 <= sum_to(n) <= n * MAX_NUMBERS,
        sum_to(n) <= u64::MAX,
    decreases n,
{
    if n > 0 {
        lemma_sum_fits(n - 1);
        lemma_mixed_small((n - 1) as u64);
    }
    assert(n * 0x8000_0000 <= u64::MAX) by (nonlinear_arith)
        requires
            0 <= n <= 0x8000_0000,
    ;
}

/// The sum, computed by one thread.
pub fn serial_sum(n: u64) -> (r: u64)
    requires
        n <= MAX_NUMBERS,
    ensures
        r == sum_to(n as int),
{
    let mut s: u64 = 0;
    let mut i: u64 = 0;
    while i < n
        invariant
            i <= n <= MAX_NUMBERS,
            s == sum_to(i as int),
        decreases n - i,
    {
        proof {
            lemma_sum_fits(i + 1);
        }
        s = s + mix(i);
        i += 1;
    }
    s
}

/// `rayon`'s parallel iterator over `0..n`: `map` with [`mix`], then `sum`. The sum has every
/// number exactly once, so it is the sum of the mapped numbers in any order. The sum of so
/// few numbers fits.
#[verifier::external_body]
fn rayon_sum(n: u64) -> (r: u64)
    requires
        n <= MAX_NUMBERS,
    ensures
        r == sum_to(n as int),
{
    (0..n).into_par_iter().map(mix).sum()
}

/// The sum, computed by many threads: the same as by one.
pub fn parallel_sum(n: u64) -> (r: u64)
    requires
        n <= MAX_NUMBERS,
    ensures
        r == sum_to(n as int),
{
    rayon_sum(n)
}

/// How many hundredths the speedup is, given the two times in microseconds.
pub fn speedup_x100(serial_us: u64, parallel_us: u64) -> (r: u64)
    requires
        serial_us * 100 <= u64::MAX,
    ensures
        r == serial_us * 100 / (if parallel_us == 0 { 1int } else { parallel_us as int }),
{
    let d: u64 = if parallel_us == 0 { 1 } else { parallel_us };
    serial_us * 100 / d
}

/// The line that tells the outcome.
pub open spec fn report(threads: nat, sum: nat, speedup: nat) -> Seq<u8> {
    encode_utf8("PARSUM_OK threads="@) + decimal(threads) + encode_utf8(" sum="@) + decimal(sum) + encode_utf8(
        " speedup_x100="@,
    ) + decimal(speedup)
}

/// Writes the line that tells the outcome.
pub fn parsum_report(threads: u64, sum: u64, speedup: u64) -> (r: Vec<u8>)
    ensures
        r@ == report(threads as nat, sum as nat, speedup as nat),
{
    let mut out: Vec<u8> = Vec::new();
    push_all(&mut out, "PARSUM_OK threads=".as_bytes());
    push_decimal(&mut out, threads);
    push_all(&mut out, " sum=".as_bytes());
    push_decimal(&mut out, sum);
    push_all(&mut out, " speedup_x100=".as_bytes());
    push_decimal(&mut out, speedup);
    out
}

} // verus!
