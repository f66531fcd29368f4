//! The byte layouts of WASI Preview 1, and the rules of its clocks.

use vstd::prelude::*;
use crate::bytes::{get_u16, get_u64, le32, le64, push_u32, push_u64, u16_at, u64_at};

verus! {

/// Nanoseconds of a tick of the kernel's timer.
pub const TICK_NS: u64 = 10_000_000;

/// What a file of the kernel's file system is.
#[derive(Clone, Copy, PartialEq, Eq, Structural, Debug)]
pub enum VfsKind {
    Reg,
    Dir,
    Device,
}

/// What the file system tells of a file.
#[derive(Clone, Copy, PartialEq, Eq, Structural, Debug)]
pub struct Stat {
    pub kind: VfsKind,
    pub size: u64,
}

/// From where a position in a file is counted.
#[derive(Clone, Copy, PartialEq, Eq, Structural, Debug)]
pub enum Whence {
    Start,
    Cur,
    End,
}

/// How a file is opened.
#[derive(Clone, Copy, PartialEq, Eq, Structural, Debug)]
pub struct OpenFlags {
    pub read: bool,
    pub write: bool,
    pub create: bool,
    pub truncate: bool,
}

/// The number of a kind of file.
pub open spec fn filetype(k: VfsKind) -> u8 {
    match k {
        VfsKind::Reg => 4,
        VfsKind::Dir => 3,
        VfsKind::Device => 2,
    }
}

/// The number of a kind of file.
pub fn kind_to_filetype(k: VfsKind) -> (r: u8)
    ensures
        r == filetype(k),
{
    match k {
        VfsKind::Reg => 4,
        VfsKind::Dir => 3,
        VfsKind::Device => 2,
    }
}

/// From where a position is counted, by its number.
pub open spec fn whence_of(n: i32) -> Option<Whence> {
    if n == 0 {
        Some(Whence::Start)
    } else if n == 1 {
        Some(Whence::Cur)
    } else if n == 2 {
        Some(Whence::End)
    } else {
        None
    }
}

/// From where a position is counted, by its number.
pub fn whence(n: i32) -> (r: Option<Whence>)
    ensures
        r == whence_of(n),
{
    match n {
        0 => Some(Whence::Start),
        1 => Some(Whence::Cur),
        2 => Some(Whence::End),
        _ => None,
    }
}

/// Whether bit `b` of a number is set.
pub open spec fn has_bit(v: int, b: int) -> bool {
    (v / b) % 2 == 1
}

/// Whether bit 0, 1, 2, .. of a number is set, for `b` the power of two of the bit.
pub fn bit(v: i64, b: i64) -> (r: bool)
    requires
        b > 0,
    ensures
        r == has_bit(v as int, b as int),
{
    if v >= 0 {
        (v / b) % 2 == 1
    } else {
        let below: i64 = -(v + 1);
        let q: i64 = below / b;
        proof {
            assert(v as int / b as int == -(q as int) - 1) by (nonlinear_arith)
                requires
                    b > 0,
                    v < 0,
                    q as int == (-(v as int) - 1) / b as int,
            ;
        }
        q % 2 == 0
    }
}

/// A bit counts as set exactly where the number and the bit have it in common: for the bits that
/// stand in the flags and rights of a call.
pub proof fn bits_are_those_of_the_word(v: i64)
    ensures
        has_bit(v as int, 1) <==> v & 1 != 0,
        has_bit(v as int, 2) <==> v & 2 != 0,
        has_bit(v as int, 8) <==> v & 8 != 0,
        has_bit(v as int, 64) <==> v & 64 != 0,
{
    let u = v as u64;
    assert((v >= 0 ==> u == v) && (v < 0 ==> u == v + 0x1_0000_0000_0000_0000)) by (bit_vector)
        requires
            u == v as u64,
    ;
    assert(v & 1 != 0 <==> u % 2 == 1) by (bit_vector)
        requires
            u == v as u64,
    ;
    assert(v & 2 != 0 <==> (u / 2) % 2 == 1) by (bit_vector)
        requires
            u == v as u64,
    ;
    assert(v & 8 != 0 <==> (u / 8) % 2 == 1) by (bit_vector)
        requires
            u == v as u64,
    ;
    assert(v & 64 != 0 <==> (u / 64) % 2 == 1) by (bit_vector)
        requires
            u == v as u64,
    ;
    if v < 0 {
        lemma_turned(v as int, u as int, 1, 0x8000_0000_0000_0000);
        lemma_turned(v as int, u as int, 2, 0x4000_0000_0000_0000);
        lemma_turned(v as int, u as int, 8, 0x1000_0000_0000_0000);
        lemma_turned(v as int, u as int, 64, 0x200_0000_0000_0000);
    }
}

proof fn lemma_turned(v: int, u: int, b: int, k: int)
    requires
        b > 0,
        u == v + b * (2 * k),
    ensures
        has_bit(v, b) == has_bit(u, b),
{
    vstd::arithmetic::div_mod::lemma_hoist_over_denominator(v, 2 * k, b as nat);
    assert(b * (2 * k) == (2 * k) * b) by (nonlinear_arith);
    assert((v / b + 2 * k) % 2 == (v / b) % 2);
}

/// A run of zero bytes.
pub open spec fn zeros(n: nat) -> Seq<u8> {
    Seq::new(n, |i: int| 0u8)
}

/// The 24 bytes of a descriptor's state, every right granted.
pub open spec fn fdstat(ft: u8) -> Seq<u8> {
    seq![ft] + zeros(7) + le64(u64::MAX) + le64(u64::MAX)
}

/// The 64 bytes of a file's state: its kind at 16, its size at 32.
pub open spec fn filestat(ft: u8, size: u64) -> Seq<u8> {
    zeros(16) + seq![ft] + zeros(15) + le64(size) + zeros(24)
}

/// The 8 bytes that announce the one directory that every program finds open, whose name
/// is one byte long.
pub open spec fn prestat() -> Seq<u8> {
    le32(0) + le32(1)
}

/// The 32 bytes of the event that ends a wait for a clock.
pub open spec fn clock_event(userdata: Seq<u8>) -> Seq<u8> {
    userdata + zeros(24)
}

fn push_zeros(out: &mut Vec<u8>, n: usize)
    ensures
        final(out)@ == old(out)@ + zeros(n as nat),
{
    let mut i: usize = 0;
    assert(out@ =~= old(out)@ + zeros(0));
    while i < n
        invariant
            i <= n,
            out@ == old(out)@ + zeros(i as nat),
        decreases n - i,
    {
        out.push(0);
        i += 1;
        assert(out@ =~= old(out)@ + zeros(i as nat));
    }
}

/// Encodes a descriptor's state.
pub fn encode_fdstat(ft: u8) -> (r: Vec<u8>)
    ensures
        r@ == fdstat(ft),
{
    let mut out: Vec<u8> = Vec::new();
    out.push(ft);
    push_zeros(&mut out, 7);
    push_u64(&mut out, u64::MAX);
    push_u64(&mut out, u64::MAX);
    assert(out@ =~= fdstat(ft));
    out
}

/// Encodes a file's state.
pub fn encode_filestat(ft: u8, size: u64) -> (r: Vec<u8>)
    ensures
        r@ == filestat(ft, size),
{
    let mut out: Vec<u8> = Vec::new();
    push_zeros(&mut out, 16);
    out.push(ft);
    push_zeros(&mut out, 15);
    push_u64(&mut out, size);
    push_zeros(&mut out, 24);
    assert(out@ =~= filestat(ft, size));
    out
}

/// Encodes the announcement of the open directory.
pub fn encode_prestat() -> (r: Vec<u8>)
    ensures
        r@ == prestat(),
{
    let mut out: Vec<u8> = Vec::new();
    push_u32(&mut out, 0);
    push_u32(&mut out, 1);
    assert(out@ =~= prestat());
    out
}

/// Encodes the event that ends a wait for a clock.
pub fn encode_clock_event(userdata: &[u8]) -> (r: Vec<u8>)
    ensures
        r@ == clock_event(userdata@),
{
    let mut out: Vec<u8> = Vec::new();
    crate::bytes::push_all(&mut out, userdata);
    push_zeros(&mut out, 24);
    assert(out@ =~= clock_event(userdata@));
    out
}

/// The kind and the size of a file stand where its state is read.
pub proof fn filestat_places(ft: u8, size: u64)
    ensures
        filestat(ft, size).len() == 64,
        filestat(ft, size)[16] == ft,
        u64_at(filestat(ft, size), 32) == size,
{
    let s = filestat(ft, size);
    assert(s.subrange(32, 40) =~= le64(size));
    crate::bytes::le64_decodes(s, 32, size);
}

/// The subscription to a clock in the 48 bytes of a subscription: its tag, how long to wait
/// in nanoseconds, and whether that is a point in time. Any other subscription is none.
pub open spec fn clock_sub(s: Seq<u8>) -> Option<(Seq<u8>, int, bool)> {
    if u16_at(s, 8) != 0 {
        None
    } else {
        Some((s.subrange(0, 8), u64_at(s, 24), has_bit(u16_at(s, 40), 1)))
    }
}

/// Reads a subscription to a clock.
pub fn read_clock_sub(s: &[u8]) -> (r: Option<(Vec<u8>, u64, bool)>)
    requires
        s@.len() == 48,
    ensures
        match r {
            Some(c) => clock_sub(s@) == Some((c.0@, c.1 as int, c.2)),
            None => clock_sub(s@) is None,
        },
{
    if get_u16(s, 8) != 0 {
        return None;
    }
    let mut tag: Vec<u8> = Vec::new();
    let mut i: usize = 0;
    while i < 8
        invariant
            i <= 8,
            s@.len() == 48,
            tag@ == s@.subrange(0, i as int),
        decreases 8 - i,
    {
        assert(s.len() == s@.len());
        tag.push(s[i]);
        assert(s@.subrange(0, i + 1) =~= s@.subrange(0, i as int).push(s@[i as int]));
        i += 1;
    }
    Some((tag, get_u64(s, 24), get_u16(s, 40) % 2 == 1))
}

/// The number of ticks that hold `ns` nanoseconds: no fewer than were asked for.
pub open spec fn ticks_for(ns: int) -> int {
    (ns + TICK_NS - 1) / TICK_NS as int
}

/// The tick at which a wait ends that begins at tick `now`.
pub open spec fn wake_tick(now: u64, timeout_ns: int, abstime: bool) -> int {
    if abstime {
        if timeout_ns / TICK_NS as int <= now { now as int } else { timeout_ns / TICK_NS as int }
    } else if now + ticks_for(timeout_ns) > u64::MAX {
        u64::MAX as int
    } else {
        now + ticks_for(timeout_ns)
    }
}

/// The tick at which a wait ends that begins at tick `now`.
pub fn wait_until(now: u64, timeout_ns: u64, abstime: bool) -> (r: u64)
    ensures
        r == wake_tick(now, timeout_ns as int, abstime),
        r >= now,
{
    if abstime {
        let t: u64 = timeout_ns / TICK_NS;
        if t <= now { now } else { t }
    } else {
        let n: u64 = timeout_ns / TICK_NS + (if timeout_ns % TICK_NS == 0 { 0 } else { 1 });
        if n > u64::MAX - now { u64::MAX } else { now + n }
    }
}

/// A wait for a length of time does not end early.
pub proof fn wait_is_long_enough(now: u64, timeout_ns: u64)
    requires
        now + ticks_for(timeout_ns as int) <= u64::MAX,
    ensures
        (wake_tick(now, timeout_ns as int, false) - now) * TICK_NS >= timeout_ns,
        (wake_tick(now, timeout_ns as int, false) - now) * TICK_NS < timeout_ns + TICK_NS,
{
}

} // verus!
