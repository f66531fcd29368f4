//! Laws of lists and of what programs are given when they start: lists stand in their order, and a
//! program gets the directory and the descriptors that it was started with.

use vstd::prelude::*;
use vstd::utf8::encode_utf8;
use crate::bytes::{bytes_run_upwards, le16, le32, le32_decodes, le64, le64_decodes, u16_at, u32_at, u64_at};
use crate::fiber::{elsewhere, exit_code, is_pwd, pwd, Progress};
use crate::host::mem::{guest_reads_back, written};
use crate::host::net::{addr_of, cidr_text, dotted, lo_lines, low_byte, mac_text, Cidr};
use crate::host::pci::{class_name, device_line, device_lines, PciDevice};
use crate::host::proc::{child_terminal, size_of_len};
use crate::host::random::filled;
use crate::host::service::{ended, pid_text, service_line, service_lines, ServiceError, ServiceInfo};
use crate::host::smp::{hashed, listed, mixed_in, report, speedup, turned};
use crate::host::state::{FdEntry, RuntimeState};
use crate::host::sysinfo::{meminfo, proc_row, proc_rows, without_zeros, words, FrameCounts, Proc};
use crate::host::term::terminal;
use crate::pipeline::{let_go, stage_entry, wiring};
use crate::suspend::HostCall;
use crate::text::{decimal, hex};
use crate::tools::netconsole::{digits, log_line, lowered, port_text};
use crate::wording::hex_digits_stand_for_the_number;

verus! {

proof fn lemma_filled(mem: Seq<u8>, ptr: i32, fill: Seq<u8>, from: int, i: int)
    requires
        0 <= ptr,
        0 <= from <= fill.len(),
        ptr + fill.len() <= mem.len() <= 0x7fff_ffff,
        0 <= i < mem.len(),
    ensures
        ({
            let (now, errno) = filled(mem, ptr, fill, from);
            &&& errno == 0
            &&& now.len() == mem.len()
            &&& now[i] == if ptr + from <= i < ptr + fill.len() { fill[i - ptr] } else { mem[i] }
        }),
    decreases fill.len() - from,
{
    if from < fill.len() {
        let n = crate::host::random::chunk_len(fill.len() as int, from);
        let p = (ptr + from) as i32;
        let c = fill.subrange(from, from + n);
        assert(crate::bytes::signed32(
            crate::wt::args::behind(crate::bytes::unsigned32(ptr) as u32, from),
        ) == p);
        guest_reads_back(mem, p, c);
        let m = written(mem, p, c);
        lemma_filled(m, ptr, fill, from + n, i);
        if p <= i < p + n {
            assert(m.subrange(p as int, p + n)[i - p] == m[i]);
        }
    }
}

/// Random bytes fill the buffer that was named, all of it, and no other byte.
pub proof fn random_bytes_fill_the_buffer(mem: Seq<u8>, ptr: i32, fill: Seq<u8>, i: int)
    requires
        0 <= ptr,
        ptr + fill.len() <= mem.len() <= 0x7fff_ffff,
        0 <= i < mem.len(),
    ensures
        filled(mem, ptr, fill, 0).1 == 0,
        filled(mem, ptr, fill, 0).0.len() == mem.len(),
        filled(mem, ptr, fill, 0).0[i] == if ptr <= i < ptr + fill.len() { fill[i - ptr] } else { mem[i] },
{
    lemma_filled(mem, ptr, fill, 0, i);
}

/// Services are listed in their order, a line for each.
pub proof fn services_are_listed_in_order(s: Seq<ServiceInfo>, n: int)
    requires
        0 < n <= s.len(),
    ensures
        ({
            let (was, now) = (service_lines(s, n - 1), service_lines(s, n));
            &&& service_lines(s, 0).len() == 0
            &&& now.subrange(0, was.len() as int) == was
            &&& now.subrange(was.len() as int, now.len() as int) == service_line(s[n - 1])
            &&& now.last() == 10
        }),
{
    let (was, now) = (service_lines(s, n - 1), service_lines(s, n));
    assert(now.subrange(0, was.len() as int) =~= was);
    assert(now.subrange(was.len() as int, now.len() as int) =~= service_line(s[n - 1]));
}

/// The line of a service begins with its name and a tab, and ends with a tab, its path and a line
/// break. A service that does not run has a dash for its program.
pub proof fn service_line_is_laid_out(i: ServiceInfo)
    ensures
        ({
            let l = service_line(i);
            let (a, b) = (encode_utf8(i.name@), encode_utf8(i.path@));
            &&& l.len() > a.len() + b.len()
            &&& l.subrange(0, a.len() as int) == a && l[a.len() as int] == 9
            &&& l.subrange(l.len() - 1 - b.len(), l.len() - 1) == b && l.last() == 10
            &&& l[l.len() - 2 - b.len()] == 9
        }),
        i.pid is None ==> pid_text(i.pid) == seq![45u8],
        i.pid matches Some(p) ==> pid_text(i.pid) == decimal(p as nat),
{
    let l = service_line(i);
    let (a, b) = (encode_utf8(i.name@), encode_utf8(i.path@));
    assert(l.subrange(0, a.len() as int) =~= a);
    assert(l.subrange(l.len() - 1 - b.len(), l.len() - 1) =~= b);
}

/// What became of a request is told by its number, and a text that could not be written ends the
/// program unless only its buffer was too small.
pub proof fn outcomes_have_numbers(errno: i32)
    ensures
        ServiceError::NotFound.number() == 1,
        ServiceError::Already.number() == 2,
        ServiceError::NotSupported.number() == 3,
        ServiceError::Internal.number() == 99,
        errno == 0 || errno == 8 ==> ended(errno) == HostCall::Return(errno),
        errno != 0 && errno != 8 ==> ended(errno) == HostCall::Exit(-1i32),
{
}

/// Devices are listed in their order, a line for each.
pub proof fn devices_are_listed_in_order(s: Seq<PciDevice>, n: int)
    requires
        0 < n <= s.len(),
    ensures
        ({
            let (was, now) = (device_lines(s, n - 1), device_lines(s, n));
            &&& device_lines(s, 0).len() == 0
            &&& now.subrange(0, was.len() as int) == was
            &&& now.subrange(was.len() as int, now.len() as int) == device_line(s[n - 1])
            &&& now.last() == 10
        }),
{
    let (was, now) = (device_lines(s, n - 1), device_lines(s, n));
    assert(now.subrange(0, was.len() as int) =~= was);
    assert(now.subrange(was.len() as int, now.len() as int) =~= device_line(s[n - 1]));
}

/// The addresses of the loopback are listed in their order.
pub proof fn addresses_are_listed_in_order(s: Seq<Cidr>, n: int)
    requires
        0 < n <= s.len(),
    ensures
        ({
            let (was, now) = (lo_lines(s, n - 1), lo_lines(s, n));
            &&& lo_lines(s, 0).len() == 0
            &&& now.subrange(0, was.len() as int) == was
            &&& now.last() == 10
            &&& now.subrange(now.len() - 1 - cidr_text(s[n - 1]).len(), now.len() - 1) == cidr_text(s[n - 1])
        }),
{
    let (was, now) = (lo_lines(s, n - 1), lo_lines(s, n));
    assert(now.subrange(0, was.len() as int) =~= was);
    assert(now.subrange(now.len() - 1 - cidr_text(s[n - 1]).len(), now.len() - 1) =~= cidr_text(s[n - 1]));
}

/// An address is made of the lowest bytes of four numbers, in their order; a number that is a byte
/// stands for itself.
pub proof fn addresses_are_made_of_bytes(a: i32, b: i32, c: i32, d: i32)
    ensures
        addr_of(a, b, c, d).len() == 4,
        0 <= a <= 255 ==> addr_of(a, b, c, d)[0] == a,
        0 <= b <= 255 ==> addr_of(a, b, c, d)[1] == b,
        0 <= c <= 255 ==> addr_of(a, b, c, d)[2] == c,
        0 <= d <= 255 ==> addr_of(a, b, c, d)[3] == d,
        (a - low_byte(a)) % 256 == 0,
{
}

/// What is told of the memory: the size of the heap, a zero, and how many frames there are and are
/// used, in eight bytes each.
#[verifier::rlimit(40)]
pub proof fn meminfo_is_laid_out(heap: u64, f: FrameCounts)
    ensures
        meminfo(heap, f).len() == 32,
        u64_at(meminfo(heap, f), 0) == heap,
        u64_at(meminfo(heap, f), 8) == 0,
        u64_at(meminfo(heap, f), 16) == f.total,
        u64_at(meminfo(heap, f), 24) == f.used,
{
    let r = meminfo(heap, f);
    assert(r.subrange(0, 8) =~= le64(heap));
    assert(r.subrange(8, 16) =~= le64(0));
    assert(r.subrange(16, 24) =~= le64(f.total));
    assert(r.subrange(24, 32) =~= le64(f.used));
    le64_decodes(r, 0, heap);
    le64_decodes(r, 8, 0);
    le64_decodes(r, 16, f.total);
    le64_decodes(r, 24, f.used);
}

/// The row of a program: its number in four bytes, when it was started in eight, the length of its
/// name in two, two zeros, and the name.
#[verifier::rlimit(40)]
pub proof fn process_row_is_laid_out(p: Proc)
    requires
        encode_utf8(p.name@).len() <= u16::MAX,
    ensures
        ({
            let r = proc_row(p);
            let b = encode_utf8(p.name@);
            &&& r.len() == 16 + b.len()
            &&& u32_at(r, 0) == p.pid
            &&& u64_at(r, 4) == p.start_tick
            &&& u16_at(r, 12) == b.len()
            &&& r[14] == 0 && r[15] == 0
            &&& r.subrange(16, r.len() as int) == b
        }),
{
    let r = proc_row(p);
    let b = encode_utf8(p.name@);
    assert(r.subrange(0, 4) =~= le32(p.pid));
    assert(r.subrange(4, 12) =~= le64(p.start_tick));
    le32_decodes(r, 0, p.pid);
    le64_decodes(r, 4, p.start_tick);
    bytes_run_upwards(b.len() as u16, 0, 0, r, 12);
    assert(r[12] == le16(b.len() as u16)[0] && r[13] == le16(b.len() as u16)[1]);
    assert(r.subrange(16, r.len() as int) =~= b);
}

/// The rows of programs come behind their number, in the order of the programs.
pub proof fn process_rows_stand_in_order(s: Seq<Proc>, n: int)
    requires
        0 < n <= s.len() <= u32::MAX,
    ensures
        u32_at(proc_rows(s, 0), 0) == s.len(),
        proc_rows(s, 0).len() == 4,
        proc_rows(s, n).subrange(0, proc_rows(s, n - 1).len() as int) == proc_rows(s, n - 1),
        proc_rows(s, n).subrange(proc_rows(s, n - 1).len() as int, proc_rows(s, n).len() as int) == proc_row(s[n - 1]),
{
    let first = proc_rows(s, 0);
    assert(first.subrange(0, 4) =~= le32(s.len() as u32));
    le32_decodes(first, 0, s.len() as u32);
    let was = proc_rows(s, n - 1);
    assert(proc_rows(s, n).subrange(0, was.len() as int) =~= was);
    assert(proc_rows(s, n).subrange(was.len() as int, proc_rows(s, n).len() as int) =~= proc_row(s[n - 1]));
}

/// Words are written one behind the other, the `i`th at four times `i`.
pub proof fn words_stand_in_order(s: Seq<u32>, n: int, i: int)
    requires
        0 <= i < n <= s.len(),
    ensures
        words(s, n).len() == 4 * n,
        u32_at(words(s, n), 4 * i) == s[i],
    decreases n,
{
    if n > 1 {
        words_stand_in_order(s, n - 1, if i < n - 1 { i } else { 0 });
    }
    let (was, now) = (words(s, n - 1), words(s, n));
    assert(was.len() == 4 * (n - 1));
    if i == n - 1 {
        assert(now.subrange(4 * i, 4 * i + 4) =~= le32(s[i]));
        le32_decodes(now, 4 * i, s[i]);
    } else {
        assert(now[4 * i] == was[4 * i] && now[4 * i + 1] == was[4 * i + 1] && now[4 * i + 2] == was[4 * i + 2] && now[4
            * i + 3] == was[4 * i + 3]);
    }
}

/// Only the zeros at the end of bytes are taken off, and all of them.
pub proof fn zeros_at_the_end_are_taken_off(s: Seq<u8>)
    ensures
        ({
            let t = without_zeros(s);
            &&& t.len() <= s.len()
            &&& t == s.subrange(0, t.len() as int)
            &&& forall|i: int| t.len() <= i < s.len() ==> s[i] == 0
            &&& t.len() > 0 ==> t.last() != 0
        }),
    decreases s.len(),
{
    if s.len() > 0 && s.last() == 0 {
        let d = s.drop_last();
        zeros_at_the_end_are_taken_off(d);
        let t = without_zeros(s);
        assert(t =~= s.subrange(0, t.len() as int));
        assert forall|i: int| t.len() <= i < s.len() implies s[i] == 0 by {
            if i < d.len() {
                assert(d[i] == s[i]);
            }
        }
    } else {
        assert(s =~= s.subrange(0, s.len() as int));
    }
}

/// The entries of an environment that tell no directory stay, in their order; those that do are
/// the ones that begin with `PWD=`, and the new one is that and the directory.
pub proof fn environment_keeps_all_but_the_directory(env: Seq<Seq<u8>>, n: int, e: Seq<u8>, cwd: Seq<char>)
    requires
        0 <= n <= env.len(),
    ensures
        elsewhere(env, n) == env.take(n).filter(|x: Seq<u8>| !is_pwd(x)),
        is_pwd(e) <==> e.len() >= 4 && e.subrange(0, 4) == seq![80u8, 87, 68, 61],
        pwd(cwd).len() == 4 + encode_utf8(cwd).len(),
        pwd(cwd).subrange(0, 4) == seq![80u8, 87, 68, 61],
        pwd(cwd).subrange(4, pwd(cwd).len() as int) == encode_utf8(cwd),
    decreases n,
{
    reveal(Seq::filter);
    if n > 0 {
        environment_keeps_all_but_the_directory(env, n - 1, e, cwd);
        assert(env.take(n).drop_last() =~= env.take(n - 1));
        assert(env.take(n).last() == env[n - 1]);
    } else {
        assert(env.take(0) =~= Seq::<Seq<u8>>::empty());
    }
    if e.len() >= 4 {
        let t = e.subrange(0, 4);
        assert(t[0] == e[0] && t[1] == e[1] && t[2] == e[2] && t[3] == e[3]);
        if is_pwd(e) {
            assert(t =~= seq![80u8, 87, 68, 61]);
        }
    }
    assert(pwd(cwd).subrange(0, 4) =~= seq![80u8, 87, 68, 61]);
    assert(pwd(cwd).subrange(4, pwd(cwd).len() as int) =~= encode_utf8(cwd));
}

/// A program that ended has 0 for its code, or the one that it asked for; one that was killed for
/// computing too long has 137, and one that could not run has -1. A program that waits has none.
pub proof fn programs_end_with_codes(c: i32)
    ensures
        exit_code(Progress::Finished) == Some(0i32),
        exit_code(Progress::Stopped(Some(c))) == Some(c),
        exit_code(Progress::Stopped(None)) == Some(-1i32),
        exit_code(Progress::NoStart) == Some(-1i32),
        exit_code(Progress::OutOfFuel) == Some(137i32),
        exit_code(Progress::Suspended) is None,
{
}

/// A descriptor of a stage stands for the end of a pipe where it has one and for the terminal
/// otherwise. What it stood for before is let go of, and so is the terminal that a pipe takes the
/// place of.
pub proof fn stages_get_pipes_before_terminals(
    pipe: Option<u32>,
    pts: Option<u32>,
    had: Option<FdEntry>,
    f: u32,
)
    ensures
        pipe is Some ==> stage_entry(pipe, pts) == Some(FdEntry::Vfs(pipe->0)),
        pipe is None && pts is Some ==> stage_entry(pipe, pts) == Some(FdEntry::Vfs(pts->0)),
        pipe is None && pts is None ==> stage_entry(pipe, pts) is None,
        let_go(Some(FdEntry::Vfs(f)), pts, pipe).0 == seq![f],
        let_go(None, pts, pipe).0.len() == 0,
        pipe is Some && pts is Some ==> let_go(had, pts, pipe).1 == seq![pts->0],
        pipe is None || pts is None ==> let_go(had, pts, pipe).1.len() == 0,
{
}

/// Neighbouring stages share a pipe: what one writes the next one reads. The first reads from the
/// terminal, and the last writes to it.
pub proof fn stages_are_chained(pipes: Seq<(u32, u32)>, n: int, i: int)
    requires
        pipes.len() + 1 == n,
        0 <= i < n,
    ensures
        wiring(pipes, n, i).0 is None <==> i == 0,
        wiring(pipes, n, i).1 is None <==> i == n - 1,
        i + 1 < n ==> wiring(pipes, n, i).1 == Some(pipes[i].1) && wiring(pipes, n, i + 1).0 == Some(pipes[i].0),
{
}

/// The speedup tells, in hundredths, how many times as long the work took one after the other.
pub proof fn speedup_is_the_ratio(parallel: u64, sequential: u64)
    ensures
        parallel == 0 ==> speedup(parallel, sequential) == 0,
        parallel > 0 ==> speedup(parallel, sequential) * parallel <= 100 * sequential < (speedup(
            parallel,
            sequential,
        ) + 1) * parallel,
{
    if parallel > 0 {
        let p = parallel as int;
        let q = sequential * 100 / p;
        vstd::arithmetic::div_mod::lemma_fundamental_div_mod(sequential * 100, p);
        vstd::arithmetic::div_mod::lemma_mod_bound(sequential * 100, p);
        assert(p * q == q * p) by (nonlinear_arith);
        assert((q + 1) * p == q * p + p) by (nonlinear_arith);
    }
}

/// Numbers are listed in their order, with commas between them.
pub proof fn numbers_are_listed_with_commas(s: Seq<u32>, n: int)
    requires
        1 < n <= s.len(),
    ensures
        listed(s, 1) == decimal(s[0] as nat),
        listed(s, n) == listed(s, n - 1) + seq![44u8] + decimal(s[n - 1] as nat),
        listed(s, 0).len() == 0,
{
    reveal_with_fuel(listed, 2);
    assert(listed(s, n) =~= listed(s, n - 1) + seq![44u8] + decimal(s[n - 1] as nat));
}

/// The digits of a number.
pub open spec fn as_chars(s: Seq<u8>) -> Seq<char> {
    Seq::new(s.len(), |i: int| s[i] as char)
}

proof fn lemma_digits(v: nat)
    ensures
        digits(as_chars(decimal(v))) == Some(v as int),
        as_chars(decimal(v)).len() > 0,
        as_chars(decimal(v))[0] != '+',
    decreases v,
{
    crate::wording::decimal_digits_stand_for_the_number(v);
    let s = as_chars(decimal(v));
    assert(decimal(v)[0] >= 48);
    if v >= 10 {
        lemma_digits(v / 10);
        assert(s.drop_last() =~= as_chars(decimal(v / 10)));
    } else {
        assert(s.drop_last() =~= Seq::<char>::empty());
        reveal_with_fuel(digits, 2);
    }
}

/// A port in decimal, with or without a plus in front, is read as that port; a number beyond the
/// last port is none.
pub proof fn ports_are_read_in_decimal(v: nat)
    ensures
        v <= 65535 ==> port_text(as_chars(decimal(v))) == Some(v as u16),
        v <= 65535 ==> port_text(seq!['+'] + as_chars(decimal(v))) == Some(v as u16),
        v > 65535 ==> port_text(as_chars(decimal(v))) is None,
        port_text(Seq::empty()) is None,
        port_text(seq!['+']) is None,
{
    lemma_digits(v);
    let s = as_chars(decimal(v));
    assert((seq!['+'] + s).drop_first() =~= s);
    assert(seq!['+'].drop_first() =~= Seq::<char>::empty());
}

/// A datagram makes one line: behind its sender in brackets, where that is asked for, it is shown
/// as it came, and a line break is added only where it has none.
pub proof fn datagrams_make_lines(ip: Seq<u8>, data: Seq<u8>)
    ensures
        log_line(None, data).last() == 10,
        log_line(None, data).subrange(0, data.len() as int) == data,
        log_line(None, data).len() == data.len() + if data.len() > 0 && data.last() == 10 { 0int } else { 1 },
        ({
            let l = log_line(Some(ip), data);
            let n = ip.len() as int;
            &&& l[0] == 91 && l.subrange(1, 1 + n) == ip && l[1 + n] == 93 && l[2 + n] == 32
            &&& l.subrange(3 + n, 3 + n + data.len()) == data
            &&& l.last() == 10
            &&& l.len() == 3 + n + data.len() + if data.len() > 0 && data.last() == 10 { 0int } else { 1 }
        }),
{
    let l = log_line(Some(ip), data);
    let n = ip.len() as int;
    assert(log_line(None, data).subrange(0, data.len() as int) =~= data);
    assert(l.subrange(1, 1 + n) =~= ip);
    assert(l.subrange(3 + n, 3 + n + data.len()) =~= data);
}

/// Capital letters become small ones, and every other character stays.
pub proof fn letters_become_small(s: Seq<char>, i: int)
    requires
        0 <= i < s.len(),
    ensures
        lowered(s).len() == s.len(),
        'A' <= s[i] <= 'Z' ==> lowered(s)[i] as int == s[i] as int + 32,
        !('A' <= s[i] <= 'Z') ==> lowered(s)[i] == s[i],
{
}

/// The report of a measurement gives the speedup with two digits behind the point, a zero among
/// them where the tenths are none.
pub proof fn speedup_has_two_digits_behind_the_point(parallel: u64, sequential: u64, cores: Seq<u32>)
    ensures
        exists|tenths: u8, hundredths: u8|
            48 <= tenths <= 57 && 48 <= hundredths <= 57 && 10 * (tenths - 48) + (hundredths - 48) == speedup(
                parallel,
                sequential,
            ) % 100 && report(parallel, sequential, cores) == encode_utf8("parallel="@) + decimal(parallel as nat)
                + encode_utf8("ms sequential="@) + decimal(sequential as nat) + encode_utf8("ms speedup="@) + decimal(
                (speedup(parallel, sequential) / 100) as nat,
            ) + #[trigger] seq![46u8, tenths, hundredths] + encode_utf8("x cores=["@) + listed(cores, cores.len() as int)
                + seq![93u8],
{
    let x = speedup(parallel, sequential);
    speedup_is_the_ratio(parallel, sequential);
    assert(x >= 0) by {
        if parallel > 0 {
            assert(sequential * 100 / parallel as int >= 0) by (nonlinear_arith)
                requires
                    sequential >= 0,
                    parallel > 0,
            ;
        }
    }
    let tenths = (48 + x / 10 % 10) as u8;
    let hundredths = (48 + x % 10) as u8;
    assert(10 * (x / 10 % 10) + x % 10 == x % 100);
    let s = seq![46u8, tenths, hundredths];
    assert(s.len() == 3);
}

/// A hash depends on the bytes of its input one after the other, goes on from what it was, and is
/// turned in every round so that no bit is lost.
pub proof fn hashes_go_on_from_what_they_were(h: u64, a: Seq<u8>, b: Seq<u8>, n: int)
    requires
        n >= 0,
    ensures
        mixed_in(h, a + b, (a.len() + b.len()) as int) == mixed_in(mixed_in(h, a, a.len() as int), b, b.len() as int),
        turned(h) % 0x2000 == h / 0x8_0000_0000_0000,
        turned(h) / 0x2000 == h % 0x8_0000_0000_0000,
        hashed(a, n + 1) == turned(mixed_in(hashed(a, n), a, a.len() as int)).wrapping_add(0x9e3779b97f4a7c15),
    decreases b.len(),
{
    assert(((h << 13) | (h >> 51)) % 0x2000 == h / 0x8_0000_0000_0000 && ((h << 13) | (h >> 51)) / 0x2000 == h
        % 0x8_0000_0000_0000) by (bit_vector);
    let all = a + b;
    if b.len() == 0 {
        assert(all =~= a);
    } else {
        let c = b.drop_last();
        hashes_go_on_from_what_they_were(h, a, c, n);
        lemma_mixed_alike(h, all, a + c, (a.len() + c.len()) as int);
        lemma_mixed_alike(mixed_in(h, a, a.len() as int), b, c, c.len() as int);
        assert(all[all.len() - 1] == b[b.len() - 1]);
    }
}

proof fn lemma_mixed_alike(h: u64, a: Seq<u8>, b: Seq<u8>, k: int)
    requires
        k <= a.len(),
        k <= b.len(),
        forall|i: int| 0 <= i < k ==> #[trigger] a[i] == b[i],
    ensures
        mixed_in(h, a, k) == mixed_in(h, b, k),
    decreases k,
{
    if k > 0 {
        lemma_mixed_alike(h, a, b, k - 1);
        assert(a[k - 1] == b[k - 1]);
    }
}

/// Only an open file can be a terminal. A program's children get the terminal behind its
/// descriptor 1, and the first terminal where there is none.
pub proof fn children_get_the_terminal_of_the_output(st: RuntimeState, pts: Option<usize>, f: u32, sock: usize, dir: String)
    ensures
        terminal(Some(FdEntry::Vfs(f)), pts) == pts,
        terminal(None, pts) is None,
        terminal(Some(FdEntry::Socket(sock)), pts) is None,
        terminal(Some(FdEntry::Dir(dir)), pts) is None,
        st.fds@.len() > 1 && st.fds@[1] == Some(FdEntry::Vfs(f)) && pts is Some ==> child_terminal(st, pts)
            == pts->Some_0,
        st.fds@.len() <= 1 || !(st.fds@[1] matches Some(FdEntry::Vfs(_))) || pts is None ==> child_terminal(st, pts) == 0,
{
}

/// A length is taken as it is where it is not negative; a negative one is larger than any buffer.
pub proof fn negative_lengths_are_large(v: i32)
    ensures
        v >= 0 ==> size_of_len(v) == v,
        v < 0 ==> size_of_len(v) >= 0xffff_ffff_8000_0000,
        v < 0 ==> size_of_len(v) - v == 0x1_0000_0000_0000_0000,
{
}

/// The line of a device gives bus, device and function, then maker and model, then class, subclass
/// and interface, each with as many digits as it can have, and then what the class is called.
pub proof fn device_line_is_laid_out(d: PciDevice)
    requires
        d.function < 10,
    ensures
        ({
            let r = device_line(d);
            &&& r.len() > 30
            &&& r.subrange(0, 2) == hex(d.bus as nat, 2)
            &&& r[2] == 58
            &&& r.subrange(3, 5) == hex(d.device as nat, 2)
            &&& r[5] == 46
            &&& r[6] == 48 + d.function
            &&& r[7] == 32 && r[8] == 32
            &&& r.subrange(9, 13) == hex(d.vendor_id as nat, 4)
            &&& r[13] == 58
            &&& r.subrange(14, 18) == hex(d.device_id as nat, 4)
            &&& r[18] == 32 && r[19] == 32
            &&& r.subrange(20, 22) == hex(d.class as nat, 2)
            &&& r[22] == 32
            &&& r.subrange(23, 25) == hex(d.subclass as nat, 2)
            &&& r[25] == 32
            &&& r.subrange(26, 28) == hex(d.prog_if as nat, 2)
            &&& r[28] == 32 && r[29] == 32
            &&& r.subrange(30, r.len() - 1) == encode_utf8(class_name(d.class, d.subclass, d.prog_if))
            &&& r[r.len() - 1] == 10
        }),
{
    hex_digits_stand_for_the_number(d.bus as nat, 2);
    hex_digits_stand_for_the_number(d.device as nat, 2);
    hex_digits_stand_for_the_number(d.vendor_id as nat, 4);
    hex_digits_stand_for_the_number(d.device_id as nat, 4);
    hex_digits_stand_for_the_number(d.class as nat, 2);
    hex_digits_stand_for_the_number(d.subclass as nat, 2);
    hex_digits_stand_for_the_number(d.prog_if as nat, 2);
    assert(decimal(d.function as nat) =~= seq![(48 + d.function) as u8]);
    lemma_device_parts(
        hex(d.bus as nat, 2),
        hex(d.device as nat, 2),
        decimal(d.function as nat),
        hex(d.vendor_id as nat, 4),
        hex(d.device_id as nat, 4),
        hex(d.class as nat, 2),
        hex(d.subclass as nat, 2),
        hex(d.prog_if as nat, 2),
        encode_utf8(class_name(d.class, d.subclass, d.prog_if)),
    );
}

proof fn lemma_device_parts(
    bus: Seq<u8>,
    device: Seq<u8>,
    function: Seq<u8>,
    vendor: Seq<u8>,
    model: Seq<u8>,
    class: Seq<u8>,
    sub: Seq<u8>,
    prog: Seq<u8>,
    name: Seq<u8>,
)
    requires
        bus.len() == 2 && device.len() == 2 && function.len() == 1 && vendor.len() == 4 && model.len() == 4,
        class.len() == 2 && sub.len() == 2 && prog.len() == 2,
    ensures
        ({
            let r = bus.push(58) + device.push(46) + function.push(32).push(32) + vendor.push(58) + model.push(32).push(32)
                + class.push(32) + sub.push(32) + prog.push(32).push(32) + name.push(10);
            &&& r.len() == 31 + name.len()
            &&& r.subrange(0, 2) == bus && r[2] == 58
            &&& r.subrange(3, 5) == device && r[5] == 46
            &&& r[6] == function[0] && r[7] == 32 && r[8] == 32
            &&& r.subrange(9, 13) == vendor && r[13] == 58
            &&& r.subrange(14, 18) == model && r[18] == 32 && r[19] == 32
            &&& r.subrange(20, 22) == class && r[22] == 32
            &&& r.subrange(23, 25) == sub && r[25] == 32
            &&& r.subrange(26, 28) == prog && r[28] == 32 && r[29] == 32
            &&& r.subrange(30, r.len() - 1) == name && r[r.len() - 1] == 10
        }),
{
    let r = bus.push(58) + device.push(46) + function.push(32).push(32) + vendor.push(58) + model.push(32).push(32)
        + class.push(32) + sub.push(32) + prog.push(32).push(32) + name.push(10);
    assert(r.subrange(0, 2) =~= bus);
    assert(r.subrange(3, 5) =~= device);
    assert(r.subrange(9, 13) =~= vendor);
    assert(r.subrange(14, 18) =~= model);
    assert(r.subrange(20, 22) =~= class);
    assert(r.subrange(23, 25) =~= sub);
    assert(r.subrange(26, 28) =~= prog);
    assert(r.subrange(30, r.len() - 1) =~= name);
}

/// A hardware address is given byte by byte, in two digits each, with colons between them.
pub proof fn hardware_addresses_are_given_byte_by_byte(m: Seq<u8>, i: int)
    requires
        m.len() == 6,
        0 <= i < 6,
    ensures
        mac_text(m).len() == 17,
        mac_text(m).subrange(3 * i, 3 * i + 2) == hex(m[i] as nat, 2),
        i < 5 ==> mac_text(m)[3 * i + 2] == 58,
{
    hex_digits_stand_for_the_number(m[0] as nat, 2);
    hex_digits_stand_for_the_number(m[1] as nat, 2);
    hex_digits_stand_for_the_number(m[2] as nat, 2);
    hex_digits_stand_for_the_number(m[3] as nat, 2);
    hex_digits_stand_for_the_number(m[4] as nat, 2);
    hex_digits_stand_for_the_number(m[5] as nat, 2);
    assert(mac_text(m).subrange(3 * i, 3 * i + 2) =~= hex(m[i] as nat, 2)) by {
        if i == 0 {
        } else if i == 1 {
        } else if i == 2 {
        } else if i == 3 {
        } else if i == 4 {
        } else {
            assert(i == 5);
        }
    }
}

/// An address is given with its prefix behind a slash, and byte by byte with dots between them.
pub proof fn addresses_are_given_with_their_prefix(c: Cidr)
    ensures
        cidr_text(c) == dotted(c.addr@) + seq![47u8] + decimal(c.prefix as nat),
        dotted(c.addr@) == decimal(c.addr@[0] as nat) + seq![46u8] + decimal(c.addr@[1] as nat) + seq![46u8] + decimal(
            c.addr@[2] as nat,
        ) + seq![46u8] + decimal(c.addr@[3] as nat),
{
    let a = c.addr@;
    assert(cidr_text(c) =~= dotted(a) + seq![47u8] + decimal(c.prefix as nat));
    assert(dotted(a) =~= decimal(a[0] as nat) + seq![46u8] + decimal(a[1] as nat) + seq![46u8] + decimal(a[2] as nat)
        + seq![46u8] + decimal(a[3] as nat));
}

} // verus!
