//! Compiled modules: memory, threads, files and the network.

use ruos::wt::args::{sizes_get, strings_get};
use ruos::wt::demand::{
    after_map, commit_fault, in_window, lookup, prot_to_flags, remove, reserve, self_test, set_prot, MapOutcome,
    Registry, PROT_EXEC, PROT_READ, PROT_WRITE, WT_VM_BASE,
};
use ruos::wt::gfx::{gfx_info, gfx_poll_event, wall_centis, Geom};
use ruos::wt::group::{
    core_allowed, futex_wait, futex_woken, gate2_run, gate3_run, CoreRole, Ended, ThreadGroup, WaitAction,
};
use ruos::wt::keys::{key_deadline, poll_key, raw_and_back, KeyView, SavedMode};
use ruos::wt::mem::{read, write_u32};
use ruos::wt::net::{dial_allowed, dial_result, next_port, read_want, write_result, Resolves};
use ruos::wt::platform::{
    page_count, wasmtime_mmap_new, wasmtime_sync_lock_acquire, wasmtime_sync_lock_release, wasmtime_sync_rwlock_read,
    wasmtime_sync_rwlock_write, zero_init_self_test, RW_WRITER,
};
use ruos::wt::shared::{grow, timeout_ns, wait_result, wrap, SharedError, WaitResult};
use ruos::wt::state::{WtFd, WtState};
use ruos::wt::sys::cpustat;
use ruos::wt::term::{close, open, resize};
use ruos::wt::threads::{fiber_self_test, FiberCheck, Scheduler, ThreadFiber, FOREVER};
use ruos::wt::wasi::{
    boot_epoch_ns, clock_time_get, fd_close, fd_read, fd_seek, fd_write, path_open, path_open_dir, path_opened, route, Output,
    poll_oneoff, proc_exit, random_get, OpenStart, ReadStart,
};
use ruos::wt::window::GfxEvt;
use std::collections::VecDeque;

fn fiber(n: u64) -> ThreadFiber {
    ThreadFiber { fiber: n, group: None, tid: n as u32 }
}

fn u32_at(mem: &[u8], at: usize) -> u32 {
    u32::from_le_bytes([mem[at], mem[at + 1], mem[at + 2], mem[at + 3]])
}

#[test]
fn reservations_are_lazy_and_protected() {
    let mut r = Registry::new();
    let base = reserve(&mut r, 4, PROT_READ | PROT_WRITE);
    assert_eq!(base, WT_VM_BASE);
    assert!(in_window(&r, base + 4 * 4096 - 1) && !in_window(&r, base + 4 * 4096));
    let c = commit_fault(&r, base + 4097).unwrap();
    assert_eq!((c.page, c.flags), (base + 4096, 0x8000_0000_0000_0003));
    set_prot(&mut r, base + 4096, base + 8192, 0);
    assert_eq!(lookup(&r, base + 4096), Some(0));
    assert!(commit_fault(&r, base + 4096).is_none());
    assert!(commit_fault(&r, base).is_some());
    remove(&mut r, base, base + 4 * 4096);
    assert_eq!(lookup(&r, base), None);
    assert_eq!(prot_to_flags(PROT_READ | PROT_EXEC), 1);
    assert_eq!(prot_to_flags(PROT_READ), 0x8000_0000_0000_0001);
    assert_eq!(after_map(MapOutcome::Mapped), (true, false));
    assert_eq!(after_map(MapOutcome::AlreadyMapped), (true, true));
    assert_eq!(after_map(MapOutcome::Failed), (false, true));
}

#[test]
fn memory_checks_hold() {
    let mut r = Registry::new();
    assert!(self_test(&mut r, (10, 10, 8), 0));
    assert!(r.ranges.is_empty());
    assert!(!self_test(&mut r, (10, 9, 8), 0));
    assert!(!self_test(&mut r, (10, 10, 10), 0));
    assert!(!self_test(&mut r, (10, 10, 8), 1));
    assert!(zero_init_self_test(Some(&[0, 0])) && !zero_init_self_test(Some(&[0, 1])) && !zero_init_self_test(None));
    assert_eq!(page_count(4097), 2);
    let mut next = WT_VM_BASE;
    let first = wasmtime_mmap_new(&mut next, 8193, 3);
    let second = wasmtime_mmap_new(&mut next, 1, 0);
    assert_eq!((first.base, first.pages), (WT_VM_BASE, 3));
    assert_eq!((second.base, second.pages), (WT_VM_BASE + 3 * 4096, 1));
    assert_eq!(next, WT_VM_BASE + 4 * 4096);
}

#[test]
fn boot_check_wakes_its_fiber() {
    for early in [false, true] {
        let mut s = Scheduler::new();
        let mut check = FiberCheck::begin(&mut s, Some(fiber(1)), 64, 10);
        assert_eq!(fiber_self_test(&mut s, &mut check, 310), None);
        assert_eq!(s.run_one(), Some(fiber(1)));
        let park = check.runs(2);
        assert_eq!(park, Some((64, FOREVER)));
        if early {
            assert_eq!(fiber_self_test(&mut s, &mut check, 310), None);
            s.suspended(fiber(1), park);
        } else {
            s.suspended(fiber(1), park);
            assert!(s.runnable_empty());
            assert_eq!(fiber_self_test(&mut s, &mut check, 310), None);
        }
        assert_eq!(fiber_self_test(&mut s, &mut check, 311), Some((false, 2, u32::MAX)));
        assert_eq!(s.run_one(), Some(fiber(1)));
        assert_eq!(check.runs(3), None);
        assert_eq!(fiber_self_test(&mut s, &mut check, 311), Some((true, 2, 3)));
        assert!(s.runnable_empty());
    }
    let mut s = Scheduler::new();
    let mut check = FiberCheck::begin(&mut s, None, 64, 10);
    assert!(s.runnable_empty());
    assert_eq!(fiber_self_test(&mut s, &mut check, 10), Some((false, u32::MAX, u32::MAX)));
    let mut check = FiberCheck::begin(&mut s, Some(fiber(1)), 64, 10);
    assert_eq!(fiber_self_test(&mut s, &mut check, 311), Some((false, u32::MAX, u32::MAX)));
}

#[test]
fn fibers_are_woken_early_or_late() {
    let mut s = Scheduler::new();
    s.suspended(fiber(1), Some((8, FOREVER)));
    s.suspended(fiber(2), Some((8, 50)));
    assert!(s.runnable_empty());
    s.expire_timeouts(49);
    assert!(s.runnable_empty());
    s.expire_timeouts(50);
    assert_eq!(s.run_one(), Some(fiber(2)));
    assert_eq!(s.wake_key(8, 5), 1);
    assert_eq!(s.run_one(), Some(fiber(1)));
    s.suspended(fiber(1), Some((8, FOREVER)));
    assert_eq!(s.run_one(), Some(fiber(1)));
    s.suspended(fiber(3), None);
    s.suspended(fiber(4), Some((0, 50)));
    assert_eq!(s.timed, 0);
    assert_eq!((s.run_one(), s.run_one(), s.run_one()), (Some(fiber(3)), Some(fiber(4)), None));
}

#[test]
fn group_dies_with_a_trapped_thread() {
    let mut g = ThreadGroup::new();
    let first = g.thread_spawn();
    assert_eq!(first, Some(1));
    assert_eq!(g.thread_spawn(), Some(2));
    assert_eq!(g.thread_ended(Ended::Trapped, None), 134);
    assert!(g.poisoned);
    assert_eq!(g.thread_spawn(), None);
    assert!(core_allowed(CoreRole::ComputeApp, true) && !core_allowed(CoreRole::GuiCompositor, false));
    assert!(core_allowed(CoreRole::BspIo, false) && !core_allowed(CoreRole::BspIo, true));
}

#[test]
fn thread_checks_end_in_time() {
    assert_eq!(gate2_run(1, 10, 20, None), None);
    assert_eq!(gate2_run(1, 21, 20, None), Some(false));
    assert_eq!(gate2_run(0, 21, 20, Some(99)), Some(true));
    assert_eq!(gate2_run(0, 1, 20, Some(7)), Some(false));
    assert_eq!(gate3_run(0, 1, 20, Some(7)), Some(true));
}

#[test]
fn waits_round_up_to_ticks() {
    assert_eq!(futex_wait(8, 10_000_001, 100, false, true), WaitAction::Park(8, 102));
    assert_eq!(futex_wait(8, 0, 100, false, true), WaitAction::Park(8, 101));
    assert_eq!(futex_wait(8, -1, 100, false, true), WaitAction::Park(8, u64::MAX));
    assert_eq!(futex_wait(8, -1, 100, true, true), WaitAction::NotEqual);
    assert_eq!(futex_wait(8, -1, 100, false, false), WaitAction::Spin);
    assert_eq!((futex_woken(5, 5), futex_woken(5, 4), futex_woken(FOREVER, FOREVER)), (2, 0, 0));
}

#[test]
fn shared_memory_waits_are_mapped() {
    assert_eq!(timeout_ns(None), -1);
    assert_eq!(timeout_ns(Some(5)), 5);
    assert_eq!(timeout_ns(Some(u128::MAX)), i64::MAX);
    assert_eq!((wait_result(0), wait_result(1), wait_result(2)), (WaitResult::Woken, WaitResult::Mismatch, WaitResult::TimedOut));
    assert_eq!(wrap(false, true), Err(SharedError::Disabled));
    assert_eq!(wrap(true, false), Err(SharedError::NotShared));
    assert_eq!(wrap(true, true), Ok(()));
    assert_eq!((grow(1, Some((1, 2))), grow(1, None)), (2, 1));
}

#[test]
fn locks_exclude_each_other() {
    let held = wasmtime_sync_lock_acquire(0).unwrap();
    assert_eq!(wasmtime_sync_lock_acquire(held), None);
    assert_eq!(wasmtime_sync_lock_release(held), 0);
    let one = wasmtime_sync_rwlock_read(0).unwrap();
    assert_eq!(wasmtime_sync_rwlock_read(one), Some(2));
    assert_eq!(wasmtime_sync_rwlock_write(one), None);
    assert_eq!(wasmtime_sync_rwlock_write(0), Some(RW_WRITER));
    assert_eq!(wasmtime_sync_rwlock_read(RW_WRITER), None);
}

#[test]
fn strings_are_found_by_the_program() {
    let s = vec![b"a".to_vec(), b"bc".to_vec()];
    let mut mem = vec![0u8; 32];
    assert_eq!(sizes_get(&s, &mut mem, 0, 4), 0);
    assert_eq!((u32_at(&mem, 0), u32_at(&mem, 4)), (2, 5));
    assert_eq!(strings_get(&s, &mut mem, 8, 20), 0);
    assert_eq!((u32_at(&mem, 8), u32_at(&mem, 12)), (20, 22));
    assert_eq!(&mem[20..25], b"a\0bc\0");
}

#[test]
fn files_are_opened_read_and_closed() {
    let mut st = WtState::new(vec![]);
    let mut mem = vec![0u8; 64];
    let fd = st.install_vfs(77);
    assert_eq!(fd, 4);
    assert!(matches!(st.get(4), Some(WtFd::Vfs(77))));
    mem[0] = 16;
    mem[4] = 8;
    match fd_read(&st, &mut mem, 4, 0, 1, 40) {
        ReadStart::Read(f, mut s) => {
            assert_eq!(f, 77);
            assert_eq!(s.want(), Some(8));
            s.give(&mut mem, Some(b"abc"));
            assert_eq!(s.want(), None);
            assert_eq!(s.finish(&mut mem, 40), 0);
        }
        ReadStart::Done(e) => panic!("{e}"),
    }
    assert_eq!(u32_at(&mem, 40), 3);
    assert_eq!(&mem[16..19], b"abc");
    let (out, errno) = fd_write(&mut mem, 1, 0, 1, 44);
    assert_eq!((out, errno), (vec![b"abc\0\0\0\0\0".to_vec()], 0));
    match route(&st, b"hi".to_vec()) {
        Output::Console { text, log } => assert_eq!((text, log), (Some("hi".to_string()), b"hi".to_vec())),
        Output::Terminal(..) => panic!("no terminal"),
    }
    match route(&st, vec![0xff]) {
        Output::Console { text, log } => assert_eq!((text, log), (None, vec![0xff])),
        Output::Terminal(..) => panic!("no terminal"),
    }
    st.stdout_pty = Some(6);
    assert!(matches!(route(&st, vec![0xff]), Output::Terminal(6, b) if b == vec![0xff]));
    assert!(fd_seek(&st, 4, 0).is_ok() && fd_seek(&st, 9, 0).is_err() && fd_seek(&st, 4, 7).is_err());
    assert_eq!(fd_close(&mut st, 4), (0, Some(77)));
    assert_eq!(fd_close(&mut st, 4).0, 8);
    assert!(matches!(path_open(b"/x", 0, 2, 2), OpenStart::Dir(_)));
    assert!(matches!(path_open(b"/x", 0, 2, 0), OpenStart::File(_, _, _)));
    assert!(matches!(path_open(&[0xff], 0, 1, 0), OpenStart::Done(_)));
    assert_ne!(path_open_dir(false), path_open_dir(true));
    assert_eq!(path_opened(&mut st, &mut mem, Some(5), 48), 0);
    assert_eq!(u32_at(&mem, 48), 5);
    assert_ne!(path_opened(&mut st, &mut mem, None, 48), 0);
    proc_exit(&mut st, 3);
    assert_eq!(st.exit, Some(3));
}

#[test]
fn clocks_run_from_the_boot_time() {
    let mut kept = 0u64;
    let boot = boot_epoch_ns(&mut kept, 1000, 100);
    assert_eq!(boot, 999_000_000_000);
    assert_eq!(boot_epoch_ns(&mut kept, 5000, 100), boot);
    let mut mem = vec![0u8; 8];
    assert_eq!(clock_time_get(&mut mem, 1, 7, boot, 0), 0);
    assert_eq!(u64::from_le_bytes(mem[..8].try_into().unwrap()), 70_000_000);
    assert_eq!(clock_time_get(&mut mem, 0, 7, boot, 0), 0);
    assert_eq!(u64::from_le_bytes(mem[..8].try_into().unwrap()), boot + 70_000_000);
    assert_eq!(random_get(&mut mem, 0, 2, &[5, 6]), 0);
    assert_eq!(mem[..2], [5, 6]);
    let mut sub = vec![0u8; 48];
    sub[0] = 9;
    sub[24..32].copy_from_slice(&15_000_000u64.to_le_bytes());
    let (until, tag) = poll_oneoff(&sub, 0, 1, 100).unwrap();
    assert_eq!((until, tag), (102, vec![9, 0, 0, 0, 0, 0, 0, 0]));
}

#[test]
fn names_are_resolved_in_slots() {
    let mut r = Resolves::new();
    let slot = r.claim();
    let mut mem = vec![0u8; 8];
    assert_eq!(r.poll(&mut mem, slot as i32, 0), 0);
    r.park(slot, &vec![[1, 2, 3, 4], [5, 6, 7, 8]]);
    assert!(r.poll(&mut mem, slot as i32, 0) > 0);
    assert_eq!(mem[..4], [1, 2, 3, 4]);
    assert!(r.poll(&mut mem, -1, 0) < 0);
}

#[test]
fn ports_do_not_repeat_soon() {
    let mut n = 0u32;
    let first = next_port(&mut n);
    assert_eq!(first, 49152);
    assert_eq!(next_port(&mut n), 49153);
    n = 16383;
    assert_eq!(next_port(&mut n), 65535);
    assert_eq!(next_port(&mut n), 49152);
    assert!(dial_allowed(80) && !dial_allowed(0) && !dial_allowed(70000));
    assert!(dial_result(80, 3, true, true) >= 0 && dial_result(80, 3, false, true) < 0);
    assert_eq!(read_want(1, 100, true, 64), Some(64));
    assert!(write_result(true, None) < 0);
}

#[test]
fn terminals_are_opened_and_closed() {
    let mut claimed = vec![true, false];
    let (h, shell) = open(&mut claimed);
    assert_eq!(h, 1);
    assert_eq!(shell.map(|s| s.idx), Some(1));
    assert!(open(&mut claimed).0 < 0);
    assert_eq!(close(&mut claimed, 1), Some(1));
    assert_eq!(close(&mut claimed, 7), None);
    assert_eq!(resize(0, 80, 24, 2), Some((0, 80, 24)));
    assert_eq!(resize(5, 80, 24, 2), None);
}

#[test]
fn keys_are_polled_and_modes_restored() {
    let v = |late| KeyView { has_pty: true, on_boot_core: false, shutdown: false, kill_pending: false, late };
    assert_eq!(poll_key(&v(false), Some(65)), Some(66));
    assert_eq!(poll_key(&v(false), None), None);
    assert_eq!(poll_key(&v(true), None), Some(0));
    assert_eq!(poll_key(&KeyView { has_pty: false, ..v(false) }, Some(65)), Some(-1));
    assert_eq!(poll_key(&KeyView { on_boot_core: true, ..v(false) }, Some(65)), Some(-1));
    assert_eq!(poll_key(&KeyView { kill_pending: true, ..v(false) }, Some(65)), Some(-1));
    assert_eq!(key_deadline(10, -5), 10);
    let mut m = SavedMode { saved: None };
    assert_eq!(m.set_raw(true, 0b111, 0b101), Some(0b010));
    assert_eq!(m.set_raw(false, 0b010, 0b101), Some(0b111));
    assert_eq!(m.set_raw(false, 0b010, 0b101), None);
    assert_eq!(raw_and_back(&mut m, 9, 1), Some(9));
}

#[test]
fn screens_are_described() {
    let mut mem = vec![0u8; 64];
    assert_eq!(gfx_info(&mut mem, 0, Geom { width: 640, height: 480, stride: 2560, format: 1 }), 0);
    assert_eq!((u32_at(&mem, 0), u32_at(&mem, 4), u32_at(&mem, 8), u32_at(&mem, 12)), (640, 480, 2560, 1));
    let mut q: VecDeque<GfxEvt> = VecDeque::new();
    q.push_back(GfxEvt { kind: 1, p0: 2, p1: 3, p2: 4 });
    assert_eq!(gfx_poll_event(&mut q, &mut mem, 0, 4), 1);
    assert_eq!(wall_centis(1, 2, 3, 0), 372_300);
    assert!(write_u32(&mut mem, 60, 7));
    assert_eq!(read(&mem, 60, 4), Some(vec![7, 0, 0, 0]));
    assert_eq!(read(&mem, 62, 4), None);
}

#[test]
fn processor_times_are_encoded() {
    let mut mem = vec![0u8; 128];
    assert!(cpustat(&mut mem, 0, 128, 1000, &vec![(1, 2), (3, 4)]) >= 0);
}
