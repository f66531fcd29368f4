//! Further calls of programs, and the smaller parts of the runtime.

use ruos::host::fd::sock_accept;
use ruos::host::mem::guest_read_into;
use ruos::host::net::ruos_tcp_dial;
use ruos::host::path::{
    path_create_directory, path_filestat_get, path_open, path_remove_directory, path_rename, path_unlink_file,
};
use ruos::host::pci::{pci_class_name, ruos_pci_list, PciDevice};
use ruos::host::proc::{ruos_chdir, ruos_exec_pipeline, ruos_time_get, DateTime};
use ruos::host::service::{ruos_service_list, ruos_unit_list, ServiceInfo};
use ruos::host::state::{FdEntry, RuntimeState};
use ruos::host::sysinfo::{ruos_cpuinfo, ruos_meminfo, ruos_proc_list, FrameCounts, Proc};
use ruos::host::term::{tcgetattr, tcsetattr};
use ruos::suspend::{HostCall, SuspendReason};
use ruos::wt::catalog::{Catalog, Manifest};
use ruos::wt::frame::TaskEntry;
use ruos::wt::gfx::{gfx_blit, poll_one};
use ruos::wt::group::{thread_environment, Entry, ThreadGroup};
use ruos::wt::lists::{app_list, window_list};
use ruos::wt::net::{resolve_name, state_result, Resolves};
use ruos::wt::platform::{
    page_address, wasmtime_mmap_remap, wasmtime_mprotect, wasmtime_munmap, wasmtime_page_size,
    wasmtime_sync_rwlock_read_release, wasmtime_sync_rwlock_write_release, RW_WRITER,
};
use ruos::wt::sys::{cpustat, proc_stat, sys_meminfo};
use ruos::wt::wasi::{fd_seek_done, path_filestat_done, poll_done};
use ruos::wt::window::{GfxEvt, WmState};
use ruos::wt::wm::Compositor;
use ruos::wasi::{Stat, VfsKind};
use std::collections::VecDeque;

fn state() -> RuntimeState {
    RuntimeState::new(Some(10), Some(11), Some(12))
}

fn u32_at(mem: &[u8], at: usize) -> u32 {
    u32::from_le_bytes([mem[at], mem[at + 1], mem[at + 2], mem[at + 3]])
}

#[test]
fn sockets_are_dialled_and_accepted() {
    let mut st = state();
    let mut mem = vec![0u8; 8];
    match ruos_tcp_dial(&mut st, &mut mem, (10, 0, 2, 2), 80, 4, 5, true, 64) {
        HostCall::Suspend(SuspendReason::SockConnect { sock, addr, port, local_port }) => {
            assert_eq!((sock, addr, port, local_port), (5, [10, 0, 2, 2], 80, 49157));
        }
        _ => panic!("no connect"),
    }
    let fd = u32_at(&mem, 4) as i32;
    assert!(matches!(st.get(fd), Some(FdEntry::Socket(5))));
    assert!(matches!(sock_accept(&st, fd, 0, true), HostCall::Suspend(SuspendReason::SockAccept { sock: 5, new_fd_ptr: 0 })));
    assert!(matches!(sock_accept(&st, 0, 0, true), HostCall::Return(_)));
    assert!(matches!(ruos_tcp_dial(&mut st, &mut mem, (1, 1, 1, 1), 80, 4, 5, false, 64), HostCall::Return(8)));
    for slot in st.fds.iter_mut() {
        *slot = Some(FdEntry::StdoutConsole);
    }
    assert!(matches!(ruos_tcp_dial(&mut st, &mut mem, (1, 1, 1, 1), 80, 4, 5, true, 16), HostCall::Return(24)));
}

#[test]
fn path_calls_need_a_grant() {
    let st = state();
    let mem = b"mnt/a../../b";
    let gone = |r: HostCall| matches!(r, HostCall::Suspend(SuspendReason::PathUnlink { path }) if path == "/mnt/a");
    assert!(gone(path_unlink_file(&st, "/mnt", mem, 3, 0, 5)));
    assert!(gone(path_unlink_file(&st, "/", mem, 3, 0, 5)));
    assert!(matches!(path_unlink_file(&st, "/etc", mem, 3, 0, 5), HostCall::Return(76)));
    assert!(matches!(path_unlink_file(&st, "/mnt", mem, 3, 0, 3), HostCall::Suspend(_)));
    assert!(matches!(path_unlink_file(&st, "/mnt", mem, 3, 0, 2), HostCall::Return(76)));
    assert!(matches!(path_unlink_file(&st, "/mnt", mem, 3, 0, 50), HostCall::Exit(-1)));
    assert!(matches!(path_unlink_file(&st, "/mnt", &[0xff], 3, 0, 1), HostCall::Exit(-1)));
    let made = path_create_directory(&st, "/mnt", mem, 3, 0, 5);
    assert!(matches!(made, HostCall::Suspend(SuspendReason::PathMkdir { path }) if path == "/mnt/a"));
    assert!(matches!(path_create_directory(&st, "/x", mem, 3, 0, 5), HostCall::Return(76)));
    let left = path_remove_directory(&st, "/mnt", mem, 3, 0, 5);
    assert!(matches!(left, HostCall::Suspend(SuspendReason::PathRmdir { path }) if path == "/mnt/a"));
    assert!(matches!(path_remove_directory(&st, "/x", mem, 3, 0, 5), HostCall::Return(76)));
    let asked = path_filestat_get(&st, "/mnt", mem, 3, 0, 5, 8);
    assert!(matches!(asked, HostCall::Suspend(SuspendReason::PathFilestat { path, buf_ptr: 8 }) if path == "/mnt/a"));
    assert!(matches!(path_filestat_get(&st, "/x", mem, 3, 0, 5, 8), HostCall::Return(76)));
}

#[test]
fn both_paths_of_a_rename_need_a_grant() {
    let st = state();
    let mem = b"mnt/a/../../b\xff";
    let moved = path_rename(&st, "/", mem, 3, 0, 5, 3, 0, 13);
    assert!(matches!(moved, HostCall::Suspend(SuspendReason::PathRename { src, dst }) if src == "/mnt/a" && dst == "/b"));
    assert!(matches!(path_rename(&st, "/mnt", mem, 3, 0, 5, 3, 0, 13), HostCall::Return(76)));
    assert!(matches!(path_rename(&st, "/mnt", mem, 3, 0, 13, 3, 0, 5), HostCall::Return(76)));
    assert!(matches!(path_rename(&st, "/mnt", mem, 3, 0, 13, 3, 13, 1), HostCall::Return(76)));
    assert!(matches!(path_rename(&st, "/mnt", mem, 3, 0, 5, 3, 13, 1), HostCall::Exit(-1)));
}

#[test]
fn opening_stays_below_the_root() {
    let st = state();
    let mem = b"mnt/a/../../b\xff";
    let file = path_open(&st, "/mnt", mem, 3, 0, 5, 1, 64, 4);
    assert!(matches!(file, HostCall::Suspend(SuspendReason::PathOpen { path, flags, opened_fd_ptr: 4 })
        if path == "/mnt/a" && flags.write && flags.create && !flags.read && !flags.truncate));
    let dir = path_open(&st, "/mnt", mem, 3, 0, 5, 2, 0, 4);
    assert!(matches!(dir, HostCall::Suspend(SuspendReason::OpenDir { path, opened_fd_ptr: 4 }) if path == "/mnt/a"));
    assert!(matches!(path_open(&st, "/mnt", mem, 3, 0, 13, 0, 2, 4), HostCall::Return(76)));
    assert!(matches!(path_open(&st, "/mnt", mem, 3, -1, 5, 0, 2, 4), HostCall::Return(28)));
    assert!(matches!(path_open(&st, "/mnt", mem, 3, 0, 90, 0, 2, 4), HostCall::Return(21)));
    assert!(matches!(path_open(&st, "/mnt", mem, 3, 13, 1, 0, 2, 4), HostCall::Exit(-1)));
}

#[test]
fn programs_see_time_and_place() {
    let mut st = state();
    st.cwd = "/home".to_string();
    assert_eq!(ruos_chdir(&st, b"../tmp", 0, 6).ok(), Some("/tmp".to_string()));
    let mut mem = vec![0u8; 64];
    let t = DateTime { year: 2024, month: 2, day: 29, hour: 23, minute: 59, second: 58 };
    assert_eq!(ruos_time_get(&mut mem, [0, 8, 16, 24, 32, 40, 48], t, 1_709_251_198), 0);
    assert_eq!(u16::from_le_bytes([mem[0], mem[1]]), 2024);
    assert_eq!((mem[8], mem[16], mem[24], mem[32], mem[40]), (2, 29, 23, 59, 58));
    assert_eq!(u64::from_le_bytes(mem[48..56].try_into().unwrap()), 1_709_251_198);
    assert!(matches!(ruos_exec_pipeline(&st, &mem, 0, 2, 0, Some(0)), HostCall::Return(_) | HostCall::Exit(_)));
    let mut buf = [0u8; 2];
    assert_eq!(guest_read_into(&[1, 2, 3], 1, &mut buf), Ok(()));
    assert_eq!(buf, [2, 3]);
    assert_eq!(guest_read_into(&[1, 2, 3], 2, &mut buf), Err(21));
}

#[test]
fn tables_of_the_system_are_written() {
    let mut mem = vec![0u8; 256];
    assert_eq!(ruos_meminfo(&mut mem, 0, 9, FrameCounts { total: 7, used: 3 }), 0);
    assert_eq!((mem[0], mem[8], mem[16], mem[24]), (9, 0, 7, 3));
    let vendor = vec![u32::from_le_bytes(*b"Genu"), u32::from_le_bytes(*b"ineI"), u32::from_le_bytes(*b"ntel")];
    assert_eq!(ruos_cpuinfo(&mut mem, 8, 200, 0, &vendor, None, 4), 0);
    let n = u32_at(&mem, 0) as usize;
    assert_eq!(&mem[8..8 + n], b"GenuineIntel\0(no brand)\x004");
    let procs = vec![Proc { pid: 3, start_tick: 5, cpu_tsc: 6, mem_bytes: 7, name: "sh".to_string() }];
    assert_eq!(ruos_proc_list(&mut mem, 8, 200, 0, &procs), 0);
    assert!(u32_at(&mem, 0) > 0);
    assert_eq!(proc_stat(&mut mem, 8, 200, 0, &procs), 0);
    assert_eq!(sys_meminfo(&mut mem, 0, 9, FrameCounts { total: 7, used: 3 }), 0);
    assert_eq!(cpustat(&mut mem, 0, 44, 1000, &vec![(1, 2), (3, 4)]), 0);
    assert_eq!((mem[0], mem[12], mem[20], mem[28], mem[36]), (2, 1, 2, 3, 4));
    assert_eq!(cpustat(&mut mem, 0, 43, 1000, &vec![(1, 2), (3, 4)]), 8);
    let info = ServiceInfo {
        name: "a".to_string(),
        status: "s".to_string(),
        pid: None,
        runs: 0,
        path: "/p".to_string(),
    };
    assert!(matches!(ruos_service_list(&mut mem, 8, 200, 0, &vec![info]), HostCall::Return(0)));
    assert_eq!(ruos_unit_list(&mut mem, 8, 2, 0, &"abc".to_string()), 8);
    assert_eq!(ruos_unit_list(&mut mem, 8, 3, 0, &"abc".to_string()), 0);
}

#[test]
fn devices_are_listed_by_class() {
    assert_eq!(pci_class_name(1, 6, 0), "SATA controller");
    assert_eq!(pci_class_name(0x0c, 3, 0x30), "xHCI USB controller");
    let d = PciDevice { bus: 0, device: 3, function: 1, vendor_id: 0x8086, device_id: 0x100e, class: 2, subclass: 0, prog_if: 0 };
    let mut mem = vec![0u8; 128];
    assert_eq!(ruos_pci_list(&mut mem, 8, 100, 0, &vec![d]), 0);
    let n = u32_at(&mem, 0) as usize;
    assert_eq!(&mem[8..8 + n], b"00:03.1  8086:100e  02 00 00  Ethernet controller\n");
}

#[test]
fn terminal_settings_go_both_ways() {
    let st = state();
    let mut mem = vec![0u8; 16];
    assert_eq!(tcgetattr(&st, &mut mem, 0, 4, Some(1), &[1, 2, 3]), 0);
    assert_eq!(tcsetattr(&st, &mem, 0, 4, Some(1), 3), Ok((1, vec![1, 2, 3])));
    assert_eq!(tcsetattr(&st, &mem, 9, 4, Some(1), 3), Err(25));
    assert_eq!(tcgetattr(&st, &mut mem, 9, 4, Some(1), &[1]), 25);
}

#[test]
fn threads_of_a_group_are_counted() {
    let mut g = ThreadGroup::new();
    assert_eq!(g.spawn_fiber(0, 0), Entry::Main);
    assert_eq!(g.spawn_fiber(1, 77), Entry::Thread(1, 77));
    assert_eq!(g.exec_threaded(), None);
    assert!(!g.finish_fiber(1, 4));
    assert!(g.finish_fiber(0, 6));
    assert_eq!(g.exec_threaded(), Some(6));
    let mut g = ThreadGroup::new();
    let _ = g.spawn_fiber(0, 0);
    g.spawn_failed();
    assert!(g.exec_threaded().is_some());
    assert!(thread_environment(4).starts_with(b"RAYON_NUM_THREADS="));
}

#[test]
fn names_and_states_of_sockets() {
    assert_eq!(resolve_name(b"host.name", 0, 9), Some("host.name".to_string()));
    assert_eq!(resolve_name(&[0xff], 0, 1), None);
    assert_eq!(resolve_name(b"x", 0, 5), None);
    assert_eq!((state_result(1, Some(2)), state_result(1, None), state_result(-1, Some(2))), (2, -1, -1));
    let mut r = Resolves::new();
    let a = r.claim();
    r.release(a);
    assert_eq!(r.claim(), a);
}

#[test]
fn pages_and_locks() {
    assert_eq!(wasmtime_page_size(), 4096);
    assert_eq!(page_address(8192, 2), 16384);
    assert_eq!(wasmtime_mprotect(4097, 3), (2, 0x8000_0000_0000_0003));
    let plan = wasmtime_mmap_remap(0x7000, 4096, 1);
    assert_eq!((plan.pages, plan.flags, plan.lower, plan.map), (1, 0x8000_0000_0000_0001, true, true));
    assert_eq!(plan.base, 0x7000);
    assert!(!wasmtime_mmap_remap(0x7000, 4096, 0).map);
    assert_eq!(wasmtime_munmap(8193), 3);
    assert_eq!(wasmtime_sync_rwlock_read_release(2), 1);
    assert_eq!(wasmtime_sync_rwlock_write_release(RW_WRITER), 0);
}

#[test]
fn results_are_written_to_programs() {
    let mut mem = vec![0u8; 80];
    assert_eq!(fd_seek_done(&mut mem, Some(258), 8), 0);
    assert_eq!(mem[8..10], [2, 1]);
    assert_eq!(fd_seek_done(&mut mem, None, 8), 29);
    assert_eq!(path_filestat_done(&mut mem, Some(Stat { kind: VfsKind::Dir, size: 5 }), 0), 0);
    assert_eq!((mem[16], mem[32]), (3, 5));
    assert_ne!(path_filestat_done(&mut mem, None, 0), 0);
    assert_eq!(poll_done(&mut mem, 0, 40, &[9, 0, 0, 0, 0, 0, 0, 1]), 0);
    assert_eq!((mem[0], mem[7], u32_at(&mem, 40)), (9, 1, 1));
    assert_eq!(poll_done(&mut mem, 60, 40, &[0; 8]), 28);
    assert_eq!(gfx_blit(&[1, 2, 3], 1, 2), Ok(vec![2, 3]));
    assert!(gfx_blit(&[1, 2, 3], 2, 2).is_err());
    let mut q: VecDeque<GfxEvt> = VecDeque::new();
    poll_one(&mut q, &mut mem, 0);
    assert_eq!(mem[..20], [0; 20]);
}

#[test]
fn lists_are_records_of_fixed_size() {
    let snap = vec![TaskEntry { id: 7, flags: 2, title: "edit".to_string() }];
    let mut mem = vec![1u8; 64];
    assert_eq!(window_list(&snap, &mut mem, 0, 5), 1);
    assert_eq!(mem[..13], [7, 0, 0, 0, 2, 0, 0, 0, b'e', b'd', b'i', b't', 0]);
    assert_eq!((mem[31], mem[32]), (0, 1));
    assert_eq!(window_list(&snap, &mut mem, 0, 0), 0);
    let apps = vec![Manifest { id: "a".to_string(), title: "b".to_string() }];
    assert_eq!(app_list(&apps, &mut mem, 0, 9), 1);
    assert_eq!((mem[0], mem[1], mem[24], mem[25]), (b'a', 0, b'b', 0));
}

#[test]
fn windows_keep_what_was_asked() {
    let mut c = Compositor::new_empty();
    c.launch("w", Some(1), (800, 600));
    c.wins[0].state.wake_on_pty(3);
    assert!(c.frame_begin(0, true));
    c.wins[0].state.committed = true;
    c.wins[0].state.stay_awake();
    c.clear_damage();
    assert!(!c.wins[0].state.committed && !c.wins[0].state.stay_awake_request);
    c.set_target(0, 5, 6);
    assert_eq!((c.wins[0].state.target_w, c.wins[0].state.target_h), (5, 6));
    c.request_close(0);
    assert_eq!(c.reap().len(), 1);
    assert!(WmState::new(4).pixels.is_empty());
}

#[test]
fn catalog_is_refreshed_once_a_second() {
    let mut c = Catalog::new();
    let t = c.last_scan;
    assert!(!c.refresh_app_catalog(t + 99));
    assert!(c.refresh_app_catalog(t + 100));
    assert!(!c.refresh_app_catalog(t + 150));
}
