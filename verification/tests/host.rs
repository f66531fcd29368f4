//! Calls of interpreted programs.

use ruos::exec_queue::{exchange, ExecQueue};
use ruos::fiber::{
    after_wait, bind_fd, dispatch, entry_path, inject_socket, rebind_stdio_pty, role, run_ends, set_cwd, Answer, DirName, Progress, Role,
    VfsError,
};
use ruos::host::blob::{decode_argv, decode_pipeline};
use ruos::host::cwd::resolve_cwd;
use ruos::host::fd::{fd_close, fd_prestat_get, fd_read, fd_seek, fd_write};
use ruos::host::lifecycle::{args_get, args_sizes_get, clock_res_get, clock_time_get, environ_get, environ_sizes_get, poll_oneoff};
use ruos::host::mem::{check_bounds, guest_read, guest_write, guest_write_u32};
use ruos::host::net::{
    place_entry, ruos_net_dhcp_renew, ruos_net_iface, ruos_net_set_static, ruos_ping, tcp_dial_allowed, Cidr,
    Ethernet, Interfaces, Route,
};
use ruos::host::path::{grants, path_open, read_path, resolve_at};
use ruos::host::pci::{pci_class_name, ruos_pci_list, PciDevice};
use ruos::host::proc::{ruos_chdir_done, ruos_exec, ruos_readdir};
use ruos::host::random::random_get;
use ruos::host::service::{
    ruos_service_status, ruos_unit_reload, ruos_unit_status, service_done, service_name, ServiceError, ServiceInfo,
    ServiceQueue, UnitReq,
};
use ruos::host::smp::{hash_rounds, job_count, ruos_smp_bench, smp_report};
use ruos::host::state::{FdEntry, RuntimeState};
use ruos::host::sysinfo::{encode_meminfo, ruos_dmesg, ruos_proc_kill, ruos_uname, FrameCounts};
use ruos::host::term::{fd_to_pty, isatty};
use ruos::pipeline::{
    failure_code, pipeline_code, pipeline_refused, prepare_stage, stage_ends, post_and_wait, stage_wiring, JoinAll, PipelineQueue, StageFailure,
    PIPE_MAX_STAGES,
};
use ruos::shell::{boot_shell_args, pts_path, spawn_shell_on_pty, ReadAll};
use ruos::suspend::{HostCall, Stage, SuspendReason, TRAP};
use ruos::wasi::{Stat, VfsKind, Whence};
use std::collections::VecDeque;

const EINVAL: i32 = 28;
const EFAULT: i32 = 21;

fn state() -> RuntimeState {
    RuntimeState::new(Some(10), Some(11), Some(12))
}

fn errno_of(c: HostCall) -> i32 {
    match c {
        HostCall::Return(e) => e,
        HostCall::Exit(c) => panic!("exit {c}"),
        HostCall::Suspend(_) => panic!("suspended"),
    }
}

fn exits(c: HostCall) -> i32 {
    match c {
        HostCall::Exit(c) => c,
        _ => panic!("no exit"),
    }
}

fn waits(c: HostCall) -> SuspendReason {
    match c {
        HostCall::Suspend(r) => r,
        HostCall::Return(e) => panic!("errno {e}"),
        HostCall::Exit(c) => panic!("exit {c}"),
    }
}

fn u32_at(mem: &[u8], at: usize) -> u32 {
    u32::from_le_bytes([mem[at], mem[at + 1], mem[at + 2], mem[at + 3]])
}

#[test]
fn negative_ptr_or_len_rejected() {
    assert_eq!(check_bounds(-1, 0, 100), Err(EINVAL), "ptr=-1");
    assert_eq!(check_bounds(0, -1, 100), Err(EINVAL), "len=-1");
    assert_eq!(check_bounds(i32::MIN, 0, 100), Err(EINVAL), "ptr=i32::MIN");
    assert_eq!(check_bounds(0, i32::MIN, 100), Err(EINVAL), "len=i32::MIN");
}

#[test]
fn past_end_rejected() {
    assert_eq!(check_bounds(90, 20, 100), Err(EFAULT), "90+20>100");
    assert_eq!(check_bounds(100, 1, 100), Err(EFAULT), "100+1>100");
    assert_eq!(check_bounds(i32::MAX, i32::MAX, 10), Err(EFAULT), "MAX+MAX>10");
}

#[test]
fn zero_len_ok_at_boundary() {
    assert_eq!(check_bounds(100, 0, 100), Ok((100, 0)), "zero-len at exact end");
    assert_eq!(check_bounds(0, 0, 0), Ok((0, 0)), "zero-len zero-size");
}

#[test]
fn in_range_ok() {
    assert_eq!(check_bounds(0, 100, 100), Ok((0, 100)), "full range");
    assert_eq!(check_bounds(50, 50, 100), Ok((50, 50)), "mid range");
}

#[test]
fn never_panics_exhaustive_small() {
    for ptr in -5i32..200 {
        for len in -5i32..200 {
            for size in 0u64..200 {
                let _ = check_bounds(ptr, len, size);
            }
        }
    }
}

#[test]
fn what_is_written_is_read_back() {
    let mut mem = vec![0u8; 16];
    assert_eq!(guest_write(&mut mem, 4, &[1, 2, 3]), Ok(()));
    assert_eq!(guest_read(&mem, 4, 3), Ok(vec![1, 2, 3]));
    assert_eq!(guest_write(&mut mem, 14, &[1, 2, 3]), Err(EFAULT));
    assert_eq!(guest_write_u32(&mut mem, 8, 0x0403_0201), Ok(()));
    assert_eq!(mem[8..12], [1, 2, 3, 4]);
}

#[test]
fn paths_are_made_plain() {
    assert_eq!(resolve_cwd("/", "bin"), "/bin");
    assert_eq!(resolve_cwd("/a/b", "../c/./d"), "/a/c/d");
    assert_eq!(resolve_cwd("/a/b", "/x//y/"), "/x/y");
    assert_eq!(resolve_cwd("/a", "../../.."), "/");
    assert_eq!(resolve_cwd("/a/b", ""), "/a/b");
    let once = resolve_cwd("/a/b", "../c/./d");
    assert_eq!(resolve_cwd(&once, &once), once);
}

#[test]
fn argument_blobs_are_taken_apart() {
    let mut blob = vec![2, 0, 0, 0];
    blob.extend_from_slice(&[20, 0, 0, 0, 2, 0, 0, 0]);
    blob.extend_from_slice(&[22, 0, 0, 0, 1, 0, 0, 0]);
    blob.extend_from_slice(b"ls/");
    assert_eq!(decode_argv(&blob), Some(vec![b"ls".to_vec(), b"/".to_vec()]));
    assert_eq!(decode_argv(&blob[..22]), None);
    assert_eq!(decode_argv(&[0, 0, 0]), None);
    assert_eq!(decode_argv(&[0, 0, 0, 0]), Some(vec![]));
    assert!(decode_pipeline(&[1, 2]).is_none());
}

#[test]
fn pipelines_are_read_back() {
    let stages: [(&str, &[&[u8]]); 3] = [("/bin/l\u{e9}", &[b"ls", b"", b"-l"]), ("", &[]), ("/bin/wc", &[b"wc\xff"])];
    let mut blob = (stages.len() as u32).to_le_bytes().to_vec();
    let put = |out: &mut Vec<u8>, bytes: &[u8]| {
        out.extend_from_slice(&(bytes.len() as u32).to_le_bytes());
        out.extend_from_slice(bytes);
    };
    for (path, argv) in stages {
        put(&mut blob, path.as_bytes());
        blob.extend_from_slice(&(argv.len() as u32).to_le_bytes());
        for arg in argv {
            put(&mut blob, arg);
        }
    }
    let whole = blob.len();
    for tail in [0, 1, 9] {
        blob.resize(whole + tail, 7);
        let read = decode_pipeline(&blob).unwrap();
        assert_eq!(read.len(), 3);
        for (got, (path, argv)) in read.iter().zip(stages) {
            assert_eq!(got.path, path);
            assert_eq!(got.argv, argv.iter().map(|a| a.to_vec()).collect::<Vec<_>>());
        }
    }
    for k in 0..whole {
        assert!(decode_pipeline(&blob[..k]).is_none(), "cut at {k}");
    }
    assert_eq!(decode_pipeline(&[0, 0, 0, 0, 5]).map(|s| s.len()), Some(0));
}

#[test]
fn program_ends_with_the_code_it_asked_for() {
    assert_eq!(run_ends(Progress::Finished), Some(0));
    assert_eq!(run_ends(Progress::Stopped(Some(7))), Some(7));
    assert_eq!(run_ends(Progress::Stopped(None)), Some(-1));
    assert_eq!(run_ends(Progress::NoStart), Some(-1));
    assert_eq!(run_ends(Progress::Suspended), None);
    assert_eq!(run_ends(Progress::OutOfFuel), Some(137));
    assert_eq!(after_wait(5, false), Ok(5));
    assert_eq!(after_wait(5, true), Err(137));
}

#[test]
fn servers_and_clients_are_told_apart() {
    assert_eq!(role("/root/server.wasm"), Role::Server);
    assert_eq!(role("/root/client.wasm"), Role::Client);
    assert_eq!(role("/bin/ls.wasm"), Role::Plain);
    let mut st = state();
    inject_socket(&mut st, 9);
    assert!(matches!(st.fds[4], Some(FdEntry::Socket(9))));
}

#[test]
fn terminals_and_pipes_are_bound() {
    let mut st = state();
    assert_eq!(rebind_stdio_pty(&mut st, 0, Some(20)), Some(10));
    assert!(matches!(st.fds[0], Some(FdEntry::Vfs(20))));
    assert_eq!(bind_fd(&mut st, 1, 33), Some(11));
    assert!(matches!(st.fds[1], Some(FdEntry::Vfs(33))));
    assert_eq!(bind_fd(&mut st, 99, 33), None);
}

#[test]
fn sleep_wakes_with_one_event() {
    let mut st = state();
    let mut mem = vec![9u8; 64];
    let reason = SuspendReason::Sleep { ticks: 5, events_ptr: 0, nevents_ptr: 40 };
    assert_eq!(dispatch(&mut st, &mut mem, reason, Answer::Done), 0);
    assert_eq!(u32_at(&mem, 40), 1);
    assert_eq!(mem[..32], [0u8; 32]);
}

#[test]
fn opened_file_gets_a_descriptor() {
    let mut st = state();
    let mut mem = vec![0u8; 16];
    let reason = || SuspendReason::PathOpen {
        path: "/x".to_string(),
        flags: match waits(path_open(&state(), "/", b"x", 3, 0, 1, 0, 2, 0)) {
            SuspendReason::PathOpen { flags, .. } => flags,
            _ => panic!("no open"),
        },
        opened_fd_ptr: 4,
    };
    assert_eq!(dispatch(&mut st, &mut mem, reason(), Answer::Opened(77)), 0);
    let fd = u32_at(&mem, 4);
    assert!(matches!(st.get(fd as i32), Some(FdEntry::Vfs(77))));
    assert_eq!(dispatch(&mut st, &mut mem, reason(), Answer::Failed(VfsError::NotFound)), 44);
}

#[test]
fn accepted_socket_is_told_by_its_descriptor() {
    let mut st = state();
    inject_socket(&mut st, 3);
    let mut mem = vec![0u8; 8];
    let reason = SuspendReason::SockAccept { sock: 3, new_fd_ptr: 0 };
    assert_eq!(dispatch(&mut st, &mut mem, reason, Answer::Done), 0);
    assert_eq!(u32_at(&mem, 0), 4);
}

#[test]
fn directory_is_listed_in_records() {
    let mut st = state();
    let mut mem = vec![0u8; 64];
    let names = vec![DirName { name: "ab".to_string(), kind: VfsKind::Dir, size: 258 }];
    let reason = SuspendReason::ReadDir { path: "/".to_string(), buf_ptr: 0, buf_len: 32, nread_ptr: 40 };
    assert_eq!(dispatch(&mut st, &mut mem, reason, Answer::Names(names)), 0);
    assert_eq!(u32_at(&mem, 40), 14);
    assert_eq!(mem[..14], [1, 0, 2, 0, 2, 1, 0, 0, 0, 0, 0, 0, b'a', b'b']);
}

#[test]
fn descriptors_are_read_written_and_closed() {
    let mut st = state();
    let mut mem = vec![0u8; 64];
    mem[0] = 32;
    mem[4] = 3;
    mem[32..35].copy_from_slice(b"hey");
    let (_, call) = fd_write(&st, &mut mem, 1, 0, 1, 48, true);
    match waits(call) {
        SuspendReason::VfsWrite { fd, bytes, nwritten_ptr } => {
            assert_eq!((fd, bytes, nwritten_ptr), (11, b"hey".to_vec(), 48));
        }
        _ => panic!("no write"),
    }
    match waits(fd_read(&st, &mem, 0, 0, 1, 48, true)) {
        SuspendReason::VfsRead { fd, buf_ptr, max_len, nread_ptr } => {
            assert_eq!((fd, buf_ptr, max_len, nread_ptr), (10, 32, 3, 48));
        }
        _ => panic!("no read"),
    }
    match waits(fd_seek(&st, 2, -4, 2, 8)) {
        SuspendReason::VfsSeek { fd, offset, whence, newoffset_ptr } => {
            assert_eq!((fd, offset, newoffset_ptr), (12, -4, 8));
            assert!(matches!(whence, Whence::End));
        }
        _ => panic!("no seek"),
    }
    assert_eq!(errno_of(fd_seek(&st, 2, 0, 9, 8)), EINVAL);
    assert!(matches!(waits(fd_close(&mut st, 2)), SuspendReason::VfsClose { fd: 12 }));
    assert!(st.get(2).is_none());
    assert_eq!(errno_of(fd_close(&mut st, 2)), 8);
    assert_eq!(errno_of(fd_prestat_get(&mut mem, 5, 0)), 8);
}

#[test]
fn arguments_are_laid_out() {
    let mut st = state();
    st.args = vec![b"ls".to_vec(), b"-l".to_vec()];
    let mut mem = vec![0u8; 64];
    assert_eq!(args_sizes_get(&st, &mut mem, 0, 4), 0);
    assert_eq!((u32_at(&mem, 0), u32_at(&mem, 4)), (2, 6));
    assert_eq!(args_get(&st, &mut mem, 16, 32), 0);
    assert_eq!((u32_at(&mem, 16), u32_at(&mem, 20)), (32, 35));
    assert_eq!(&mem[32..38], b"ls\0-l\0");
    assert_eq!(environ_sizes_get(&st, &mut mem, 0, 4), 0);
    assert_eq!((u32_at(&mem, 0), u32_at(&mem, 4)), (0, 0));
}

#[test]
fn child_is_told_its_directory() {
    let mut st = state();
    st.env = vec![b"PWD=/old".to_vec(), b"A=1".to_vec()];
    set_cwd(&mut st, "/mnt".to_string());
    assert_eq!(st.cwd, "/mnt");
    assert_eq!(st.env, vec![b"A=1".to_vec(), b"PWD=/mnt".to_vec()]);
    let mut mem = vec![0u8; 64];
    assert_eq!(environ_sizes_get(&st, &mut mem, 0, 4), 0);
    assert_eq!((u32_at(&mem, 0), u32_at(&mem, 4)), (2, 13));
    assert_eq!(environ_get(&st, &mut mem, 16, 32), 0);
    assert_eq!((u32_at(&mem, 16), u32_at(&mem, 20)), (32, 36));
    assert_eq!(&mem[32..45], b"A=1\0PWD=/mnt\0");
    assert_ne!(environ_get(&st, &mut mem, 16, 60), 0);
}

#[test]
fn console_shows_text_and_counts_everything() {
    let mut st = state();
    st.fds[1] = Some(FdEntry::StdoutConsole);
    let mut mem = vec![0u8; 64];
    mem[0] = 32;
    mem[4] = 2;
    mem[8] = 34;
    mem[12] = 1;
    mem[32..35].copy_from_slice(&[b'h', b'i', 0xff]);
    let (shown, call) = fd_write(&st, &mut mem, 1, 0, 2, 48, true);
    assert_eq!(errno_of(call), 0);
    assert_eq!(shown, vec!["hi".to_string()]);
    assert_eq!(u32_at(&mem, 48), 3);
    let (shown, call) = fd_write(&st, &mut mem, 9, 0, 2, 48, true);
    assert_eq!((shown.len(), errno_of(call)), (0, 8));
}

#[test]
fn program_stays_in_what_it_may_reach() {
    assert!(grants("/", "/etc/passwd"));
    assert!(grants("/mnt", "/mnt") && grants("/mnt", "/mnt/a/b"));
    assert!(!grants("/mnt", "/mnt2") && !grants("/mnt", "/") && !grants("/mnt", "/etc"));
    assert!(!grants("/mnt", &resolve_cwd("/mnt", "../etc")));
    assert_eq!(errno_of(path_open(&state(), "/mnt", b"mnt/..", 3, 0, 6, 0, 2, 0)), 76);
}

#[test]
fn listed_names_have_paths() {
    assert_eq!(entry_path("/", "bin"), "/bin");
    assert_eq!(entry_path("/mnt", "a"), "/mnt/a");
}

#[test]
fn clocks_count_ticks_of_ten_milliseconds() {
    let mut mem = vec![0u8; 16];
    assert_eq!(errno_of(clock_time_get(&mut mem, 0, 3)), 0);
    assert_eq!(u64::from_le_bytes(mem[0..8].try_into().unwrap()), 30_000_000);
    assert_eq!(errno_of(clock_res_get(&mut mem, 0)), 0);
    assert_eq!(u64::from_le_bytes(mem[0..8].try_into().unwrap()), 10_000_000);
    assert_eq!(exits(clock_res_get(&mut mem, 12)), TRAP);
    let mut sub = vec![0u8; 48];
    sub[24..32].copy_from_slice(&25_000_000u64.to_le_bytes());
    match waits(poll_oneoff(&sub, 0, 8, 1, 16, 100)) {
        SuspendReason::Sleep { ticks, events_ptr, nevents_ptr } => {
            assert_eq!((ticks, events_ptr, nevents_ptr), (3, 8, 16));
        }
        _ => panic!("no sleep"),
    }
}

#[test]
fn interface_is_listed_with_dotted_addresses() {
    let net = Some(Interfaces {
        lo: vec![Cidr { addr: [127, 0, 0, 1], prefix: 8 }],
        eth: Some(Ethernet {
            addrs: vec![Cidr { addr: [10, 0, 2, 15], prefix: 24 }],
            mac: [0x52, 0x54, 0, 0x12, 0x34, 0x56],
            routes: vec![Route { prefix: 0, via: [10, 0, 2, 2] }],
        }),
    });
    let mut mem = vec![0u8; 512];
    assert_eq!(ruos_net_iface(&mut mem, 8, 500, 0, &net), 0);
    let n = u32_at(&mem, 0) as usize;
    let text = String::from_utf8(mem[8..8 + n].to_vec()).unwrap();
    assert!(text.contains("127.0.0.1/8"), "{text}");
    assert!(text.contains("10.0.2.15/24"), "{text}");
    assert!(text.contains("52:54:00:12:34:56"), "{text}");
    assert!(text.contains("10.0.2.2"), "{text}");
}

#[test]
fn static_addresses_are_checked() {
    let ok = ruos_net_set_static((10, 0, 0, 1), 24, (10, 0, 0, 254), 1, true);
    match ok {
        Ok(a) => {
            assert_eq!((a.cidr.addr, a.cidr.prefix, a.gw), ([10, 0, 0, 1], 24, Some([10, 0, 0, 254])));
        }
        Err(e) => panic!("{e}"),
    }
    assert!(matches!(ruos_net_set_static((10, 0, 0, 1), 33, (0, 0, 0, 0), 0, true), Err(22)));
    assert!(matches!(ruos_net_set_static((10, 0, 0, 1), 24, (0, 0, 0, 0), 0, false), Err(8)));
    assert_eq!(ruos_net_dhcp_renew(false, false).0, 8);
    assert!(matches!(waits(ruos_ping((1, 2, 3, 4), 1000, 8)), SuspendReason::Ping { target: [1, 2, 3, 4], .. }));
    assert_eq!(tcp_dial_allowed(&state(), 0, 8), 22);
    let mut st = state();
    let at = place_entry(&mut st, 3, FdEntry::Socket(1));
    assert_eq!(at, 3);
}

#[test]
fn paths_of_programs_are_read() {
    let st = state();
    assert_eq!(resolve_at(&st, 3, "etc/x"), "/etc/x");
    assert_eq!(read_path(&st, b"etc/x", 3, 0, 5).ok(), Some("/etc/x".to_string()));
    assert!(read_path(&st, &[0xff, 0xfe], 3, 0, 2).is_err());
    assert!(read_path(&st, b"x", 3, 0, 5).is_err());
}

#[test]
fn pci_devices_have_names() {
    assert_eq!(pci_class_name(0x01, 0x06, 0x01), pci_class_name(0x01, 0x06, 0x01));
    let devices =
        vec![PciDevice { bus: 0, device: 3, function: 0, vendor_id: 0x8086, device_id: 0x100e, class: 2, subclass: 0, prog_if: 0 }];
    let mut mem = vec![0u8; 256];
    assert_eq!(ruos_pci_list(&mut mem, 8, 200, 0, &devices), 0);
    let n = u32_at(&mem, 0) as usize;
    let text = String::from_utf8_lossy(&mem[8..8 + n]).to_string();
    assert!(text.contains("8086") && text.contains("100e"), "{text}");
}

#[test]
fn programs_run_others_and_change_directory() {
    let st = state();
    let mem = b"/bin/ls\0\0\0\0".to_vec();
    match waits(ruos_exec(&st, &mem, 0, 7, 7, 4, 16, Some(2))) {
        SuspendReason::Exec { path, argv, cwd, term_pts, exit_code_ptr } => {
            assert_eq!((path.as_str(), argv.len(), cwd.as_str(), term_pts, exit_code_ptr), ("/bin/ls", 0, "/", 2, 16));
        }
        _ => panic!("no exec"),
    }
    let mut st = state();
    assert_eq!(ruos_chdir_done(&mut st, "/tmp".to_string(), Some(VfsKind::Dir)), 0);
    assert_eq!(st.cwd, "/tmp");
    assert_ne!(ruos_chdir_done(&mut st, "/x".to_string(), Some(VfsKind::Reg)), 0);
    assert_ne!(ruos_chdir_done(&mut st, "/x".to_string(), None), 0);
    assert_eq!(st.cwd, "/tmp");
    assert!(matches!(waits(ruos_readdir(&st, b"a", 0, 1, 0, 8, 0)), SuspendReason::ReadDir { .. }));
}

#[test]
fn random_bytes_fill_the_buffer() {
    let mut mem = vec![0u8; 8];
    assert_eq!(random_get(&mut mem, 2, 3, &[7, 8, 9]), 0);
    assert_eq!(mem, vec![0, 0, 7, 8, 9, 0, 0, 0]);
    assert_ne!(random_get(&mut mem, 6, 3, &[7, 8, 9]), 0);
}

#[test]
fn services_are_listed_and_refused() {
    let info = ServiceInfo {
        name: "net".to_string(),
        status: "running".to_string(),
        pid: Some(4),
        runs: 2,
        path: "/bin/net.wasm".to_string(),
    };
    let mut mem = vec![0u8; 128];
    assert_eq!(errno_of(ruos_service_status(&mut mem, 8, 100, 0, Some(&info))), 0);
    let n = u32_at(&mem, 0) as usize;
    let text = String::from_utf8_lossy(&mem[8..8 + n]).to_string();
    assert!(text.starts_with("net\trunning\t4\t2\t"), "{text}");
    assert_eq!(errno_of(ruos_service_status(&mut mem, 8, 2, 0, Some(&info))), 8);
    assert_eq!(service_done(Err(ServiceError::NotFound)), 1);
    assert_eq!(service_done(Err(ServiceError::Already)), 2);
    assert_eq!(service_done(Err(ServiceError::NotSupported)), 3);
    assert_eq!(service_done(Err(ServiceError::Internal)), 99);
    assert_eq!(service_done(Ok(())), 0);
    assert_eq!(service_name(b"net", 0, 3).ok(), Some("net".to_string()));
    assert!(service_name(&[0xc0], 0, 1).is_err());
    assert_eq!(ruos_unit_status(&mut mem, 8, 100, 0, None), 1);
    let mut q = ServiceQueue { pending: VecDeque::new() };
    assert_eq!(ruos_unit_reload(&mut q), 0);
    assert_eq!(q.pending.pop_front(), Some(UnitReq::Reload));
}

#[test]
fn hashes_and_jobs_are_counted() {
    let mut h: u64 = 0xcbf2_9ce4_8422_2325;
    for _ in 0..3 {
        for b in [1u64, 2] {
            h = (h ^ b).wrapping_mul(0x100_0000_01b3);
        }
        h = h.rotate_left(13).wrapping_add(0x9e37_79b9_7f4a_7c15);
    }
    assert_eq!(hash_rounds(&[1, 2], 3), h);
    assert_eq!((job_count(0), job_count(3), job_count(20)), (4, 6, 16));
    let line = smp_report(100, 250, &vec![2, 0, 2]);
    assert_eq!(String::from_utf8(line).unwrap(), "parallel=100ms sequential=250ms speedup=2.50x cores=[0,2]");
    let mut mem = vec![0u8; 16];
    assert_eq!(ruos_smp_bench(&mut mem, 4, 9, 0, 100, 250, &vec![2, 0, 2]), 0);
    assert_eq!((u32_at(&mem, 0), &mem[4..14]), (9, &b"parallel=\0"[..]));
}

#[test]
fn system_information_is_encoded() {
    let mut mem = vec![0u8; 128];
    assert_eq!(ruos_uname(&mut mem, 8, 100, 0), 0);
    let n = u32_at(&mem, 0) as usize;
    assert_eq!(&mem[8..8 + n], b"ruos\0ruos\x000.1.0\0wasm-userland\0x86_64");
    let b = encode_meminfo(0x100, FrameCounts { total: 4, used: 1 });
    assert_eq!(b.len() % 8, 0);
    assert_eq!(b[0..8], 0x100u64.to_le_bytes());
    assert_eq!(ruos_dmesg(&mut mem, 8, 3, 0, b"log"), 0);
    assert_eq!(ruos_proc_kill(true), 0);
    assert_ne!(ruos_proc_kill(false), 0);
}

#[test]
fn terminals_are_recognised() {
    let st = state();
    assert_eq!(fd_to_pty(&st, 0, Some(3)), Some(3));
    assert_eq!(fd_to_pty(&st, 9, Some(3)), None);
    assert_eq!(isatty(&st, 0, Some(3)), 1);
    assert_eq!(isatty(&st, 9, Some(3)), 0);
}

#[test]
fn exec_request_is_handed_over_and_answered() {
    let mut q = ExecQueue::new();
    let mut wait = q.post_and_wait("/bin/ls".to_string(), vec![b"ls".to_vec()], "/".to_string(), 1);
    let (slot, code) = exchange(&mut q, &mut wait, 3);
    assert_eq!(slot.map(|s| s.path), Some("/bin/ls".to_string()));
    assert_eq!(code, Some(3));
}

#[test]
fn pipeline_is_wired_end_to_end() {
    assert_eq!(pipeline_refused(0), Some(0));
    assert_eq!(pipeline_refused(PIPE_MAX_STAGES + 1), Some(1));
    assert_eq!(pipeline_refused(2), None);
    let pipes = vec![(1, 2), (3, 4)];
    assert_eq!(stage_wiring(&pipes, 3, 0), (None, Some(2)));
    assert_eq!(stage_wiring(&pipes, 3, 1), (Some(1), Some(4)));
    assert_eq!(stage_wiring(&pipes, 3, 2), (Some(3), None));
    assert_eq!(failure_code(StageFailure::Read), 127);
    assert_eq!(failure_code(StageFailure::Instantiate), 126);
    assert_eq!(pipeline_code(&vec![1, 2, 3]), 3);
    assert_eq!(pipeline_code(&vec![]), 0);
    let mut q = PipelineQueue::new();
    let mut f = post_and_wait(vec![Stage { path: "/a".to_string(), argv: vec![] }], "/".to_string(), 0);
    assert_eq!(f.poll(&mut q).0, None);
    assert_eq!(q.take().map(|r| r.stages.len()), Some(1));
    q.finish(9);
    assert_eq!(f.poll(&mut q).0, Some(9));
}

#[test]
fn stage_reads_and_writes_pipes_and_keeps_the_terminal() {
    let mut st = state();
    let closes = prepare_stage(
        &mut st,
        vec![b"wc".to_vec()],
        "/mnt".to_string(),
        (Some(20), Some(21), Some(22)),
        Some(30),
        None,
    );
    assert_eq!(closes, vec![10, 11, 12, 20]);
    assert!(matches!(st.get(0), Some(FdEntry::Vfs(30))));
    assert!(matches!(st.get(1), Some(FdEntry::Vfs(21))));
    assert!(matches!(st.get(2), Some(FdEntry::Vfs(22))));
    assert_eq!((st.args, st.cwd), (vec![b"wc".to_vec()], "/mnt".to_string()));
    assert_eq!(st.env, vec![b"PWD=/mnt".to_vec()]);
    assert_eq!(stage_ends(Some(30), None), vec![30]);
}

#[test]
fn stages_are_waited_for_together() {
    let mut j = JoinAll::new(2);
    assert!(!j.poll(&vec![Some(4), None]));
    assert!(j.poll(&vec![Some(9), Some(5)]));
    assert_eq!(j.codes, vec![4, 5]);
}

#[test]
fn shells_are_started() {
    let s = spawn_shell_on_pty(3);
    assert_eq!((s.idx, s.path.as_str()), (3, "/bin/shell.wasm"));
    assert_eq!(pts_path(12), b"/dev/pts/12".to_vec());
    assert_eq!(boot_shell_args(true), vec![b"/bin/shell.wasm".to_vec()]);
    assert_eq!(boot_shell_args(false), vec![b"shell".to_vec(), b"--no-init".to_vec()]);
}

#[test]
fn file_is_read_whole_or_padded() {
    let mut f = ReadAll::new(5);
    assert_eq!(f.missing(), 5);
    assert!(f.got(&[1, 2]));
    assert!(f.got(&[3]));
    assert!(!f.got(&[]));
    assert_eq!(f.buf, vec![1, 2, 3, 0, 0]);
    let mut g = ReadAll::new(2);
    assert!(!g.got(&[1, 2]));
    assert_eq!(g.missing(), 0);
}

#[test]
fn file_status_is_written() {
    let mut st = state();
    let mut mem = vec![0xffu8; 80];
    let reason = SuspendReason::PathFilestat { path: "/x".to_string(), buf_ptr: 8 };
    let stat = Stat { kind: VfsKind::Reg, size: 300 };
    assert_eq!(dispatch(&mut st, &mut mem, reason, Answer::Stat(stat)), 0);
    assert_eq!(mem[8 + 16], 4);
    assert_eq!(u64::from_le_bytes(mem[40..48].try_into().unwrap()), 300);
}
