//! Windows: their life, input, what programs ask for, and what is composed.

use ruos::tools::reactor::SURFACE;
use ruos::wt::bands::{cores_of, dispatch_bands, split_bands, take_composite_core_mask, CoreMask};
use ruos::wt::boot::{
    asks_once, echo_args, egui_demo_self_test, epoch_tick, frame_deadline, gate_self_test, initial_program,
    lifecycle_self_test, plan_artifact, plan_cwasm, recycled_window_id, run_bringup_demo, run_compositor_gate,
    run_cwasm, run_echo_demo, run_egui_demo_demo, run_hello_demo, run_lifecycle_demo, run_reactor_spike,
    run_registry_demo, run_spc_demo, run_spd_demo, run_spin_demo, run_threads_gate1, run_watchdog_demo,
    run_wm_logic_selftest, spc_self_test, spd_self_test, viewer_self_test, wasip1_probe_self_test, Artifact,
    ComponentEnd, CompositorMailbox, CwasmEnd, Initial, Plan, Surface,
};
use ruos::wt::catalog::{
    app_dirs, app_path, extract_manifest, parse_manifest, present_apps, read_app_bytes, Catalog, DirEntry, Listing,
    Manifest,
};
use ruos::wt::compose::{composite_band, shadow_alpha, WinDesc};
use ruos::wt::cycle::marker_due;
use ruos::wt::decor::fill_rect;
use ruos::wt::group::CoreRole;
use ruos::wt::lifecycle::should_wake;
use ruos::wt::lists::{app_list, window_list};
use ruos::wt::modules::ModuleCache;
use ruos::wt::window::{pack_size, GfxEvt, WmState};
use ruos::wt::wm::Compositor;

const GEOM: (u32, u32) = (1000, 800);

fn desk(n: usize) -> Compositor {
    let mut c = Compositor::new_empty();
    for i in 0..n {
        c.launch(&format!("w{i}"), Some(100 + i as u32), GEOM);
    }
    c
}

fn draw(c: &mut Compositor, i: usize, w: u32, h: u32, v: u8) {
    let px = vec![v; (w * h * 4) as usize];
    c.frame_begin(i, false);
    c.wins[i].state.commit(&px, 0, px.len() as u32, w, h);
    c.frame_end(i, false);
}

fn button(p1: u32) -> GfxEvt {
    GfxEvt { kind: 2, p0: 0, p1, p2: 0 }
}

fn motion() -> GfxEvt {
    GfxEvt { kind: 1, p0: 0, p1: 0, p2: 0 }
}

#[test]
fn windows_cascade_and_are_limited() {
    let mut c = desk(3);
    assert_eq!(c.wins[0].rect, (40, 40, 320, 240));
    assert_eq!(c.wins[2].rect, (96, 96, 320, 240));
    assert!(c.wins[2].focused && !c.wins[0].focused);
    for _ in 0..5 {
        assert!(c.launch("x", Some(1), GEOM).is_some());
    }
    assert_eq!(c.live(), 8);
    assert_eq!(c.launch("x", Some(1), GEOM), None);
    assert_eq!(desk(0).launch("bad", None, GEOM), None);
}

#[test]
fn closed_windows_are_reaped_and_ids_come_back() {
    let mut c = desk(3);
    c.wins[1].state.wake_on_pty(3);
    c.wins[1].state.close();
    let gone = c.begin_frame();
    assert_eq!(gone.len(), 1);
    assert_eq!((gone[0].id, gone[0].pid, gone[0].state.wake_pty), (1, 101, 3));
    assert_eq!(c.wins.iter().map(|w| w.id).collect::<Vec<_>>(), vec![0, 2]);
    assert_eq!(c.launch("again", Some(9), GEOM), Some(1));
    assert_eq!(c.frame_no, 1);
}

#[test]
fn trapped_program_loses_its_window() {
    let mut c = desk(1);
    c.frame_begin(0, false);
    c.frame_end(0, true);
    assert_eq!(c.reap().len(), 1);
    assert!(c.wins.is_empty());
}

#[test]
fn first_surface_settles_the_size() {
    let mut c = desk(1);
    draw(&mut c, 0, 480, 320, 1);
    assert_eq!(c.wins[0].rect, (40, 40, 480, 320));
    assert_eq!(c.wins[0].state.window_size(), pack_size(480, 320));
    draw(&mut c, 0, 100, 100, 1);
    assert_eq!(c.wins[0].rect, (40, 40, 480, 320));
}

#[test]
fn programs_wake_for_a_reason() {
    assert!(should_wake(false, false, false, 100, 0, 6, false));
    assert!(!should_wake(true, false, false, 100, 0, 6, false));
    assert!(should_wake(true, true, false, 100, 0, 6, false));
    assert!(should_wake(true, false, true, 100, 0, 6, false));
    assert!(should_wake(true, false, false, 100, 0, 6, true));
    assert!(should_wake(true, false, false, 100, 95, 6, false));
    assert!(!should_wake(true, false, false, 100, 94, 6, false));
    assert!(should_wake(true, false, false, 2, u32::MAX, 6, false));
}

#[test]
fn idle_windows_sleep_and_busy_ones_wake() {
    let mut c = desk(1);
    draw(&mut c, 0, 20, 20, 1);
    let mut runs = 0;
    for _ in 0..20 {
        c.begin_frame();
        c.clear_damage();
        if c.frame_begin(0, false) {
            runs += 1;
            c.frame_end(0, false);
        }
    }
    assert_eq!(runs, 5);
    c.wins[0].state.wake_on_pty(1);
    assert!(c.frame_begin(0, true));
    assert_eq!(c.wins[0].last_active_frame, c.frame_no);
}

#[test]
fn program_that_asks_every_frame_stays_awake() {
    let mut c = desk(1);
    draw(&mut c, 0, 20, 20, 1);
    for _ in 0..20 {
        c.begin_frame();
        c.clear_damage();
        assert!(c.frame_begin(0, false));
        c.wins[0].state.stay_awake();
        c.frame_end(0, false);
    }
}

#[test]
fn press_brings_the_window_forward() {
    let mut c = desk(2);
    assert_eq!(c.window_at(45, 45), Some(0));
    assert_eq!(c.window_at(200, 200), Some(1));
    assert!(c.on_event(button(1), 45, 45, false, GEOM));
    assert_eq!(c.wins[1].id, 0);
    assert!(c.wins[1].focused);
    let events: Vec<GfxEvt> = c.wins[1].state.events.iter().copied().collect();
    assert_eq!(events.len(), 2);
    assert_eq!((events[0].kind, events[0].p0, events[0].p1), (1, 5.0f32.to_bits(), 5.0f32.to_bits()));
    assert_eq!((events[1].kind, events[1].p1), (2, 1));
    assert!(!c.on_event(button(0), 45, 45, true, GEOM));
    assert_eq!(c.wins[1].state.events.len(), 4);
}

#[test]
fn keys_reach_the_focus_alone() {
    let mut c = desk(2);
    let key = GfxEvt { kind: 0, p0: 65, p1: 1, p2: 0 };
    c.on_event(key, 0, 0, false, GEOM);
    assert_eq!(c.wins[1].state.events.front(), Some(&key));
    assert!(c.wins[0].state.events.is_empty());
}

#[test]
fn dragged_window_follows_the_cursor() {
    let mut c = desk(1);
    c.wins[0].state.start_move();
    c.answer_moves(50, 60);
    let d = c.drag.unwrap();
    assert_eq!((d.win_id, d.grab_dx, d.grab_dy), (0, 10, 20));
    c.on_event(motion(), 250, 160, true, GEOM);
    assert_eq!(c.wins[0].rect, (240, 140, 320, 240));
    assert!(c.wins[0].state.events.is_empty());
    c.on_event(button(0), 250, 160, true, GEOM);
    assert!(c.drag.is_none());
}

#[test]
fn bare_desktop_belongs_to_the_background() {
    let mut c = desk(2);
    c.wins[0].state.set_background();
    c.answer_backgrounds();
    assert_eq!(c.bg_index(), Some(0));
    c.on_event(button(1), 900, 700, false, GEOM);
    assert_eq!(c.wins[0].state.events.len(), 2);
    assert!(c.wins[1].focused && !c.wins[0].focused);
}

#[test]
fn controls_hide_maximize_and_restore() {
    let mut c = desk(2);
    draw(&mut c, 1, 320, 240, 1);
    c.wins[1].state.toggle_maximize();
    c.answer_controls(GEOM);
    assert_eq!(c.wins[1].rect, (0, 32, 1000, 768));
    c.wins[1].state.toggle_maximize();
    c.answer_controls(GEOM);
    assert_eq!(c.wins[1].rect, (68, 68, 320, 240));
    c.wins[1].state.minimize();
    c.answer_controls(GEOM);
    assert!(c.wins[1].minimized && c.wins[0].focused);
    c.activate_all(&[1]);
    let top = c.wins.len() - 1;
    assert!(!c.wins[top].minimized && c.wins[top].id == 1 && c.wins[top].focused);
}

#[test]
fn frame_ends_with_tasks_and_layers() {
    let mut c = desk(2);
    c.wins[0].state.set_background();
    c.answer_backgrounds();
    draw(&mut c, 0, 10, 10, 1);
    draw(&mut c, 1, 20, 20, 2);
    c.wins[1].state.activate(1);
    let end = c.end_frame(0, 0, GEOM);
    assert_eq!(end.tasks.len(), 1);
    assert_eq!((end.tasks[0].id, end.tasks[0].flags, end.tasks[0].title.as_str()), (1, 2, "w1"));
    let layers = end.layers.unwrap();
    assert_eq!(layers.len(), 2);
    assert_eq!((layers[0].win, layers[0].x, layers[0].y, layers[0].w, layers[0].shadow), (0, 0, 0, 10, false));
    assert_eq!((layers[1].win, layers[1].x, layers[1].w, layers[1].shadow), (1, 68, 20, true));
    assert_eq!(c.wins[0].rect, (0, 0, 1000, 800));
    assert!(!c.dirty);
}

#[test]
fn idle_frame_is_not_composed() {
    let mut c = desk(1);
    c.frame_no = 90;
    assert!(c.end_frame(0, 0, GEOM).layers.is_some());
    assert!(c.end_frame(0, 0, GEOM).layers.is_none());
    c.frame_no = 89;
    assert!(c.end_frame(0, 0, GEOM).layers.is_some());
    assert!(marker_due(30, false) && !marker_due(29, false) && !marker_due(31, true));
}

#[test]
fn launches_are_collected_in_order() {
    let mut c = desk(2);
    c.wins[1].state.spawn(b"calc", 0, 4);
    c.wins[0].state.spawn(b"edit", 0, 4);
    c.wins[0].state.spawn(&[0xff], 0, 1);
    assert_eq!(c.take_launches(), vec!["edit".to_string(), "calc".to_string()]);
    assert!(c.take_launches().is_empty());
}

#[test]
fn events_are_polled_in_order() {
    let mut w = WmState::new(3);
    w.events.push_back(GfxEvt { kind: 7, p0: 1, p1: 2, p2: 3 });
    let mut mem = vec![9u8; 20];
    w.poll_event(&mut mem, 0);
    assert_eq!(mem, vec![1, 0, 0, 0, 7, 0, 0, 0, 1, 0, 0, 0, 2, 0, 0, 0, 3, 0, 0, 0]);
    w.poll_event(&mut mem, 0);
    assert_eq!(mem, vec![0; 20]);
}

#[test]
fn boot_checks_hold() {
    assert_eq!(lifecycle_self_test(Some(1)), (1, 1, 0));
    assert_eq!(lifecycle_self_test(None), (0, 0, 0));
    assert_eq!(run_lifecycle_demo(Some(1)), (1, 1, 0));
    assert_eq!(recycled_window_id(Some(1)), Some(0));
    assert_eq!(wasip1_probe_self_test(Some(1)), 307_200);
    assert_eq!(wasip1_probe_self_test(None), 0);
    assert_eq!(run_watchdog_demo(Some((1, 2))), (true, 8));
    assert_eq!(run_watchdog_demo(None), (false, 0));
    assert_eq!(run_reactor_spike(true), (5, 5, SURFACE as usize));
    assert_eq!(run_reactor_spike(false), (0, 0, 0));
    assert_eq!(run_wm_logic_selftest(), 0b11);
    assert_eq!(run_registry_demo(&vec![true, false, true]), (3, 2));
}

#[test]
fn background_checks_hold() {
    assert_eq!(spc_self_test(Some(1), Some(2), (0, 0)), 0b11);
    assert_eq!(run_spc_demo(Some(1), None, GEOM), 0b10);
    assert_eq!(spc_self_test(None, Some(2), GEOM), 0);
    assert_eq!(spd_self_test(Some(1), (0, 0)), (1280i64 << 32) | 800);
    assert_eq!(run_spd_demo(Some(1), GEOM), (1000i64 << 32) | 800);
    assert_eq!(spd_self_test(None, GEOM), 0);
}

#[test]
fn surfaces_are_counted() {
    let s = |n: usize| Some(Surface { pixels: vec![1; n], w: 480, h: 320 });
    assert_eq!(egui_demo_self_test(Some(1), &s(614_400)), 614_400);
    assert_eq!(run_egui_demo_demo(None, &s(614_400)), 0);
    assert_eq!(gate_self_test(Some(1), &None), 0);
    assert_eq!(viewer_self_test(Some(1), &s(8), &s(16)), 16);
    assert_eq!(viewer_self_test(Some(1), &s(8), &None), 8);
}

#[test]
fn programs_end_with_codes() {
    assert_eq!(run_cwasm(CwasmEnd::NoProvider), 127);
    assert_eq!(run_cwasm(CwasmEnd::NotLoaded), 126);
    assert_eq!(run_cwasm(CwasmEnd::TuiTrapped), 134);
    assert_eq!(run_cwasm(CwasmEnd::TuiReturned(4)), 4);
    assert_eq!(run_echo_demo(CwasmEnd::Ran(Some(5))), 5);
    assert_eq!(run_spin_demo(CwasmEnd::Ran(None)), 0);
    assert_eq!(run_bringup_demo(ComponentEnd::NotLoaded), -1);
    assert_eq!(run_bringup_demo(ComponentEnd::NotLinked), -2);
    assert_eq!(run_bringup_demo(ComponentEnd::NotInstantiated), -3);
    assert_eq!(run_bringup_demo(ComponentEnd::Trapped), -4);
    assert_eq!(run_bringup_demo(ComponentEnd::Returned(6)), 6);
    assert!(run_hello_demo(Some(&vec![1, 42])));
    assert!(!run_hello_demo(Some(&vec![41])) && !run_hello_demo(None));
    assert!(run_threads_gate1(Some(42)) && !run_threads_gate1(Some(41)) && !run_threads_gate1(None));
    assert_eq!(echo_args(), vec![b"echo".to_vec(), b"WT-ECHO-OK".to_vec()]);
}

/// The header of a compiled file with the given flags.
fn compiled(flags: u32) -> Vec<u8> {
    let mut b = vec![0u8; 64];
    b[..4].copy_from_slice(b"\x7fELF");
    b[4] = 2;
    b[5] = 1;
    b[6] = 1;
    b[7] = 200;
    b[16] = 1;
    b[18] = 62;
    b[20] = 1;
    b[48..52].copy_from_slice(&flags.to_le_bytes());
    b[52] = 64;
    b
}

#[test]
fn compiled_files_are_told_apart() {
    let once = vec![b"rtop".to_vec(), b"--once".to_vec()];
    let plain = vec![b"rtop".to_vec()];
    assert_eq!(plan_cwasm(&compiled(1), &plain, true), Plan::Module);
    assert_eq!(plan_cwasm(&compiled(2), &once, true), Plan::TextScreen { once: true });
    assert_eq!(plan_cwasm(&compiled(2), &plain, true), Plan::TextScreen { once: false });
    assert_eq!(plan_cwasm(&compiled(2), &plain, false), Plan::NoProvider);
    assert_eq!(plan_cwasm(b"junk", &once, false), Plan::Module);
    assert_eq!(plan_artifact(Some(Artifact::Component), &once, true), Plan::TextScreen { once: true });
    assert_eq!(plan_artifact(None, &once, true), Plan::Module);
    assert!(asks_once(&once) && !asks_once(&plain));
}

#[test]
fn time_is_counted_and_limited() {
    let mut e = None;
    epoch_tick(&mut e);
    assert_eq!(e, None);
    let mut e = Some(u64::MAX);
    epoch_tick(&mut e);
    assert_eq!(e, Some(0));
    assert_eq!((frame_deadline(false), frame_deadline(true)), (300, 100));
}

#[test]
fn compositor_starts_and_moves_to_its_core() {
    assert_eq!(initial_program(true, true, true), Some(Initial::Shell));
    assert_eq!(initial_program(false, true, true), Some(Initial::Demo));
    assert_eq!(initial_program(false, false, true), Some(Initial::BuiltIn));
    assert_eq!(initial_program(false, false, false), None);
    let c = run_compositor_gate(Some(Initial::Shell), Some(7), GEOM);
    assert_eq!((c.wins.len(), c.wins[0].title.as_str(), c.wins[0].pid), (1, "shell", 7));
    assert!(run_compositor_gate(None, None, GEOM).wins.is_empty());
    let mut m = CompositorMailbox::new();
    assert_eq!(m.send_compositor_to_gui_core(&vec![CoreRole::BspIo], vec![1]), None);
    assert_eq!(m.poll(), None);
    let roles = vec![CoreRole::BspIo, CoreRole::GuiCompositor, CoreRole::ComputeApp];
    assert_eq!(m.send_compositor_to_gui_core(&roles, vec![1, 2]), Some(1));
    assert_eq!(m.poll(), Some(&vec![1, 2]));
}

#[test]
fn modules_are_loaded_once() {
    let mut m = ModuleCache::new();
    assert_eq!(m.module_by_name("a", None), None);
    assert_eq!(m.module_by_name("a", Some(1)), Some(1));
    assert_eq!(m.module_by_name("a", Some(2)), Some(1));
    assert_eq!(m.module_by_name("b", Some(3)), Some(3));
    assert_eq!(m.lookup("a"), Some(1));
    m.forget(&vec!["c".to_string(), "a".to_string()]);
    assert_eq!((m.lookup("a"), m.lookup("b"), m.lookup("c")), (None, Some(3), None));
    assert_eq!(m.module_by_name("a", Some(4)), Some(4));
}

#[test]
fn manifests_are_read() {
    let m = parse_manifest(" calc \u{1f}Calculator\u{1f}more").unwrap();
    assert_eq!((m.id.as_str(), m.title.as_str()), ("calc", "Calculator"));
    let m = parse_manifest("calc").unwrap();
    assert_eq!((m.id.as_str(), m.title.as_str()), ("calc", "calc"));
    assert!(parse_manifest(" \u{1f}x").is_none());
    let m = extract_manifest(b"..ab\x1fc", (2 << 32) | 4).unwrap();
    assert_eq!((m.id.as_str(), m.title.as_str()), ("ab", "c"));
    assert!(extract_manifest(b"..ab", (2 << 32) | 4).is_none());
    assert!(extract_manifest(&[0xff], 1).is_none());
    assert!(extract_manifest(b"xx", 0).is_none());
}

#[test]
fn apps_are_found_once_and_asked_once() {
    let e = |n: &str, size: u64| DirEntry { name: n.to_string(), size: Some(size) };
    let ls = vec![
        Listing { dir: "/bin".to_string(), entries: vec![e("calc.cwasm", 10), e("readme.txt", 5)] },
        Listing { dir: "/mnt/apps".to_string(), entries: vec![e("calc.cwasm", 11), e("edit.cwasm", 12)] },
    ];
    let present = present_apps(&ls);
    let stems: Vec<&str> = present.iter().map(|f| f.stem.as_str()).collect();
    assert_eq!(stems, vec!["calc", "edit"]);
    assert_eq!(present[0].path, "/bin/calc.cwasm");
    let mut c = Catalog::new();
    assert_eq!(c.scan_apps(&present).0, vec![0, 1]);
    c.record(&present[0], Some(Manifest { id: "calc".to_string(), title: "Zcalc".to_string() }));
    c.record(&present[1], Some(Manifest { id: "edit".to_string(), title: "Aedit".to_string() }));
    assert!(c.scan_apps(&present).0.is_empty());
    c.publish(&present);
    let titles: Vec<&str> = c.apps.iter().map(|m| m.title.as_str()).collect();
    assert_eq!(titles, vec!["Aedit", "Zcalc"]);
    assert_eq!(app_dirs(false), vec!["/bin".to_string()]);
    assert_eq!(app_path("/bin", "calc"), "/bin/calc.cwasm");
    let got = read_app_bytes("calc", false, |p: &String| if p == "/bin/calc.cwasm" { Some(vec![1]) } else { None });
    assert_eq!(got, Some(vec![1]));
}

#[test]
fn lists_are_written_as_records() {
    let c = desk(1);
    let snap = c.snapshot();
    let mut mem = vec![0u8; 128];
    assert!(window_list(&snap, &mut mem, 0, 1) >= 0);
    assert_eq!(app_list(&vec![], &mut mem, 0, 4), 0);
}

#[test]
fn bands_cover_the_screen() {
    let bands = split_bands(3, 100);
    assert_eq!(bands[0].0, 0);
    assert_eq!(bands[bands.len() - 1].1, 100);
    for w in bands.windows(2) {
        assert_eq!(w[0].1, w[1].0);
    }
    let mut m = CoreMask { mask: 0 };
    m.record(2);
    m.record(0);
    m.record(40);
    assert_eq!(cores_of(take_composite_core_mask(&mut m)), vec![0, 2]);
    assert_eq!(m.mask, 0);
}

#[test]
fn bands_compose_what_one_pass_composes() {
    let px = vec![200u8; 8 * 8 * 4];
    let wins = [WinDesc { px: &px, x: 20, y: 20, w: 8, h: 8, shadow: true }];
    let mut whole = vec![0u8; 64 * 48 * 4];
    composite_band(&mut whole, 256, 64, 0, 48, 0xff20_1810, &wins);
    let mut parts = vec![0u8; 64 * 48 * 4];
    dispatch_bands(&mut parts, 256, 64, 48, 0xff20_1810, &wins, 4);
    assert!(whole == parts);
    let at = |x: usize, y: usize| [whole[(y * 64 + x) * 4], whole[(y * 64 + x) * 4 + 1], whole[(y * 64 + x) * 4 + 2]];
    assert_eq!(at(22, 22), [200, 200, 200]);
    assert_eq!(at(0, 0), [0x10, 0x18, 0x20]);
    assert!(at(30, 30)[2] < 0x20);
    assert!(shadow_alpha(0, 0) >= shadow_alpha(9, 9));
}

#[test]
fn rectangles_are_filled_inside_the_buffer() {
    let mut buf = vec![0u8; 4 * 4 * 4];
    fill_rect(&mut buf, 4, 4, 2, 2, 9, 9, [1, 2, 3, 4]);
    assert_eq!(buf[(2 * 4 + 2) * 4..(2 * 4 + 3) * 4], [1, 2, 3, 4]);
    assert_eq!(buf[(4 + 3) * 4..(4 + 4) * 4], [0; 4]);
}
