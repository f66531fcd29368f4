//! The programs that come with the system.

use ruos::text::{is_before, push_decimal, push_hex, trim};
use ruos::tools::netconsole::{command, compose, parse_args, parse_port, Command};
use ruos::tools::parsum::{mix, parallel_sum, parsum_report, serial_sum, speedup_x100};
use ruos::tools::precompile::{feature_policy, parse_job, Job};
use ruos::tools::reactor::{alloc_probe, threaded_header};
use ruos::tools::readline::answer;
use ruos::tools::tui::{bar_text, clip, emit, sgr_for, Area, Glyph, Paint, Rgb, Tui, Update};

fn strings(a: &[&str]) -> Vec<String> {
    a.iter().map(|s| s.to_string()).collect()
}

fn glyph(s: &str, fg: Paint, modifier: u16) -> Glyph {
    Glyph { symbol: s.to_string(), fg, bg: Paint::Reset, modifier, skip: false }
}

fn area(x: u16, y: u16, w: u16, h: u16) -> Area {
    Area { x, y, w, h }
}

const RED: Rgb = Rgb { r: 255, g: 0, b: 1 };

#[test]
fn numbers_become_text() {
    let mut out = Vec::new();
    push_decimal(&mut out, 0);
    push_decimal(&mut out, 18_446_744_073_709_551_615);
    push_hex(&mut out, 0x1f, 4);
    assert_eq!(out, b"018446744073709551615001f".to_vec());
    assert_eq!(trim("  a b \t\n"), "a b");
    assert!(is_before("a", "b") && !is_before("b", "a") && is_before("a", "ab"));
}

#[test]
fn receiver_reads_its_arguments() {
    let a = parse_args(&strings(&["--bind", "1.2.3.4", "-p", "7000", "--src"])).ok().flatten().unwrap();
    assert_eq!((a.port, a.bind.as_str(), a.show_src), (7000, "1.2.3.4", true));
    assert!(matches!(parse_args(&strings(&["-h"])), Ok(None)));
    assert_eq!(parse_args(&strings(&["-p"])).err(), Some("-p requires a value".to_string()));
    assert_eq!(parse_args(&strings(&["-p", "x"])).err(), Some("invalid port: x".to_string()));
    assert_eq!(parse_args(&strings(&["--bind"])).err(), Some("--bind requires a value".to_string()));
    assert_eq!(parse_args(&strings(&["zz"])).err(), Some("unknown argument: zz (try --help)".to_string()));
    assert_eq!(parse_port("65535"), Some(65535));
    assert_eq!(parse_port("65536"), None);
    assert_eq!(parse_port("+7"), Some(7));
    assert_eq!(parse_port(""), None);
}

#[test]
fn commands_are_read_without_case() {
    assert!(matches!(command("  CLEAR "), Command::ClearScreen));
    assert!(matches!(command("cls"), Command::ClearScreen));
    assert!(matches!(command("L"), Command::ClearLog));
    assert!(matches!(command("?"), Command::Help));
    assert!(matches!(command("Quit"), Command::Quit));
    assert!(matches!(command("   "), Command::Nothing));
    match command(" FooBar") {
        Command::Unknown(s) => assert_eq!(s, "foobar"),
        _ => panic!("known"),
    }
}

#[test]
fn lines_end_with_one_newline() {
    assert_eq!(compose(None, b"abc"), b"abc\n".to_vec());
    assert_eq!(compose(None, b"abc\n"), b"abc\n".to_vec());
    assert_eq!(compose(Some(&b"1.2.3.4".to_vec()), b"x"), b"[1.2.3.4] x\n".to_vec());
    assert_eq!(compose(None, b""), b"\n".to_vec());
}

#[test]
fn parallel_sum_is_the_serial_sum() {
    let a = parallel_sum(1000);
    assert_eq!(a, serial_sum(1000));
    let by_hand = (0..1000u64).fold(0u64, |acc, x| acc.wrapping_add(mix(x)));
    assert_eq!(a, by_hand);
    assert_eq!(speedup_x100(300, 100), 300);
    assert_eq!(mix(9), 8);
    assert_eq!(String::from_utf8(parsum_report(4, 7, 300)).unwrap(), "PARSUM_OK threads=4 sum=7 speedup_x100=300");
}

#[test]
fn compiler_flags_follow_the_policy() {
    assert_eq!(feature_policy("sse3"), Some(true));
    assert_eq!(feature_policy("avx512f"), Some(false));
    assert_eq!(parse_job(&strings(&["p", "a", "b"])), Some(Job { component: false, input: 1, output: 2 }));
    assert_eq!(parse_job(&strings(&["p"])), None);
}

#[test]
fn threaded_window_reports_its_stage() {
    assert_eq!(alloc_probe(), 1);
    assert_eq!(threaded_header(1001, 1, 1), vec![0xe9, 3, 0, 0, 1, 1, 1]);
}

#[test]
fn lines_are_answered() {
    assert_eq!(answer("hello"), ("STDIN_ECHO:hello".to_string(), false));
    assert_eq!(answer(" quit "), ("WT_READLINE_BYE".to_string(), true));
}

#[test]
fn areas_are_clipped_to_the_screen() {
    let screen = area(0, 0, 80, 24);
    assert_eq!(clip(area(70, 20, 20, 20), screen), Some(area(70, 20, 10, 4)));
    assert_eq!(clip(area(80, 0, 5, 5), screen), None);
    assert_eq!(clip(area(0, 0, 0, 5), screen), None);
    assert_eq!(clip(area(1, 2, 65535, 65535), screen), Some(area(1, 2, 79, 22)));
}

#[test]
fn bars_fill_by_percent() {
    assert_eq!(bar_text(17, 50), "[#####-----]  50%");
    assert_eq!(bar_text(17, 200), "[##########] 100%");
    assert_eq!(bar_text(3, 7), "[]   7%");
    assert_eq!(bar_text(11, 33), "[#---]  33%");
}

#[test]
fn neighbours_share_one_sequence() {
    let red = Paint::Rgb(255, 0, 1);
    let us = vec![
        Update { x: 2, y: 0, glyph: glyph("a", red, 0) },
        Update { x: 3, y: 0, glyph: glyph("b", red, 0) },
        Update { x: 4, y: 0, glyph: glyph("c", Paint::Reset, 1) },
        Update { x: 4, y: 9, glyph: glyph("d", Paint::Reset, 65) },
    ];
    assert_eq!(
        emit(&us),
        "\x1b[1;3H\x1b[0m\x1b[38;2;255;0;1mab\x1b[1;5H\x1b[0m\x1b[1mc\x1b[10;5H\x1b[0m\x1b[1m\x1b[7md\x1b[0m"
    );
    assert_eq!(emit(&vec![]), "");
    let mut s = String::from("x");
    sgr_for(&Glyph { bg: Paint::Rgb(1, 2, 3), ..glyph(" ", Paint::Other, 0) }, &mut s);
    assert_eq!(s, "x\x1b[0m\x1b[48;2;1;2;3m");
}

#[test]
fn screen_sends_what_changed() {
    let mut t = Tui::new();
    t.init(4, 2);
    assert_eq!(t.flush(), "\x1b[2J\x1b[1;1H\x1b[0m    \x1b[2;1H\x1b[0m    \x1b[0m");
    assert_eq!(t.flush(), "");
    t.draw_text("hi".to_string(), area(1, 1, 9, 9), RED);
    assert_eq!(t.flush(), "\x1b[2;2H\x1b[0m\x1b[38;2;255;0;1mhi \x1b[0m");
    assert_eq!(t.flush(), "");
    t.draw_text("gone".to_string(), area(4, 0, 9, 9), RED);
    assert_eq!(t.flush(), "");
    t.clear();
    assert_eq!(t.flush(), "\x1b[2;2H\x1b[0m   \x1b[0m");
}

#[test]
fn wide_characters_go_through_the_screen() {
    let mut t = Tui::new();
    t.init(6, 1);
    t.flush();
    t.draw_text("コa".to_string(), area(0, 0, 6, 1), RED);
    let sent = t.flush();
    assert!(sent.contains('コ') && sent.contains('a'), "{sent}");
}

#[test]
fn bar_is_drawn_over_its_area() {
    let mut t = Tui::new();
    t.init(12, 1);
    t.flush();
    t.draw_bar(100, area(0, 0, 12, 1), RED);
    assert!(t.flush().contains("[#####] 100%"));
}

#[test]
fn table_is_drawn_inside_its_area() {
    let mut t = Tui::new();
    t.init(20, 3);
    t.flush();
    t.draw_table(strings(&["pid", "name"]), vec![strings(&["1", "init"])], vec![4, 8], area(0, 0, 20, 2));
    let sent = t.flush();
    assert!(sent.contains("pid") && sent.contains("init"), "{sent}");
    assert!(sent.contains("\x1b[7m"), "{sent}");
    assert!(!sent.contains("\x1b[3;"), "{sent}");
}

/// Draws a table of as many columns as there are widths, over a screen full of dots, and tells
/// the lines of the screen and where exchanged colours stand.
fn drawn_table(size: (u16, u16), rows: usize, cols: usize, widths: &[u16], at: Area) -> (Vec<String>, Vec<String>) {
    let mut t = Tui::new();
    t.init(size.0, size.1);
    for y in 0..size.1 {
        t.draw_text(".".repeat(size.0 as usize), area(0, y, size.0, 1), Rgb { r: 1, g: 2, b: 3 });
    }
    let row = |r: usize| (0..cols).map(|c| format!("{r}{}", "abcdefghij".repeat(3)[c % 10..].to_string())).collect();
    t.draw_table(row(0), (1..=rows).map(row).collect(), widths.to_vec(), at);
    let symbols = |y: u16| (0..size.0).map(|x| t.back[(x, y)].symbol().to_string()).collect();
    let marks = |y: u16| (0..size.0).map(|x| if t.back[(x, y)].modifier.bits() == 64 { '7' } else { '0' }).collect();
    ((0..size.1).map(symbols).collect(), (0..size.1).map(marks).collect())
}

#[test]
fn table_columns_stand_side_by_side() {
    let (text, marks) = drawn_table((14, 5), 2, 3, &[3, 0, 4], area(1, 1, 12, 4));
    assert_eq!(text, ["..............", ".0ab..0cde....", ".1ab..1cde....", ".2ab..2cde....", ".............."]);
    assert_eq!(marks, ["0".repeat(14), "07777777777770".to_string(), "0".repeat(14), "0".repeat(14), "0".repeat(14)]);
    let (text, _) = drawn_table((9, 3), 5, 2, &[], area(0, 0, 9, 3));
    assert_eq!(text, ["0abc.0bcd", "1abc.1bcd", "2abc.2bcd"]);
    let (text, marks) = drawn_table((9, 2), 1, 0, &[4], area(0, 0, 9, 2));
    assert_eq!((text[0].as_str(), marks[0].as_str()), (".........", "777777777"));
}

#[test]
fn table_columns_that_fit_have_their_widths() {
    let mut seed: u32 = 7;
    let mut next = |n: u32| {
        seed = seed.wrapping_mul(1_664_525).wrapping_add(1_013_904_223);
        (seed >> 16) % n
    };
    for _ in 0..400 {
        let widths: Vec<u16> = (0..1 + next(12)).map(|_| next(9) as u16).collect();
        let needed: u16 = widths.iter().sum::<u16>() + widths.len() as u16 - 1;
        let w = (needed + next(3) as u16 * next(20) as u16).max(1);
        let (x, y, h) = (next(4) as u16, next(3) as u16, 1 + next(5) as u16);
        let rows = next(6) as usize;
        let (text, marks) = drawn_table((x + w + 2, y + h + 1), rows, widths.len(), &widths, area(x, y, w, h));
        for (line, got) in text.iter().enumerate() {
            let mut want = vec![b'.'; (x + w + 2) as usize];
            let r = line as i32 - y as i32;
            if (0..h as i32).contains(&r) && r as usize <= rows {
                let mut start = x as usize;
                for (c, width) in widths.iter().enumerate() {
                    let cell = format!("{r}{}", &"abcdefghij".repeat(3)[c % 10..]);
                    let n = *width as usize;
                    want[start..start + n].copy_from_slice(&cell.as_bytes()[..n]);
                    start += n + 1;
                }
            }
            assert_eq!(got.as_bytes(), want, "{widths:?} {w}");
            let reversed = |c: usize| r == 0 && (x as usize..(x + w) as usize).contains(&c);
            assert!(marks[line].chars().enumerate().all(|(c, m)| (m == '7') == reversed(c)), "{widths:?} {w}");
        }
    }
}

#[test]
fn table_columns_that_do_not_fit_hold_their_row() {
    let (text, marks) = drawn_table((10, 3), 1, 4, &[6, 6, 6, 6], area(1, 0, 8, 3));
    assert!(text[0].starts_with('.') && text[0].ends_with('.'));
    assert!(text[0].bytes().all(|b| b".0abcdefghij".contains(&b)), "{text:?}");
    assert!(text[1].bytes().all(|b| b".1abcdefghij".contains(&b)), "{text:?}");
    assert_eq!(text[2], "..........");
    assert_eq!(marks, ["0777777770", "0000000000", "0000000000"]);
}

#[test]
fn smallest_screen_has_a_cell() {
    let mut t = Tui::new();
    t.init(0, 0);
    assert_eq!(t.flush(), "\x1b[2J\x1b[1;1H\x1b[0m \x1b[0m");
}
