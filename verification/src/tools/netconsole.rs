//! The receiver of the kernel's log on another machine.

use vstd::prelude::*;
use crate::text::{chars, same, trim, trimmed};

verus! {

/// The port that the log is sent to.
pub const DEFAULT_PORT: u16 = 6666;

/// What the receiver was asked to do.
pub struct Args {
    pub port: u16,
    pub bind: String,
    pub show_src: bool,
}

/// What the receiver was asked to do, as text.
pub struct ArgsView {
    pub port: u16,
    pub bind: Seq<char>,
    pub show_src: bool,
}

impl View for Args {
    type V = ArgsView;

    open spec fn view(&self) -> ArgsView {
        ArgsView { port: self.port, bind: self.bind@, show_src: self.show_src }
    }
}

/// What reading the arguments comes to.
pub enum Parsed {
    /// The receiver runs.
    Run(ArgsView),
    /// Help is shown.
    Help,
    /// The arguments are wrong, for this reason.
    Wrong(Seq<char>),
}

/// Whether a character is a decimal digit.
pub open spec fn digit(c: char) -> bool {
    48 <= c as int <= 57
}

/// The number that digits stand for; nothing where a character is no digit.
pub open spec fn digits(s: Seq<char>) -> Option<int>
    decreases s.len(),
{
    if s.len() == 0 {
        Some(0)
    } else {
        match digits(s.drop_last()) {
            Some(v) if digit(s.last()) => Some(10 * v + (s.last() as int - 48)),
            _ => None,
        }
    }
}

/// The port that a text stands for: digits, with a plus sign in front or not.
pub open spec fn port_text(s: Seq<char>) -> Option<u16> {
    let t = if s.len() > 0 && s[0] == '+' { s.drop_first() } else { s };
    match digits(t) {
        Some(v) if t.len() > 0 && v <= 65535 => Some(v as u16),
        _ => None,
    }
}

/// What the arguments from `i` on come to, given what was read before.
pub open spec fn parsed(a: Seq<String>, i: int, so_far: ArgsView) -> Parsed
    decreases a.len() - i,
{
    if i >= a.len() {
        Parsed::Run(so_far)
    } else if a[i]@ == "-h"@ || a[i]@ == "--help"@ {
        Parsed::Help
    } else if a[i]@ == "-p"@ || a[i]@ == "--port"@ {
        if i + 1 >= a.len() {
            Parsed::Wrong(a[i]@ + " requires a value"@)
        } else {
            match port_text(a[i + 1]@) {
                Some(p) => parsed(a, i + 2, ArgsView { port: p, ..so_far }),
                None => Parsed::Wrong("invalid port: "@ + a[i + 1]@),
            }
        }
    } else if a[i]@ == "--bind"@ {
        if i + 1 >= a.len() {
            Parsed::Wrong("--bind requires a value"@)
        } else {
            parsed(a, i + 2, ArgsView { bind: a[i + 1]@, ..so_far })
        }
    } else if a[i]@ == "--src"@ {
        parsed(a, i + 1, ArgsView { show_src: true, ..so_far })
    } else {
        Parsed::Wrong("unknown argument: "@ + a[i]@ + " (try --help)"@)
    }
}

/// Without arguments.
pub open spec fn defaults() -> ArgsView {
    ArgsView { port: DEFAULT_PORT, bind: "0.0.0.0"@, show_src: false }
}

proof fn lemma_digits_prefix(s: Seq<char>, k: int)
    requires
        0 <= k <= s.len(),
        digits(s) is Some,
    ensures
        digits(s.take(k)) is Some,
        0 <= digits(s.take(k))->0 <= digits(s)->0,
    decreases s.len(),
{
    if k < s.len() {
        assert(s.drop_last().take(k) =~= s.take(k));
        lemma_digits_prefix(s.drop_last(), k);
    } else {
        assert(s.take(k) =~= s);
        if s.len() > 0 {
            lemma_digits_prefix(s.drop_last(), s.len() - 1);
            assert(s.drop_last().take(s.len() - 1) =~= s.drop_last());
        }
    }
}

fn code(c: char) -> (r: u32)
    ensures
        r == c as int,
{
    c as u32
}

/// Reads a port.
pub fn parse_port(s: &str) -> (r: Option<u16>)
    ensures
        r == port_text(s@),
{
    let cs: Vec<char> = chars(s);
    let from: usize = if cs.len() > 0 && cs[0] == '+' { 1 } else { 0 };
    let ghost t = if s@.len() > 0 && s@[0] == '+' { s@.drop_first() } else { s@ };
    assert(t =~= s@.subrange(from as int, s@.len() as int));
    if from == cs.len() {
        return None;
    }
    let mut v: u32 = 0;
    let mut i: usize = from;
    assert(t.take(0) =~= Seq::<char>::empty());
    while i < cs.len()
        invariant
            from <= i <= cs@.len(),
            cs@ == s@,
            t == s@.subrange(from as int, s@.len() as int),
            t == (if s@.len() > 0 && s@[0] == '+' { s@.drop_first() } else { s@ }),
            t.len() == s@.len() - from,
            t.len() > 0,
            digits(t.take(i - from)) == Some(v as int),
            v <= 65535,
        decreases cs@.len() - i,
    {
        let d: u32 = code(cs[i]);
        assert(t.take(i - from + 1).drop_last() =~= t.take(i - from));
        assert(t.take(i - from + 1).last() == s@[i as int]);
        if d < 48 || d > 57 {
            proof {
                assert(digits(t.take(i - from + 1)) is None);
                if digits(t) is Some {
                    lemma_digits_prefix(t, i - from + 1);
                }
            }
            return None;
        }
        v = 10 * v + (d - 48);
        assert(digits(t.take(i - from + 1)) == Some(v as int));
        if v > 65535 {
            proof {
                if digits(t) is Some {
                    lemma_digits_prefix(t, i - from + 1);
                }
            }
            return None;
        }
        i += 1;
    }
    assert(t.take(t.len() as int) =~= t);
    Some(v as u16)
}

/// Reads the arguments, without the program's own name.
pub fn parse_args(a: &Vec<String>) -> (r: Result<Option<Args>, String>)
    ensures
        match parsed(a@, 0, defaults()) {
            Parsed::Run(v) => r matches Ok(Some(x)) && x@ == v,
            Parsed::Help => r matches Ok(None),
            Parsed::Wrong(why) => r matches Err(e) && e@ == why,
        },
{
    let mut args = Args { port: DEFAULT_PORT, bind: String::from_str("0.0.0.0"), show_src: false };
    let mut i: usize = 0;
    while i < a.len()
        invariant
            i <= a@.len(),
            parsed(a@, i as int, args@) == parsed(a@, 0, defaults()),
        decreases a@.len() - i,
    {
        let s: &str = a[i].as_str();
        if same(s, "-h") || same(s, "--help") {
            return Ok(None);
        } else if same(s, "-p") || same(s, "--port") {
            if i + 1 >= a.len() {
                return Err(String::from_str(s).concat(" requires a value"));
            }
            match parse_port(a[i + 1].as_str()) {
                Some(p) => {
                    args.port = p;
                },
                None => {
                    return Err(String::from_str("invalid port: ").concat(a[i + 1].as_str()));
                },
            }
            i += 2;
        } else if same(s, "--bind") {
            if i + 1 >= a.len() {
                return Err(String::from_str("--bind requires a value"));
            }
            args.bind = a[i + 1].clone();
            i += 2;
        } else if same(s, "--src") {
            args.show_src = true;
            i += 1;
        } else {
            return Err(String::from_str("unknown argument: ").concat(s).concat(" (try --help)"));
        }
    }
    Ok(Some(args))
}

/// A text with `A` to `Z` as `a` to `z`.
pub open spec fn lowered(s: Seq<char>) -> Seq<char> {
    Seq::new(s.len(), |i: int| lower(s[i]))
}

/// A character, `A` to `Z` as `a` to `z`.
pub open spec fn lower(c: char) -> char {
    if 65 <= c as int <= 90 { (c as int + 32) as char } else { c }
}

/// `str::to_ascii_lowercase`: the letters `A` to `Z` become `a` to `z`, every other character
/// stays.
#[verifier::external_body]
fn lowercase(s: &str) -> (r: String)
    ensures
        r@ == lowered(s@),
{
    s.to_ascii_lowercase()
}

/// What is typed while the receiver runs.
pub enum Command {
    Nothing,
    ClearScreen,
    ClearLog,
    Help,
    Quit,
    Unknown(String),
}

/// Whether a command is the one that was typed.
pub open spec fn is_command(c: Command, typed: Seq<char>) -> bool {
    let t = lowered(trimmed(typed));
    if t == ""@ {
        c is Nothing
    } else if t == "c"@ || t == "clear"@ || t == "cls"@ {
        c is ClearScreen
    } else if t == "l"@ || t == "clog"@ || t == "clearlog"@ {
        c is ClearLog
    } else if t == "h"@ || t == "help"@ || t == "?"@ {
        c is Help
    } else if t == "q"@ || t == "quit"@ || t == "exit"@ {
        c is Quit
    } else {
        c matches Command::Unknown(s) && s@ == t
    }
}

/// Reads what was typed.
pub fn command(typed: &str) -> (r: Command)
    ensures
        is_command(r, typed@),
{
    let t: String = lowercase(trim(typed).as_str());
    let s: &str = t.as_str();
    if same(s, "") {
        Command::Nothing
    } else if same(s, "c") || same(s, "clear") || same(s, "cls") {
        Command::ClearScreen
    } else if same(s, "l") || same(s, "clog") || same(s, "clearlog") {
        Command::ClearLog
    } else if same(s, "h") || same(s, "help") || same(s, "?") {
        Command::Help
    } else if same(s, "q") || same(s, "quit") || same(s, "exit") {
        Command::Quit
    } else {
        Command::Unknown(t)
    }
}

/// The line that is shown and logged for a datagram: the sender in brackets where that is
/// asked for, the datagram, and a line break where it has none at its end.
pub open spec fn log_line(src: Option<Seq<u8>>, data: Seq<u8>) -> Seq<u8> {
    let s = match src {
        Some(ip) => seq![91u8] + ip + seq![93u8, 32u8] + data,
        None => data,
    };
    if s.len() > 0 && s.last() == 10 { s } else { s.push(10) }
}

/// Makes the line for a datagram.
pub fn compose(src: Option<&Vec<u8>>, data: &[u8]) -> (r: Vec<u8>)
    ensures
        r@ == log_line(
            match src {
                Some(ip) => Some(ip@),
                None => None,
            },
            data@,
        ),
{
    let mut line: Vec<u8> = Vec::new();
    match src {
        Some(ip) => {
            line.push(91);
            crate::bytes::push_all(&mut line, ip.as_slice());
            line.push(93);
            line.push(32);
            assert(line@ =~= seq![91u8] + ip@ + seq![93u8, 32u8]);
        },
        None => {},
    }
    crate::bytes::push_all(&mut line, data);
    assert(src is None ==> line@ =~= data@);
    if line.len() == 0 || line[line.len() - 1] != 10 {
        line.push(10);
    }
    line
}

} // verus!
