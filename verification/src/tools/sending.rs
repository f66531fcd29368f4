//! Laws of the text screen and of the log receiver: which cells are sent and by what sequences, how
//! a bar is filled, and how options follow one another.

use vstd::arithmetic::div_mod::{lemma_fundamental_div_mod_converse_div, lemma_fundamental_div_mod_converse_mod};
use vstd::prelude::*;
use crate::tools::netconsole::{parsed, port_text, ArgsView, Parsed};
use crate::tools::parsum::{mixed, sum_to};
use crate::tools::reactor::plain;
use crate::tools::tui::{
    bar, changed, digits, emitted, everything, gauge, moved, padded, runs, sgr, Area, GlyphView, Paint, UpdateView,
};

verus! {

/// The number that decimal characters stand for.
pub open spec fn number_of(s: Seq<char>) -> nat
    decreases s.len(),
{
    if s.len() == 0 {
        0
    } else {
        10 * number_of(s.drop_last()) + (s.last() as int - 48) as nat
    }
}

/// Every character is a decimal digit.
pub open spec fn all_digits(s: Seq<char>) -> bool {
    forall|i: int| 0 <= i < s.len() ==> 48 <= (#[trigger] s[i]) as int <= 57
}

/// A number is sent in decimal digits that stand for it, without a zero in front unless it is zero.
pub proof fn digits_stand_for_the_number(v: nat)
    ensures
        all_digits(digits(v)),
        number_of(digits(v)) == v,
        digits(v).len() >= 1,
        v > 0 ==> digits(v)[0] as int != 48,
        v == 0 ==> digits(v).len() == 1,
    decreases v,
{
    reveal_with_fuel(number_of, 2);
    if v < 10 {
        assert(digits(v).drop_last() =~= Seq::<char>::empty());
    } else {
        digits_stand_for_the_number(v / 10);
        assert(digits(v).drop_last() =~= digits(v / 10));
    }
}

proof fn lemma_digit_count(v: nat)
    ensures
        v < 10 ==> digits(v).len() == 1,
        10 <= v < 100 ==> digits(v).len() == 2,
        100 <= v < 1000 ==> digits(v).len() == 3,
{
    if v >= 10 {
        assert(digits(v).len() == digits(v / 10).len() + 1);
        if v >= 100 {
            assert(digits(v / 10).len() == digits(v / 10 / 10).len() + 1);
        }
    }
}

/// A bar is as wide as it was asked to be. Between its brackets each cell is filled where the
/// percentage reaches its end. The percentage stands behind them, flush right in three cells, and
/// counts as a hundred where it is more.
pub proof fn bars_are_filled_in_proportion(w: u16, pct: u8, i: int)
    requires
        w >= 7,
        0 <= i < w - 7,
    ensures
        ({
            let s = bar(w, pct);
            let p: int = if pct > 100 { 100 } else { pct as int };
            let inner = w - 7;
            &&& s.len() == w
            &&& s[0] == '['
            &&& s[inner + 1] == ']'
            &&& s[inner + 2] == ' '
            &&& s[w - 1] == '%'
            &&& s[1 + i] == if 100 * (i + 1) <= p * inner { '#' } else { '-' }
            &&& exists|k: int|
                inner + 3 <= k < w - 1 && #[trigger] s.subrange(k, w - 1) == digits(p as nat) && forall|j: int|
                    inner + 3 <= j < k ==> #[trigger] s[j] == ' '
        }),
{
    reveal_strlit("[");
    reveal_strlit("]");
    reveal_strlit(" ");
    reveal_strlit("  ");
    reveal_strlit("%");
    let s = bar(w, pct);
    let p: nat = if pct > 100 { 100 } else { pct as nat };
    let inner: nat = (w - 7) as nat;
    let fill = (p * inner / 100) as int;
    lemma_digit_count(p);
    assert(padded(p).len() == 3);
    assert(s.len() == w);
    assert(s[1 + i] == gauge(inner, fill)[i]);
    assert(p * inner >= 0) by (nonlinear_arith);
    assert(fill == (p * inner) / 100);
    assert(i < fill <==> 100 * (i + 1) <= p * inner);
    let k = w - 1 - digits(p).len();
    assert(s.subrange(k, w - 1) =~= digits(p));
    assert forall|j: int| inner + 3 <= j < k implies #[trigger] s[j] == ' ' by {
        assert(s[j] == padded(p)[j - inner - 3]);
    }
}

/// A bar that is too narrow for cells between its brackets shows its brackets and its number.
pub proof fn narrow_bars_have_no_cells(w: u16, pct: u8)
    requires
        w <= 7,
    ensures
        bar(w, pct) == bar(7, pct),
        bar(w, pct).len() == 7,
{
    reveal_strlit("[");
    reveal_strlit("]");
    reveal_strlit(" ");
    reveal_strlit("  ");
    reveal_strlit("%");
    let p: nat = if pct > 100 { 100 } else { pct as nat };
    lemma_digit_count(p);
    assert(p * 0 == 0);
    assert(gauge(0, 0).len() == 0);
}

/// The cursor is moved by a sequence that names the line and then the column, both counted from
/// one.
pub proof fn cursor_is_moved_by_line_and_column(x: u16, y: u16)
    ensures
        moved(x, y) == seq!['\x1b', '['] + digits((y + 1) as nat) + seq![';'] + digits((x + 1) as nat) + seq!['H'],
{
    reveal_strlit("\x1b[");
    reveal_strlit(";");
    reveal_strlit("H");
    assert(moved(x, y) =~= seq!['\x1b', '['] + digits((y + 1) as nat) + seq![';'] + digits((x + 1) as nat) + seq!['H']);
}

/// A colour by its parts is named part by part, red, green and blue, for the foreground and for the
/// background; the terminal's own colours, and no modifiers, need no more than the looks being set
/// back.
pub proof fn looks_are_set_from_scratch(g: GlyphView, r: u8, gr: u8, b: u8)
    requires
        g.fg is Reset,
        g.bg is Reset,
        g.modifier == 0,
    ensures
        sgr(g) == "\x1b[0m"@,
        sgr(GlyphView { fg: Paint::Rgb(r, gr, b), ..g }) == "\x1b[0m"@ + ("\x1b["@ + "38"@ + ";2;"@ + digits(r as nat) + ";"@
            + digits(gr as nat) + ";"@ + digits(b as nat) + "m"@),
        sgr(GlyphView { bg: Paint::Rgb(r, gr, b), ..g }) == "\x1b[0m"@ + ("\x1b["@ + "48"@ + ";2;"@ + digits(r as nat) + ";"@
            + digits(gr as nat) + ";"@ + digits(b as nat) + "m"@),
        sgr(GlyphView { modifier: 1, ..g }) == "\x1b[0m"@ + "\x1b[1m"@,
        sgr(GlyphView { modifier: 64, ..g }) == "\x1b[0m"@ + "\x1b[7m"@,
        sgr(GlyphView { modifier: 65, ..g }) == "\x1b[0m"@ + "\x1b[1m"@ + "\x1b[7m"@,
{
    assert(0u16 & 1 == 0 && 0u16 & 64 == 0 && 1u16 & 1 != 0 && 1u16 & 64 == 0 && 64u16 & 1 == 0 && 64u16 & 64 != 0
        && 65u16 & 1 != 0 && 65u16 & 64 != 0) by (bit_vector);
    let e = Seq::<char>::empty();
    assert(sgr(g) =~= "\x1b[0m"@);
    assert(sgr(GlyphView { fg: Paint::Rgb(r, gr, b), ..g }) =~= "\x1b[0m"@ + ("\x1b["@ + "38"@ + ";2;"@ + digits(
        r as nat,
    ) + ";"@ + digits(gr as nat) + ";"@ + digits(b as nat) + "m"@));
    assert(sgr(GlyphView { bg: Paint::Rgb(r, gr, b), ..g }) =~= "\x1b[0m"@ + ("\x1b["@ + "48"@ + ";2;"@ + digits(
        r as nat,
    ) + ";"@ + digits(gr as nat) + ";"@ + digits(b as nat) + "m"@));
    assert(sgr(GlyphView { modifier: 1, ..g }) =~= "\x1b[0m"@ + "\x1b[1m"@);
    assert(sgr(GlyphView { modifier: 64, ..g }) =~= "\x1b[0m"@ + "\x1b[7m"@);
    assert(sgr(GlyphView { modifier: 65, ..g }) =~= "\x1b[0m"@ + "\x1b[1m"@ + "\x1b[7m"@);
}

/// Cells are sent one after the other. One that stands right behind the one before, on its line and
/// with its colours and modifiers, is sent as its symbol alone; before every other the cursor and
/// the looks are set. At the end the looks are set back; nothing is sent for no cells.
pub proof fn cells_are_sent_one_after_the_other(us: Seq<UpdateView>, u: UpdateView)
    ensures
        emitted(Seq::<UpdateView>::empty()) == Seq::<char>::empty(),
        emitted(us.push(u)) == runs(us.push(u)) + "\x1b[0m"@,
        us.len() == 0 ==> runs(us.push(u)) == moved(u.x, u.y) + sgr(u.glyph) + u.glyph.symbol,
        us.len() > 0 && us.last().y == u.y && us.last().x + 1 == u.x && us.last().glyph.fg == u.glyph.fg
            && us.last().glyph.bg == u.glyph.bg && us.last().glyph.modifier == u.glyph.modifier ==> runs(us.push(u))
            == runs(us) + u.glyph.symbol,
        us.len() > 0 && (us.last().y != u.y || us.last().x + 1 != u.x || us.last().glyph.fg != u.glyph.fg
            || us.last().glyph.bg != u.glyph.bg || us.last().glyph.modifier != u.glyph.modifier) ==> runs(us.push(u))
            == runs(us) + (moved(u.x, u.y) + sgr(u.glyph)) + u.glyph.symbol,
{
    let all = us.push(u);
    assert(all.drop_last() =~= us);
    if us.len() == 0 {
        assert(runs(us) =~= Seq::<char>::empty());
        assert(runs(all) =~= moved(u.x, u.y) + sgr(u.glyph) + u.glyph.symbol);
    } else if us.last().y == u.y && us.last().x + 1 == u.x && us.last().glyph.fg == u.glyph.fg && us.last().glyph.bg
        == u.glyph.bg && us.last().glyph.modifier == u.glyph.modifier {
        assert(runs(all) =~= runs(us) + u.glyph.symbol);
    }
}

/// What is sent of some cells does not change what is sent of those before them.
pub proof fn earlier_cells_are_sent_first(us: Seq<UpdateView>, more: Seq<UpdateView>)
    ensures
        runs(us + more).len() >= runs(us).len(),
        runs(us + more).take(runs(us).len() as int) == runs(us),
    decreases more.len(),
{
    if more.len() == 0 {
        assert(us + more =~= us);
    } else {
        earlier_cells_are_sent_first(us, more.drop_last());
        assert((us + more).drop_last() =~= us + more.drop_last());
        let n = runs(us).len() as int;
        assert(runs(us + more).take(n) =~= runs(us + more.drop_last()).take(n));
    }
}

/// The cells of a screen stand row by row: the one in a column and a line has as many before it as
/// there are in the lines above and to its left.
pub proof fn cells_stand_row_by_row(a: Area, s: Seq<GlyphView>, x: u16, y: u16)
    requires
        a.holds(x as int, y as int),
    ensures
        ({
            let i = (y - a.y) * a.w + (x - a.x);
            &&& 0 <= i < a.w * a.h
            &&& a.column(i) == x
            &&& a.line(i) == y
            &&& everything(a, s).len() == a.w * a.h
            &&& everything(a, s)[i] == (UpdateView { x, y, glyph: s[i] })
        }),
{
    let w = a.w as int;
    let q = y - a.y;
    let r = x - a.x;
    let i = q * w + r;
    assert(0 <= q * w && q * w + w <= w * a.h) by (nonlinear_arith)
        requires
            0 <= q < a.h,
            0 < w,
    ;
    lemma_fundamental_div_mod_converse_div(i, w, q, r);
    lemma_fundamental_div_mod_converse_mod(i, w, q, r);
    assert(a.w * a.h == w * a.h);
}

/// A cell that differs is sent behind those that differ before it, with its place and what stands
/// in it now; a cell that does not differ adds nothing.
pub proof fn changes_are_sent_in_order(a: Area, from: Seq<GlyphView>, to: Seq<GlyphView>, i: int, n: int)
    requires
        0 <= i < n,
    ensures
        changed(a, from, to, n).len() >= changed(a, from, to, i).len(),
        changed(a, from, to, n).take(changed(a, from, to, i).len() as int) == changed(a, from, to, i),
        from[i] != to[i] ==> changed(a, from, to, i + 1).len() == changed(a, from, to, i).len() + 1,
        from[i] != to[i] ==> changed(a, from, to, n).len() > changed(a, from, to, i).len() && changed(
            a,
            from,
            to,
            n,
        )[changed(a, from, to, i).len() as int] == (UpdateView {
            x: a.column(i) as u16,
            y: a.line(i) as u16,
            glyph: to[i],
        }),
        from[i] == to[i] ==> changed(a, from, to, i + 1) == changed(a, from, to, i),
    decreases n - i,
{
    let m = changed(a, from, to, i).len() as int;
    if n == i + 1 {
        assert(changed(a, from, to, n).take(m) =~= changed(a, from, to, i));
    } else {
        changes_are_sent_in_order(a, from, to, i, i + 1);
        changes_are_sent_in_order(a, from, to, i + 1, n);
        let k = changed(a, from, to, i + 1).len() as int;
        let c = changed(a, from, to, n);
        assert(c.take(m) =~= c.take(k).take(m));
        if from[i] != to[i] {
            assert(c[m] == c.take(k)[m]);
        }
    }
}

proof fn lemma_options_shift(a: Seq<String>, b: Seq<String>, k: int, s: ArgsView)
    requires
        0 <= k <= b.len(),
    ensures
        parsed(a + b, a.len() + k, s) == parsed(b, k, s),
    decreases b.len() - k,
{
    let all = a + b;
    let n = a.len();
    if k < b.len() {
        assert(all[n + k] == b[k]);
        lemma_options_shift(a, b, k + 1, ArgsView { show_src: true, ..s });
        if k + 1 < b.len() {
            assert(all[n + k + 1] == b[k + 1]);
            lemma_options_shift(a, b, k + 2, ArgsView { bind: b[k + 1]@, ..s });
            if port_text(b[k + 1]@) is Some {
                lemma_options_shift(a, b, k + 2, ArgsView { port: port_text(b[k + 1]@).unwrap(), ..s });
            }
        }
    }
}

proof fn lemma_options_join(a: Seq<String>, b: Seq<String>, i: int, s: ArgsView)
    requires
        0 <= i <= a.len(),
        parsed(a, i, s) is Run,
    ensures
        parsed(a + b, i, s) == parsed(b, 0, parsed(a, i, s)->Run_0),
    decreases a.len() - i,
{
    let all = a + b;
    if i == a.len() {
        lemma_options_shift(a, b, 0, s);
    } else {
        assert(all[i] == a[i]);
        if i + 1 < a.len() {
            assert(all[i + 1] == a[i + 1]);
        }
        if a[i]@ == "-h"@ || a[i]@ == "--help"@ {
        } else if a[i]@ == "-p"@ || a[i]@ == "--port"@ {
            lemma_options_join(a, b, i + 2, ArgsView { port: port_text(a[i + 1]@).unwrap(), ..s });
        } else if a[i]@ == "--bind"@ {
            lemma_options_join(a, b, i + 2, ArgsView { bind: a[i + 1]@, ..s });
        } else if a[i]@ == "--src"@ {
            lemma_options_join(a, b, i + 1, ArgsView { show_src: true, ..s });
        }
    }
}

/// Options are read from the left: those behind a complete list of options are read as if they
/// stood alone, on top of what the list came to.
pub proof fn options_follow_one_another(a: Seq<String>, b: Seq<String>, s: ArgsView)
    ensures
        parsed(Seq::<String>::empty(), 0, s) == Parsed::Run(s),
        parsed(a, 0, s) is Run ==> parsed(a + b, 0, s) == parsed(b, 0, parsed(a, 0, s)->Run_0),
{
    if parsed(a, 0, s) is Run {
        lemma_options_join(a, b, 0, s);
    }
}

/// Each option sets what it is named after, and nothing else.
pub proof fn options_set_one_thing_each(name: String, value: String, s: ArgsView)
    ensures
        name@ == "--src"@ ==> parsed(seq![name], 0, s) == Parsed::Run(ArgsView { show_src: true, ..s }),
        name@ == "--bind"@ ==> parsed(seq![name, value], 0, s) == Parsed::Run(ArgsView { bind: value@, ..s }),
        name@ == "-p"@ || name@ == "--port"@ ==> parsed(seq![name, value], 0, s) == match port_text(value@) {
            Some(p) => Parsed::Run(ArgsView { port: p, ..s }),
            None => Parsed::Wrong("invalid port: "@ + value@),
        },
        name@ == "-h"@ || name@ == "--help"@ ==> parsed(seq![name], 0, s) is Help,
        name@ == "--bind"@ || name@ == "-p"@ || name@ == "--port"@ ==> parsed(seq![name], 0, s) is Wrong,
{
    reveal_with_fuel(parsed, 3);
    reveal_strlit("--src");
    reveal_strlit("--bind");
    reveal_strlit("-p");
    reveal_strlit("--port");
    reveal_strlit("-h");
    reveal_strlit("--help");
    assert("--src"@.len() == 5 && "--bind"@.len() == 6 && "-p"@.len() == 2 && "--port"@.len() == 6 && "-h"@.len() == 2
        && "--help"@.len() == 6);
    assert("--bind"@[2] == 'b' && "--port"@[2] == 'p' && "--help"@[2] == 'h' && "-p"@[1] == 'p' && "-h"@[1] == 'h');
}

/// The sum of some numbers is that of the ones before and the last one; each number is made of the
/// bits of its place and those three further up.
pub proof fn numbers_are_summed_up(n: u64)
    requires
        n < u64::MAX,
    ensures
        sum_to(0) == 0,
        sum_to(n + 1) == sum_to(n as int) + (n ^ (n >> 3)),
{
    assert(mixed(n) == n ^ (n >> 3));
}

/// Every pixel of a surface of one colour has that colour, byte by byte.
pub proof fn plain_surfaces_have_one_colour(c: Seq<u8>, pixels: nat, p: int, k: int)
    requires
        c.len() == 4,
        0 <= p < pixels,
        0 <= k < 4,
    ensures
        plain(c, 4 * pixels).len() == 4 * pixels,
        plain(c, 4 * pixels)[4 * p + k] == c[k],
{
}

} // verus!
