//! A screen of character cells: widgets are drawn into a buffer in memory, and what
//! changed since the last time goes out as terminal escape sequences.

use ratatui::buffer::Buffer;
use ratatui::layout::{Constraint, Rect};
use ratatui::style::{Color, Modifier, Style};
use ratatui::widgets::{Paragraph, Row, Table, Widget};
use vstd::arithmetic::div_mod::{lemma_fundamental_div_mod_converse_div, lemma_fundamental_div_mod_converse_mod};
use vstd::prelude::*;

verus! {

/// Width of the screen before `init`.
pub const COLUMNS: u16 = 80;

/// Height of the screen before `init`.
pub const LINES: u16 = 24;

/// The bit of a cell's modifiers that stands for bold.
pub const BOLD: u16 = 1;

/// The bit of a cell's modifiers that stands for exchanged colours.
pub const REVERSED: u16 = 64;

/// All bits that stand for modifiers.
pub const ALL_MODIFIERS: u16 = 0x1ff;

/// Cells between the columns of a table.
pub const COLUMN_SPACING: u16 = 1;

/// The widest screen that texts are drawn on: beyond it two texts side by side are too
/// wide to be counted in sixteen bits.
pub const WIDEST: u16 = 0x7fff;

/// A rectangle of cells.
#[derive(Clone, Copy, PartialEq, Eq, Structural, Debug)]
pub struct Area {
    pub x: u16,
    pub y: u16,
    pub w: u16,
    pub h: u16,
}

/// A colour by its parts.
#[derive(Clone, Copy, PartialEq, Eq, Structural, Debug)]
pub struct Rgb {
    pub r: u8,
    pub g: u8,
    pub b: u8,
}

/// The colour of a cell: the terminal's own, a colour by its parts, or one that is never
/// set here.
#[derive(Clone, Copy, PartialEq, Eq, Structural, Debug)]
pub enum Paint {
    Reset,
    Rgb(u8, u8, u8),
    Other,
}

/// A cell: what stands in it, its colours, its modifiers as bits, and whether updates
/// leave it out.
#[derive(Debug)]
pub struct Glyph {
    pub symbol: String,
    pub fg: Paint,
    pub bg: Paint,
    pub modifier: u16,
    pub skip: bool,
}

/// A cell as a mathematical value.
pub struct GlyphView {
    pub symbol: Seq<char>,
    pub fg: Paint,
    pub bg: Paint,
    pub modifier: u16,
    pub skip: bool,
}

impl View for Glyph {
    type V = GlyphView;

    open spec fn view(&self) -> GlyphView {
        GlyphView { symbol: self.symbol@, fg: self.fg, bg: self.bg, modifier: self.modifier, skip: self.skip }
    }
}

/// A cell to be sent, with its place.
#[derive(Debug)]
pub struct Update {
    pub x: u16,
    pub y: u16,
    pub glyph: Glyph,
}

/// A cell to be sent, as a mathematical value.
pub struct UpdateView {
    pub x: u16,
    pub y: u16,
    pub glyph: GlyphView,
}

impl View for Update {
    type V = UpdateView;

    open spec fn view(&self) -> UpdateView {
        UpdateView { x: self.x, y: self.y, glyph: self.glyph@ }
    }
}

/// Updates as mathematical values.
pub open spec fn views(us: Seq<Update>) -> Seq<UpdateView> {
    us.map_values(|u: Update| u@)
}

impl Area {
    /// The area ends where columns and lines can still be counted in sixteen bits.
    pub open spec fn fits(self) -> bool {
        self.x + self.w <= u16::MAX && self.y + self.h <= u16::MAX
    }

    /// Whether the area holds a cell.
    pub open spec fn holds(self, x: int, y: int) -> bool {
        self.x <= x < self.x + self.w && self.y <= y < self.y + self.h
    }

    /// Whether the area lies in another.
    pub open spec fn within(self, o: Area) -> bool {
        o.x <= self.x && self.x + self.w <= o.x + o.w && o.y <= self.y && self.y + self.h <= o.y + o.h
    }

    /// The number of its cells.
    pub open spec fn count(self) -> nat {
        (self.w * self.h) as nat
    }

    /// The column of the `i`th cell, row by row.
    pub open spec fn column(self, i: int) -> int {
        self.x + i % (self.w as int)
    }

    /// The line of the `i`th cell, row by row.
    pub open spec fn line(self, i: int) -> int {
        self.y + i / (self.w as int)
    }
}

/// A ratatui buffer.
#[verifier::external_type_specification]
#[verifier::external_body]
pub struct ExBuffer(ratatui::buffer::Buffer);

/// The area of a buffer.
pub uninterp spec fn area_of(b: Buffer) -> Area;

/// The cells of a buffer, row by row.
pub uninterp spec fn cells(b: Buffer) -> Seq<GlyphView>;

/// The cells after a paragraph was rendered.
pub uninterp spec fn paragraph_cells(
    before: Seq<GlyphView>,
    screen: Area,
    text: Seq<char>,
    area: Area,
    fg: Rgb,
) -> Seq<GlyphView>;

/// The updates from one screen to another.
pub uninterp spec fn diff_of(screen: Area, from: Seq<GlyphView>, to: Seq<GlyphView>) -> Seq<UpdateView>;

/// An empty cell.
pub open spec fn blank_glyph() -> GlyphView {
    GlyphView { symbol: " "@, fg: Paint::Reset, bg: Paint::Reset, modifier: 0, skip: false }
}

/// Only colours that are set here.
pub open spec fn plain(s: Seq<GlyphView>) -> bool {
    forall|i: int|
        0 <= i < s.len() ==> !((#[trigger] s[i]).fg is Other) && !(s[i].bg is Other)
}

/// Only single printable ASCII characters, none of them left out of updates.
pub open spec fn narrow(s: Seq<GlyphView>) -> bool {
    forall|i: int|
        0 <= i < s.len() ==> (#[trigger] s[i]).symbol.len() == 1 && 0x20 <= s[i].symbol[0] as int <= 0x7e && !s[i].skip
}

/// The cells among the first `n` that differ, in order.
pub open spec fn changed(a: Area, from: Seq<GlyphView>, to: Seq<GlyphView>, n: int) -> Seq<UpdateView>
    decreases n,
{
    if n <= 0 {
        Seq::empty()
    } else if from[n - 1] == to[n - 1] {
        changed(a, from, to, n - 1)
    } else {
        changed(a, from, to, n - 1).push(
            UpdateView { x: a.column(n - 1) as u16, y: a.line(n - 1) as u16, glyph: to[n - 1] },
        )
    }
}

/// What two areas share, where they are cut off at the last column and line that can be
/// counted.
pub open spec fn shared(a: Area, b: Area) -> Area {
    let x1 = if a.x > b.x { a.x } else { b.x };
    let y1 = if a.y > b.y { a.y } else { b.y };
    let x2 = least(least(a.x + a.w, b.x + b.w), u16::MAX as int);
    let y2 = least(least(a.y + a.h, b.y + b.h), u16::MAX as int);
    Area {
        x: x1,
        y: y1,
        w: (if x2 > x1 { x2 - x1 } else { 0 }) as u16,
        h: (if y2 > y1 { y2 - y1 } else { 0 }) as u16,
    }
}

pub open spec fn least(a: int, b: int) -> int {
    if a < b { a } else { b }
}

/// `ratatui::layout::Rect::intersection` of two rectangles made by `Rect::new`: what both
/// hold; no cells where they share none.
#[verifier::external_body]
fn intersection(a: Area, b: Area) -> (r: Area)
    ensures
        r == shared(a, b),
{
    let r = Rect::new(a.x, a.y, a.w, a.h).intersection(Rect::new(b.x, b.y, b.w, b.h));
    Area { x: r.x, y: r.y, w: r.width, h: r.height }
}

/// `ratatui::buffer::Buffer::empty`: a buffer of the area with an empty cell everywhere.
#[verifier::external_body]
fn blank(area: Area) -> (r: Buffer)
    requires
        area.fits(),
    ensures
        area_of(r) == area,
        cells(r) == Seq::new(area.count(), |i: int| blank_glyph()),
{
    Buffer::empty(Rect::new(area.x, area.y, area.w, area.h))
}

/// A copy of a buffer, by the `Clone` that `ratatui::buffer::Buffer` derives: the same
/// area and the same cells.
#[verifier::external_body]
fn copy(b: &Buffer) -> (r: Buffer)
    ensures
        area_of(r) == area_of(*b),
        cells(r) == cells(*b),
{
    b.clone()
}

/// Indexing a `ratatui::buffer::Buffer` by column and line: the cell there.
#[verifier::external_body]
fn cell_at(b: &Buffer, x: u16, y: u16) -> (r: Glyph)
    requires
        area_of(*b).fits(),
        area_of(*b).holds(x as int, y as int),
        cells(*b).len() == area_of(*b).count(),
    ensures
        r@ == cells(*b)[(y - area_of(*b).y) * area_of(*b).w + (x - area_of(*b).x)],
{
    let c = &b[(x, y)];
    let paint = |p: Color| match p {
        Color::Rgb(r, g, b) => Paint::Rgb(r, g, b),
        Color::Reset => Paint::Reset,
        _ => Paint::Other,
    };
    let symbol = c.symbol().to_string();
    Glyph { symbol, fg: paint(c.fg), bg: paint(c.bg), modifier: c.modifier.bits(), skip: c.skip }
}

/// `ratatui::buffer::Buffer::diff`: the cells to send to get from one screen to the
/// other. It depends on the two screens alone. Each of them lies on the screen; where
/// every cell holds one printable ASCII character, they are the cells that differ.
#[verifier::external_body]
fn diff(from: &Buffer, to: &Buffer) -> (r: Vec<Update>)
    requires
        area_of(*from) == area_of(*to),
        area_of(*to).fits(),
        cells(*from).len() == area_of(*to).count(),
        cells(*to).len() == area_of(*to).count(),
        plain(cells(*from)),
        plain(cells(*to)),
    ensures
        views(r@) == diff_of(area_of(*to), cells(*from), cells(*to)),
        forall|i: int| 0 <= i < r@.len() ==> area_of(*to).holds((#[trigger] r@[i]).x as int, r@[i].y as int),
        area_of(*to).count() <= 0x1_0000 && narrow(cells(*from)) && narrow(cells(*to)) ==> views(r@) == changed(
            area_of(*to),
            cells(*from),
            cells(*to),
            cells(*to).len() as int,
        ),
{
    let paint = |p: Color| match p {
        Color::Rgb(r, g, b) => Paint::Rgb(r, g, b),
        Color::Reset => Paint::Reset,
        _ => Paint::Other,
    };
    from.diff(to).into_iter().map(|(x, y, c)| {
        let symbol = c.symbol().to_string();
        let glyph = Glyph { symbol, fg: paint(c.fg), bg: paint(c.bg), modifier: c.modifier.bits(), skip: c.skip };
        Update { x, y, glyph }
    }).collect()
}

/// Every long stretch of the text holds a printable ASCII character or ends a line, so
/// that no group of characters that share a cell is too wide to be counted.
pub open spec fn breaks(text: Seq<char>) -> bool {
    forall|i: int| 0 <= i && i + 0x2000 <= text.len() ==> stretch_breaks(text, i)
}

/// The stretch that starts at `i`.
pub open spec fn stretch_breaks(text: Seq<char>, i: int) -> bool {
    exists|k: int| i <= k < i + 0x2000 && (0x20 <= (#[trigger] text[k]) as int <= 0x7e || text[k] == '\n')
}

/// Rendering a `ratatui::widgets::Paragraph` in one colour: what the cells are afterwards
/// depends on the cells before, the text, the area and the colour alone. Cells outside
/// the area stay as they are. Lines beyond the area and columns beyond its width are cut
/// off.
#[verifier::external_body]
fn paragraph(b: &mut Buffer, text: String, area: Area, fg: Rgb)
    requires
        area_of(*old(b)).fits(),
        cells(*old(b)).len() == area_of(*old(b)).count(),
        plain(cells(*old(b))),
        area.within(area_of(*old(b))),
        area.w <= WIDEST,
        breaks(text@),
    ensures
        area_of(*final(b)) == area_of(*old(b)),
        cells(*final(b)) == paragraph_cells(cells(*old(b)), area_of(*old(b)), text@, area, fg),
        cells(*final(b)).len() == cells(*old(b)).len(),
        plain(cells(*final(b))),
        forall|i: int|
            0 <= i < cells(*old(b)).len() && !area.holds(area_of(*old(b)).column(i), area_of(*old(b)).line(i))
                ==> (#[trigger] cells(*final(b))[i]) == cells(*old(b))[i],
{
    let style = Style::default().fg(Color::Rgb(fg.r, fg.g, fg.b));
    Paragraph::new(text).style(style).render(Rect::new(area.x, area.y, area.w, area.h), b);
}

/// The rows of a table are no longer than can be counted, and so are their texts.
pub open spec fn countable(rows: Seq<Vec<String>>) -> bool {
    &&& forall|i: int| 0 <= i < rows.len() ==> (#[trigger] rows[i])@.len() <= WIDEST
    &&& forall|i: int, j: int|
        0 <= i < rows.len() && 0 <= j < rows[i]@.len() ==> breaks((#[trigger] rows[i]@[j])@)
}

/// A table: its header row, its other rows, the widths that its columns are given, the
/// modifiers of the header, and the cells between columns.
pub struct TableView {
    pub headers: Seq<Seq<char>>,
    pub rows: Seq<Seq<Seq<char>>>,
    pub widths: Seq<u16>,
    pub modifier: u16,
    pub spacing: u16,
}

/// The texts of a row.
pub open spec fn texts(row: Seq<String>) -> Seq<Seq<char>> {
    row.map_values(|s: String| s@)
}

/// Only printable ASCII characters.
pub open spec fn printable(row: Seq<Seq<char>>) -> bool {
    forall|j: int, k: int|
        0 <= j < row.len() && 0 <= k < row[j].len() ==> 0x20 <= (#[trigger] row[j][k]) as int <= 0x7e
}

/// The most texts in one of the first `n` rows.
pub open spec fn most(rows: Seq<Seq<Seq<char>>>, n: int) -> nat
    decreases n,
{
    if n <= 0 {
        0
    } else if rows[n - 1].len() > most(rows, n - 1) {
        rows[n - 1].len()
    } else {
        most(rows, n - 1)
    }
}

impl TableView {
    /// A table of texts in memory.
    pub open spec fn of(headers: Seq<String>, rows: Seq<Vec<String>>, widths: Seq<u16>, modifier: u16, spacing: u16) -> TableView {
        TableView {
            headers: texts(headers),
            rows: rows.map_values(|r: Vec<String>| texts(r@)),
            widths,
            modifier,
            spacing,
        }
    }

    /// The row on a line of the table: the header on the first, and no texts below the last
    /// row.
    pub open spec fn row(self, line: int) -> Seq<Seq<char>> {
        if line == 0 {
            self.headers
        } else if 0 < line <= self.rows.len() {
            self.rows[line - 1]
        } else {
            Seq::empty()
        }
    }

    /// Every text of the table is printable ASCII.
    pub open spec fn printable(self) -> bool {
        printable(self.headers) && forall|i: int| 0 <= i < self.rows.len() ==> printable(#[trigger] self.rows[i])
    }

    /// The widths of the columns in an area of `w` cells: where none are given, there are as
    /// many equal columns as the longest row has texts.
    pub open spec fn columns(self, w: int) -> Seq<u16> {
        let below = most(self.rows, self.rows.len() as int);
        let n = if self.headers.len() > below { self.headers.len() } else { below };
        if self.widths.len() > 0 {
            self.widths
        } else {
            Seq::new(n, |i: int| (w / n as int) as u16)
        }
    }

    /// The cells before the `n`th column, with all columns as wide as they are to be.
    pub open spec fn before(self, w: int, n: int) -> int
        decreases n,
    {
        if n <= 0 {
            0
        } else {
            self.before(w, n - 1) + self.columns(w)[n - 1] + self.spacing
        }
    }

    /// Whether all columns fit into `w` cells.
    pub open spec fn fits(self, w: int) -> bool {
        self.columns(w).len() > 0 ==> self.before(w, self.columns(w).len() as int) - self.spacing <= w
    }

    /// The character on a line and a cell of it among the first `n` columns, which all fit:
    /// texts are flush left and cut off at the end of their column.
    pub open spec fn shown(self, w: int, line: int, c: int, n: int) -> Option<char>
        decreases n,
    {
        if n <= 0 {
            None
        } else {
            let at = c - self.before(w, n - 1);
            let row = self.row(line);
            if 0 <= at < self.columns(w)[n - 1] {
                if n - 1 < row.len() && at < row[n - 1].len() {
                    Some(row[n - 1][at])
                } else {
                    None
                }
            } else {
                self.shown(w, line, c, n - 1)
            }
        }
    }

    /// What a cell of the table's area becomes, where all columns fit.
    pub open spec fn drawn(self, g: GlyphView, w: int, line: int, c: int) -> GlyphView {
        GlyphView {
            symbol: match self.shown(w, line, c, self.columns(w).len() as int) {
                Some(ch) => seq![ch],
                None => g.symbol,
            },
            modifier: self.marked(g, line),
            ..g
        }
    }

    /// The modifiers of a cell: those of the header are added on the first line.
    pub open spec fn marked(self, g: GlyphView, line: int) -> u16 {
        if line == 0 { g.modifier | self.modifier } else { g.modifier }
    }

    /// What holds of a cell of the table's area, however wide the columns are: only its symbol
    /// and, on the first line, its modifiers change, and the symbol only to a character of the
    /// row there.
    pub open spec fn may_become(self, before: GlyphView, after: GlyphView, line: int) -> bool {
        &&& after.fg == before.fg
        &&& after.bg == before.bg
        &&& after.skip == before.skip
        &&& after.modifier == self.marked(before, line)
        &&& after.symbol == before.symbol || exists|j: int, k: int|
            0 <= j < self.row(line).len() && 0 <= k < self.row(line)[j].len() && after.symbol == seq![
                #[trigger] self.row(line)[j][k],
            ]
    }

    /// What holds of the cells after the table was drawn into an area of a screen. Outside the
    /// area and below the last row nothing changes. In the area a table of printable ASCII stands
    /// as its columns say where they all fit; where they do not, their widths are left open.
    pub open spec fn draws(self, before: Seq<GlyphView>, after: Seq<GlyphView>, screen: Area, area: Area) -> bool {
        &&& after.len() == before.len()
        &&& forall|i: int|
            0 <= i < before.len() && !(area.holds(screen.column(i), screen.line(i)) && screen.line(i) - area.y
                <= self.rows.len()) ==> (#[trigger] after[i]) == before[i]
        &&& self.printable() ==> forall|i: int|
            0 <= i < before.len() && area.holds(screen.column(i), screen.line(i)) ==> self.may_become(
                before[i],
                #[trigger] after[i],
                screen.line(i) - area.y,
            )
        &&& self.printable() && self.fits(area.w as int) ==> forall|i: int|
            0 <= i < before.len() && area.holds(screen.column(i), screen.line(i)) ==> (#[trigger] after[i])
                == self.drawn(before[i], area.w as int, screen.line(i) - area.y, screen.column(i) - area.x)
    }
}

/// The cells after a table was rendered whose columns all fit.
pub uninterp spec fn table_cells(before: Seq<GlyphView>, screen: Area, table: TableView, area: Area) -> Seq<GlyphView>;

/// Rendering a `ratatui::widgets::Table` with a styled header row and columns of fixed widths.
/// The header stands on the first line of the area and gets the modifiers over its whole width;
/// the rows follow, one line each, as far as the area goes. Cells outside the area and below
/// the last row stay as they are. Columns that all fit start at the left, each as wide as
/// given, with the spacing between them; then the cells depend on the cells before, the table
/// and the area alone, and texts of printable ASCII stand one character to a cell, flush left
/// and cut off at the end of their column. The widths of columns that do not fit come out of a
/// solver that walks hash maps, so of those only is said that each cell keeps its symbol or
/// gets one from its row.
#[verifier::external_body]
fn table(
    b: &mut Buffer,
    headers: Vec<String>,
    rows: Vec<Vec<String>>,
    widths: Vec<u16>,
    area: Area,
    modifier: u16,
    spacing: u16,
)
    requires
        area_of(*old(b)).fits(),
        cells(*old(b)).len() == area_of(*old(b)).count(),
        plain(cells(*old(b))),
        area.within(area_of(*old(b))),
        area.w > 0,
        area.h > 0,
        area.w <= WIDEST,
        area.h <= WIDEST,
        countable(seq![headers]),
        countable(rows@),
        modifier <= ALL_MODIFIERS,
        spacing <= WIDEST,
    ensures
        area_of(*final(b)) == area_of(*old(b)),
        plain(cells(*final(b))),
        TableView::of(headers@, rows@, widths@, modifier, spacing).draws(
            cells(*old(b)),
            cells(*final(b)),
            area_of(*old(b)),
            area,
        ),
        TableView::of(headers@, rows@, widths@, modifier, spacing).fits(area.w as int) ==> cells(*final(b))
            == table_cells(
            cells(*old(b)),
            area_of(*old(b)),
            TableView::of(headers@, rows@, widths@, modifier, spacing),
            area,
        ),
{
    let style = Style::default().add_modifier(Modifier::from_bits_truncate(modifier));
    let rows: Vec<Row> = rows.into_iter().map(Row::new).collect();
    let widths: Vec<Constraint> = widths.into_iter().map(Constraint::Length).collect();
    let area = Rect::new(area.x, area.y, area.w, area.h);
    Table::new(rows, widths).header(Row::new(headers).style(style)).column_spacing(spacing).render(area, b);
}

/// Clips an area to the screen; nothing where no cell is left.
pub fn clip(area: Area, screen: Area) -> (r: Option<Area>)
    ensures
        r == clipped(area, screen),
{
    let r = intersection(area, screen);
    if r.w == 0 || r.h == 0 {
        None
    } else {
        Some(r)
    }
}

/// What is clipped to a screen lies on it, and is exactly what both hold.
pub proof fn clipped_is_on_screen(area: Area, screen: Area, x: int, y: int)
    requires
        screen.fits(),
    ensures
        shared(area, screen).w > 0 && shared(area, screen).h > 0 ==> shared(area, screen).within(screen),
        shared(area, screen).holds(x, y) <==> area.holds(x, y) && screen.holds(x, y),
{
}

/// The decimal digits of a number, as characters.
pub open spec fn digits(v: nat) -> Seq<char>
    decreases v,
{
    if v < 10 {
        seq![(48 + v) as char]
    } else {
        digits(v / 10).push((48 + v % 10) as char)
    }
}

fn digit(d: u16) -> (r: &'static str)
    requires
        d < 10,
    ensures
        r@ == seq![(48 + d) as char],
{
    proof {
        reveal_strlit("0");
        reveal_strlit("1");
        reveal_strlit("2");
        reveal_strlit("3");
        reveal_strlit("4");
        reveal_strlit("5");
        reveal_strlit("6");
        reveal_strlit("7");
        reveal_strlit("8");
        reveal_strlit("9");
    }
    let r: &'static str = if d == 0 {
        "0"
    } else if d == 1 {
        "1"
    } else if d == 2 {
        "2"
    } else if d == 3 {
        "3"
    } else if d == 4 {
        "4"
    } else if d == 5 {
        "5"
    } else if d == 6 {
        "6"
    } else if d == 7 {
        "7"
    } else if d == 8 {
        "8"
    } else {
        "9"
    };
    assert(r@ =~= seq![(48 + d) as char]);
    r
}

/// Appends the decimal digits of `v`.
fn append_digits(s: &mut String, v: u16)
    ensures
        final(s)@ == old(s)@ + digits(v as nat),
    decreases v,
{
    if v >= 10 {
        append_digits(s, v / 10);
    }
    s.append(digit(v % 10));
    assert(s@ =~= old(s)@ + digits(v as nat));
}

/// The sequence that moves the cursor to a cell.
pub open spec fn moved(x: u16, y: u16) -> Seq<char> {
    "\x1b["@ + digits((y + 1) as nat) + ";"@ + digits((x + 1) as nat) + "H"@
}

/// The sequence that sets a colour, of the foreground for `"38"` and of the background
/// for `"48"`.
pub open spec fn coloured(ground: Seq<char>, p: Paint) -> Seq<char> {
    match p {
        Paint::Rgb(r, g, b) => "\x1b["@ + ground + ";2;"@ + digits(r as nat) + ";"@ + digits(g as nat) + ";"@
            + digits(b as nat) + "m"@,
        _ => Seq::empty(),
    }
}

/// The sequences that set the looks of a cell.
pub open spec fn sgr(g: GlyphView) -> Seq<char> {
    "\x1b[0m"@ + coloured("38"@, g.fg) + coloured("48"@, g.bg) + (if g.modifier & BOLD != 0 {
        "\x1b[1m"@
    } else {
        Seq::empty()
    }) + (if g.modifier & REVERSED != 0 {
        "\x1b[7m"@
    } else {
        Seq::empty()
    })
}

/// Whether a cell follows another on its line and looks the same, so that neither the
/// cursor nor the looks have to be set again.
pub open spec fn follows(last: UpdateView, u: UpdateView) -> bool {
    &&& last.y == u.y
    &&& last.x + 1 == u.x
    &&& last.glyph.fg == u.glyph.fg
    &&& last.glyph.bg == u.glyph.bg
    &&& last.glyph.modifier == u.glyph.modifier
}

/// What is sent for the cells, one after the other.
pub open spec fn runs(us: Seq<UpdateView>) -> Seq<char>
    decreases us.len(),
{
    if us.len() == 0 {
        Seq::empty()
    } else {
        let rest = us.drop_last();
        let u = us.last();
        runs(rest) + (if rest.len() > 0 && follows(rest.last(), u) {
            Seq::empty()
        } else {
            moved(u.x, u.y) + sgr(u.glyph)
        }) + u.glyph.symbol
    }
}

/// What is sent for updates: the cells, and the looks set back at the end.
pub open spec fn emitted(us: Seq<UpdateView>) -> Seq<char> {
    if us.len() == 0 {
        Seq::empty()
    } else {
        runs(us) + "\x1b[0m"@
    }
}

fn append_coloured(s: &mut String, ground: &str, p: Paint)
    ensures
        final(s)@ == old(s)@ + coloured(ground@, p),
{
    match p {
        Paint::Rgb(r, g, b) => {
            s.append("\x1b[");
            s.append(ground);
            s.append(";2;");
            append_digits(s, r as u16);
            s.append(";");
            append_digits(s, g as u16);
            s.append(";");
            append_digits(s, b as u16);
            s.append("m");
        },
        _ => {},
    }
    assert(s@ =~= old(s)@ + coloured(ground@, p));
}

/// Appends the sequences that set the looks of a cell.
pub fn sgr_for(g: &Glyph, s: &mut String)
    ensures
        final(s)@ == old(s)@ + sgr(g@),
{
    s.append("\x1b[0m");
    append_coloured(s, "38", g.fg);
    append_coloured(s, "48", g.bg);
    if g.modifier & BOLD != 0 {
        s.append("\x1b[1m");
    }
    if g.modifier & REVERSED != 0 {
        s.append("\x1b[7m");
    }
    assert(s@ =~= old(s)@ + sgr(g@));
}

fn append_moved(s: &mut String, x: u16, y: u16)
    requires
        x < u16::MAX,
        y < u16::MAX,
    ensures
        final(s)@ == old(s)@ + moved(x, y),
{
    s.append("\x1b[");
    append_digits(s, y + 1);
    s.append(";");
    append_digits(s, x + 1);
    s.append("H");
    assert(s@ =~= old(s)@ + moved(x, y));
}

/// The escape sequences that send updates. Cells that follow one another and look the same
/// need no sequence between them.
pub fn emit(updates: &Vec<Update>) -> (r: String)
    requires
        forall|i: int|
            0 <= i < updates@.len() ==> (#[trigger] updates@[i]).x < u16::MAX && updates@[i].y < u16::MAX,
    ensures
        r@ == emitted(views(updates@)),
{
    let mut s: String = String::new();
    let mut i: usize = 0;
    while i < updates.len()
        invariant
            i <= updates@.len(),
            forall|k: int|
                0 <= k < updates@.len() ==> (#[trigger] updates@[k]).x < u16::MAX && updates@[k].y < u16::MAX,
            s@ == runs(views(updates@).take(i as int)),
        decreases updates.len() - i,
    {
        let u = &updates[i];
        let ghost before = s@;
        let ghost us = views(updates@).take(i + 1);
        assert(us.drop_last() =~= views(updates@).take(i as int));
        assert(us.last() == u@);
        let joined: bool = if i > 0 {
            let last = &updates[i - 1];
            assert(us.drop_last().last() == last@);
            last.y == u.y && last.x + 1 == u.x && last.glyph.fg == u.glyph.fg && last.glyph.bg == u.glyph.bg
                && last.glyph.modifier == u.glyph.modifier
        } else {
            false
        };
        if !joined {
            append_moved(&mut s, u.x, u.y);
            sgr_for(&u.glyph, &mut s);
        }
        s.append(u.glyph.symbol.as_str());
        assert(s@ =~= runs(us));
        i += 1;
    }
    assert(views(updates@).take(i as int) =~= views(updates@));
    if updates.len() > 0 {
        s.append("\x1b[0m");
    }
    s
}

/// A number, at least three characters wide.
pub open spec fn padded(v: nat) -> Seq<char> {
    if v < 10 {
        "  "@ + digits(v)
    } else if v < 100 {
        " "@ + digits(v)
    } else {
        digits(v)
    }
}

/// The part of a bar between its brackets: `width` characters, the first `fill` of them
/// filled.
pub open spec fn gauge(width: nat, fill: int) -> Seq<char> {
    Seq::new(width, |i: int| if i < fill { '#' } else { '-' })
}

/// A bar of `w` cells that is filled to `pct` percent, with the number behind it.
pub open spec fn bar(w: u16, pct: u8) -> Seq<char> {
    let p = if pct > 100 { 100 } else { pct as nat };
    let width = if w >= 7 { (w - 7) as nat } else { 0 };
    "["@ + gauge(width, (p * width / 100) as int) + "]"@ + " "@ + padded(p) + "%"@
}

/// The text of a bar.
pub fn bar_text(w: u16, pct: u8) -> (r: String)
    ensures
        r@ == bar(w, pct),
{
    let p: u16 = if pct > 100 { 100 } else { pct as u16 };
    let width: usize = if w >= 7 { (w - 7) as usize } else { 0 };
    assert(p * width <= 100 * 0xffff) by (nonlinear_arith)
        requires
            p <= 100,
            width <= 0xffff,
    ;
    let fill: usize = p as usize * width / 100;
    let mut s: String = String::new();
    s.append("[");
    let mut i: usize = 0;
    while i < width
        invariant
            i <= width,
            s@ == "["@ + gauge(width as nat, fill as int).take(i as int),
        decreases width - i,
    {
        proof {
            reveal_strlit("#");
            reveal_strlit("-");
        }
        let ghost g = gauge(width as nat, fill as int);
        if i < fill {
            s.append("#");
        } else {
            s.append("-");
        }
        assert(g.take(i + 1) =~= g.take(i as int).push(g[i as int]));
        assert(s@ =~= "["@ + g.take(i + 1));
        i += 1;
    }
    assert(gauge(width as nat, fill as int).take(i as int) =~= gauge(width as nat, fill as int));
    s.append("]");
    s.append(" ");
    if p < 10 {
        s.append("  ");
    } else if p < 100 {
        s.append(" ");
    }
    append_digits(&mut s, p);
    s.append("%");
    assert(s@ =~= bar(w, pct));
    s
}

proof fn lemma_digits(v: nat)
    ensures
        digits(v).len() >= 1,
        forall|k: int| 0 <= k < digits(v).len() ==> 48 <= (#[trigger] digits(v)[k]) as int <= 57,
    decreases v,
{
    if v >= 10 {
        lemma_digits(v / 10);
    }
}

proof fn lemma_bar_breaks(w: u16, pct: u8)
    ensures
        breaks(bar(w, pct)),
{
    reveal_strlit("[");
    reveal_strlit("]");
    reveal_strlit(" ");
    reveal_strlit("  ");
    reveal_strlit("%");
    let p = if pct > 100 { 100 } else { pct as nat };
    lemma_digits(p);
    let text = bar(w, pct);
    assert forall|i: int| 0 <= i && i + 0x2000 <= text.len() implies stretch_breaks(text, i) by {
        assert(0x20 <= text[i] as int <= 0x7e);
    }
}

/// Every cell of a screen with its place, row by row.
pub open spec fn everything(a: Area, s: Seq<GlyphView>) -> Seq<UpdateView> {
    Seq::new(
        a.count(),
        |i: int| UpdateView { x: a.column(i) as u16, y: a.line(i) as u16, glyph: s[i] },
    )
}

/// All cells of a buffer.
fn all_cells(b: &Buffer, a: Area) -> (r: Vec<Update>)
    requires
        area_of(*b) == a,
        a.fits(),
        cells(*b).len() == a.count(),
    ensures
        views(r@) == everything(a, cells(*b)),
        forall|i: int| 0 <= i < r@.len() ==> a.holds((#[trigger] r@[i]).x as int, r@[i].y as int),
{
    let mut out: Vec<Update> = Vec::new();
    let mut row: u16 = 0;
    while row < a.h
        invariant
            row <= a.h,
            area_of(*b) == a,
            a.fits(),
            cells(*b).len() == a.count(),
            out@.len() == row * a.w,
            views(out@) == everything(a, cells(*b)).take(row * a.w),
            forall|i: int| 0 <= i < out@.len() ==> a.holds((#[trigger] out@[i]).x as int, out@[i].y as int),
        decreases a.h - row,
    {
        let mut col: u16 = 0;
        while col < a.w
            invariant
                row < a.h,
                col <= a.w,
                area_of(*b) == a,
                a.fits(),
                cells(*b).len() == a.count(),
                out@.len() == row * a.w + col,
                views(out@) == everything(a, cells(*b)).take(row * a.w + col),
                forall|i: int|
                    0 <= i < out@.len() ==> a.holds((#[trigger] out@[i]).x as int, out@[i].y as int),
            decreases a.w - col,
        {
            let ghost i = row * a.w + col;
            proof {
                let w = a.w as int;
                assert(row * w + w <= w * a.h) by (nonlinear_arith)
                    requires
                        row + 1 <= a.h,
                        0 <= w,
                ;
                lemma_fundamental_div_mod_converse_div(i, w, row as int, col as int);
                lemma_fundamental_div_mod_converse_mod(i, w, row as int, col as int);
            }
            let u = Update { x: a.x + col, y: a.y + row, glyph: cell_at(b, a.x + col, a.y + row) };
            let ghost before = out@;
            out.push(u);
            proof {
                let all = everything(a, cells(*b));
                assert(all.take(i + 1) =~= all.take(i).push(all[i]));
                assert(views(out@) =~= views(before).push(u@));
            }
            col += 1;
        }
        assert((row + 1) * a.w == row * a.w + a.w) by (nonlinear_arith);
        row += 1;
    }
    assert(everything(a, cells(*b)).take(a.h * a.w) =~= everything(a, cells(*b))) by {
        assert(a.h * a.w == a.w * a.h) by (nonlinear_arith);
    }
    out
}

/// A screen: what is drawn, what was sent last, and whether everything has to be sent
/// again.
pub struct Tui {
    pub back: Buffer,
    pub front: Buffer,
    pub area: Area,
    pub full: bool,
}

impl Tui {
    /// Both buffers are of the screen's area, which has cells and starts at the origin.
    pub open spec fn wf(self) -> bool {
        &&& self.area.x == 0 && self.area.y == 0 && self.area.w > 0 && self.area.h > 0
        &&& area_of(self.back) == self.area
        &&& area_of(self.front) == self.area
        &&& cells(self.back).len() == self.area.count()
        &&& cells(self.front).len() == self.area.count()
        &&& plain(cells(self.back))
        &&& plain(cells(self.front))
    }

    /// Texts can be drawn: the screen is not too wide.
    pub open spec fn drawable(self) -> bool {
        self.wf() && self.area.w <= WIDEST && self.area.h <= WIDEST
    }

    /// A screen of empty cells, everything to be sent.
    pub open spec fn empty_screen(self, w: u16, h: u16) -> bool {
        &&& self.wf()
        &&& self.area == (Area { x: 0, y: 0, w, h })
        &&& cells(self.back) == Seq::new(self.area.count(), |i: int| blank_glyph())
        &&& cells(self.front) == cells(self.back)
        &&& self.full
    }

    /// The screen that is there before `init`.
    pub fn new() -> (r: Self)
        ensures
            r.empty_screen(COLUMNS, LINES),
    {
        let area = Area { x: 0, y: 0, w: COLUMNS, h: LINES };
        Tui { back: blank(area), front: blank(area), area, full: true }
    }

    /// Makes an empty screen of the given size, at least one cell.
    pub fn init(&mut self, width: u16, height: u16)
        ensures
            final(self).empty_screen(
                if width == 0 { 1 } else { width },
                if height == 0 { 1 } else { height },
            ),
    {
        let w: u16 = if width == 0 { 1 } else { width };
        let h: u16 = if height == 0 { 1 } else { height };
        let area = Area { x: 0, y: 0, w, h };
        self.back = blank(area);
        self.front = blank(area);
        self.area = area;
        self.full = true;
    }

    /// Empties every cell of what is drawn.
    pub fn clear(&mut self)
        requires
            old(self).wf(),
        ensures
            final(self).wf(),
            final(self).area == old(self).area,
            final(self).front == old(self).front,
            final(self).full == old(self).full,
            cells(final(self).back) == Seq::new(old(self).area.count(), |i: int| blank_glyph()),
    {
        self.back = blank(self.area);
    }

    /// Cells inside the area may have been drawn anew; nothing else has changed.
    pub open spec fn redrawn(self, o: Tui, area: Area) -> bool {
        &&& self.wf()
        &&& self.area == o.area
        &&& self.front == o.front
        &&& self.full == o.full
        &&& forall|i: int|
            0 <= i < cells(o.back).len() && !area.holds(o.area.column(i), o.area.line(i)) ==> (#[trigger] cells(
                self.back,
            )[i]) == cells(o.back)[i]
    }

    /// Draws a text in one colour into an area, as far as the area lies on the screen.
    pub fn draw_text(&mut self, text: String, area: Area, fg: Rgb)
        requires
            old(self).drawable(),
            breaks(text@),
        ensures
            final(self).redrawn(*old(self), area),
            cells(final(self).back) == match clipped(area, old(self).area) {
                None => cells(old(self).back),
                Some(r) => paragraph_cells(cells(old(self).back), old(self).area, text@, r, fg),
            },
    {
        let ghost old_self = *self;
        if let Some(r) = clip(area, self.area) {
            paragraph(&mut self.back, text, r, fg);
            proof {
                lemma_outside(area, old_self.area);
            }
        }
    }

    /// Draws a bar that is filled to `pct` percent, over the width of the area.
    pub fn draw_bar(&mut self, pct: u8, area: Area, fg: Rgb)
        requires
            old(self).drawable(),
        ensures
            final(self).redrawn(*old(self), area),
            cells(final(self).back) == match clipped(area, old(self).area) {
                None => cells(old(self).back),
                Some(r) => paragraph_cells(cells(old(self).back), old(self).area, bar(r.w, pct), r, fg),
            },
    {
        let ghost old_self = *self;
        if let Some(r) = clip(area, self.area) {
            let text = bar_text(r.w, pct);
            proof {
                lemma_bar_breaks(r.w, pct);
                lemma_outside(area, old_self.area);
            }
            paragraph(&mut self.back, text, r, fg);
        }
    }

    /// Draws a table with a header row in exchanged colours into an area, as far as the area
    /// lies on the screen. The widths that columns get where they do not all fit are not
    /// stated: they depend on the order in which hash maps are walked.
    pub fn draw_table(&mut self, headers: Vec<String>, rows: Vec<Vec<String>>, widths: Vec<u16>, area: Area)
        requires
            old(self).drawable(),
            countable(seq![headers]),
            countable(rows@),
        ensures
            final(self).redrawn(*old(self), area),
            match clipped(area, old(self).area) {
                None => cells(final(self).back) == cells(old(self).back),
                Some(r) => {
                    let t = TableView::of(headers@, rows@, widths@, REVERSED, COLUMN_SPACING);
                    &&& t.draws(cells(old(self).back), cells(final(self).back), old(self).area, r)
                    &&& t.fits(r.w as int) ==> cells(final(self).back) == table_cells(
                        cells(old(self).back),
                        old(self).area,
                        t,
                        r,
                    )
                },
            },
    {
        let ghost old_self = *self;
        if let Some(r) = clip(area, self.area) {
            table(&mut self.back, headers, rows, widths, r, REVERSED, COLUMN_SPACING);
            proof {
                lemma_outside(area, old_self.area);
            }
        }
    }

    /// The escape sequences that bring the terminal from what was sent last to what is
    /// drawn; everything on the first call and after `init`.
    pub fn flush(&mut self) -> (r: String)
        requires
            old(self).wf(),
        ensures
            final(self).wf(),
            final(self).area == old(self).area,
            final(self).back == old(self).back,
            cells(final(self).front) == cells(old(self).back),
            !final(self).full,
            r@ == if old(self).full {
                "\x1b[2J"@ + emitted(everything(old(self).area, cells(old(self).back)))
            } else {
                emitted(diff_of(old(self).area, cells(old(self).front), cells(old(self).back)))
            },
            !old(self).full && old(self).area.count() <= 0x1_0000 && narrow(cells(old(self).front)) && narrow(
                cells(old(self).back),
            ) ==> r@ == emitted(
                changed(
                    old(self).area,
                    cells(old(self).front),
                    cells(old(self).back),
                    cells(old(self).back).len() as int,
                ),
            ),
    {
        let mut out: String = String::new();
        if self.full {
            self.full = false;
            out.append("\x1b[2J");
            let all = all_cells(&self.back, self.area);
            out.append(emit(&all).as_str());
        } else {
            let updates = diff(&self.front, &self.back);
            out.append(emit(&updates).as_str());
        }
        self.front = copy(&self.back);
        out
    }
}

/// The part of an area that lies on a screen, where there is one.
pub open spec fn clipped(area: Area, screen: Area) -> Option<Area> {
    if shared(area, screen).w == 0 || shared(area, screen).h == 0 {
        None
    } else {
        Some(shared(area, screen))
    }
}

/// Cells outside an area are outside its part on the screen.
proof fn lemma_outside(area: Area, screen: Area)
    requires
        screen.fits(),
    ensures
        forall|x: int, y: int| #[trigger] shared(area, screen).holds(x, y) ==> area.holds(x, y),
{
}

proof fn lemma_nothing_changed(a: Area, s: Seq<GlyphView>, n: int)
    ensures
        changed(a, s, s, n) == Seq::<UpdateView>::empty(),
    decreases n,
{
    if n > 0 {
        lemma_nothing_changed(a, s, n - 1);
    }
}

/// A screen of printable ASCII characters that was sent and is not drawn on again sends
/// nothing the second time.
pub proof fn unchanged_screen_sends_nothing(a: Area, s: Seq<GlyphView>)
    ensures
        emitted(changed(a, s, s, s.len() as int)) == Seq::<char>::empty(),
{
    lemma_nothing_changed(a, s, s.len() as int);
}

/// A cell that differs is sent: it is among the updates, with its place.
pub proof fn change_is_sent(a: Area, from: Seq<GlyphView>, to: Seq<GlyphView>, i: int, n: int)
    requires
        0 <= i < n,
        from[i] != to[i],
    ensures
        changed(a, from, to, n).contains(
            (UpdateView { x: a.column(i) as u16, y: a.line(i) as u16, glyph: to[i] }),
        ),
    decreases n,
{
    let u = UpdateView { x: a.column(i) as u16, y: a.line(i) as u16, glyph: to[i] };
    let rest = changed(a, from, to, n - 1);
    if i == n - 1 {
        assert(rest.push(u)[rest.len() as int] == u);
    } else {
        change_is_sent(a, from, to, i, n - 1);
        let k = choose|k: int| 0 <= k < rest.len() && rest[k] == u;
        if from[n - 1] != to[n - 1] {
            assert(changed(a, from, to, n)[k] == u);
        }
    }
}

} // verus!
