//! Drawing a terminal: colours, runs of text, and what keys send.

use alacritty_terminal::grid::Indexed;
use alacritty_terminal::index::{Column, Line, Point};
use alacritty_terminal::selection::SelectionRange;
use alacritty_terminal::term::cell::{Cell as GridCell, Flags};
use alacritty_terminal::vte::ansi::CursorShape as GridCursor;
use vstd::prelude::*;
use vstd::string::*;

use crate::chars;
use crate::chars::ascii_lower;
use crate::offset::bytes;
use crate::term_colors::{packed, TerminalPalette};
use crate::text;
use crate::text::optional;

verus! {

/// A colour by its part in a theme.
#[derive(Clone, Copy, PartialEq, Eq, Debug, Structural)]
pub enum NamedColor {
    Black,
    Red,
    Green,
    Yellow,
    Blue,
    Magenta,
    Cyan,
    White,
    BrightBlack,
    BrightRed,
    BrightGreen,
    BrightYellow,
    BrightBlue,
    BrightMagenta,
    BrightCyan,
    BrightWhite,
    Foreground,
    Background,
    Cursor,
    DimBlack,
    DimRed,
    DimGreen,
    DimYellow,
    DimBlue,
    DimMagenta,
    DimCyan,
    DimWhite,
    BrightForeground,
    DimForeground,
}

/// A colour as a program asks for it.
#[derive(Clone, Copy, PartialEq, Eq, Debug, Structural)]
pub enum Color {
    Named(NamedColor),
    /// Red, green and blue.
    Spec(u8, u8, u8),
    /// By its number among 256.
    Indexed(u8),
}

/// The number in the palette of a colour that has one.
pub open spec fn palette_index(c: NamedColor) -> Option<int> {
    match c {
        NamedColor::Black | NamedColor::DimBlack => Some(0int),
        NamedColor::Red | NamedColor::DimRed => Some(1int),
        NamedColor::Green | NamedColor::DimGreen => Some(2int),
        NamedColor::Yellow | NamedColor::DimYellow => Some(3int),
        NamedColor::Blue | NamedColor::DimBlue => Some(4int),
        NamedColor::Magenta | NamedColor::DimMagenta => Some(5int),
        NamedColor::Cyan | NamedColor::DimCyan => Some(6int),
        NamedColor::White | NamedColor::DimWhite => Some(7int),
        NamedColor::BrightBlack => Some(8int),
        NamedColor::BrightRed => Some(9int),
        NamedColor::BrightGreen => Some(10int),
        NamedColor::BrightYellow => Some(11int),
        NamedColor::BrightBlue => Some(12int),
        NamedColor::BrightMagenta => Some(13int),
        NamedColor::BrightCyan => Some(14int),
        NamedColor::BrightWhite => Some(15int),
        _ => None,
    }
}

/// A basic colour as a number: from the palette, where a dim one is as bright as the
/// basic one; white where the palette has none.
pub open spec fn named_number(c: NamedColor, p: TerminalPalette) -> int {
    match palette_index(c) {
        Some(k) => p.numbers()[k],
        None => 0xffffff,
    }
}

/// A basic colour.
pub fn named_rgb(c: NamedColor, p: &TerminalPalette) -> (r: [u8; 3])
    ensures
        packed(r) == named_number(c, *p),
{
    match c {
        NamedColor::Black => p.black,
        NamedColor::Red => p.red,
        NamedColor::Green => p.green,
        NamedColor::Yellow => p.yellow,
        NamedColor::Blue => p.blue,
        NamedColor::Magenta => p.magenta,
        NamedColor::Cyan => p.cyan,
        NamedColor::White => p.white,
        NamedColor::BrightBlack => p.bright_black,
        NamedColor::BrightRed => p.bright_red,
        NamedColor::BrightGreen => p.bright_green,
        NamedColor::BrightYellow => p.bright_yellow,
        NamedColor::BrightBlue => p.bright_blue,
        NamedColor::BrightMagenta => p.bright_magenta,
        NamedColor::BrightCyan => p.bright_cyan,
        NamedColor::BrightWhite => p.bright_white,
        NamedColor::DimBlack => p.black,
        NamedColor::DimRed => p.red,
        NamedColor::DimGreen => p.green,
        NamedColor::DimYellow => p.yellow,
        NamedColor::DimBlue => p.blue,
        NamedColor::DimMagenta => p.magenta,
        NamedColor::DimCyan => p.cyan,
        NamedColor::DimWhite => p.white,
        _ => [0xff, 0xff, 0xff],
    }
}

/// A level of the cube of colours.
pub open spec fn level(k: int) -> int {
    if k == 0 {
        0
    } else {
        55 + 40 * k
    }
}

/// One of 256 colours as a number: the palette, a cube of six levels, and 24 greys.
pub open spec fn indexed_number(i: int, p: TerminalPalette) -> int {
    if i < 16 {
        p.numbers()[i]
    } else if i < 232 {
        let n = i - 16;
        level(n / 36) * 65536 + level(n / 6 % 6) * 256 + level(n % 6)
    } else {
        let v = 8 + (i - 232) * 10;
        v * 65536 + v * 256 + v
    }
}

fn cube_level(k: u8) -> (r: u8)
    requires
        k < 6,
    ensures
        r == level(k as int),
{
    if k == 0 {
        0
    } else {
        55 + 40 * k
    }
}

/// One of 256 colours.
pub fn indexed_rgb(i: u8, p: &TerminalPalette) -> (r: [u8; 3])
    ensures
        packed(r) == indexed_number(i as int, *p),
{
    if i < 16 {
        let name = match i {
            0 => NamedColor::Black,
            1 => NamedColor::Red,
            2 => NamedColor::Green,
            3 => NamedColor::Yellow,
            4 => NamedColor::Blue,
            5 => NamedColor::Magenta,
            6 => NamedColor::Cyan,
            7 => NamedColor::White,
            8 => NamedColor::BrightBlack,
            9 => NamedColor::BrightRed,
            10 => NamedColor::BrightGreen,
            11 => NamedColor::BrightYellow,
            12 => NamedColor::BrightBlue,
            13 => NamedColor::BrightMagenta,
            14 => NamedColor::BrightCyan,
            _ => NamedColor::BrightWhite,
        };
        named_rgb(name, p)
    } else if i < 232 {
        let n: u8 = i - 16;
        [cube_level(n / 36), cube_level(n / 6 % 6), cube_level(n % 6)]
    } else {
        let v: u8 = 8 + (i - 232) * 10;
        [v, v, v]
    }
}

/// The colours of a theme for what has no colour of its own.
#[derive(Clone, Copy, PartialEq, Debug)]
pub struct Theme {
    pub fg: [u8; 3],
    pub bg: [u8; 3],
    pub palette: TerminalPalette,
}

/// A colour as a number.
pub open spec fn color_number(c: Color, t: Theme) -> int {
    match c {
        Color::Named(NamedColor::Background) => packed(t.bg),
        Color::Named(
            NamedColor::Foreground | NamedColor::Cursor | NamedColor::BrightForeground
            | NamedColor::DimForeground,
        ) => packed(t.fg),
        Color::Named(n) => named_number(n, t.palette),
        Color::Spec(r, g, b) => r * 65536 + g * 256 + b,
        Color::Indexed(i) => indexed_number(i as int, t.palette),
    }
}

/// The colour that is drawn for one that a program asks for.
pub fn convert_color(c: Color, t: &Theme) -> (r: [u8; 3])
    ensures
        packed(r) == color_number(c, *t),
{
    match c {
        Color::Named(n) => match n {
            NamedColor::Background => t.bg,
            NamedColor::Foreground => t.fg,
            NamedColor::Cursor => t.fg,
            NamedColor::BrightForeground => t.fg,
            NamedColor::DimForeground => t.fg,
            _ => named_rgb(n, &t.palette),
        },
        Color::Spec(r, g, b) => [r, g, b],
        Color::Indexed(i) => indexed_rgb(i, &t.palette),
    }
}

/// Numbers tell colours apart.
pub proof fn numbers_tell_colours_apart(a: [u8; 3], b: [u8; 3])
    requires
        packed(a) == packed(b),
    ensures
        a@ == b@,
{
    assert(a@ =~= b@);
}

fn same_color(a: [u8; 3], b: [u8; 3]) -> (r: bool)
    ensures
        r == (packed(a) == packed(b)),
{
    a[0] == b[0] && a[1] == b[1] && a[2] == b[2]
}

/// What holds of a cell, bit by bit.
pub const INVERSE: u16 = 0x1;

pub const BOLD: u16 = 0x2;

pub const ITALIC: u16 = 0x4;

pub const UNDERLINE: u16 = 0x8;

pub const WIDE_CHAR: u16 = 0x20;

pub const WIDE_CHAR_SPACER: u16 = 0x40;

/// Something holds of a cell.
pub open spec fn has_flag(flags: u16, flag: u16) -> bool {
    flags & flag != 0
}

/// A cell of the screen. Rows count from the first of the screen and may be negative;
/// `flags` holds what is true of it.
#[derive(Clone, Copy, PartialEq, Eq, Debug, Structural)]
pub struct Cell {
    pub line: i32,
    pub column: usize,
    pub c: char,
    pub fg: Color,
    pub bg: Color,
    pub flags: u16,
}

/// The shape of the cursor.
#[derive(Clone, Copy, PartialEq, Eq, Debug, Structural)]
pub enum CursorShape {
    Block,
    Underline,
    Beam,
    HollowBlock,
    Hidden,
}

/// What is selected, from a cell to another, as a run of text or as a rectangle.
#[derive(Clone, Copy, PartialEq, Eq, Debug, Structural)]
pub struct Span {
    pub start_line: i32,
    pub start_column: usize,
    pub end_line: i32,
    pub end_column: usize,
    pub is_block: bool,
}

/// A place lies within what is selected.
pub open spec fn covers(s: Span, line: int, column: int) -> bool {
    &&& s.start_line <= line <= s.end_line
    &&& s.start_column <= column || (s.start_line != line && !s.is_block)
    &&& s.end_column >= column || (s.end_line != line && !s.is_block)
}

/// A place is a corner of what is selected: where it begins or ends, and, of a
/// rectangle, either of the other corners.
pub open spec fn is_corner(s: Span, line: int, column: int) -> bool {
    ||| s.start_line == line && s.start_column == column
    ||| s.end_line == line && s.end_column == column
    ||| s.is_block && s.start_line == line && s.end_column == column
    ||| s.is_block && s.end_line == line && s.start_column == column
}

/// A cell is drawn as selected: it lies within, or its right half does where it is wide.
/// With a block for a cursor, corners are left out.
pub open spec fn selects(s: Span, line: int, column: int, flags: u16, shape: CursorShape) -> bool {
    &&& !(shape == CursorShape::Block && is_corner(s, line, column))
    &&& covers(s, line, column) || (has_flag(flags, WIDE_CHAR) && covers(s, line, column + 1))
}

/// `alacritty_terminal::selection::SelectionRange::contains_cell`, for a cell at a place
/// with the given bits, asked at that same place: whether the cell is drawn as selected.
#[verifier::external_body]
fn in_selection(s: Span, line: i32, column: usize, flags: u16, shape: CursorShape) -> (r: bool)
    requires
        column < usize::MAX,
    ensures
        r == selects(s, line as int, column as int, flags, shape),
{
    let start = Point::new(Line(s.start_line), Column(s.start_column));
    let end = Point::new(Line(s.end_line), Column(s.end_column));
    let point = Point::new(Line(line), Column(column));
    let cell = GridCell { flags: Flags::from_bits_retain(flags), ..GridCell::default() };
    let shape = match shape {
        CursorShape::Block => GridCursor::Block,
        CursorShape::Underline => GridCursor::Underline,
        CursorShape::Beam => GridCursor::Beam,
        CursorShape::HollowBlock => GridCursor::HollowBlock,
        CursorShape::Hidden => GridCursor::Hidden,
    };
    let range = SelectionRange { start, end, is_block: s.is_block };
    range.contains_cell(&Indexed { point, cell: &cell }, point, shape)
}

/// What is painted behind a cell.
#[derive(Clone, Copy, PartialEq, Debug)]
pub enum Fill {
    /// It is selected.
    Selection,
    Color([u8; 3]),
}

/// What is painted behind a cell, as a number: -1 for what is selected.
pub open spec fn fill_number(f: Fill) -> int {
    match f {
        Fill::Selection => -1,
        Fill::Color(c) => packed(c),
    }
}

/// The colours of a cell: of its character, of what it is seen against, and what is
/// painted behind it, if anything.
#[derive(Clone, Copy, PartialEq, Debug)]
pub struct Shade {
    pub fg: [u8; 3],
    pub against: [u8; 3],
    pub fill: Option<Fill>,
}

/// The two colours that a program asks for, exchanged where the cell is inverted.
pub open spec fn cell_colors(cell: Cell) -> (Color, Color) {
    if has_flag(cell.flags, INVERSE) {
        (cell.bg, cell.fg)
    } else {
        (cell.fg, cell.bg)
    }
}

/// `s` are the colours of a cell: what is selected is painted so; otherwise the
/// background is painted unless it is that of the theme.
pub open spec fn is_shade(s: Shade, cell: Cell, t: Theme, selected: bool) -> bool {
    let (fg, bg) = cell_colors(cell);
    let own = bg != Color::Named(NamedColor::Background) && color_number(bg, t) != packed(t.bg);
    &&& packed(s.fg) == color_number(fg, t)
    &&& match s.fill {
        Some(f) => (selected || own) && fill_number(f) == if selected {
            -1
        } else {
            color_number(bg, t)
        },
        None => !selected && !own,
    }
    &&& packed(s.against) == if selected {
        packed(t.fg)
    } else if own {
        color_number(bg, t)
    } else {
        packed(t.bg)
    }
}

/// The colours of a cell.
pub fn shade(cell: &Cell, t: &Theme, selected: bool) -> (r: Shade)
    ensures
        is_shade(r, *cell, *t, selected),
{
    let inverse = cell.flags & INVERSE != 0;
    let (fg, bg) = if inverse {
        (cell.bg, cell.fg)
    } else {
        (cell.fg, cell.bg)
    };
    let paper = convert_color(bg, t);
    let plain = bg == Color::Named(NamedColor::Background);
    let ink = convert_color(fg, t);
    if selected {
        Shade { fg: ink, against: t.fg, fill: Some(Fill::Selection) }
    } else if !plain && !same_color(paper, t.bg) {
        Shade { fg: ink, against: paper, fill: Some(Fill::Color(paper)) }
    } else {
        Shade { fg: ink, against: t.bg, fill: None }
    }
}

/// Whether a cell is drawn as selected.
pub fn is_selected(selection: Option<Span>, cell: &Cell, shape: CursorShape) -> (r: bool)
    requires
        cell.column < usize::MAX,
    ensures
        r == match selection {
            Some(s) => selects(s, cell.line as int, cell.column as int, cell.flags, shape),
            None => false,
        },
{
    match selection {
        Some(s) => in_selection(s, cell.line, cell.column, cell.flags, shape),
        None => false,
    }
}

/// A cell as it is drawn: `ink` is the colour of its character once that can be read
/// against what is behind it.
#[derive(Clone, Copy, PartialEq, Debug)]
pub struct Painted {
    pub line: i32,
    pub column: usize,
    pub c: char,
    pub flags: u16,
    pub ink: [u8; 3],
    pub fill: Option<Fill>,
}

/// A run of cells of one row with one colour behind them.
#[derive(Clone, Copy, PartialEq, Debug)]
pub struct LayoutRect {
    pub line: i32,
    pub column: usize,
    pub cells: usize,
    pub fill: Fill,
}

/// A run of characters of one row that look alike.
pub struct BatchedTextRun {
    pub line: i32,
    pub column: usize,
    pub text: String,
    pub ink: [u8; 3],
    pub bold: bool,
    pub italic: bool,
    pub underline: bool,
}

/// Where the cursor is.
#[derive(Clone, Copy, PartialEq, Eq, Debug, Structural)]
pub struct CursorInfo {
    pub line: i32,
    pub column: usize,
}

/// The row on the screen of a row of the history, where the screen is scrolled back.
pub fn screen_line(line: i32, offset: i32) -> (r: i32)
    requires
        i32::MIN <= line + offset <= i32::MAX,
    ensures
        r == line + offset,
{
    line + offset
}

/// A rectangle, its colour as a number.
pub struct Band {
    pub line: int,
    pub column: int,
    pub cells: int,
    pub fill: int,
}

/// A run, its text as a sequence and its colour as a number.
pub struct Piece {
    pub line: int,
    pub column: int,
    pub text: Seq<char>,
    pub ink: int,
    pub bold: bool,
    pub italic: bool,
    pub underline: bool,
}

impl View for LayoutRect {
    type V = Band;

    open spec fn view(&self) -> Band {
        Band {
            line: self.line as int,
            column: self.column as int,
            cells: self.cells as int,
            fill: fill_number(self.fill),
        }
    }
}

impl View for BatchedTextRun {
    type V = Piece;

    open spec fn view(&self) -> Piece {
        Piece {
            line: self.line as int,
            column: self.column as int,
            text: self.text@,
            ink: packed(self.ink),
            bold: self.bold,
            italic: self.italic,
            underline: self.underline,
        }
    }
}

pub open spec fn bands(v: Seq<LayoutRect>) -> Seq<Band> {
    v.map_values(|r: LayoutRect| r@)
}

pub open spec fn text_pieces(v: Seq<BatchedTextRun>) -> Seq<Piece> {
    v.map_values(|r: BatchedTextRun| r@)
}

/// A cell goes on where a rectangle ends.
pub open spec fn extends_band(b: Band, p: Painted) -> bool {
    &&& b.line == p.line
    &&& b.column + b.cells == p.column
    &&& p.fill is Some
    &&& b.fill == fill_number(p.fill->0)
}

/// The rectangles behind the cells: neighbours of one colour share one.
pub open spec fn bands_of(cells: Seq<Painted>) -> Seq<Band>
    decreases cells.len(),
{
    if cells.len() == 0 {
        Seq::empty()
    } else {
        let before = bands_of(cells.drop_last());
        let p = cells.last();
        if p.fill is None {
            before
        } else if before.len() > 0 && extends_band(before.last(), p) {
            before.drop_last().push(Band { cells: before.last().cells + 1, ..before.last() })
        } else {
            before.push(
                Band {
                    line: p.line as int,
                    column: p.column as int,
                    cells: 1,
                    fill: fill_number(p.fill->0),
                },
            )
        }
    }
}

/// A cell has a character that is drawn: not the right half of a wide one, and not a
/// blank without a line under it.
pub open spec fn is_drawn(p: Painted) -> bool {
    !has_flag(p.flags, WIDE_CHAR_SPACER) && !(p.c == ' ' && !has_flag(p.flags, UNDERLINE))
}

/// A cell looks like a run and goes on where it ends.
pub open spec fn extends_piece(r: Piece, p: Painted) -> bool {
    &&& r.line == p.line
    &&& r.column + r.text.len() == p.column
    &&& r.ink == packed(p.ink)
    &&& r.bold == has_flag(p.flags, BOLD)
    &&& r.italic == has_flag(p.flags, ITALIC)
    &&& r.underline == has_flag(p.flags, UNDERLINE)
}

/// The runs of characters: neighbours that look alike share one.
pub open spec fn pieces_of(cells: Seq<Painted>) -> Seq<Piece>
    decreases cells.len(),
{
    if cells.len() == 0 {
        Seq::empty()
    } else {
        let before = pieces_of(cells.drop_last());
        let p = cells.last();
        if !is_drawn(p) {
            before
        } else if before.len() > 0 && extends_piece(before.last(), p) {
            before.drop_last().push(Piece { text: before.last().text.push(p.c), ..before.last() })
        } else {
            before.push(
                Piece {
                    line: p.line as int,
                    column: p.column as int,
                    text: seq![p.c],
                    ink: packed(p.ink),
                    bold: has_flag(p.flags, BOLD),
                    italic: has_flag(p.flags, ITALIC),
                    underline: has_flag(p.flags, UNDERLINE),
                },
            )
        }
    }
}

fn same_fill(a: Fill, b: Fill) -> (r: bool)
    ensures
        r == (fill_number(a) == fill_number(b)),
{
    match (a, b) {
        (Fill::Selection, Fill::Selection) => true,
        (Fill::Color(x), Fill::Color(y)) => same_color(x, y),
        _ => false,
    }
}

fn add_fill(rects: &mut Vec<LayoutRect>, p: &Painted, fill: Fill, Ghost(cells): Ghost<Seq<Painted>>)
    requires
        p.fill == Some(fill),
        cells.len() > 0,
        cells.last() == *p,
        bands(old(rects)@) == bands_of(cells.drop_last()),
        forall|i: int|
            0 <= i < old(rects)@.len() ==> (#[trigger] old(rects)@[i]).column + old(rects)@[i].cells
                <= usize::MAX,
        p.column < usize::MAX,
    ensures
        bands(final(rects)@) == bands_of(cells),
        forall|i: int|
            0 <= i < final(rects)@.len() ==> (#[trigger] final(rects)@[i]).column
                + final(rects)@[i].cells <= usize::MAX,
{
    let ghost before = rects@;
    let n: usize = rects.len();
    assert(bands(before).len() == n);
    if n > 0 {
        let last = rects[n - 1];
        assert(bands(before).last() == last@);
        if last.line == p.line && last.column + last.cells == p.column && same_fill(last.fill, fill)
        {
            let wider = LayoutRect {
                line: last.line,
                column: last.column,
                cells: last.cells + 1,
                fill: last.fill,
            };
            rects.set(n - 1, wider);
            assert(bands(rects@) =~= bands(before).drop_last().push(wider@));
            return;
        }
    }
    let fresh = LayoutRect { line: p.line, column: p.column, cells: 1, fill };
    rects.push(fresh);
    assert(bands(rects@) =~= bands(before).push(fresh@));
}

fn add_char(runs: &mut Vec<BatchedTextRun>, p: &Painted, Ghost(cells): Ghost<Seq<Painted>>)
    requires
        is_drawn(*p),
        cells.len() > 0,
        cells.last() == *p,
        text_pieces(old(runs)@) == pieces_of(cells.drop_last()),
    ensures
        text_pieces(final(runs)@) == pieces_of(cells),
{
    let ghost before = runs@;
    let n: usize = runs.len();
    assert(text_pieces(before).len() == n);
    let bold = p.flags & BOLD != 0;
    let italic = p.flags & ITALIC != 0;
    let underline = p.flags & UNDERLINE != 0;
    if n > 0 {
        assert(text_pieces(before).last() == before[n - 1]@);
        let last = &runs[n - 1];
        let count: usize = text::count(last.text.as_str());
        let next = count <= p.column && p.column - count == last.column;
        if last.line == p.line && next && same_color(last.ink, p.ink) && last.bold == bold
            && last.italic == italic && last.underline == underline {
            let mut longer = last.text.clone();
            longer.push(p.c);
            let wider = BatchedTextRun {
                line: last.line,
                column: last.column,
                text: longer,
                ink: last.ink,
                bold,
                italic,
                underline,
            };
            assert(wider@ == (Piece { text: before[n - 1]@.text.push(p.c), ..before[n - 1]@ }));
            runs.set(n - 1, wider);
            assert(text_pieces(runs@) =~= text_pieces(before).drop_last().push(wider@));
            return;
        }
    }
    let mut only = String::new();
    only.push(p.c);
    assert(only@ =~= seq![p.c]);
    let fresh = BatchedTextRun {
        line: p.line,
        column: p.column,
        text: only,
        ink: p.ink,
        bold,
        italic,
        underline,
    };
    runs.push(fresh);
    assert(text_pieces(runs@) =~= text_pieces(before).push(fresh@));
}

/// What is drawn of a terminal.
pub struct TerminalLayoutState {
    pub rects: Vec<LayoutRect>,
    pub runs: Vec<BatchedTextRun>,
    pub cursor: Option<CursorInfo>,
}

/// What is drawn of cells: rectangles behind them and runs of characters.
pub fn build_layout(cells: &Vec<Painted>, cursor: Option<CursorInfo>) -> (r: TerminalLayoutState)
    requires
        forall|i: int| 0 <= i < cells@.len() ==> (#[trigger] cells@[i]).column < usize::MAX,
    ensures
        bands(r.rects@) == bands_of(cells@),
        text_pieces(r.runs@) == pieces_of(cells@),
        r.cursor == cursor,
{
    let mut rects: Vec<LayoutRect> = Vec::new();
    let mut runs: Vec<BatchedTextRun> = Vec::new();
    assert(bands(rects@) =~= Seq::<Band>::empty());
    assert(text_pieces(runs@) =~= Seq::<Piece>::empty());
    let mut i: usize = 0;
    while i < cells.len()
        invariant
            i <= cells@.len(),
            forall|k: int| 0 <= k < cells@.len() ==> (#[trigger] cells@[k]).column < usize::MAX,
            bands(rects@) == bands_of(cells@.take(i as int)),
            text_pieces(runs@) == pieces_of(cells@.take(i as int)),
            forall|k: int|
                0 <= k < rects@.len() ==> (#[trigger] rects@[k]).column + rects@[k].cells
                    <= usize::MAX,
        decreases cells@.len() - i,
    {
        let ghost now = cells@.take(i + 1);
        assert(now.drop_last() =~= cells@.take(i as int));
        assert(now.last() == cells@[i as int]);
        let p = &cells[i];
        if let Some(fill) = p.fill {
            add_fill(&mut rects, p, fill, Ghost(now));
        }
        let spacer = p.flags & WIDE_CHAR_SPACER != 0;
        let blank = p.c == ' ' && p.flags & UNDERLINE == 0;
        if !spacer && !blank {
            add_char(&mut runs, p, Ghost(now));
        }
        i += 1;
    }
    assert(cells@.take(i as int) =~= cells@);
    TerminalLayoutState { rects, runs, cursor }
}

/// The characters of all runs, one after the other.
pub open spec fn run_text(p: Seq<Piece>) -> Seq<char>
    decreases p.len(),
{
    if p.len() == 0 {
        Seq::empty()
    } else {
        run_text(p.drop_last()) + p.last().text
    }
}

/// The characters of the cells that are drawn.
pub open spec fn drawn_text(cells: Seq<Painted>) -> Seq<char>
    decreases cells.len(),
{
    if cells.len() == 0 {
        Seq::empty()
    } else if is_drawn(cells.last()) {
        drawn_text(cells.drop_last()).push(cells.last().c)
    } else {
        drawn_text(cells.drop_last())
    }
}

/// Sharing runs neither loses nor repeats a character, and keeps them in order.
pub proof fn runs_keep_the_text(cells: Seq<Painted>)
    ensures
        run_text(pieces_of(cells)) == drawn_text(cells),
    decreases cells.len(),
{
    if cells.len() > 0 {
        let rest = cells.drop_last();
        runs_keep_the_text(rest);
        let before = pieces_of(rest);
        let now = pieces_of(cells);
        let p = cells.last();
        if is_drawn(p) {
            if before.len() > 0 && extends_piece(before.last(), p) {
                assert(now.drop_last() =~= before.drop_last());
                assert(now.last().text =~= before.last().text + seq![p.c]);
                assert(run_text(now) =~= run_text(before).push(p.c));
            } else {
                assert(now.drop_last() =~= before);
                assert(run_text(now) =~= run_text(before).push(p.c));
            }
        }
    }
}

/// How many cells all rectangles cover.
pub open spec fn covered(b: Seq<Band>) -> int
    decreases b.len(),
{
    if b.len() == 0 {
        0
    } else {
        covered(b.drop_last()) + b.last().cells
    }
}

/// How many cells have a colour behind them.
pub open spec fn filled_cells(cells: Seq<Painted>) -> int
    decreases cells.len(),
{
    if cells.len() == 0 {
        0
    } else {
        filled_cells(cells.drop_last()) + if cells.last().fill is Some {
            1int
        } else {
            0int
        }
    }
}

/// Sharing rectangles neither loses nor repeats a cell.
pub proof fn rectangles_cover_the_cells(cells: Seq<Painted>)
    ensures
        covered(bands_of(cells)) == filled_cells(cells),
    decreases cells.len(),
{
    if cells.len() > 0 {
        let rest = cells.drop_last();
        rectangles_cover_the_cells(rest);
        let before = bands_of(rest);
        let now = bands_of(cells);
        let p = cells.last();
        if p.fill is Some {
            if before.len() > 0 && extends_band(before.last(), p) {
                assert(now.drop_last() =~= before.drop_last());
            } else {
                assert(now.drop_last() =~= before);
            }
        }
    }
}

/// The rectangle lies behind the cell, in its colour.
pub open spec fn is_behind(b: Band, p: Painted) -> bool {
    &&& p.fill is Some
    &&& b.line == p.line
    &&& b.column <= p.column < b.column + b.cells
    &&& b.fill == fill_number(p.fill->0)
}

/// Every cell that has a colour behind it has a rectangle of that colour behind it, where
/// the cell is.
pub proof fn every_filled_cell_is_covered(cells: Seq<Painted>, i: int)
    requires
        0 <= i < cells.len(),
        cells[i].fill is Some,
    ensures
        exists|k: int| 0 <= k < bands_of(cells).len() && #[trigger] is_behind(
            bands_of(cells)[k],
            cells[i],
        ),
    decreases cells.len(),
{
    let rest = cells.drop_last();
    let before = bands_of(rest);
    let now = bands_of(cells);
    if i < rest.len() {
        assert(rest[i] == cells[i]);
        every_filled_cell_is_covered(rest, i);
        let k = choose|k: int| 0 <= k < before.len() && #[trigger] is_behind(before[k], rest[i]);
        assert(is_behind(now[k], cells[i]));
    } else {
        lemma_bands_hold_a_cell(rest);
        assert(is_behind(now[now.len() - 1], cells[i]));
    }
}

proof fn lemma_bands_hold_a_cell(cells: Seq<Painted>)
    ensures
        forall|k: int| 0 <= k < bands_of(cells).len() ==> (#[trigger] bands_of(cells)[k]).cells >= 1,
    decreases cells.len(),
{
    if cells.len() > 0 {
        let before = bands_of(cells.drop_last());
        lemma_bands_hold_a_cell(cells.drop_last());
        let now = bands_of(cells);
        assert forall|k: int| 0 <= k < now.len() implies (#[trigger] now[k]).cells >= 1 by {
            if k < before.len() {
                assert(before[k].cells >= 1);
            }
        }
    }
}

/// The run shows the character of the cell, where the cell is and as it looks.
pub open spec fn is_shown_by(r: Piece, p: Painted) -> bool {
    &&& r.line == p.line
    &&& r.column <= p.column < r.column + r.text.len()
    &&& r.text[p.column - r.column] == p.c
    &&& r.ink == packed(p.ink)
    &&& r.bold == has_flag(p.flags, BOLD)
    &&& r.italic == has_flag(p.flags, ITALIC)
    &&& r.underline == has_flag(p.flags, UNDERLINE)
}

/// Every character is drawn where its cell is, in its colour and style: all but blanks
/// without a line under them and the right halves of wide characters.
pub proof fn every_character_is_drawn(cells: Seq<Painted>, i: int)
    requires
        0 <= i < cells.len(),
        !has_flag(cells[i].flags, WIDE_CHAR_SPACER),
        cells[i].c != ' ' || has_flag(cells[i].flags, UNDERLINE),
    ensures
        exists|k: int| 0 <= k < pieces_of(cells).len() && #[trigger] is_shown_by(
            pieces_of(cells)[k],
            cells[i],
        ),
    decreases cells.len(),
{
    let rest = cells.drop_last();
    let before = pieces_of(rest);
    let now = pieces_of(cells);
    if i < rest.len() {
        assert(rest[i] == cells[i]);
        every_character_is_drawn(rest, i);
        let k = choose|k: int| 0 <= k < before.len() && #[trigger] is_shown_by(before[k], rest[i]);
        assert(is_shown_by(now[k], cells[i]));
    } else {
        assert(is_shown_by(now[now.len() - 1], cells[i]));
    }
}

/// The keys that are held with another.
#[derive(Clone, Copy, PartialEq, Eq, Debug, Structural)]
pub struct Modifiers {
    pub control: bool,
    pub alt: bool,
    pub shift: bool,
}

/// An ASCII letter.
pub open spec fn is_letter(c: char) -> bool {
    'a' <= c <= 'z' || 'A' <= c <= 'Z'
}

/// What a key that has a name sends.
pub open spec fn named_key(key: Seq<char>, shift: bool) -> Option<Seq<char>> {
    if key == "enter"@ {
        Some(
            if shift {
                "\n"@
            } else {
                "\r"@
            },
        )
    } else if key == "backspace"@ {
        Some("\x7f"@)
    } else if key == "tab"@ {
        Some(
            if shift {
                "\x1b[Z"@
            } else {
                "\t"@
            },
        )
    } else if key == "escape"@ {
        Some("\x1b"@)
    } else if key == "up"@ {
        Some("\x1b[A"@)
    } else if key == "down"@ {
        Some("\x1b[B"@)
    } else if key == "right"@ {
        Some("\x1b[C"@)
    } else if key == "left"@ {
        Some("\x1b[D"@)
    } else if key == "home"@ {
        Some("\x1b[H"@)
    } else if key == "end"@ {
        Some("\x1b[F"@)
    } else if key == "delete"@ {
        Some("\x1b[3~"@)
    } else if key == "insert"@ {
        Some("\x1b[2~"@)
    } else if key == "pageup"@ {
        Some("\x1b[5~"@)
    } else if key == "pagedown"@ {
        Some("\x1b[6~"@)
    } else {
        function_key(key)
    }
}

/// What a function key sends.
pub open spec fn function_key(key: Seq<char>) -> Option<Seq<char>> {
    if key == "f1"@ {
        Some("\x1bOP"@)
    } else if key == "f2"@ {
        Some("\x1bOQ"@)
    } else if key == "f3"@ {
        Some("\x1bOR"@)
    } else if key == "f4"@ {
        Some("\x1bOS"@)
    } else if key == "f5"@ {
        Some("\x1b[15~"@)
    } else if key == "f6"@ {
        Some("\x1b[17~"@)
    } else if key == "f7"@ {
        Some("\x1b[18~"@)
    } else if key == "f8"@ {
        Some("\x1b[19~"@)
    } else if key == "f9"@ {
        Some("\x1b[20~"@)
    } else if key == "f10"@ {
        Some("\x1b[21~"@)
    } else if key == "f11"@ {
        Some("\x1b[23~"@)
    } else if key == "f12"@ {
        Some("\x1b[24~"@)
    } else {
        None
    }
}

/// What a key sends with Ctrl: a letter its number, a few named keys a byte of theirs.
pub open spec fn control_key(key: Seq<char>) -> Option<Seq<u8>> {
    if key.len() == 1 && is_letter(key[0]) {
        Some(seq![(ascii_lower(key[0]) as int - 'a' as int + 1) as u8])
    } else if key == "space"@ {
        Some(seq![0u8])
    } else if key == "backspace"@ {
        Some(seq![8u8])
    } else if key == "tab"@ {
        Some(seq![9u8])
    } else if key == "enter"@ {
        Some(seq![10u8])
    } else {
        None
    }
}

/// What a key sends: with Ctrl a control character, with Alt an escape before the
/// character, else what its name stands for. Plain characters come as text.
pub open spec fn key_bytes(key: Seq<char>, m: Modifiers) -> Option<Seq<u8>> {
    if m.control && !m.alt {
        control_key(key)
    } else if m.alt && key.len() == 1 && key[0] <= '\u{7f}' {
        Some(seq![0x1bu8, key[0] as u8])
    } else {
        match named_key(key, m.shift) {
            Some(t) => Some(bytes(t)),
            None => None,
        }
    }
}

fn named(key: &str, shift: bool) -> (r: Option<&'static str>)
    ensures
        match r {
            Some(t) => named_key(key@, shift) == Some(t@),
            None => named_key(key@, shift) is None,
        },
{
    if text::same(key, "enter") {
        Some(
            if shift {
                "\n"
            } else {
                "\r"
            },
        )
    } else if text::same(key, "backspace") {
        Some("\x7f")
    } else if text::same(key, "tab") {
        Some(
            if shift {
                "\x1b[Z"
            } else {
                "\t"
            },
        )
    } else if text::same(key, "escape") {
        Some("\x1b")
    } else if text::same(key, "up") {
        Some("\x1b[A")
    } else if text::same(key, "down") {
        Some("\x1b[B")
    } else if text::same(key, "right") {
        Some("\x1b[C")
    } else if text::same(key, "left") {
        Some("\x1b[D")
    } else if text::same(key, "home") {
        Some("\x1b[H")
    } else if text::same(key, "end") {
        Some("\x1b[F")
    } else if text::same(key, "delete") {
        Some("\x1b[3~")
    } else if text::same(key, "insert") {
        Some("\x1b[2~")
    } else if text::same(key, "pageup") {
        Some("\x1b[5~")
    } else if text::same(key, "pagedown") {
        Some("\x1b[6~")
    } else {
        function(key)
    }
}

fn function(key: &str) -> (r: Option<&'static str>)
    ensures
        match r {
            Some(t) => function_key(key@) == Some(t@),
            None => function_key(key@) is None,
        },
{
    if text::same(key, "f1") {
        Some("\x1bOP")
    } else if text::same(key, "f2") {
        Some("\x1bOQ")
    } else if text::same(key, "f3") {
        Some("\x1bOR")
    } else if text::same(key, "f4") {
        Some("\x1bOS")
    } else if text::same(key, "f5") {
        Some("\x1b[15~")
    } else if text::same(key, "f6") {
        Some("\x1b[17~")
    } else if text::same(key, "f7") {
        Some("\x1b[18~")
    } else if text::same(key, "f8") {
        Some("\x1b[19~")
    } else if text::same(key, "f9") {
        Some("\x1b[20~")
    } else if text::same(key, "f10") {
        Some("\x1b[21~")
    } else if text::same(key, "f11") {
        Some("\x1b[23~")
    } else if text::same(key, "f12") {
        Some("\x1b[24~")
    } else {
        None
    }
}

/// The bytes of an optional list.
pub open spec fn sent(v: Option<Vec<u8>>) -> Option<Seq<u8>> {
    match v {
        Some(b) => Some(b@),
        None => None,
    }
}

/// What a key sends.
pub fn keystroke_to_bytes(key: &str, modifiers: Modifiers) -> (r: Option<Vec<u8>>)
    ensures
        sent(r) == key_bytes(key@, modifiers),
{
    let v = text::chars_of(key);
    if modifiers.control && !modifiers.alt {
        if v.len() == 1 {
            let c: char = chars::fold_ascii(v[0]);
            if 'a' <= c && c <= 'z' {
                let code: u8 = (c as u32 - 'a' as u32 + 1) as u8;
                let out = vec![code];
                assert(out@ =~= seq![code]);
                return Some(out);
            }
        }
        let code: u8 = if text::same(key, "space") {
            0
        } else if text::same(key, "backspace") {
            8
        } else if text::same(key, "tab") {
            9
        } else if text::same(key, "enter") {
            10
        } else {
            return None;
        };
        let out = vec![code];
        assert(out@ =~= seq![code]);
        return Some(out);
    }
    if modifiers.alt && v.len() == 1 && v[0] <= '\u{7f}' {
        let c: u8 = v[0] as u32 as u8;
        let out = vec![0x1b, c];
        assert(out@ =~= seq![0x1bu8, key@[0] as u8]);
        return Some(out);
    }
    match named(key, modifiers.shift) {
        Some(t) => Some(crate::terminal::bytes_of(t)),
        None => None,
    }
}

/// What a key does in a terminal.
pub enum KeyAction {
    /// Puts what is selected on the clipboard.
    Copy,
    /// Sends what is on the clipboard.
    Paste,
    Send(Vec<u8>),
    Nothing,
}

/// The key copies: Ctrl+Shift+C and Ctrl+Insert always, Ctrl+C where something is
/// selected.
pub open spec fn wants_copy(key: Seq<char>, m: Modifiers, selected: bool) -> bool {
    m.control && ((m.shift && key == "c"@) || key == "insert"@ || (key == "c"@ && selected))
}

/// The key pastes: Ctrl+V, Ctrl+Shift+V and Shift+Insert.
pub open spec fn wants_paste(key: Seq<char>, m: Modifiers) -> bool {
    (m.control && key == "v"@) || (m.shift && key == "insert"@)
}

/// What a key does in a terminal; `selected` says whether anything is selected.
pub fn key_action(key: &str, modifiers: Modifiers, selected: bool) -> (r: KeyAction)
    ensures
        if wants_copy(key@, modifiers, selected) {
            r is Copy
        } else if wants_paste(key@, modifiers) {
            r is Paste
        } else {
            match key_bytes(key@, modifiers) {
                Some(b) => r matches KeyAction::Send(v) && v@ == b,
                None => r is Nothing,
            }
        },
{
    let c = text::same(key, "c");
    let insert = text::same(key, "insert");
    let v = text::same(key, "v");
    if modifiers.control && ((modifiers.shift && c) || insert || (c && selected)) {
        KeyAction::Copy
    } else if (modifiers.control && v) || (modifiers.shift && insert) {
        KeyAction::Paste
    } else {
        match keystroke_to_bytes(key, modifiers) {
            Some(b) => KeyAction::Send(b),
            None => KeyAction::Nothing,
        }
    }
}

/// Without a selection Ctrl+C interrupts the shell.
pub proof fn interrupting_stays_possible(m: Modifiers)
    requires
        m.control,
        !m.shift,
        !m.alt,
    ensures
        !wants_copy("c"@, m, false),
        !wants_paste("c"@, m),
        key_bytes("c"@, m) == Some(seq![3u8]),
{
    reveal_strlit("c");
    reveal_strlit("v");
    reveal_strlit("insert");
    assert("c"@[0] == 'c');
    assert("c"@.len() == 1);
    assert("v"@[0] == 'v');
    assert("insert"@.len() == 6);
}

/// With Ctrl a letter sends its number in the alphabet, large or small.
pub proof fn control_letters_are_numbered(c: char, m: Modifiers)
    requires
        'a' <= c <= 'z' || 'A' <= c <= 'Z',
        m.control,
        !m.alt,
    ensures
        key_bytes(seq![c], m) == Some(seq![(c as int % 32) as u8]),
        1 <= c as int % 32 <= 26,
{
}

/// With Alt a character is sent behind an escape.
pub proof fn alt_sends_an_escape_first(c: char, m: Modifiers)
    requires
        m.alt,
        c <= '\u{7f}',
    ensures
        key_bytes(seq![c], m) == Some(seq![0x1bu8, c as u8]),
{
}

/// What a press of the right button does: it copies what is selected, or else pastes.
pub fn right_click(selected: bool) -> (r: KeyAction)
    ensures
        selected ==> r is Copy,
        !selected ==> r is Paste,
{
    if selected {
        KeyAction::Copy
    } else {
        KeyAction::Paste
    }
}

/// Whether the selection is dropped when the button is let go: nothing was selected.
pub fn drops_selection(chars: usize) -> (r: bool)
    ensures
        r == (chars == 0),
{
    chars == 0
}

/// A text that is being composed.
pub struct ImeState {
    pub marked_text: Option<String>,
}

/// How many units a text has in UTF-16.
pub open spec fn utf16_len(s: Seq<char>) -> nat
    decreases s.len(),
{
    if s.len() == 0 {
        0
    } else {
        utf16_len(s.drop_last()) + if s.last() as u32 >= 0x10000 {
            2nat
        } else {
            1nat
        }
    }
}

impl ImeState {
    /// Takes over a text that is being composed; an empty one is none. Nothing is sent.
    pub fn mark(&mut self, text: &str)
        ensures
            optional(final(self).marked_text) == if text@.len() == 0 {
                None
            } else {
                Some(text@)
            },
    {
        self.marked_text = if text.is_empty() {
            None
        } else {
            Some(text.to_owned())
        };
    }

    /// Nothing is composed any more.
    pub fn unmark(&mut self)
        ensures
            final(self).marked_text is None,
    {
        self.marked_text = None;
    }

    /// Takes over a text that is final: nothing is composed any more, and the text is
    /// sent unless it is empty.
    pub fn commit(&mut self, text: &str) -> (r: Option<Vec<u8>>)
        ensures
            final(self).marked_text is None,
            sent(r) == if text@.len() == 0 {
                None
            } else {
                Some(bytes(text@))
            },
    {
        self.marked_text = None;
        if text.is_empty() {
            None
        } else {
            Some(crate::terminal::bytes_of(text))
        }
    }

    /// How many units the composed text has in UTF-16, where there is one.
    pub fn marked_len(&self) -> (r: Option<usize>)
        requires
            self.marked_text matches Some(t) ==> 2 * t@.len() <= usize::MAX,
        ensures
            match self.marked_text {
                Some(t) => r == Some(utf16_len(t@) as usize),
                None => r is None,
            },
    {
        match &self.marked_text {
            None => None,
            Some(t) => {
                let v = text::chars_of(t.as_str());
                let mut n: usize = 0;
                let mut i: usize = 0;
                while i < v.len()
                    invariant
                        i <= v@.len(),
                        2 * v@.len() <= usize::MAX,
                        n <= 2 * i,
                        n == utf16_len(v@.take(i as int)),
                    decreases v@.len() - i,
                {
                    assert(v@.take(i + 1).drop_last() =~= v@.take(i as int));
                    if v[i] as u32 >= 0x10000 {
                        n += 2;
                    } else {
                        n += 1;
                    }
                    i += 1;
                }
                assert(v@.take(i as int) =~= v@);
                Some(n)
            },
        }
    }
}

/// Each key that has a name sends its own sequence.
pub proof fn named_keys_send_their_sequences(shift: bool)
    ensures
        named_key("enter"@, false) == Some("\r"@),
        named_key("enter"@, true) == Some("\n"@),
        named_key("tab"@, false) == Some("\t"@),
        named_key("tab"@, true) == Some("\x1b[Z"@),
        named_key("backspace"@, shift) == Some("\x7f"@),
        named_key("escape"@, shift) == Some("\x1b"@),
        named_key("up"@, shift) == Some("\x1b[A"@),
        named_key("down"@, shift) == Some("\x1b[B"@),
        named_key("right"@, shift) == Some("\x1b[C"@),
        named_key("left"@, shift) == Some("\x1b[D"@),
        named_key("home"@, shift) == Some("\x1b[H"@),
        named_key("end"@, shift) == Some("\x1b[F"@),
        named_key("delete"@, shift) == Some("\x1b[3~"@),
        named_key("insert"@, shift) == Some("\x1b[2~"@),
        named_key("pageup"@, shift) == Some("\x1b[5~"@),
        named_key("pagedown"@, shift) == Some("\x1b[6~"@),
{
    reveal_strlit("enter");
    reveal_strlit("tab");
    reveal_strlit("backspace");
    reveal_strlit("escape");
    reveal_strlit("up");
    reveal_strlit("down");
    reveal_strlit("right");
    reveal_strlit("left");
    reveal_strlit("home");
    reveal_strlit("end");
    reveal_strlit("delete");
    reveal_strlit("insert");
    reveal_strlit("pageup");
    reveal_strlit("pagedown");
    assert("enter"@[0] == 'e' && "enter"@.len() == 5);
    assert("tab"@[0] == 't' && "tab"@.len() == 3);
    assert("backspace"@.len() == 9);
    assert("escape"@[0] == 'e' && "escape"@.len() == 6);
    assert("up"@.len() == 2);
    assert("down"@[0] == 'd' && "down"@.len() == 4);
    assert("right"@[0] == 'r' && "right"@.len() == 5);
    assert("left"@[0] == 'l' && "left"@.len() == 4);
    assert("home"@[0] == 'h' && "home"@.len() == 4);
    assert("end"@[0] == 'e' && "end"@.len() == 3);
    assert("delete"@[0] == 'd' && "delete"@.len() == 6);
    assert("insert"@[0] == 'i' && "insert"@.len() == 6);
    assert("pageup"@[0] == 'p' && "pageup"@.len() == 6);
    assert("pagedown"@.len() == 8);
}

/// Each function key sends its own sequence.
pub proof fn function_keys_send_their_sequences()
    ensures
        function_key("f1"@) == Some("\x1bOP"@),
        function_key("f2"@) == Some("\x1bOQ"@),
        function_key("f3"@) == Some("\x1bOR"@),
        function_key("f4"@) == Some("\x1bOS"@),
        function_key("f5"@) == Some("\x1b[15~"@),
        function_key("f6"@) == Some("\x1b[17~"@),
        function_key("f7"@) == Some("\x1b[18~"@),
        function_key("f8"@) == Some("\x1b[19~"@),
        function_key("f9"@) == Some("\x1b[20~"@),
        function_key("f10"@) == Some("\x1b[21~"@),
        function_key("f11"@) == Some("\x1b[23~"@),
        function_key("f12"@) == Some("\x1b[24~"@),
{
    reveal_strlit("f1");
    reveal_strlit("f2");
    reveal_strlit("f3");
    reveal_strlit("f4");
    reveal_strlit("f5");
    reveal_strlit("f6");
    reveal_strlit("f7");
    reveal_strlit("f8");
    reveal_strlit("f9");
    reveal_strlit("f10");
    reveal_strlit("f11");
    reveal_strlit("f12");
    assert("f1"@[1] == '1' && "f1"@.len() == 2);
    assert("f2"@[1] == '2' && "f2"@.len() == 2);
    assert("f3"@[1] == '3' && "f3"@.len() == 2);
    assert("f4"@[1] == '4' && "f4"@.len() == 2);
    assert("f5"@[1] == '5' && "f5"@.len() == 2);
    assert("f6"@[1] == '6' && "f6"@.len() == 2);
    assert("f7"@[1] == '7' && "f7"@.len() == 2);
    assert("f8"@[1] == '8' && "f8"@.len() == 2);
    assert("f9"@[1] == '9' && "f9"@.len() == 2);
    assert("f10"@[2] == '0' && "f10"@.len() == 3);
    assert("f11"@[2] == '1' && "f11"@.len() == 3);
    assert("f12"@[2] == '2' && "f12"@.len() == 3);
}

/// The 256 colours: the palette first, then every mixture of six levels of red, green and
/// blue, then the greys from dark to light.
pub proof fn the_256_colours(p: TerminalPalette, r: int, g: int, b: int, k: int)
    requires
        0 <= r < 6,
        0 <= g < 6,
        0 <= b < 6,
        0 <= k < 24,
    ensures
        forall|i: int| 0 <= i < 16 ==> #[trigger] indexed_number(i, p) == p.numbers()[i],
        indexed_number(16 + 36 * r + 6 * g + b, p) == (if r == 0 {
            0
        } else {
            40 * r + 55
        }) * 65536 + (if g == 0 {
            0
        } else {
            40 * g + 55
        }) * 256 + (if b == 0 {
            0
        } else {
            40 * b + 55
        }),
        indexed_number(232 + k, p) == (8 + 10 * k) * 65793,
{
    let n = 36 * r + 6 * g + b;
    assert(n / 36 == r && n / 6 == 6 * r + g && n % 6 == b && (6 * r + g) % 6 == g);
}

/// A cell is drawn in the colours that the program asks for, exchanged where it is inverted;
/// the colour behind it is painted unless it is that of the theme, and what is selected is
/// painted as selected.
pub proof fn cells_are_drawn_in_their_colours(s: Shade, cell: Cell, t: Theme, selected: bool)
    requires
        is_shade(s, cell, t, selected),
    ensures
        !has_flag(cell.flags, INVERSE) ==> packed(s.fg) == color_number(cell.fg, t),
        has_flag(cell.flags, INVERSE) ==> packed(s.fg) == color_number(cell.bg, t),
        selected ==> s.fill is Some && fill_number(s.fill->0) == fill_number(Fill::Selection),
        ({
            let bg = if has_flag(cell.flags, INVERSE) {
                cell.fg
            } else {
                cell.bg
            };
            &&& !selected && color_number(bg, t) != packed(t.bg) && bg != Color::Named(
                NamedColor::Background,
            ) ==> s.fill is Some && fill_number(s.fill->0) == color_number(bg, t)
            &&& !selected && color_number(bg, t) == packed(t.bg) ==> s.fill is None
        }),
{
}

} // verus!
