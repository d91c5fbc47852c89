//! The terminal emulator behind a session's screen, which the `vt100` crate provides.
use vstd::prelude::*;

verus! {

/// The emulator of the `vt100` crate.
#[verifier::external_type_specification]
#[verifier::external_body]
pub struct ExParser(vt100::Parser);

/// The colour of a cell, as the emulator knows it.
#[derive(Debug, Clone, Copy, PartialEq, Eq)]
pub enum CellColor {
    Default,
    Idx(u8),
    Rgb(u8, u8, u8),
}

/// A cell of the screen.
#[derive(Debug, PartialEq, Eq)]
pub struct Cell {
    pub contents: String,
    pub fg: CellColor,
    pub bg: CellColor,
    pub bold: bool,
    pub italic: bool,
    pub underline: bool,
}

/// The value of a [`Cell`].
#[verifier::ext_equal]
pub struct CellView {
    pub contents: Seq<char>,
    pub fg: CellColor,
    pub bg: CellColor,
    pub bold: bool,
    pub italic: bool,
    pub underline: bool,
}

impl View for Cell {
    type V = CellView;

    open spec fn view(&self) -> CellView {
        CellView {
            contents: self.contents@,
            fg: self.fg,
            bg: self.bg,
            bold: self.bold,
            italic: self.italic,
            underline: self.underline,
        }
    }
}

/// The cells in view, by row and column.
pub uninterp spec fn screen_cells(p: vt100::Parser) -> Map<(u16, u16), CellView>;

/// The size of the screen: rows, then columns.
pub uninterp spec fn screen_size(p: vt100::Parser) -> (u16, u16);

/// Where the cursor stands: row, then column.
pub uninterp spec fn screen_cursor(p: vt100::Parser) -> (u16, u16);

/// How far the view is scrolled back.
pub uninterp spec fn screen_scrollback(p: vt100::Parser) -> usize;

/// All that an emulator holds, written as one number: what it shows, and also its other screen, its
/// modes and attributes, its scroll region, its saved cursor and a half-read escape sequence. Two
/// emulators with the same number do the same from then on.
pub uninterp spec fn emulator_state(p: vt100::Parser) -> nat;

/// What `vt100::Parser::new` makes an emulator hold, for a number of rows and of columns.
pub uninterp spec fn new_state(rows: u16, cols: u16) -> nat;

/// What `vt100::Parser::set_size` makes of what an emulator holds, for a number of rows and of
/// columns.
pub uninterp spec fn resized_state(state: nat, rows: u16, cols: u16) -> nat;

/// What an emulator shows, and all that it holds.
#[verifier::ext_equal]
pub struct ScreenView {
    pub rows: u16,
    pub cols: u16,
    pub cells: Map<(u16, u16), CellView>,
    pub cursor: (u16, u16),
    pub scrollback: usize,
    pub state: nat,
}

/// The emulator holds what one of its size holds that was just made, and nothing of an earlier use.
pub open spec fn is_fresh(p: vt100::Parser) -> bool {
    emulator_state(p) == new_state(screen_size(p).0, screen_size(p).1)
}

/// What the emulator `p` shows, and all that it holds.
pub open spec fn screen(p: vt100::Parser) -> ScreenView {
    ScreenView {
        rows: screen_size(p).0,
        cols: screen_size(p).1,
        cells: screen_cells(p),
        cursor: screen_cursor(p),
        scrollback: screen_scrollback(p),
        state: emulator_state(p),
    }
}

impl ScreenView {
    /// The screen has a row and a column at least, and is not scrolled back.
    pub open spec fn ok(self) -> bool {
        self.rows >= 1 && self.cols >= 1 && self.scrollback == 0
    }

    /// The screen after a change of size: cells that both sizes hold stay as they are, new ones
    /// are blank, and the cursor is kept inside.
    pub open spec fn resized(self, rows: u16, cols: u16) -> ScreenView {
        ScreenView {
            rows,
            cols,
            cells: Map::new(
                |k: (u16, u16)| k.0 < rows && k.1 < cols,
                |k: (u16, u16)|
                    if self.cells.contains_key(k) {
                        self.cells[k]
                    } else {
                        blank_cell()
                    },
            ),
            cursor: (
                if self.cursor.0 < rows {
                    self.cursor.0
                } else {
                    (rows - 1) as u16
                },
                if self.cursor.1 < cols {
                    self.cursor.1
                } else {
                    (cols - 1) as u16
                },
            ),
            scrollback: self.scrollback,
            state: resized_state(self.state, rows, cols),
        }
    }
}

/// A cell with nothing in it.
pub open spec fn blank_cell() -> CellView {
    CellView {
        contents: Seq::empty(),
        fg: CellColor::Default,
        bg: CellColor::Default,
        bold: false,
        italic: false,
        underline: false,
    }
}

/// The screen of an emulator just made: nothing stands on it, the cursor is in its upper left
/// corner, and nothing is left of an earlier use.
pub open spec fn blank_screen(rows: u16, cols: u16) -> ScreenView {
    ScreenView {
        rows,
        cols,
        cells: Map::new(|k: (u16, u16)| k.0 < rows && k.1 < cols, |k: (u16, u16)| blank_cell()),
        cursor: (0, 0),
        scrollback: 0,
        state: new_state(rows, cols),
    }
}

/// `vt100::Parser::new`, without a scrollback buffer, makes an emulator whose screen has the
/// given size and is blank. All that it holds follows from the size. It subtracts one from the
/// number of rows.
#[verifier::external_body]
pub(crate) fn new_parser(rows: u16, cols: u16) -> (p: vt100::Parser)
    requires
        rows >= 1,
    ensures
        screen_size(p) == (rows, cols),
        screen_cells(p) == blank_screen(rows, cols).cells,
        screen_cursor(p) == (0u16, 0u16),
        screen_scrollback(p) == 0,
        emulator_state(p) == new_state(rows, cols),
{
    vt100::Parser::new(rows, cols, 0)
}

/// `vt100::Parser::set_size` gives the screen another size: it cuts rows and columns off or adds
/// blank ones, and moves the cursor inside. All that the emulator then holds follows from what it
/// held and from the size. It subtracts one from the old number of rows, and from the new numbers
/// of rows and columns.
#[verifier::external_body]
pub(crate) fn set_parser_size(p: &mut vt100::Parser, rows: u16, cols: u16)
    requires
        rows >= 1,
        cols >= 1,
        screen(*old(p)).ok(),
    ensures
        screen_size(*final(p)) == (rows, cols),
        screen_cells(*final(p)) == screen(*old(p)).resized(rows, cols).cells,
        screen_cursor(*final(p)) == screen(*old(p)).resized(rows, cols).cursor,
        screen_scrollback(*final(p)) == screen_scrollback(*old(p)),
        emulator_state(*final(p)) == resized_state(emulator_state(*old(p)), rows, cols),
{
    p.set_size(rows, cols);
}

/// `vt100::Screen::size` returns the size of the screen: rows, then columns.
#[verifier::external_body]
pub(crate) fn parser_size(p: &vt100::Parser) -> (r: (u16, u16))
    ensures
        r == screen_size(*p),
{
    p.screen().size()
}

/// `vt100::Screen::cursor_position` returns the place of the cursor: row, then column.
#[verifier::external_body]
pub(crate) fn parser_cursor(p: &vt100::Parser) -> (r: (u16, u16))
    ensures
        r == screen_cursor(*p),
{
    p.screen().cursor_position()
}

/// `vt100::Screen::cell` returns the cell at a place of the screen, where there is one. The
/// methods of `vt100::Cell` give its text, its colours and its attributes.
#[verifier::external_body]
pub(crate) fn parser_cell(p: &vt100::Parser, row: u16, col: u16) -> (r: Option<Cell>)
    requires
        screen_scrollback(*p) == 0,
    ensures
        match r {
            Some(c) => screen_cells(*p).contains_key((row, col)) && c@ == screen_cells(*p)[(row, col)],
            None => !screen_cells(*p).contains_key((row, col)),
        },
{
    let c = p.screen().cell(row, col)?;
    let (bold, italic, underline) = (c.bold(), c.italic(), c.underline());
    let fg = match c.fgcolor() {
        vt100::Color::Default => CellColor::Default,
        vt100::Color::Idx(i) => CellColor::Idx(i),
        vt100::Color::Rgb(r, g, b) => CellColor::Rgb(r, g, b),
    };
    let bg = match c.bgcolor() {
        vt100::Color::Default => CellColor::Default,
        vt100::Color::Idx(i) => CellColor::Idx(i),
        vt100::Color::Rgb(r, g, b) => CellColor::Rgb(r, g, b),
    };
    Some(Cell { contents: c.contents(), fg, bg, bold, italic, underline })
}

/// `n`, or one where it is zero.
pub open spec fn at_least_one(n: u16) -> u16 {
    if n == 0 {
        1
    } else {
        n
    }
}

/// `n`, or one where it is zero.
pub fn clamp_one(n: u16) -> (r: u16)
    ensures
        r == at_least_one(n),
{
    if n == 0 {
        1
    } else {
        n
    }
}

/// An emulator with a blank screen of the given size, of one row and one column at least.
pub fn fresh_parser(cols: u16, rows: u16) -> (p: vt100::Parser)
    ensures
        screen(p) == blank_screen(at_least_one(rows), at_least_one(cols)),
        screen(p).ok(),
        is_fresh(p),
{
    new_parser(clamp_one(rows), clamp_one(cols))
}

/// The least size of a screen is one row and one column; every other size is taken as it is.
pub proof fn law_sizes_are_one_at_least(n: u16)
    ensures
        at_least_one(n) >= 1,
        n >= 1 ==> at_least_one(n) == n,
        n == 0 ==> at_least_one(n) == 1,
{
}

/// A screen of an emulator just made has the size asked for, an empty cell in each place of it and
/// nowhere else, and the cursor in its upper left corner.
pub proof fn law_blank_screen_is_empty(rows: u16, cols: u16, r: u16, c: u16)
    ensures
        ({
            let s = blank_screen(rows, cols);
            &&& s.rows == rows && s.cols == cols
            &&& s.cursor.0 == 0 && s.cursor.1 == 0 && s.scrollback == 0
            &&& s.state == new_state(rows, cols)
            &&& s.cells.contains_key((r, c)) <==> r < rows && c < cols
            &&& r < rows && c < cols ==> s.cells[(r, c)].contents.len() == 0
                && s.cells[(r, c)].fg is Default && s.cells[(r, c)].bg is Default
                && !s.cells[(r, c)].bold && !s.cells[(r, c)].italic && !s.cells[(r, c)].underline
        }),
{
}

} // verus!
