//! The terminal grid: cells, colours, attributes, cursor and modes.

use vstd::prelude::*;

verus! {

/// A colour resolved to RGB.
#[derive(Clone, Copy, Debug, PartialEq, Eq, Structural)]
pub struct CellColor {
    pub r: u8,
    pub g: u8,
    pub b: u8,
}

impl CellColor {
    pub fn new(r: u8, g: u8, b: u8) -> (c: CellColor)
        ensures
            c == (CellColor { r, g, b }),
    {
        CellColor { r, g, b }
    }
}

/// Attributes of a cell, one bit each.
#[derive(Clone, Copy, Debug, PartialEq, Eq, Structural)]
pub struct CellAttrs(pub u16);

impl CellAttrs {
    pub const BOLD: u16 = 0x0001;

    pub const DIM: u16 = 0x0002;

    pub const ITALIC: u16 = 0x0004;

    pub const UNDERLINE: u16 = 0x0008;

    pub const STRIKETHROUGH: u16 = 0x0010;

    pub const INVERSE: u16 = 0x0020;

    pub const HIDDEN: u16 = 0x0040;

    pub const BLINK: u16 = 0x0080;

    pub const WIDE_CHAR: u16 = 0x0100;

    /// The trailing half of a wide character.
    pub const WIDE_CHAR_SPACER: u16 = 0x0200;

    /// The foreground is the terminal's default one.
    pub const DEFAULT_FG: u16 = 0x0400;

    /// The background is the terminal's default one.
    pub const DEFAULT_BG: u16 = 0x0800;

    pub open spec fn has(self, bit: u16) -> bool {
        self.0 & bit != 0
    }

    /// Whether an attribute is set.
    pub fn contains(&self, bit: u16) -> (r: bool)
        ensures
            r == self.has(bit),
    {
        self.0 & bit != 0
    }
}

/// One cell of the grid.
#[derive(Clone, Copy, Debug, PartialEq, Eq, Structural)]
pub struct CellState {
    pub c: char,
    pub fg: CellColor,
    pub bg: CellColor,
    pub attrs: CellAttrs,
}

/// A blank cell in the default colours.
pub open spec fn blank_cell() -> CellState {
    CellState {
        c: ' ',
        fg: CellColor { r: 255, g: 255, b: 255 },
        bg: CellColor { r: 0, g: 0, b: 0 },
        attrs: CellAttrs(0x0c00),
    }
}

impl Default for CellState {
    fn default() -> (r: Self)
        ensures
            r == blank_cell(),
    {
        CellState {
            c: ' ',
            fg: CellColor { r: 255, g: 255, b: 255 },
            bg: CellColor { r: 0, g: 0, b: 0 },
            attrs: CellAttrs(0x0c00),
        }
    }
}

#[derive(Clone, Copy, Debug, PartialEq, Eq, Structural)]
pub enum CursorShape {
    Block,
    Underline,
    Bar,
    Hidden,
}

#[derive(Clone, Copy, Debug, PartialEq, Eq, Structural)]
pub struct CursorState {
    pub row: u16,
    pub col: u16,
    pub shape: CursorShape,
    pub visible: bool,
}

impl Default for CursorState {
    fn default() -> (r: Self)
        ensures
            r == (CursorState { row: 0, col: 0, shape: CursorShape::Block, visible: true }),
    {
        CursorState { row: 0, col: 0, shape: CursorShape::Block, visible: true }
    }
}

/// Terminal modes, one bit each.
#[derive(Clone, Copy, Debug, PartialEq, Eq, Structural)]
pub struct TermModes(pub u16);

impl TermModes {
    pub const BRACKETED_PASTE: u16 = 0x0001;

    pub const MOUSE_REPORT_CLICK: u16 = 0x0002;

    pub open spec fn has(self, bit: u16) -> bool {
        self.0 & bit != 0
    }

    /// Whether pasted text is to stand between markers.
    pub fn bracketed_paste(&self) -> (r: bool)
        ensures
            r == self.has(Self::BRACKETED_PASTE),
    {
        self.0 & Self::BRACKETED_PASTE != 0
    }

    /// Whether the program asked for mouse reports.
    pub fn mouse_report(&self) -> (r: bool)
        ensures
            r == self.has(Self::MOUSE_REPORT_CLICK),
    {
        self.0 & Self::MOUSE_REPORT_CLICK != 0
    }
}

/// A terminal's visible grid and its place in the scrollback.
#[derive(Debug)]
pub struct GridSnapshot {
    pub rows: u16,
    pub cols: u16,
    /// Row-major cells.
    pub cells: Vec<CellState>,
    pub cursor: CursorState,
    pub modes: TermModes,
    /// Lines that ever scrolled off the top.
    pub history_total: u64,
}

pub struct GridView {
    pub rows: u16,
    pub cols: u16,
    pub cells: Seq<CellState>,
    pub cursor: CursorState,
    pub modes: TermModes,
    pub history_total: u64,
}

impl View for GridSnapshot {
    type V = GridView;

    open spec fn view(&self) -> GridView {
        GridView {
            rows: self.rows,
            cols: self.cols,
            cells: self.cells@,
            cursor: self.cursor,
            modes: self.modes,
            history_total: self.history_total,
        }
    }
}

/// A copy of a row of cells.
pub fn copy_cells(cells: &Vec<CellState>) -> (r: Vec<CellState>)
    ensures
        r@ == cells@,
{
    let mut out: Vec<CellState> = Vec::new();
    let mut i: usize = 0;
    while i < cells.len()
        invariant
            0 <= i <= cells@.len(),
            out@ == cells@.take(i as int),
        decreases cells@.len() - i,
    {
        out.push(cells[i]);
        i = i + 1;
        assert(cells@.take(i as int) =~= cells@.take(i - 1).push(cells@[i - 1]));
    }
    assert(cells@.take(i as int) =~= cells@);
    out
}

impl GridSnapshot {
    /// A copy.
    pub fn copy(&self) -> (r: GridSnapshot)
        ensures
            r@ == self@,
    {
        GridSnapshot {
            rows: self.rows,
            cols: self.cols,
            cells: copy_cells(&self.cells),
            cursor: self.cursor,
            modes: self.modes,
            history_total: self.history_total,
        }
    }
}

} // verus!
