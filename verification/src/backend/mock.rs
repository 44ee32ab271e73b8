//! A backend without an emulator, for trying out what stands on top of one.

use crate::backend::wezterm::cell_rows;
use crate::backend::{BackendSize, TerminalBackend};
use crate::terminal::{blank_cell, copy_cells, CellState, CursorState, TermModes};
use vstd::prelude::*;

verus! {

/// A backend that records what it is fed and shows what it is told to show.
pub struct MockBackend {
    pub cells: Vec<CellState>,
    pub cursor_state: CursorState,
    pub mode_flags: TermModes,
    pub fed_bytes: Vec<u8>,
    pub alt_screen: bool,
    pub history_len: usize,
    pub history_lines: Vec<Vec<CellState>>,
    pub rows: u16,
    pub cols: u16,
}

/// A list cut or filled up with blank cells to a length.
pub open spec fn cells_resized(cells: Seq<CellState>, n: int) -> Seq<CellState> {
    Seq::new(n as nat, |i: int| if i < cells.len() { cells[i] } else { blank_cell() })
}

/// A list whose front is overwritten with another.
pub open spec fn overlaid(under: Seq<CellState>, over: Seq<CellState>) -> Seq<CellState> {
    Seq::new(under.len(), |i: int| if i < over.len() { over[i] } else { under[i] })
}

fn resize_cells(cells: &mut Vec<CellState>, n: usize)
    ensures
        final(cells)@ == cells_resized(old(cells)@, n as int),
{
    if cells.len() > n {
        cells.truncate(n);
    }
    while cells.len() < n
        invariant
            cells@.len() <= n,
            old(cells)@.len() <= cells@.len() || cells@.len() == n,
            cells@ == cells_resized(old(cells)@, cells@.len() as int),
        decreases n - cells@.len(),
    {
        cells.push(CellState::default());
        assert(cells@ =~= cells_resized(old(cells)@, cells@.len() as int));
    }
}

fn area(rows: u16, cols: u16) -> (r: usize)
    ensures
        r == rows * cols,
{
    assert(rows * cols <= 0xffff * 0xffff) by (nonlinear_arith)
        requires
            rows <= 0xffff,
            cols <= 0xffff,
    ;
    rows as usize * cols as usize
}

impl MockBackend {
    /// A blank screen.
    pub fn new(rows: u16, cols: u16) -> (r: Self)
        ensures
            r.rows == rows,
            r.cols == cols,
            r.cells@ == cells_resized(Seq::empty(), rows * cols),
            r.cursor_state == (CursorState {
                row: 0,
                col: 0,
                shape: crate::terminal::CursorShape::Block,
                visible: true,
            }),
            r.mode_flags == TermModes(0),
            r.fed_bytes@.len() == 0,
            !r.alt_screen,
            r.history_len == 0,
            r.history_lines@.len() == 0,
    {
        let mut cells: Vec<CellState> = Vec::new();
        resize_cells(&mut cells, area(rows, cols));
        MockBackend {
            cells,
            cursor_state: CursorState::default(),
            mode_flags: TermModes(0),
            fed_bytes: Vec::new(),
            alt_screen: false,
            history_len: 0,
            history_lines: Vec::new(),
            rows,
            cols,
        }
    }
}

impl TerminalBackend for MockBackend {
    open spec fn wf(&self) -> bool {
        true
    }

    open spec fn hears(&self, data: Seq<u8>, after: &Self) -> bool {
        &&& *after == (MockBackend { fed_bytes: after.fed_bytes, ..*self })
        &&& after.fed_bytes@ == self.fed_bytes@ + data
    }

    open spec fn size_now(&self) -> BackendSize {
        BackendSize { rows: self.rows, cols: self.cols, pixel_width: 0, pixel_height: 0 }
    }

    open spec fn paints(&self, before: Seq<CellState>, after: Seq<CellState>) -> bool {
        after == overlaid(before, self.cells@)
    }

    open spec fn cursor_shown(&self) -> CursorState {
        self.cursor_state
    }

    open spec fn modes_set(&self) -> TermModes {
        self.mode_flags
    }

    fn name() -> (r: &'static str)
        ensures
            r@ == "mock"@,
    {
        "mock"
    }

    fn feed(&mut self, data: &[u8])
        ensures
            *final(self) == (MockBackend { fed_bytes: final(self).fed_bytes, ..*old(self) }),
            final(self).fed_bytes@ == old(self).fed_bytes@ + data@,
    {
        self.fed_bytes.extend_from_slice(data);
        assert(self.fed_bytes@ =~= old(self).fed_bytes@ + data@);
    }

    fn size(&self) -> (r: BackendSize)
        ensures
            r == (BackendSize {
                rows: self.rows,
                cols: self.cols,
                pixel_width: 0,
                pixel_height: 0,
            }),
    {
        BackendSize { rows: self.rows, cols: self.cols, pixel_width: 0, pixel_height: 0 }
    }

    fn fill_cells(&self, out: &mut Vec<CellState>)
        ensures
            final(out)@ == overlaid(old(out)@, self.cells@),
    {
        let mut i: usize = 0;
        while i < out.len() && i < self.cells.len()
            invariant
                0 <= i <= out@.len(),
                i <= self.cells@.len(),
                out@ == overlaid(old(out)@, self.cells@.take(i as int)),
            decreases out@.len() - i,
        {
            out.set(i, self.cells[i]);
            i = i + 1;
            assert(out@ =~= overlaid(old(out)@, self.cells@.take(i as int)));
        }
        assert(out@ =~= overlaid(old(out)@, self.cells@));
    }

    fn cursor(&self) -> (r: CursorState)
        ensures
            r == self.cursor_state,
    {
        self.cursor_state
    }

    fn modes(&self) -> (r: TermModes)
        ensures
            r == self.mode_flags,
    {
        self.mode_flags
    }

    fn resize(&mut self, size: BackendSize)
        ensures
            final(self).rows == size.rows,
            final(self).cols == size.cols,
            final(self).cells@ == cells_resized(old(self).cells@, size.rows * size.cols),
            final(self).cursor_state == old(self).cursor_state,
            final(self).mode_flags == old(self).mode_flags,
            final(self).fed_bytes == old(self).fed_bytes,
            final(self).alt_screen == old(self).alt_screen,
            final(self).history_len == old(self).history_len,
            final(self).history_lines == old(self).history_lines,
    {
        self.rows = size.rows;
        self.cols = size.cols;
        resize_cells(&mut self.cells, area(size.rows, size.cols));
    }

    fn fill_cells_and_cursor(&self, out: &mut Vec<CellState>) -> (r: (CursorState, TermModes))
        ensures
            final(out)@ == overlaid(old(out)@, self.cells@),
            r == (self.cursor_state, self.mode_flags),
    {
        self.fill_cells(out);
        (self.cursor(), self.modes())
    }

    fn is_alt_screen(&self) -> (r: bool)
        ensures
            r == self.alt_screen,
    {
        self.alt_screen
    }

    fn history_size(&self) -> (r: usize)
        ensures
            r == self.history_len,
    {
        self.history_len
    }

    fn read_history_lines(&self, start: usize, count: usize, _cols: usize) -> (r: Vec<
        Vec<CellState>,
    >)
        ensures
            cell_rows(r@) == crate::backend::wezterm::window(
                cell_rows(self.history_lines@),
                start as int,
                start + count,
            ),
    {
        let mut rows: Vec<Vec<CellState>> = Vec::new();
        let mut i: usize = start;
        while i < self.history_lines.len() && i - start < count
            invariant
                start <= i,
                i <= self.history_lines@.len() || i == start,
                i - start <= count,
                rows@.len() == i - start,
                forall|n: int|
                    0 <= n < rows@.len() ==> (#[trigger] rows@[n])@ == self.history_lines@[start
                        + n]@,
            decreases self.history_lines@.len() + start - i,
        {
            rows.push(copy_cells(&self.history_lines[i]));
            i = i + 1;
        }
        assert(cell_rows(rows@) =~= crate::backend::wezterm::window(
            cell_rows(self.history_lines@),
            start as int,
            start + count,
        ));
        rows
    }
}

/// A grid that changes its number of cells keeps the first ones and gains blanks; a list that is
/// painted over takes the new cells at its front and keeps its length.
pub proof fn law_cells_are_kept_in_place(a: Seq<CellState>, b: Seq<CellState>, n: nat)
    ensures
        cells_resized(a, n as int).len() == n,
        forall|i: int|
            0 <= i < n && i < a.len() ==> #[trigger] cells_resized(a, n as int)[i] == a[i],
        forall|i: int|
            a.len() <= i < n ==> #[trigger] cells_resized(a, n as int)[i] == blank_cell(),
        overlaid(a, b).len() == a.len(),
        forall|i: int| 0 <= i < a.len() && i < b.len() ==> #[trigger] overlaid(a, b)[i] == b[i],
        forall|i: int| b.len() <= i < a.len() ==> #[trigger] overlaid(a, b)[i] == a[i],
{
}

} // verus!
