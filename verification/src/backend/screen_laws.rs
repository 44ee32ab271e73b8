//! What a screen shows: each glyph where it stands, blanks elsewhere, the cursor and the modes.

use super::wezterm::{
    blank_row, flag, grabs_mouse, law_grid_is_row_major, law_painting_keeps_the_width, painted,
    pastes_in_brackets, placed, screen_inks, screen_lines, screen_rows, shown_cell, shown_cursor,
    shown_line, window, CellInk, GlyphView, RawCursor, RawCursorShape, WezTermBackend,
};
use crate::terminal::{blank_cell, CellState, CursorShape};
use tattoy_wezterm_term::color::ColorPalette;
use vstd::prelude::*;

verus! {

/// A shown cell has the first character of its glyph, or a blank, in the glyph's colours; those
/// trade places where the glyph is reversed.
pub proof fn law_cell_shows_its_glyph(g: GlyphView, ink: CellInk)
    ensures
        ({
            let c = shown_cell(g, ink);
            let front = if g.reverse {
                ink.bg
            } else {
                ink.fg
            };
            let back = if g.reverse {
                ink.fg
            } else {
                ink.bg
            };
            &&& g.text.len() > 0 ==> c.c == g.text[0]
            &&& g.text.len() == 0 ==> c.c == ' '
            &&& c.fg.r == front.0 && c.fg.g == front.1 && c.fg.b == front.2
            &&& c.bg.r == back.0 && c.bg.g == back.1 && c.bg.b == back.2
        }),
{
}

/// Glyphs stand side by side: each begins behind the one before, and all begin inside the row.
pub open spec fn side_by_side(glyphs: Seq<GlyphView>, cols: int) -> bool {
    &&& forall|k: int| 0 <= k < glyphs.len() ==> (#[trigger] glyphs[k]).col < cols
    &&& forall|k: int, m: int|
        0 <= k < m < glyphs.len() ==> (#[trigger] glyphs[k]).col < (#[trigger] glyphs[m]).col
            && (glyphs[k].width > 1 ==> glyphs[k].col + 1 < glyphs[m].col)
}

/// Painting from a glyph on does not touch what stands before that glyph.
proof fn lemma_before_stays(
    row: Seq<CellState>,
    glyphs: Seq<GlyphView>,
    inks: Seq<CellInk>,
    k: int,
    j: int,
)
    requires
        side_by_side(glyphs, row.len() as int),
        0 <= k <= glyphs.len(),
        0 <= j < row.len(),
        k < glyphs.len() ==> j < glyphs[k].col,
    ensures
        painted(row, glyphs, inks, k)[j] == row[j],
    decreases glyphs.len() - k,
{
    if k < glyphs.len() {
        let next = placed(row, glyphs[k], inks[k]);
        assert(next[j] == row[j]);
        if k + 1 < glyphs.len() {
            assert(glyphs[k].col < glyphs[k + 1].col);
        }
        lemma_before_stays(next, glyphs, inks, k + 1, j);
    }
}

/// Painting shows every glyph from the first one on.
proof fn lemma_glyph_shows(
    row: Seq<CellState>,
    glyphs: Seq<GlyphView>,
    inks: Seq<CellInk>,
    from: int,
    k: int,
)
    requires
        side_by_side(glyphs, row.len() as int),
        0 <= from <= k < glyphs.len(),
    ensures
        painted(row, glyphs, inks, from)[glyphs[k].col as int] == shown_cell(glyphs[k], inks[k]),
    decreases k - from,
{
    let next = placed(row, glyphs[from], inks[from]);
    if from < k {
        lemma_glyph_shows(next, glyphs, inks, from + 1, k);
    } else {
        let j = glyphs[k].col as int;
        assert(next[j] == shown_cell(glyphs[k], inks[k]));
        if k + 1 < glyphs.len() {
            assert(glyphs[k].col < glyphs[k + 1].col);
        }
        lemma_before_stays(next, glyphs, inks, k + 1, j);
    }
}

/// Painting leaves alone what no glyph covers.
proof fn lemma_uncovered_stays(
    row: Seq<CellState>,
    glyphs: Seq<GlyphView>,
    inks: Seq<CellInk>,
    from: int,
    j: int,
)
    requires
        0 <= from,
        0 <= j < row.len(),
        forall|k: int|
            0 <= k < glyphs.len() ==> (#[trigger] glyphs[k]).col != j && (glyphs[k].width > 1
                ==> glyphs[k].col + 1 != j),
    ensures
        painted(row, glyphs, inks, from)[j] == row[j],
    decreases glyphs.len() - from,
{
    if from < glyphs.len() && glyphs[from].col < row.len() {
        let next = placed(row, glyphs[from], inks[from]);
        assert(next[j] == row[j]);
        lemma_uncovered_stays(next, glyphs, inks, from + 1, j);
    }
}

/// A line shows each of its glyphs in the glyph's column, and a blank in every column that no
/// glyph covers. A wide glyph covers the next column too.
pub proof fn law_line_shows_its_glyphs(glyphs: Seq<GlyphView>, inks: Seq<CellInk>, cols: nat)
    requires
        side_by_side(glyphs, cols as int),
    ensures
        ({
            let r = shown_line(glyphs, inks, cols);
            &&& r.len() == cols
            &&& forall|k: int|
                0 <= k < glyphs.len() ==> r[(#[trigger] glyphs[k]).col as int] == shown_cell(
                    glyphs[k],
                    inks[k],
                )
            &&& forall|j: int|
                #![trigger r[j]]
                0 <= j < cols && (forall|k: int|
                    0 <= k < glyphs.len() ==> (#[trigger] glyphs[k]).col != j && (glyphs[k].width
                        > 1 ==> glyphs[k].col + 1 != j)) ==> r[j] == blank_cell()
        }),
{
    let row = blank_row(cols);
    law_painting_keeps_the_width(row, glyphs, inks, 0);
    let r = shown_line(glyphs, inks, cols);
    assert forall|k: int| 0 <= k < glyphs.len() implies r[(#[trigger] glyphs[k]).col as int]
        == shown_cell(glyphs[k], inks[k]) by {
        lemma_glyph_shows(row, glyphs, inks, 0, k);
    }
    assert forall|j: int|
        #![trigger r[j]]
        0 <= j < cols && (forall|k: int|
            0 <= k < glyphs.len() ==> (#[trigger] glyphs[k]).col != j && (glyphs[k].width > 1
                ==> glyphs[k].col + 1 != j)) implies r[j] == blank_cell() by {
        lemma_uncovered_stays(row, glyphs, inks, 0, j);
    }
}

/// The column behind a wide glyph is marked as its second half, and is otherwise as it was.
pub proof fn law_wide_glyph_takes_two_columns(row: Seq<CellState>, g: GlyphView, ink: CellInk)
    requires
        g.col < row.len(),
    ensures
        ({
            let r = placed(row, g, ink);
            let next = g.col + 1;
            &&& r.len() == row.len()
            &&& r[g.col as int] == shown_cell(g, ink)
            &&& g.width > 1 && next < row.len() ==> {
                &&& r[next].attrs.has(0x0200)
                &&& r[next].c == row[next].c && r[next].fg == row[next].fg && r[next].bg
                    == row[next].bg
            }
            &&& g.width <= 1 && next < row.len() ==> r[next] == row[next]
        }),
{
    if g.width > 1 && g.col + 1 < row.len() {
        let a = row[g.col + 1].attrs.0;
        assert((a | 0x0200) & 0x0200 != 0) by (bit_vector);
    }
}

/// The cursor is shown where it is, a row above the screen as the first; it has its shape while it
/// is visible and none otherwise.
pub proof fn law_cursor_is_shown_where_it_is(c: RawCursor)
    requires
        c.x <= u16::MAX,
        c.y <= u16::MAX,
    ensures
        ({
            let r = shown_cursor(c);
            &&& r.col == c.x
            &&& c.y >= 0 ==> r.row == c.y
            &&& c.y < 0 ==> r.row == 0
            &&& r.visible == c.visible
            &&& !c.visible ==> r.shape == CursorShape::Hidden
            &&& c.visible ==> match c.shape {
                RawCursorShape::BlinkingUnderline
                | RawCursorShape::SteadyUnderline => r.shape == CursorShape::Underline,
                RawCursorShape::BlinkingBar | RawCursorShape::SteadyBar => r.shape
                    == CursorShape::Bar,
                _ => r.shape == CursorShape::Block,
            }
        }),
{
}

/// The modes tell what the emulator does: brackets round what is pasted, and reports of the mouse.
pub proof fn law_modes_tell_what_is_on(b: WezTermBackend)
    ensures
        (b.shown_modes().0 & 0x0001 != 0) == pastes_in_brackets(b.terminal()),
        (b.shown_modes().0 & 0x0002 != 0) == grabs_mouse(b.terminal()),
{
    lemma_two_flags(pastes_in_brackets(b.terminal()), grabs_mouse(b.terminal()));
}

proof fn lemma_two_flags(paste: bool, mouse: bool)
    by (bit_vector)
    ensures
        ((flag(paste, 0x0001) | flag(mouse, 0x0002)) & 0x0001 != 0) == paste,
        ((flag(paste, 0x0001) | flag(mouse, 0x0002)) & 0x0002 != 0) == mouse,
{
}

/// The history is what stands above the screen. Reading it ends where it ends, or where enough
/// lines are read; reading from behind its end gives nothing.
pub proof fn law_history_is_above_the_screen(b: WezTermBackend, start: int, count: int)
    requires
        0 <= start,
        0 <= count,
    ensures
        ({
            let lines = screen_lines(b.terminal()).len();
            let rows = screen_rows(b.terminal());
            &&& lines >= rows ==> b.history() == lines - rows
            &&& lines < rows ==> b.history() == 0
        }),
        start >= b.history() ==> b.history_end(start, count) == start,
        start < b.history() && start + count <= b.history() ==> b.history_end(start, count) == start
            + count,
        start < b.history() && start + count > b.history() ==> b.history_end(start, count)
            == b.history(),
{
}

/// Rows that are read are the lines of the screen from the first one asked for, each shown with
/// its own glyphs and colours, as many as there are.
pub proof fn law_rows_are_the_screens_lines(
    b: WezTermBackend,
    p: ColorPalette,
    start: int,
    end: int,
    cols: nat,
    i: int,
)
    requires
        0 <= start <= end <= screen_lines(b.terminal()).len(),
        screen_inks(b.terminal(), p).len() == screen_lines(b.terminal()).len(),
        0 <= i < end - start,
    ensures
        b.rows_between(p, start, end, cols).len() == end - start,
        b.rows_between(p, start, end, cols)[i] == shown_line(
            screen_lines(b.terminal())[start + i],
            screen_inks(b.terminal(), p)[start + i],
            cols,
        ),
{
}

/// The grid is what stands below the history, row by row; where the screen has no line for a row,
/// that row is blank.
pub proof fn law_grid_is_below_the_history(b: WezTermBackend, p: ColorPalette, i: int, j: int)
    requires
        screen_inks(b.terminal(), p).len() == screen_lines(b.terminal()).len(),
        0 <= i < b.row_count(),
        0 <= j < b.col_count(),
    ensures
        b.grid(p).len() == b.row_count() * b.col_count(),
        b.grid(p)[i * b.col_count() + j] == if b.history() + i < screen_lines(b.terminal()).len() {
            shown_line(
                screen_lines(b.terminal())[b.history() + i],
                screen_inks(b.terminal(), p)[b.history() + i],
                b.col_count() as nat,
            )[j]
        } else {
            blank_cell()
        },
{
    let rows = b.row_count() as nat;
    let cols = b.col_count() as nat;
    let lines = b.rows_between(p, b.history(), b.history() + rows, cols);
    assert forall|n: int| 0 <= n < lines.len() implies (#[trigger] lines[n]).len() == cols by {
        let from = b.history();
        let glyphs = window(screen_lines(b.terminal()), from, from + rows)[n];
        let inks = window(screen_inks(b.terminal(), p), from, from + rows)[n];
        law_painting_keeps_the_width(blank_row(cols), glyphs, inks, 0);
    }
    law_grid_is_row_major(lines, rows, cols, i, j);
}

} // verus!
