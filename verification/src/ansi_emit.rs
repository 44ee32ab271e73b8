//! A saved screen as the escape sequences that show it again in a fresh terminal.

use crate::terminal::{CellAttrs, CellColor, CellState, GridSnapshot, GridView};
use crate::text::{decimal, decimal_text, views};
use vstd::prelude::*;
use vstd::string::StringExecFns;
use vstd::utf8::{encode_scalar, encode_utf8};

verus! {

/// What decides how a cell looks, besides its character.
#[derive(Clone, Copy, Debug, PartialEq, Eq, Structural)]
pub struct StyleKey {
    pub fg: CellColor,
    pub bg: CellColor,
    pub attrs: CellAttrs,
}

pub open spec fn style_of(c: CellState) -> StyleKey {
    StyleKey { fg: c.fg, bg: c.bg, attrs: c.attrs }
}

/// A text where a condition holds.
pub open spec fn text_if(b: bool, t: Seq<char>) -> Seq<char> {
    if b {
        t
    } else {
        Seq::empty()
    }
}

/// A colour as the parameters of a sequence, behind `lead`.
pub open spec fn colour_text(lead: Seq<char>, c: CellColor) -> Seq<char> {
    lead + decimal_text(c.r as nat) + ";"@ + decimal_text(c.g as nat) + ";"@ + decimal_text(
        c.b as nat,
    )
}

/// The sequence that switches to a cell's style, whatever the style before.
pub open spec fn sgr_text(c: CellState) -> Seq<char> {
    "\x1b[0"@ + text_if(c.attrs.has(CellAttrs::BOLD), ";1"@) + text_if(
        c.attrs.has(CellAttrs::DIM),
        ";2"@,
    ) + text_if(c.attrs.has(CellAttrs::ITALIC), ";3"@) + text_if(
        c.attrs.has(CellAttrs::UNDERLINE),
        ";4"@,
    ) + text_if(!c.attrs.has(CellAttrs::DEFAULT_FG), colour_text(";38;2;"@, c.fg)) + text_if(
        !c.attrs.has(CellAttrs::DEFAULT_BG),
        colour_text(";48;2;"@, c.bg),
    ) + "m"@
}

/// How many cells of a row are left once trailing blanks are taken off.
pub open spec fn content_len(cells: Seq<CellState>) -> nat
    decreases cells.len(),
{
    if cells.len() == 0 {
        0
    } else if cells.last().c != ' ' {
        cells.len()
    } else {
        content_len(cells.drop_last())
    }
}

/// Cells with a style sequence wherever the style changes.
pub open spec fn styled(cells: Seq<CellState>) -> Seq<u8>
    decreases cells.len(),
{
    if cells.len() == 0 {
        Seq::empty()
    } else {
        let init = cells.drop_last();
        let c = cells.last();
        let switch = init.len() == 0 || style_of(init.last()) != style_of(c);
        styled(init) + (if switch {
            encode_utf8(sgr_text(c))
        } else {
            Seq::empty()
        }) + encode_scalar(c.c as u32)
    }
}

/// One row: its content, a reset of the style, and the end of the line.
pub open spec fn line_bytes(cells: Seq<CellState>) -> Seq<u8> {
    styled(cells.take(content_len(cells) as int)) + encode_utf8("\x1b[0m\r\n"@)
}

pub open spec fn lines_bytes(lines: Seq<Seq<CellState>>) -> Seq<u8>
    decreases lines.len(),
{
    if lines.len() == 0 {
        Seq::empty()
    } else {
        lines_bytes(lines.drop_last()) + line_bytes(lines.last())
    }
}

/// How many rows of a grid have all of their cells.
pub open spec fn full_rows(g: GridView) -> int {
    if g.cols == 0 || g.rows * g.cols <= g.cells.len() {
        g.rows as int
    } else {
        (g.cells.len() as int) / (g.cols as int)
    }
}

/// One row of a grid.
pub open spec fn grid_row(g: GridView, row: int) -> Seq<CellState> {
    g.cells.subrange(row * g.cols, row * g.cols + g.cols)
}

pub open spec fn grid_bytes(g: GridView, rows: nat) -> Seq<u8>
    decreases rows,
{
    if rows == 0 {
        Seq::empty()
    } else {
        grid_bytes(g, (rows - 1) as nat) + line_bytes(grid_row(g, rows - 1))
    }
}

/// A screen with its history, oldest line first, and a separator if asked for.
pub open spec fn screen_bytes(g: GridView, history: Seq<Seq<CellState>>, separator: bool) -> Seq<
    u8,
> {
    encode_utf8("\x1b[0m"@) + lines_bytes(history) + grid_bytes(g, full_rows(g) as nat) + (
    if separator {
        encode_utf8("\x1b[2m[kmux: session restored]\x1b[0m\r\n"@)
    } else {
        Seq::empty()
    })
}

/// A text is appended byte by byte.
fn append_text(out: &mut Vec<u8>, text: &str)
    ensures
        final(out)@ == old(out)@ + encode_utf8(text@),
{
    let mut more = text.as_bytes_vec();
    out.append(&mut more);
}

/// A character is appended in its UTF-8 form.
fn append_char(out: &mut Vec<u8>, c: char)
    ensures
        final(out)@ == old(out)@ + encode_scalar(c as u32),
{
    broadcast use vstd::utf8::char_is_scalar;

    let ghost start = out@;
    let v = c as u32;
    let last: u8 = 0x80 | (v & 0x3F) as u8;
    if v <= 0x7F {
        out.push((v & 0x7F) as u8);
    } else if v <= 0x7FF {
        out.push(0xC0 | ((v >> 6) & 0x1F) as u8);
        out.push(last);
    } else if v <= 0xFFFF {
        out.push(0xE0 | ((v >> 12) & 0x0F) as u8);
        out.push(0x80 | ((v >> 6) & 0x3F) as u8);
        out.push(last);
    } else {
        out.push(0xF0 | ((v >> 18) & 0x7) as u8);
        out.push(0x80 | ((v >> 12) & 0x3F) as u8);
        out.push(0x80 | ((v >> 6) & 0x3F) as u8);
        out.push(last);
    }
    assert(out@ =~= start + encode_scalar(c as u32));
}

fn append_colour(out: &mut String, lead: &str, c: CellColor)
    ensures
        final(out)@ == old(out)@ + colour_text(lead@, c),
{
    let ghost start = out@;
    out.append(lead);
    let r = decimal(c.r as u64);
    out.append(r.as_str());
    out.append(";");
    let g = decimal(c.g as u64);
    out.append(g.as_str());
    out.append(";");
    let b = decimal(c.b as u64);
    out.append(b.as_str());
    assert(out@ =~= start + colour_text(lead@, c));
}

/// The sequence that switches to a cell's style.
fn sgr(c: &CellState) -> (r: String)
    ensures
        r@ == sgr_text(*c),
{
    let mut out = "\x1b[0".to_owned();
    if c.attrs.contains(CellAttrs::BOLD) {
        out.append(";1");
    }
    if c.attrs.contains(CellAttrs::DIM) {
        out.append(";2");
    }
    if c.attrs.contains(CellAttrs::ITALIC) {
        out.append(";3");
    }
    if c.attrs.contains(CellAttrs::UNDERLINE) {
        out.append(";4");
    }
    if !c.attrs.contains(CellAttrs::DEFAULT_FG) {
        append_colour(&mut out, ";38;2;", c.fg);
    }
    if !c.attrs.contains(CellAttrs::DEFAULT_BG) {
        append_colour(&mut out, ";48;2;", c.bg);
    }
    out.append("m");
    assert(out@ =~= sgr_text(*c));
    out
}

/// Emit one row of cells, without trailing blanks, one style sequence per change of style.
pub fn emit_cells_line(out: &mut Vec<u8>, cells: &[CellState])
    ensures
        final(out)@ == old(out)@ + line_bytes(cells@),
{
    let ghost start = out@;
    let mut last: usize = cells.len();
    assert(cells@.take(last as int) =~= cells@);
    while last > 0 && cells[last - 1].c == ' '
        invariant
            0 <= last <= cells@.len(),
            content_len(cells@) == content_len(cells@.take(last as int)),
        decreases last,
    {
        assert(cells@.take(last as int).drop_last() =~= cells@.take(last - 1));
        last = last - 1;
    }
    assert(content_len(cells@) == last);
    let mut i: usize = 0;
    assert(out@ =~= start + styled(cells@.take(0)));
    while i < last
        invariant
            0 <= i <= last <= cells@.len(),
            out@ == start + styled(cells@.take(i as int)),
        decreases last - i,
    {
        let ghost next = cells@.take(i + 1);
        let ghost before = out@;
        assert(next.drop_last() =~= cells@.take(i as int));
        let c = cells[i];
        let switch = if i == 0 {
            true
        } else {
            let p = cells[i - 1];
            p.fg != c.fg || p.bg != c.bg || p.attrs != c.attrs
        };
        if switch {
            let text = sgr(&c);
            append_text(out, text.as_str());
        }
        append_char(out, c.c);
        assert(out@ =~= start + styled(next));
        i = i + 1;
    }
    append_text(out, "\x1b[0m\r\n");
    assert(out@ =~= start + line_bytes(cells@));
}

/// How many rows fit.
proof fn lemma_full_rows(g: GridView, row: int)
    requires
        0 <= row < g.rows,
    ensures
        row * g.cols + g.cols <= g.cells.len() <==> row < full_rows(g),
        full_rows(g) <= g.rows,
        0 <= full_rows(g),
{
    let n = g.cells.len() as int;
    let c = g.cols as int;
    let rows = g.rows as int;
    assert(row * c + c == (row + 1) * c) by (nonlinear_arith);
    if c == 0 {
        assert((row + 1) * c == 0) by (nonlinear_arith)
            requires
                c == 0,
        ;
    } else if rows * c <= n {
        assert((row + 1) * c <= rows * c) by (nonlinear_arith)
            requires
                row + 1 <= rows,
                c > 0,
        ;
    } else {
        let q = n / c;
        assert(q * c <= n < (q + 1) * c && q >= 0) by (nonlinear_arith)
            requires
                q == n / c,
                c > 0,
                n >= 0,
        ;
        assert(q < rows) by (nonlinear_arith)
            requires
                q * c <= n,
                rows * c > n,
                c > 0,
        ;
        assert((row + 1) * c <= n <==> row + 1 <= q) by (nonlinear_arith)
            requires
                q * c <= n < (q + 1) * c,
                c > 0,
        ;
    }
}

/// A screen and its history as the bytes that show them again: history first, so that it scrolls
/// into the fresh terminal's own; then the visible rows; then, if asked for, a dim separator.
pub fn snapshot_to_ansi(
    snapshot: &GridSnapshot,
    scrollback_lines: &Vec<Vec<CellState>>,
    separator: bool,
) -> (r: Vec<u8>)
    ensures
        r@ == screen_bytes(snapshot@, views(scrollback_lines@), separator),
{
    let mut out: Vec<u8> = Vec::new();
    append_text(&mut out, "\x1b[0m");
    let ghost reset = out@;
    let ghost history = views(scrollback_lines@);
    let mut i: usize = 0;
    assert(out@ =~= reset + lines_bytes(history.take(0)));
    while i < scrollback_lines.len()
        invariant
            0 <= i <= scrollback_lines@.len(),
            history == views(scrollback_lines@),
            out@ == reset + lines_bytes(history.take(i as int)),
        decreases scrollback_lines@.len() - i,
    {
        let ghost next = history.take(i + 1);
        assert(next.drop_last() =~= history.take(i as int));
        assert(next.last() == scrollback_lines@[i as int]@);
        emit_cells_line(&mut out, scrollback_lines[i].as_slice());
        i = i + 1;
        assert(out@ =~= reset + lines_bytes(next));
    }
    assert(history.take(i as int) =~= history);
    let ghost above = out@;
    let rows = snapshot.rows as usize;
    let cols = snapshot.cols as usize;
    let mut row: usize = 0;
    let mut more = true;
    assert(out@ =~= above + grid_bytes(snapshot@, 0));
    proof {
        if rows > 0 {
            lemma_full_rows(snapshot@, 0);
        } else {
            assert(snapshot.rows * snapshot.cols == 0) by (nonlinear_arith)
                requires
                    snapshot.rows == 0,
            ;
        }
    }
    while more && row < rows
        invariant
            rows == snapshot.rows,
            cols == snapshot.cols,
            0 <= row <= rows,
            row <= full_rows(snapshot@) <= rows,
            !more ==> row == full_rows(snapshot@),
            out@ == above + grid_bytes(snapshot@, row as nat),
        decreases rows - row + if more { 1int } else { 0int },
    {
        proof {
            lemma_full_rows(snapshot@, row as int);
            assert(row * cols + cols <= 0xFFFF_FFFF) by (nonlinear_arith)
                requires
                    row < 0xFFFF,
                    cols <= 0xFFFF,
            ;
            assert(row * cols >= 0) by (nonlinear_arith)
                requires
                    row >= 0,
                    cols >= 0,
            ;
        }
        let base: usize = row * cols;
        if base + cols > snapshot.cells.len() {
            more = false;
        } else {
            let cells = vstd::slice::slice_subrange(snapshot.cells.as_slice(), base, base + cols);
            assert(cells@ =~= grid_row(snapshot@, row as int));
            emit_cells_line(&mut out, cells);
            row = row + 1;
            assert(out@ =~= above + grid_bytes(snapshot@, row as nat));
        }
    }
    if separator {
        append_text(&mut out, "\x1b[2m[kmux: session restored]\x1b[0m\r\n");
    }
    assert(out@ =~= screen_bytes(snapshot@, views(scrollback_lines@), separator));
    out
}

/// Blanks at the end of a row do not show.
pub proof fn law_trailing_blanks_do_not_show(cells: Seq<CellState>, blanks: Seq<CellState>)
    requires
        forall|i: int| 0 <= i < blanks.len() ==> (#[trigger] blanks[i]).c == ' ',
    ensures
        line_bytes(cells + blanks) == line_bytes(cells),
    decreases blanks.len(),
{
    if blanks.len() == 0 {
        assert(cells + blanks =~= cells);
    } else {
        let fewer = blanks.drop_last();
        assert forall|i: int| 0 <= i < fewer.len() implies (#[trigger] fewer[i]).c == ' ' by {
            assert(blanks[i].c == ' ');
        }
        law_trailing_blanks_do_not_show(cells, fewer);
        let longer = cells + blanks;
        assert(longer.drop_last() =~= cells + fewer);
        assert(longer.last() == blanks[blanks.len() - 1]);
        lemma_content_fits(cells + fewer);
        let n = content_len(cells + fewer) as int;
        assert(longer.take(n) =~= (cells + fewer).take(n));
    }
}

proof fn lemma_content_fits(cells: Seq<CellState>)
    ensures
        content_len(cells) <= cells.len(),
    decreases cells.len(),
{
    if cells.len() > 0 && cells.last().c == ' ' {
        lemma_content_fits(cells.drop_last());
    }
}

/// A style is named once, where it begins: a further cell of the same style adds its character
/// only, and one of another style its own style first.
pub proof fn law_style_is_named_where_it_begins(cells: Seq<CellState>, c: CellState)
    requires
        cells.len() > 0,
    ensures
        style_of(cells.last()) == style_of(c) ==> styled(cells.push(c)) == styled(cells)
            + encode_scalar(c.c as u32),
        style_of(cells.last()) != style_of(c) ==> styled(cells.push(c)) == styled(cells)
            + encode_utf8(sgr_text(c)) + encode_scalar(c.c as u32),
{
    assert(cells.push(c).drop_last() =~= cells);
    assert(styled(cells) + Seq::<u8>::empty() =~= styled(cells));
}

/// A line's content reaches to its last character that is not a blank.
pub proof fn law_content_ends_with_the_last_character(cells: Seq<CellState>)
    ensures
        content_len(cells) <= cells.len(),
        forall|i: int| content_len(cells) <= i < cells.len() ==> (#[trigger] cells[i]).c == ' ',
        content_len(cells) > 0 ==> cells[content_len(cells) - 1].c != ' ',
    decreases cells.len(),
{
    if cells.len() > 0 && cells.last().c == ' ' {
        let init = cells.drop_last();
        law_content_ends_with_the_last_character(init);
        assert forall|i: int| content_len(cells) <= i < cells.len() implies (
        #[trigger] cells[i]).c == ' ' by {
            if i < init.len() {
                assert(init[i].c == ' ');
            }
        }
    }
}

/// A line begins with the style of its first cell; an empty one has no style at all. Each line
/// ends with the plain style and a new line.
pub proof fn law_line_begins_with_its_style(c: CellState, cells: Seq<CellState>)
    ensures
        styled(Seq::empty()).len() == 0,
        styled(seq![c]) == encode_utf8(sgr_text(c)) + encode_scalar(c.c as u32),
        line_bytes(cells) == styled(cells.take(content_len(cells) as int)) + encode_utf8(
            "\x1b[0m\r\n"@,
        ),
{
    reveal_with_fuel(styled, 2);
    assert(seq![c].drop_last() =~= Seq::empty());
    assert(styled(seq![c]) =~= encode_utf8(sgr_text(c)) + encode_scalar(c.c as u32));
}

/// How a style is named: reset first, then bold, dim, italic and underlined, each where the cell
/// is that, then its foreground and its background unless they are the default ones.
pub proof fn law_how_a_style_is_named(
    c: CellState,
    bold: Seq<char>,
    dim: Seq<char>,
    italic: Seq<char>,
    underline: Seq<char>,
    front: Seq<char>,
    back: Seq<char>,
)
    requires
        bold == if c.attrs.0 & 0x0001 != 0 {
            ";1"@
        } else {
            Seq::<char>::empty()
        },
        dim == if c.attrs.0 & 0x0002 != 0 {
            ";2"@
        } else {
            Seq::<char>::empty()
        },
        italic == if c.attrs.0 & 0x0004 != 0 {
            ";3"@
        } else {
            Seq::<char>::empty()
        },
        underline == if c.attrs.0 & 0x0008 != 0 {
            ";4"@
        } else {
            Seq::<char>::empty()
        },
        c.attrs.0 & 0x0400 != 0 ==> front.len() == 0,
        c.attrs.0 & 0x0400 == 0 ==> front == ";38;2;"@ + decimal_text(c.fg.r as nat) + ";"@
            + decimal_text(c.fg.g as nat) + ";"@ + decimal_text(c.fg.b as nat),
        c.attrs.0 & 0x0800 != 0 ==> back.len() == 0,
        c.attrs.0 & 0x0800 == 0 ==> back == ";48;2;"@ + decimal_text(c.bg.r as nat) + ";"@
            + decimal_text(c.bg.g as nat) + ";"@ + decimal_text(c.bg.b as nat),
    ensures
        sgr_text(c) == "\x1b[0"@ + bold + dim + italic + underline + front + back + "m"@,
{
    if c.attrs.0 & 0x0400 != 0 {
        assert(front =~= Seq::empty());
    }
    if c.attrs.0 & 0x0800 != 0 {
        assert(back =~= Seq::empty());
    }
}

/// Lines come one after the other: those of the history from the oldest, those of the grid from
/// the top, each grid line made of its own row of cells.
pub proof fn law_lines_come_in_order(
    lines: Seq<Seq<CellState>>,
    line: Seq<CellState>,
    g: GridView,
    row: nat,
)
    ensures
        lines_bytes(Seq::empty()).len() == 0,
        lines_bytes(lines.push(line)) == lines_bytes(lines) + line_bytes(line),
        grid_bytes(g, 0).len() == 0,
        grid_bytes(g, row + 1) == grid_bytes(g, row) + line_bytes(grid_row(g, row as int)),
        0 <= row * g.cols && row * g.cols + g.cols <= g.cells.len() ==> {
            &&& grid_row(g, row as int).len() == g.cols
            &&& forall|j: int|
                0 <= j < g.cols ==> #[trigger] grid_row(g, row as int)[j] == g.cells[row * g.cols
                    + j]
        },
{
    assert(lines.push(line).drop_last() =~= lines);
}

/// A screen is the plain style, its history, its grid, and a note that the session was brought
/// back where that is wanted. A whole grid is emitted whole.
pub proof fn law_screen_is_history_and_grid(g: GridView, history: Seq<Seq<CellState>>)
    ensures
        ({
            let plain = screen_bytes(g, history, false);
            &&& plain == encode_utf8("\x1b[0m"@) + lines_bytes(history) + grid_bytes(
                g,
                full_rows(g) as nat,
            )
            &&& screen_bytes(g, history, true) == plain + encode_utf8(
                "\x1b[2m[kmux: session restored]\x1b[0m\r\n"@,
            )
            &&& g.rows * g.cols <= g.cells.len() ==> full_rows(g) == g.rows
        }),
{
    let plain = screen_bytes(g, history, false);
    assert(plain =~= encode_utf8("\x1b[0m"@) + lines_bytes(history) + grid_bytes(
        g,
        full_rows(g) as nat,
    ));
    assert(screen_bytes(g, history, true) =~= plain + encode_utf8(
        "\x1b[2m[kmux: session restored]\x1b[0m\r\n"@,
    ));
}

} // verus!
