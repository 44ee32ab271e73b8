//! The emulator backend built on `tattoy-wezterm-term`.
//!
//! The emulator itself parses and keeps the screen. What this module adds is which of the
//! parsed actions the screen is given, and how a screen of the emulator becomes a grid of cells:
//! which attributes a cell carries, which colours are exchanged, where a wide character leaves
//! its trailing half, and which lines are history.

use crate::backend::{BackendSize, TerminalBackend};
use crate::terminal::{
    blank_cell, CellAttrs, CellColor, CellState, CursorShape, CursorState, TermModes,
};
use tattoy_wezterm_escape_parser::csi::{Window, CSI};
use tattoy_wezterm_escape_parser::parser::Parser;
use tattoy_wezterm_escape_parser::{Action, ControlCode, Esc, EscCode};
use tattoy_wezterm_term::color::{ColorAttribute, ColorPalette};
use tattoy_wezterm_term::{Terminal, TerminalSize};
use vstd::prelude::*;
use vstd::string::*;

verus! {

/// The emulator. Its state is known through the names below only.
#[verifier::external_type_specification]
#[verifier::external_body]
pub struct ExTerminal(Terminal);

/// A palette of the emulator.
#[verifier::external_type_specification]
#[verifier::external_body]
pub struct ExColorPalette(ColorPalette);

/// The parser that turns a program's output into actions.
#[verifier::external_type_specification]
#[verifier::external_body]
pub struct ExParser(Parser);

/// One step of a program's output: text to show, or a control sequence.
#[verifier::external_type_specification]
#[verifier::external_body]
pub struct ExAction(Action);

/// Kinds of actions, by when an emulator without pixel dimensions can take them.
#[derive(Debug, Clone, Copy, PartialEq, Eq, Structural)]
pub enum ActionKind {
    /// A tab stop at the cursor's column.
    TabSet,
    /// A picture, which is measured in pixels.
    Image,
    /// A checksum over a rectangle, which may reach below the screen.
    Checksum,
    /// Anything else.
    Plain,
}

/// The intensity that stands for bold text.
pub const INTENSITY_BOLD: u8 = 1;

/// The intensity that stands for dim text.
pub const INTENSITY_HALF: u8 = 2;

/// What the emulator says of the text and the style of one visible cell.
#[derive(Debug)]
pub struct CellGlyph {
    /// Column of the cell, counted from 0.
    pub col: usize,
    /// The characters that share the cell.
    pub text: String,
    /// Number of columns the text takes.
    pub width: usize,
    pub reverse: bool,
    pub italic: bool,
    pub strikethrough: bool,
    pub invisible: bool,
    /// 0 is normal, `INTENSITY_BOLD` and `INTENSITY_HALF` are the others.
    pub intensity: u8,
    /// 0 is none; each other number is a style of line.
    pub underline: u8,
    /// 0 is none; each other number is a speed.
    pub blink: u8,
    /// Whether the foreground is the terminal's default.
    pub plain_fg: bool,
    /// Whether the background is the terminal's default.
    pub plain_bg: bool,
}

pub struct GlyphView {
    pub col: usize,
    pub text: Seq<char>,
    pub width: usize,
    pub reverse: bool,
    pub italic: bool,
    pub strikethrough: bool,
    pub invisible: bool,
    pub intensity: u8,
    pub underline: u8,
    pub blink: u8,
    pub plain_fg: bool,
    pub plain_bg: bool,
}

impl View for CellGlyph {
    type V = GlyphView;

    open spec fn view(&self) -> GlyphView {
        GlyphView {
            col: self.col,
            text: self.text@,
            width: self.width,
            reverse: self.reverse,
            italic: self.italic,
            strikethrough: self.strikethrough,
            invisible: self.invisible,
            intensity: self.intensity,
            underline: self.underline,
            blink: self.blink,
            plain_fg: self.plain_fg,
            plain_bg: self.plain_bg,
        }
    }
}

/// The two colours of a cell, as red, green, blue and opacity.
#[derive(Debug, Clone, Copy)]
pub struct CellInk {
    pub fg: (u8, u8, u8, u8),
    pub bg: (u8, u8, u8, u8),
}

/// The shapes the emulator gives its cursor.
#[derive(Debug, Clone, Copy, PartialEq, Eq, Structural)]
pub enum RawCursorShape {
    Plain,
    BlinkingBlock,
    SteadyBlock,
    BlinkingUnderline,
    SteadyUnderline,
    BlinkingBar,
    SteadyBar,
}

/// The emulator's cursor.
#[derive(Debug, Clone, Copy, PartialEq, Eq, Structural)]
pub struct RawCursor {
    pub x: usize,
    /// Row, counted from the top of the visible screen.
    pub y: i64,
    pub shape: RawCursorShape,
    pub visible: bool,
}

/// The lines of the emulator's screen, the oldest of the scrollback first and the visible ones
/// last, each with its visible cells.
pub uninterp spec fn screen_lines(t: Terminal) -> Seq<Seq<GlyphView>>;

/// The colours of the cells of `screen_lines`, resolved with a palette.
pub uninterp spec fn screen_inks(t: Terminal, p: ColorPalette) -> Seq<Seq<CellInk>>;

/// The number of rows of the emulator's visible screen.
pub uninterp spec fn screen_rows(t: Terminal) -> usize;

/// The number of columns of the emulator's screen.
pub uninterp spec fn screen_cols(t: Terminal) -> usize;

/// Whether the screen has a row and a column, its tab stops cover all its columns, and its
/// margins hold at least one row and one column.
pub uninterp spec fn has_room(t: Terminal) -> bool;

/// Whether a palette is the one in force.
pub uninterp spec fn in_force(t: Terminal, p: ColorPalette) -> bool;

/// Which kind an action is of.
pub uninterp spec fn kind_of(a: Action) -> ActionKind;

/// Whether a parser has read nothing yet.
pub uninterp spec fn fresh(p: Parser) -> bool;

/// Whether a parser that reads `data` gives `actions` and is then `after`. What the bytes leave
/// unfinished stays in the parser.
pub uninterp spec fn parsed(
    before: Parser,
    data: Seq<u8>,
    actions: Seq<Action>,
    after: Parser,
) -> bool;

/// Whether an emulator that takes `actions` in one go is then `after`.
pub uninterp spec fn advanced(before: Terminal, actions: Seq<Action>, after: Terminal) -> bool;

/// Whether an emulator that is resized is then `after`.
pub uninterp spec fn resized(before: Terminal, rows: usize, cols: usize, after: Terminal) -> bool;

/// The emulator's cursor.
pub uninterp spec fn screen_cursor(t: Terminal) -> RawCursor;

/// Whether the program asked for bracketed paste.
pub uninterp spec fn pastes_in_brackets(t: Terminal) -> bool;

/// Whether the program asked for mouse reports.
pub uninterp spec fn grabs_mouse(t: Terminal) -> bool;

/// Whether the alternate screen is shown.
pub uninterp spec fn shows_alt_screen(t: Terminal) -> bool;

/// The part of a list from `start` up to `end`, as far as the list goes.
pub open spec fn window<T>(s: Seq<T>, start: int, end: int) -> Seq<T> {
    let from = if start < s.len() { start } else { s.len() as int };
    let to = if end < s.len() { end } else { s.len() as int };
    s.subrange(from, to)
}

/// The views of lines of glyphs.
pub open spec fn glyph_lines(lines: Seq<Vec<CellGlyph>>) -> Seq<Seq<GlyphView>> {
    Seq::new(lines.len(), |i: int| Seq::new(lines[i]@.len(), |j: int| lines[i]@[j]@))
}

/// The views of lines of colours.
pub open spec fn ink_lines(lines: Seq<Vec<CellInk>>) -> Seq<Seq<CellInk>> {
    Seq::new(lines.len(), |i: int| lines[i]@)
}

/// `Screen::lines_in_phys_range` and `Line::visible_cells`: the cells of the lines from `start`
/// up to `end` that exist, counted from the oldest line. Each cell comes with its column, text,
/// width and attributes, the enumerated ones as their numbers.
#[verifier::external_body]
fn read_glyphs(term: &Terminal, start: usize, end: usize) -> (r: Vec<Vec<CellGlyph>>)
    requires
        start <= end,
    ensures
        glyph_lines(r@) == window(screen_lines(*term), start as int, end as int),
{
    term.screen().lines_in_phys_range(start..end).iter().map(|l| l.visible_cells().map(|c| {
        let a = c.attrs();
        CellGlyph {
            col: c.cell_index(), text: c.str().to_owned(), width: c.width(),
            reverse: a.reverse(), italic: a.italic(),
            strikethrough: a.strikethrough(), invisible: a.invisible(),
            intensity: a.intensity() as u8, underline: a.underline() as u8,
            blink: a.blink() as u8,
            plain_fg: matches!(a.foreground(), ColorAttribute::Default),
            plain_bg: matches!(a.background(), ColorAttribute::Default),
        }
    }).collect()).collect()
}

/// `ColorPalette::resolve_fg` on the colours of the same cells as `read_glyphs`, with the given
/// palette: one pair for each cell.
#[verifier::external_body]
fn read_inks(term: &Terminal, palette: &ColorPalette, start: usize, end: usize) -> (r: Vec<
    Vec<CellInk>,
>)
    requires
        start <= end,
    ensures
        ink_lines(r@) == window(screen_inks(*term, *palette), start as int, end as int),
        r@.len() == window(screen_lines(*term), start as int, end as int).len(),
        forall|i: int|
            0 <= i < r@.len() ==> (#[trigger] r@[i])@.len() == window(
                screen_lines(*term),
                start as int,
                end as int,
            )[i].len(),
{
    term.screen().lines_in_phys_range(start..end).iter().map(|l| l.visible_cells().map(|c| {
        let a = c.attrs();
        CellInk {
            fg: palette.resolve_fg(a.foreground()).as_rgba_u8(),
            bg: palette.resolve_fg(a.background()).as_rgba_u8(),
        }
    }).collect()).collect()
}

/// `TerminalState::palette`: the palette in force. The terminal's configuration chooses it
/// unless the program overrode it, so only that it is in force is stated of it.
#[verifier::external_body]
fn palette_of(term: &Terminal) -> (r: ColorPalette)
    ensures
        in_force(*term, r),
{
    term.palette()
}

/// `Screen::scrollback_rows`: the number of all lines, the visible ones among them.
#[verifier::external_body]
fn line_count(term: &Terminal) -> (r: usize)
    ensures
        r == screen_lines(*term).len(),
{
    term.screen().scrollback_rows()
}

/// `Screen::physical_rows`: the height of the visible screen.
#[verifier::external_body]
fn visible_rows(term: &Terminal) -> (r: usize)
    ensures
        r == screen_rows(*term),
{
    term.screen().physical_rows
}

/// `Screen::physical_cols`: the width of the screen.
#[verifier::external_body]
fn column_count(term: &Terminal) -> (r: usize)
    ensures
        r == screen_cols(*term),
{
    term.screen().physical_cols
}

/// `TerminalState::cursor_pos`: position, shape and visibility, one for one.
#[verifier::external_body]
fn raw_cursor(term: &Terminal) -> (r: RawCursor)
    ensures
        r == screen_cursor(*term),
{
    let p = term.cursor_pos();
    let shape = match p.shape {
        tattoy_wezterm_surface::CursorShape::Default => RawCursorShape::Plain,
        tattoy_wezterm_surface::CursorShape::BlinkingBlock => RawCursorShape::BlinkingBlock,
        tattoy_wezterm_surface::CursorShape::SteadyBlock => RawCursorShape::SteadyBlock,
        tattoy_wezterm_surface::CursorShape::BlinkingUnderline => RawCursorShape::BlinkingUnderline,
        tattoy_wezterm_surface::CursorShape::SteadyUnderline => RawCursorShape::SteadyUnderline,
        tattoy_wezterm_surface::CursorShape::BlinkingBar => RawCursorShape::BlinkingBar,
        tattoy_wezterm_surface::CursorShape::SteadyBar => RawCursorShape::SteadyBar,
    };
    let visible = matches!(p.visibility, tattoy_wezterm_surface::CursorVisibility::Visible);
    RawCursor { x: p.x, y: p.y, shape, visible }
}

/// `TerminalState::bracketed_paste_enabled`.
#[verifier::external_body]
fn bracketed_paste_of(term: &Terminal) -> (r: bool)
    ensures
        r == pastes_in_brackets(*term),
{
    term.bracketed_paste_enabled()
}

/// `TerminalState::is_mouse_grabbed`.
#[verifier::external_body]
fn mouse_grabbed_of(term: &Terminal) -> (r: bool)
    ensures
        r == grabs_mouse(*term),
{
    term.is_mouse_grabbed()
}

/// `TerminalState::is_alt_screen_active`.
#[verifier::external_body]
fn alt_screen_of(term: &Terminal) -> (r: bool)
    ensures
        r == shows_alt_screen(*term),
{
    term.is_alt_screen_active()
}

/// `Parser::new`: a parser that has read nothing.
#[verifier::external_body]
fn new_parser() -> (r: Parser)
    ensures
        fresh(r),
{
    Parser::new()
}

/// `Parser::parse_as_vec`: the actions that the bytes complete, in their order. Which these are
/// is the parser's grammar, of which nothing more is stated.
#[verifier::external_body]
fn parse(parser: &mut Parser, data: &[u8]) -> (r: Vec<Action>)
    ensures
        parsed(*old(parser), data@, r@, *final(parser)),
{
    parser.parse_as_vec(data)
}

/// The variants of `Action`, told apart: `HTS` as a control code and as an escape sequence set a
/// tab stop, `Sixel` and `KittyImage` are pictures, and `ChecksumRectangularArea` is a checksum.
#[verifier::external_body]
fn action_kind(action: &Action) -> (r: ActionKind)
    ensures
        r == kind_of(*action),
{
    match action {
        Action::Control(ControlCode::HTS) => ActionKind::TabSet,
        Action::Esc(Esc::Code(EscCode::HorizontalTabSet)) => ActionKind::TabSet,
        Action::Sixel(_) => ActionKind::Image,
        Action::KittyImage(_) => ActionKind::Image,
        Action::CSI(CSI::Window(w)) => match **w {
            Window::ChecksumRectangularArea { .. } => ActionKind::Checksum,
            _ => ActionKind::Plain,
        },
        _ => ActionKind::Plain,
    }
}

/// Whether all actions are plain.
pub open spec fn all_plain(actions: Seq<Action>) -> bool {
    forall|i: int| 0 <= i < actions.len() ==> kind_of(#[trigger] actions[i]) == ActionKind::Plain
}

/// Whether an emulator can take an action that stands alone. A tab stop has a place only while
/// the cursor stands in a column: a program may leave it one behind the last. A picture is
/// placed by the size of a cell in pixels, which is 0. A checksum may be asked of rows that are
/// not there, and changes nothing on the screen.
pub open spec fn can_take(t: Terminal, a: Action) -> bool {
    match kind_of(a) {
        ActionKind::TabSet => screen_cursor(t).x < screen_cols(t),
        ActionKind::Image => false,
        ActionKind::Checksum => false,
        ActionKind::Plain => true,
    }
}

/// `Terminal::perform_actions`: the emulator takes the actions, which is what
/// `Terminal::advance_bytes` does with the actions of its own parser. The actions are plain, or
/// there is one that the emulator can take. What they do to its screen is the emulator's
/// business, of which only this is stated: its tab stops and margins still fit its screen.
#[verifier::external_body]
fn advance(term: &mut Terminal, actions: Vec<Action>)
    requires
        has_room(*old(term)),
        all_plain(actions@) || actions@.len() == 1 && can_take(*old(term), actions@[0]),
    ensures
        advanced(*old(term), actions@, *final(term)),
        has_room(*final(term)),
{
    term.perform_actions(actions);
}

/// `TerminalState::resize` without pixel dimensions. The screen of a terminal has the rows and
/// the columns asked for, and at least one of each. Where neither number is 0, the tab stops and
/// margins fit it. How the lines are wrapped anew is not stated.
#[verifier::external_body]
fn resize_to(term: &mut Terminal, rows: usize, cols: usize)
    ensures
        resized(*old(term), rows, cols, *final(term)),
        screen_rows(*final(term)) == if rows == 0 { 1 } else { rows },
        screen_cols(*final(term)) == if cols == 0 { 1 } else { cols },
        rows > 0 && cols > 0 ==> has_room(*final(term)),
{
    term.resize(TerminalSize { rows, cols, pixel_width: 0, pixel_height: 0, dpi: 0 });
}

/// How many plain actions come first.
pub open spec fn plain_len(actions: Seq<Action>) -> nat
    decreases actions.len(),
{
    if actions.len() > 0 && kind_of(actions[0]) == ActionKind::Plain {
        1 + plain_len(actions.skip(1))
    } else {
        0
    }
}

/// What an action that is not plain makes of an emulator: it is left out where the emulator
/// cannot take it.
pub open spec fn stepped(before: Terminal, action: Action, after: Terminal) -> bool {
    if can_take(before, action) {
        advanced(before, seq![action], after)
    } else {
        after == before
    }
}

/// What a list of actions makes of an emulator: the plain ones up to the next other one are
/// taken in one go, then that one, and so on.
pub open spec fn ran(before: Terminal, actions: Seq<Action>, after: Terminal) -> bool
    decreases actions.len(),
{
    let n = plain_len(actions) as int;
    if n >= actions.len() {
        advanced(before, actions, after)
    } else {
        exists|there: Terminal, next: Terminal|
            {
                &&& #[trigger] advanced(before, actions.take(n), there)
                &&& #[trigger] stepped(there, actions[n], next)
                &&& ran(next, actions.skip(n + 1), after)
            }
    }
}

proof fn lemma_plain_len(head: Seq<Action>, rest: Seq<Action>)
    requires
        all_plain(head),
        rest.len() > 0 ==> kind_of(rest[0]) != ActionKind::Plain,
    ensures
        plain_len(head + rest) == head.len(),
    decreases head.len(),
{
    if head.len() == 0 {
        assert(head + rest =~= rest);
    } else {
        assert(kind_of(head[0]) == ActionKind::Plain);
        assert((head + rest).skip(1) =~= head.skip(1) + rest);
        assert forall|i: int| 0 <= i < head.skip(1).len() implies kind_of(
            #[trigger] head.skip(1)[i],
        ) == ActionKind::Plain by {
            assert(head.skip(1)[i] == head[i + 1]);
        }
        lemma_plain_len(head.skip(1), rest);
    }
}

/// Output without tab stops, pictures and checksums reaches the emulator whole and in one go.
pub proof fn law_plain_actions_are_taken_whole(
    before: Terminal,
    actions: Seq<Action>,
    after: Terminal,
)
    requires
        all_plain(actions),
    ensures
        ran(before, actions, after) == advanced(before, actions, after),
{
    lemma_plain_len(actions, Seq::empty());
    assert(actions + Seq::<Action>::empty() =~= actions);
}

/// A list the other way round.
fn reversed(list: Vec<Action>) -> (r: Vec<Action>)
    ensures
        r@ == list@.reverse(),
{
    let ghost all = list@;
    let mut left = list;
    let mut r: Vec<Action> = Vec::new();
    while left.len() > 0
        invariant
            left@.len() <= all.len(),
            left@ == all.take(left@.len() as int),
            r@ == all.skip(left@.len() as int).reverse(),
        decreases left@.len(),
    {
        let ghost n = left@.len() as int;
        if let Some(action) = left.pop() {
            r.push(action);
        }
        assert(left@ =~= all.take(n - 1));
        assert(r@ =~= all.skip(n - 1).reverse());
    }
    assert(all.skip(0) =~= all);
    r
}

/// Give an emulator a list of actions, but for those that it cannot take.
fn run(term: &mut Terminal, actions: Vec<Action>)
    requires
        has_room(*old(term)),
    ensures
        has_room(*final(term)),
        ran(*old(term), actions@, *final(term)),
{
    let ghost all = actions@;
    let mut todo = reversed(actions);
    let mut head: Vec<Action> = Vec::new();
    assert(head@ + todo@.reverse() =~= all);
    while todo.len() > 0
        invariant
            has_room(*term),
            all_plain(head@),
            forall|after: Terminal| #[trigger]
                ran(*term, head@ + todo@.reverse(), after) ==> ran(*old(term), all, after),
        decreases todo@.len(),
    {
        let ghost before = *term;
        let ghost first = head@;
        let ghost rest = first + todo@.reverse();
        if let Some(action) = todo.pop() {
            let ghost tail = todo@.reverse();
            assert(rest =~= first + (seq![action] + tail));
            let kind = action_kind(&action);
            if kind == ActionKind::Plain {
                head.push(action);
                assert(head@ + tail =~= rest);
            } else {
                proof {
                    lemma_plain_len(first, seq![action] + tail);
                    assert(rest.take(first.len() as int) =~= first);
                    assert(rest[first.len() as int] == action);
                    assert(rest.skip(first.len() as int + 1) =~= tail);
                }
                advance(term, head);
                head = Vec::new();
                let ghost there = *term;
                let fits = kind == ActionKind::TabSet && raw_cursor(term).x < column_count(term);
                if fits {
                    let mut alone: Vec<Action> = Vec::new();
                    alone.push(action);
                    assert(alone@ =~= seq![action]);
                    advance(term, alone);
                }
                assert(stepped(there, action, *term));
                assert(head@ + tail =~= tail);
                assert forall|after: Terminal| #[trigger] ran(*term, head@ + tail, after) implies
                    ran(*old(term), all, after) by {
                    assert(advanced(before, rest.take(plain_len(rest) as int), there));
                    assert(stepped(there, rest[plain_len(rest) as int], *term));
                    assert(ran(before, rest, after));
                }
            }
        }
    }
    let ghost before = *term;
    let ghost last = head@;
    proof {
        lemma_plain_len(last, Seq::empty());
        assert(last + Seq::<Action>::empty() =~= last);
        assert(last + todo@.reverse() =~= last);
    }
    advance(term, head);
    assert(ran(before, last + todo@.reverse(), *term));
}

/// A mask, or nothing.
pub open spec fn flag(on: bool, mask: u16) -> u16 {
    if on {
        mask
    } else {
        0
    }
}

/// The attributes of a cell: those of its style, and which of the displayed colours are the
/// terminal's own. Inverse video displays the background in front.
pub open spec fn shown_attrs(g: GlyphView) -> CellAttrs {
    CellAttrs(
        flag(g.intensity == INTENSITY_BOLD, CellAttrs::BOLD) | flag(
            g.intensity == INTENSITY_HALF,
            CellAttrs::DIM,
        ) | flag(g.italic, CellAttrs::ITALIC) | flag(g.underline != 0, CellAttrs::UNDERLINE) | flag(
            g.strikethrough,
            CellAttrs::STRIKETHROUGH,
        ) | flag(g.reverse, CellAttrs::INVERSE) | flag(g.invisible, CellAttrs::HIDDEN) | flag(
            g.blink != 0,
            CellAttrs::BLINK,
        ) | flag(g.width > 1, CellAttrs::WIDE_CHAR) | flag(
            if g.reverse {
                g.plain_bg
            } else {
                g.plain_fg
            },
            CellAttrs::DEFAULT_FG,
        ) | flag(
            if g.reverse {
                g.plain_fg
            } else {
                g.plain_bg
            },
            CellAttrs::DEFAULT_BG,
        ),
    )
}

/// A colour without its opacity.
pub open spec fn opaque_color(c: (u8, u8, u8, u8)) -> CellColor {
    CellColor { r: c.0, g: c.1, b: c.2 }
}

/// The cell that a glyph in its two colours shows.
pub open spec fn shown_cell(g: GlyphView, ink: CellInk) -> CellState {
    CellState {
        c: if g.text.len() == 0 {
            ' '
        } else {
            g.text[0]
        },
        fg: opaque_color(if g.reverse {
            ink.bg
        } else {
            ink.fg
        }),
        bg: opaque_color(if g.reverse {
            ink.fg
        } else {
            ink.bg
        }),
        attrs: shown_attrs(g),
    }
}

/// A cell marked as the trailing half of a wide character.
pub open spec fn as_spacer(c: CellState) -> CellState {
    CellState { attrs: CellAttrs(c.attrs.0 | CellAttrs::WIDE_CHAR_SPACER), ..c }
}

/// A row after a glyph was put into it.
pub open spec fn placed(row: Seq<CellState>, g: GlyphView, ink: CellInk) -> Seq<CellState> {
    let put = row.update(g.col as int, shown_cell(g, ink));
    if g.width > 1 && g.col + 1 < row.len() {
        put.update(g.col + 1, as_spacer(put[g.col + 1]))
    } else {
        put
    }
}

/// A row after the glyphs of a line, from the `k`-th on, were put into it one after another. The
/// first glyph beyond the right edge ends the line.
pub open spec fn painted(
    row: Seq<CellState>,
    glyphs: Seq<GlyphView>,
    inks: Seq<CellInk>,
    k: int,
) -> Seq<CellState>
    decreases glyphs.len() - k,
{
    if k < 0 || k >= glyphs.len() || glyphs[k].col >= row.len() {
        row
    } else {
        painted(placed(row, glyphs[k], inks[k]), glyphs, inks, k + 1)
    }
}

/// A blank row.
pub open spec fn blank_row(cols: nat) -> Seq<CellState> {
    Seq::new(cols, |i: int| blank_cell())
}

/// A line of the screen as a row of cells.
pub open spec fn shown_line(glyphs: Seq<GlyphView>, inks: Seq<CellInk>, cols: nat) -> Seq<
    CellState,
> {
    painted(blank_row(cols), glyphs, inks, 0)
}

/// Lines as rows of cells.
pub open spec fn shown_lines(
    lines: Seq<Seq<GlyphView>>,
    inks: Seq<Seq<CellInk>>,
    cols: nat,
) -> Seq<Seq<CellState>> {
    Seq::new(lines.len(), |i: int| shown_line(lines[i], inks[i], cols))
}

/// The first rows of a grid, one after another. Rows that have no line are blank.
pub open spec fn grid_rows(lines: Seq<Seq<CellState>>, rows: nat, cols: nat) -> Seq<CellState>
    decreases rows,
{
    if rows == 0 {
        Seq::empty()
    } else {
        grid_rows(lines, (rows - 1) as nat, cols) + if rows - 1 < lines.len() {
            lines[rows - 1]
        } else {
            blank_row(cols)
        }
    }
}

/// A row keeps its width whatever is painted into it.
pub proof fn law_painting_keeps_the_width(
    row: Seq<CellState>,
    glyphs: Seq<GlyphView>,
    inks: Seq<CellInk>,
    k: int,
)
    ensures
        painted(row, glyphs, inks, k).len() == row.len(),
    decreases glyphs.len() - k,
{
    if k < 0 || k >= glyphs.len() || glyphs[k].col >= row.len() {
    } else {
        law_painting_keeps_the_width(placed(row, glyphs[k], inks[k]), glyphs, inks, k + 1);
    }
}

/// A grid has a cell for every place, and the cell of row `i` and column `j` is the one that
/// row's line shows there.
pub proof fn law_grid_is_row_major(
    lines: Seq<Seq<CellState>>,
    rows: nat,
    cols: nat,
    i: int,
    j: int,
)
    requires
        forall|n: int| 0 <= n < lines.len() ==> (#[trigger] lines[n]).len() == cols,
    ensures
        grid_rows(lines, rows, cols).len() == rows * cols,
        0 <= i < rows && 0 <= j < cols ==> {
            &&& 0 <= i * cols + j < rows * cols
            &&& grid_rows(lines, rows, cols)[i * cols + j] == if i < lines.len() {
                lines[i][j]
            } else {
                blank_cell()
            }
        },
    decreases rows,
{
    if rows > 0 {
        let above = (rows - 1) as nat;
        law_grid_is_row_major(lines, above, cols, i, j);
        assert(rows * cols == above * cols + cols) by (nonlinear_arith)
            requires
                rows == above + 1,
        ;
        if 0 <= i < rows && 0 <= j < cols {
            if i == above {
                assert(i * cols == above * cols);
            }
        }
    } else {
        assert(rows * cols == 0) by (nonlinear_arith)
            requires
                rows == 0,
        ;
    }
}

/// Every attribute of a shown cell is set exactly when the glyph has what it stands for, and a
/// shown cell is never a trailing half.
pub proof fn law_attributes_tell_the_style(g: GlyphView)
    ensures
        ({
            let a = shown_attrs(g);
            &&& a.has(CellAttrs::BOLD) == (g.intensity == INTENSITY_BOLD)
            &&& a.has(CellAttrs::DIM) == (g.intensity == INTENSITY_HALF)
            &&& a.has(CellAttrs::ITALIC) == g.italic
            &&& a.has(CellAttrs::UNDERLINE) == (g.underline != 0)
            &&& a.has(CellAttrs::STRIKETHROUGH) == g.strikethrough
            &&& a.has(CellAttrs::INVERSE) == g.reverse
            &&& a.has(CellAttrs::HIDDEN) == g.invisible
            &&& a.has(CellAttrs::BLINK) == (g.blink != 0)
            &&& a.has(CellAttrs::WIDE_CHAR) == (g.width > 1)
            &&& !a.has(CellAttrs::WIDE_CHAR_SPACER)
            &&& a.has(CellAttrs::DEFAULT_FG) == if g.reverse {
                g.plain_bg
            } else {
                g.plain_fg
            }
            &&& a.has(CellAttrs::DEFAULT_BG) == if g.reverse {
                g.plain_fg
            } else {
                g.plain_bg
            }
        }),
{
    lemma_flags(
        g.intensity == INTENSITY_BOLD,
        g.intensity == INTENSITY_HALF,
        g.italic,
        g.underline != 0,
        g.strikethrough,
        g.reverse,
        g.invisible,
        g.blink != 0,
        g.width > 1,
        if g.reverse {
            g.plain_bg
        } else {
            g.plain_fg
        },
        if g.reverse {
            g.plain_fg
        } else {
            g.plain_bg
        },
    );
}

proof fn lemma_flags(
    b0: bool,
    b1: bool,
    b2: bool,
    b3: bool,
    b4: bool,
    b5: bool,
    b6: bool,
    b7: bool,
    b8: bool,
    b10: bool,
    b11: bool,
)
    by (bit_vector)
    ensures
        ({
            let a = flag(b0, 0x0001) | flag(b1, 0x0002) | flag(b2, 0x0004) | flag(b3, 0x0008)
                | flag(b4, 0x0010) | flag(b5, 0x0020) | flag(b6, 0x0040) | flag(b7, 0x0080)
                | flag(b8, 0x0100) | flag(b10, 0x0400) | flag(b11, 0x0800);
            &&& (a & 0x0001 != 0) == b0
            &&& (a & 0x0002 != 0) == b1
            &&& (a & 0x0004 != 0) == b2
            &&& (a & 0x0008 != 0) == b3
            &&& (a & 0x0010 != 0) == b4
            &&& (a & 0x0020 != 0) == b5
            &&& (a & 0x0040 != 0) == b6
            &&& (a & 0x0080 != 0) == b7
            &&& (a & 0x0100 != 0) == b8
            &&& a & 0x0200 == 0
            &&& (a & 0x0400 != 0) == b10
            &&& (a & 0x0800 != 0) == b11
        }),
{
}

fn mask(on: bool, bits: u16) -> (r: u16)
    ensures
        r == flag(on, bits),
{
    if on {
        bits
    } else {
        0
    }
}

/// The cell that a glyph in its two colours shows.
pub fn cell_state_from_attrs(g: &CellGlyph, ink: CellInk) -> (r: CellState)
    ensures
        r == shown_cell(g@, ink),
{
    let (front, back) = if g.reverse {
        (ink.bg, ink.fg)
    } else {
        (ink.fg, ink.bg)
    };
    let (plain_front, plain_back) = if g.reverse {
        (g.plain_bg, g.plain_fg)
    } else {
        (g.plain_fg, g.plain_bg)
    };
    let bits: u16 = mask(g.intensity == INTENSITY_BOLD, CellAttrs::BOLD) | mask(
        g.intensity == INTENSITY_HALF,
        CellAttrs::DIM,
    ) | mask(g.italic, CellAttrs::ITALIC) | mask(g.underline != 0, CellAttrs::UNDERLINE) | mask(
        g.strikethrough,
        CellAttrs::STRIKETHROUGH,
    ) | mask(g.reverse, CellAttrs::INVERSE) | mask(g.invisible, CellAttrs::HIDDEN) | mask(
        g.blink != 0,
        CellAttrs::BLINK,
    ) | mask(g.width > 1, CellAttrs::WIDE_CHAR) | mask(plain_front, CellAttrs::DEFAULT_FG) | mask(
        plain_back,
        CellAttrs::DEFAULT_BG,
    );
    let c = if g.text.as_str().unicode_len() == 0 {
        ' '
    } else {
        g.text.as_str().get_char(0)
    };
    CellState {
        c,
        fg: CellColor::new(front.0, front.1, front.2),
        bg: CellColor::new(back.0, back.1, back.2),
        attrs: CellAttrs(bits),
    }
}

/// The shape shown to clients.
pub open spec fn shown_shape(shape: RawCursorShape) -> CursorShape {
    match shape {
        RawCursorShape::Plain
        | RawCursorShape::BlinkingBlock
        | RawCursorShape::SteadyBlock => CursorShape::Block,
        RawCursorShape::BlinkingUnderline
        | RawCursorShape::SteadyUnderline => CursorShape::Underline,
        RawCursorShape::BlinkingBar | RawCursorShape::SteadyBar => CursorShape::Bar,
    }
}

/// The cursor shown to clients. One above the screen is shown in the first row.
pub open spec fn shown_cursor(c: RawCursor) -> CursorState {
    CursorState {
        row: if c.y < 0 {
            0
        } else {
            c.y as u16
        },
        col: c.x as u16,
        shape: if c.visible {
            shown_shape(c.shape)
        } else {
            CursorShape::Hidden
        },
        visible: c.visible,
    }
}

/// The shape shown to clients.
pub fn convert_cursor_shape(shape: RawCursorShape) -> (r: CursorShape)
    ensures
        r == shown_shape(shape),
{
    match shape {
        RawCursorShape::Plain
        | RawCursorShape::BlinkingBlock
        | RawCursorShape::SteadyBlock => CursorShape::Block,
        RawCursorShape::BlinkingUnderline
        | RawCursorShape::SteadyUnderline => CursorShape::Underline,
        RawCursorShape::BlinkingBar | RawCursorShape::SteadyBar => CursorShape::Bar,
    }
}

/// The cursor shown to clients.
pub fn convert_cursor(pos: RawCursor) -> (r: CursorState)
    ensures
        r == shown_cursor(pos),
{
    let row: u16 = if pos.y < 0 {
        0
    } else {
        #[verifier::truncate] (pos.y as u16)
    };
    let shape = if pos.visible {
        convert_cursor_shape(pos.shape)
    } else {
        CursorShape::Hidden
    };
    CursorState {
        row,
        col: #[verifier::truncate] (pos.x as u16),
        shape,
        visible: pos.visible,
    }
}

fn blank(cols: usize) -> (r: Vec<CellState>)
    ensures
        r@ == blank_row(cols as nat),
{
    let mut row: Vec<CellState> = Vec::new();
    let mut i: usize = 0;
    while i < cols
        invariant
            0 <= i <= cols,
            row@ == blank_row(i as nat),
        decreases cols - i,
    {
        row.push(CellState::default());
        i = i + 1;
        assert(row@ =~= blank_row(i as nat));
    }
    row
}

/// Turn a line of glyphs into a row of `cols` cells.
pub fn paint_line(glyphs: &Vec<CellGlyph>, inks: &Vec<CellInk>, cols: usize) -> (r: Vec<CellState>)
    requires
        glyphs@.len() == inks@.len(),
    ensures
        r@ == shown_line(Seq::new(glyphs@.len(), |j: int| glyphs@[j]@), inks@, cols as nat),
        r@.len() == cols,
{
    let ghost line = Seq::new(glyphs@.len(), |j: int| glyphs@[j]@);
    let mut row = blank(cols);
    let mut k: usize = 0;
    while k < glyphs.len() && glyphs[k].col < cols
        invariant
            0 <= k <= glyphs@.len() == inks@.len(),
            row@.len() == cols,
            line == Seq::new(glyphs@.len(), |j: int| glyphs@[j]@),
            painted(row@, line, inks@, k as int) == painted(
                blank_row(cols as nat),
                line,
                inks@,
                0,
            ),
        decreases glyphs@.len() - k,
    {
        let ghost before = row@;
        let col: usize = glyphs[k].col;
        row.set(col, cell_state_from_attrs(&glyphs[k], inks[k]));
        if glyphs[k].width > 1 && cols - col > 1 {
            let next = row[col + 1];
            row.set(
                col + 1,
                CellState { attrs: CellAttrs(next.attrs.0 | CellAttrs::WIDE_CHAR_SPACER), ..next },
            );
        }
        assert(row@ =~= placed(before, line[k as int], inks@[k as int]));
        k = k + 1;
    }
    row
}

/// Turn lines of glyphs into rows of `cols` cells.
pub fn paint_lines(
    lines: &Vec<Vec<CellGlyph>>,
    inks: &Vec<Vec<CellInk>>,
    cols: usize,
) -> (r: Vec<Vec<CellState>>)
    requires
        lines@.len() == inks@.len(),
        forall|i: int| 0 <= i < lines@.len() ==> (#[trigger] lines@[i])@.len() == inks@[i]@.len(),
    ensures
        cell_rows(r@) == shown_lines(glyph_lines(lines@), ink_lines(inks@), cols as nat),
        forall|i: int| 0 <= i < r@.len() ==> (#[trigger] r@[i])@.len() == cols,
{
    let mut rows: Vec<Vec<CellState>> = Vec::new();
    let mut i: usize = 0;
    while i < lines.len()
        invariant
            0 <= i <= lines@.len() == inks@.len(),
            rows@.len() == i,
            forall|n: int|
                0 <= n < lines@.len() ==> (#[trigger] lines@[n])@.len() == inks@[n]@.len(),
            forall|n: int|
                0 <= n < i ==> (#[trigger] rows@[n])@ == shown_lines(
                    glyph_lines(lines@),
                    ink_lines(inks@),
                    cols as nat,
                )[n] && rows@[n]@.len() == cols,
        decreases lines@.len() - i,
    {
        assert(lines@[i as int]@.len() == inks@[i as int]@.len());
        let row = paint_line(&lines[i], &inks[i], cols);
        rows.push(row);
        i = i + 1;
    }
    assert(cell_rows(rows@) =~= shown_lines(
        glyph_lines(lines@),
        ink_lines(inks@),
        cols as nat,
    ));
    rows
}

/// The views of rows of cells.
pub open spec fn cell_rows(rows: Seq<Vec<CellState>>) -> Seq<Seq<CellState>> {
    Seq::new(rows.len(), |i: int| rows[i]@)
}

/// Put rows of cells one after another, and blank rows below them, into one grid.
pub fn lay_out_grid(lines: &Vec<Vec<CellState>>, rows: usize, cols: usize) -> (r: Vec<CellState>)
    ensures
        r@ == grid_rows(cell_rows(lines@), rows as nat, cols as nat),
{
    let mut grid: Vec<CellState> = Vec::new();
    let mut i: usize = 0;
    while i < rows
        invariant
            0 <= i <= rows,
            grid@ == grid_rows(cell_rows(lines@), i as nat, cols as nat),
        decreases rows - i,
    {
        if i < lines.len() {
            let mut line = crate::terminal::copy_cells(&lines[i]);
            grid.append(&mut line);
        } else {
            let mut line = blank(cols);
            grid.append(&mut line);
        }
        i = i + 1;
    }
    grid
}

/// A number of rows or columns of a screen, which has at least one of each.
pub open spec fn at_least_one(n: u16) -> usize {
    if n == 0 {
        1
    } else {
        n as usize
    }
}

fn or_one(n: u16) -> (r: usize)
    ensures
        r == at_least_one(n),
{
    if n == 0 {
        1
    } else {
        n as usize
    }
}

/// A pane's emulator.
pub struct WezTermBackend {
    term: Terminal,
    parser: Parser,
    rows: u16,
    cols: u16,
}

impl WezTermBackend {
    pub closed spec fn terminal(self) -> Terminal {
        self.term
    }

    pub closed spec fn parser(self) -> Parser {
        self.parser
    }

    pub closed spec fn row_count(self) -> u16 {
        self.rows
    }

    pub closed spec fn col_count(self) -> u16 {
        self.cols
    }

    /// Number of lines above the visible screen.
    pub open spec fn history(self) -> int {
        let above = screen_lines(self.terminal()).len() - screen_rows(self.terminal());
        if above < 0 {
            0
        } else {
            above
        }
    }

    /// Where `count` lines of history from line `start` on end.
    pub open spec fn history_end(self, start: int, count: int) -> int {
        if start + count < self.history() {
            start + count
        } else if start < self.history() {
            self.history()
        } else {
            start
        }
    }

    /// The lines from `start` up to `end` as rows of cells, in the colours of a palette.
    pub open spec fn rows_between(self, p: ColorPalette, start: int, end: int, cols: nat) -> Seq<
        Seq<CellState>,
    > {
        shown_lines(
            window(screen_lines(self.terminal()), start, end),
            window(screen_inks(self.terminal(), p), start, end),
            cols,
        )
    }

    /// The visible grid in the colours of a palette.
    pub open spec fn grid(self, p: ColorPalette) -> Seq<CellState> {
        let rows = self.row_count() as nat;
        let cols = self.col_count() as nat;
        grid_rows(
            self.rows_between(p, self.history(), self.history() + rows, cols),
            rows,
            cols,
        )
    }

    /// The modes shown to clients.
    pub open spec fn shown_modes(self) -> TermModes {
        TermModes(
            flag(pastes_in_brackets(self.terminal()), TermModes::BRACKETED_PASTE) | flag(
                grabs_mouse(self.terminal()),
                TermModes::MOUSE_REPORT_CLICK,
            ),
        )
    }

    /// A backend of the given size around an emulator, which is brought to that size.
    pub fn new(term: Terminal, rows: u16, cols: u16) -> (r: Self)
        ensures
            r.wf(),
            r.row_count() == rows,
            r.col_count() == cols,
            fresh(r.parser()),
            resized(term, at_least_one(rows), at_least_one(cols), r.terminal()),
            screen_rows(r.terminal()) == at_least_one(rows),
            screen_cols(r.terminal()) == at_least_one(cols),
    {
        let mut screen = term;
        resize_to(&mut screen, or_one(rows), or_one(cols));
        WezTermBackend { term: screen, parser: new_parser(), rows, cols }
    }

    /// Read the lines from `start` up to `end` as rows of `cols` cells.
    fn read_rows(&self, start: usize, end: usize, cols: usize) -> (r: Vec<Vec<CellState>>)
        requires
            start <= end,
        ensures
            exists|p: ColorPalette|
                in_force(self.terminal(), p) && cell_rows(r@) == #[trigger] self.rows_between(
                    p,
                    start as int,
                    end as int,
                    cols as nat,
                ),
            forall|i: int| 0 <= i < r@.len() ==> (#[trigger] r@[i])@.len() == cols,
    {
        let palette = palette_of(&self.term);
        let glyphs = read_glyphs(&self.term, start, end);
        let inks = read_inks(&self.term, &palette, start, end);
        proof {
            let shown = window(screen_lines(self.term), start as int, end as int);
            assert(glyph_lines(glyphs@).len() == shown.len());
            assert forall|i: int| 0 <= i < glyphs@.len() implies (#[trigger] glyphs@[i])@.len()
                == inks@[i]@.len() by {
                assert(glyph_lines(glyphs@)[i] == shown[i]);
                assert(glyph_lines(glyphs@)[i].len() == glyphs@[i]@.len());
                assert(inks@[i]@.len() == shown[i].len());
            }
        }
        let rows = paint_lines(&glyphs, &inks, cols);
        assert(cell_rows(rows@) == self.rows_between(palette, start as int, end as int, cols as nat));
        rows
    }

    fn lines_above(&self) -> (r: usize)
        ensures
            r == self.history(),
            screen_lines(self.terminal()).len() <= usize::MAX,
    {
        let all = line_count(&self.term);
        let shown = visible_rows(&self.term);
        if all < shown {
            0
        } else {
            all - shown
        }
    }
}

impl TerminalBackend for WezTermBackend {
    open spec fn wf(&self) -> bool {
        has_room(self.terminal())
    }

    open spec fn hears(&self, data: Seq<u8>, after: &Self) -> bool {
        &&& after.row_count() == self.row_count()
        &&& after.col_count() == self.col_count()
        &&& exists|actions: Seq<Action>| #[trigger]
            parsed(self.parser(), data, actions, after.parser()) && ran(
                self.terminal(),
                actions,
                after.terminal(),
            )
    }

    open spec fn size_now(&self) -> BackendSize {
        BackendSize {
            rows: self.row_count(),
            cols: self.col_count(),
            pixel_width: 0,
            pixel_height: 0,
        }
    }

    open spec fn paints(&self, before: Seq<CellState>, after: Seq<CellState>) -> bool {
        exists|p: ColorPalette| in_force(self.terminal(), p) && after == #[trigger] self.grid(p)
    }

    open spec fn cursor_shown(&self) -> CursorState {
        shown_cursor(screen_cursor(self.terminal()))
    }

    open spec fn modes_set(&self) -> TermModes {
        self.shown_modes()
    }

    fn name() -> (r: &'static str)
        ensures
            r@ == "wezterm"@,
    {
        "wezterm"
    }

    fn feed(&mut self, data: &[u8])
        ensures
            final(self).row_count() == old(self).row_count(),
            final(self).col_count() == old(self).col_count(),
            exists|actions: Seq<Action>| #[trigger]
                parsed(old(self).parser(), data@, actions, final(self).parser()) && ran(
                    old(self).terminal(),
                    actions,
                    final(self).terminal(),
                ),
    {
        let actions = parse(&mut self.parser, data);
        run(&mut self.term, actions);
        assert(parsed(old(self).parser(), data@, actions@, self.parser()));
    }

    fn size(&self) -> (r: BackendSize)
        ensures
            r == (BackendSize {
                rows: self.row_count(),
                cols: self.col_count(),
                pixel_width: 0,
                pixel_height: 0,
            }),
    {
        BackendSize { rows: self.rows, cols: self.cols, pixel_width: 0, pixel_height: 0 }
    }

    fn fill_cells(&self, out: &mut Vec<CellState>)
        ensures
            exists|p: ColorPalette|
                in_force(self.terminal(), p) && final(out)@ == #[trigger] self.grid(p),
            final(out)@.len() == self.row_count() * self.col_count(),
    {
        let rows: usize = self.rows as usize;
        let cols: usize = self.cols as usize;
        let start: usize = self.lines_above();
        let end: usize = start.saturating_add(rows);
        let lines = self.read_rows(start, end, cols);
        let grid = lay_out_grid(&lines, rows, cols);
        proof {
            let p = choose|p: ColorPalette|
                in_force(self.terminal(), p) && cell_rows(lines@) == #[trigger] self.rows_between(
                    p,
                    start as int,
                    end as int,
                    cols as nat,
                );
            assert(self.rows_between(p, start as int, end as int, cols as nat)
                =~= self.rows_between(
                p,
                self.history(),
                self.history() + rows,
                cols as nat,
            ));
            assert(grid@ == self.grid(p));
            law_grid_is_row_major(cell_rows(lines@), rows as nat, cols as nat, 0, 0);
        }
        *out = grid;
    }

    fn cursor(&self) -> (r: CursorState)
        ensures
            r == shown_cursor(screen_cursor(self.terminal())),
    {
        convert_cursor(raw_cursor(&self.term))
    }

    fn modes(&self) -> (r: TermModes)
        ensures
            r == self.shown_modes(),
    {
        TermModes(
            mask(bracketed_paste_of(&self.term), TermModes::BRACKETED_PASTE) | mask(
                mouse_grabbed_of(&self.term),
                TermModes::MOUSE_REPORT_CLICK,
            ),
        )
    }

    fn resize(&mut self, size: BackendSize)
        ensures
            final(self).row_count() == size.rows,
            final(self).col_count() == size.cols,
            final(self).parser() == old(self).parser(),
            resized(
                old(self).terminal(),
                at_least_one(size.rows),
                at_least_one(size.cols),
                final(self).terminal(),
            ),
            screen_rows(final(self).terminal()) == at_least_one(size.rows),
            screen_cols(final(self).terminal()) == at_least_one(size.cols),
    {
        self.rows = size.rows;
        self.cols = size.cols;
        resize_to(&mut self.term, or_one(size.rows), or_one(size.cols));
    }

    fn fill_cells_and_cursor(&self, out: &mut Vec<CellState>) -> (r: (CursorState, TermModes))
        ensures
            exists|p: ColorPalette|
                in_force(self.terminal(), p) && final(out)@ == #[trigger] self.grid(p),
            final(out)@.len() == self.row_count() * self.col_count(),
            r.0 == shown_cursor(screen_cursor(self.terminal())),
            r.1 == self.shown_modes(),
    {
        self.fill_cells(out);
        (self.cursor(), self.modes())
    }

    fn is_alt_screen(&self) -> (r: bool)
        ensures
            r == shows_alt_screen(self.terminal()),
    {
        alt_screen_of(&self.term)
    }

    fn history_size(&self) -> (r: usize)
        ensures
            r == self.history(),
    {
        self.lines_above()
    }

    fn read_history_lines(&self, start: usize, count: usize, cols: usize) -> (r: Vec<
        Vec<CellState>,
    >)
        ensures
            exists|p: ColorPalette|
                in_force(self.terminal(), p) && cell_rows(r@) == #[trigger] self.rows_between(
                    p,
                    start as int,
                    self.history_end(start as int, count as int),
                    cols as nat,
                ),
            forall|i: int| 0 <= i < r@.len() ==> (#[trigger] r@[i])@.len() == cols,
    {
        let hist = self.lines_above();
        let wanted = start.saturating_add(count);
        let end = if wanted < hist {
            wanted
        } else if start < hist {
            hist
        } else {
            start
        };
        assert(end == self.history_end(start as int, count as int));
        self.read_rows(start, end, cols)
    }
}

} // verus!
