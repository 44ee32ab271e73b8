use std::sync::Arc;

use kmuxd::backend::mock::MockBackend;
use kmuxd::backend::wezterm::{
    cell_state_from_attrs, convert_cursor, lay_out_grid, paint_line, CellGlyph, CellInk, RawCursor,
    RawCursorShape, WezTermBackend,
};
use kmuxd::backend::{BackendSize, TerminalBackend, TitleFollower};
use kmuxd::terminal::{CellAttrs, CellColor, CellState, CursorShape, CursorState, TermModes};
use tattoy_wezterm_term::color::ColorPalette;
use tattoy_wezterm_term::{Terminal, TerminalConfiguration, TerminalSize};

#[derive(Debug)]
struct PlainConfig;

impl TerminalConfiguration for PlainConfig {
    fn scrollback_size(&self) -> usize {
        50_000
    }

    fn color_palette(&self) -> ColorPalette {
        ColorPalette::default()
    }
}

fn test_backend(rows: u16, cols: u16) -> WezTermBackend {
    let size = TerminalSize {
        rows: rows as usize,
        cols: cols as usize,
        pixel_width: 0,
        pixel_height: 0,
        dpi: 0,
    };
    let term = Terminal::new(size, Arc::new(PlainConfig), "kmux", "0", Box::new(std::io::sink()));
    WezTermBackend::new(term, rows, cols)
}

fn cells(b: &WezTermBackend) -> Vec<CellState> {
    let mut out = Vec::new();
    b.fill_cells(&mut out);
    out
}

fn find(b: &WezTermBackend, c: char) -> CellState {
    *cells(b).iter().find(|cell| cell.c == c).unwrap()
}

fn text_of(row: &[CellState]) -> String {
    row.iter().map(|c| c.c).collect::<String>().trim_end().to_string()
}

#[test]
fn wezterm_feed_red_text_has_correct_red_fg() {
    let mut ts = test_backend(24, 80);
    ts.feed(b"\x1b[31mred");
    let r_cell = find(&ts, 'r');
    assert_ne!(r_cell.fg, CellColor::new(0xff, 0xff, 0xff), "'r' cell should not be white");
    assert_ne!(r_cell.fg, CellColor::new(0, 0, 0), "'r' cell should not be black");
    assert!(!r_cell.attrs.contains(CellAttrs::DEFAULT_FG));
}

#[test]
fn wezterm_feed_truecolor_text() {
    let mut ts = test_backend(24, 80);
    ts.feed(b"\x1b[38;2;255;128;0mX");
    let x_cell = find(&ts, 'X');
    assert_eq!(x_cell.fg, CellColor::new(255, 128, 0), "truecolor should pass through");
}

#[test]
fn wezterm_snapshot_captures_full_grid() {
    let mut ts = test_backend(24, 80);
    ts.feed(b"ABC");
    let size = ts.size();
    assert_eq!(size.rows, 24);
    assert_eq!(size.cols, 80);
    let grid = cells(&ts);
    assert_eq!(grid.len(), 24 * 80);
    assert_eq!(grid[0].c, 'A');
    assert_eq!(grid[1].c, 'B');
    assert_eq!(grid[2].c, 'C');
}

#[test]
fn wezterm_cursor_tracks_position() {
    let mut ts = test_backend(24, 80);
    ts.feed(b"hello");
    assert_eq!(ts.cursor().row, 0);
    assert_eq!(ts.cursor().col, 5);
}

#[test]
fn wezterm_fzf_cursor_hidden_state() {
    let mut ts = test_backend(24, 80);
    ts.feed(b"\x1b[?25l");
    let (cursor, _) = ts.fill_cells_and_cursor(&mut Vec::new());
    assert!(!cursor.visible, "cursor should be hidden after DECTCEM reset");
    assert_eq!(cursor.shape, CursorShape::Hidden);
}

#[test]
fn wezterm_bracketed_paste_mode_enable_disable() {
    let mut ts = test_backend(24, 80);
    assert!(!ts.modes().bracketed_paste(), "bracketed paste should be off by default");
    ts.feed(b"\x1b[?2004h");
    assert!(ts.modes().bracketed_paste(), "bracketed paste should be on after \\e[?2004h");
    ts.feed(b"\x1b[?2004l");
    assert!(!ts.modes().bracketed_paste(), "bracketed paste should be off after \\e[?2004l");
}

#[test]
fn wezterm_mouse_report_click_mode_enable_disable() {
    let mut ts = test_backend(24, 80);
    assert!(!ts.modes().mouse_report(), "mouse reporting should be off by default");
    ts.feed(b"\x1b[?1000h");
    assert!(ts.modes().mouse_report(), "mouse reporting should be on after \\e[?1000h");
    ts.feed(b"\x1b[?1000l");
    assert!(!ts.modes().mouse_report(), "mouse reporting should be off after \\e[?1000l");
}

#[test]
fn wezterm_default_fg_bg_flags_on_plain_text() {
    let mut ts = test_backend(24, 80);
    ts.feed(b"A");
    let a_cell = find(&ts, 'A');
    assert!(
        a_cell.attrs.0 & CellAttrs::DEFAULT_FG != 0,
        "plain text should have DEFAULT_FG set"
    );
    assert!(
        a_cell.attrs.0 & CellAttrs::DEFAULT_BG != 0,
        "plain text should have DEFAULT_BG set"
    );
}

#[test]
fn wezterm_bold_text_sets_bold_flag() {
    let mut ts = test_backend(24, 80);
    ts.feed(b"\x1b[1mB");
    let b_cell = find(&ts, 'B');
    assert!(b_cell.attrs.0 & CellAttrs::BOLD != 0, "bold escape should set BOLD flag");
}

#[test]
fn wezterm_wide_char_marks_spacer() {
    let mut ts = test_backend(24, 80);
    ts.feed("\u{4e2d}".as_bytes());
    let grid = cells(&ts);
    assert_eq!(grid[0].c, '\u{4e2d}');
    assert!(
        grid[0].attrs.0 & CellAttrs::WIDE_CHAR != 0,
        "wide char should have WIDE_CHAR flag"
    );
    assert!(
        grid[1].attrs.0 & CellAttrs::WIDE_CHAR_SPACER != 0,
        "cell after wide char should have WIDE_CHAR_SPACER flag"
    );
}

#[test]
fn wezterm_resize_changes_grid_dimensions() {
    let mut ts = test_backend(24, 80);
    ts.feed(b"hello");
    ts.resize(BackendSize { rows: 30, cols: 120, pixel_width: 0, pixel_height: 0 });
    let size = ts.size();
    assert_eq!(size.rows, 30);
    assert_eq!(size.cols, 120);
    let grid = cells(&ts);
    assert_eq!(grid.len(), 30 * 120);
    assert_eq!(text_of(&grid[..120]), "hello");
}

#[test]
fn a_row_of_the_grid_is_a_line_of_the_screen() {
    let mut ts = test_backend(3, 10);
    ts.feed(b"one\r\ntwo\r\nthree");
    let grid = cells(&ts);
    assert_eq!(grid.len(), 30);
    assert_eq!(text_of(&grid[0..10]), "one");
    assert_eq!(text_of(&grid[10..20]), "two");
    assert_eq!(text_of(&grid[20..30]), "three");
}

#[test]
fn lines_that_scroll_off_become_history() {
    let mut ts = test_backend(4, 20);
    assert_eq!(ts.history_size(), 0);
    for i in 0..8 {
        ts.feed(format!("line {i}\r\n").as_bytes());
    }
    assert_eq!(ts.history_size(), 5);
    let rows = ts.read_history_lines(1, 2, 20);
    assert_eq!(rows.len(), 2);
    assert_eq!(text_of(&rows[0]), "line 1");
    assert_eq!(text_of(&rows[1]), "line 2");
    assert_eq!(rows[0].len(), 20);
    assert_eq!(text_of(&cells(&ts)[..20]), "line 5");
    assert_eq!(ts.read_history_lines(3, 100, 4).len(), 2);
    assert_eq!(text_of(&ts.read_history_lines(3, 100, 4)[0]), "line");
    assert!(ts.read_history_lines(5, 1, 20).is_empty());
    assert!(ts.read_history_lines(usize::MAX, usize::MAX, 20).is_empty());
}

#[test]
fn the_alternate_screen_has_no_history() {
    let mut ts = test_backend(4, 20);
    for i in 0..8 {
        ts.feed(format!("line {i}\r\n").as_bytes());
    }
    assert!(!ts.is_alt_screen());
    ts.feed(b"\x1b[?1049h");
    assert!(ts.is_alt_screen());
    assert_eq!(ts.history_size(), 0);
    ts.feed(b"\x1b[?1049l");
    assert!(!ts.is_alt_screen());
    assert_eq!(ts.history_size(), 5);
}

#[test]
fn inverse_video_exchanges_the_colours() {
    let mut ts = test_backend(2, 10);
    ts.feed(b"\x1b[38;2;1;2;3;48;2;4;5;6mN\x1b[7mI");
    let n = find(&ts, 'N');
    let i = find(&ts, 'I');
    assert_eq!(n.fg, CellColor::new(1, 2, 3));
    assert_eq!(n.bg, CellColor::new(4, 5, 6));
    assert_eq!(i.fg, CellColor::new(4, 5, 6));
    assert_eq!(i.bg, CellColor::new(1, 2, 3));
    assert!(i.attrs.contains(CellAttrs::INVERSE));
    assert!(!n.attrs.contains(CellAttrs::INVERSE));
}

#[test]
fn every_style_has_its_attribute() {
    let mut ts = test_backend(2, 20);
    ts.feed(b"\x1b[2mD\x1b[0m\x1b[3mI\x1b[0m\x1b[4mU\x1b[0m\x1b[9mS\x1b[0m\x1b[8mH\x1b[0m\x1b[5mK");
    let plain = CellAttrs::DEFAULT_FG | CellAttrs::DEFAULT_BG;
    assert_eq!(find(&ts, 'D').attrs, CellAttrs(CellAttrs::DIM | plain));
    assert_eq!(find(&ts, 'I').attrs, CellAttrs(CellAttrs::ITALIC | plain));
    assert_eq!(find(&ts, 'U').attrs, CellAttrs(CellAttrs::UNDERLINE | plain));
    assert_eq!(find(&ts, 'S').attrs, CellAttrs(CellAttrs::STRIKETHROUGH | plain));
    assert_eq!(find(&ts, 'H').attrs, CellAttrs(CellAttrs::HIDDEN | plain));
    assert_eq!(find(&ts, 'K').attrs, CellAttrs(CellAttrs::BLINK | plain));
}

fn glyph(col: usize, text: &str, width: usize) -> CellGlyph {
    CellGlyph {
        col,
        text: text.to_string(),
        width,
        reverse: false,
        italic: false,
        strikethrough: false,
        invisible: false,
        intensity: 0,
        underline: 0,
        blink: 0,
        plain_fg: false,
        plain_bg: true,
    }
}

const INK: CellInk = CellInk { fg: (1, 2, 3, 255), bg: (9, 8, 7, 255) };

#[test]
fn a_cell_shows_the_first_character_or_a_blank() {
    assert_eq!(cell_state_from_attrs(&glyph(0, "e\u{301}", 1), INK).c, 'e');
    assert_eq!(cell_state_from_attrs(&glyph(0, "", 1), INK).c, ' ');
}

#[test]
fn inverse_video_exchanges_which_colour_is_the_default() {
    let mut g = glyph(0, "x", 1);
    let shown = cell_state_from_attrs(&g, INK);
    assert_eq!(shown.attrs, CellAttrs(CellAttrs::DEFAULT_BG));
    assert_eq!(shown.fg, CellColor::new(1, 2, 3));
    g.reverse = true;
    let shown = cell_state_from_attrs(&g, INK);
    assert_eq!(shown.attrs, CellAttrs(CellAttrs::INVERSE | CellAttrs::DEFAULT_FG));
    assert_eq!(shown.fg, CellColor::new(9, 8, 7));
    assert_eq!(shown.bg, CellColor::new(1, 2, 3));
}

#[test]
fn a_line_ends_at_the_right_edge() {
    let line = vec![glyph(0, "a", 1), glyph(2, "\u{4e2d}", 2), glyph(4, "z", 1), glyph(1, "b", 1)];
    let row = paint_line(&line, &vec![INK, INK, INK, INK], 3);
    assert_eq!(row.len(), 3);
    assert_eq!(row[0].c, 'a');
    assert_eq!(row[1], CellState::default());
    assert_eq!(row[2].c, '\u{4e2d}');
    assert!(row[2].attrs.contains(CellAttrs::WIDE_CHAR));
}

#[test]
fn a_grid_is_filled_up_with_blank_rows() {
    let line = paint_line(&vec![glyph(0, "a", 1)], &vec![INK], 2);
    let grid = lay_out_grid(&vec![line], 2, 2);
    assert_eq!(grid.len(), 4);
    assert_eq!(grid[0].c, 'a');
    assert_eq!(grid[1..], [CellState::default(); 3]);
}

#[test]
fn cursor_shapes_lose_their_blinking() {
    let at = |y: i64, shape, visible| convert_cursor(RawCursor { x: 65_537, y, shape, visible });
    assert_eq!(
        at(3, RawCursorShape::SteadyBar, true),
        CursorState { row: 3, col: 1, shape: CursorShape::Bar, visible: true }
    );
    assert_eq!(at(-2, RawCursorShape::BlinkingUnderline, true).shape, CursorShape::Underline);
    assert_eq!(at(-2, RawCursorShape::Plain, true).row, 0);
    assert_eq!(at(0, RawCursorShape::SteadyBlock, true).shape, CursorShape::Block);
    assert_eq!(at(0, RawCursorShape::BlinkingBar, false).shape, CursorShape::Hidden);
}

#[test]
fn cursor_shape_requests_reach_the_clients() {
    let mut ts = test_backend(2, 10);
    ts.feed(b"\x1b[6 q");
    assert_eq!(ts.cursor().shape, CursorShape::Bar);
    ts.feed(b"\x1b[3 q");
    assert_eq!(ts.cursor().shape, CursorShape::Underline);
    ts.feed(b"\x1b[2 q");
    assert_eq!(ts.cursor().shape, CursorShape::Block);
}

#[test]
fn a_mock_shows_what_it_is_told() {
    let mut mock = MockBackend::new(2, 3);
    assert_eq!(mock.cells.len(), 6);
    mock.feed(b"ab");
    mock.feed(b"c");
    assert_eq!(mock.fed_bytes, b"abc");
    mock.cells[1].c = 'x';
    mock.mode_flags = TermModes(TermModes::BRACKETED_PASTE);
    let mut out = vec![CellState::default(); 4];
    let (_, modes) = mock.fill_cells_and_cursor(&mut out);
    assert_eq!(out[1].c, 'x');
    assert_eq!(out.len(), 4);
    assert!(modes.bracketed_paste());
    mock.resize(BackendSize { rows: 1, cols: 2, pixel_width: 0, pixel_height: 0 });
    assert_eq!(mock.cells.len(), 2);
    assert_eq!(mock.cells[1].c, 'x');
    mock.resize(BackendSize { rows: 2, cols: 2, pixel_width: 0, pixel_height: 0 });
    assert_eq!(mock.cells.len(), 4);
    assert_eq!(mock.size().rows, 2);
    mock.history_lines = vec![vec![CellState::default()], vec![], vec![]];
    assert_eq!(mock.read_history_lines(0, 2, 5).len(), 2);
    assert_eq!(mock.read_history_lines(2, 9, 5).len(), 1);
    assert!(mock.read_history_lines(9, 9, 5).is_empty());
}

#[test]
fn only_a_changed_title_is_passed_on() {
    let mut follower = TitleFollower::new();
    assert_eq!(follower.observe(Some("")), None);
    assert_eq!(follower.observe(Some("a")), Some("a".to_string()));
    assert_eq!(follower.observe(Some("a")), None);
    assert_eq!(follower.observe(None), None);
    assert_eq!(follower.observe(Some("b")), Some("b".to_string()));
}

fn row_text(b: &WezTermBackend, row: usize) -> String {
    let cols = b.size().cols as usize;
    text_of(&cells(b)[row * cols..(row + 1) * cols])
}

#[test]
fn a_tab_stop_is_set_where_the_cursor_stands() {
    let mut ts = test_backend(24, 80);
    ts.feed(b"\x1b[1;5H\x1bH\r\tx");
    assert_eq!(row_text(&ts, 0), "    x");
    ts.feed(b"\r\x1b[2C\x88\r\ty");
    assert_eq!(row_text(&ts, 0), "  y x");
    ts.feed(b"\r\x1b[C\xc2\x88\r\tz");
    assert_eq!(row_text(&ts, 0), " zy x");
}

#[test]
fn a_tab_stop_behind_the_last_column_is_left_out() {
    for request in [b"\x1bH".as_slice(), b"\x88", b"\xc2\x88", b"\x1b\x07H", b"\x1b((H"] {
        let mut ts = test_backend(24, 80);
        ts.feed(b"\x1b[1;999H");
        ts.feed(request);
        ts.feed(b"\r\tH");
        assert_eq!(row_text(&ts, 0), "        H");
        ts.feed(b"\x1bc\x1b[1;999H");
        for byte in request {
            ts.feed(&[*byte]);
        }
        ts.feed(b"\rH");
        assert_eq!(row_text(&ts, 0), "H");
    }
}

#[test]
fn a_character_may_hold_the_byte_of_a_tab_stop() {
    let mut ts = test_backend(2, 10);
    ts.feed("a\u{2200}".as_bytes());
    ts.feed(b"\xe2\x88");
    ts.feed(b"\x80b");
    assert_eq!(row_text(&ts, 0), "a\u{2200}\u{2200}b");
}

#[test]
fn pictures_and_checksums_are_left_out_of_the_output() {
    let mut ts = test_backend(4, 20);
    ts.feed(b"one\x1bPq#0;2;0;0;0~~~\x1b\\two");
    ts.feed(b"\x1b_Ga=T,f=24,s=1,v=1;AAAA\x1b\\three");
    ts.feed(b"\x1b[1;1;1;1;99;80*y!");
    assert_eq!(row_text(&ts, 0), "onetwothree!");
}

#[test]
fn the_emulator_wraps_at_the_columns_it_was_resized_to() {
    let mut ts = test_backend(4, 10);
    ts.resize(BackendSize { rows: 3, cols: 4, pixel_width: 640, pixel_height: 480 });
    assert_eq!(ts.size(), BackendSize { rows: 3, cols: 4, pixel_width: 0, pixel_height: 0 });
    ts.feed(b"abcdef");
    assert_eq!(row_text(&ts, 0), "abcd");
    assert_eq!(row_text(&ts, 1), "ef");
}

#[test]
fn an_emulator_of_another_size_is_brought_to_the_size_of_the_backend() {
    let size = TerminalSize { rows: 24, cols: 80, pixel_width: 0, pixel_height: 0, dpi: 0 };
    let sink = Box::new(std::io::sink());
    let term = Terminal::new(size, Arc::new(PlainConfig), "kmux", "0", sink);
    let mut ts = WezTermBackend::new(term, 2, 3);
    ts.feed(b"abcd");
    assert_eq!(row_text(&ts, 0), "abc");
    assert_eq!(row_text(&ts, 1), "d");
}

#[test]
fn an_emulator_without_columns_still_takes_tabs() {
    let mut ts = test_backend(0, 0);
    ts.feed(b"\t\x1bH\x1b[Sx");
    assert!(cells(&ts).is_empty());
    ts.resize(BackendSize { rows: 2, cols: 5, pixel_width: 0, pixel_height: 0 });
    ts.feed(b"\r\x1b[2Jok");
    ts.resize(BackendSize { rows: 0, cols: 0, pixel_width: 0, pixel_height: 0 });
    ts.feed(b"\t\x1bH\x1b[T\n");
    assert_eq!(ts.size(), BackendSize { rows: 0, cols: 0, pixel_width: 0, pixel_height: 0 });
}
