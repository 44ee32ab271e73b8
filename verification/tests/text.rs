use kmuxd::ansi_emit::{emit_cells_line, snapshot_to_ansi};
use kmuxd::app::spawn::{first_spawn_step, next_spawn_step, PtyConfig, SpawnStep};
use kmuxd::client_session::next_batch;
use kmuxd::config::{search_paths, SessionIsolationMode};
use kmuxd::events::{pty_event_to_msg, ExitStatus, PtyEvent, SessionEventMsg};
use kmuxd::list::{arrange, sorted_order};
use kmuxd::messages::{ServerMessage, Spawn};
use kmuxd::pane::PaneRelay;
use kmuxd::protocol::{ClientCapabilities, TermSize};
use kmuxd::terminal::{
    CellAttrs, CellColor, CellState, CursorState, GridSnapshot, TermModes,
};
use kmuxd::text::{decimal, format_pane_id, parse_pane_id, text_before};

fn cell(c: char) -> CellState {
    CellState { c, ..CellState::default() }
}

fn line(cells: &[CellState]) -> String {
    let mut out = Vec::new();
    emit_cells_line(&mut out, cells);
    String::from_utf8(out).unwrap()
}

#[test]
fn trailing_blanks_are_not_emitted() {
    assert_eq!(line(&[]), "\x1b[0m\r\n");
    assert_eq!(line(&[cell(' '), cell(' ')]), "\x1b[0m\r\n");
    assert_eq!(line(&[cell('a'), cell(' ')]), "\x1b[0ma\x1b[0m\r\n");
}

#[test]
fn a_style_is_emitted_where_it_begins() {
    let mut bold = cell('b');
    bold.attrs = CellAttrs(CellAttrs::BOLD | CellAttrs::UNDERLINE | CellAttrs::DEFAULT_BG);
    bold.fg = CellColor::new(255, 128, 0);
    assert_eq!(
        line(&[cell('a'), cell('a'), bold, bold, cell('\u{4e2d}')]),
        "\x1b[0maa\x1b[0;1;4;38;2;255;128;0mbb\x1b[0m\u{4e2d}\x1b[0m\r\n"
    );
    let mut dim = cell('d');
    dim.attrs = CellAttrs(CellAttrs::DIM | CellAttrs::ITALIC | CellAttrs::DEFAULT_FG);
    dim.bg = CellColor::new(0, 9, 10);
    assert_eq!(line(&[dim]), "\x1b[0;2;3;48;2;0;9;10md\x1b[0m\r\n");
}

#[test]
fn a_screen_follows_its_history() {
    let snapshot = GridSnapshot {
        rows: 3,
        cols: 2,
        cells: vec![cell('a'), cell('b'), cell('c'), cell(' '), cell('x')],
        cursor: CursorState::default(),
        modes: TermModes(0),
        history_total: 1,
    };
    let history = vec![vec![cell('h')]];
    let bytes = snapshot_to_ansi(&snapshot, &history, true);
    assert_eq!(
        String::from_utf8(bytes).unwrap(),
        "\x1b[0m\x1b[0mh\x1b[0m\r\n\x1b[0mab\x1b[0m\r\n\x1b[0mc\x1b[0m\r\n\
         \x1b[2m[kmux: session restored]\x1b[0m\r\n"
    );
    assert_eq!(
        String::from_utf8(snapshot_to_ansi(&snapshot, &vec![], false)).unwrap(),
        "\x1b[0m\x1b[0mab\x1b[0m\r\n\x1b[0mc\x1b[0m\r\n"
    );
}

#[test]
fn pane_ids_are_a_word_and_an_index() {
    assert_eq!(format_pane_id("eagle", 12), "eagle/12");
    assert_eq!(parse_pane_id("eagle/12"), Some(("eagle", 12)));
    assert_eq!(parse_pane_id("a/b/3"), Some(("a/b", 3)));
    assert_eq!(parse_pane_id("eagle"), None);
    assert_eq!(parse_pane_id("eagle/"), None);
    assert_eq!(parse_pane_id("eagle/x"), None);
    assert_eq!(parse_pane_id("eagle/4294967295"), Some(("eagle", u32::MAX)));
    assert_eq!(parse_pane_id("eagle/4294967296"), None);
}

#[test]
fn numbers_are_written_in_decimal() {
    assert_eq!(decimal(0), "0");
    assert_eq!(decimal(10), "10");
    assert_eq!(decimal(u64::MAX), "18446744073709551615");
}

#[test]
fn texts_are_compared_character_by_character() {
    assert!(text_before("a", "b"));
    assert!(text_before("a", "ab"));
    assert!(!text_before("b", "ab"));
    assert!(!text_before("a", "a"));
}

#[test]
fn equal_keys_keep_their_order() {
    let order = sorted_order(&vec![5, 1, 5, 0]);
    assert_eq!(order, [3, 1, 0, 2]);
    assert_eq!(arrange(vec!["a", "b", "c", "d"], &order), ["d", "b", "a", "c"]);
}

#[test]
fn an_exit_is_reported_with_its_code_or_its_signal() {
    let exited = |status| pty_event_to_msg(PtyEvent::Exited { name: "eagle/0".to_string(), status });
    assert!(matches!(
        exited(ExitStatus::Code(3)),
        SessionEventMsg::PaneExited { code: Some(3), signal: None, .. }
    ));
    assert!(matches!(
        exited(ExitStatus::Signal(9)),
        SessionEventMsg::PaneExited { code: None, signal: Some(9), .. }
    ));
}

#[test]
fn configuration_is_looked_for_near_the_user_first() {
    let system = "/etc/kmuxd/kmuxd.toml";
    assert_eq!(search_paths(Some("/x"), Some("/h")), ["/x/kmuxd/kmuxd.toml", system]);
    assert_eq!(search_paths(Some("/x/"), None), ["/x/kmuxd/kmuxd.toml", system]);
    assert_eq!(search_paths(None, Some("/h")), ["/h/.config/kmuxd/kmuxd.toml", system]);
    assert_eq!(search_paths(Some(""), None), ["kmuxd/kmuxd.toml", system]);
    assert_eq!(search_paths(None, None), [system]);
}

#[test]
fn a_worker_that_fails_leaves_the_pane_to_the_daemon() {
    let process = SessionIsolationMode::Process;
    assert_eq!(first_spawn_step(false), SpawnStep::DetectShell);
    assert_eq!(first_spawn_step(true), SpawnStep::Start);
    let step = next_spawn_step(SpawnStep::Start, true, process);
    assert_eq!(step, SpawnStep::StartWorker);
    assert_eq!(next_spawn_step(step, true, process), SpawnStep::Done { isolated: true });
    let step = next_spawn_step(step, false, process);
    assert_eq!(step, SpawnStep::OpenTerminal);
    assert_eq!(next_spawn_step(step, true, process), SpawnStep::Done { isolated: false });
    assert_eq!(next_spawn_step(step, false, process), SpawnStep::Failed);
    assert_eq!(
        next_spawn_step(SpawnStep::Start, true, SessionIsolationMode::InProcess),
        SpawnStep::OpenTerminal
    );
}

#[test]
fn a_pane_runs_the_program_asked_for_or_the_shell() {
    let caps = ClientCapabilities { kitty_graphics: true, kitty_keyboard: false, truecolor: true };
    let mut spawn = Spawn {
        program: None,
        args: vec!["-l".to_string()],
        size: TermSize { rows: 30, cols: 90, pixel_width: 0, pixel_height: 0 },
    };
    let config = PtyConfig::new(&spawn, "/bin/zsh".to_string(), Some("/tmp".to_string()), &caps);
    assert_eq!(config.program, "/bin/zsh");
    assert_eq!(config.args, ["-l"]);
    assert_eq!((config.rows, config.cols), (30, 90));
    assert_eq!(config.cwd.as_deref(), Some("/tmp"));
    assert_eq!(config.env[0].name, "TERM");
    let pane = PaneRelay::spawned("eagle", 2, config, &spawn, &caps, true);
    assert_eq!(pane.program, "/bin/zsh");
    assert!(pane.isolated && pane.kitty_graphics_enabled && !pane.kitty_keyboard_enabled);
    spawn.program = Some("top".to_string());
    assert_eq!(PtyConfig::new(&spawn, "/bin/zsh".to_string(), None, &caps).program, "top");
}

#[test]
fn messages_are_written_in_batches() {
    let mut queue: Vec<ServerMessage> = (0..300).map(|seq| ServerMessage::Pong { seq }).collect();
    let first = next_batch(&mut queue);
    assert_eq!(first.len(), 256);
    assert!(matches!(first[255], ServerMessage::Pong { seq: 255 }));
    let second = next_batch(&mut queue);
    assert_eq!(second.len(), 44);
    assert!(matches!(second[0], ServerMessage::Pong { seq: 256 }));
    assert!(queue.is_empty() && next_batch(&mut queue).is_empty());
}
