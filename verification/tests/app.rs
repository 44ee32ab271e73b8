use kmuxd::app::attach::AttachParams;
use kmuxd::app::clients::{Clock, KickOutcome};
use kmuxd::app::io::checked_signal;
use kmuxd::app::persistence::PaneCapture;
use kmuxd::app::recover::{ChildStatus, Recovery};
use kmuxd::app::restore::{
    first_restore_step, next_restore_step, seed_backend, seed_bytes, PaneOutcome, RestoreStep,
    SeedMode,
};
use kmuxd::app::{ServerApp, INPUT_QUEUE_CAPACITY, MAX_SESSIONS};
use kmuxd::backend::mock::MockBackend;
use kmuxd::backend::{
    osc52_selection, term_size_to_window, BackendEventSink, PaneEventSink,
};
use kmuxd::config::TransportKind;
use kmuxd::connection::{ClientIdentity, ConnectionMetrics};
use kmuxd::events::SessionEventMsg;
use kmuxd::layout::{LayoutNode, SplitDir};
use kmuxd::pane::{
    compute_replay, paste_bytes, AttachResult, BufferedDiff, ClientSender, InputLockOutcome,
    PaneInput, PaneRelay, MAX_RESUME_DELTA_BYTES, MAX_RESUME_DELTA_DIFFS,
};
use kmuxd::persist::{
    PersistedClosedSession, PersistedGraveyard, PersistedPane, PersistedSession, PersistedTab,
    PersistedTermSize,
};
use kmuxd::protocol::{
    classify_error, ClientCapabilities, ClientId, ConnectionId, Errno, ErrorCode, KmuxError,
    PaneProgressState, SequenceNo, SessionMeta, SessionStatus, TermSize,
};
use kmuxd::session::PaneCloseOutcome;
use kmuxd::terminal::CellState;

const NOW: Clock = Clock { epoch_ms: 1_000_000, monotonic_ms: 500_000 };

fn size(rows: u16, cols: u16) -> TermSize {
    TermSize { rows, cols, pixel_width: 0, pixel_height: 0 }
}

fn identity() -> ClientIdentity {
    ClientIdentity {
        machine_id: "m".to_string(),
        hostname: "host".to_string(),
        username: "user".to_string(),
        client_kind: "cli".to_string(),
        client_git_sha: "abc".to_string(),
        client_git_dirty: true,
        client_build_profile: "debug".to_string(),
    }
}

fn register(
    app: &mut ServerApp,
    transport: TransportKind,
    metrics: ConnectionMetrics,
    incoming: Option<ConnectionId>,
) -> (ClientId, ConnectionId, ConnectionMetrics, Option<TransportKind>) {
    let r = app.register_client(transport, metrics, incoming, identity(), "label".to_string());
    (r.client_id, r.connection_id, r.metrics, r.previous_transport)
}

fn relay_at(word: &str, index: u32, rows: u16, cols: u16) -> PaneRelay {
    PaneRelay::new(
        word,
        index,
        "/bin/sh".to_string(),
        vec![],
        size(rows, cols),
        &ClientCapabilities::default(),
    )
}

fn make_relay(rows: u16, cols: u16) -> PaneRelay {
    relay_at("eagle", 0, rows, cols)
}

fn make_client(rows: u16, cols: u16) -> ClientSender {
    ClientSender {
        client_id: ClientId(rows as u64 * 1000 + cols as u64),
        force_full_snapshot: false,
        paused: false,
        pause_auto: false,
        no_auto_pause: false,
        capabilities: ClientCapabilities::default(),
        size: size(rows, cols),
    }
}

/// A server with one session of one tab with one pane.
fn app_with(word: &str) -> ServerApp {
    let mut app = ServerApp::new("tok".to_string());
    add_session(&mut app, word);
    app
}

fn add_session(app: &mut ServerApp, word: &str) {
    let meta = app
        .begin_session(None, Some(word.to_string()), "/tmp".to_string(), Some("tmp".to_string()))
        .unwrap();
    app.create_session(meta, Ok(relay_at(word, 0, 24, 80)), 7).unwrap();
}

fn split(app: &mut ServerApp, word: &str, tab: u32, from: u32) -> u32 {
    let index = app.begin_split(word, tab, from).unwrap();
    let pane = relay_at(word, index, 24, 80);
    app.split_pane(word, tab, from, SplitDir::Horizontal, Ok(pane)).unwrap();
    index
}

fn attach(app: &mut ServerApp, pane_id: &str, client: u64, last_seqno: Option<u64>) {
    app.attach(AttachParams {
        pane_id: pane_id.to_string(),
        client_id: ClientId(client),
        last_seqno: last_seqno.map(SequenceNo),
        size: size(24, 80),
        capabilities: ClientCapabilities::default(),
    })
    .unwrap();
}

fn pane<'a>(app: &'a ServerApp, pane_id: &str) -> &'a PaneRelay {
    app.get_pane_relay(pane_id).unwrap()
}

#[test]
fn conn_count_watch_tracks_register_and_unregister() {
    let mut app = ServerApp::new("tok".to_string());
    assert_eq!(app.connection_count(), 0);
    let (_, c1, _, _) = register(&mut app, TransportKind::Uds, ConnectionMetrics::new(0), None);
    assert_eq!(app.connection_count(), 1);
    let (_, c2, _, _) = register(&mut app, TransportKind::Tcp, ConnectionMetrics::new(0), None);
    assert_eq!(app.connection_count(), 2);
    app.unregister_client(c1);
    assert_eq!(app.connection_count(), 1);
    app.unregister_client(c2);
    assert_eq!(app.connection_count(), 0);
}

#[test]
fn pane_event_sink_broadcasts_osc52_copy() {
    let mut sink = PaneEventSink::new("eagle/0".to_string());
    sink.on_osc52_copy("c", "aGVsbG8=");
    let events = sink.take_events();
    match &events[..] {
        [SessionEventMsg::PaneClipboardCopy { pane_id, selection, data }] => {
            assert_eq!(pane_id, "eagle/0");
            assert_eq!(selection, "c");
            assert_eq!(data, "aGVsbG8=");
        }
        other => panic!("expected PaneClipboardCopy, got {other:?}"),
    }
    assert!(sink.take_events().is_empty());
}

#[test]
fn a_repeated_title_or_progress_is_reported_once() {
    let mut sink = PaneEventSink::new("eagle/0".to_string());
    sink.on_title("vim");
    sink.on_title("vim");
    sink.on_progress(PaneProgressState::Normal, Some(40));
    sink.on_progress(PaneProgressState::Normal, Some(40));
    sink.on_progress(PaneProgressState::Normal, Some(41));
    assert_eq!(sink.take_events().len(), 3);
}

#[test]
fn register_client_assigns_fresh_ids_and_stores_metrics() {
    let mut app = ServerApp::new("tok".to_string());
    let mut metrics = ConnectionMetrics::new(0);
    metrics.bytes_in = 42;
    let (client_id, conn_id, returned, previous) =
        register(&mut app, TransportKind::Uds, metrics, None);
    assert_eq!(client_id.0, 1);
    assert_eq!(conn_id.0, 1);
    assert!(previous.is_none());
    let mut counted = returned;
    counted.bytes_in += 8;
    app.publish_metrics(conn_id, counted);
    let snap = app.snapshot_sessions_with_connections(NOW);
    assert_eq!(snap.unattached[0].bytes_in, 50);
}

#[test]
fn channel_switch_reuses_existing_metrics_and_reports_previous_transport() {
    let mut app = ServerApp::new("tok".to_string());
    let mut original = ConnectionMetrics::new(0);
    original.bytes_in = 100;
    let (_, conn_id, _, first_previous) = register(&mut app, TransportKind::Tcp, original, None);
    assert!(first_previous.is_none());

    let (_, same_conn_id, reused, swap_previous) =
        register(&mut app, TransportKind::Quic, ConnectionMetrics::new(0), Some(conn_id));
    assert_eq!(same_conn_id, conn_id);
    assert_eq!(reused.bytes_in, 100);
    assert_eq!(swap_previous, Some(TransportKind::Tcp));

    let snap = app.snapshot_sessions_with_connections(NOW);
    assert_eq!(snap.unattached.len(), 1);
    assert_eq!(snap.unattached[0].transport, "QUIC");
}

#[test]
fn unregister_removes_connection() {
    let mut app = ServerApp::new("tok".to_string());
    let (_, conn_id, _, _) = register(&mut app, TransportKind::Uds, ConnectionMetrics::new(0), None);
    app.unregister_client(conn_id);
    assert!(app.snapshot_sessions_with_connections(NOW).unattached.is_empty());
}

#[test]
fn snapshot_reports_correct_transport_label() {
    let mut app = ServerApp::new("tok".to_string());
    register(&mut app, TransportKind::Uds, ConnectionMetrics::new(0), None);
    let snap = app.snapshot_sessions_with_connections(NOW);
    assert_eq!(snap.unattached.len(), 1);
    assert_eq!(snap.unattached[0].transport, "UDS");
}

#[test]
fn connections_are_summed_up_in_the_order_of_their_ids() {
    let mut app = ServerApp::new("tok".to_string());
    register(&mut app, TransportKind::Uds, ConnectionMetrics::new(498_000), None);
    register(&mut app, TransportKind::TcpTls, ConnectionMetrics::new(0), None);
    let all = app.snapshot_connections(NOW);
    assert_eq!(all.len(), 2);
    assert_eq!(all[0].connection_id, 1);
    assert_eq!(all[0].uptime_secs, 2);
    assert_eq!(all[0].build, "abc-dirty");
    assert_eq!(all[0].frontend, "cli");
    assert_eq!(all[1].transport, "TCP+TLS");
    assert_eq!(all[1].uptime_secs, 500);
}

#[test]
fn effective_size_min_wins() {
    let mut relay = make_relay(24, 80);
    relay.clients.push(make_client(24, 80));
    relay.clients.push(make_client(40, 120));
    let eff = relay.effective_size().unwrap();
    assert_eq!(eff.rows, 24, "min rows should win");
    assert_eq!(eff.cols, 80, "min cols should win");
}

#[test]
fn effective_size_takes_each_dimension_by_itself() {
    let mut relay = make_relay(24, 80);
    relay.clients.push(make_client(20, 200));
    relay.clients.push(make_client(40, 100));
    assert_eq!(relay.effective_size(), Some(size(20, 100)));
}

#[test]
fn effective_size_no_clients_returns_none() {
    let relay = make_relay(24, 80);
    assert!(relay.effective_size().is_none());
}

#[test]
fn apply_effective_size_returns_none_when_unchanged() {
    let mut relay = make_relay(24, 80);
    relay.clients.push(make_client(24, 80));
    assert!(relay.apply_effective_size().is_none());
}

#[test]
fn apply_effective_size_resizes_emulator_when_changed() {
    let mut relay = make_relay(24, 80);
    relay.clients.push(make_client(40, 120));
    let new_size = relay.apply_effective_size().expect("should resize");
    assert_eq!(new_size.rows, 40);
    assert_eq!(new_size.cols, 120);
    assert_eq!(relay.size.rows, 40);
    assert_eq!(relay.size.cols, 120);
}

#[test]
fn detach_keeps_last_effective_size() {
    let mut relay = make_relay(80, 200);
    relay.clients.push(make_client(24, 80));
    relay.clients.push(make_client(40, 120));
    relay.apply_effective_size();
    assert_eq!(relay.size.rows, 24);

    relay.clients.clear();
    assert!(relay.apply_effective_size().is_none());
    assert_eq!(relay.size.rows, 24);
    assert_eq!(relay.size.cols, 80);
}

#[test]
fn broadcast_resize_emits_snapshot_before_diff() {
    let mut relay = make_relay(24, 80);
    let client = make_client(40, 120);
    relay.clients.push(client);
    let new_size = relay.apply_effective_size().expect("size must change");
    let notice = relay.broadcast_resize("pane-1", new_size, SequenceNo(42));
    assert_eq!(notice.pane_id, "pane-1");
    assert_eq!(notice.size.rows, new_size.rows);
    assert_eq!(notice.size.cols, new_size.cols);
    assert_eq!(notice.seqno, SequenceNo(42), "the follow-up diff is 43");
    assert_eq!(notice.clients, vec![client.client_id]);
}

#[test]
fn paused_client_still_counts_toward_effective_size() {
    let mut relay = make_relay(80, 200);
    let mut paused = make_client(24, 80);
    paused.paused = true;
    relay.clients.push(paused);
    relay.clients.push(make_client(40, 120));
    let eff = relay.effective_size().unwrap();
    assert_eq!(eff.rows, 24, "paused client's smaller rows still win");
    assert_eq!(eff.cols, 80, "paused client's smaller cols still win");
}

#[test]
fn broadcast_resize_skips_paused_client() {
    let mut relay = make_relay(24, 80);
    let mut paused = make_client(40, 120);
    paused.paused = true;
    relay.clients.push(paused);
    let new_size = relay.apply_effective_size().expect("size must change");
    let notice = relay.broadcast_resize("pane-1", new_size, SequenceNo(42));
    assert!(notice.clients.is_empty());
}

fn push_seqnos(relay: &mut PaneRelay, range: std::ops::RangeInclusive<u64>) {
    for n in range {
        relay.scrollback.push(BufferedDiff { seqno: n, bytes: 16 });
    }
}

#[test]
fn compute_replay_fresh_attach_returns_full_snapshot() {
    let relay = make_relay(24, 80);
    assert!(matches!(compute_replay(&relay, None), AttachResult::FullSnapshot(..)));
}

#[test]
fn compute_replay_delta_under_threshold_returns_delta() {
    let mut relay = make_relay(24, 80);
    push_seqnos(&mut relay, 1..=5);
    match compute_replay(&relay, Some(SequenceNo(1))) {
        AttachResult::Delta(diffs) => {
            let seqs: Vec<u64> = diffs.iter().map(|s| s.0).collect();
            assert_eq!(seqs, vec![2, 3, 4, 5], "replays only diffs after last_seqno");
        }
        other => panic!("expected Delta, got a different variant: {other:?}"),
    }
}

#[test]
fn compute_replay_delta_over_threshold_coalesces_to_syncreset() {
    let mut relay = make_relay(24, 80);
    push_seqnos(&mut relay, 1..=(MAX_RESUME_DELTA_DIFFS as u64 + 50));
    assert!(matches!(
        compute_replay(&relay, Some(SequenceNo(1))),
        AttachResult::SyncReset(..)
    ));
}

#[test]
fn a_replay_of_too_many_bytes_or_from_too_early_resets() {
    let mut relay = make_relay(24, 80);
    push_seqnos(&mut relay, 5..=6);
    assert!(matches!(compute_replay(&relay, Some(SequenceNo(4))), AttachResult::SyncReset(..)));
    assert!(matches!(compute_replay(&relay, Some(SequenceNo(9))), AttachResult::Delta(d) if d.is_empty()));
    relay.scrollback.push(BufferedDiff { seqno: 7, bytes: MAX_RESUME_DELTA_BYTES + 1 });
    assert!(matches!(compute_replay(&relay, Some(SequenceNo(6))), AttachResult::SyncReset(..)));
    assert!(matches!(compute_replay(&relay, Some(SequenceNo(7))), AttachResult::Delta(..)));
}

#[test]
fn set_paused_marks_client_across_panes() {
    let mut app = app_with("eagle");
    attach(&mut app, "eagle/0", 1, None);
    app.set_paused(ClientId(1), true, false);
    assert!(pane(&app, "eagle/0").clients[0].paused);
    app.set_paused(ClientId(1), false, false);
    assert!(!pane(&app, "eagle/0").clients[0].paused);
}

#[test]
fn reattach_preserves_snapshot_mode_and_clears_pause() {
    let mut app = app_with("eagle");
    attach(&mut app, "eagle/0", 1, None);
    app.set_snapshot_mode(ClientId(1), true);
    app.set_paused(ClientId(1), true, false);

    attach(&mut app, "eagle/0", 1, Some(1));
    let sender = pane(&app, "eagle/0").clients[0];
    assert!(sender.force_full_snapshot, "snapshot mode must survive a re-attach");
    assert!(!sender.paused, "a re-attach (resume) clears the pause flag");
}

#[test]
fn an_automatic_pause_spares_an_exempt_pane() {
    let mut app = app_with("eagle");
    attach(&mut app, "eagle/0", 1, None);
    app.set_pane_no_auto_pause(ClientId(1), "eagle/0", true);
    app.set_paused(ClientId(1), true, true);
    assert!(!pane(&app, "eagle/0").clients[0].output_paused());
    app.set_paused(ClientId(1), true, false);
    assert!(pane(&app, "eagle/0").clients[0].output_paused());
}

#[test]
fn detaching_everywhere_fits_the_panes_to_the_clients_that_stay() {
    let mut app = app_with("eagle");
    let second = split(&mut app, "eagle", 0, 0);
    assert_eq!(second, 1);
    for id in ["eagle/0", "eagle/1"] {
        attach(&mut app, id, 1, None);
        attach(&mut app, id, 2, None);
        app.resize(id, ClientId(1), size(10, 40)).unwrap();
    }
    assert_eq!(pane(&app, "eagle/1").size, size(10, 40));
    let notices = app.detach_client_all(ClientId(1));
    assert_eq!(notices.len(), 2);
    assert_eq!(notices[1].pane_id, "eagle/1");
    assert_eq!(notices[1].size, size(24, 80));
    assert_eq!(pane(&app, "eagle/0").size, size(24, 80));
    assert!(app.detach_from_pane("eagle/0", ClientId(1)).is_none());
}

// ─── Input ───────────────────────────────────────────────────────────────────

#[test]
fn an_empty_key_batch_to_an_unknown_pane_is_still_a_missing_pane() {
    let mut app = ServerApp::new("tok".to_string());
    let err = app
        .write_key_batch("nosuch/0", ClientId(1), vec![], 0)
        .expect_err("the pane does not exist");
    assert!(
        matches!(&err, KmuxError::PaneNotFound { id } if id == "nosuch/0"),
        "expected PaneNotFound, got {err:?}"
    );
}

#[test]
fn an_empty_key_batch_respects_another_clients_input_lock() {
    let mut app = app_with("eagle");
    let holder = ClientId(1);
    let other = ClientId(2);
    assert!(matches!(
        app.request_input_lock("eagle/0", holder),
        Ok(InputLockOutcome::Granted)
    ));
    let err = app
        .write_key_batch("eagle/0", other, vec![], 0)
        .expect_err("another client holds the lock");
    assert!(matches!(&err, KmuxError::Pty(Errno::EPERM)), "expected EPERM, got {err:?}");
    app.write_key_batch("eagle/0", holder, vec![], 0).expect("the lock holder may write nothing");
    assert!(pane(&app, "eagle/0").input.is_empty());
}

#[test]
fn an_empty_key_batch_to_an_open_pane_writes_nothing_and_succeeds() {
    let mut app = app_with("eagle");
    app.write_key_batch("eagle/0", ClientId(1), vec![], 0)
        .expect("an open pane accepts an empty batch");
    assert!(pane(&app, "eagle/0").input.is_empty());
}

#[test]
fn a_full_input_queue_refuses_input_and_blocks_no_other_session_op() {
    let mut app = app_with("eagle");
    let client = ClientId(1);
    for i in 0..INPUT_QUEUE_CAPACITY {
        app.write_input("eagle/0", client, vec![b'x'; 4096], 0)
            .unwrap_or_else(|e| panic!("input {i} must fit the queue: {e:?}"));
    }
    let overflow = app.write_input("eagle/0", client, b"one more".to_vec(), 0);
    assert!(
        matches!(&overflow, Err(KmuxError::InputQueueFull { pane_id: p }) if p == "eagle/0"),
        "expected InputQueueFull, got {overflow:?}"
    );
    app.resize("eagle/0", client, size(30, 100)).expect("resize");
}

#[test]
fn input_comes_out_in_the_order_it_went_in() {
    let mut app = app_with("eagle");
    app.write_input("eagle/0", ClientId(1), b"ls".to_vec(), 9).unwrap();
    app.write_paste("eagle/0", ClientId(1), b"a\nb".to_vec(), 11).unwrap();
    assert_eq!(app.sessions[0].last_active_ms, 11);
    let (s, p) = app.pane_position("eagle/0").unwrap();
    let pane = app.pane_slot(s, p);
    assert!(matches!(pane.next_input(), Some(PaneInput::Bytes(b)) if b == b"ls"));
    assert!(matches!(pane.next_input(), Some(PaneInput::Paste(b)) if b == b"a\nb"));
    assert!(pane.next_input().is_none());
}

#[test]
fn a_paste_stands_between_markers_where_the_program_asked_for_them() {
    assert_eq!(paste_bytes(&b"hi".to_vec(), false), b"hi");
    assert_eq!(paste_bytes(&b"hi".to_vec(), true), b"\x1b[200~hi\x1b[201~");
}

#[test]
fn the_input_lock_goes_to_one_client_at_a_time() {
    let mut app = app_with("eagle");
    let id = "eagle/0";
    assert_eq!(app.request_input_lock(id, ClientId(1)).unwrap(), InputLockOutcome::Granted);
    assert_eq!(
        app.request_input_lock(id, ClientId(2)).unwrap(),
        InputLockOutcome::Denied(ClientId(1))
    );
    assert!(!app.release_input_lock(id, ClientId(2)).unwrap());
    assert!(app.release_input_lock(id, ClientId(1)).unwrap());
    assert_eq!(app.request_input_lock(id, ClientId(2)).unwrap(), InputLockOutcome::Granted);
}

#[test]
fn only_signals_that_exist_are_sent() {
    let app = app_with("eagle");
    assert_eq!(app.send_signal("eagle/0", Ok(()), 15).unwrap(), 15);
    assert!(matches!(
        app.send_signal("eagle/0", Ok(()), 4711),
        Err(KmuxError::Pty(Errno::EINVAL))
    ));
    assert_eq!(checked_signal(Some(9)).unwrap(), 9);
    assert!(checked_signal(None).is_err());
}

// ─── Sessions and tabs ───────────────────────────────────────────────────────

#[test]
fn a_session_is_named_after_its_directory_or_its_word() {
    let mut app = ServerApp::new("tok".to_string());
    let named = |app: &mut ServerApp, name: Option<&str>, base: Option<&str>| {
        app.begin_session(
            name.map(str::to_string),
            Some("eagle".to_string()),
            "/tmp".to_string(),
            base.map(str::to_string),
        )
        .unwrap()
    };
    assert_eq!(named(&mut app, Some("work"), Some("tmp")).name, "work");
    assert_eq!(named(&mut app, None, Some("tmp")).name, "tmp");
    assert_eq!(named(&mut app, None, None).name, "eagle");
    assert_eq!(named(&mut app, None, None).index, 3);
    let none = app.begin_session(None, None, "/".to_string(), None);
    assert!(matches!(
        none,
        Err(KmuxError::SessionAlreadyExists { name }) if name == "word pool exhausted"
    ));
}

#[test]
fn there_is_a_limit_to_the_sessions() {
    let mut app = ServerApp::new("tok".to_string());
    for i in 0..MAX_SESSIONS {
        add_session(&mut app, &format!("w{i}"));
    }
    let more = app.begin_session(None, Some("x".to_string()), "/".to_string(), None);
    assert!(matches!(
        more,
        Err(KmuxError::SessionAlreadyExists { name }) if name == "session limit (1000) reached"
    ));
}

#[test]
fn a_session_whose_program_fails_is_not_listed() {
    let mut app = ServerApp::new("tok".to_string());
    let meta = app
        .begin_session(None, Some("eagle".to_string()), "/tmp".to_string(), None)
        .unwrap();
    assert!(app.word_in_use("eagle"));
    let r = app.create_session(meta, Err(KmuxError::Spawn("no such file".to_string())), 0);
    assert!(r.is_err());
    assert!(app.sessions.is_empty());
}

#[test]
fn a_new_session_leaves_the_others_as_they_were() {
    let mut app = app_with("eagle");
    split(&mut app, "eagle", 0, 0);
    assert!(!app.word_in_use("falcon"));
    add_session(&mut app, "falcon");
    let words: Vec<&str> = app.sessions.iter().map(|s| s.meta.word_id.as_str()).collect();
    assert_eq!(words, ["eagle", "falcon"]);
    assert_eq!(app.sessions[0].panes.len(), 2);
    assert_eq!(app.sessions[0].next_pane_index, 2);
    assert_eq!(app.sessions[1].panes.len(), 1);
}

#[test]
fn sessions_are_listed_by_their_index() {
    let mut app = app_with("eagle");
    add_session(&mut app, "falcon");
    app.sessions.swap(0, 1);
    let words: Vec<String> = app.list_sessions().into_iter().map(|s| s.meta.word_id).collect();
    assert_eq!(words, ["eagle", "falcon"]);
    app.rename_session("falcon", "bird").unwrap();
    assert_eq!(app.list_sessions()[1].meta.name, "bird");
    assert!(app.rename_session("hawk", "x").is_err());
}

#[test]
fn closing_a_tab_of_an_unknown_session_errors_instead_of_answering_false() {
    let mut app = ServerApp::new("tok".to_string());
    let err = app.close_tab("nosuch", 0).expect_err("a word id no session uses");
    assert!(
        matches!(&err, KmuxError::SessionNotFound { name } if name == "nosuch"),
        "expected SessionNotFound naming the word id, got {err:?}"
    );
}

#[test]
fn closing_a_tab_a_live_session_does_not_have_errors_naming_the_tab() {
    let mut app = app_with("eagle");
    let err = app.close_tab("eagle", 7).expect_err("tab 7 does not exist");
    assert!(
        matches!(&err, KmuxError::SessionNotFound { name } if name == "eagle tab 7"),
        "expected the error to locate the tab, got {err:?}"
    );
    assert_eq!(app.sessions[0].tabs.len(), 1);
}

#[test]
fn closing_the_last_tab_closes_the_session() {
    let mut app = app_with("eagle");
    let session_closed = app.close_tab("eagle", 0).expect("close_tab");
    assert!(session_closed, "the session had no other tab");
    assert!(app.session_position("eagle").is_none());
}

#[test]
fn tabs_are_created_renamed_moved_and_closed() {
    let mut app = app_with("eagle");
    let (tab, index) = app.begin_tab("eagle").unwrap();
    assert_eq!((tab, index), (1, 1));
    let (info, pane) = app.create_tab("eagle", tab, Ok(relay_at("eagle", index, 24, 80))).unwrap();
    assert_eq!(info.name, "2");
    assert_eq!(pane.pane_id, "eagle/1");
    app.rename_tab("eagle", 1, "logs").unwrap();
    assert_eq!(app.reorder_tab("eagle", 1, 0).unwrap(), [1, 0]);
    assert_eq!(app.list_sessions()[0].tabs[0].name, "logs");
    assert_eq!(app.tab_pane_ids("eagle", 1).unwrap(), ["eagle/1"]);
    assert!(!app.close_tab("eagle", 1).unwrap());
    assert_eq!(app.pane_ids(), ["eagle/0"]);
    assert!(app.rename_tab("eagle", 1, "x").is_err());
}

#[test]
fn a_closed_pane_leaves_its_tab_or_takes_it_along() {
    let mut app = app_with("eagle");
    split(&mut app, "eagle", 0, 0);
    match app.close_pane("eagle/1", Ok(())).unwrap() {
        (None, PaneCloseOutcome::TabUpdated { tab_index, layout, focused_pane }) => {
            assert_eq!(tab_index, 0);
            assert!(matches!(layout, LayoutNode::Leaf { pane_index: 0 }));
            assert_eq!(focused_pane, 0);
        }
        other => panic!("expected TabUpdated, got {other:?}"),
    }
    assert!(matches!(
        app.close_pane("eagle/0", Ok(())).unwrap(),
        (None, PaneCloseOutcome::SessionClosed)
    ));
    assert!(app.sessions.is_empty());
    assert!(matches!(app.close_pane("eagle/0", Ok(())).unwrap(), (None, PaneCloseOutcome::Gone)));
    let missing = Err(KmuxError::SessionNotFound { name: "eagle/0".to_string() });
    assert!(app.close_pane("eagle/0", missing).is_err());
    assert!(app.close_pane("eagle", Ok(())).is_err());
}

#[test]
fn a_layout_is_changed_only_where_its_panes_stay() {
    let mut app = app_with("eagle");
    split(&mut app, "eagle", 0, 0);
    assert_eq!(app.tab_leaves("eagle", 0).unwrap(), [0, 1]);
    let (swapped, _) = app.swap_panes("eagle", 0, 0, 1).unwrap();
    assert_eq!(leaves(&swapped), [1, 0]);
    let (sized, _) = app.set_layout_ratios("eagle", 0, &[], &[300, 700]).unwrap();
    assert!(matches!(sized, LayoutNode::Split { ratios, .. } if ratios == [300, 700]));
    let (_, focus) = app.set_tab_focus("eagle", 0, 0).unwrap();
    assert_eq!(focus, 0);
    assert!(app.swap_panes("eagle", 3, 0, 1).is_err());
}

fn leaves(node: &LayoutNode) -> Vec<u32> {
    match node {
        LayoutNode::Leaf { pane_index } => vec![*pane_index],
        LayoutNode::Split { children, .. } => children.iter().flat_map(leaves).collect(),
    }
}

#[test]
fn a_kicked_client_leaves_the_panes_of_that_session_only() {
    let mut app = app_with("eagle");
    add_session(&mut app, "falcon");
    attach(&mut app, "eagle/0", 1, None);
    attach(&mut app, "falcon/0", 1, None);
    let (outcome, _) = app.kick_client_from_session("eagle", ClientId(1));
    assert_eq!(outcome, KickOutcome::Kicked);
    assert!(pane(&app, "eagle/0").clients.is_empty());
    assert_eq!(pane(&app, "falcon/0").clients.len(), 1);
    assert_eq!(app.kick_client_from_session("eagle", ClientId(1)).0, KickOutcome::ClientNotFound);
    assert_eq!(app.kick_client_from_session("hawk", ClientId(1)).0, KickOutcome::SessionNotFound);
}

#[test]
fn attached_connections_stand_with_their_session() {
    let mut app = app_with("eagle");
    let (client, _, _, _) = register(&mut app, TransportKind::Uds, ConnectionMetrics::new(0), None);
    let snap = app.snapshot_sessions_with_connections(NOW);
    assert_eq!(snap.unattached.len(), 1);
    attach(&mut app, "eagle/0", client.0, None);
    let snap = app.snapshot_sessions_with_connections(NOW);
    assert!(snap.unattached.is_empty());
    assert_eq!(snap.sessions[0].connections.len(), 1);
    assert_eq!(snap.sessions[0].panes_count, 1);
    let clients = app.list_session_clients("eagle", client, NOW).unwrap();
    assert_eq!(clients.len(), 1);
    assert!(clients[0].is_self);
    assert_eq!(clients[0].attached_panes, [0]);
    assert_eq!(clients[0].hostname, "host");
    assert!(app.list_session_clients("hawk", client, NOW).is_none());
}

// ─── Closed sessions ─────────────────────────────────────────────────────────

fn saved_pane(index: u32) -> PersistedPane {
    let blank = PaneCapture::empty();
    PersistedPane {
        pane_index: index,
        program: "/bin/sh".to_string(),
        args: vec![],
        size: PersistedTermSize { rows: 24, cols: 80 },
        status: SessionStatus::Running,
        child_pid: None,
        grid: blank.grid,
        scrollback_lines: vec![],
        cwd: "/tmp".to_string(),
    }
}

#[test]
fn a_restored_pane_shows_its_old_screen_first() {
    let mut saved = saved_pane(0);
    let mut cell = CellState::default();
    cell.c = 'h';
    saved.scrollback_lines = vec![vec![cell]];
    let respawned = seed_bytes(&saved, SeedMode::Respawned);
    let inherited = seed_bytes(&saved, SeedMode::Inherited);
    let separator = b"\x1b[2m[kmux: session restored]\x1b[0m\r\n";
    assert!(String::from_utf8(inherited.clone()).unwrap().contains("h\x1b[0m\r\n"));
    assert_eq!(respawned, [inherited.as_slice(), separator].concat());
    let mut mock = MockBackend::new(24, 80);
    seed_backend(&mut mock, &saved, SeedMode::Inherited);
    assert_eq!(mock.fed_bytes, inherited);
}

fn closed(word: &str, closed_at_ms: u64) -> PersistedClosedSession {
    PersistedClosedSession {
        closed_at_ms,
        session: PersistedSession {
            meta: SessionMeta {
                index: 0,
                word_id: word.to_string(),
                name: word.to_string(),
                cwd: "/tmp".to_string(),
            },
            next_pane_index: 1,
            panes: vec![saved_pane(0)],
            tabs: vec![PersistedTab {
                tab_index: 0,
                name: "1".to_string(),
                layout: LayoutNode::single(0),
                focused_pane: 0,
            }],
            next_tab_index: 1,
            active_tab: 0,
            last_active_ms: closed_at_ms,
        },
    }
}

fn words(app: &ServerApp) -> Vec<String> {
    app.closed_sessions.iter().map(|c| c.session.meta.word_id.clone()).collect()
}

#[test]
fn count_cap_evicts_oldest() {
    let mut app = ServerApp::new("tok".to_string());
    app.closed_session_keep = 2;
    app.closed_session_ttl_ms = 0;
    for w in ["eagle", "falcon", "hawk"] {
        app.reserve_word(w);
    }
    app.retain_closed_session(closed("eagle", 100), 300);
    app.retain_closed_session(closed("falcon", 200), 300);
    app.retain_closed_session(closed("hawk", 300), 300);
    assert_eq!(words(&app), vec!["falcon", "hawk"]);
    assert!(!app.word_in_use("eagle"));
    assert!(app.word_in_use("hawk"));
}

#[test]
fn ttl_prunes_stale_entries() {
    let mut app = ServerApp::new("tok".to_string());
    app.closed_session_keep = 100;
    app.closed_session_ttl_ms = 1000;
    let now = 50_000;
    app.closed_sessions.push(closed("old", now - 5_000));
    app.closed_sessions.push(closed("fresh", now));
    let removed = app.prune_graveyard(now);
    assert!(removed, "TTL prune should have removed the stale entry");
    assert_eq!(words(&app), vec!["fresh"]);
}

#[test]
fn prune_noop_when_within_caps() {
    let mut app = ServerApp::new("tok".to_string());
    app.closed_session_keep = 10;
    app.closed_session_ttl_ms = 0;
    app.closed_sessions.push(closed("eagle", 50_000));
    assert!(!app.prune_graveyard(50_000), "nothing to prune → no change");
}

#[test]
fn close_then_restore_roundtrip() {
    let mut app = app_with("eagle");
    app.close_session("eagle", vec![PaneCapture::empty()], 100).expect("close_session");
    assert!(app.session_position("eagle").is_none());
    assert_eq!(words(&app), vec!["eagle"]);

    let outcomes = vec![PaneOutcome::Restored { mode: SeedMode::Respawned, seeded: None }];
    let restored = app.restore_session("eagle", &outcomes).expect("restore_session");
    assert_eq!(restored.meta.word_id, "eagle");
    assert!(app.session_position("eagle").is_some());
    assert!(app.closed_sessions.is_empty());

    assert!(app.restore_session("nonexistent", &outcomes).is_err());
}

#[test]
fn a_session_none_of_whose_panes_comes_back_stays_closed() {
    let mut app = app_with("eagle");
    app.close_session("eagle", vec![PaneCapture::empty()], 100).unwrap();
    assert!(app.restore_session("eagle", &vec![PaneOutcome::Failed]).is_err());
    assert_eq!(words(&app), vec!["eagle"]);
    assert!(app.sessions.is_empty());
}

#[test]
fn load_drops_expired_and_reserves_words() {
    let mut app = ServerApp::new("tok".to_string());
    app.closed_session_keep = 100;
    app.closed_session_ttl_ms = 1000;
    let now = 50_000;
    let gy = PersistedGraveyard { sessions: vec![closed("stale", now - 9_999), closed("fresh", now)] };
    let changed = app.load_graveyard(gy, now);
    assert!(changed, "expired entry dropped → file needs rewrite");
    assert_eq!(words(&app), vec!["fresh"]);
    assert!(!app.reserve_word("fresh"), "surviving word should already be reserved");
}

#[test]
fn closed_sessions_are_listed_with_their_panes() {
    let mut app = ServerApp::new("tok".to_string());
    app.closed_sessions.push(closed("eagle", 100));
    let entries = app.closed_session_entries();
    assert_eq!(entries.len(), 1);
    assert_eq!(entries[0].meta.word_id, "eagle");
    assert_eq!(entries[0].closed_at_ms, 100);
    assert_eq!(entries[0].pane_count, 1);
}

// ─── Checkpoint and restart ──────────────────────────────────────────────────

#[test]
fn a_checkpoint_restores_to_the_same_sessions() {
    let mut app = app_with("eagle");
    split(&mut app, "eagle", 0, 0);
    add_session(&mut app, "falcon");
    let captures = vec![
        vec![PaneCapture::empty(), PaneCapture::empty()],
        vec![PaneCapture::empty()],
    ];
    let state = app.checkpoint_state(captures);
    assert_eq!(state.session_index_counter, 2);

    let mut fresh = ServerApp::new("tok".to_string());
    let live = PaneOutcome::Restored { mode: SeedMode::Inherited, seeded: Some(3) };
    let lost = PaneOutcome::Failed;
    let report = fresh.restore_with_handoff(state, &vec![vec![live, live], vec![lost]]);
    assert_eq!((report.restored, report.alive, report.dead), (2, 2, 0));
    assert_eq!(fresh.pane_ids(), ["eagle/0", "eagle/1"]);
    assert_eq!(leaves(&fresh.sessions[0].tabs[0].layout), [0, 1]);
    assert_eq!(fresh.session_index_counter, 2);
}

#[test]
fn a_lost_pane_leaves_its_tab() {
    let mut app = app_with("eagle");
    split(&mut app, "eagle", 0, 0);
    let state = app.checkpoint_state(vec![vec![PaneCapture::empty(), PaneCapture::empty()]]);
    let mut fresh = ServerApp::new("tok".to_string());
    let back = PaneOutcome::Restored { mode: SeedMode::Respawned, seeded: None };
    let report = fresh.restore_from(state, &vec![vec![PaneOutcome::Failed, back]]);
    assert_eq!((report.restored, report.alive, report.dead), (1, 0, 1));
    assert_eq!(leaves(&fresh.sessions[0].tabs[0].layout), [1]);
    assert_eq!(fresh.sessions[0].tabs[0].focused_pane, 1);
}

#[test]
fn a_pane_that_cannot_be_handed_over_is_spawned_anew() {
    let mut step = first_restore_step(true);
    assert_eq!(step, RestoreStep::Adopt);
    step = next_restore_step(step, false);
    assert_eq!(step, RestoreStep::Spawn);
    step = next_restore_step(step, true);
    assert_eq!(step, RestoreStep::OpenSpawned);
    assert_eq!(next_restore_step(step, true), RestoreStep::Done(SeedMode::Respawned));
    assert_eq!(next_restore_step(step, false), RestoreStep::Failed);
    assert_eq!(first_restore_step(false), RestoreStep::Spawn);
}

#[test]
fn a_worker_is_restarted_only_so_often() {
    let mut app = app_with("eagle");
    for t in [0, 10, 20] {
        assert!(app.allow_worker_restart("eagle/0", t));
    }
    assert!(!app.allow_worker_restart("eagle/0", 30));
    let stats = app.worker_restart_stats("eagle/0", 120);
    assert_eq!(stats.count, 3);
    assert_eq!(stats.last_age_ms, Some(100));
    assert!(!stats.allowed);
    assert_eq!(app.recover_faulted_worker("eagle/0", 40), Recovery::BudgetExceeded);
    assert!(app.allow_worker_restart("eagle/0", 60_015));
    assert_eq!(app.recover_faulted_worker("eagle/0", 200_000), Recovery::Nothing);
    app.sessions[0].panes[0].isolated = true;
    assert_eq!(
        app.recover_faulted_worker("eagle/0", 300_000),
        Recovery::Respawn { size: size(24, 80), kitty_graphics: false, kitty_keyboard: false }
    );
}

#[test]
fn a_forced_resync_reaches_the_clients_that_stream() {
    let mut app = app_with("eagle");
    attach(&mut app, "eagle/0", 1, None);
    attach(&mut app, "eagle/0", 2, None);
    app.set_paused(ClientId(2), true, false);
    let forced = app.force_pane_resync("eagle/0").unwrap();
    assert_eq!(forced.recipients, [ClientId(1)]);
    assert!(app.force_pane_resync("hawk/0").is_none());
}

#[test]
fn a_respawned_worker_shows_its_blank_screen_and_a_failed_one_changes_nothing() {
    let mut app = app_with("eagle");
    attach(&mut app, "eagle/0", 1, None);
    let before = app.sessions[0].panes[0].next_seqno;
    assert!(app.finish_recovery("eagle/0", false).is_none());
    assert_eq!(app.sessions[0].panes[0].next_seqno, before);
    let forced = app.finish_recovery("eagle/0", true).unwrap();
    assert_eq!(forced.seqno.0, before);
    assert_eq!(forced.recipients, [ClientId(1)]);
    assert_eq!(app.sessions[0].panes[0].next_seqno, before + 1);
    assert!(app.finish_recovery("hawk/0", true).is_none());
}

#[test]
fn a_resumed_connection_outlives_the_coming_and_going_of_others() {
    let mut app = ServerApp::new("tok".to_string());
    let mut counted = ConnectionMetrics::new(0);
    counted.bytes_in = 42;
    let (client, conn, _, _) = register(&mut app, TransportKind::Uds, counted, None);
    let (_, other, _, _) = register(&mut app, TransportKind::Tcp, ConnectionMetrics::new(1), None);
    app.unregister_client(other);
    let (again, same, metrics, previous) =
        register(&mut app, TransportKind::Quic, ConnectionMetrics::new(2), Some(conn));
    assert_eq!((again, same, metrics.bytes_in), (client, conn, 42));
    assert_eq!(previous, Some(TransportKind::Uds));
    assert_eq!(app.connection_count(), 1);
    let (fresh, id, _, none) =
        register(&mut app, TransportKind::Tcp, ConnectionMetrics::new(3), Some(other));
    assert_eq!((fresh.0, id.0, none), (3, 3, None));
}

#[test]
fn a_copy_that_is_no_text_is_not_passed_on() {
    let mut sink = PaneEventSink::new("eagle/0".to_string());
    sink.on_osc52(b'p', None);
    assert!(sink.take_events().is_empty());
    sink.on_osc52(b'p', Some("aGk="));
    match &sink.take_events()[..] {
        [SessionEventMsg::PaneClipboardCopy { selection, data, .. }] => {
            assert_eq!((selection.as_str(), data.as_str()), ("p", "aGk="));
        }
        other => panic!("expected PaneClipboardCopy, got {other:?}"),
    }
}

#[test]
fn a_handoff_names_every_pane() {
    let mut app = app_with("eagle");
    split(&mut app, "eagle", 0, 0);
    let metas = app.collect_handoff_panes(&vec![
        ChildStatus { pid: Some(7), exited: Some(false) },
        ChildStatus { pid: None, exited: None },
    ]);
    assert_eq!(metas.len(), 2);
    assert_eq!(metas[0].pane_id, "eagle/0");
    assert_eq!(metas[0].pid, 7);
    assert!(metas[0].has_live_fd);
    assert!(!metas[1].has_live_fd);
}

#[test]
fn every_error_has_its_code() {
    let cases = [
        (KmuxError::SessionNotFound { name: "a".to_string() }, ErrorCode::SessionNotFound),
        (KmuxError::SessionAlreadyExists { name: "a".to_string() }, ErrorCode::SessionAlreadyExists),
        (KmuxError::PaneNotFound { id: "a/0".to_string() }, ErrorCode::PaneNotFound),
        (KmuxError::Pty(Errno::EPERM), ErrorCode::InputLocked),
        (KmuxError::Spawn("x".to_string()), ErrorCode::InternalError),
    ];
    for (e, code) in cases {
        assert_eq!(classify_error(&e), code, "{e:?}");
    }
}

#[test]
fn a_sweep_says_whether_the_graveyard_changed() {
    let mut app = ServerApp::new("tok".to_string());
    app.closed_session_ttl_ms = 1000;
    app.closed_sessions.push(closed("old", 0));
    assert!(app.closed_session("old").is_some());
    assert!(app.sweep_graveyard(5_000));
    assert!(!app.sweep_graveyard(5_000));
    assert!(app.closed_session("old").is_none());
}

#[test]
fn a_pane_is_found_in_its_tab() {
    let mut app = app_with("eagle");
    let (tab, index) = app.begin_tab("eagle").unwrap();
    app.create_tab("eagle", tab, Ok(relay_at("eagle", index, 24, 80))).unwrap();
    assert_eq!(app.sessions[0].tab_of_pane(1), Some(1));
    assert_eq!(app.sessions[0].tab_of_pane(9), None);
    app.sessions[0].tab_mut(1).unwrap().name = "x".to_string();
    assert_eq!(app.sessions[0].tab(1).unwrap().name, "x");
    assert!(app.sessions[0].tab_mut(9).is_none());
}

#[test]
fn clipboard_targets_have_names() {
    assert_eq!(osc52_selection(b'p'), "p");
    assert_eq!(osc52_selection(b's'), "s");
    assert_eq!(osc52_selection(b'0'), "0");
    assert_eq!(osc52_selection(b'7'), "7");
    assert_eq!(osc52_selection(b'8'), "c");
    assert_eq!(osc52_selection(b'c'), "c");
}

#[test]
fn a_terminal_is_told_rows_and_columns() {
    let window = term_size_to_window(TermSize { rows: 3, cols: 4, pixel_width: 5, pixel_height: 6 });
    assert_eq!((window.rows, window.cols), (3, 4));
}
