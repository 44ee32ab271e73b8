use kmuxd::app::attach::AttachParams;
use kmuxd::app::clients::Clock;
use kmuxd::app::persistence::PaneCapture;
use kmuxd::app::restore::{PaneOutcome, SeedMode};
use kmuxd::app::ServerApp;
use kmuxd::client_session::{ending_of, is_lossy_vt_event, ClientSession, Ending, Lane};
use kmuxd::config::{CompressionConfig, CompressionMode, TransportKind};
use kmuxd::connection::ConnectionMetrics;
use kmuxd::dispatch::auth::{finish_auth_proof, Verified};
use kmuxd::dispatch::clients::{finish_remote_clients, finish_remote_kick};
use kmuxd::dispatch::diagnostics::{
    finish_fetch_logs, finish_list_directory, finish_process_overview, list_directory, on_log_tick,
    FoundDirectory, FoundEntry, LogRead,
};
use kmuxd::dispatch::input::{finish_delivery, finish_signal};
use kmuxd::dispatch::layout::finish_layout_scheme;
use kmuxd::dispatch::pane::{finish_pane_close, finish_spawn};
use kmuxd::dispatch::peer::finish_open_peer;
use kmuxd::dispatch::session::{
    finish_create_remote, finish_prepare_session, finish_session_close, finish_session_restore,
};
use kmuxd::dispatch::view::{build_attach_replay, finish_attach, finish_fetch_history};
use kmuxd::dispatch::{handle_message, Compressor, Flow, Outcome, SharedClientState, SpawnPurpose, Work};
use kmuxd::events::SessionEventMsg;
use kmuxd::layout::{LayoutNode, SplitDir};
use kmuxd::liveness::{CloseReason, Verdict, AUTH_DEADLINE_MS, PONG_DEADLINE_MS};
use kmuxd::messages::{
    AuthRequest, ClientMessage, Compression, Negotiation, PaneProcesses, PeerTarget,
    ServerMessage, Spawn,
};
use kmuxd::pane::{AttachResult, PaneRelay};
use kmuxd::protocol::{
    AttentionKind, ClientCapabilities, ClientId, ErrorCode, KeyAction, KeyEvent, KmuxError,
    SequenceNo, SessionEntry, SessionMeta, TermSize,
};

const MISSING_WORD: &str = "nosuch";
const MISSING_PANE: &str = "nosuch/0";
const NOW: Clock = Clock { epoch_ms: 1_000_000, monotonic_ms: 500_000 };

fn nonce() -> Vec<u8> {
    vec![7; 32]
}

fn spawn() -> Spawn {
    Spawn { program: None, args: vec![], size: TermSize::default() }
}

fn one_key() -> KeyEvent {
    KeyEvent {
        code: 0,
        mods: 0,
        action: KeyAction::Press,
        text: "a".to_string(),
        unshifted_codepoint: 97,
    }
}

fn negotiation(frame_zstd: bool) -> Negotiation {
    Negotiation {
        client_range: "1.0.0".to_string(),
        server_range: "1.0.0".to_string(),
        version: Some("1.0.0".to_string()),
        capabilities: if frame_zstd { vec!["frame-zstd".to_string()] } else { vec![] },
        frame_zstd,
    }
}

fn auth_request(token: &str, negotiation: Negotiation) -> ClientMessage {
    ClientMessage::Auth(AuthRequest {
        token: token.to_string(),
        negotiation,
        capabilities: ClientCapabilities::default(),
        connection_id: None,
        public_key: vec![1; 32],
        hostname: "host".to_string(),
        username: "user".to_string(),
        client_kind: "cli".to_string(),
        client_git_sha: String::new(),
        client_git_dirty: false,
        client_build_profile: String::new(),
    })
}

fn state_for(app: &ServerApp, transport: TransportKind) -> SharedClientState {
    SharedClientState::new(&app.compression, transport, ConnectionMetrics::new(0))
}

fn verified() -> Option<Verified> {
    Some(Verified { machine_id: "machine".to_string(), label: "user@host".to_string() })
}

fn authenticate(app: &mut ServerApp, state: &mut SharedClientState, frame_zstd: bool) -> Vec<ServerMessage> {
    let mut out =
        handle_message(app, state, auth_request("tok", negotiation(frame_zstd)), NOW, nonce()).replies;
    let proof = ClientMessage::AuthProof { signature: vec![9; 64] };
    let r = handle_message(app, state, proof, NOW, nonce());
    assert!(matches!(r.work, Some(Work::VerifyProof { .. })));
    out.extend(finish_auth_proof(app, state, verified()).replies);
    out
}

fn authenticated_client() -> (ServerApp, SharedClientState) {
    let mut app = ServerApp::new("tok".to_string());
    let mut state = state_for(&app, TransportKind::Uds);
    authenticate(&mut app, &mut state, false);
    assert!(state.authenticated);
    (app, state)
}

fn not_registered(name: &str) -> KmuxError {
    KmuxError::SessionNotFound { name: name.to_string() }
}

/// Do the work of a system that has no panes, no peers, a short log and an empty disk.
fn perform(app: &mut ServerApp, work: Work) -> Outcome {
    match work {
        Work::ClosePane { request_id, pane_id } => {
            let gone = not_registered(&pane_id);
            finish_pane_close(app, request_id, pane_id, Err(gone))
        }
        Work::SendSignal { pane_id, signal } => {
            let gone = not_registered(&pane_id);
            finish_signal(app, pane_id, Err(gone), signal)
        }
        Work::ListProcesses { request_id, .. } => finish_process_overview(request_id, vec![], vec![]),
        Work::ReadLog { request_id, lines, follow } => finish_fetch_logs(
            request_id,
            lines,
            follow,
            LogRead::Content { data: b"one\ntwo\n".to_vec(), start: 4 },
        ),
        Work::ReadDirectory { request_id, path } => {
            finish_list_directory(request_id, path, Err("No such file or directory".to_string()))
        }
        Work::ConnectPeer { request_id, peer, .. } => {
            finish_open_peer(app, request_id, peer, Err("peer connect failed: connection refused".to_string()))
        }
        other => panic!("unexpected work {other:?}"),
    }
}

fn dispatch(app: &mut ServerApp, state: &mut SharedClientState, msg: ClientMessage) -> (bool, Vec<ServerMessage>) {
    let r = handle_message(app, state, msg, NOW, nonce());
    let keep = r.flow.keep_reading();
    let mut replies = r.replies;
    if let Some(work) = r.work {
        replies.extend(perform(app, work).replies);
    }
    (keep, replies)
}

fn dispatch_one(msg: ClientMessage) -> (bool, Vec<ServerMessage>) {
    let (mut app, mut state) = authenticated_client();
    dispatch(&mut app, &mut state, msg)
}

fn only(mut msgs: Vec<ServerMessage>) -> ServerMessage {
    assert_eq!(msgs.len(), 1, "expected one message, got {msgs:?}");
    msgs.remove(0)
}

fn only_error(msgs: Vec<ServerMessage>) -> (Option<u64>, ErrorCode, String) {
    match only(msgs) {
        ServerMessage::Error { request_id, code, message } => (request_id, code, message),
        other => panic!("expected Error, got {other:?}"),
    }
}

fn relay(word: &str, index: u32) -> PaneRelay {
    PaneRelay::new(
        word,
        index,
        "/bin/sh".to_string(),
        vec![],
        TermSize::default(),
        &ClientCapabilities::default(),
    )
}

fn app_with_one_session() -> (ServerApp, SharedClientState) {
    let (mut app, state) = authenticated_client();
    let meta = app
        .begin_session(None, Some("eagle".to_string()), "/tmp".to_string(), Some("tmp".to_string()))
        .unwrap();
    app.create_session(meta, Ok(relay("eagle", 0)), 0).unwrap();
    (app, state)
}

// ─── Handshake ───────────────────────────────────────────────────────────────

fn always_compressing() -> ServerApp {
    ServerApp::new("tok".to_string()).with_compression(CompressionConfig {
        mode: CompressionMode::Always,
        ..CompressionConfig::default()
    })
}

#[test]
fn auth_auth_enables_compression_when_policy_says_so() {
    let mut app = always_compressing();
    let mut state = state_for(&app, TransportKind::TcpTls);
    let msgs = authenticate(&mut app, &mut state, true);
    assert!(
        matches!(state.comp_out.compressor(), Compressor::Zstd { .. }),
        "writer-side compression must be enabled"
    );
    assert_eq!(msgs.len(), 2);
    assert!(matches!(&msgs[0], ServerMessage::AuthChallenge { .. }));
    assert!(matches!(
        &msgs[1],
        ServerMessage::AuthResult(a) if a.success && a.compression == Some(Compression::Zstd)
    ));
}

#[test]
fn auth_auth_leaves_uds_uncompressed_under_auto() {
    let mut app = ServerApp::new("tok".to_string());
    let mut state = state_for(&app, TransportKind::Uds);
    let msgs = authenticate(&mut app, &mut state, true);
    assert!(
        matches!(state.comp_out.compressor(), Compressor::Off),
        "local UDS clients must stay uncompressed under auto"
    );
    assert!(matches!(&msgs[0], ServerMessage::AuthChallenge { .. }));
    assert!(matches!(
        &msgs[1],
        ServerMessage::AuthResult(a) if a.success && a.compression.is_none()
    ));
}

#[test]
fn auth_auth_does_not_use_unadvertised_compression_capability() {
    let mut app = always_compressing();
    let mut state = state_for(&app, TransportKind::TcpTls);
    let msgs = authenticate(&mut app, &mut state, false);
    assert!(matches!(state.comp_out.compressor(), Compressor::Off));
    assert!(matches!(&msgs[0], ServerMessage::AuthChallenge { .. }));
    assert!(matches!(
        &msgs[1],
        ServerMessage::AuthResult(a)
            if a.success && a.compression.is_none() && a.negotiated_capabilities.is_empty()
    ));
}

#[test]
fn auth_auth_rejects_disjoint_protocol_range_before_token_validation() {
    let mut app = ServerApp::new("tok".to_string());
    let mut state = state_for(&app, TransportKind::Uds);
    let disjoint = Negotiation {
        client_range: "2.0.0".to_string(),
        version: None,
        ..negotiation(false)
    };
    let r = handle_message(&mut app, &mut state, auth_request("tok", disjoint), NOW, nonce());
    assert!(!r.flow.keep_reading());
    assert!(matches!(
        only(r.replies),
        ServerMessage::AuthResult(a)
            if !a.success && a.reason.as_ref().unwrap().starts_with("protocol version mismatch:")
    ));
}

#[test]
fn auth_auth_rejects_invalid_signature() {
    let mut app = ServerApp::new("tok".to_string());
    let mut state = state_for(&app, TransportKind::Uds);
    let r = handle_message(&mut app, &mut state, auth_request("tok", negotiation(false)), NOW, nonce());
    assert!(r.flow.keep_reading(), "a valid token keeps the connection open for the proof step");
    assert!(matches!(only(r.replies), ServerMessage::AuthChallenge { nonce: n } if n == nonce()));

    let proof = ClientMessage::AuthProof { signature: vec![0u8; 64] };
    let r = handle_message(&mut app, &mut state, proof, NOW, nonce());
    match r.work {
        Some(Work::VerifyProof { public_key, nonce: n, signature }) => {
            assert_eq!(public_key, vec![1; 32]);
            assert_eq!(n, nonce());
            assert_eq!(signature, vec![0; 64]);
        }
        other => panic!("expected VerifyProof, got {other:?}"),
    }
    let r = finish_auth_proof(&mut app, &mut state, None);
    assert!(!r.flow.keep_reading(), "an invalid proof must close the connection");
    assert!(!state.authenticated);
    assert!(matches!(only(r.replies), ServerMessage::AuthResult(a) if !a.success));
    assert_eq!(app.connection_count(), 0);
}

#[test]
fn auth_an_unauthenticated_client_is_told_to_send_auth_first() {
    let mut app = ServerApp::new("tok".to_string());
    let mut state = state_for(&app, TransportKind::Uds);
    let (keep, msgs) = dispatch(&mut app, &mut state, ClientMessage::Ping { seq: 1 });
    assert!(keep, "the pre-auth gate keeps the connection open");
    let (request_id, code, message) = only_error(msgs);
    assert_eq!(request_id, None);
    assert_eq!(code, ErrorCode::NotAuthenticated);
    assert_eq!(message, "send Auth first");
}

#[test]
fn auth_a_second_auth_after_authentication_is_ignored_silently() {
    let (keep, msgs) = dispatch_one(auth_request("tok", negotiation(false)));
    assert!(keep);
    assert!(msgs.is_empty(), "a duplicate Auth answers nothing: {msgs:?}");
}

#[test]
fn auth_a_stray_auth_proof_after_authentication_is_ignored_silently() {
    let (keep, msgs) = dispatch_one(ClientMessage::AuthProof { signature: vec![0u8; 64] });
    assert!(keep);
    assert!(msgs.is_empty(), "a stray AuthProof answers nothing: {msgs:?}");
}

#[test]
fn auth_channel_ready_without_a_pending_swap_answers_nothing() {
    let (keep, msgs) = dispatch_one(ClientMessage::ChannelReady);
    assert!(keep);
    assert!(msgs.is_empty(), "no swap was pending: {msgs:?}");
}

#[test]
fn auth_channel_ready_reports_the_pending_swap_and_consumes_it() {
    let (mut app, mut state) = authenticated_client();
    state.pending_swap_from = Some(TransportKind::TcpTls);
    let (keep, msgs) = dispatch(&mut app, &mut state, ClientMessage::ChannelReady);
    assert!(keep);
    match only(msgs) {
        ServerMessage::ChannelSwitched { old_transport } => assert_eq!(old_transport, "TCP+TLS"),
        other => panic!("expected ChannelSwitched, got {other:?}"),
    }
    let (keep, msgs) = dispatch(&mut app, &mut state, ClientMessage::ChannelReady);
    assert!(keep);
    assert!(msgs.is_empty(), "the swap was consumed");
}

#[test]
fn a_wrong_token_closes_the_connection() {
    let mut app = ServerApp::new("tok".to_string());
    let mut state = state_for(&app, TransportKind::Uds);
    let r = handle_message(&mut app, &mut state, auth_request("tik", negotiation(false)), NOW, nonce());
    assert_eq!(r.flow, Flow::Close);
    assert!(matches!(
        only(r.replies),
        ServerMessage::AuthResult(a) if a.reason.as_deref() == Some("invalid token")
    ));
}

#[test]
fn a_connection_that_resumes_keeps_its_id_and_names_its_old_transport() {
    let (mut app, state) = authenticated_client();
    let mut second = state_for(&app, TransportKind::Quic);
    let resume = match auth_request("tok", negotiation(false)) {
        ClientMessage::Auth(a) => {
            ClientMessage::Auth(AuthRequest { connection_id: state.connection_id, ..a })
        }
        _ => unreachable!(),
    };
    handle_message(&mut app, &mut second, resume, NOW, nonce());
    handle_message(
        &mut app,
        &mut second,
        ClientMessage::AuthProof { signature: vec![] },
        NOW,
        nonce(),
    );
    finish_auth_proof(&mut app, &mut second, verified());
    assert_eq!(second.connection_id, state.connection_id);
    let (_, msgs) = dispatch(&mut app, &mut second, ClientMessage::ChannelReady);
    assert!(matches!(
        only(msgs),
        ServerMessage::ChannelSwitched { old_transport } if old_transport == "UDS"
    ));
}

// ─── Clients of a session ────────────────────────────────────────────────────

#[test]
fn clients_client_list_for_an_unknown_session_errors_with_the_request_id() {
    let (keep, msgs) = dispatch_one(ClientMessage::ClientList {
        request_id: 18,
        word_id: MISSING_WORD.to_string(),
    });
    assert!(keep);
    let (request_id, code, message) = only_error(msgs);
    assert_eq!(request_id, Some(18));
    assert_eq!(code, ErrorCode::SessionNotFound);
    assert_eq!(message, format!("session not found: {MISSING_WORD}"));
}

#[test]
fn clients_kick_client_in_an_unknown_session_errors_with_the_request_id() {
    let (keep, msgs) = dispatch_one(ClientMessage::KickClient {
        request_id: 19,
        word_id: MISSING_WORD.to_string(),
        client_id: ClientId(42),
    });
    assert!(keep);
    let (request_id, code, message) = only_error(msgs);
    assert_eq!(request_id, Some(19));
    assert_eq!(code, ErrorCode::SessionNotFound);
    assert_eq!(message, format!("session not found: {MISSING_WORD}"));
}

#[test]
fn kicking_a_client_that_is_not_attached_names_the_client_and_the_session() {
    let (mut app, mut state) = app_with_one_session();
    let (keep, msgs) = dispatch(
        &mut app,
        &mut state,
        ClientMessage::KickClient {
            request_id: 21,
            word_id: "eagle".to_string(),
            client_id: ClientId(42),
        },
    );
    assert!(keep);
    let (request_id, code, message) = only_error(msgs);
    assert_eq!(request_id, Some(21));
    assert_eq!(code, ErrorCode::ClientNotFound);
    assert_eq!(message, "client 42 not attached to session eagle");
}

#[test]
fn a_kicked_client_is_told_by_whom() {
    let (mut app, mut state) = app_with_one_session();
    app.attach(AttachParams {
        pane_id: "eagle/0".to_string(),
        client_id: ClientId(42),
        last_seqno: None,
        size: TermSize::default(),
        capabilities: ClientCapabilities::default(),
    })
    .unwrap();
    let r = handle_message(
        &mut app,
        &mut state,
        ClientMessage::KickClient {
            request_id: 21,
            word_id: "eagle".to_string(),
            client_id: ClientId(42),
        },
        NOW,
        nonce(),
    );
    assert!(matches!(only(r.replies), ServerMessage::ClientKicked { request_id: 21, .. }));
    match r.told {
        Some((ClientId(42), ServerMessage::SessionKicked { word_id, by_label })) => {
            assert_eq!(word_id, "eagle");
            assert_eq!(by_label, "user@host");
        }
        other => panic!("expected SessionKicked, got {other:?}"),
    }
}

// ─── Diagnostics ─────────────────────────────────────────────────────────────

#[test]
fn diagnostics_process_overview_on_an_empty_server_returns_no_panes() {
    let (keep, msgs) = dispatch_one(ClientMessage::ProcessOverview { request_id: 12 });
    assert!(keep);
    match only(msgs) {
        ServerMessage::ProcessOverviewResult { request_id, panes } => {
            assert_eq!(request_id, 12);
            assert!(panes.is_empty(), "no panes exist: {panes:?}");
        }
        other => panic!("expected ProcessOverviewResult, got {other:?}"),
    }
}

#[test]
fn diagnostics_fetch_logs_answers_a_request_correlated_terminated_stream() {
    let (keep, msgs) = dispatch_one(ClientMessage::FetchLogs {
        request_id: 21,
        lines: Some(5),
        follow: false,
    });
    assert!(keep);
    assert!(!msgs.is_empty(), "the arm always answers");
    for msg in &msgs {
        let id = match msg {
            ServerMessage::LogChunk { request_id, .. } | ServerMessage::LogEnd { request_id } => {
                Some(*request_id)
            }
            ServerMessage::Error { request_id, .. } => *request_id,
            other => panic!("unexpected FetchLogs reply {other:?}"),
        };
        assert_eq!(id, Some(21), "reply not correlated: {msg:?}");
    }
    match msgs.last().expect("non-empty asserted above") {
        ServerMessage::LogEnd { .. } => {}
        ServerMessage::Error { code, .. } => assert_eq!(*code, ErrorCode::InternalError),
        other => panic!("stream must end with LogEnd or Error, got {other:?}"),
    }
}

#[test]
fn a_log_comes_in_chunks_and_an_unreadable_one_as_an_error() {
    let data = vec![b'x'; 150_000];
    let r = finish_fetch_logs(4, Some(3), false, LogRead::Content { data, start: 10 });
    let mut total = 0;
    for m in &r.replies[..r.replies.len() - 1] {
        match m {
            ServerMessage::LogChunk { data, .. } => total += data.len(),
            other => panic!("expected LogChunk, got {other:?}"),
        }
    }
    assert_eq!(total, 149_990);
    assert!(matches!(r.replies.last(), Some(ServerMessage::LogEnd { request_id: 4 })));
    let failed = [
        LogRead::NoPath("no state dir".to_string()),
        LogRead::Unreadable { path: "/l".to_string(), error: "denied".to_string() },
        LogRead::Failed("eof".to_string()),
    ];
    for read in failed {
        let r = finish_fetch_logs(4, None, false, read);
        let (id, code, _) = only_error(r.replies);
        assert_eq!((id, code), (Some(4), ErrorCode::InternalError));
    }
}

fn log_text(replies: &[ServerMessage]) -> Vec<u8> {
    let mut text = vec![];
    for m in replies {
        if let ServerMessage::LogChunk { request_id: 4, data } = m {
            assert!(!data.is_empty() && data.len() <= 65_536);
            text.extend_from_slice(data);
        }
    }
    text
}

#[test]
fn a_log_is_sent_whole_unless_lines_are_counted() {
    let read = || LogRead::Content { data: b"one\ntwo\n".to_vec(), start: 4 };
    let whole = finish_fetch_logs(4, None, false, read());
    assert_eq!(log_text(&whole.replies), b"one\ntwo\n");
    assert!(whole.work.is_none());
    let last = finish_fetch_logs(4, Some(1), false, read());
    assert_eq!(log_text(&last.replies), b"two\n");
    assert!(matches!(last.replies.last(), Some(ServerMessage::LogEnd { request_id: 4 })));
}

#[test]
fn a_followed_log_goes_on_until_it_cannot() {
    let read = LogRead::Content { data: b"one\n".to_vec(), start: 0 };
    let r = finish_fetch_logs(4, None, true, read);
    assert_eq!(log_text(&r.replies), b"one\n");
    assert!(!r.replies.iter().any(|m| matches!(m, ServerMessage::LogEnd { .. })));
    assert!(matches!(r.work, Some(Work::FollowLog { request_id: 4 })));
    let (out, again) = on_log_tick(4, true, Ok(b"two\n".to_vec()));
    assert_eq!((log_text(&out.replies), again), (b"two\n".to_vec(), true));
    let (out, again) = on_log_tick(4, true, Ok(vec![]));
    assert!(out.replies.is_empty() && again);
    let (out, again) = on_log_tick(4, false, Ok(b"late".to_vec()));
    assert!(out.replies.is_empty() && !again);
    let (out, again) = on_log_tick(4, true, Err(()));
    assert!(out.replies.is_empty() && !again);
}

#[test]
fn weights_for_the_wrong_number_of_panes_leave_the_layout_alone() {
    let (mut app, mut state) = app_with_one_session();
    let before = app.sessions[0].tabs[0].layout.clone();
    let ratios = ClientMessage::SetLayoutRatios {
        word_id: "eagle".to_string(),
        tab_index: 0,
        path: vec![],
        ratios: vec![65_535; 70_000],
    };
    let r = handle_message(&mut app, &mut state, ratios, NOW, nonce());
    assert!(r.flow.keep_reading());
    match &r.broadcasts[..] {
        [ServerMessage::LayoutUpdate { layout, .. }] => assert_eq!(*layout, before),
        other => panic!("expected one LayoutUpdate, got {other:?}"),
    }
    assert_eq!(app.sessions[0].tabs[0].layout, before);
}

#[test]
fn a_client_stays_who_it_is_and_sees_only_what_it_attaches_to() {
    let (mut app, mut state) = app_with_one_session();
    let who = (state.client_id, state.connection_id, state.label.clone());
    let again = auth_request("tok", negotiation(false));
    let r = handle_message(&mut app, &mut state, again, NOW, nonce());
    assert!(r.replies.is_empty() && r.work.is_none());
    let resize = ClientMessage::Resize { pane_id: "eagle/0".to_string(), size: TermSize::default() };
    let r = handle_message(&mut app, &mut state, resize, NOW, nonce());
    assert!(!matches!(r.work, Some(Work::StartStream { .. })));
    let attach =
        ClientMessage::Attach { pane_id: "eagle/0".to_string(), last_seqno: None, size: TermSize::default() };
    let r = handle_message(&mut app, &mut state, attach, NOW, nonce());
    assert!(matches!(r.work, Some(Work::StartStream { .. })));
    assert_eq!((state.client_id, state.connection_id, state.label.clone()), who);
}

fn dir(name: &str) -> FoundEntry {
    FoundEntry { name: Some(name.to_string()), is_dir: true, links_to_dir: false }
}

fn found() -> FoundDirectory {
    FoundDirectory {
        path: "/tmp/x".to_string(),
        parent: Some("/tmp".to_string()),
        entries: vec![
            dir("zebra"),
            dir("Alpha"),
            FoundEntry { name: Some("a_file.txt".to_string()), is_dir: false, links_to_dir: false },
        ],
    }
}

#[test]
fn diagnostics_list_directory_returns_sorted_dirs_only() {
    let msg = list_directory(1, "/tmp/x".to_string(), Ok(found()));
    match msg {
        ServerMessage::DirectoryListing { request_id, entries, error, parent, .. } => {
            assert_eq!(request_id, 1);
            assert!(error.is_none());
            assert!(parent.is_some(), "a tempdir has a parent");
            let names: Vec<&str> = entries.iter().map(|e| e.name.as_str()).collect();
            assert_eq!(names, vec!["Alpha", "zebra"]);
            assert!(entries.iter().all(|e| e.is_dir));
        }
        other => panic!("expected DirectoryListing, got {other:?}"),
    }
}

#[test]
fn directories_are_ordered_without_regard_to_case() {
    let entries = vec![
        dir("b"),
        dir("C"),
        FoundEntry { name: Some("\u{c4}".to_string()), is_dir: false, links_to_dir: true },
        dir("\u{e4}a"),
        FoundEntry { name: None, is_dir: true, links_to_dir: false },
        dir("A"),
    ];
    let found = FoundDirectory { path: "/".to_string(), parent: None, entries };
    match list_directory(1, String::new(), Ok(found)) {
        ServerMessage::DirectoryListing { entries, .. } => {
            let names: Vec<&str> = entries.iter().map(|e| e.name.as_str()).collect();
            assert_eq!(names, ["A", "b", "C", "\u{c4}", "\u{e4}a"]);
        }
        other => panic!("expected DirectoryListing, got {other:?}"),
    }
}

#[test]
fn dispatch_list_directory_reports_error_for_missing_path() {
    let path = "/this/path/does/not/exist/kmux".to_string();
    match list_directory(2, path, Err("No such file or directory".to_string())) {
        ServerMessage::DirectoryListing { path, entries, error, .. } => {
            assert_eq!(path, "/this/path/does/not/exist/kmux");
            assert!(entries.is_empty());
            assert!(error.is_some());
        }
        other => panic!("expected DirectoryListing, got {other:?}"),
    }
}

#[test]
fn diagnostics_list_directory_reports_error_for_missing_path() {
    let path = "/this/path/does/not/exist/kmux".to_string();
    let r = finish_list_directory(2, path, Err("No such file or directory".to_string()));
    match only(r.replies) {
        ServerMessage::DirectoryListing { path, entries, error, .. } => {
            assert_eq!(path, "/this/path/does/not/exist/kmux");
            assert!(entries.is_empty());
            assert!(error.is_some());
        }
        other => panic!("expected DirectoryListing, got {other:?}"),
    }
}

#[test]
fn dispatch_list_directory_empty_path_resolves_a_default() {
    match list_directory(3, String::new(), Ok(found())) {
        ServerMessage::DirectoryListing { path, error, .. } => {
            assert!(error.is_none(), "default dir should list: {error:?}");
            assert!(path.starts_with('/'), "canonicalized path should be absolute: {path}");
        }
        other => panic!("expected DirectoryListing, got {other:?}"),
    }
}

#[test]
fn diagnostics_list_directory_empty_path_resolves_a_default() {
    let r = finish_list_directory(3, String::new(), Ok(found()));
    match only(r.replies) {
        ServerMessage::DirectoryListing { path, error, .. } => {
            assert!(error.is_none(), "default dir should list: {error:?}");
            assert!(path.starts_with('/'), "canonicalized path should be absolute: {path}");
        }
        other => panic!("expected DirectoryListing, got {other:?}"),
    }
}

#[test]
fn diagnostics_list_directory_of_a_missing_path_answers_a_listing_carrying_the_error() {
    let (keep, msgs) = dispatch_one(ClientMessage::ListDirectory {
        request_id: 15,
        path: "/this/path/does/not/exist/kmux".to_string(),
    });
    assert!(keep);
    match only(msgs) {
        ServerMessage::DirectoryListing { request_id, path, parent, entries, error } => {
            assert_eq!(request_id, 15);
            assert_eq!(path, "/this/path/does/not/exist/kmux");
            assert_eq!(parent, None);
            assert!(entries.is_empty());
            assert!(error.is_some(), "the IO failure is reported inline");
        }
        other => panic!("expected DirectoryListing, got {other:?}"),
    }
}

#[test]
fn diagnostics_notify_for_an_unknown_pane_errors_with_the_request_id() {
    let (keep, msgs) = dispatch_one(ClientMessage::Notify {
        request_id: 20,
        pane_id: MISSING_PANE.to_string(),
        kind: AttentionKind::TurnDone,
        title: "title".to_string(),
        body: "body".to_string(),
    });
    assert!(keep);
    let (request_id, code, message) = only_error(msgs);
    assert_eq!(request_id, Some(20));
    assert_eq!(code, ErrorCode::PaneNotFound);
    assert_eq!(message, format!("pane not found: {MISSING_PANE}"));
}

#[test]
fn a_notification_reaches_everybody() {
    let (mut app, mut state) = app_with_one_session();
    let msg = ClientMessage::Notify {
        request_id: 20,
        pane_id: "eagle/0".to_string(),
        kind: AttentionKind::NeedsInput,
        title: "title".to_string(),
        body: "body".to_string(),
    };
    let r = handle_message(&mut app, &mut state, msg, NOW, nonce());
    assert!(matches!(only(r.replies), ServerMessage::NotifyAccepted { request_id: 20 }));
    assert!(matches!(
        only(r.broadcasts),
        ServerMessage::Event { event: SessionEventMsg::PaneAttention { title, .. } } if title == "title"
    ));
}

#[test]
fn diagnostics_ping_is_answered_with_a_pong_carrying_the_same_seq() {
    let (keep, msgs) = dispatch_one(ClientMessage::Ping { seq: 7 });
    assert!(keep);
    match only(msgs) {
        ServerMessage::Pong { seq } => assert_eq!(seq, 7),
        other => panic!("expected Pong, got {other:?}"),
    }
}

#[test]
fn diagnostics_an_unsolicited_pong_answers_nothing_and_records_no_rtt() {
    let (mut app, mut state) = authenticated_client();
    let (keep, msgs) = dispatch(&mut app, &mut state, ClientMessage::Pong { seq: 7 });
    assert!(keep);
    assert!(msgs.is_empty(), "a Pong is not answered");
    assert_eq!(state.metrics.last_rtt_ms, u64::MAX);
    assert_eq!(state.metrics.last_pong_ms, 0);
}

// ─── Input ───────────────────────────────────────────────────────────────────

#[test]
fn input_pty_input_to_an_unknown_pane_errors_without_a_request_id() {
    let (keep, msgs) = dispatch_one(ClientMessage::PtyInput {
        pane_id: MISSING_PANE.to_string(),
        data: b"x".to_vec(),
    });
    assert!(keep);
    let (request_id, code, message) = only_error(msgs);
    assert_eq!(request_id, None);
    assert_eq!(code, ErrorCode::PaneNotFound);
    assert_eq!(message, format!("pane not found: {MISSING_PANE}"));
}

#[test]
fn input_pty_paste_to_an_unknown_pane_errors_without_a_request_id() {
    let (keep, msgs) = dispatch_one(ClientMessage::PtyPaste {
        pane_id: MISSING_PANE.to_string(),
        data: "x".to_string(),
    });
    assert!(keep);
    let (request_id, code, message) = only_error(msgs);
    assert_eq!(request_id, None);
    assert_eq!(code, ErrorCode::PaneNotFound);
    assert_eq!(message, format!("pane not found: {MISSING_PANE}"));
}

#[test]
fn input_pty_key_batch_to_an_unknown_pane_errors_without_a_request_id() {
    let (keep, msgs) = dispatch_one(ClientMessage::PtyKeyBatch {
        pane_id: MISSING_PANE.to_string(),
        events: vec![one_key()],
    });
    assert!(keep);
    let (request_id, code, message) = only_error(msgs);
    assert_eq!(request_id, None);
    assert_eq!(code, ErrorCode::PaneNotFound);
    assert_eq!(message, format!("pane not found: {MISSING_PANE}"));
}

#[test]
fn an_empty_pty_key_batch_to_an_unknown_pane_still_errors() {
    let (keep, msgs) = dispatch_one(ClientMessage::PtyKeyBatch {
        pane_id: MISSING_PANE.to_string(),
        events: vec![],
    });
    assert!(keep);
    let (request_id, code, message) = only_error(msgs);
    assert_eq!(request_id, None);
    assert_eq!(code, ErrorCode::PaneNotFound);
    assert_eq!(message, format!("pane not found: {MISSING_PANE}"));
}

#[test]
fn input_resize_of_an_unknown_pane_errors_without_a_request_id() {
    let (keep, msgs) = dispatch_one(ClientMessage::Resize {
        pane_id: MISSING_PANE.to_string(),
        size: TermSize::default(),
    });
    assert!(keep);
    let (request_id, code, message) = only_error(msgs);
    assert_eq!(request_id, None);
    assert_eq!(code, ErrorCode::PaneNotFound);
    assert_eq!(message, format!("pane not found: {MISSING_PANE}"));
}

#[test]
fn input_signal_to_an_unknown_pane_errors_without_a_request_id() {
    let (keep, msgs) = dispatch_one(ClientMessage::Signal {
        pane_id: MISSING_PANE.to_string(),
        signal: 15,
    });
    assert!(keep);
    let (request_id, code, message) = only_error(msgs);
    assert_eq!(request_id, None);
    assert_eq!(code, ErrorCode::PaneNotFound);
    assert_eq!(message, format!("pane not found: {MISSING_PANE}"));
}

#[test]
fn input_request_input_lock_on_an_unknown_pane_errors_without_a_request_id() {
    let (keep, msgs) =
        dispatch_one(ClientMessage::RequestInputLock { pane_id: MISSING_PANE.to_string() });
    assert!(keep);
    let (request_id, code, message) = only_error(msgs);
    assert_eq!(request_id, None);
    assert_eq!(code, ErrorCode::PaneNotFound);
    assert_eq!(message, format!("pane not found: {MISSING_PANE}"));
}

#[test]
fn input_release_input_lock_on_an_unknown_pane_errors_without_a_request_id() {
    let (keep, msgs) =
        dispatch_one(ClientMessage::ReleaseInputLock { pane_id: MISSING_PANE.to_string() });
    assert!(keep);
    let (request_id, code, message) = only_error(msgs);
    assert_eq!(request_id, None);
    assert_eq!(code, ErrorCode::PaneNotFound);
    assert_eq!(message, format!("pane not found: {MISSING_PANE}"));
}

#[test]
fn a_denied_lock_names_its_holder() {
    let (mut app, mut state) = app_with_one_session();
    app.request_input_lock("eagle/0", ClientId(42)).unwrap();
    let ask = ClientMessage::RequestInputLock { pane_id: "eagle/0".to_string() };
    let (_, msgs) = dispatch(&mut app, &mut state, ask);
    assert!(matches!(
        only(msgs),
        ServerMessage::InputLockDenied { holder: ClientId(42), .. }
    ));
    let input = ClientMessage::PtyInput { pane_id: "eagle/0".to_string(), data: b"x".to_vec() };
    let (_, msgs) = dispatch(&mut app, &mut state, input);
    assert_eq!(only_error(msgs).1, ErrorCode::InputLocked);
}

#[test]
fn a_signal_is_checked_before_it_is_delivered() {
    let (mut app, mut state) = app_with_one_session();
    let r = handle_message(
        &mut app,
        &mut state,
        ClientMessage::Signal { pane_id: "eagle/0".to_string(), signal: 2 },
        NOW,
        nonce(),
    );
    assert!(matches!(r.work, Some(Work::SendSignal { signal: 2, .. })));
    let r = finish_signal(&app, "eagle/0".to_string(), Ok(()), 2);
    assert!(matches!(r.work, Some(Work::DeliverSignal { signal: 2, .. })));
    let r = finish_signal(&app, "eagle/0".to_string(), Ok(()), 12_345);
    assert!(r.work.is_none());
    only_error(r.replies);
}

// ─── Panes, tabs and layouts ─────────────────────────────────────────────────

#[test]
fn pane_pane_create_for_an_unknown_session_errors_naming_the_word_id() {
    let (keep, msgs) = dispatch_one(ClientMessage::PaneCreate {
        request_id: 3,
        word_id: MISSING_WORD.to_string(),
        spawn: spawn(),
    });
    assert!(keep);
    let (request_id, code, message) = only_error(msgs);
    assert_eq!(request_id, Some(3));
    assert_eq!(code, ErrorCode::SessionNotFound);
    assert_eq!(message, format!("session not found: {MISSING_WORD}"));
}

#[test]
fn pane_pane_close_of_an_unknown_pane_errors_naming_the_pane_id() {
    let (keep, msgs) = dispatch_one(ClientMessage::PaneClose {
        request_id: 4,
        pane_id: MISSING_PANE.to_string(),
    });
    assert!(keep);
    let (request_id, code, message) = only_error(msgs);
    assert_eq!(request_id, Some(4));
    assert_eq!(code, ErrorCode::PaneNotFound);
    assert_eq!(message, format!("pane not found: {MISSING_PANE}"));
}

#[test]
fn pane_pane_split_in_an_unknown_session_errors_naming_the_word_id() {
    let (keep, msgs) = dispatch_one(ClientMessage::PaneSplit {
        request_id: 8,
        word_id: MISSING_WORD.to_string(),
        tab_index: 0,
        from_pane: 0,
        dir: SplitDir::Horizontal,
        spawn: spawn(),
    });
    assert!(keep);
    let (request_id, code, message) = only_error(msgs);
    assert_eq!(request_id, Some(8));
    assert_eq!(code, ErrorCode::SessionNotFound);
    assert_eq!(message, format!("session not found: {MISSING_WORD}"));
}

#[test]
fn tab_tab_create_for_an_unknown_session_errors_naming_the_word_id() {
    let (keep, msgs) = dispatch_one(ClientMessage::TabCreate {
        request_id: 5,
        word_id: MISSING_WORD.to_string(),
        spawn: spawn(),
    });
    assert!(keep);
    let (request_id, code, message) = only_error(msgs);
    assert_eq!(request_id, Some(5));
    assert_eq!(code, ErrorCode::SessionNotFound);
    assert_eq!(message, format!("session not found: {MISSING_WORD}"));
}

#[test]
fn tab_tab_close_of_an_unknown_session_errors_naming_the_word_id() {
    let (keep, msgs) = dispatch_one(ClientMessage::TabClose {
        request_id: 6,
        word_id: MISSING_WORD.to_string(),
        tab_index: 0,
    });
    assert!(keep);
    let (request_id, code, message) = only_error(msgs);
    assert_eq!(request_id, Some(6));
    assert_eq!(code, ErrorCode::SessionNotFound);
    assert_eq!(message, format!("session not found: {MISSING_WORD}"));
}

#[test]
fn tab_tab_rename_for_an_unknown_session_errors_naming_the_word_id() {
    let (keep, msgs) = dispatch_one(ClientMessage::TabRename {
        request_id: 7,
        word_id: MISSING_WORD.to_string(),
        tab_index: 0,
        new_name: "renamed".to_string(),
    });
    assert!(keep);
    let (request_id, code, message) = only_error(msgs);
    assert_eq!(request_id, Some(7));
    assert_eq!(code, ErrorCode::SessionNotFound);
    assert_eq!(message, format!("session not found: {MISSING_WORD}"));
}

#[test]
fn tab_tab_reorder_for_an_unknown_session_errors_without_a_request_id() {
    let (keep, msgs) = dispatch_one(ClientMessage::TabReorder {
        word_id: MISSING_WORD.to_string(),
        tab_index: 0,
        new_position: 1,
    });
    assert!(keep);
    let (request_id, code, message) = only_error(msgs);
    assert_eq!(request_id, None);
    assert_eq!(code, ErrorCode::SessionNotFound);
    assert_eq!(message, format!("session not found: {MISSING_WORD}"));
}

#[test]
fn a_new_session_is_created_once_its_program_runs() {
    let (mut app, mut state) = authenticated_client();
    let r = handle_message(
        &mut app,
        &mut state,
        ClientMessage::SessionCreate {
            request_id: 1,
            name: None,
            cwd: Some("/tmp".to_string()),
            spawn: spawn(),
            peer: None,
        },
        NOW,
        nonce(),
    );
    assert!(matches!(r.work, Some(Work::PrepareSession { request_id: 1, .. })));
    let r = finish_prepare_session(
        &mut app,
        1,
        None,
        Some("eagle".to_string()),
        "/tmp".to_string(),
        Some("tmp".to_string()),
        spawn(),
    );
    let purpose = match r.work {
        Some(Work::SpawnPane { purpose, pane_index: 0, .. }) => purpose,
        other => panic!("expected SpawnPane, got {other:?}"),
    };
    let r = finish_spawn(&mut app, purpose, Ok(relay("eagle", 0)), TermSize::default(), 0);
    match only(r.replies) {
        ServerMessage::SessionCreated { request_id, entry } => {
            assert_eq!(request_id, 1);
            assert_eq!(entry.meta.word_id, "eagle");
            assert_eq!(entry.meta.name, "tmp");
            assert_eq!(entry.panes[0].pane_id, "eagle/0");
        }
        other => panic!("expected SessionCreated, got {other:?}"),
    }
}

#[test]
fn a_split_answers_the_client_and_updates_everybody() {
    let (mut app, mut state) = app_with_one_session();
    let r = handle_message(
        &mut app,
        &mut state,
        ClientMessage::PaneSplit {
            request_id: 8,
            word_id: "eagle".to_string(),
            tab_index: 0,
            from_pane: 0,
            dir: SplitDir::Vertical,
            spawn: spawn(),
        },
        NOW,
        nonce(),
    );
    let (purpose, index) = match r.work {
        Some(Work::SpawnPane { purpose, pane_index, .. }) => (purpose, pane_index),
        other => panic!("expected SpawnPane, got {other:?}"),
    };
    assert_eq!(index, 1);
    assert!(matches!(&purpose, SpawnPurpose::Split { request_id: 8, .. }));
    let r = finish_spawn(&mut app, purpose, Ok(relay("eagle", 1)), TermSize::default(), 0);
    assert!(matches!(only(r.replies), ServerMessage::PaneSplit { request_id: 8, .. }));
    assert!(matches!(
        &r.broadcasts[..],
        [ServerMessage::LayoutUpdate { focused_pane: 1, .. }]
    ));

    // The pane that was split off is closed again.
    let close = ClientMessage::PaneClose { request_id: 9, pane_id: "eagle/1".to_string() };
    let r = handle_message(&mut app, &mut state, close, NOW, nonce());
    assert!(matches!(r.work, Some(Work::ClosePane { .. })));
    let r = finish_pane_close(&mut app, 9, "eagle/1".to_string(), Ok(()));
    assert!(matches!(only(r.replies), ServerMessage::PaneClosed { request_id: 9, .. }));
    assert!(!r.broadcasts.is_empty());
    assert_eq!(app.pane_ids(), ["eagle/0"]);
}

#[test]
fn a_split_whose_program_fails_is_answered_with_the_error() {
    let (mut app, _) = app_with_one_session();
    let purpose = SpawnPurpose::Split {
        request_id: 8,
        word_id: "eagle".to_string(),
        tab_index: 0,
        from_pane: 0,
        dir: SplitDir::Vertical,
    };
    let failed = Err(KmuxError::Spawn("no such program".to_string()));
    let r = finish_spawn(&mut app, purpose, failed, TermSize::default(), 0);
    let (id, code, _) = only_error(r.replies);
    assert_eq!((id, code), (Some(8), ErrorCode::InternalError));
    assert_eq!(app.pane_ids(), ["eagle/0"]);
}

#[test]
fn tabs_are_moved_and_renamed_for_everybody() {
    let (mut app, mut state) = app_with_one_session();
    let r = handle_message(
        &mut app,
        &mut state,
        ClientMessage::TabCreate { request_id: 5, word_id: "eagle".to_string(), spawn: spawn() },
        NOW,
        nonce(),
    );
    let purpose = match r.work {
        Some(Work::SpawnPane { purpose, .. }) => purpose,
        other => panic!("expected SpawnPane, got {other:?}"),
    };
    let r = finish_spawn(&mut app, purpose, Ok(relay("eagle", 1)), TermSize::default(), 0);
    assert!(matches!(&r.replies[..], [ServerMessage::TabCreated { request_id: 5, .. }]));

    let reorder =
        ClientMessage::TabReorder { word_id: "eagle".to_string(), tab_index: 1, new_position: 0 };
    let r = handle_message(&mut app, &mut state, reorder, NOW, nonce());
    assert!(r.replies.is_empty());
    assert!(matches!(
        only(r.broadcasts),
        ServerMessage::Event { event: SessionEventMsg::TabsReordered { tab_indices, .. } }
            if tab_indices == [1, 0]
    ));

    let close = ClientMessage::TabClose { request_id: 6, word_id: "eagle".to_string(), tab_index: 1 };
    let r = handle_message(&mut app, &mut state, close, NOW, nonce());
    assert!(matches!(&r.replies[..], [ServerMessage::TabClosed { request_id: 6, .. }]));
    assert!(matches!(&r.work, Some(Work::EndPanes { pane_ids }) if pane_ids[..] == ["eagle/1"]));
}

#[test]
fn layout_changes_in_an_unknown_session_are_refused() {
    let word = || MISSING_WORD.to_string();
    let msgs = [
        ClientMessage::PaneSwap { word_id: word(), tab_index: 0, a: 0, b: 1 },
        ClientMessage::SetLayoutRatios {
            word_id: word(),
            tab_index: 0,
            path: vec![],
            ratios: vec![500, 500],
        },
        ClientMessage::ApplyLayoutScheme {
            word_id: word(),
            tab_index: 0,
            scheme: "tiled".to_string(),
        },
        ClientMessage::SetFocus { word_id: word(), tab_index: 0, pane_index: 0 },
    ];
    for msg in msgs {
        let (keep, replies) = dispatch_one(msg);
        assert!(keep);
        let (request_id, code, message) = only_error(replies);
        assert_eq!(request_id, None);
        assert_eq!(code, ErrorCode::SessionNotFound);
        assert_eq!(message, format!("session not found: {MISSING_WORD}"));
    }
}

#[test]
fn a_layout_scheme_is_applied_where_it_shows_the_same_panes() {
    let (mut app, mut state) = app_with_one_session();
    let ask = ClientMessage::ApplyLayoutScheme {
        word_id: "eagle".to_string(),
        tab_index: 0,
        scheme: "tiled".to_string(),
    };
    let r = handle_message(&mut app, &mut state, ask, NOW, nonce());
    assert!(matches!(r.work, Some(Work::ArrangeTab { leaves, .. }) if leaves == [0]));
    let r = finish_layout_scheme(&mut app, "eagle".to_string(), 0, LayoutNode::single(0));
    assert!(matches!(only(r.broadcasts), ServerMessage::LayoutUpdate { tab_index: 0, .. }));
}

// ─── Sessions ────────────────────────────────────────────────────────────────

#[test]
fn session_session_create_on_an_unknown_peer_errors_naming_the_peer() {
    let (keep, msgs) = dispatch_one(ClientMessage::SessionCreate {
        request_id: 1,
        name: None,
        cwd: None,
        spawn: spawn(),
        peer: Some("nosuchpeer".to_string()),
    });
    assert!(keep);
    let (request_id, code, message) = only_error(msgs);
    assert_eq!(request_id, Some(1));
    assert_eq!(code, ErrorCode::InternalError);
    assert_eq!(message, "peer nosuchpeer is not connected");
}

#[test]
fn session_session_close_of_an_unknown_session_errors_naming_the_word_id() {
    let (keep, msgs) = dispatch_one(ClientMessage::SessionClose {
        request_id: 2,
        word_id: MISSING_WORD.to_string(),
    });
    assert!(keep);
    let (request_id, code, message) = only_error(msgs);
    assert_eq!(request_id, Some(2));
    assert_eq!(code, ErrorCode::SessionNotFound);
    assert_eq!(message, format!("session not found: {MISSING_WORD}"));
}

#[test]
fn session_session_list_on_an_empty_server_returns_an_empty_list() {
    let (keep, msgs) = dispatch_one(ClientMessage::SessionList { request_id: 9 });
    assert!(keep);
    match only(msgs) {
        ServerMessage::SessionListResult { request_id, sessions } => {
            assert_eq!(request_id, 9);
            assert!(sessions.is_empty(), "no sessions exist: {sessions:?}");
        }
        other => panic!("expected SessionListResult, got {other:?}"),
    }
}

#[test]
fn session_session_list_closed_on_an_empty_server_returns_an_empty_graveyard() {
    let (keep, msgs) = dispatch_one(ClientMessage::SessionListClosed { request_id: 10 });
    assert!(keep);
    match only(msgs) {
        ServerMessage::ClosedSessionListResult { request_id, sessions } => {
            assert_eq!(request_id, 10);
            assert!(sessions.is_empty(), "the graveyard is empty: {sessions:?}");
        }
        other => panic!("expected ClosedSessionListResult, got {other:?}"),
    }
}

#[test]
fn session_session_restore_of_an_unknown_session_errors_naming_the_word_id() {
    let (keep, msgs) = dispatch_one(ClientMessage::SessionRestore {
        request_id: 11,
        word_id: MISSING_WORD.to_string(),
    });
    assert!(keep);
    let (request_id, code, message) = only_error(msgs);
    assert_eq!(request_id, Some(11));
    assert_eq!(code, ErrorCode::SessionNotFound);
    assert_eq!(message, format!("session not found: {MISSING_WORD}"));
}

#[test]
fn session_session_rename_of_an_unknown_session_errors_naming_the_word_id() {
    let (keep, msgs) = dispatch_one(ClientMessage::SessionRename {
        request_id: 13,
        word_id: MISSING_WORD.to_string(),
        new_name: "renamed".to_string(),
    });
    assert!(keep);
    let (request_id, code, message) = only_error(msgs);
    assert_eq!(request_id, Some(13));
    assert_eq!(code, ErrorCode::SessionNotFound);
    assert_eq!(message, format!("session not found: {MISSING_WORD}"));
}

#[test]
fn a_closed_session_is_listed_and_restored() {
    let (mut app, mut state) = app_with_one_session();
    let close = ClientMessage::SessionClose { request_id: 2, word_id: "eagle".to_string() };
    let r = handle_message(&mut app, &mut state, close, NOW, nonce());
    assert!(matches!(r.work, Some(Work::CaptureSession { request_id: 2, .. })));
    let r = finish_session_close(&mut app, 2, "eagle".to_string(), vec![PaneCapture::empty()], 50);
    assert!(matches!(&r.replies[..], [ServerMessage::SessionClosed { request_id: 2, .. }]));

    let (_, msgs) = dispatch(&mut app, &mut state, ClientMessage::SessionListClosed { request_id: 3 });
    assert!(matches!(
        only(msgs),
        ServerMessage::ClosedSessionListResult { sessions, .. } if sessions.len() == 1
    ));

    let restore = ClientMessage::SessionRestore { request_id: 4, word_id: "eagle".to_string() };
    let r = handle_message(&mut app, &mut state, restore, NOW, nonce());
    assert!(matches!(r.work, Some(Work::RestorePanes { request_id: 4, .. })));
    let back = vec![PaneOutcome::Restored { mode: SeedMode::Respawned, seeded: None }];
    let r = finish_session_restore(&mut app, 4, "eagle".to_string(), &back);
    assert!(matches!(&r.replies[..], [ServerMessage::SessionCreated { request_id: 4, .. }]));
    assert_eq!(app.pane_ids(), ["eagle/0"]);
}

#[test]
fn open_peer_that_cannot_be_reached_answers_peer_error_naming_the_peer() {
    let (keep, msgs) = dispatch_one(ClientMessage::OpenPeer {
        request_id: 16,
        target: PeerTarget {
            host: "127.0.0.1".to_string(),
            port: 1,
            token: "tok".to_string(),
            accept_invalid_certs: true,
        },
    });
    assert!(keep);
    match only(msgs) {
        ServerMessage::PeerError { request_id, peer, reason } => {
            assert_eq!(request_id, 16);
            assert_eq!(peer.as_deref(), Some("127.0.0.1:1"));
            assert!(reason.starts_with("peer connect failed:"), "unexpected reason: {reason}");
        }
        other => panic!("expected PeerError, got {other:?}"),
    }
}

#[test]
fn close_peer_that_was_never_opened_reports_success() {
    let (keep, msgs) = dispatch_one(ClientMessage::ClosePeer {
        request_id: 17,
        peer: "nosuchpeer".to_string(),
    });
    assert!(keep);
    match only(msgs) {
        ServerMessage::PeerClosed { request_id, peer } => {
            assert_eq!(request_id, 17);
            assert_eq!(peer, "nosuchpeer");
        }
        other => panic!("expected PeerClosed, got {other:?}"),
    }
}

#[test]
fn a_session_is_created_on_an_opened_peer() {
    let (mut app, mut state) = authenticated_client();
    let r = finish_open_peer(&mut app, 16, "h:1".to_string(), Ok(("h:1".to_string(), vec![])));
    assert!(matches!(only(r.replies), ServerMessage::PeerOpened { request_id: 16, .. }));
    let create = ClientMessage::SessionCreate {
        request_id: 1,
        name: None,
        cwd: None,
        spawn: spawn(),
        peer: Some("h:1".to_string()),
    };
    let r = handle_message(&mut app, &mut state, create, NOW, nonce());
    assert!(matches!(r.work, Some(Work::CreateRemote { peer, .. }) if peer == "h:1"));
    let close = ClientMessage::ClosePeer { request_id: 2, peer: "h:1".to_string() };
    dispatch(&mut app, &mut state, close);
    assert!(!app.has_peer("h:1"));
    finish_open_peer(&mut app, 16, "h:2".to_string(), Ok(("h:2".to_string(), vec![])));
    app.close_all_peers();
    assert!(!app.has_peer("h:2"));
    let r = finish_create_remote(&mut app, 1, "h:2".to_string(), Err("peer is busy".to_string()));
    let (id, code, message) = only_error(r.replies);
    assert_eq!((id, code), (Some(1), ErrorCode::InternalError));
    assert_eq!(message, "peer is busy");
}

fn remote_entry(word: &str) -> SessionEntry {
    SessionEntry {
        meta: SessionMeta {
            index: 3,
            word_id: word.to_string(),
            name: "build@h".to_string(),
            cwd: "/srv".to_string(),
        },
        panes: vec![],
        tabs: vec![],
        active_tab: 0,
        peer: None,
    }
}

/// A daemon with a session "eagle" of its own and a session "fern" of the peer "h:1".
fn app_with_a_peer() -> (ServerApp, SharedClientState) {
    let (mut app, state) = app_with_one_session();
    let opened = Ok(("h:1".to_string(), vec![remote_entry("fern")]));
    finish_open_peer(&mut app, 16, "h:1".to_string(), opened);
    (app, state)
}

fn forwarded(app: &mut ServerApp, state: &mut SharedClientState, msg: ClientMessage) -> ClientMessage {
    let r = handle_message(app, state, msg, NOW, nonce());
    assert!(r.replies.is_empty() && r.broadcasts.is_empty());
    match r.work {
        Some(Work::Forward { pane_id, command }) => {
            assert_eq!(pane_id, "fern/2");
            command.addressed("oak/2".to_string())
        }
        other => panic!("expected Forward, got {other:?}"),
    }
}

#[test]
fn what_is_sent_to_a_peers_pane_is_passed_on_under_its_remote_id() {
    let (mut app, mut state) = app_with_a_peer();
    let id = || "fern/2".to_string();
    let m = forwarded(&mut app, &mut state, ClientMessage::PtyInput { pane_id: id(), data: vec![1, 2] });
    assert!(matches!(m, ClientMessage::PtyInput { pane_id, data } if pane_id == "oak/2" && data == [1, 2]));
    let m = forwarded(&mut app, &mut state, ClientMessage::PtyPaste { pane_id: id(), data: "hé".to_string() });
    assert!(matches!(m, ClientMessage::PtyPaste { pane_id, data } if pane_id == "oak/2" && data == "hé"));
    let m = forwarded(&mut app, &mut state, ClientMessage::PtyKeyBatch { pane_id: id(), events: vec![one_key()] });
    assert!(matches!(m, ClientMessage::PtyKeyBatch { pane_id, events } if pane_id == "oak/2" && events.len() == 1));
    let m = forwarded(&mut app, &mut state, ClientMessage::Signal { pane_id: id(), signal: 2 });
    assert!(matches!(m, ClientMessage::Signal { pane_id, signal: 2 } if pane_id == "oak/2"));
    let history = ClientMessage::FetchHistory { request_id: 5, pane_id: id(), start_index: 10, count: 20 };
    let m = forwarded(&mut app, &mut state, history);
    assert!(matches!(
        m,
        ClientMessage::FetchHistory { request_id: 5, pane_id, start_index: 10, count: 20 } if pane_id == "oak/2"
    ));
    assert!(app.is_federated_pane("fern/2") && app.is_federated_session("fern"));
    assert!(!app.is_federated_pane("eagle/0") && !app.is_federated_pane("fern"));
}

#[test]
fn a_peers_pane_is_viewed_through_the_peer() {
    let (mut app, mut state) = app_with_a_peer();
    let size = TermSize { rows: 10, cols: 20, ..TermSize::default() };
    let attach = || ClientMessage::Attach { pane_id: "fern/2".to_string(), last_seqno: None, size };
    let r = handle_message(&mut app, &mut state, attach(), NOW, nonce());
    match r.work {
        Some(Work::ViewProxied { pane_id, client_id, last_seqno, size: s }) => {
            assert_eq!((pane_id.as_str(), last_seqno, s), ("fern/2", None, size));
            assert_eq!(Some(client_id), state.client_id);
        }
        other => panic!("expected ViewProxied, got {other:?}"),
    }
    assert!(r.stopped.is_empty() && r.unviewed.is_empty());
    finish_attach(&mut state, "fern/2".to_string(), Ok(()));
    assert_eq!(state.attached, ["fern/2"]);
    let r = handle_message(&mut app, &mut state, attach(), NOW, nonce());
    assert_eq!((r.stopped, r.unviewed), (vec!["fern/2".to_string()], vec!["fern/2".to_string()]));
    finish_attach(&mut state, "fern/2".to_string(), Ok(()));
    let resize = ClientMessage::Resize { pane_id: "fern/2".to_string(), size };
    let r = handle_message(&mut app, &mut state, resize, NOW, nonce());
    assert!(matches!(r.work, Some(Work::ResizeProxied { pane_id, size: s, .. }) if pane_id == "fern/2" && s == size));
    let r = handle_message(&mut app, &mut state, ClientMessage::SetPaused { paused: true, auto: false }, NOW, nonce());
    assert!(matches!(r.work, Some(Work::PauseProxied { paused: true, auto: false, .. })));
    let exempt = ClientMessage::SetPaneNoAutoPause { pane_id: "fern/2".to_string(), exempt: true };
    let r = handle_message(&mut app, &mut state, exempt, NOW, nonce());
    assert!(matches!(r.work, Some(Work::ExemptProxied { pane_id, exempt: true, .. }) if pane_id == "fern/2"));
    let detach = ClientMessage::Detach { pane_id: "fern/2".to_string() };
    let r = handle_message(&mut app, &mut state, detach, NOW, nonce());
    assert!(r.work.is_none());
    assert_eq!((r.stopped, r.unviewed), (vec!["fern/2".to_string()], vec!["fern/2".to_string()]));
    assert!(state.attached.is_empty());
}

#[test]
fn a_pane_of_ones_own_is_left_without_telling_a_peer() {
    let (mut app, mut state) = app_with_a_peer();
    let attach =
        ClientMessage::Attach { pane_id: "eagle/0".to_string(), last_seqno: None, size: TermSize::default() };
    handle_message(&mut app, &mut state, attach, NOW, nonce());
    finish_attach(&mut state, "eagle/0".to_string(), Ok(()));
    let detach = ClientMessage::Detach { pane_id: "eagle/0".to_string() };
    let r = handle_message(&mut app, &mut state, detach, NOW, nonce());
    assert_eq!(r.stopped, ["eagle/0"]);
    assert!(r.unviewed.is_empty());
}

#[test]
fn peers_sessions_are_listed_after_ones_own() {
    let (mut app, mut state) = app_with_a_peer();
    let created = Ok(remote_entry("moss"));
    let r = finish_create_remote(&mut app, 4, "h:1".to_string(), created);
    match only(r.replies) {
        ServerMessage::SessionCreated { request_id: 4, entry } => {
            assert_eq!(entry.meta.word_id, "moss");
            assert_eq!(entry.peer.as_deref(), Some("h:1"));
        }
        other => panic!("expected SessionCreated, got {other:?}"),
    }
    let (_, msgs) = dispatch(&mut app, &mut state, ClientMessage::SessionList { request_id: 9 });
    match only(msgs) {
        ServerMessage::SessionListResult { request_id: 9, sessions } => {
            let words: Vec<&str> = sessions.iter().map(|s| s.meta.word_id.as_str()).collect();
            assert_eq!(words, ["eagle", "fern", "moss"]);
            let peers: Vec<Option<&str>> = sessions.iter().map(|s| s.peer.as_deref()).collect();
            assert_eq!(peers, [None, Some("h:1"), Some("h:1")]);
            assert_eq!(sessions[1].meta.name, "build@h");
        }
        other => panic!("expected SessionListResult, got {other:?}"),
    }
}

#[test]
fn a_closed_peer_takes_its_sessions_along_and_frees_their_words() {
    let (mut app, mut state) = app_with_a_peer();
    finish_open_peer(&mut app, 16, "h:2".to_string(), Ok(("h:2".to_string(), vec![remote_entry("reed")])));
    assert_eq!(app.used_words, ["eagle", "fern", "reed"]);
    dispatch(&mut app, &mut state, ClientMessage::ClosePeer { request_id: 2, peer: "h:1".to_string() });
    assert!(!app.is_federated_session("fern"));
    assert!(app.is_federated_session("reed"));
    assert_eq!(app.used_words, ["eagle", "reed"]);
    let input = ClientMessage::PtyInput { pane_id: "fern/2".to_string(), data: vec![1] };
    let (_, code, _) = only_error(dispatch(&mut app, &mut state, input).1);
    assert_eq!(code, ErrorCode::PaneNotFound);
    app.close_all_peers();
    assert!(!app.is_federated_session("reed"));
    assert_eq!(app.used_words, ["eagle", "reed"]);
}

#[test]
fn a_peer_lists_and_sends_away_the_clients_of_its_sessions() {
    let (mut app, mut state) = app_with_a_peer();
    let list = ClientMessage::ClientList { request_id: 6, word_id: "fern".to_string() };
    let r = handle_message(&mut app, &mut state, list, NOW, nonce());
    assert!(matches!(r.work, Some(Work::ListRemoteClients { request_id: 6, word_id }) if word_id == "fern"));
    let r = finish_remote_clients(6, "fern".to_string(), Ok(vec![]));
    assert!(matches!(
        only(r.replies),
        ServerMessage::ClientListResult { request_id: 6, word_id, clients } if word_id == "fern" && clients.is_empty()
    ));
    let r = finish_remote_clients(6, "fern".to_string(), Err("peer is gone".to_string()));
    assert_eq!(
        only_error(r.replies),
        (Some(6), ErrorCode::SessionNotFound, "peer is gone".to_string())
    );
    let kick =
        ClientMessage::KickClient { request_id: 7, word_id: "fern".to_string(), client_id: ClientId(4) };
    let r = handle_message(&mut app, &mut state, kick, NOW, nonce());
    assert!(matches!(r.work, Some(Work::KickRemote { request_id: 7, client_id: ClientId(4), .. })));
    let r = finish_remote_kick(7, "fern".to_string(), ClientId(4), Ok(()));
    assert!(matches!(
        only(r.replies),
        ServerMessage::ClientKicked { request_id: 7, client_id: ClientId(4), .. }
    ));
    let r = finish_remote_kick(7, "fern".to_string(), ClientId(4), Err("no such client".to_string()));
    assert_eq!(
        only_error(r.replies),
        (Some(7), ErrorCode::ClientNotFound, "no such client".to_string())
    );
}

#[test]
fn peers_processes_are_listed_after_ones_own() {
    let (mut app, mut state) = app_with_a_peer();
    let ask = ClientMessage::ProcessOverview { request_id: 3 };
    let r = handle_message(&mut app, &mut state, ask, NOW, nonce());
    assert!(matches!(r.work, Some(Work::ListProcesses { request_id: 3, pane_ids }) if pane_ids == ["eagle/0"]));
    let of = |pane: &str| PaneProcesses { pane_id: pane.to_string(), root_pid: Some(7), pids: vec![7, 8] };
    let r = finish_process_overview(3, vec![of("eagle/0")], vec![of("fern/2")]);
    match only(r.replies) {
        ServerMessage::ProcessOverviewResult { request_id: 3, panes } => {
            let ids: Vec<&str> = panes.iter().map(|p| p.pane_id.as_str()).collect();
            assert_eq!(ids, ["eagle/0", "fern/2"]);
        }
        other => panic!("expected ProcessOverviewResult, got {other:?}"),
    }
}

#[test]
fn a_signal_that_cannot_be_delivered_is_an_error() {
    assert!(finish_delivery(Ok(())).replies.is_empty());
    only_error(finish_delivery(Err(KmuxError::Spawn("gone".to_string()))).replies);
}

// ─── Views ───────────────────────────────────────────────────────────────────

#[test]
fn view_attach_to_an_unknown_pane_errors_and_starts_no_stream() {
    let (mut app, mut state) = authenticated_client();
    let (keep, msgs) = dispatch(
        &mut app,
        &mut state,
        ClientMessage::Attach {
            pane_id: MISSING_PANE.to_string(),
            last_seqno: None,
            size: TermSize::default(),
        },
    );
    assert!(keep);
    assert!(state.attached.is_empty(), "a failed attach registers no forwarding task");
    let (request_id, code, message) = only_error(msgs);
    assert_eq!(request_id, None);
    assert_eq!(code, ErrorCode::PaneNotFound);
    assert_eq!(message, format!("pane not found: {MISSING_PANE}"));
}

#[test]
fn view_detach_from_a_pane_this_client_never_attached_answers_nothing() {
    let (keep, msgs) = dispatch_one(ClientMessage::Detach { pane_id: MISSING_PANE.to_string() });
    assert!(keep);
    assert!(msgs.is_empty(), "nothing was attached: {msgs:?}");
}

#[test]
fn view_set_snapshot_mode_is_applied_without_a_reply() {
    let (keep, msgs) = dispatch_one(ClientMessage::SetSnapshotMode { enabled: true });
    assert!(keep);
    assert!(msgs.is_empty(), "snapshot mode is a silent connection setting: {msgs:?}");
}

#[test]
fn view_set_paused_is_applied_without_a_reply() {
    let (keep, msgs) = dispatch_one(ClientMessage::SetPaused { paused: true, auto: false });
    assert!(keep);
    assert!(msgs.is_empty(), "pausing is a silent connection setting: {msgs:?}");
}

#[test]
fn view_set_pane_no_auto_pause_for_an_unknown_pane_answers_nothing() {
    let (keep, msgs) = dispatch_one(ClientMessage::SetPaneNoAutoPause {
        pane_id: MISSING_PANE.to_string(),
        exempt: true,
    });
    assert!(keep);
    assert!(msgs.is_empty(), "no reply is defined: {msgs:?}");
}

#[test]
fn view_fetch_history_for_an_unknown_pane_errors_with_the_request_id() {
    let (keep, msgs) = dispatch_one(ClientMessage::FetchHistory {
        request_id: 14,
        pane_id: MISSING_PANE.to_string(),
        start_index: 0,
        count: 10,
    });
    assert!(keep);
    let (request_id, code, message) = only_error(msgs);
    assert_eq!(request_id, Some(14));
    assert_eq!(code, ErrorCode::PaneNotFound);
    assert_eq!(message, format!("pane not found: {MISSING_PANE}"));
}

#[test]
fn an_attached_pane_streams_until_it_is_detached() {
    let (mut app, mut state) = app_with_one_session();
    let attach = ClientMessage::Attach {
        pane_id: "eagle/0".to_string(),
        last_seqno: None,
        size: TermSize { rows: 10, cols: 20, pixel_width: 0, pixel_height: 0 },
    };
    let r = handle_message(&mut app, &mut state, attach, NOW, nonce());
    assert!(matches!(
        &r.work,
        Some(Work::StartStream { replay: AttachResult::FullSnapshot(_), .. })
    ));
    assert_eq!(r.resizes.len(), 1);
    finish_attach(&mut state, "eagle/0".to_string(), Ok(()));
    assert!(state.is_attached("eagle/0"));
    let detach = ClientMessage::Detach { pane_id: "eagle/0".to_string() };
    let r = handle_message(&mut app, &mut state, detach, NOW, nonce());
    assert_eq!(r.stopped, ["eagle/0"]);
    assert!(!state.is_attached("eagle/0"));
    assert!(app.sessions[0].panes[0].clients.is_empty());
}

#[test]
fn a_replay_is_sent_in_order() {
    let msgs = build_attach_replay(
        AttachResult::Delta(vec![SequenceNo(2), SequenceNo(3)]),
        "eagle/0",
        5,
    );
    let seqs: Vec<u64> = msgs
        .iter()
        .map(|m| match m {
            ServerMessage::TerminalUpdate { seqno, .. } => seqno.0,
            other => panic!("expected TerminalUpdate, got {other:?}"),
        })
        .collect();
    assert_eq!(seqs, [2, 3]);
    let msgs = build_attach_replay(AttachResult::SyncReset(SequenceNo(9)), "eagle/0", 5);
    assert!(matches!(
        &msgs[..],
        [
            ServerMessage::SyncReset { .. },
            ServerMessage::TerminalSnapshot { seqno: SequenceNo(9), sent_at_ms: 5, .. }
        ]
    ));
}

#[test]
fn history_is_answered_with_its_request() {
    let r = finish_fetch_history(14, "eagle/0".to_string(), 3, vec![vec![]], 8, 99);
    assert!(matches!(
        only(r.replies),
        ServerMessage::HistoryLines { request_id: 14, first_index: 3, history_total: 8, .. }
    ));
}

// ─── A connection from beginning to end ──────────────────────────────────────

fn at(ms: u64) -> Clock {
    Clock { epoch_ms: ms, monotonic_ms: ms }
}

fn fresh_session(app: &ServerApp) -> ClientSession {
    ClientSession::new(state_for(app, TransportKind::Uds), 0)
}

fn log_in(app: &mut ServerApp, session: &mut ClientSession) {
    let hello = auth_request("tok", negotiation(false));
    session.on_frame(app, 10, Ok(hello), at(1), nonce());
    let proof = ClientMessage::AuthProof { signature: vec![] };
    session.on_frame(app, 10, Ok(proof), at(2), nonce());
    session.on_proof_verified(app, verified());
    assert!(session.state.authenticated);
}

fn event(event: SessionEventMsg) -> ServerMessage {
    ServerMessage::Event { event }
}

#[test]
fn unauthenticated_session_emits_no_events_or_ping() {
    let app = ServerApp::new("tok".to_string());
    let mut session = fresh_session(&app);
    assert!(session.on_ping_due(100).is_none(), "nothing may be forwarded before authentication");
    let created = event(SessionEventMsg::SessionCreated { word_id: "eagle".to_string() });
    assert!(session.forward(&created).is_none());
}

#[test]
fn invalid_token_result_is_flushed_before_close() {
    let mut app = ServerApp::new("tok".to_string());
    let mut session = fresh_session(&app);
    let r = session.on_frame(
        &mut app,
        10,
        Ok(auth_request("wrong", negotiation(false))),
        at(1),
        nonce(),
    );
    assert_eq!(ending_of(r.flow), Some(Ending::Flush));
    assert!(matches!(
        only(r.replies),
        ServerMessage::AuthResult(a) if !a.success && a.reason.as_deref() == Some("invalid token")
    ));
}

#[test]
fn a_silent_unauthenticated_connection_is_closed_at_the_auth_deadline() {
    let app = ServerApp::new("tok".to_string());
    let session = fresh_session(&app);
    assert_eq!(session.verdict(AUTH_DEADLINE_MS), Verdict::Keep);
    assert_eq!(
        session.verdict(AUTH_DEADLINE_MS + 1),
        Verdict::Close(CloseReason::AuthDeadline)
    );
}

#[test]
fn write_outbound_writes_each_frame_in_order_and_counts_it() {
    let app = ServerApp::new("tok".to_string());
    let mut session = fresh_session(&app);
    let payload_len = 6;
    session.on_frame_written(payload_len, 5 + payload_len);
    session.on_frame_written(payload_len, 5 + payload_len);
    assert_eq!(session.state.metrics.msgs_out, 2);
    assert_eq!(session.state.metrics.bytes_out, 2 * (5 + payload_len as u64));
    assert_eq!(session.state.metrics.bytes_out_uncompressed, 2 * (5 + payload_len as u64));
}

#[test]
fn an_authenticated_client_that_never_answers_a_ping_is_closed() {
    let mut app = ServerApp::new("tok".to_string());
    let mut session = fresh_session(&app);
    log_in(&mut app, &mut session);
    assert!(matches!(session.on_ping_due(5_000), Some(ServerMessage::Ping { seq: 0 })));
    assert!(matches!(session.on_ping_due(10_000), Some(ServerMessage::Ping { seq: 1 })));
    assert_eq!(session.verdict(5_000 + PONG_DEADLINE_MS), Verdict::Keep);
    assert_eq!(
        session.verdict(5_001 + PONG_DEADLINE_MS),
        Verdict::Close(CloseReason::PongDeadline)
    );
    session.end(&mut app);
    assert_eq!(app.connection_count(), 0);
}

#[test]
fn forward_vt_event_drops_only_flood_prone_events_under_congestion() {
    let mut app = ServerApp::new("tok".to_string());
    let mut session = fresh_session(&app);
    log_in(&mut app, &mut session);
    let pane_id = "eagle/0".to_string();
    let bell = event(SessionEventMsg::PaneBell { pane_id: pane_id.clone() });
    let title =
        event(SessionEventMsg::PaneTitleChanged { pane_id: pane_id.clone(), title: "t".to_string() });
    assert!(is_lossy_vt_event(&bell) && is_lossy_vt_event(&title));
    assert_eq!(session.forward(&bell), Some(Lane::Data), "a bell and a title are dropped");
    assert_eq!(session.forward(&title), Some(Lane::Data));
    let closed = event(SessionEventMsg::PaneClosed { pane_id });
    assert_eq!(session.forward(&closed), Some(Lane::Control), "a lifecycle event is control");
}

#[test]
fn a_frame_that_cannot_be_decoded_is_answered() {
    let mut app = ServerApp::new("tok".to_string());
    let mut session = fresh_session(&app);
    let r = session.on_frame(&mut app, 10, Err("bad tag".to_string()), at(1), nonce());
    let (_, code, _) = only_error(r.replies);
    assert_eq!(code, ErrorCode::InvalidMessage);
    assert_eq!(session.state.metrics.msgs_in, 1);
}

#[test]
fn an_ended_connection_leaves_every_pane() {
    let (mut app, _) = app_with_one_session();
    let mut session = fresh_session(&app);
    log_in(&mut app, &mut session);
    let attach = ClientMessage::Attach {
        pane_id: "eagle/0".to_string(),
        last_seqno: None,
        size: TermSize::default(),
    };
    session.on_frame(&mut app, 10, Ok(attach), at(3), nonce());
    assert_eq!(app.sessions[0].panes[0].clients.len(), 1);
    session.end(&mut app);
    assert!(app.sessions[0].panes[0].clients.is_empty());
    assert_eq!(app.connection_count(), 1);
}
