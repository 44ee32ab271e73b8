//! What clients and the daemon say to each other.

use crate::app::clients::{ClientInfo, ClientInfoView};
use crate::events::{EventView, SessionEventMsg};
use crate::layout::{LayoutNode, SplitDir, Tree};
use crate::protocol::{
    AttentionKind, ClientCapabilities, ClientId, ClosedEntryView, ClosedSessionEntry, ConnectionId,
    ErrorCode, KeyEvent, PaneInfo, PaneInfoView, SequenceNo, SessionEntry, SessionEntryView,
    TabInfo, TabView, TermSize,
};
use crate::terminal::CellState;
use crate::text::{decimal, decimal_text, text_option, views};
use vstd::prelude::*;
use vstd::string::StringExecFns;

verus! {

/// What to run in a new pane.
#[derive(Debug)]
pub struct Spawn {
    /// Program to run; none = the default shell.
    pub program: Option<String>,
    pub args: Vec<String>,
    pub size: TermSize,
}

pub struct SpawnView {
    pub program: Option<Seq<char>>,
    pub args: Seq<Seq<char>>,
    pub size: TermSize,
}

impl View for Spawn {
    type V = SpawnView;

    open spec fn view(&self) -> SpawnView {
        SpawnView {
            program: text_option(self.program),
            args: views(self.args@),
            size: self.size,
        }
    }
}

/// What the two sides of a connection agreed on.
#[derive(Debug)]
pub struct Negotiation {
    /// The protocol versions that the client speaks, and those that the daemon speaks.
    pub client_range: String,
    pub server_range: String,
    /// The version to speak; none where there is no common one.
    pub version: Option<String>,
    /// Optional features that both sides know.
    pub capabilities: Vec<String>,
    /// Compressed frames are among these features.
    pub frame_zstd: bool,
}

pub struct NegotiationView {
    pub client_range: Seq<char>,
    pub server_range: Seq<char>,
    pub version: Option<Seq<char>>,
    pub capabilities: Seq<Seq<char>>,
    pub frame_zstd: bool,
}

impl View for Negotiation {
    type V = NegotiationView;

    open spec fn view(&self) -> NegotiationView {
        NegotiationView {
            client_range: self.client_range@,
            server_range: self.server_range@,
            version: text_option(self.version),
            capabilities: views(self.capabilities@),
            frame_zstd: self.frame_zstd,
        }
    }
}

/// A client's request to be let in.
#[derive(Debug)]
pub struct AuthRequest {
    pub token: String,
    pub negotiation: Negotiation,
    pub capabilities: ClientCapabilities,
    /// A connection to resume.
    pub connection_id: Option<ConnectionId>,
    pub public_key: Vec<u8>,
    pub hostname: String,
    pub username: String,
    pub client_kind: String,
    pub client_git_sha: String,
    pub client_git_dirty: bool,
    pub client_build_profile: String,
}

/// A daemon that sessions can be proxied from.
#[derive(Debug)]
pub struct PeerTarget {
    pub host: String,
    pub port: u16,
    pub token: String,
    pub accept_invalid_certs: bool,
}

pub struct TargetView {
    pub host: Seq<char>,
    pub port: u16,
    pub token: Seq<char>,
    pub accept_invalid_certs: bool,
}

impl View for PeerTarget {
    type V = TargetView;

    open spec fn view(&self) -> TargetView {
        TargetView {
            host: self.host@,
            port: self.port,
            token: self.token@,
            accept_invalid_certs: self.accept_invalid_certs,
        }
    }
}

/// The name of the peer at an address.
pub open spec fn peer_name(host: Seq<char>, port: u16) -> Seq<char> {
    host + ":"@ + decimal_text(port as nat)
}

impl PeerTarget {
    /// The peer's name: its host and port.
    pub fn peer_id(&self) -> (r: String)
        ensures
            r@ == peer_name(self.host@, self.port),
    {
        let mut r = self.host.clone();
        r.append(":");
        let port = decimal(self.port as u64);
        r.append(port.as_str());
        r
    }
}

/// A message from a client.
#[derive(Debug)]
pub enum ClientMessage {
    Auth(AuthRequest),
    AuthProof { signature: Vec<u8> },
    /// The new channel of a connection that switches transports is in use.
    ChannelReady,
    SessionCreate {
        request_id: u64,
        name: Option<String>,
        cwd: Option<String>,
        spawn: Spawn,
        peer: Option<String>,
    },
    SessionClose { request_id: u64, word_id: String },
    PaneCreate { request_id: u64, word_id: String, spawn: Spawn },
    PaneClose { request_id: u64, pane_id: String },
    TabCreate { request_id: u64, word_id: String, spawn: Spawn },
    TabClose { request_id: u64, word_id: String, tab_index: u32 },
    TabRename { request_id: u64, word_id: String, tab_index: u32, new_name: String },
    TabReorder { word_id: String, tab_index: u32, new_position: u32 },
    PaneSplit {
        request_id: u64,
        word_id: String,
        tab_index: u32,
        from_pane: u32,
        dir: SplitDir,
        spawn: Spawn,
    },
    PaneSwap { word_id: String, tab_index: u32, a: u32, b: u32 },
    SetLayoutRatios { word_id: String, tab_index: u32, path: Vec<u32>, ratios: Vec<u16> },
    /// Arrange a tab's panes by a scheme of this name.
    ApplyLayoutScheme { word_id: String, tab_index: u32, scheme: String },
    SetFocus { word_id: String, tab_index: u32, pane_index: u32 },
    SessionList { request_id: u64 },
    SessionListClosed { request_id: u64 },
    SessionRestore { request_id: u64, word_id: String },
    ProcessOverview { request_id: u64 },
    FetchLogs { request_id: u64, lines: Option<u32>, follow: bool },
    PtyInput { pane_id: String, data: Vec<u8> },
    PtyPaste { pane_id: String, data: String },
    PtyKeyBatch { pane_id: String, events: Vec<KeyEvent> },
    Resize { pane_id: String, size: TermSize },
    Attach { pane_id: String, last_seqno: Option<SequenceNo>, size: TermSize },
    Detach { pane_id: String },
    Signal { pane_id: String, signal: i32 },
    RequestInputLock { pane_id: String },
    ReleaseInputLock { pane_id: String },
    SessionRename { request_id: u64, word_id: String, new_name: String },
    SetSnapshotMode { enabled: bool },
    SetPaused { paused: bool, auto: bool },
    SetPaneNoAutoPause { pane_id: String, exempt: bool },
    FetchHistory { request_id: u64, pane_id: String, start_index: u64, count: u32 },
    ListDirectory { request_id: u64, path: String },
    OpenPeer { request_id: u64, target: PeerTarget },
    ClosePeer { request_id: u64, peer: String },
    ClientList { request_id: u64, word_id: String },
    KickClient { request_id: u64, word_id: String, client_id: ClientId },
    Notify { request_id: u64, pane_id: String, kind: AttentionKind, title: String, body: String },
    Ping { seq: u64 },
    Pong { seq: u64 },
}

/// Compression of outgoing frames.
#[derive(Clone, Copy, Debug, PartialEq, Eq, Structural)]
pub enum Compression {
    Zstd,
}

/// The daemon's answer to a client that wants to be let in.
#[derive(Debug)]
pub struct AuthAnswer {
    pub success: bool,
    pub reason: Option<String>,
    pub client_id: Option<ClientId>,
    pub server_version: Option<String>,
    pub connection_id: Option<ConnectionId>,
    pub compression: Option<Compression>,
    pub machine_id: Option<String>,
    pub label: Option<String>,
    pub server_machine_id: Option<String>,
    pub negotiated_protocol: Option<String>,
    pub negotiated_capabilities: Vec<String>,
}

pub struct AuthAnswerView {
    pub success: bool,
    pub reason: Option<Seq<char>>,
    pub client_id: Option<ClientId>,
    pub server_version: Option<Seq<char>>,
    pub connection_id: Option<ConnectionId>,
    pub compression: Option<Compression>,
    pub machine_id: Option<Seq<char>>,
    pub label: Option<Seq<char>>,
    pub server_machine_id: Option<Seq<char>>,
    pub negotiated_protocol: Option<Seq<char>>,
    pub negotiated_capabilities: Seq<Seq<char>>,
}

impl View for AuthAnswer {
    type V = AuthAnswerView;

    open spec fn view(&self) -> AuthAnswerView {
        AuthAnswerView {
            success: self.success,
            reason: text_option(self.reason),
            client_id: self.client_id,
            server_version: text_option(self.server_version),
            connection_id: self.connection_id,
            compression: self.compression,
            machine_id: text_option(self.machine_id),
            label: text_option(self.label),
            server_machine_id: text_option(self.server_machine_id),
            negotiated_protocol: text_option(self.negotiated_protocol),
            negotiated_capabilities: views(self.negotiated_capabilities@),
        }
    }
}

/// The processes of one pane.
#[derive(Debug)]
pub struct PaneProcesses {
    pub pane_id: String,
    pub root_pid: Option<i32>,
    pub pids: Vec<i32>,
}

pub struct ProcessesView {
    pub pane_id: Seq<char>,
    pub root_pid: Option<i32>,
    pub pids: Seq<i32>,
}

impl View for PaneProcesses {
    type V = ProcessesView;

    open spec fn view(&self) -> ProcessesView {
        ProcessesView { pane_id: self.pane_id@, root_pid: self.root_pid, pids: self.pids@ }
    }
}

/// One entry of a directory.
#[derive(Debug)]
pub struct DirEntry {
    pub name: String,
    pub is_dir: bool,
}

pub struct DirEntryView {
    pub name: Seq<char>,
    pub is_dir: bool,
}

impl View for DirEntry {
    type V = DirEntryView;

    open spec fn view(&self) -> DirEntryView {
        DirEntryView { name: self.name@, is_dir: self.is_dir }
    }
}

/// A message to a client. What a pane's screen shows is filled in by whoever sends it: a snapshot
/// of the whole screen, or the diff of a sequence number.
#[derive(Debug)]
pub enum ServerMessage {
    AuthChallenge { nonce: Vec<u8> },
    AuthResult(AuthAnswer),
    ChannelSwitched { old_transport: String },
    SessionCreated { request_id: u64, entry: SessionEntry },
    SessionClosed { request_id: u64, word_id: String, exit_code: Option<i32> },
    SessionRenamed { word_id: String, new_name: String },
    SessionListResult { request_id: u64, sessions: Vec<SessionEntry> },
    ClosedSessionListResult { request_id: u64, sessions: Vec<ClosedSessionEntry> },
    PaneCreated { request_id: u64, pane_id: String, session_word_id: String, size: TermSize },
    PaneClosed { request_id: u64, pane_id: String, exit_code: Option<i32> },
    PaneSplit {
        request_id: u64,
        word_id: String,
        tab_index: u32,
        new_pane: PaneInfo,
        layout: LayoutNode,
    },
    TabCreated { request_id: u64, word_id: String, tab: TabInfo },
    TabClosed { request_id: u64, word_id: String, tab_index: u32 },
    LayoutUpdate { word_id: String, tab_index: u32, layout: LayoutNode, focused_pane: u32 },
    ProcessOverviewResult { request_id: u64, panes: Vec<PaneProcesses> },
    LogChunk { request_id: u64, data: Vec<u8> },
    LogEnd { request_id: u64 },
    InputLockGranted { pane_id: String },
    InputLockDenied { pane_id: String, holder: ClientId },
    InputLockReleased { pane_id: String },
    HistoryLines {
        request_id: u64,
        pane_id: String,
        first_index: u64,
        lines: Vec<Vec<CellState>>,
        history_total: u64,
        sent_at_ms: u64,
    },
    DirectoryListing {
        request_id: u64,
        path: String,
        parent: Option<String>,
        entries: Vec<DirEntry>,
        error: Option<String>,
    },
    PeerOpened { request_id: u64, peer: String },
    PeerClosed { request_id: u64, peer: String },
    PeerError { request_id: u64, peer: Option<String>, reason: String },
    ClientListResult { request_id: u64, word_id: String, clients: Vec<ClientInfo> },
    ClientKicked { request_id: u64, word_id: String, client_id: ClientId },
    SessionKicked { word_id: String, by_label: String },
    NotifyAccepted { request_id: u64 },
    TerminalSnapshot { pane_id: String, seqno: SequenceNo, sent_at_ms: u64 },
    TerminalUpdate { pane_id: String, seqno: SequenceNo, sent_at_ms: u64 },
    /// Whatever the client has of the pane is void.
    SyncReset { pane_id: String },
    Event { event: SessionEventMsg },
    Error { request_id: Option<u64>, code: ErrorCode, message: String },
    Ping { seq: u64 },
    Pong { seq: u64 },
}

pub enum MsgView {
    AuthChallenge(Seq<u8>),
    AuthResult(AuthAnswerView),
    ChannelSwitched(Seq<char>),
    SessionCreated(u64, SessionEntryView),
    SessionClosed(u64, Seq<char>, Option<i32>),
    SessionRenamed(Seq<char>, Seq<char>),
    SessionListResult(u64, Seq<SessionEntryView>),
    ClosedSessionListResult(u64, Seq<ClosedEntryView>),
    PaneCreated(u64, Seq<char>, Seq<char>, TermSize),
    PaneClosed(u64, Seq<char>, Option<i32>),
    PaneSplit(u64, Seq<char>, u32, PaneInfoView, Tree),
    TabCreated(u64, Seq<char>, TabView),
    TabClosed(u64, Seq<char>, u32),
    LayoutUpdate(Seq<char>, u32, Tree, u32),
    ProcessOverviewResult(u64, Seq<ProcessesView>),
    LogChunk(u64, Seq<u8>),
    LogEnd(u64),
    InputLockGranted(Seq<char>),
    InputLockDenied(Seq<char>, ClientId),
    InputLockReleased(Seq<char>),
    HistoryLines(u64, Seq<char>, u64, Seq<Seq<CellState>>, u64, u64),
    DirectoryListing(u64, Seq<char>, Option<Seq<char>>, Seq<DirEntryView>, Option<Seq<char>>),
    PeerOpened(u64, Seq<char>),
    PeerClosed(u64, Seq<char>),
    PeerError(u64, Option<Seq<char>>, Seq<char>),
    ClientListResult(u64, Seq<char>, Seq<ClientInfoView>),
    ClientKicked(u64, Seq<char>, ClientId),
    SessionKicked(Seq<char>, Seq<char>),
    NotifyAccepted(u64),
    TerminalSnapshot(Seq<char>, SequenceNo, u64),
    TerminalUpdate(Seq<char>, SequenceNo, u64),
    SyncReset(Seq<char>),
    Event(EventView),
    Error(Option<u64>, ErrorCode, Seq<char>),
    Ping(u64),
    Pong(u64),
}

impl View for ServerMessage {
    type V = MsgView;

    open spec fn view(&self) -> MsgView {
        match self {
            ServerMessage::AuthChallenge { nonce } => MsgView::AuthChallenge(nonce@),
            ServerMessage::AuthResult(a) => MsgView::AuthResult(a@),
            ServerMessage::ChannelSwitched { old_transport } => MsgView::ChannelSwitched(
                old_transport@,
            ),
            ServerMessage::SessionCreated { request_id, entry } => MsgView::SessionCreated(
                *request_id,
                entry@,
            ),
            ServerMessage::SessionClosed { request_id, word_id, exit_code } =>
                MsgView::SessionClosed(*request_id, word_id@, *exit_code),
            ServerMessage::SessionRenamed { word_id, new_name } => MsgView::SessionRenamed(
                word_id@,
                new_name@,
            ),
            ServerMessage::SessionListResult { request_id, sessions } =>
                MsgView::SessionListResult(*request_id, views(sessions@)),
            ServerMessage::ClosedSessionListResult { request_id, sessions } =>
                MsgView::ClosedSessionListResult(*request_id, views(sessions@)),
            ServerMessage::PaneCreated { request_id, pane_id, session_word_id, size } =>
                MsgView::PaneCreated(*request_id, pane_id@, session_word_id@, *size),
            ServerMessage::PaneClosed { request_id, pane_id, exit_code } => MsgView::PaneClosed(
                *request_id,
                pane_id@,
                *exit_code,
            ),
            ServerMessage::PaneSplit { request_id, word_id, tab_index, new_pane, layout } =>
                MsgView::PaneSplit(*request_id, word_id@, *tab_index, new_pane@, layout@),
            ServerMessage::TabCreated { request_id, word_id, tab } => MsgView::TabCreated(
                *request_id,
                word_id@,
                tab@,
            ),
            ServerMessage::TabClosed { request_id, word_id, tab_index } => MsgView::TabClosed(
                *request_id,
                word_id@,
                *tab_index,
            ),
            ServerMessage::LayoutUpdate { word_id, tab_index, layout, focused_pane } =>
                MsgView::LayoutUpdate(word_id@, *tab_index, layout@, *focused_pane),
            ServerMessage::ProcessOverviewResult { request_id, panes } =>
                MsgView::ProcessOverviewResult(*request_id, views(panes@)),
            ServerMessage::LogChunk { request_id, data } => MsgView::LogChunk(*request_id, data@),
            ServerMessage::LogEnd { request_id } => MsgView::LogEnd(*request_id),
            ServerMessage::InputLockGranted { pane_id } => MsgView::InputLockGranted(pane_id@),
            ServerMessage::InputLockDenied { pane_id, holder } => MsgView::InputLockDenied(
                pane_id@,
                *holder,
            ),
            ServerMessage::InputLockReleased { pane_id } => MsgView::InputLockReleased(pane_id@),
            ServerMessage::HistoryLines {
                request_id,
                pane_id,
                first_index,
                lines,
                history_total,
                sent_at_ms,
            } => MsgView::HistoryLines(
                *request_id,
                pane_id@,
                *first_index,
                views(lines@),
                *history_total,
                *sent_at_ms,
            ),
            ServerMessage::DirectoryListing { request_id, path, parent, entries, error } =>
                MsgView::DirectoryListing(
                *request_id,
                path@,
                text_option(*parent),
                views(entries@),
                text_option(*error),
            ),
            ServerMessage::PeerOpened { request_id, peer } => MsgView::PeerOpened(
                *request_id,
                peer@,
            ),
            ServerMessage::PeerClosed { request_id, peer } => MsgView::PeerClosed(
                *request_id,
                peer@,
            ),
            ServerMessage::PeerError { request_id, peer, reason } => MsgView::PeerError(
                *request_id,
                text_option(*peer),
                reason@,
            ),
            ServerMessage::ClientListResult { request_id, word_id, clients } =>
                MsgView::ClientListResult(*request_id, word_id@, views(clients@)),
            ServerMessage::ClientKicked { request_id, word_id, client_id } =>
                MsgView::ClientKicked(*request_id, word_id@, *client_id),
            ServerMessage::SessionKicked { word_id, by_label } => MsgView::SessionKicked(
                word_id@,
                by_label@,
            ),
            ServerMessage::NotifyAccepted { request_id } => MsgView::NotifyAccepted(*request_id),
            ServerMessage::TerminalSnapshot { pane_id, seqno, sent_at_ms } =>
                MsgView::TerminalSnapshot(pane_id@, *seqno, *sent_at_ms),
            ServerMessage::TerminalUpdate { pane_id, seqno, sent_at_ms } =>
                MsgView::TerminalUpdate(pane_id@, *seqno, *sent_at_ms),
            ServerMessage::SyncReset { pane_id } => MsgView::SyncReset(pane_id@),
            ServerMessage::Event { event } => MsgView::Event(event@),
            ServerMessage::Error { request_id, code, message } => MsgView::Error(
                *request_id,
                *code,
                message@,
            ),
            ServerMessage::Ping { seq } => MsgView::Ping(*seq),
            ServerMessage::Pong { seq } => MsgView::Pong(*seq),
        }
    }
}

} // verus!
