//! The client-message router. Each message of a connected client changes the daemon's and the
//! connection's state and says what is to be sent, and to whom; what only the system can do is
//! handed back as work, and its result comes in through a function of its own.

use crate::app::attach::{pause_setting, snapshot_setting};
use crate::app::clients::Clock;
use crate::app::recover::all_pane_ids;
use crate::app::{AppView, ServerApp};
use crate::connection::ConnectionMetrics;
use crate::config::TransportKind;
use crate::dispatch::peer::{CommandView, PeerCommand};
use crate::layout::SplitDir;
use crate::list::{group_views, lemma_first_where_is, lemma_first_where_none};
use crate::messages::{
    peer_name, ClientMessage, MsgView, Negotiation, NegotiationView, PeerTarget, ServerMessage,
    Spawn, SpawnView, TargetView,
};
use crate::pane::{notice_view, AttachResult, InputView, ReplayView, ResizeNotice, ResizeView};
use crate::protocol::{
    classify_error, ClientCapabilities, ClientId, ConnectionId, ErrorCode, ErrorView, KmuxError,
    MetaView, SequenceNo, SessionMeta, TermSize,
};
use crate::session::{focusing, reweighting, trading};
use crate::text::{is_text, lemma_is_text, same_text, text_option, views, with_text, without_text};
use vstd::prelude::*;
use vstd::utf8::encode_utf8;

pub mod admission_laws;
pub mod auth;
pub mod clients;
pub mod diagnostics;
pub mod input;
pub mod laws;
pub mod layout;
pub mod pane;
pub mod peer;
pub mod report_laws;
pub mod request_laws;
pub mod routing_laws;
pub mod session;
pub mod view;
pub mod view_laws;

verus! {

/// Messages that may wait for one client.
pub const CLIENT_CHANNEL_CAPACITY: usize = 512;

/// Messages written between two flushes at most.
pub const MAX_WRITE_BATCH: usize = 256;

/// What becomes of the connection once a message has been handled.
#[derive(Clone, Copy, Debug, PartialEq, Eq, Structural)]
pub enum Flow {
    /// Keep reading.
    Continue,
    /// Close the connection. Only the handshake has grounds for this.
    Close,
}

impl Flow {
    /// Whether to go on reading.
    pub fn keep_reading(self) -> (r: bool)
        ensures
            r == (self == Flow::Continue),
    {
        match self {
            Flow::Continue => true,
            Flow::Close => false,
        }
    }
}

/// How to compress an outgoing frame.
#[derive(Clone, Copy, Debug, PartialEq, Eq, Structural)]
pub enum Compressor {
    Off,
    Zstd { level: i32, min_size: usize },
}

/// Compression of a connection's outgoing frames: off until the daemon decides.
#[derive(Clone, Copy, Debug, PartialEq, Eq, Structural)]
pub struct OutboundCompression {
    pub enabled: bool,
    pub level: i32,
    pub min_size: usize,
}

impl OutboundCompression {
    pub fn new(level: i32, min_size: usize) -> (r: Self)
        ensures
            r == (OutboundCompression { enabled: false, level, min_size }),
    {
        OutboundCompression { enabled: false, level, min_size }
    }

    /// Switch compression of later frames on or off.
    pub fn set_enabled(&mut self, on: bool)
        ensures
            *final(self) == (OutboundCompression { enabled: on, ..*old(self) }),
    {
        self.enabled = on;
    }

    /// How to compress the next frame.
    pub fn compressor(&self) -> (r: Compressor)
        ensures
            r == if self.enabled {
                Compressor::Zstd { level: self.level, min_size: self.min_size }
            } else {
                Compressor::Off
            },
    {
        if self.enabled {
            Compressor::Zstd { level: self.level, min_size: self.min_size }
        } else {
            Compressor::Off
        }
    }
}

// ─── The connection's state ──────────────────────────────────────────────────

/// What is kept between a client's request to be let in and its proof of identity.
#[derive(Debug)]
pub struct PendingAuth {
    /// What the client has to sign.
    pub nonce: Vec<u8>,
    pub public_key: Vec<u8>,
    pub hostname: String,
    pub username: String,
    pub capabilities: ClientCapabilities,
    pub negotiation: Negotiation,
    pub connection_id: Option<ConnectionId>,
    pub client_kind: String,
    pub client_git_sha: String,
    pub client_git_dirty: bool,
    pub client_build_profile: String,
}

pub struct PendingView {
    pub nonce: Seq<u8>,
    pub public_key: Seq<u8>,
    pub hostname: Seq<char>,
    pub username: Seq<char>,
    pub capabilities: ClientCapabilities,
    pub negotiation: NegotiationView,
    pub connection_id: Option<ConnectionId>,
    pub client_kind: Seq<char>,
    pub client_git_sha: Seq<char>,
    pub client_git_dirty: bool,
    pub client_build_profile: Seq<char>,
}

impl View for PendingAuth {
    type V = PendingView;

    open spec fn view(&self) -> PendingView {
        PendingView {
            nonce: self.nonce@,
            public_key: self.public_key@,
            hostname: self.hostname@,
            username: self.username@,
            capabilities: self.capabilities,
            negotiation: self.negotiation@,
            connection_id: self.connection_id,
            client_kind: self.client_kind@,
            client_git_sha: self.client_git_sha@,
            client_git_dirty: self.client_git_dirty,
            client_build_profile: self.client_build_profile@,
        }
    }
}

/// State of one connection, whatever its transport.
#[derive(Debug)]
pub struct SharedClientState {
    pub authenticated: bool,
    pub client_id: Option<ClientId>,
    pub connection_id: Option<ConnectionId>,
    pub capabilities: ClientCapabilities,
    pub pending_auth: Option<PendingAuth>,
    /// The client's verified identity.
    pub machine_id: Option<String>,
    /// The name the daemon gave the connection.
    pub label: Option<String>,
    /// Panes whose output is being forwarded.
    pub attached: Vec<String>,
    pub transport: TransportKind,
    pub metrics: ConnectionMetrics,
    pub comp_out: OutboundCompression,
    /// The transport that carried the connection before it switched.
    pub pending_swap_from: Option<TransportKind>,
}

pub struct ClientView {
    pub authenticated: bool,
    pub client_id: Option<ClientId>,
    pub connection_id: Option<ConnectionId>,
    pub capabilities: ClientCapabilities,
    pub pending_auth: Option<PendingView>,
    pub machine_id: Option<Seq<char>>,
    pub label: Option<Seq<char>>,
    pub attached: Seq<Seq<char>>,
    pub transport: TransportKind,
    pub metrics: ConnectionMetrics,
    pub comp_out: OutboundCompression,
    pub pending_swap_from: Option<TransportKind>,
}

/// The model of what is kept between request and proof.
pub open spec fn pending_view(p: Option<PendingAuth>) -> Option<PendingView> {
    match p {
        Some(q) => Some(q@),
        None => None,
    }
}

impl View for SharedClientState {
    type V = ClientView;

    open spec fn view(&self) -> ClientView {
        ClientView {
            authenticated: self.authenticated,
            client_id: self.client_id,
            connection_id: self.connection_id,
            capabilities: self.capabilities,
            pending_auth: pending_view(self.pending_auth),
            machine_id: text_option(self.machine_id),
            label: text_option(self.label),
            attached: views(self.attached@),
            transport: self.transport,
            metrics: self.metrics,
            comp_out: self.comp_out,
            pending_swap_from: self.pending_swap_from,
        }
    }
}

impl ClientView {
    /// What holds between messages: an authenticated connection has a client id, and no pane is
    /// listed twice.
    pub open spec fn wf(self) -> bool {
        &&& self.authenticated ==> self.client_id is Some
        &&& self.attached.no_duplicates()
    }

    /// A client that is let in, with its id.
    pub open spec fn id(self) -> ClientId {
        match self.client_id {
            Some(id) => id,
            None => ClientId(0),
        }
    }
}

// ─── What a message leads to ─────────────────────────────────────────────────

/// What a new pane is for.
#[derive(Debug)]
pub enum SpawnPurpose {
    /// The first pane of a session.
    Session { request_id: u64, meta: SessionMeta },
    /// A pane in a new tab, asked for as a pane.
    Pane { request_id: u64, word_id: String, tab_index: u32 },
    /// A pane in a new tab, asked for as a tab.
    Tab { request_id: u64, word_id: String, tab_index: u32 },
    /// A pane beside another one.
    Split { request_id: u64, word_id: String, tab_index: u32, from_pane: u32, dir: SplitDir },
}

pub enum PurposeView {
    Session(u64, MetaView),
    Pane(u64, Seq<char>, u32),
    Tab(u64, Seq<char>, u32),
    Split(u64, Seq<char>, u32, u32, SplitDir),
}

impl View for SpawnPurpose {
    type V = PurposeView;

    open spec fn view(&self) -> PurposeView {
        match self {
            SpawnPurpose::Session { request_id, meta } => PurposeView::Session(*request_id, meta@),
            SpawnPurpose::Pane { request_id, word_id, tab_index } => PurposeView::Pane(
                *request_id,
                word_id@,
                *tab_index,
            ),
            SpawnPurpose::Tab { request_id, word_id, tab_index } => PurposeView::Tab(
                *request_id,
                word_id@,
                *tab_index,
            ),
            SpawnPurpose::Split { request_id, word_id, tab_index, from_pane, dir } =>
                PurposeView::Split(*request_id, word_id@, *tab_index, *from_pane, *dir),
        }
    }
}

/// What only the system can do.
#[derive(Debug)]
pub enum Work {
    /// Verify a signature of the nonce.
    VerifyProof { public_key: Vec<u8>, nonce: Vec<u8>, signature: Vec<u8> },
    /// Draw a word and resolve the directory for a new session.
    PrepareSession { request_id: u64, name: Option<String>, cwd: Option<String>, spawn: Spawn },
    /// Create a session on a connected peer.
    CreateRemote {
        request_id: u64,
        peer: String,
        name: Option<String>,
        cwd: Option<String>,
        spawn: Spawn,
    },
    /// Start a process for the pane of an index.
    SpawnPane { purpose: SpawnPurpose, pane_index: u32, spawn: Spawn },
    /// Capture the panes of a session that is to be closed.
    CaptureSession { request_id: u64, word_id: String },
    /// Close a pane's process.
    ClosePane { request_id: u64, pane_id: String },
    /// Start the processes of a closed session's panes.
    RestorePanes { request_id: u64, word_id: String },
    /// Forward a pane's output.
    StartStream { pane_id: String, replay: AttachResult },
    /// Look up the process of a pane that a signal is for.
    SendSignal { pane_id: String, signal: i32 },
    /// Send a signal to a pane's process.
    DeliverSignal { pane_id: String, signal: i32 },
    /// Close the processes of some panes, without waiting.
    EndPanes { pane_ids: Vec<String> },
    /// Read a pane's history.
    ReadHistory { request_id: u64, pane_id: String, start_index: u64, count: u32 },
    /// Read the daemon's log.
    ReadLog { request_id: u64, lines: Option<u32>, follow: bool },
    /// Look at the log from its present end on, again and again.
    FollowLog { request_id: u64 },
    /// Read a directory.
    ReadDirectory { request_id: u64, path: String },
    /// List the processes of some panes, and ask every peer for those of its own.
    ListProcesses { request_id: u64, pane_ids: Vec<String> },
    /// Arrange a tab's panes by a scheme.
    ArrangeTab { word_id: String, tab_index: u32, scheme: String, leaves: Vec<u32> },
    /// Connect to a peer.
    ConnectPeer { request_id: u64, target: PeerTarget, peer: String },
    /// Ask the peer that hosts a pane.
    Forward { pane_id: String, command: PeerCommand },
    /// Have a client view a peer's pane, and forward its output. Nothing is replayed.
    ViewProxied {
        pane_id: String,
        client_id: ClientId,
        last_seqno: Option<SequenceNo>,
        size: TermSize,
    },
    /// Tell the peer that hosts a pane the size a client shows it in.
    ResizeProxied { pane_id: String, client_id: ClientId, size: TermSize },
    /// Pause or resume what a client is shown of peers' panes.
    PauseProxied { client_id: ClientId, paused: bool, auto: bool },
    /// Exempt a peer's pane from a client's automatic pauses, or no longer.
    ExemptProxied { client_id: ClientId, pane_id: String, exempt: bool },
    /// List the clients of a session that a peer hosts.
    ListRemoteClients { request_id: u64, word_id: String },
    /// Send a client away from a session that a peer hosts.
    KickRemote { request_id: u64, word_id: String, client_id: ClientId },
}

pub enum WorkView {
    VerifyProof(Seq<u8>, Seq<u8>, Seq<u8>),
    PrepareSession(u64, Option<Seq<char>>, Option<Seq<char>>, SpawnView),
    CreateRemote(u64, Seq<char>, Option<Seq<char>>, Option<Seq<char>>, SpawnView),
    SpawnPane(PurposeView, u32, SpawnView),
    CaptureSession(u64, Seq<char>),
    ClosePane(u64, Seq<char>),
    RestorePanes(u64, Seq<char>),
    StartStream(Seq<char>, ReplayView),
    SendSignal(Seq<char>, i32),
    DeliverSignal(Seq<char>, i32),
    EndPanes(Seq<Seq<char>>),
    ReadHistory(u64, Seq<char>, u64, u32),
    ReadLog(u64, Option<u32>, bool),
    FollowLog(u64),
    ReadDirectory(u64, Seq<char>),
    ListProcesses(u64, Seq<Seq<char>>),
    ArrangeTab(Seq<char>, u32, Seq<char>, Seq<u32>),
    ConnectPeer(u64, TargetView, Seq<char>),
    Forward(Seq<char>, CommandView),
    ViewProxied(Seq<char>, ClientId, Option<SequenceNo>, TermSize),
    ResizeProxied(Seq<char>, ClientId, TermSize),
    PauseProxied(ClientId, bool, bool),
    ExemptProxied(ClientId, Seq<char>, bool),
    ListRemoteClients(u64, Seq<char>),
    KickRemote(u64, Seq<char>, ClientId),
}

impl View for Work {
    type V = WorkView;

    open spec fn view(&self) -> WorkView {
        match self {
            Work::VerifyProof { public_key, nonce, signature } => WorkView::VerifyProof(
                public_key@,
                nonce@,
                signature@,
            ),
            Work::PrepareSession { request_id, name, cwd, spawn } => WorkView::PrepareSession(
                *request_id,
                text_option(*name),
                text_option(*cwd),
                spawn@,
            ),
            Work::CreateRemote { request_id, peer, name, cwd, spawn } => WorkView::CreateRemote(
                *request_id,
                peer@,
                text_option(*name),
                text_option(*cwd),
                spawn@,
            ),
            Work::SpawnPane { purpose, pane_index, spawn } => WorkView::SpawnPane(
                purpose@,
                *pane_index,
                spawn@,
            ),
            Work::CaptureSession { request_id, word_id } => WorkView::CaptureSession(
                *request_id,
                word_id@,
            ),
            Work::ClosePane { request_id, pane_id } => WorkView::ClosePane(*request_id, pane_id@),
            Work::RestorePanes { request_id, word_id } => WorkView::RestorePanes(
                *request_id,
                word_id@,
            ),
            Work::StartStream { pane_id, replay } => WorkView::StartStream(pane_id@, replay@),
            Work::SendSignal { pane_id, signal } => WorkView::SendSignal(pane_id@, *signal),
            Work::DeliverSignal { pane_id, signal } => WorkView::DeliverSignal(pane_id@, *signal),
            Work::EndPanes { pane_ids } => WorkView::EndPanes(views(pane_ids@)),
            Work::ReadHistory { request_id, pane_id, start_index, count } => WorkView::ReadHistory(
                *request_id,
                pane_id@,
                *start_index,
                *count,
            ),
            Work::ReadLog { request_id, lines, follow } => WorkView::ReadLog(
                *request_id,
                *lines,
                *follow,
            ),
            Work::FollowLog { request_id } => WorkView::FollowLog(*request_id),
            Work::ReadDirectory { request_id, path } => WorkView::ReadDirectory(*request_id, path@),
            Work::ListProcesses { request_id, pane_ids } => WorkView::ListProcesses(
                *request_id,
                views(pane_ids@),
            ),
            Work::ArrangeTab { word_id, tab_index, scheme, leaves } => WorkView::ArrangeTab(
                word_id@,
                *tab_index,
                scheme@,
                leaves@,
            ),
            Work::ConnectPeer { request_id, target, peer } => WorkView::ConnectPeer(
                *request_id,
                target@,
                peer@,
            ),
            Work::Forward { pane_id, command } => WorkView::Forward(pane_id@, command@),
            Work::ViewProxied { pane_id, client_id, last_seqno, size } => WorkView::ViewProxied(
                pane_id@,
                *client_id,
                *last_seqno,
                *size,
            ),
            Work::ResizeProxied { pane_id, client_id, size } => WorkView::ResizeProxied(
                pane_id@,
                *client_id,
                *size,
            ),
            Work::PauseProxied { client_id, paused, auto } => WorkView::PauseProxied(
                *client_id,
                *paused,
                *auto,
            ),
            Work::ExemptProxied { client_id, pane_id, exempt } => WorkView::ExemptProxied(
                *client_id,
                pane_id@,
                *exempt,
            ),
            Work::ListRemoteClients { request_id, word_id } => WorkView::ListRemoteClients(
                *request_id,
                word_id@,
            ),
            Work::KickRemote { request_id, word_id, client_id } => WorkView::KickRemote(
                *request_id,
                word_id@,
                *client_id,
            ),
        }
    }
}

/// What a message leads to.
#[derive(Debug)]
pub struct Outcome {
    pub flow: Flow,
    /// Messages to the client that sent the message, in order.
    pub replies: Vec<ServerMessage>,
    /// Messages to every connection, in order.
    pub broadcasts: Vec<ServerMessage>,
    /// Panes that changed size, and the clients to be shown them anew.
    pub resizes: Vec<ResizeNotice>,
    /// Panes whose output is no longer forwarded to the client.
    pub stopped: Vec<String>,
    /// Peers' panes that the client does not view any more.
    pub unviewed: Vec<String>,
    /// A message to another client.
    pub told: Option<(ClientId, ServerMessage)>,
    pub work: Option<Work>,
}

pub struct OutView {
    pub flow: Flow,
    pub replies: Seq<MsgView>,
    pub broadcasts: Seq<MsgView>,
    pub resizes: Seq<ResizeView>,
    pub stopped: Seq<Seq<char>>,
    pub unviewed: Seq<Seq<char>>,
    pub told: Option<(ClientId, MsgView)>,
    pub work: Option<WorkView>,
}

impl View for Outcome {
    type V = OutView;

    open spec fn view(&self) -> OutView {
        OutView {
            flow: self.flow,
            replies: views(self.replies@),
            broadcasts: views(self.broadcasts@),
            resizes: views(self.resizes@),
            stopped: views(self.stopped@),
            unviewed: views(self.unviewed@),
            told: match self.told {
                Some((id, m)) => Some((id, m@)),
                None => None,
            },
            work: match self.work {
                Some(w) => Some(w@),
                None => None,
            },
        }
    }
}

impl OutView {
    /// Nothing at all.
    pub open spec fn nothing() -> OutView {
        OutView {
            flow: Flow::Continue,
            replies: Seq::empty(),
            broadcasts: Seq::empty(),
            resizes: Seq::empty(),
            stopped: Seq::empty(),
            unviewed: Seq::empty(),
            told: None,
            work: None,
        }
    }

    /// One message to the client.
    pub open spec fn reply(m: MsgView) -> OutView {
        OutView { replies: seq![m], ..OutView::nothing() }
    }

    /// One message to every connection.
    pub open spec fn broadcast(m: MsgView) -> OutView {
        OutView { broadcasts: seq![m], ..OutView::nothing() }
    }

    /// An error, told to the client.
    pub open spec fn error(request_id: Option<u64>, e: ErrorView) -> OutView {
        OutView::reply(MsgView::Error(request_id, e.code(), e.text()))
    }

    /// Work to be done.
    pub open spec fn needing(w: WorkView) -> OutView {
        OutView { work: Some(w), ..OutView::nothing() }
    }

    /// With one message to every connection.
    pub open spec fn and_broadcast(self, m: MsgView) -> OutView {
        OutView { broadcasts: self.broadcasts.push(m), ..self }
    }

    /// With a pane's change of size, if there is one.
    pub open spec fn and_resize(self, n: Option<ResizeView>) -> OutView {
        OutView {
            resizes: match n {
                Some(r) => self.resizes.push(r),
                None => self.resizes,
            },
            ..self
        }
    }
}

impl Outcome {
    /// Nothing at all.
    pub fn nothing() -> (r: Outcome)
        ensures
            r@ == OutView::nothing(),
    {
        let r = Outcome {
            flow: Flow::Continue,
            replies: Vec::new(),
            broadcasts: Vec::new(),
            resizes: Vec::new(),
            stopped: Vec::new(),
            unviewed: Vec::new(),
            told: None,
            work: None,
        };
        proof {
            assert(r@.replies =~= Seq::<MsgView>::empty());
            assert(r@.broadcasts =~= Seq::<MsgView>::empty());
            assert(r@.resizes =~= Seq::<ResizeView>::empty());
            assert(r@.stopped =~= Seq::<Seq<char>>::empty());
            assert(r@.unviewed =~= Seq::<Seq<char>>::empty());
        }
        r
    }

    /// One message to the client.
    pub fn reply(m: ServerMessage) -> (r: Outcome)
        ensures
            r@ == OutView::reply(m@),
    {
        broadcast use group_views;

        let mut r = Outcome::nothing();
        r.replies.push(m);
        assert(r@.replies =~= seq![m@]);
        r
    }

    /// One message to every connection.
    pub fn broadcast_only(m: ServerMessage) -> (r: Outcome)
        ensures
            r@ == OutView::broadcast(m@),
    {
        let mut r = Outcome::nothing();
        r.broadcast(m);
        assert(r@.broadcasts =~= seq![m@]);
        r
    }

    /// An error, told to the client.
    pub fn error(request_id: Option<u64>, e: &KmuxError) -> (r: Outcome)
        ensures
            r@ == OutView::error(request_id, e@),
    {
        Outcome::reply(
            ServerMessage::Error { request_id, code: classify_error(e), message: e.message() },
        )
    }

    /// An error of the router's own, told to the client.
    pub fn refusal(request_id: Option<u64>, code: ErrorCode, message: String) -> (r: Outcome)
        ensures
            r@ == OutView::reply(MsgView::Error(request_id, code, message@)),
    {
        Outcome::reply(ServerMessage::Error { request_id, code, message })
    }

    /// Work to be done.
    pub fn needing(w: Work) -> (r: Outcome)
        ensures
            r@ == OutView::needing(w@),
    {
        let mut r = Outcome::nothing();
        r.work = Some(w);
        r
    }

    /// Add a message to every connection.
    pub fn broadcast(&mut self, m: ServerMessage)
        ensures
            final(self)@ == old(self)@.and_broadcast(m@),
    {
        broadcast use group_views;

        self.broadcasts.push(m);
    }

    /// Add a pane's change of size, if there is one.
    pub fn resize(&mut self, n: Option<ResizeNotice>)
        ensures
            final(self)@ == old(self)@.and_resize(notice_view(n)),
    {
        broadcast use group_views;

        if let Some(notice) = n {
            self.resizes.push(notice);
        }
    }
}

impl AppView {
    /// The state after a client left a pane, and the pane's change of size.
    pub open spec fn left_pane(self, pane_id: Seq<char>, id: ClientId) -> (
        AppView,
        Option<ResizeView>,
    ) {
        match self.find_pane(pane_id) {
            Some((s, p)) => {
                let left = self.sessions[s].panes[p].left(id);
                (self.with_pane_at(s, p, left.fitted()), left.resize_notice(pane_id))
            },
            None => (self, None),
        }
    }
}

/// What a message does: to the daemon, to the connection, and beyond.
pub struct Step {
    pub app: AppView,
    pub client: ClientView,
    pub out: OutView,
}

impl SharedClientState {
    /// A connection that nobody authenticated yet.
    pub fn new(
        compression: &crate::config::CompressionConfig,
        transport: TransportKind,
        metrics: ConnectionMetrics,
    ) -> (r: Self)
        ensures
            r@ == (ClientView {
                authenticated: false,
                client_id: None,
                connection_id: None,
                capabilities: ClientCapabilities {
                    kitty_graphics: false,
                    kitty_keyboard: false,
                    truecolor: false,
                },
                pending_auth: None,
                machine_id: None,
                label: None,
                attached: Seq::empty(),
                transport,
                metrics,
                comp_out: OutboundCompression {
                    enabled: false,
                    level: compression.level,
                    min_size: compression.min_size,
                },
                pending_swap_from: None,
            }),
            r@.wf(),
    {
        let r = SharedClientState {
            authenticated: false,
            client_id: None,
            connection_id: None,
            capabilities: ClientCapabilities {
                kitty_graphics: false,
                kitty_keyboard: false,
                truecolor: false,
            },
            pending_auth: None,
            machine_id: None,
            label: None,
            attached: Vec::new(),
            transport,
            metrics,
            comp_out: OutboundCompression::new(compression.level, compression.min_size),
            pending_swap_from: None,
        };
        assert(r@.attached =~= Seq::<Seq<char>>::empty());
        r
    }

    /// Stop forwarding a pane's output. Returns whether it was being forwarded.
    pub fn stop_stream(&mut self, pane_id: &str) -> (r: bool)
        ensures
            r == old(self)@.attached.contains(pane_id@),
            final(self)@ == (ClientView {
                attached: without_text(old(self)@.attached, pane_id@),
                ..old(self)@
            }),
    {
        broadcast use group_views;

        proof {
            lemma_is_text(self@.attached, pane_id@);
        }
        let mut i: usize = 0;
        while i < self.attached.len()
            invariant
                0 <= i <= self.attached@.len(),
                self@ == old(self)@,
                forall|j: int| 0 <= j < i ==> !is_text(pane_id@)(#[trigger] self@.attached[j]),
            decreases self.attached@.len() - i,
        {
            assert(self@.attached[i as int] == self.attached@[i as int]@);
            if same_text(self.attached[i].as_str(), pane_id) {
                proof {
                    lemma_first_where_is(self@.attached, is_text(pane_id@), i as int);
                    lemma_is_text(self@.attached, pane_id@);
                }
                let ghost had = self@.attached;
                let _gone = self.attached.remove(i);
                assert(self@.attached =~= had.remove(i as int));
                return true;
            }
            i = i + 1;
        }
        proof {
            lemma_first_where_none(self@.attached, is_text(pane_id@));
            lemma_is_text(self@.attached, pane_id@);
        }
        false
    }

    /// A pane's output is being forwarded.
    pub fn start_stream(&mut self, pane_id: String)
        ensures
            final(self)@ == (ClientView {
                attached: with_text(old(self)@.attached, pane_id@),
                ..old(self)@
            }),
    {
        broadcast use group_views;

        if !self.is_attached(pane_id.as_str()) {
            self.attached.push(pane_id);
        }
    }

    /// Whether a pane's output is being forwarded.
    pub fn is_attached(&self, pane_id: &str) -> (r: bool)
        ensures
            r == self@.attached.contains(pane_id@),
    {
        let mut i: usize = 0;
        while i < self.attached.len()
            invariant
                0 <= i <= self.attached@.len(),
                forall|j: int| 0 <= j < i ==> #[trigger] self@.attached[j] != pane_id@,
            decreases self.attached@.len() - i,
        {
            assert(self@.attached[i as int] == self.attached@[i as int]@);
            if same_text(self.attached[i].as_str(), pane_id) {
                return true;
            }
            i = i + 1;
        }
        false
    }
}

// ─── The router ──────────────────────────────────────────────────────────────

/// A step that leaves the connection's state as it is.
pub open spec fn step_of(c: ClientView, r: (AppView, OutView)) -> Step {
    Step { app: r.0, client: c, out: r.1 }
}

/// Whether a message is about whole sessions.
pub open spec fn concerns_sessions(msg: ClientMessage) -> bool {
    ||| msg is SessionCreate
    ||| msg is SessionClose
    ||| msg is SessionList
    ||| msg is SessionListClosed
    ||| msg is SessionRestore
    ||| msg is SessionRename
}

/// What a message about sessions does.
pub open spec fn session_step(a: AppView, c: ClientView, msg: ClientMessage) -> Step {
    match msg {
        ClientMessage::SessionCreate { request_id, name, cwd, spawn, peer } => step_of(
            c,
            (
                a,
                session::create_out(
                    a,
                    request_id,
                    text_option(name),
                    text_option(cwd),
                    spawn@,
                    text_option(peer),
                ),
            ),
        ),
        ClientMessage::SessionClose { request_id, word_id } => session::close_step(
            a,
            c,
            request_id,
            word_id@,
        ),
        ClientMessage::SessionList { request_id } => step_of(
            c,
            (a, OutView::reply(MsgView::SessionListResult(request_id, a.listed() + a.proxied))),
        ),
        ClientMessage::SessionListClosed { request_id } => step_of(
            c,
            (
                a,
                OutView::reply(
                    MsgView::ClosedSessionListResult(request_id, a.closed_entries()),
                ),
            ),
        ),
        ClientMessage::SessionRestore { request_id, word_id } => step_of(
            c,
            (a, session::restore_out(a, request_id, word_id@)),
        ),
        ClientMessage::SessionRename { request_id, word_id, new_name } => step_of(
            c,
            session::rename_step(a, request_id, word_id@, new_name@),
        ),
        _ => step_of(c, (a, OutView::nothing())),
    }
}

/// Whether a message is about the tabs of a session and how their panes are laid out.
pub open spec fn concerns_tabs(msg: ClientMessage) -> bool {
    ||| msg is PaneCreate
    ||| msg is PaneClose
    ||| msg is TabCreate
    ||| msg is TabClose
    ||| msg is TabRename
    ||| msg is TabReorder
    ||| msg is PaneSplit
    ||| msg is PaneSwap
    ||| msg is SetLayoutRatios
    ||| msg is ApplyLayoutScheme
    ||| msg is SetFocus
}

/// What a message about tabs does.
pub open spec fn tab_step(a: AppView, c: ClientView, msg: ClientMessage) -> Step {
    match msg {
        ClientMessage::PaneCreate { request_id, word_id, spawn } => step_of(
            c,
            pane::tab_step(a, request_id, word_id@, spawn@, true),
        ),
        ClientMessage::PaneClose { request_id, pane_id } => pane::close_pane_step(
            a,
            c,
            request_id,
            pane_id@,
        ),
        ClientMessage::TabCreate { request_id, word_id, spawn } => step_of(
            c,
            pane::tab_step(a, request_id, word_id@, spawn@, false),
        ),
        ClientMessage::TabClose { request_id, word_id, tab_index } => step_of(
            c,
            pane::close_tab_step(a, request_id, word_id@, tab_index),
        ),
        ClientMessage::TabRename { request_id, word_id, tab_index, new_name } => step_of(
            c,
            pane::rename_tab_step(a, request_id, word_id@, tab_index, new_name@),
        ),
        ClientMessage::TabReorder { word_id, tab_index, new_position } => step_of(
            c,
            pane::reorder_step(a, word_id@, tab_index, new_position),
        ),
        ClientMessage::PaneSplit { request_id, word_id, tab_index, from_pane, dir, spawn } =>
            step_of(
            c,
            pane::split_step(a, request_id, word_id@, tab_index, from_pane, dir, spawn@),
        ),
        ClientMessage::PaneSwap { word_id, tab_index, a: first, b } => step_of(
            c,
            layout::layout_step(a, word_id@, tab_index, trading(first, b)),
        ),
        ClientMessage::SetLayoutRatios { word_id, tab_index, path, ratios } => step_of(
            c,
            layout::layout_step(a, word_id@, tab_index, reweighting(path@, ratios@)),
        ),
        ClientMessage::ApplyLayoutScheme { word_id, tab_index, scheme } => step_of(
            c,
            (a, layout::scheme_out(a, word_id@, tab_index, scheme@)),
        ),
        ClientMessage::SetFocus { word_id, tab_index, pane_index } => step_of(
            c,
            layout::layout_step(a, word_id@, tab_index, focusing(pane_index)),
        ),
        _ => step_of(c, (a, OutView::nothing())),
    }
}

/// Whether a message is for a pane's program.
pub open spec fn concerns_input(msg: ClientMessage) -> bool {
    ||| msg is PtyInput
    ||| msg is PtyPaste
    ||| msg is PtyKeyBatch
    ||| msg is Resize
    ||| msg is Signal
    ||| msg is RequestInputLock
    ||| msg is ReleaseInputLock
}

/// What a message for a pane's program does.
pub open spec fn program_step(a: AppView, c: ClientView, msg: ClientMessage, now: Clock) -> Step {
    let id = c.id();
    match msg {
        ClientMessage::PtyInput { pane_id, data } => step_of(
            c,
            peer::routed(
                a,
                pane_id@,
                CommandView::Input(data@),
                input::input_step(a, pane_id@, id, InputView::Bytes(data@), now.epoch_ms),
            ),
        ),
        ClientMessage::PtyPaste { pane_id, data } => step_of(
            c,
            peer::routed(
                a,
                pane_id@,
                CommandView::Paste(data@),
                input::input_step(
                    a,
                    pane_id@,
                    id,
                    InputView::Paste(encode_utf8(data@)),
                    now.epoch_ms,
                ),
            ),
        ),
        ClientMessage::PtyKeyBatch { pane_id, events } => step_of(
            c,
            peer::routed(
                a,
                pane_id@,
                CommandView::Keys(views(events@)),
                input::input_step(
                    a,
                    pane_id@,
                    id,
                    InputView::Keys(views(events@)),
                    now.epoch_ms,
                ),
            ),
        ),
        ClientMessage::Resize { pane_id, size } => step_of(
            c,
            input::resize_step(a, pane_id@, id, size),
        ),
        ClientMessage::Signal { pane_id, signal } => step_of(
            c,
            peer::routed(
                a,
                pane_id@,
                CommandView::Signal(signal),
                (a, OutView::needing(WorkView::SendSignal(pane_id@, signal))),
            ),
        ),
        ClientMessage::RequestInputLock { pane_id } => step_of(
            c,
            input::lock_step(a, pane_id@, id),
        ),
        ClientMessage::ReleaseInputLock { pane_id } => step_of(
            c,
            input::unlock_step(a, pane_id@, id),
        ),
        _ => step_of(c, (a, OutView::nothing())),
    }
}

/// Whether a message is about what the client is shown of panes.
pub open spec fn concerns_view(msg: ClientMessage) -> bool {
    ||| msg is Attach
    ||| msg is Detach
    ||| msg is SetSnapshotMode
    ||| msg is SetPaused
    ||| msg is SetPaneNoAutoPause
    ||| msg is FetchHistory
}

/// What a message about what the client is shown does.
pub open spec fn view_step(a: AppView, c: ClientView, msg: ClientMessage) -> Step {
    let id = c.id();
    match msg {
        ClientMessage::Attach { pane_id, last_seqno, size } => view::attach_step(
            a,
            c,
            pane_id@,
            last_seqno,
            size,
        ),
        ClientMessage::Detach { pane_id } => view::detach_step(a, c, pane_id@),
        ClientMessage::SetSnapshotMode { enabled } => step_of(
            c,
            (a.with_every_pane(snapshot_setting(id, enabled)), OutView::nothing()),
        ),
        ClientMessage::SetPaused { paused, auto } => step_of(
            c,
            (
                a.with_every_pane(pause_setting(id, paused, auto)),
                view::pause_out(a, id, paused, auto),
            ),
        ),
        ClientMessage::SetPaneNoAutoPause { pane_id, exempt } => step_of(
            c,
            (
                view::exempted(a, id, pane_id@, exempt),
                view::exempt_out(a, id, pane_id@, exempt),
            ),
        ),
        ClientMessage::FetchHistory { request_id, pane_id, start_index, count } => step_of(
            c,
            peer::routed(
                a,
                pane_id@,
                CommandView::History(request_id, start_index, count),
                (a, view::history_out(a, request_id, pane_id@, start_index, count)),
            ),
        ),
        _ => step_of(c, (a, OutView::nothing())),
    }
}

/// What a message about the daemon and its clients does. The handshake is not repeated.
pub open spec fn daemon_step(a: AppView, c: ClientView, msg: ClientMessage, now: Clock) -> Step {
    let id = c.id();
    match msg {
        ClientMessage::Auth(_) => step_of(c, (a, OutView::nothing())),
        ClientMessage::AuthProof { .. } => step_of(c, (a, OutView::nothing())),
        ClientMessage::ChannelReady => auth::ready_step(a, c),
        ClientMessage::ProcessOverview { request_id } => step_of(
            c,
            (a, OutView::needing(WorkView::ListProcesses(request_id, all_pane_ids(a.sessions)))),
        ),
        ClientMessage::FetchLogs { request_id, lines, follow } => step_of(
            c,
            (a, OutView::needing(WorkView::ReadLog(request_id, lines, follow))),
        ),
        ClientMessage::ListDirectory { request_id, path } => step_of(
            c,
            (a, OutView::needing(WorkView::ReadDirectory(request_id, path@))),
        ),
        ClientMessage::OpenPeer { request_id, target } => step_of(
            c,
            (
                a,
                OutView::needing(
                    WorkView::ConnectPeer(
                        request_id,
                        target@,
                        peer_name(target.host@, target.port),
                    ),
                ),
            ),
        ),
        ClientMessage::ClosePeer { request_id, peer } => step_of(
            c,
            (a.peer_closed(peer@), OutView::reply(MsgView::PeerClosed(request_id, peer@))),
        ),
        ClientMessage::ClientList { request_id, word_id } => step_of(
            c,
            (a, clients::list_out(a, id, request_id, word_id@, now)),
        ),
        ClientMessage::KickClient { request_id, word_id, client_id } => step_of(
            c,
            clients::kick_step(a, c.label, request_id, word_id@, client_id),
        ),
        ClientMessage::Notify { request_id, pane_id, kind, title, body } => step_of(
            c,
            (a, diagnostics::notify_out(a, request_id, pane_id@, kind, title@, body@)),
        ),
        ClientMessage::Ping { seq } => step_of(c, (a, OutView::reply(MsgView::Pong(seq)))),
        ClientMessage::Pong { seq } => Step {
            app: a,
            client: ClientView {
                metrics: c.metrics.ponged(seq, now.monotonic_ms, now.epoch_ms),
                ..c
            },
            out: OutView::nothing(),
        },
        _ => step_of(c, (a, OutView::nothing())),
    }
}

/// What each message does.
pub open spec fn dispatched(
    a: AppView,
    c: ClientView,
    msg: ClientMessage,
    now: Clock,
    nonce: Seq<u8>,
) -> Step {
    if !c.authenticated {
        auth::unauthenticated_step(a, c, msg, nonce)
    } else if concerns_sessions(msg) {
        session_step(a, c, msg)
    } else if concerns_tabs(msg) {
        tab_step(a, c, msg)
    } else if concerns_input(msg) {
        program_step(a, c, msg, now)
    } else if concerns_view(msg) {
        view_step(a, c, msg)
    } else {
        daemon_step(a, c, msg, now)
    }
}

/// Whether the session of which a message asks for a tab or a pane has indices left for it.
pub open spec fn can_number(a: AppView, msg: ClientMessage) -> bool {
    match msg {
        ClientMessage::PaneCreate { word_id, .. } => a.has_pane_index(word_id@) && a.has_tab_index(
            word_id@,
        ),
        ClientMessage::TabCreate { word_id, .. } => a.has_pane_index(word_id@) && a.has_tab_index(
            word_id@,
        ),
        ClientMessage::PaneSplit { word_id, .. } => a.has_pane_index(word_id@),
        _ => true,
    }
}

/// Handle one message of a connected client. `nonce` is fresh and random: what a client that asks
/// to be let in has to sign.
#[verifier::rlimit(60)]
pub fn handle_message(
    app: &mut ServerApp,
    state: &mut SharedClientState,
    msg: ClientMessage,
    now: Clock,
    nonce: Vec<u8>,
) -> (r: Outcome)
    requires
        old(state)@.wf(),
        can_number(old(app)@, msg),
    ensures
        final(app)@ == dispatched(old(app)@, old(state)@, msg, now, nonce@).app,
        final(state)@ == dispatched(old(app)@, old(state)@, msg, now, nonce@).client,
        r@ == dispatched(old(app)@, old(state)@, msg, now, nonce@).out,
        old(app)@.wf() ==> final(app)@.wf(),
        final(state)@.wf(),
{
    if !state.authenticated {
        return auth::handle_unauthenticated(app, state, msg, nonce);
    }
    let client_id = match state.client_id {
        Some(id) => id,
        None => ClientId(0),
    };
    match msg {
        ClientMessage::Auth(_) => Outcome::nothing(),
        ClientMessage::AuthProof { .. } => Outcome::nothing(),
        ClientMessage::ChannelReady => {
            let ghost before = state@;
            let r = auth::on_channel_ready(state);
            assert(auth::ready_step(app@, before).out == r@);
            r
        },
        ClientMessage::SessionCreate { request_id, name, cwd, spawn, peer } =>
            session::on_session_create(app, request_id, name, cwd, spawn, peer),
        ClientMessage::SessionClose { request_id, word_id } => session::on_session_close(
            app,
            state,
            client_id,
            request_id,
            word_id,
        ),
        ClientMessage::PaneCreate { request_id, word_id, spawn } => pane::on_new_tab(
            app,
            request_id,
            word_id,
            spawn,
            true,
        ),
        ClientMessage::PaneClose { request_id, pane_id } => pane::on_pane_close(
            app,
            state,
            client_id,
            request_id,
            pane_id,
        ),
        ClientMessage::TabCreate { request_id, word_id, spawn } => pane::on_new_tab(
            app,
            request_id,
            word_id,
            spawn,
            false,
        ),
        ClientMessage::TabClose { request_id, word_id, tab_index } => pane::on_tab_close(
            app,
            request_id,
            word_id,
            tab_index,
        ),
        ClientMessage::TabRename { request_id, word_id, tab_index, new_name } =>
            pane::on_tab_rename(app, request_id, word_id, tab_index, new_name),
        ClientMessage::TabReorder { word_id, tab_index, new_position } => pane::on_tab_reorder(
            app,
            word_id,
            tab_index,
            new_position,
        ),
        ClientMessage::PaneSplit { request_id, word_id, tab_index, from_pane, dir, spawn } =>
            pane::on_pane_split(app, request_id, word_id, tab_index, from_pane, dir, spawn),
        ClientMessage::PaneSwap { word_id, tab_index, a, b } => layout::on_pane_swap(
            app,
            word_id,
            tab_index,
            a,
            b,
        ),
        ClientMessage::SetLayoutRatios { word_id, tab_index, path, ratios } =>
            layout::on_set_layout_ratios(app, word_id, tab_index, path, ratios),
        ClientMessage::ApplyLayoutScheme { word_id, tab_index, scheme } =>
            layout::on_apply_layout_scheme(app, word_id, tab_index, scheme),
        ClientMessage::SetFocus { word_id, tab_index, pane_index } => layout::on_set_focus(
            app,
            word_id,
            tab_index,
            pane_index,
        ),
        ClientMessage::SessionList { request_id } => session::on_session_list(app, request_id),
        ClientMessage::SessionListClosed { request_id } => session::on_session_list_closed(
            app,
            request_id,
        ),
        ClientMessage::SessionRestore { request_id, word_id } => session::on_session_restore(
            app,
            request_id,
            word_id,
        ),
        ClientMessage::ProcessOverview { request_id } => diagnostics::on_process_overview(
            app,
            request_id,
        ),
        ClientMessage::FetchLogs { request_id, lines, follow } => diagnostics::on_fetch_logs(
            request_id,
            lines,
            follow,
        ),
        ClientMessage::PtyInput { pane_id, data } => input::on_pty_input(
            app,
            client_id,
            pane_id,
            data,
            now.epoch_ms,
        ),
        ClientMessage::PtyPaste { pane_id, data } => input::on_pty_paste(
            app,
            client_id,
            pane_id,
            data,
            now.epoch_ms,
        ),
        ClientMessage::PtyKeyBatch { pane_id, events } => input::on_pty_key_batch(
            app,
            client_id,
            pane_id,
            events,
            now.epoch_ms,
        ),
        ClientMessage::Resize { pane_id, size } => input::on_resize(app, client_id, pane_id, size),
        ClientMessage::Attach { pane_id, last_seqno, size } => view::on_attach(
            app,
            state,
            client_id,
            pane_id,
            last_seqno,
            size,
        ),
        ClientMessage::Detach { pane_id } => view::on_detach(app, state, client_id, pane_id),
        ClientMessage::Signal { pane_id, signal } => input::on_signal(app, pane_id, signal),
        ClientMessage::RequestInputLock { pane_id } => input::on_request_input_lock(
            app,
            client_id,
            pane_id,
        ),
        ClientMessage::ReleaseInputLock { pane_id } => input::on_release_input_lock(
            app,
            client_id,
            pane_id,
        ),
        ClientMessage::SessionRename { request_id, word_id, new_name } =>
            session::on_session_rename(app, request_id, word_id, new_name),
        ClientMessage::SetSnapshotMode { enabled } => view::on_set_snapshot_mode(
            app,
            client_id,
            enabled,
        ),
        ClientMessage::SetPaused { paused, auto } => view::on_set_paused(
            app,
            client_id,
            paused,
            auto,
        ),
        ClientMessage::SetPaneNoAutoPause { pane_id, exempt } => view::on_set_pane_no_auto_pause(
            app,
            client_id,
            pane_id,
            exempt,
        ),
        ClientMessage::FetchHistory { request_id, pane_id, start_index, count } =>
            view::on_fetch_history(app, request_id, pane_id, start_index, count),
        ClientMessage::ListDirectory { request_id, path } => diagnostics::on_list_directory(
            request_id,
            path,
        ),
        ClientMessage::OpenPeer { request_id, target } => peer::on_open_peer(request_id, target),
        ClientMessage::ClosePeer { request_id, peer } => peer::on_close_peer(app, request_id, peer),
        ClientMessage::ClientList { request_id, word_id } => clients::on_client_list(
            app,
            client_id,
            request_id,
            word_id,
            now,
        ),
        ClientMessage::KickClient { request_id, word_id, client_id: target } =>
            clients::on_kick_client(app, &state.label, request_id, word_id, target),
        ClientMessage::Notify { request_id, pane_id, kind, title, body } => diagnostics::on_notify(
            app,
            request_id,
            pane_id,
            kind,
            title,
            body,
        ),
        ClientMessage::Ping { seq } => diagnostics::on_ping(seq),
        ClientMessage::Pong { seq } => diagnostics::on_pong(state, seq, now),
    }
}

/// A client that is not let in cannot do anything: until its proof is verified, no message of its
/// changes the daemon's state or reaches anyone else.
pub proof fn law_strangers_change_nothing(
    a: AppView,
    c: ClientView,
    msg: ClientMessage,
    now: Clock,
    nonce: Seq<u8>,
)
    requires
        !c.authenticated,
    ensures
        ({
            let s = dispatched(a, c, msg, now, nonce);
            &&& s.app == a
            &&& !s.client.authenticated
            &&& s.out.broadcasts.len() == 0
            &&& s.out.resizes.len() == 0
            &&& s.out.told is None
        }),
{
}

/// Only the handshake closes a connection: a client that was let in stays connected, whatever it
/// sends.
pub proof fn law_clients_are_never_cut_off(
    a: AppView,
    c: ClientView,
    msg: ClientMessage,
    now: Clock,
    nonce: Seq<u8>,
)
    requires
        c.authenticated,
    ensures
        dispatched(a, c, msg, now, nonce).out.flow == Flow::Continue,
        dispatched(a, c, msg, now, nonce).client.authenticated,
{
}

/// A client is let in only after its token was checked and its proof verified, and never without
/// having been challenged.
pub proof fn law_admission_needs_a_proof(
    a: AppView,
    c: ClientView,
    verified: Option<(Seq<char>, Seq<char>)>,
)
    requires
        !c.authenticated,
    ensures
        auth::verified_step(a, c, verified).client.authenticated <==> c.pending_auth is Some
            && verified is Some,
{
}

/// A client is challenged only if it sent the daemon's token and speaks its protocol.
pub proof fn law_challenge_needs_the_token(
    a: AppView,
    c: ClientView,
    msg: ClientMessage,
    now: Clock,
    nonce: Seq<u8>,
)
    requires
        !c.authenticated,
        c.pending_auth is None,
    ensures
        dispatched(a, c, msg, now, nonce).client.pending_auth is Some <==> (
        msg matches ClientMessage::Auth(req) && req.token@ == a.auth_token
            && req.negotiation.version is Some),
{
}

} // verus!
