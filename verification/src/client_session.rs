//! One client's session, from its first frame to the end of its connection: what comes in, when
//! to ping, what to forward, and what is cleaned up at the end.

use crate::app::attach::{leave_all_notices, leaving};
use crate::app::clients::{conn_at, Clock};
use crate::app::{AppView, ServerApp};
use crate::connection::{ConnectionMetrics, PingSent};
use crate::dispatch::auth::{finish_auth_proof, verified_step, verified_view, Verified};
use crate::dispatch::{
    can_number, dispatched, handle_message, ClientView, Flow, OutView, Outcome, SharedClientState,
    Step, MAX_WRITE_BATCH,
};
use crate::events::{EventView, SessionEventMsg};
use crate::liveness::{Liveness, Verdict};
use crate::messages::{ClientMessage, MsgView, ServerMessage};
use crate::pane::{client_at, distinct_clients, ResizeNotice};
use crate::protocol::{ClientId, ConnectionId, ErrorCode, InputMode};
use crate::text::views;
use vstd::prelude::*;

verus! {

/// One client's session.
#[derive(Debug)]
pub struct ClientSession {
    pub state: SharedClientState,
    pub liveness: Liveness,
    /// Number of the next ping.
    pub next_ping: u64,
}

pub struct SessionModel {
    pub client: ClientView,
    pub liveness: Liveness,
    pub next_ping: u64,
}

impl View for ClientSession {
    type V = SessionModel;

    open spec fn view(&self) -> SessionModel {
        SessionModel {
            client: self.state@,
            liveness: self.liveness,
            next_ping: self.next_ping,
        }
    }
}

/// How a message is queued for a client.
#[derive(Clone, Copy, Debug, PartialEq, Eq, Structural)]
pub enum Lane {
    /// Never dropped.
    Control,
    /// Dropped where the client cannot keep up.
    Data,
}

/// How the connection ends.
#[derive(Clone, Copy, Debug, PartialEq, Eq, Structural)]
pub enum Ending {
    /// What is queued is written first: it says why the client was turned away.
    Flush,
    /// At once.
    Drop,
}

/// Events that a flood of output can raise one per escape sequence.
pub open spec fn flood_prone(m: MsgView) -> bool {
    match m {
        MsgView::Event(EventView::PaneBell(_)) => true,
        MsgView::Event(EventView::PaneTitleChanged(_, _)) => true,
        MsgView::Event(EventView::PaneProgressChanged(_, _, _)) => true,
        _ => false,
    }
}

/// Whether a flood of output can raise an event once per escape sequence.
pub fn is_lossy_vt_event(msg: &ServerMessage) -> (r: bool)
    ensures
        r == flood_prone(msg@),
{
    match msg {
        ServerMessage::Event { event } => match event {
            SessionEventMsg::PaneBell { .. } => true,
            SessionEventMsg::PaneTitleChanged { .. } => true,
            SessionEventMsg::PaneProgressChanged { .. } => true,
            _ => false,
        },
        _ => false,
    }
}

impl SessionModel {
    pub open spec fn wf(self) -> bool {
        self.client.wf()
    }

    /// The session after a frame of some payload came in.
    pub open spec fn heard(self, payload: usize, epoch_ms: u64) -> SessionModel {
        SessionModel {
            client: ClientView {
                metrics: self.client.metrics.received(payload, epoch_ms),
                ..self.client
            },
            liveness: Liveness { unanswered_since: None, ..self.liveness },
            ..self
        }
    }

    /// The session after a ping went out.
    pub open spec fn pinged(self, now_ms: u64) -> SessionModel {
        SessionModel {
            client: ClientView {
                metrics: ConnectionMetrics {
                    last_ping_sent: Some(PingSent { seq: self.next_ping, at_ms: now_ms }),
                    ..self.client.metrics
                },
                ..self.client
            },
            liveness: self.liveness.pinged(now_ms),
            next_ping: self.next_ping.wrapping_add(1),
        }
    }
}

/// What a frame does that holds a message, or cannot be decoded.
pub open spec fn frame_step(
    a: AppView,
    s: SessionModel,
    payload: usize,
    decoded: Result<ClientMessage, String>,
    now: Clock,
    nonce: Seq<u8>,
) -> Step {
    let heard = s.heard(payload, now.epoch_ms).client;
    match decoded {
        Ok(msg) => dispatched(a, heard, msg, now, nonce),
        Err(e) => Step {
            app: a,
            client: heard,
            out: OutView::reply(MsgView::Error(None, ErrorCode::InvalidMessage, e@)),
        },
    }
}

/// The state of the daemon once a client's session is over.
pub open spec fn without_session_of(
    a: AppView,
    client_id: Option<ClientId>,
    connection_id: Option<ConnectionId>,
) -> AppView {
    let b = match client_id {
        Some(id) => a.with_every_pane(leaving(id)),
        None => a,
    };
    match connection_id {
        Some(id) => b.unregistered(id),
        None => b,
    }
}

impl ClientSession {
    /// A session whose client is yet to authenticate.
    pub fn new(state: SharedClientState, now_ms: u64) -> (r: Self)
        ensures
            r@ == (SessionModel {
                client: state@,
                liveness: Liveness {
                    connected_at: now_ms,
                    authenticated: false,
                    unanswered_since: None,
                },
                next_ping: 0,
            }),
    {
        ClientSession { state, liveness: Liveness::new(now_ms), next_ping: 0 }
    }

    /// A frame came in. It is counted, and it answers every ping, whatever is in it; one that
    /// cannot be decoded is answered with an error.
    pub fn on_frame(
        &mut self,
        app: &mut ServerApp,
        payload: usize,
        decoded: Result<ClientMessage, String>,
        now: Clock,
        nonce: Vec<u8>,
    ) -> (r: Outcome)
        requires
            old(self)@.wf(),
            decoded matches Ok(msg) ==> can_number(old(app)@, msg),
        ensures
            final(app)@ == frame_step(old(app)@, old(self)@, payload, decoded, now, nonce@).app,
            final(self)@ == (SessionModel {
                client: frame_step(old(app)@, old(self)@, payload, decoded, now, nonce@).client,
                ..old(self)@.heard(payload, now.epoch_ms)
            }),
            r@ == frame_step(old(app)@, old(self)@, payload, decoded, now, nonce@).out,
            old(app)@.wf() ==> final(app)@.wf(),
            final(self)@.wf(),
    {
        self.state.metrics.on_frame_in(payload, now.epoch_ms);
        self.liveness.on_inbound();
        match decoded {
            Ok(msg) => handle_message(app, &mut self.state, msg, now, nonce),
            Err(e) => Outcome::refusal(None, ErrorCode::InvalidMessage, e),
        }
    }

    /// A proof of identity was verified, or not. A client that is let in has met its deadline.
    pub fn on_proof_verified(&mut self, app: &mut ServerApp, verified: Option<Verified>) -> (r:
        Outcome)
        requires
            old(self)@.wf(),
            old(app)@.next_client_id < u64::MAX,
            old(app)@.next_connection_id < u64::MAX,
        ensures
            final(app)@ == verified_step(
                old(app)@,
                old(self)@.client,
                verified_view(verified),
            ).app,
            r@ == verified_step(old(app)@, old(self)@.client, verified_view(verified)).out,
            ({
                let client = verified_step(
                    old(app)@,
                    old(self)@.client,
                    verified_view(verified),
                ).client;
                final(self)@ == (SessionModel {
                    client,
                    liveness: Liveness {
                        authenticated: old(self)@.liveness.authenticated || client.authenticated,
                        ..old(self)@.liveness
                    },
                    ..old(self)@
                })
            }),
            old(app)@.wf() ==> final(app)@.wf(),
            final(self)@.wf(),
    {
        let r = finish_auth_proof(app, &mut self.state, verified);
        if self.state.authenticated {
            self.liveness.on_authenticated();
        }
        r
    }

    /// It is time for a ping. Nothing goes to a client that was not let in.
    pub fn on_ping_due(&mut self, now_ms: u64) -> (r: Option<ServerMessage>)
        ensures
            if old(self)@.client.authenticated {
                &&& final(self)@ == old(self)@.pinged(now_ms)
                &&& r matches Some(m) && m@ == MsgView::Ping(old(self)@.next_ping)
            } else {
                &&& final(self)@ == old(self)@
                &&& r is None
            },
    {
        if !self.state.authenticated {
            return None;
        }
        let seq: u64 = self.next_ping;
        self.state.metrics.on_ping_sent(seq, now_ms);
        self.liveness.on_ping_sent(now_ms);
        self.next_ping = seq.wrapping_add(1);
        Some(ServerMessage::Ping { seq })
    }

    /// How a message meant for every connection is queued for this one. Nothing goes to a client
    /// that was not let in.
    pub fn forward(&self, msg: &ServerMessage) -> (r: Option<Lane>)
        ensures
            r == if !self@.client.authenticated {
                None::<Lane>
            } else if flood_prone(msg@) {
                Some(Lane::Data)
            } else {
                Some(Lane::Control)
            },
    {
        if !self.state.authenticated {
            None
        } else if is_lossy_vt_event(msg) {
            Some(Lane::Data)
        } else {
            Some(Lane::Control)
        }
    }

    /// A frame was written.
    pub fn on_frame_written(&mut self, payload: usize, wire: usize)
        ensures
            final(self)@ == (SessionModel {
                client: ClientView {
                    metrics: old(self)@.client.metrics.sent(payload, wire),
                    ..old(self)@.client
                },
                ..old(self)@
            }),
    {
        self.state.metrics.on_frame_out(payload, wire);
    }

    /// Whether the connection may stay open.
    pub fn verdict(&self, now_ms: u64) -> (r: Verdict)
        ensures
            r == self@.liveness.judged(now_ms),
    {
        self.liveness.verdict(now_ms)
    }

    /// The session is over: the client leaves every pane and its connection is forgotten.
    pub fn end(&self, app: &mut ServerApp) -> (r: Vec<ResizeNotice>)
        ensures
            final(app)@ == without_session_of(
                old(app)@,
                self@.client.client_id,
                self@.client.connection_id,
            ),
            views(r@) == match self@.client.client_id {
                Some(id) => leave_all_notices(old(app)@.sessions, id),
                None => Seq::empty(),
            },
            old(app)@.wf() ==> final(app)@.wf(),
    {
        let notices = match self.state.client_id {
            Some(id) => app.detach_client_all(id),
            None => {
                let none: Vec<ResizeNotice> = Vec::new();
                assert(views(none@) =~= Seq::empty());
                none
            },
        };
        if let Some(id) = self.state.connection_id {
            app.unregister_client(id);
        }
        notices
    }
}

/// How a connection ends after a message: a client that is turned away is told why first.
pub fn ending_of(flow: Flow) -> (r: Option<Ending>)
    ensures
        r == match flow {
            Flow::Continue => None::<Ending>,
            Flow::Close => Some(Ending::Flush),
        },
{
    match flow {
        Flow::Continue => None,
        Flow::Close => Some(Ending::Flush),
    }
}

/// A session that is over leaves no trace: its client is attached to no pane and holds no lock,
/// and its connection is gone.
pub proof fn law_ended_session_leaves_no_trace(a: AppView, id: ClientId, conn: ConnectionId)
    requires
        a.wf(),
    ensures
        ({
            let b = without_session_of(a, Some(id), Some(conn));
            &&& conn_at(b.connections, conn.0) is None
            &&& forall|s: int, p: int|
                #![trigger b.sessions[s].panes[p]]
                0 <= s < b.sessions.len() && 0 <= p < b.sessions[s].panes.len() ==> {
                    &&& client_at(b.sessions[s].panes[p].clients, id) is None
                    &&& b.sessions[s].panes[p].input_mode != InputMode::Locked(id)
                }
        }),
{
    let every = a.with_every_pane(leaving(id));
    let b = without_session_of(a, Some(id), Some(conn));
    crate::list::lemma_first_where(a.connections, crate::app::clients::is_conn(conn.0));
    crate::list::lemma_first_where(b.connections, crate::app::clients::is_conn(conn.0));
    if let Some(k) = conn_at(b.connections, conn.0) {
        let i = conn_at(a.connections, conn.0)->0;
        let j = if k < i {
            k
        } else {
            k + 1
        };
        assert(b.connections[k] == a.connections[j]);
        if j < i {
            assert(a.connections[j].conn_id != a.connections[i].conn_id);
        } else {
            assert(a.connections[i].conn_id != a.connections[j].conn_id);
        }
    }
    assert forall|s: int, p: int|
        #![trigger b.sessions[s].panes[p]]
        0 <= s < b.sessions.len() && 0 <= p < b.sessions[s].panes.len() implies {
        &&& client_at(b.sessions[s].panes[p].clients, id) is None
        &&& b.sessions[s].panes[p].input_mode != InputMode::Locked(id)
    } by {
        let before = a.sessions[s].panes[p];
        assert(a.sessions[s].wf());
        assert(distinct_clients(before.clients));
        crate::app::attach::lemma_leave_keeps_distinct(before, id);
        assert(b.sessions[s].panes[p] == before.left(id).fitted());
    }
}

/// How many of `waiting` messages are written before the next flush.
pub open spec fn batch_size(waiting: nat) -> int {
    if waiting < MAX_WRITE_BATCH {
        waiting as int
    } else {
        MAX_WRITE_BATCH as int
    }
}

/// Take the messages that are written before the next flush, in the order in which they wait.
pub fn next_batch(queue: &mut Vec<ServerMessage>) -> (r: Vec<ServerMessage>)
    ensures
        r@ == old(queue)@.take(batch_size(old(queue)@.len())),
        final(queue)@ == old(queue)@.skip(batch_size(old(queue)@.len())),
        r@ + final(queue)@ == old(queue)@,
{
    let n: usize = if queue.len() < MAX_WRITE_BATCH {
        queue.len()
    } else {
        MAX_WRITE_BATCH
    };
    let mut batch = queue.split_off(n);
    std::mem::swap(queue, &mut batch);
    assert(batch@ + queue@ =~= old(queue)@);
    batch
}

/// Any frame counts as a sign of life: no answer is awaited after it, and it is counted. Who the
/// client is and what it sees stays.
pub proof fn law_any_frame_is_a_sign_of_life(s: SessionModel, payload: usize, epoch: u64)
    ensures
        ({
            let r = s.heard(payload, epoch);
            &&& r.liveness.unanswered_since is None
            &&& r.liveness.connected_at == s.liveness.connected_at
            &&& r.liveness.authenticated == s.liveness.authenticated
            &&& r.client.metrics == s.client.metrics.received(payload, epoch)
            &&& r.client == (ClientView { metrics: r.client.metrics, ..s.client })
            &&& r.next_ping == s.next_ping
        }),
{
}

/// A ping is remembered with its number and its time, and the next one has the next number.
pub proof fn law_pings_are_numbered(s: SessionModel, now: u64)
    ensures
        ({
            let r = s.pinged(now);
            &&& r.client.metrics.last_ping_sent == Some(PingSent { seq: s.next_ping, at_ms: now })
            &&& r.client.metrics == (ConnectionMetrics {
                last_ping_sent: r.client.metrics.last_ping_sent,
                ..s.client.metrics
            })
            &&& r.client == (ClientView { metrics: r.client.metrics, ..s.client })
            &&& s.next_ping < u64::MAX ==> r.next_ping == s.next_ping + 1
            &&& s.next_ping == u64::MAX ==> r.next_ping == 0
            &&& s.liveness.unanswered_since is None ==> r.liveness.unanswered_since == Some(now)
            &&& s.liveness.unanswered_since is Some ==> r.liveness == s.liveness
        }),
{
}

/// A frame that cannot be read is counted and answered with an error that says why; nothing else
/// happens. One that can be read is dispatched.
pub proof fn law_unreadable_frame_is_answered(
    a: AppView,
    s: SessionModel,
    payload: usize,
    reason: String,
    msg: ClientMessage,
    now: Clock,
    nonce: Seq<u8>,
)
    ensures
        ({
            let r = frame_step(a, s, payload, Err(reason), now, nonce);
            &&& r.app == a
            &&& r.client == (ClientView {
                metrics: s.client.metrics.received(payload, now.epoch_ms),
                ..s.client
            })
            &&& r.out.flow == Flow::Continue
            &&& r.out.replies == seq![MsgView::Error(None, ErrorCode::InvalidMessage, reason@)]
            &&& r.out.broadcasts.len() == 0 && r.out.work is None && r.out.told is None
        }),
        frame_step(a, s, payload, Ok(msg), now, nonce) == dispatched(
            a,
            ClientView {
                metrics: s.client.metrics.received(payload, now.epoch_ms),
                ..s.client
            },
            msg,
            now,
            nonce,
        ),
{
}

/// What a client that cannot keep up may miss: bells, titles and progress of panes, and no other
/// message.
pub proof fn law_what_may_be_missed(m: MsgView)
    ensures
        flood_prone(m) <==> (m matches MsgView::Event(e) && (e is PaneBell || e is PaneTitleChanged
            || e is PaneProgressChanged)),
{
}

/// A batch takes all that waits, up to 256 messages.
pub proof fn law_batches_are_bounded(waiting: nat)
    ensures
        batch_size(waiting) <= 256,
        waiting <= 256 ==> batch_size(waiting) == waiting,
        waiting > 256 ==> batch_size(waiting) == 256,
{
}

} // verus!
