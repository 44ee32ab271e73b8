//! Client connections: registering them, reporting them, and kicking a client out of a session.

use super::attach::{leave_notices, leaving};
use super::persistence::session_keys;
use super::{changed_session, session_at, AppView, ServerApp};
use crate::config::TransportKind;
use crate::connection::{
    since, ClientIdentity, ConnectionMetrics, ConnectionState, ConnectionView, IdentityView,
};
use crate::list::{
    arrange, arranged, first_where, group_views, is_stable_order, lemma_first_where,
    lemma_first_where_is, lemma_first_where_none, lemma_order_distinct, positions, sorted_order,
    stable_order,
};
use crate::pane::{client_at, ClientSender, PaneView, ResizeNotice};
use crate::protocol::{ClientId, ConnectionId, MetaView, SessionMeta};
use crate::session::{pane_keys, SessionState, SessionView};
use crate::text::views;
use vstd::prelude::*;

verus! {

/// Recognizes a connection by its id.
pub open spec fn is_conn(id: u64) -> spec_fn(ConnectionView) -> bool {
    |c: ConnectionView| c.conn_id == id
}

pub open spec fn conn_at(conns: Seq<ConnectionView>, id: u64) -> Option<int> {
    first_where(conns, is_conn(id))
}

/// Recognizes a connection by its client.
pub open spec fn serves(id: ClientId) -> spec_fn(ConnectionView) -> bool {
    |c: ConnectionView| c.client_id == id
}

pub open spec fn conn_of(conns: Seq<ConnectionView>, id: ClientId) -> Option<int> {
    first_where(conns, serves(id))
}

/// What a client gets when it registers.
#[derive(Debug)]
pub struct Registration {
    pub client_id: ClientId,
    pub connection_id: ConnectionId,
    pub metrics: ConnectionMetrics,
    /// The transport that carried the connection before, where it is resumed over another.
    pub previous_transport: Option<TransportKind>,
    pub label: String,
}

pub struct RegistrationView {
    pub client_id: ClientId,
    pub connection_id: ConnectionId,
    pub metrics: ConnectionMetrics,
    pub previous_transport: Option<TransportKind>,
    pub label: Seq<char>,
}

impl View for Registration {
    type V = RegistrationView;

    open spec fn view(&self) -> RegistrationView {
        RegistrationView {
            client_id: self.client_id,
            connection_id: self.connection_id,
            metrics: self.metrics,
            previous_transport: self.previous_transport,
            label: self.label@,
        }
    }
}

impl AppView {
    /// A connection that is resumed, if `incoming` names a live one.
    pub open spec fn resumed(self, incoming: Option<ConnectionId>) -> Option<int> {
        match incoming {
            Some(id) => conn_at(self.connections, id.0),
            None => None,
        }
    }

    /// The state and the registration after a client connected. A connection that is resumed
    /// keeps its client, its counters and its label; any other gets fresh ids.
    pub open spec fn registered(
        self,
        transport: TransportKind,
        metrics: ConnectionMetrics,
        incoming: Option<ConnectionId>,
        identity: IdentityView,
        label: Seq<char>,
    ) -> (AppView, RegistrationView) {
        match self.resumed(incoming) {
            Some(i) => {
                let c = self.connections[i];
                (
                    AppView {
                        connections: self.connections.update(
                            i,
                            ConnectionView { transport, ..c },
                        ),
                        ..self
                    },
                    RegistrationView {
                        client_id: c.client_id,
                        connection_id: ConnectionId(c.conn_id),
                        metrics: c.metrics,
                        previous_transport: Some(c.transport),
                        label: c.label,
                    },
                )
            },
            None => {
                let client_id = ClientId(self.next_client_id);
                let conn_id = self.next_connection_id;
                (
                    AppView {
                        connections: self.connections.push(
                            ConnectionView {
                                conn_id,
                                client_id,
                                transport,
                                metrics,
                                identity,
                                label,
                            },
                        ),
                        next_client_id: (self.next_client_id + 1) as u64,
                        next_connection_id: (self.next_connection_id + 1) as u64,
                        ..self
                    },
                    RegistrationView {
                        client_id,
                        connection_id: ConnectionId(conn_id),
                        metrics,
                        previous_transport: None,
                        label,
                    },
                )
            },
        }
    }

    /// The state without a connection.
    pub open spec fn unregistered(self, id: ConnectionId) -> AppView {
        match conn_at(self.connections, id.0) {
            Some(i) => AppView { connections: self.connections.remove(i), ..self },
            None => self,
        }
    }
}

/// Registering keeps the state well formed; fresh ids are used by no other connection.
pub proof fn law_register_keeps_wf(
    a: AppView,
    transport: TransportKind,
    metrics: ConnectionMetrics,
    incoming: Option<ConnectionId>,
    identity: IdentityView,
    label: Seq<char>,
)
    requires
        a.wf(),
        a.next_client_id < u64::MAX,
        a.next_connection_id < u64::MAX,
    ensures
        a.registered(transport, metrics, incoming, identity, label).0.wf(),
        a.resumed(incoming) is None ==> {
            let reg = a.registered(transport, metrics, incoming, identity, label).1;
            conn_at(a.connections, reg.connection_id.0) is None && conn_of(
                a.connections,
                reg.client_id,
            ) is None
        },
{
    let r = a.registered(transport, metrics, incoming, identity, label).0;
    if let Some(id) = incoming {
        lemma_first_where(a.connections, is_conn(id.0));
    }
    match a.resumed(incoming) {
        Some(i) => {
            assert forall|k: int| 0 <= k < r.connections.len() implies (
            #[trigger] r.connections[k]).conn_id == a.connections[k].conn_id
                && r.connections[k].client_id == a.connections[k].client_id by {}
            assert(r.connections_wf());
        },
        None => {
            let n = a.connections.len();
            assert forall|x: int, y: int| 0 <= x < y < r.connections.len() implies (
            #[trigger] r.connections[x]).conn_id != (#[trigger] r.connections[y]).conn_id
                && r.connections[x].client_id != r.connections[y].client_id by {
                if y == n {
                    assert(a.connections[x].conn_id < a.next_connection_id);
                }
            }
            assert forall|k: int| 0 <= k < r.connections.len() implies (
            #[trigger] r.connections[k]).conn_id < r.next_connection_id
                && r.connections[k].client_id.0 < r.next_client_id by {
                if k < n {
                    assert(r.connections[k] == a.connections[k]);
                }
            }
            let client = ClientId(a.next_client_id);
            assert forall|k: int| 0 <= k < n implies !is_conn(a.next_connection_id)(
                #[trigger] a.connections[k],
            ) && !serves(client)(a.connections[k]) by {}
            lemma_first_where_none(a.connections, is_conn(a.next_connection_id));
            lemma_first_where_none(a.connections, serves(client));
        },
    }
}

/// Unregistering keeps the state well formed, and the connection is gone.
pub proof fn law_unregister_keeps_wf(a: AppView, id: ConnectionId)
    requires
        a.wf(),
    ensures
        a.unregistered(id).wf(),
        conn_at(a.unregistered(id).connections, id.0) is None,
{
    lemma_first_where(a.connections, is_conn(id.0));
    let r = a.unregistered(id);
    lemma_first_where(r.connections, is_conn(id.0));
    if let Some(i) = conn_at(a.connections, id.0) {
        let from = |k: int|
            if k < i {
                k
            } else {
                k + 1
            };
        assert forall|k: int| 0 <= k < r.connections.len() implies #[trigger] r.connections[k]
            == a.connections[from(k)] by {}
        assert forall|x: int, y: int| 0 <= x < y < r.connections.len() implies (
        #[trigger] r.connections[x]).conn_id != (#[trigger] r.connections[y]).conn_id
            && r.connections[x].client_id != r.connections[y].client_id by {
            assert(a.connections[from(x)].conn_id != a.connections[from(y)].conn_id);
        }
        assert forall|k: int| 0 <= k < r.connections.len() implies (
        #[trigger] r.connections[k]).conn_id < r.next_connection_id
            && r.connections[k].client_id.0 < r.next_client_id by {
            assert(a.connections[from(k)].conn_id < a.next_connection_id);
        }
        if let Some(k) = conn_at(r.connections, id.0) {
            let j = from(k);
            if j < i {
                assert(a.connections[j].conn_id != a.connections[i].conn_id);
            } else {
                assert(a.connections[i].conn_id != a.connections[j].conn_id);
            }
        }
    }
}

/// A step in the life of the daemon's connections.
pub enum ConnStep {
    /// A client connects, or resumes its connection.
    Register(
        TransportKind,
        ConnectionMetrics,
        Option<ConnectionId>,
        IdentityView,
        Seq<char>,
    ),
    /// A connection ends.
    Unregister(ConnectionId),
}

impl AppView {
    /// The state after one step.
    pub open spec fn stepped(self, step: ConnStep) -> AppView {
        match step {
            ConnStep::Register(transport, metrics, incoming, identity, label) => self.registered(
                transport,
                metrics,
                incoming,
                identity,
                label,
            ).0,
            ConnStep::Unregister(id) => self.unregistered(id),
        }
    }

    /// The state after some steps.
    pub open spec fn lived(self, steps: Seq<ConnStep>) -> AppView
        decreases steps.len(),
    {
        if steps.len() == 0 {
            self
        } else {
            self.lived(steps.drop_last()).stepped(steps.last())
        }
    }

    /// Whether there are ids for `n` more connections.
    pub open spec fn has_ids(self, n: nat) -> bool {
        self.next_client_id + n <= u64::MAX && self.next_connection_id + n <= u64::MAX
    }
}

/// Whether a step ends a connection.
pub open spec fn ends(step: ConnStep, id: ConnectionId) -> bool {
    step == ConnStep::Unregister(id)
}

/// Whether a step resumes a connection.
pub open spec fn resumes(step: ConnStep, id: ConnectionId) -> bool {
    step matches ConnStep::Register(_, _, incoming, _, _) && incoming == Some(id)
}

/// Whether a connection, if there was one, is still there with its client and its counters.
pub open spec fn keeps_conn(a: AppView, b: AppView, id: ConnectionId) -> bool {
    match (conn_at(a.connections, id.0), conn_at(b.connections, id.0)) {
        (Some(i), Some(j)) => {
            &&& b.connections[j].client_id == a.connections[i].client_id
            &&& b.connections[j].metrics == a.connections[i].metrics
        },
        (Some(_), None) => false,
        (None, _) => true,
    }
}

/// Whether a connection, if there was one, is still carried by the same transport.
pub open spec fn keeps_transport(a: AppView, b: AppView, id: ConnectionId) -> bool {
    match (conn_at(a.connections, id.0), conn_at(b.connections, id.0)) {
        (Some(i), Some(j)) => b.connections[j].transport == a.connections[i].transport,
        _ => true,
    }
}

/// What one step keeps: ids are only ever given out upwards, and a connection that it does not end
/// stays, with its client and its counters.
proof fn lemma_stepped(a: AppView, step: ConnStep, id: ConnectionId)
    requires
        a.wf(),
        a.has_ids(1),
    ensures
        ({
            let b = a.stepped(step);
            &&& b.wf()
            &&& a.next_client_id <= b.next_client_id <= a.next_client_id + 1
            &&& a.next_connection_id <= b.next_connection_id <= a.next_connection_id + 1
            &&& !ends(step, id) ==> keeps_conn(a, b, id)
            &&& conn_at(a.connections, id.0) is Some && !ends(step, id) && !resumes(step, id)
                ==> keeps_transport(a, b, id)
        }),
{
    let b = a.stepped(step);
    lemma_first_where(a.connections, is_conn(id.0));
    match step {
        ConnStep::Register(transport, metrics, incoming, identity, label) => {
            law_register_keeps_wf(a, transport, metrics, incoming, identity, label);
            if let Some(other) = incoming {
                lemma_first_where(a.connections, is_conn(other.0));
            }
            if let Some(i) = conn_at(a.connections, id.0) {
                assert forall|k: int| 0 <= k < i implies !is_conn(id.0)(
                    #[trigger] b.connections[k],
                ) by {
                    assert(!is_conn(id.0)(a.connections[k]));
                }
                lemma_first_where_is(b.connections, is_conn(id.0), i);
            }
        },
        ConnStep::Unregister(gone) => {
            law_unregister_keeps_wf(a, gone);
            lemma_first_where(a.connections, is_conn(gone.0));
            if conn_at(a.connections, id.0) is Some && conn_at(a.connections, gone.0) is Some
                && gone != id {
                let i = conn_at(a.connections, id.0)->0;
                let g = conn_at(a.connections, gone.0)->0;
                assert(gone.0 != id.0);
                let at = if i < g {
                    i
                } else {
                    i - 1
                };
                assert forall|k: int| 0 <= k < at implies !is_conn(id.0)(
                    #[trigger] b.connections[k],
                ) by {
                    let from = if k < g {
                        k
                    } else {
                        k + 1
                    };
                    assert(b.connections[k] == a.connections[from]);
                    assert(!is_conn(id.0)(a.connections[from]));
                }
                assert(b.connections[at] == a.connections[i]);
                lemma_first_where_is(b.connections, is_conn(id.0), at);
            }
        },
    }
}

/// What several steps keep.
proof fn lemma_lived(a: AppView, steps: Seq<ConnStep>, id: ConnectionId)
    requires
        a.wf(),
        a.has_ids(steps.len()),
    ensures
        ({
            let b = a.lived(steps);
            &&& b.wf()
            &&& a.next_client_id <= b.next_client_id <= a.next_client_id + steps.len()
            &&& a.next_connection_id <= b.next_connection_id <= a.next_connection_id + steps.len()
            &&& conn_at(a.connections, id.0) is Some && (forall|k: int|
                0 <= k < steps.len() ==> !ends(#[trigger] steps[k], id)) ==> keeps_conn(a, b, id)
            &&& conn_at(a.connections, id.0) is Some && (forall|k: int|
                0 <= k < steps.len() ==> !ends(#[trigger] steps[k], id) && !resumes(steps[k], id))
                ==> keeps_transport(a, b, id)
        }),
    decreases steps.len(),
{
    if steps.len() > 0 {
        let init = steps.drop_last();
        let n = steps.len() - 1;
        assert(forall|k: int| 0 <= k < init.len() ==> #[trigger] init[k] == steps[k]);
        lemma_lived(a, init, id);
        lemma_stepped(a.lived(init), steps[n], id);
    }
}

/// A client that resumes a connection keeps its identity and its counters, whatever connections
/// came and went since, as long as its own was not ended. It learns which transport it came from,
/// the new one is on record, and there are no more connections than before.
pub proof fn law_resume_keeps_identity(
    a: AppView,
    first: TransportKind,
    second: TransportKind,
    metrics: ConnectionMetrics,
    later: ConnectionMetrics,
    identity: IdentityView,
    label: Seq<char>,
    other: IdentityView,
    other_label: Seq<char>,
    steps: Seq<ConnStep>,
)
    requires
        a.wf(),
        a.has_ids(steps.len() + 1),
        forall|k: int|
            0 <= k < steps.len() ==> !ends(
                #[trigger] steps[k],
                a.registered(first, metrics, None, identity, label).1.connection_id,
            ),
    ensures
        ({
            let one = a.registered(first, metrics, None, identity, label);
            let id = one.1.connection_id;
            let b = one.0.lived(steps);
            let two = b.registered(second, later, Some(id), other, other_label);
            &&& two.1.client_id == one.1.client_id
            &&& two.1.connection_id == id
            &&& two.1.metrics == metrics
            &&& (forall|k: int| 0 <= k < steps.len() ==> !resumes(#[trigger] steps[k], id))
                ==> two.1.previous_transport == Some(first)
            &&& two.0.connections.len() == b.connections.len()
            &&& conn_at(two.0.connections, id.0) matches Some(i)
                && two.0.connections[i].transport == second
        }),
{
    law_register_keeps_wf(a, first, metrics, None, identity, label);
    let one = a.registered(first, metrics, None, identity, label);
    let n = a.connections.len() as int;
    let conn = one.1.connection_id;
    let id = conn.0;
    assert(one.0.connections[n].conn_id == id);
    assert forall|k: int| 0 <= k < n implies !is_conn(id)(#[trigger] one.0.connections[k]) by {
        assert(one.0.connections[k] == a.connections[k]);
        assert(a.connections[k].conn_id < a.next_connection_id);
    }
    lemma_first_where_is(one.0.connections, is_conn(id), n);
    lemma_lived(one.0, steps, conn);
    let b = one.0.lived(steps);
    let two = b.registered(second, later, Some(conn), other, other_label);
    lemma_first_where(b.connections, is_conn(id));
    let i = conn_at(b.connections, id)->0;
    assert forall|k: int| 0 <= k < i implies !is_conn(id)(#[trigger] two.0.connections[k]) by {
        assert(!is_conn(id)(b.connections[k]));
    }
    lemma_first_where_is(two.0.connections, is_conn(id), i);
}

/// A client that resumes nothing, or a connection that nobody knows, gets ids that were never
/// given out before, and its own counters.
pub proof fn law_fresh_ids_are_new(
    a: AppView,
    first: TransportKind,
    second: TransportKind,
    metrics: ConnectionMetrics,
    later: ConnectionMetrics,
    earlier: Option<ConnectionId>,
    incoming: Option<ConnectionId>,
    identity: IdentityView,
    label: Seq<char>,
    other: IdentityView,
    other_label: Seq<char>,
    steps: Seq<ConnStep>,
)
    requires
        a.wf(),
        a.has_ids(steps.len() + 1),
        a.registered(first, metrics, earlier, identity, label).0.lived(steps).resumed(
            incoming,
        ) is None,
    ensures
        ({
            let one = a.registered(first, metrics, earlier, identity, label);
            let b = one.0.lived(steps);
            let two = b.registered(second, later, incoming, other, other_label);
            &&& two.1.client_id.0 > one.1.client_id.0
            &&& two.1.connection_id.0 > one.1.connection_id.0
            &&& two.1.metrics == later
            &&& two.1.previous_transport is None
            &&& two.0.connections.len() == b.connections.len() + 1
        }),
{
    law_register_keeps_wf(a, first, metrics, earlier, identity, label);
    let one = a.registered(first, metrics, earlier, identity, label);
    if let Some(id) = earlier {
        lemma_first_where(a.connections, is_conn(id.0));
    }
    if let Some(i) = a.resumed(earlier) {
        assert(a.connections[i].conn_id < a.next_connection_id);
    }
    lemma_lived(one.0, steps, one.1.connection_id);
}

// ─── Reports ─────────────────────────────────────────────────────────────────

/// One connection, as reported with the sessions.
#[derive(Debug)]
pub struct ConnectionInfo {
    pub connection_id: u64,
    pub client_id: u64,
    pub transport: String,
    pub bytes_in: u64,
    pub bytes_out: u64,
    pub msgs_in: u64,
    pub msgs_out: u64,
    pub uptime_secs: u64,
    pub last_activity_ago_ms: Option<u64>,
    pub last_pong_ago_ms: Option<u64>,
    pub last_rtt_ms: Option<u64>,
}

pub struct ConnInfoView {
    pub connection_id: u64,
    pub client_id: u64,
    pub transport: Seq<char>,
    pub bytes_in: u64,
    pub bytes_out: u64,
    pub msgs_in: u64,
    pub msgs_out: u64,
    pub uptime_secs: u64,
    pub last_activity_ago_ms: Option<u64>,
    pub last_pong_ago_ms: Option<u64>,
    pub last_rtt_ms: Option<u64>,
}

impl View for ConnectionInfo {
    type V = ConnInfoView;

    open spec fn view(&self) -> ConnInfoView {
        ConnInfoView {
            connection_id: self.connection_id,
            client_id: self.client_id,
            transport: self.transport@,
            bytes_in: self.bytes_in,
            bytes_out: self.bytes_out,
            msgs_in: self.msgs_in,
            msgs_out: self.msgs_out,
            uptime_secs: self.uptime_secs,
            last_activity_ago_ms: self.last_activity_ago_ms,
            last_pong_ago_ms: self.last_pong_ago_ms,
            last_rtt_ms: self.last_rtt_ms,
        }
    }
}

/// The two clocks a report is made by, in milliseconds: time since the epoch, and monotonic time.
#[derive(Clone, Copy, Debug, PartialEq, Eq, Structural)]
pub struct Clock {
    pub epoch_ms: u64,
    pub monotonic_ms: u64,
}

/// How long ago `then` was; never, where it is zero.
pub open spec fn ago(now: u64, then: u64) -> Option<u64> {
    if then > 0 {
        Some(since(now, then))
    } else {
        None
    }
}

/// How a connection is reported. A time of zero means never; a round trip of `u64::MAX` means
/// unknown.
pub open spec fn conn_info(c: ConnectionView, now: Clock) -> ConnInfoView {
    ConnInfoView {
        connection_id: c.conn_id,
        client_id: c.client_id.0,
        transport: c.transport.name_text(),
        bytes_in: c.metrics.bytes_in,
        bytes_out: c.metrics.bytes_out,
        msgs_in: c.metrics.msgs_in,
        msgs_out: c.metrics.msgs_out,
        uptime_secs: since(now.monotonic_ms, c.metrics.created_at_ms) / 1000,
        last_activity_ago_ms: ago(now.epoch_ms, c.metrics.last_activity_ms),
        last_pong_ago_ms: ago(now.epoch_ms, c.metrics.last_pong_ms),
        last_rtt_ms: if c.metrics.last_rtt_ms != u64::MAX {
            Some(c.metrics.last_rtt_ms)
        } else {
            None
        },
    }
}

/// The connections of a pane's clients, in the clients' order.
pub open spec fn pane_conns(clients: Seq<ClientSender>, conns: Seq<ConnectionView>, now: Clock)
    -> Seq<ConnInfoView>
    decreases clients.len(),
{
    if clients.len() == 0 {
        Seq::empty()
    } else {
        let rest = pane_conns(clients.drop_last(), conns, now);
        match conn_of(conns, clients.last().client_id) {
            Some(i) => rest.push(conn_info(conns[i], now)),
            None => rest,
        }
    }
}

/// The connections of a session's clients, pane by pane.
pub open spec fn session_conns(panes: Seq<PaneView>, conns: Seq<ConnectionView>, now: Clock) -> Seq<
    ConnInfoView,
>
    decreases panes.len(),
{
    if panes.len() == 0 {
        Seq::empty()
    } else {
        session_conns(panes.drop_last(), conns, now) + pane_conns(
            panes.last().clients,
            conns,
            now,
        )
    }
}

/// Whether a client is attached to any of `panes`.
pub open spec fn attached_to(panes: Seq<PaneView>, id: ClientId) -> bool {
    exists|p: int| 0 <= p < panes.len() && client_at((#[trigger] panes[p]).clients, id) is Some
}

/// Whether a client is attached to a pane of any session.
pub open spec fn attached_anywhere(sessions: Seq<SessionView>, id: ClientId) -> bool {
    exists|s: int| 0 <= s < sessions.len() && attached_to((#[trigger] sessions[s]).panes, id)
}

/// The connections whose client is attached nowhere.
pub open spec fn unattached_conns(
    conns: Seq<ConnectionView>,
    sessions: Seq<SessionView>,
    now: Clock,
) -> Seq<ConnInfoView>
    decreases conns.len(),
{
    if conns.len() == 0 {
        Seq::empty()
    } else {
        let rest = unattached_conns(conns.drop_last(), sessions, now);
        if attached_anywhere(sessions, conns.last().client_id) {
            rest
        } else {
            rest.push(conn_info(conns.last(), now))
        }
    }
}

/// One session with its connections, as reported.
#[derive(Debug)]
pub struct SessionConnections {
    pub meta: SessionMeta,
    pub panes_count: usize,
    pub connections: Vec<ConnectionInfo>,
}

pub struct SessionConnsView {
    pub meta: MetaView,
    pub panes_count: nat,
    pub connections: Seq<ConnInfoView>,
}

impl View for SessionConnections {
    type V = SessionConnsView;

    open spec fn view(&self) -> SessionConnsView {
        SessionConnsView {
            meta: self.meta@,
            panes_count: self.panes_count as nat,
            connections: views(self.connections@),
        }
    }
}

/// All sessions with their connections, and the connections attached nowhere.
#[derive(Debug)]
pub struct SessionsResponse {
    pub sessions: Vec<SessionConnections>,
    pub unattached: Vec<ConnectionInfo>,
}

impl AppView {
    pub open spec fn session_report(self, i: int, now: Clock) -> SessionConnsView {
        SessionConnsView {
            meta: self.sessions[i].meta,
            panes_count: self.sessions[i].panes.len(),
            connections: session_conns(self.sessions[i].panes, self.connections, now),
        }
    }

    /// The sessions with their connections, in creation order.
    pub open spec fn session_reports(self, now: Clock) -> Seq<SessionConnsView> {
        arranged(
            Seq::new(self.sessions.len(), |i: int| self.session_report(i, now)),
            stable_order(session_keys(self.sessions)),
        )
    }
}

/// One connection, as listed for the administrator.
#[derive(Debug)]
pub struct ConnectionSummary {
    pub connection_id: u64,
    pub label: String,
    pub machine_id: String,
    pub frontend: String,
    pub build: String,
    pub build_profile: String,
    pub transport: String,
    pub uptime_secs: u64,
}

pub struct SummaryView {
    pub connection_id: u64,
    pub label: Seq<char>,
    pub machine_id: Seq<char>,
    pub frontend: Seq<char>,
    pub build: Seq<char>,
    pub build_profile: Seq<char>,
    pub transport: Seq<char>,
    pub uptime_secs: u64,
}

impl View for ConnectionSummary {
    type V = SummaryView;

    open spec fn view(&self) -> SummaryView {
        SummaryView {
            connection_id: self.connection_id,
            label: self.label@,
            machine_id: self.machine_id@,
            frontend: self.frontend@,
            build: self.build@,
            build_profile: self.build_profile@,
            transport: self.transport@,
            uptime_secs: self.uptime_secs,
        }
    }
}

pub open spec fn conn_summary(c: ConnectionView, now: Clock) -> SummaryView {
    SummaryView {
        connection_id: c.conn_id,
        label: c.label,
        machine_id: c.identity.machine_id,
        frontend: c.identity.client_kind,
        build: c.identity.build(),
        build_profile: c.identity.client_build_profile,
        transport: c.transport.name_text(),
        uptime_secs: since(now.monotonic_ms, c.metrics.created_at_ms) / 1000,
    }
}

pub open spec fn conn_keys(conns: Seq<ConnectionView>) -> Seq<u64> {
    Seq::new(conns.len(), |i: int| conns[i].conn_id)
}

pub open spec fn conn_summaries(conns: Seq<ConnectionView>, now: Clock) -> Seq<SummaryView> {
    Seq::new(conns.len(), |i: int| conn_summary(conns[i], now))
}

/// One client attached to a session, as reported to clients.
#[derive(Debug)]
pub struct ClientInfo {
    pub client_id: ClientId,
    pub connection_id: ConnectionId,
    pub label: String,
    pub machine_id: String,
    pub hostname: String,
    pub username: String,
    pub transport: String,
    /// Panes of the session it is attached to, by index.
    pub attached_panes: Vec<u32>,
    pub uptime_secs: u64,
    /// Whether it is the client that asked.
    pub is_self: bool,
    pub frontend: String,
    pub build: String,
    pub build_profile: String,
}

pub struct ClientInfoView {
    pub client_id: ClientId,
    pub connection_id: ConnectionId,
    pub label: Seq<char>,
    pub machine_id: Seq<char>,
    pub hostname: Seq<char>,
    pub username: Seq<char>,
    pub transport: Seq<char>,
    pub attached_panes: Seq<u32>,
    pub uptime_secs: u64,
    pub is_self: bool,
    pub frontend: Seq<char>,
    pub build: Seq<char>,
    pub build_profile: Seq<char>,
}

impl View for ClientInfo {
    type V = ClientInfoView;

    open spec fn view(&self) -> ClientInfoView {
        ClientInfoView {
            client_id: self.client_id,
            connection_id: self.connection_id,
            label: self.label@,
            machine_id: self.machine_id@,
            hostname: self.hostname@,
            username: self.username@,
            transport: self.transport@,
            attached_panes: self.attached_panes@,
            uptime_secs: self.uptime_secs,
            is_self: self.is_self,
            frontend: self.frontend@,
            build: self.build@,
            build_profile: self.build_profile@,
        }
    }
}

/// The indices of those of `panes` that a client is attached to.
pub open spec fn attached_indices(panes: Seq<PaneView>, id: ClientId) -> Seq<u32>
    decreases panes.len(),
{
    if panes.len() == 0 {
        Seq::empty()
    } else {
        let rest = attached_indices(panes.drop_last(), id);
        if client_at(panes.last().clients, id) is Some {
            rest.push(panes.last().pane_index)
        } else {
            rest
        }
    }
}

/// A session's panes by index.
pub open spec fn panes_by_index(panes: Seq<PaneView>) -> Seq<PaneView> {
    arranged(panes, stable_order(pane_keys(panes)))
}

pub open spec fn client_info(c: ConnectionView, panes: Seq<PaneView>, asker: ClientId, now: Clock)
    -> ClientInfoView {
    ClientInfoView {
        client_id: c.client_id,
        connection_id: ConnectionId(c.conn_id),
        label: c.label,
        machine_id: c.identity.machine_id,
        hostname: c.identity.hostname,
        username: c.identity.username,
        transport: c.transport.name_text(),
        attached_panes: attached_indices(panes_by_index(panes), c.client_id),
        uptime_secs: since(now.monotonic_ms, c.metrics.created_at_ms) / 1000,
        is_self: c.client_id == asker,
        frontend: c.identity.client_kind,
        build: c.identity.build(),
        build_profile: c.identity.client_build_profile,
    }
}

/// The connections whose client is attached to a session, in their order.
pub open spec fn attached_clients(
    conns: Seq<ConnectionView>,
    panes: Seq<PaneView>,
    asker: ClientId,
    now: Clock,
) -> Seq<ClientInfoView>
    decreases conns.len(),
{
    if conns.len() == 0 {
        Seq::empty()
    } else {
        let rest = attached_clients(conns.drop_last(), panes, asker, now);
        let info = client_info(conns.last(), panes, asker, now);
        if info.attached_panes.len() > 0 {
            rest.push(info)
        } else {
            rest
        }
    }
}

pub open spec fn client_keys(clients: Seq<ClientInfoView>) -> Seq<u64> {
    Seq::new(clients.len(), |i: int| clients[i].client_id.0)
}

impl AppView {
    /// The clients attached to a session, by client id.
    pub open spec fn session_clients(self, i: int, asker: ClientId, now: Clock) -> Seq<
        ClientInfoView,
    > {
        let all = attached_clients(self.connections, self.sessions[i].panes, asker, now);
        arranged(all, stable_order(client_keys(all)))
    }
}

/// Outcome of a request to kick a client out of a session.
#[derive(Clone, Copy, Debug, PartialEq, Eq, Structural)]
pub enum KickOutcome {
    /// The client was detached from the session.
    Kicked,
    /// No session has that word.
    SessionNotFound,
    /// The client is attached to no pane of the session.
    ClientNotFound,
}

fn uptime(c: &ConnectionState, now: Clock) -> (r: u64)
    ensures
        r == since(now.monotonic_ms, c@.metrics.created_at_ms) / 1000,
{
    now.monotonic_ms.saturating_sub(c.metrics.created_at_ms) / 1000
}

fn time_since(now: u64, then: u64) -> (r: Option<u64>)
    ensures
        r == ago(now, then),
{
    if then > 0 {
        Some(now.saturating_sub(then))
    } else {
        None
    }
}

impl ConnectionState {
    fn info(&self, now: Clock) -> (r: ConnectionInfo)
        ensures
            r@ == conn_info(self@, now),
    {
        let m = &self.metrics;
        ConnectionInfo {
            connection_id: self.conn_id,
            client_id: self.client_id.0,
            transport: self.transport.name(),
            bytes_in: m.bytes_in,
            bytes_out: m.bytes_out,
            msgs_in: m.msgs_in,
            msgs_out: m.msgs_out,
            uptime_secs: uptime(self, now),
            last_activity_ago_ms: time_since(now.epoch_ms, m.last_activity_ms),
            last_pong_ago_ms: time_since(now.epoch_ms, m.last_pong_ms),
            last_rtt_ms: if m.last_rtt_ms != u64::MAX {
                Some(m.last_rtt_ms)
            } else {
                None
            },
        }
    }

    fn summary(&self, now: Clock) -> (r: ConnectionSummary)
        ensures
            r@ == conn_summary(self@, now),
    {
        ConnectionSummary {
            connection_id: self.conn_id,
            label: self.label.clone(),
            machine_id: self.identity.machine_id.clone(),
            frontend: self.identity.client_kind.clone(),
            build: self.identity.build(),
            build_profile: self.identity.client_build_profile.clone(),
            transport: self.transport.name(),
            uptime_secs: uptime(self, now),
        }
    }
}

impl SessionState {
    /// Whether a client is attached to any pane of the session.
    pub fn has_client(&self, id: ClientId) -> (r: bool)
        ensures
            r == attached_to(self@.panes, id),
    {
        let mut i: usize = 0;
        while i < self.panes.len()
            invariant
                0 <= i <= self.panes@.len(),
                forall|j: int|
                    0 <= j < i ==> client_at((#[trigger] self@.panes[j]).clients, id) is None,
            decreases self.panes@.len() - i,
        {
            assert(self@.panes[i as int] == self.panes@[i as int]@);
            if self.panes[i].find_client(id).is_some() {
                return true;
            }
            i = i + 1;
        }
        false
    }

    /// The indices of the panes a client is attached to, ascending.
    pub fn panes_of_client(&self, id: ClientId) -> (r: Vec<u32>)
        ensures
            r@ == attached_indices(panes_by_index(self@.panes), id),
    {
        let mut keys: Vec<u64> = Vec::new();
        let mut i: usize = 0;
        while i < self.panes.len()
            invariant
                0 <= i <= self.panes@.len(),
                keys@.len() == i,
                forall|j: int| 0 <= j < i ==> keys@[j] == self.panes@[j].pane_index as u64,
            decreases self.panes@.len() - i,
        {
            keys.push(self.panes[i].pane_index as u64);
            i = i + 1;
        }
        assert(keys@ =~= pane_keys(self@.panes));
        let order = sorted_order(&keys);
        let ghost sorted = panes_by_index(self@.panes);
        let mut out: Vec<u32> = Vec::new();
        let mut k: usize = 0;
        assert(sorted.take(0).len() == 0);
        while k < order.len()
            invariant
                0 <= k <= order@.len(),
                keys@ == pane_keys(self@.panes),
                positions(order@) == stable_order(keys@),
                is_stable_order(keys@, stable_order(keys@)),
                sorted == panes_by_index(self@.panes),
                sorted.len() == order@.len(),
                out@ == attached_indices(sorted.take(k as int), id),
            decreases order@.len() - k,
        {
            let ghost o = stable_order(keys@);
            assert(o[k as int] == order@[k as int] as int);
            let at: usize = order[k];
            proof {
                assert(self@.panes[at as int] == self.panes@[at as int]@);
                let next = sorted.take(k as int + 1);
                assert(next.drop_last() =~= sorted.take(k as int));
                assert(next.last() == self@.panes[at as int]);
            }
            if self.panes[at].find_client(id).is_some() {
                out.push(self.panes[at].pane_index);
            }
            k = k + 1;
        }
        assert(sorted.take(sorted.len() as int) =~= sorted);
        out
    }
}

impl ServerApp {
    /// Where a connection stands.
    pub fn connection_position(&self, id: u64) -> (r: Option<usize>)
        ensures
            match r {
                Some(i) => i < self.connections@.len() && conn_at(self@.connections, id) == Some(
                    i as int,
                ),
                None => conn_at(self@.connections, id) is None,
            },
    {
        let mut i: usize = 0;
        while i < self.connections.len()
            invariant
                0 <= i <= self.connections@.len(),
                forall|j: int| 0 <= j < i ==> !is_conn(id)(#[trigger] self@.connections[j]),
            decreases self.connections@.len() - i,
        {
            assert(self@.connections[i as int] == self.connections@[i as int]@);
            if self.connections[i].conn_id == id {
                proof {
                    lemma_first_where_is(self@.connections, is_conn(id), i as int);
                }
                return Some(i);
            }
            i = i + 1;
        }
        proof {
            lemma_first_where_none(self@.connections, is_conn(id));
        }
        None
    }

    /// Where the connection of a client stands.
    pub fn client_connection(&self, id: ClientId) -> (r: Option<usize>)
        ensures
            match r {
                Some(i) => i < self.connections@.len() && conn_of(self@.connections, id) == Some(
                    i as int,
                ),
                None => conn_of(self@.connections, id) is None,
            },
    {
        let mut i: usize = 0;
        while i < self.connections.len()
            invariant
                0 <= i <= self.connections@.len(),
                forall|j: int| 0 <= j < i ==> !serves(id)(#[trigger] self@.connections[j]),
            decreases self.connections@.len() - i,
        {
            assert(self@.connections[i as int] == self.connections@[i as int]@);
            if self.connections[i].client_id == id {
                proof {
                    lemma_first_where_is(self@.connections, serves(id), i as int);
                }
                return Some(i);
            }
            i = i + 1;
        }
        proof {
            lemma_first_where_none(self@.connections, serves(id));
        }
        None
    }

    /// Register a client that connected. With the id of a live connection in `incoming`, that
    /// connection is resumed over another transport.
    pub fn register_client(
        &mut self,
        transport: TransportKind,
        new_metrics: ConnectionMetrics,
        incoming: Option<ConnectionId>,
        identity: ClientIdentity,
        label: String,
    ) -> (r: Registration)
        requires
            old(self)@.next_client_id < u64::MAX,
            old(self)@.next_connection_id < u64::MAX,
        ensures
            (final(self)@, r@) == old(self)@.registered(
                transport,
                new_metrics,
                incoming,
                identity@,
                label@,
            ),
            old(self)@.wf() ==> final(self)@.wf(),
    {
        broadcast use group_views;

        let ghost before = self@;
        proof {
            if before.wf() {
                law_register_keeps_wf(
                    before,
                    transport,
                    new_metrics,
                    incoming,
                    identity@,
                    label@,
                );
            }
        }
        let known = match incoming {
            Some(id) => self.connection_position(id.0),
            None => None,
        };
        if let Some(i) = known {
            proof {
                if let Some(id) = incoming {
                    lemma_first_where(before.connections, is_conn(id.0));
                }
                assert(before.connections[i as int] == self.connections@[i as int]@);
            }
            let previous = self.connections[i].transport;
            self.connections[i].transport = transport;
            assert(self@.connections =~= before.connections.update(
                i as int,
                ConnectionView { transport, ..before.connections[i as int] },
            ));
            let c = &self.connections[i];
            return Registration {
                client_id: c.client_id,
                connection_id: ConnectionId(c.conn_id),
                metrics: c.metrics,
                previous_transport: Some(previous),
                label: c.label.clone(),
            };
        }
        let client_id = ClientId(self.next_client_id);
        let conn_id: u64 = self.next_connection_id;
        self.next_client_id = self.next_client_id + 1;
        self.next_connection_id = conn_id + 1;
        self.connections.push(
            ConnectionState {
                conn_id,
                client_id,
                transport,
                metrics: new_metrics,
                identity,
                label: label.clone(),
            },
        );
        Registration {
            client_id,
            connection_id: ConnectionId(conn_id),
            metrics: new_metrics,
            previous_transport: None,
            label,
        }
    }

    /// Forget a connection whose client disconnected.
    pub fn unregister_client(&mut self, conn_id: ConnectionId)
        ensures
            final(self)@ == old(self)@.unregistered(conn_id),
            old(self)@.wf() ==> final(self)@.wf(),
    {
        broadcast use group_views;

        proof {
            if self@.wf() {
                law_unregister_keeps_wf(self@, conn_id);
            }
        }
        if let Some(i) = self.connection_position(conn_id.0) {
            let _gone = self.connections.remove(i);
        }
    }

    /// Number of live connections.
    pub fn connection_count(&self) -> (r: usize)
        ensures
            r == self@.connections.len(),
    {
        self.connections.len()
    }

    /// Record the current counters of a connection.
    pub fn publish_metrics(&mut self, conn_id: ConnectionId, metrics: ConnectionMetrics)
        ensures
            final(self)@ == match conn_at(old(self)@.connections, conn_id.0) {
                Some(i) => AppView {
                    connections: old(self)@.connections.update(
                        i,
                        ConnectionView { metrics, ..old(self)@.connections[i] },
                    ),
                    ..old(self)@
                },
                None => old(self)@,
            },
            old(self)@.wf() ==> final(self)@.wf(),
    {
        let ghost before = self@;
        if let Some(i) = self.connection_position(conn_id.0) {
            assert(before.connections[i as int] == self.connections@[i as int]@);
            self.connections[i].metrics = metrics;
            proof {
                assert(self@.connections =~= before.connections.update(
                    i as int,
                    ConnectionView { metrics, ..before.connections[i as int] },
                ));
                assert(forall|k: int|
                    0 <= k < before.connections.len() ==> (#[trigger] self@.connections[k]).conn_id
                        == before.connections[k].conn_id && self@.connections[k].client_id
                        == before.connections[k].client_id);
            }
        }
    }

    fn pane_connections(&self, clients: &Vec<ClientSender>, now: Clock) -> (r: Vec<ConnectionInfo>)
        ensures
            views(r@) == pane_conns(clients@, self@.connections, now),
    {
        broadcast use group_views;

        let mut out: Vec<ConnectionInfo> = Vec::new();
        let mut i: usize = 0;
        assert(views(out@) =~= pane_conns(clients@.take(0), self@.connections, now));
        while i < clients.len()
            invariant
                0 <= i <= clients@.len(),
                views(out@) == pane_conns(clients@.take(i as int), self@.connections, now),
            decreases clients@.len() - i,
        {
            proof {
                let next = clients@.take(i as int + 1);
                assert(next.drop_last() =~= clients@.take(i as int));
                assert(next.last() == clients@[i as int]);
            }
            if let Some(c) = self.client_connection(clients[i].client_id) {
                assert(self@.connections[c as int] == self.connections@[c as int]@);
                out.push(self.connections[c].info(now));
            }
            i = i + 1;
        }
        assert(clients@.take(clients@.len() as int) =~= clients@);
        out
    }

    fn session_connections(&self, session: &SessionState, now: Clock) -> (r: Vec<ConnectionInfo>)
        ensures
            views(r@) == session_conns(session@.panes, self@.connections, now),
    {
        let mut out: Vec<ConnectionInfo> = Vec::new();
        let mut i: usize = 0;
        assert(views(out@) =~= session_conns(session@.panes.take(0), self@.connections, now));
        while i < session.panes.len()
            invariant
                0 <= i <= session.panes@.len(),
                views(out@) == session_conns(
                    session@.panes.take(i as int),
                    self@.connections,
                    now,
                ),
            decreases session.panes@.len() - i,
        {
            proof {
                let next = session@.panes.take(i as int + 1);
                assert(next.drop_last() =~= session@.panes.take(i as int));
                assert(next.last() == session.panes@[i as int]@);
            }
            let mut more = self.pane_connections(&session.panes[i].clients, now);
            let ghost had = out@;
            let ghost came = more@;
            out.append(&mut more);
            assert(views(out@) =~= views(had) + views(came));
            i = i + 1;
        }
        assert(session@.panes.take(session@.panes.len() as int) =~= session@.panes);
        out
    }

    fn is_attached(&self, id: ClientId) -> (r: bool)
        ensures
            r == attached_anywhere(self@.sessions, id),
    {
        let mut i: usize = 0;
        while i < self.sessions.len()
            invariant
                0 <= i <= self.sessions@.len(),
                forall|j: int|
                    0 <= j < i ==> !attached_to((#[trigger] self@.sessions[j]).panes, id),
            decreases self.sessions@.len() - i,
        {
            assert(self@.sessions[i as int] == self.sessions@[i as int]@);
            if self.sessions[i].has_client(id) {
                return true;
            }
            i = i + 1;
        }
        false
    }

    /// Report all sessions with the connections attached to them, and the connections attached
    /// to none.
    pub fn snapshot_sessions_with_connections(&self, now: Clock) -> (r: SessionsResponse)
        ensures
            views(r.sessions@) == self@.session_reports(now),
            views(r.unattached@) == unattached_conns(self@.connections, self@.sessions, now),
    {
        broadcast use group_views;

        let mut reports: Vec<SessionConnections> = Vec::new();
        let mut i: usize = 0;
        while i < self.sessions.len()
            invariant
                0 <= i <= self.sessions@.len(),
                reports@.len() == i,
                forall|j: int|
                    0 <= j < i ==> (#[trigger] reports@[j])@ == self@.session_report(j, now),
            decreases self.sessions@.len() - i,
        {
            assert(self@.sessions[i as int] == self.sessions@[i as int]@);
            let session = &self.sessions[i];
            reports.push(
                SessionConnections {
                    meta: session.meta.copy(),
                    panes_count: session.panes.len(),
                    connections: self.session_connections(session, now),
                },
            );
            i = i + 1;
        }
        let keys = self.session_order_keys();
        let order = sorted_order(&keys);
        let ghost all = reports@;
        proof {
            lemma_order_distinct(keys@, order@);
        }
        let sessions = arrange(reports, &order);
        assert(views(sessions@) =~= self@.session_reports(now));
        let mut unattached: Vec<ConnectionInfo> = Vec::new();
        let mut k: usize = 0;
        let ghost conns = self@.connections;
        assert(views(unattached@) =~= unattached_conns(conns.take(0), self@.sessions, now));
        while k < self.connections.len()
            invariant
                0 <= k <= self.connections@.len(),
                conns == self@.connections,
                views(unattached@) == unattached_conns(
                    conns.take(k as int),
                    self@.sessions,
                    now,
                ),
            decreases self.connections@.len() - k,
        {
            proof {
                let next = conns.take(k as int + 1);
                assert(next.drop_last() =~= conns.take(k as int));
                assert(next.last() == self.connections@[k as int]@);
            }
            if !self.is_attached(self.connections[k].client_id) {
                unattached.push(self.connections[k].info(now));
            }
            k = k + 1;
        }
        assert(conns.take(conns.len() as int) =~= conns);
        SessionsResponse { sessions, unattached }
    }

    /// List every live connection with its build, by id.
    pub fn snapshot_connections(&self, now: Clock) -> (r: Vec<ConnectionSummary>)
        ensures
            views(r@) == arranged(
                conn_summaries(self@.connections, now),
                stable_order(conn_keys(self@.connections)),
            ),
    {
        let mut keys: Vec<u64> = Vec::new();
        let mut all: Vec<ConnectionSummary> = Vec::new();
        let mut i: usize = 0;
        while i < self.connections.len()
            invariant
                0 <= i <= self.connections@.len(),
                keys@.len() == i,
                all@.len() == i,
                forall|j: int| 0 <= j < i ==> keys@[j] == self@.connections[j].conn_id,
                forall|j: int|
                    0 <= j < i ==> (#[trigger] all@[j])@ == conn_summary(
                        self@.connections[j],
                        now,
                    ),
            decreases self.connections@.len() - i,
        {
            assert(self@.connections[i as int] == self.connections@[i as int]@);
            keys.push(self.connections[i].conn_id);
            all.push(self.connections[i].summary(now));
            i = i + 1;
        }
        let order = sorted_order(&keys);
        proof {
            assert(keys@ =~= conn_keys(self@.connections));
            lemma_order_distinct(keys@, order@);
        }
        let r = arrange(all, &order);
        assert(views(r@) =~= arranged(
            conn_summaries(self@.connections, now),
            stable_order(conn_keys(self@.connections)),
        ));
        r
    }

    /// List the clients attached to a session. `None` where no session has that word.
    pub fn list_session_clients(&self, word_id: &str, requester: ClientId, now: Clock) -> (r:
        Option<Vec<ClientInfo>>)
        ensures
            match session_at(self@.sessions, word_id@) {
                Some(i) => r matches Some(v) && views(v@) == self@.session_clients(
                    i,
                    requester,
                    now,
                ),
                None => r is None,
            },
    {
        broadcast use group_views;

        match self.session_position(word_id) {
            None => None,
            Some(s) => {
                assert(self@.sessions[s as int] == self.sessions@[s as int]@);
                let session = &self.sessions[s];
                let ghost panes = self@.sessions[s as int].panes;
                let ghost conns = self@.connections;
                let mut out: Vec<ClientInfo> = Vec::new();
                let mut keys: Vec<u64> = Vec::new();
                let mut k: usize = 0;
                assert(views(out@) =~= attached_clients(conns.take(0), panes, requester, now));
                assert(keys@ =~= client_keys(views(out@)));
                while k < self.connections.len()
                    invariant
                        0 <= k <= self.connections@.len(),
                        conns == self@.connections,
                        panes == session@.panes,
                        views(out@) == attached_clients(
                            conns.take(k as int),
                            panes,
                            requester,
                            now,
                        ),
                        keys@ == client_keys(views(out@)),
                    decreases self.connections@.len() - k,
                {
                    proof {
                        let next = conns.take(k as int + 1);
                        assert(next.drop_last() =~= conns.take(k as int));
                        assert(next.last() == self.connections@[k as int]@);
                    }
                    let c = &self.connections[k];
                    let attached_panes = session.panes_of_client(c.client_id);
                    if attached_panes.len() > 0 {
                        let ghost had = views(out@);
                        let info = ClientInfo {
                            client_id: c.client_id,
                            connection_id: ConnectionId(c.conn_id),
                            label: c.label.clone(),
                            machine_id: c.identity.machine_id.clone(),
                            hostname: c.identity.hostname.clone(),
                            username: c.identity.username.clone(),
                            transport: c.transport.name(),
                            attached_panes,
                            uptime_secs: uptime(c, now),
                            is_self: c.client_id == requester,
                            frontend: c.identity.client_kind.clone(),
                            build: c.identity.build(),
                            build_profile: c.identity.client_build_profile.clone(),
                        };
                        keys.push(c.client_id.0);
                        out.push(info);
                        assert(keys@ =~= client_keys(views(out@)));
                    }
                    k = k + 1;
                }
                proof {
                    assert(conns.take(conns.len() as int) =~= conns);
                }
                let order = sorted_order(&keys);
                let ghost all = views(out@);
                proof {
                    lemma_order_distinct(keys@, order@);
                }
                let r = arrange(out, &order);
                assert(views(r@) =~= arranged(all, stable_order(client_keys(all))));
                Some(r)
            },
        }
    }

    /// Detach a client from every pane of a session; its connection stays alive. Returns the
    /// outcome and the size changes to announce.
    pub fn kick_client_from_session(&mut self, word_id: &str, target: ClientId) -> (r: (
        KickOutcome,
        Vec<ResizeNotice>,
    ))
        ensures
            match session_at(old(self)@.sessions, word_id@) {
                None => {
                    &&& final(self)@ == old(self)@
                    &&& r.0 == KickOutcome::SessionNotFound
                    &&& r.1@.len() == 0
                },
                Some(i) => {
                    let s = old(self)@.sessions[i];
                    if attached_to(s.panes, target) {
                        &&& final(self)@ == old(self)@.with_session_at(
                            i,
                            changed_session(s, leaving(target)),
                        )
                        &&& r.0 == KickOutcome::Kicked
                        &&& views(r.1@) == leave_notices(s.panes, s.meta.word_id, target)
                    } else {
                        &&& final(self)@ == old(self)@
                        &&& r.0 == KickOutcome::ClientNotFound
                        &&& r.1@.len() == 0
                    }
                },
            },
            old(self)@.wf() ==> final(self)@.wf(),
    {
        let ghost before = self@;
        match self.session_position(word_id) {
            None => (KickOutcome::SessionNotFound, Vec::new()),
            Some(i) => {
                assert(before.sessions[i as int] == self.sessions@[i as int]@);
                if !self.sessions[i].has_client(target) {
                    return (KickOutcome::ClientNotFound, Vec::new());
                }
                let notices = self.session_slot(i).detach_client(target);
                proof {
                    if before.wf() {
                        super::attach::lemma_leave_session_keeps_wf(
                            before.sessions[i as int],
                            target,
                        );
                        super::lemma_with_session_keeps_wf(
                            before,
                            i as int,
                            changed_session(before.sessions[i as int], leaving(target)),
                        );
                    }
                }
                (KickOutcome::Kicked, notices)
            },
        }
    }
}

} // verus!
