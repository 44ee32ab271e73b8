//! What is known of the connected clients: who they are, what they see, and what is reported of
//! them.

use super::attach::{leave_all_notices, leave_notices};
use super::clients::{
    ago, attached_clients, attached_indices, attached_to, client_info, client_keys, conn_at,
    conn_info, conn_keys, conn_of, conn_summaries, conn_summary, is_conn, pane_conns,
    panes_by_index, serves, session_conns, unattached_conns, Clock,
};
use super::persistence::session_keys;
use super::AppView;
use crate::app::crud::session_entries;
use crate::config::TransportKind;
use crate::connection::{ConnectionMetrics, ConnectionView, IdentityView};
use crate::list::{arranged, lemma_arranged, lemma_first_where, lemma_first_where_is, stable_order};
use crate::pane::{client_at, is_client, ClientSender, PaneView};
use crate::protocol::{ClientId, ConnectionId};
use crate::session::{pane_keys, SessionView};
use crate::text::pane_id_text;
use vstd::prelude::*;

verus! {

/// A client that was not there before: its connection is added behind the others, with all that
/// is known of it, and the next ids are one higher. Nothing else changes.
pub proof fn law_new_connection_is_added(
    a: AppView,
    transport: TransportKind,
    metrics: ConnectionMetrics,
    incoming: Option<ConnectionId>,
    identity: IdentityView,
    label: Seq<char>,
)
    requires
        incoming matches Some(id) ==> forall|i: int|
            0 <= i < a.connections.len() ==> (#[trigger] a.connections[i]).conn_id != id.0,
        a.next_client_id < u64::MAX,
        a.next_connection_id < u64::MAX,
    ensures
        ({
            let (b, reg) = a.registered(transport, metrics, incoming, identity, label);
            &&& b.connections == a.connections.push(
                ConnectionView {
                    conn_id: a.next_connection_id,
                    client_id: ClientId(a.next_client_id),
                    transport,
                    metrics,
                    identity,
                    label,
                },
            )
            &&& b.next_client_id == a.next_client_id + 1
            &&& b.next_connection_id == a.next_connection_id + 1
            &&& b == (AppView {
                connections: b.connections,
                next_client_id: b.next_client_id,
                next_connection_id: b.next_connection_id,
                ..a
            })
            &&& reg.client_id == ClientId(a.next_client_id)
            &&& reg.connection_id == ConnectionId(a.next_connection_id)
            &&& reg.metrics == metrics
            &&& reg.label == label
            &&& reg.previous_transport is None
        }),
{
    if let Some(id) = incoming {
        lemma_first_where(a.connections, is_conn(id.0));
    }
}

/// A client that comes back: its connection runs over the new transport, and is otherwise as it
/// was, as are the others. The client is told the transport that it left.
pub proof fn law_resumed_connection_is_kept(
    a: AppView,
    transport: TransportKind,
    metrics: ConnectionMetrics,
    identity: IdentityView,
    label: Seq<char>,
    i: int,
)
    requires
        a.wf(),
        0 <= i < a.connections.len(),
    ensures
        ({
            let c = a.connections[i];
            let id = ConnectionId(c.conn_id);
            let (b, reg) = a.registered(transport, metrics, Some(id), identity, label);
            &&& b.connections.len() == a.connections.len()
            &&& b.connections[i] == (ConnectionView { transport, ..c })
            &&& forall|j: int|
                0 <= j < a.connections.len() && j != i ==> #[trigger] b.connections[j]
                    == a.connections[j]
            &&& b == (AppView { connections: b.connections, ..a })
            &&& reg.client_id == c.client_id
            &&& reg.connection_id == id
            &&& reg.metrics == c.metrics
            &&& reg.label == c.label
            &&& reg.previous_transport == Some(c.transport)
        }),
{
    lemma_conn_found(a, i);
}

/// In a well-formed state, a connection is found by its id and by its client.
pub proof fn lemma_conn_found(a: AppView, i: int)
    requires
        a.wf(),
        0 <= i < a.connections.len(),
    ensures
        conn_at(a.connections, a.connections[i].conn_id) == Some(i),
        conn_of(a.connections, a.connections[i].client_id) == Some(i),
{
    let c = a.connections[i];
    assert forall|j: int| 0 <= j < i implies !is_conn(c.conn_id)(#[trigger] a.connections[j]) by {
        assert(a.connections[j].conn_id != a.connections[i].conn_id);
    }
    lemma_first_where_is(a.connections, is_conn(c.conn_id), i);
    assert forall|j: int| 0 <= j < i implies !serves(c.client_id)(#[trigger] a.connections[j]) by {
        assert(a.connections[j].conn_id != a.connections[i].conn_id);
    }
    lemma_first_where_is(a.connections, serves(c.client_id), i);
}

/// A connection that ends is gone, and the others stay as they are and in their order; ending one
/// that is not there changes nothing.
pub proof fn law_ended_connection_is_gone(a: AppView, id: ConnectionId)
    requires
        a.wf(),
    ensures
        forall|i: int|
            0 <= i < a.connections.len() && (#[trigger] a.connections[i]).conn_id == id.0 ==> {
                &&& a.unregistered(id).connections == a.connections.remove(i)
                &&& a.unregistered(id) == (AppView {
                    connections: a.unregistered(id).connections,
                    ..a
                })
            },
        (forall|i: int|
            0 <= i < a.connections.len() ==> (#[trigger] a.connections[i]).conn_id != id.0)
            ==> a.unregistered(id) == a,
{
    lemma_first_where(a.connections, is_conn(id.0));
    assert forall|i: int|
        0 <= i < a.connections.len() && (#[trigger] a.connections[i]).conn_id == id.0 implies {
        &&& a.unregistered(id).connections == a.connections.remove(i)
        &&& a.unregistered(id) == (AppView { connections: a.unregistered(id).connections, ..a })
    } by {
        lemma_conn_found(a, i);
    }
}

// ─── Reports ─────────────────────────────────────────────────────────────────

/// What is reported of a connection: its ids, its counts as they are, how many full seconds it has
/// been up, and how long ago it was heard of. What never happened was not so and so long ago.
pub proof fn law_connection_report_is_true(c: ConnectionView, now: Clock)
    ensures
        ({
            let r = conn_info(c, now);
            let m = c.metrics;
            &&& r.connection_id == c.conn_id
            &&& r.client_id == c.client_id.0
            &&& r.bytes_in == m.bytes_in && r.bytes_out == m.bytes_out
            &&& r.msgs_in == m.msgs_in && r.msgs_out == m.msgs_out
            &&& now.monotonic_ms >= m.created_at_ms ==> r.uptime_secs * 1000 <= now.monotonic_ms
                - m.created_at_ms < r.uptime_secs * 1000 + 1000
            &&& now.monotonic_ms < m.created_at_ms ==> r.uptime_secs == 0
            &&& m.last_activity_ms == 0 ==> r.last_activity_ago_ms is None
            &&& 0 < m.last_activity_ms <= now.epoch_ms ==> r.last_activity_ago_ms == Some(
                (now.epoch_ms - m.last_activity_ms) as u64,
            )
            &&& m.last_activity_ms > now.epoch_ms ==> r.last_activity_ago_ms == Some(0u64)
            &&& m.last_pong_ms == 0 ==> r.last_pong_ago_ms is None
            &&& 0 < m.last_pong_ms <= now.epoch_ms ==> r.last_pong_ago_ms == Some(
                (now.epoch_ms - m.last_pong_ms) as u64,
            )
            &&& m.last_pong_ms > now.epoch_ms ==> r.last_pong_ago_ms == Some(0u64)
            &&& m.last_rtt_ms == u64::MAX ==> r.last_rtt_ms is None
            &&& m.last_rtt_ms < u64::MAX ==> r.last_rtt_ms == Some(m.last_rtt_ms)
        }),
        transport_is_named(c, now),
{
}

/// The transport is reported by its name.
pub open spec fn transport_is_named(c: ConnectionView, now: Clock) -> bool {
    let name = match c.transport {
        TransportKind::Quic => "QUIC"@,
        TransportKind::Tcp => "TCP"@,
        TransportKind::TcpTls => "TCP+TLS"@,
        TransportKind::Uds => "UDS"@,
    };
    &&& conn_info(c, now).transport == name
    &&& conn_summary(c, now).transport == name
}

/// The short report of a connection: who it is, what it runs, and how many full seconds it has
/// been up. A build from a changed tree is marked.
pub proof fn law_connection_summary_is_true(c: ConnectionView, now: Clock)
    ensures
        ({
            let r = conn_summary(c, now);
            &&& r.connection_id == c.conn_id
            &&& r.label == c.label
            &&& r.machine_id == c.identity.machine_id
            &&& r.frontend == c.identity.client_kind
            &&& !c.identity.client_git_dirty ==> r.build == c.identity.client_git_sha
            &&& c.identity.client_git_dirty ==> r.build == c.identity.client_git_sha + "-dirty"@
            &&& r.build_profile == c.identity.client_build_profile
            &&& now.monotonic_ms >= c.metrics.created_at_ms ==> r.uptime_secs * 1000
                <= now.monotonic_ms - c.metrics.created_at_ms < r.uptime_secs * 1000 + 1000
        }),
{
}

/// The short reports stand in the order of the connections' ids, one for each connection.
pub proof fn law_every_connection_is_summed_up(a: AppView, now: Clock)
    ensures
        ({
            let r = arranged(
                conn_summaries(a.connections, now),
                stable_order(conn_keys(a.connections)),
            );
            &&& r.len() == a.connections.len()
            &&& forall|i: int|
                0 <= i < a.connections.len() ==> r.contains(
                    conn_summary(#[trigger] a.connections[i], now),
                )
            &&& forall|i: int, j: int|
                0 <= i < j < r.len() ==> (#[trigger] r[i]).connection_id <= (
                #[trigger] r[j]).connection_id
        }),
{
    let all = conn_summaries(a.connections, now);
    let keys = conn_keys(a.connections);
    lemma_arranged(all, keys);
    let r = arranged(all, stable_order(keys));
    assert forall|i: int| 0 <= i < a.connections.len() implies r.contains(
        conn_summary(#[trigger] a.connections[i], now),
    ) by {
        assert(r.contains(all[i]));
    }
    assert forall|i: int, j: int| 0 <= i < j < r.len() implies (#[trigger] r[i]).connection_id <= (
    #[trigger] r[j]).connection_id by {
        let o = stable_order(keys);
        assert(keys[o[i]] <= keys[o[j]]);
    }
}

/// A pane's connections are those of its clients, in the order of the clients; a client that has
/// none is left out. A session's are those of its panes, one pane after the other.
pub proof fn law_connections_of_panes(
    clients: Seq<ClientSender>,
    c: ClientSender,
    panes: Seq<PaneView>,
    p: PaneView,
    conns: Seq<ConnectionView>,
    now: Clock,
)
    ensures
        pane_conns(Seq::empty(), conns, now).len() == 0,
        match conn_of(conns, c.client_id) {
            Some(i) => pane_conns(clients.push(c), conns, now) == pane_conns(
                clients,
                conns,
                now,
            ).push(conn_info(conns[i], now)),
            None => pane_conns(clients.push(c), conns, now) == pane_conns(clients, conns, now),
        },
        session_conns(Seq::empty(), conns, now).len() == 0,
        session_conns(panes.push(p), conns, now) == session_conns(panes, conns, now) + pane_conns(
            p.clients,
            conns,
            now,
        ),
{
    assert(clients.push(c).drop_last() =~= clients);
    assert(panes.push(p).drop_last() =~= panes);
}

/// A connection counts as unattached exactly when no pane of any session has its client; the
/// unattached ones are reported in order.
pub proof fn law_who_is_unattached(
    conns: Seq<ConnectionView>,
    c: ConnectionView,
    sessions: Seq<SessionView>,
    now: Clock,
)
    ensures
        ({
            let somewhere = exists|s: int, p: int|
                0 <= s < sessions.len() && 0 <= p < sessions[s].panes.len() && client_at(
                    (#[trigger] sessions[s].panes[p]).clients,
                    c.client_id,
                ) is Some;
            let before = unattached_conns(conns, sessions, now);
            let after = unattached_conns(conns.push(c), sessions, now);
            &&& somewhere ==> after == before
            &&& !somewhere ==> after == before.push(conn_info(c, now))
        }),
        unattached_conns(Seq::empty(), sessions, now).len() == 0,
{
    assert(conns.push(c).drop_last() =~= conns);
    if exists|s: int, p: int|
        0 <= s < sessions.len() && 0 <= p < sessions[s].panes.len() && client_at(
            (#[trigger] sessions[s].panes[p]).clients,
            c.client_id,
        ) is Some {
        let (s, p) = choose|s: int, p: int|
            0 <= s < sessions.len() && 0 <= p < sessions[s].panes.len() && client_at(
                (#[trigger] sessions[s].panes[p]).clients,
                c.client_id,
            ) is Some;
        assert(attached_to(sessions[s].panes, c.client_id));
    }
}

/// Each session is reported with its name, how many panes it has and its connections, the
/// sessions in the order of their numbers.
pub proof fn law_sessions_are_reported(a: AppView, now: Clock)
    ensures
        ({
            let r = a.session_reports(now);
            &&& r.len() == a.sessions.len()
            &&& forall|i: int|
                #![trigger a.sessions[i]]
                0 <= i < a.sessions.len() ==> exists|k: int|
                    0 <= k < r.len() && (#[trigger] r[k]).meta == a.sessions[i].meta
                        && r[k].panes_count == a.sessions[i].panes.len() && r[k].connections
                        == session_conns(a.sessions[i].panes, a.connections, now)
            &&& forall|i: int, j: int|
                0 <= i < j < r.len() ==> (#[trigger] r[i]).meta.index <= (
                #[trigger] r[j]).meta.index
        }),
{
    let all = Seq::new(a.sessions.len(), |i: int| a.session_report(i, now));
    let keys = session_keys(a.sessions);
    lemma_arranged(all, keys);
    let r = a.session_reports(now);
    assert forall|i: int|
        #![trigger a.sessions[i]]
        0 <= i < a.sessions.len() implies exists|k: int|
        0 <= k < r.len() && (#[trigger] r[k]).meta == a.sessions[i].meta && r[k].panes_count
            == a.sessions[i].panes.len() && r[k].connections == session_conns(
            a.sessions[i].panes,
            a.connections,
            now,
        ) by {
        assert(r.contains(all[i]));
        let k = choose|k: int| 0 <= k < r.len() && r[k] == all[i];
        assert(r[k].meta == a.sessions[i].meta);
    }
    assert forall|i: int, j: int| 0 <= i < j < r.len() implies (#[trigger] r[i]).meta.index <= (
    #[trigger] r[j]).meta.index by {
        let o = stable_order(keys);
        assert(keys[o[i]] <= keys[o[j]]);
    }
}

/// The sessions are listed in the order of their numbers, each once and as it is.
pub proof fn law_sessions_are_listed(a: AppView)
    ensures
        ({
            let r = a.listed();
            &&& r.len() == a.sessions.len()
            &&& forall|i: int|
                0 <= i < a.sessions.len() ==> r.contains((#[trigger] a.sessions[i]).entry())
            &&& forall|i: int, j: int|
                0 <= i < j < r.len() ==> (#[trigger] r[i]).meta.index <= (
                #[trigger] r[j]).meta.index
        }),
{
    let all = session_entries(a.sessions);
    let keys = session_keys(a.sessions);
    lemma_arranged(all, keys);
    let r = a.listed();
    assert forall|i: int| 0 <= i < a.sessions.len() implies r.contains(
        (#[trigger] a.sessions[i]).entry(),
    ) by {
        assert(r.contains(all[i]));
    }
    assert forall|i: int, j: int| 0 <= i < j < r.len() implies (#[trigger] r[i]).meta.index <= (
    #[trigger] r[j]).meta.index by {
        let o = stable_order(keys);
        assert(keys[o[i]] <= keys[o[j]]);
    }
}

/// The panes of a session that a client sees are those that have an entry for it.
pub proof fn law_which_panes_a_client_sees(panes: Seq<PaneView>, p: PaneView, id: ClientId)
    ensures
        attached_indices(Seq::empty(), id).len() == 0,
        (exists|k: int| 0 <= k < p.clients.len() && (#[trigger] p.clients[k]).client_id == id)
            ==> attached_indices(panes.push(p), id) == attached_indices(panes, id).push(
            p.pane_index,
        ),
        (forall|k: int| 0 <= k < p.clients.len() ==> (#[trigger] p.clients[k]).client_id != id)
            ==> attached_indices(panes.push(p), id) == attached_indices(panes, id),
{
    assert(panes.push(p).drop_last() =~= panes);
    lemma_first_where(p.clients, is_client(id));
    if exists|k: int| 0 <= k < p.clients.len() && (#[trigger] p.clients[k]).client_id == id {
        let k = choose|k: int| 0 <= k < p.clients.len() && (#[trigger] p.clients[k]).client_id
            == id;
        assert(is_client(id)(p.clients[k]));
    }
}

/// What a session's client is listed as: its ids and what it said of itself, with the panes of the
/// session that it sees; it is marked where it is the one that asks.
pub proof fn law_client_entry_is_true(
    c: ConnectionView,
    panes: Seq<PaneView>,
    asker: ClientId,
    now: Clock,
)
    ensures
        ({
            let r = client_info(c, panes, asker, now);
            &&& r.client_id == c.client_id
            &&& r.connection_id == ConnectionId(c.conn_id)
            &&& r.label == c.label
            &&& r.machine_id == c.identity.machine_id
            &&& r.hostname == c.identity.hostname
            &&& r.username == c.identity.username
            &&& r.frontend == c.identity.client_kind
            &&& !c.identity.client_git_dirty ==> r.build == c.identity.client_git_sha
            &&& c.identity.client_git_dirty ==> r.build == c.identity.client_git_sha + "-dirty"@
            &&& r.build_profile == c.identity.client_build_profile
            &&& r.transport == conn_info(c, now).transport
            &&& r.uptime_secs == conn_info(c, now).uptime_secs
            &&& r.is_self <==> c.client_id == asker
            &&& r.attached_panes == attached_indices(panes_by_index(panes), c.client_id)
        }),
        ({
            let q = panes_by_index(panes);
            &&& q.len() == panes.len()
            &&& forall|i: int| 0 <= i < panes.len() ==> q.contains(#[trigger] panes[i])
            &&& forall|i: int, j: int|
                0 <= i < j < q.len() ==> (#[trigger] q[i]).pane_index <= (
                #[trigger] q[j]).pane_index
        }),
{
    let keys = pane_keys(panes);
    lemma_arranged(panes, keys);
    let q = panes_by_index(panes);
    assert forall|i: int, j: int| 0 <= i < j < q.len() implies (#[trigger] q[i]).pane_index <= (
    #[trigger] q[j]).pane_index by {
        let o = stable_order(keys);
        assert(keys[o[i]] <= keys[o[j]]);
    }
}

/// A session's clients are the connected ones that see at least one of its panes.
pub proof fn law_who_is_a_sessions_client(
    conns: Seq<ConnectionView>,
    c: ConnectionView,
    panes: Seq<PaneView>,
    asker: ClientId,
    now: Clock,
)
    ensures
        attached_clients(Seq::empty(), panes, asker, now).len() == 0,
        ({
            let before = attached_clients(conns, panes, asker, now);
            let after = attached_clients(conns.push(c), panes, asker, now);
            let r = client_info(c, panes, asker, now);
            &&& r.attached_panes.len() > 0 ==> after == before.push(r)
            &&& r.attached_panes.len() == 0 ==> after == before
        }),
{
    assert(conns.push(c).drop_last() =~= conns);
}

/// A session's clients are listed in the order of their ids.
pub proof fn law_clients_are_listed_by_id(a: AppView, i: int, asker: ClientId, now: Clock)
    ensures
        ({
            let r = a.session_clients(i, asker, now);
            let all = attached_clients(a.connections, a.sessions[i].panes, asker, now);
            &&& r.len() == all.len()
            &&& forall|k: int| 0 <= k < all.len() ==> r.contains(#[trigger] all[k])
            &&& forall|j: int, k: int|
                0 <= j < k < r.len() ==> (#[trigger] r[j]).client_id.0 <= (
                #[trigger] r[k]).client_id.0
        }),
{
    let all = attached_clients(a.connections, a.sessions[i].panes, asker, now);
    let keys = client_keys(all);
    lemma_arranged(all, keys);
    let r = a.session_clients(i, asker, now);
    assert forall|j: int, k: int| 0 <= j < k < r.len() implies (#[trigger] r[j]).client_id.0 <= (
    #[trigger] r[k]).client_id.0 by {
        let o = stable_order(keys);
        assert(keys[o[j]] <= keys[o[k]]);
    }
}

/// What a client's leaving is told: of each pane, in order, its change of size if it had one, by
/// the pane's id; of each session, one after the other.
pub proof fn law_leaving_is_told_pane_by_pane(
    panes: Seq<PaneView>,
    p: PaneView,
    word: Seq<char>,
    sessions: Seq<SessionView>,
    s: SessionView,
    id: ClientId,
)
    ensures
        leave_notices(Seq::empty(), word, id).len() == 0,
        ({
            let before = leave_notices(panes, word, id);
            let after = leave_notices(panes.push(p), word, id);
            match p.without_client(id).recomputed().resize_notice(
                pane_id_text(word, p.pane_index),
            ) {
                Some(n) => after == before.push(n),
                None => after == before,
            }
        }),
        leave_all_notices(Seq::empty(), id).len() == 0,
        leave_all_notices(sessions.push(s), id) == leave_all_notices(sessions, id)
            + leave_notices(s.panes, s.meta.word_id, id),
{
    assert(panes.push(p).drop_last() =~= panes);
    assert(sessions.push(s).drop_last() =~= sessions);
}

} // verus!
