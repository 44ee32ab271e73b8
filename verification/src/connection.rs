//! What the daemon keeps about each client connection.

use crate::config::TransportKind;
use crate::protocol::ClientId;
use vstd::prelude::*;
use vstd::string::StringExecFns;

verus! {

/// Bytes that frame a message on the wire: a length prefix and a codec tag.
pub const FRAME_OVERHEAD: u64 = 5;

/// A ping that went out.
#[derive(Clone, Copy, Debug, PartialEq, Eq, Structural)]
pub struct PingSent {
    pub seq: u64,
    /// Monotonic time, in milliseconds.
    pub at_ms: u64,
}

/// Per-connection counters updated on every inbound and outbound frame. Counters wrap.
#[derive(Clone, Copy, Debug, PartialEq, Eq, Structural)]
pub struct ConnectionMetrics {
    /// Monotonic time of creation, in milliseconds.
    pub created_at_ms: u64,
    pub bytes_in: u64,
    pub bytes_out: u64,
    /// What `bytes_out` would have been with no compression.
    pub bytes_out_uncompressed: u64,
    pub msgs_in: u64,
    pub msgs_out: u64,
    /// Time of the last inbound frame; 0 = none yet.
    pub last_activity_ms: u64,
    /// Time of the last matching pong; 0 = none yet.
    pub last_pong_ms: u64,
    /// Most recent round-trip time; `u64::MAX` = unknown.
    pub last_rtt_ms: u64,
    /// The most recent ping.
    pub last_ping_sent: Option<PingSent>,
}

/// `a - b`, or zero where `b` is larger.
pub open spec fn since(a: u64, b: u64) -> u64 {
    if a >= b {
        (a - b) as u64
    } else {
        0
    }
}

impl ConnectionMetrics {
    /// Counters of a connection that has seen nothing yet.
    pub fn new(now_ms: u64) -> (r: Self)
        ensures
            r == (ConnectionMetrics {
                created_at_ms: now_ms,
                bytes_in: 0,
                bytes_out: 0,
                bytes_out_uncompressed: 0,
                msgs_in: 0,
                msgs_out: 0,
                last_activity_ms: 0,
                last_pong_ms: 0,
                last_rtt_ms: u64::MAX,
                last_ping_sent: None,
            }),
    {
        ConnectionMetrics {
            created_at_ms: now_ms,
            bytes_in: 0,
            bytes_out: 0,
            bytes_out_uncompressed: 0,
            msgs_in: 0,
            msgs_out: 0,
            last_activity_ms: 0,
            last_pong_ms: 0,
            last_rtt_ms: u64::MAX,
            last_ping_sent: None,
        }
    }

    pub open spec fn received(self, payload: usize, epoch_ms: u64) -> ConnectionMetrics {
        ConnectionMetrics {
            bytes_in: self.bytes_in.wrapping_add(
                (payload as u64).wrapping_add(FRAME_OVERHEAD),
            ),
            msgs_in: self.msgs_in.wrapping_add(1),
            last_activity_ms: epoch_ms,
            ..self
        }
    }

    /// Count an inbound frame.
    pub fn on_frame_in(&mut self, payload: usize, epoch_ms: u64)
        ensures
            *final(self) == old(self).received(payload, epoch_ms),
    {
        self.bytes_in = self.bytes_in.wrapping_add((payload as u64).wrapping_add(FRAME_OVERHEAD));
        self.msgs_in = self.msgs_in.wrapping_add(1);
        self.last_activity_ms = epoch_ms;
    }

    pub open spec fn sent(self, payload: usize, wire: usize) -> ConnectionMetrics {
        ConnectionMetrics {
            bytes_out: self.bytes_out.wrapping_add(wire as u64),
            bytes_out_uncompressed: self.bytes_out_uncompressed.wrapping_add(
                (payload as u64).wrapping_add(FRAME_OVERHEAD),
            ),
            msgs_out: self.msgs_out.wrapping_add(1),
            ..self
        }
    }

    /// Count an outbound frame of `payload` bytes that took `wire` bytes once compressed.
    pub fn on_frame_out(&mut self, payload: usize, wire: usize)
        ensures
            *final(self) == old(self).sent(payload, wire),
    {
        self.bytes_out = self.bytes_out.wrapping_add(wire as u64);
        self.bytes_out_uncompressed =
        self.bytes_out_uncompressed.wrapping_add((payload as u64).wrapping_add(FRAME_OVERHEAD));
        self.msgs_out = self.msgs_out.wrapping_add(1);
    }

    /// Remember the ping that went out last.
    pub fn on_ping_sent(&mut self, seq: u64, now_ms: u64)
        ensures
            *final(self) == (ConnectionMetrics {
                last_ping_sent: Some(PingSent { seq, at_ms: now_ms }),
                ..*old(self)
            }),
    {
        self.last_ping_sent = Some(PingSent { seq, at_ms: now_ms });
    }

    /// A pong counts only where it answers the last ping.
    pub open spec fn ponged(self, seq: u64, now_ms: u64, epoch_ms: u64) -> ConnectionMetrics {
        match self.last_ping_sent {
            Some(ping) => if ping.seq == seq {
                ConnectionMetrics {
                    last_rtt_ms: since(now_ms, ping.at_ms),
                    last_pong_ms: epoch_ms,
                    ..self
                }
            } else {
                self
            },
            None => self,
        }
    }

    /// Measure the round trip, where a pong answers the last ping.
    pub fn on_pong(&mut self, seq: u64, now_ms: u64, epoch_ms: u64)
        ensures
            *final(self) == old(self).ponged(seq, now_ms, epoch_ms),
    {
        if let Some(ping) = self.last_ping_sent {
            if ping.seq == seq {
                self.last_rtt_ms = now_ms.saturating_sub(ping.at_ms);
                self.last_pong_ms = epoch_ms;
            }
        }
    }
}

/// Who a client is: its verified machine, its user and its build.
#[derive(Debug)]
pub struct ClientIdentity {
    pub machine_id: String,
    pub hostname: String,
    pub username: String,
    /// Name of the frontend.
    pub client_kind: String,
    pub client_git_sha: String,
    pub client_git_dirty: bool,
    pub client_build_profile: String,
}

pub struct IdentityView {
    pub machine_id: Seq<char>,
    pub hostname: Seq<char>,
    pub username: Seq<char>,
    pub client_kind: Seq<char>,
    pub client_git_sha: Seq<char>,
    pub client_git_dirty: bool,
    pub client_build_profile: Seq<char>,
}

impl View for ClientIdentity {
    type V = IdentityView;

    open spec fn view(&self) -> IdentityView {
        IdentityView {
            machine_id: self.machine_id@,
            hostname: self.hostname@,
            username: self.username@,
            client_kind: self.client_kind@,
            client_git_sha: self.client_git_sha@,
            client_git_dirty: self.client_git_dirty,
            client_build_profile: self.client_build_profile@,
        }
    }
}

impl IdentityView {
    /// The build: its commit, marked where the tree had local changes.
    pub open spec fn build(self) -> Seq<char> {
        if self.client_git_dirty {
            self.client_git_sha + "-dirty"@
        } else {
            self.client_git_sha
        }
    }
}

impl ClientIdentity {
    /// The client's build, as reported to other clients.
    pub fn build(&self) -> (r: String)
        ensures
            r@ == self@.build(),
    {
        if self.client_git_dirty {
            self.client_git_sha.clone().concat("-dirty")
        } else {
            self.client_git_sha.clone()
        }
    }
}

/// One live connection.
#[derive(Debug)]
pub struct ConnectionState {
    pub conn_id: u64,
    pub client_id: ClientId,
    pub transport: TransportKind,
    pub metrics: ConnectionMetrics,
    pub identity: ClientIdentity,
    /// Name the daemon gave the connection.
    pub label: String,
}

pub struct ConnectionView {
    pub conn_id: u64,
    pub client_id: ClientId,
    pub transport: TransportKind,
    pub metrics: ConnectionMetrics,
    pub identity: IdentityView,
    pub label: Seq<char>,
}

impl View for ConnectionState {
    type V = ConnectionView;

    open spec fn view(&self) -> ConnectionView {
        ConnectionView {
            conn_id: self.conn_id,
            client_id: self.client_id,
            transport: self.transport,
            metrics: self.metrics,
            identity: self.identity@,
            label: self.label@,
        }
    }
}

/// A pong that does not answer the last ping changes nothing.
pub proof fn law_stray_pong_changes_nothing(m: ConnectionMetrics, seq: u64, now: u64, epoch: u64)
    requires
        m.last_ping_sent matches Some(ping) ==> ping.seq != seq,
    ensures
        m.ponged(seq, now, epoch) == m,
{
}

/// A frame that came in counts once, with its payload and the five bytes around it, and is the
/// last sign of life; nothing else of the counts changes.
pub proof fn law_incoming_frames_are_counted(m: ConnectionMetrics, payload: usize, epoch: u64)
    requires
        m.bytes_in + payload + 5 <= u64::MAX,
        m.msgs_in < u64::MAX,
    ensures
        ({
            let r = m.received(payload, epoch);
            &&& r.bytes_in == m.bytes_in + payload + 5
            &&& r.msgs_in == m.msgs_in + 1
            &&& r.last_activity_ms == epoch
            &&& r == (ConnectionMetrics {
                bytes_in: r.bytes_in,
                msgs_in: r.msgs_in,
                last_activity_ms: r.last_activity_ms,
                ..m
            })
        }),
{
}

/// A frame that went out counts once, with the bytes that it took on the wire, and with its
/// payload and the five bytes around it as if it had not been compressed.
pub proof fn law_outgoing_frames_are_counted(m: ConnectionMetrics, payload: usize, wire: usize)
    requires
        m.bytes_out + wire <= u64::MAX,
        m.bytes_out_uncompressed + payload + 5 <= u64::MAX,
        m.msgs_out < u64::MAX,
    ensures
        ({
            let r = m.sent(payload, wire);
            &&& r.bytes_out == m.bytes_out + wire
            &&& r.bytes_out_uncompressed == m.bytes_out_uncompressed + payload + 5
            &&& r.msgs_out == m.msgs_out + 1
            &&& r == (ConnectionMetrics {
                bytes_out: r.bytes_out,
                bytes_out_uncompressed: r.bytes_out_uncompressed,
                msgs_out: r.msgs_out,
                ..m
            })
        }),
{
}

/// The answer to the latest ping tells how long it took and when it came; nothing else changes.
pub proof fn law_answered_ping_tells_the_time(
    m: ConnectionMetrics,
    ping: PingSent,
    now: u64,
    epoch: u64,
)
    requires
        m.last_ping_sent == Some(ping),
    ensures
        ({
            let r = m.ponged(ping.seq, now, epoch);
            &&& now >= ping.at_ms ==> r.last_rtt_ms == now - ping.at_ms
            &&& now < ping.at_ms ==> r.last_rtt_ms == 0
            &&& r.last_pong_ms == epoch
            &&& r == (ConnectionMetrics {
                last_rtt_ms: r.last_rtt_ms,
                last_pong_ms: r.last_pong_ms,
                ..m
            })
        }),
{
}

} // verus!
