//! How a client is let in: what it is asked, what it is told, and what is kept of it.

use super::auth::{auth_step, proof_step, ready_step, unauthenticated_step, verified_step};
use super::request_laws::{just, refused};
use super::{ClientView, Flow, OutboundCompression, PendingView, WorkView};
use crate::app::AppView;
use crate::config::{CompressionMode, TransportKind};
use crate::messages::{AuthRequest, ClientMessage, Compression, MsgView};
use crate::protocol::{ConnectionId, ErrorCode};
use vstd::prelude::*;

verus! {

/// A client that asks to be let in with the right token and a version in common is challenged with
/// the nonce, and what it said of itself is kept until it answers.
pub proof fn law_challenge_keeps_what_was_said(
    a: AppView,
    c: ClientView,
    req: AuthRequest,
    nonce: Seq<u8>,
)
    requires
        req.negotiation.version is Some,
        req.token@ == a.auth_token,
    ensures
        ({
            let s = auth_step(a, c, req, nonce);
            let p = s.client.pending_auth->0;
            &&& s.app == a
            &&& just(s.out, seq![MsgView::AuthChallenge(nonce)], Seq::empty(), None)
            &&& s.client == (ClientView { pending_auth: Some(p), ..c })
            &&& p.nonce == nonce
            &&& p.public_key == req.public_key@
            &&& p.hostname == req.hostname@
            &&& p.username == req.username@
            &&& p.capabilities == req.capabilities
            &&& p.negotiation == req.negotiation@
            &&& p.connection_id == req.connection_id
            &&& p.client_kind == req.client_kind@
            &&& p.client_git_sha == req.client_git_sha@
            &&& p.client_git_dirty == req.client_git_dirty
            &&& p.client_build_profile == req.client_build_profile@
        }),
{
}

/// A client with no version in common, or with a wrong token, is told so and cut off; the versions
/// count first. Nothing is kept of it.
pub proof fn law_why_a_client_is_turned_away(
    a: AppView,
    c: ClientView,
    req: AuthRequest,
    nonce: Seq<u8>,
)
    requires
        req.negotiation.version is None || req.token@ != a.auth_token,
    ensures
        ({
            let s = auth_step(a, c, req, nonce);
            let answer = s.out.replies[0]->AuthResult_0;
            &&& s.app == a
            &&& s.client == c
            &&& s.out.flow == Flow::Close
            &&& s.out.replies.len() == 1 && s.out.replies[0] is AuthResult
            &&& s.out.work is None
            &&& !answer.success
            &&& answer.client_id is None && answer.connection_id is None
            &&& answer.server_version is Some
            &&& answer.reason == Some(
                if req.negotiation.version is None {
                    "protocol version mismatch: client="@ + req.negotiation.client_range@
                        + ", server="@ + req.negotiation.server_range@
                } else {
                    "invalid token"@
                },
            )
        }),
{
}

/// The answer to a challenge is checked against the key and the nonce of that challenge. Without a
/// challenge there is nothing to check, and anything else is refused until a client is let in.
pub proof fn law_what_a_proof_is_checked_against(
    a: AppView,
    c: ClientView,
    signature: Seq<u8>,
    msg: ClientMessage,
    nonce: Seq<u8>,
)
    ensures
        proof_step(a, c, signature).app == a,
        proof_step(a, c, signature).client == c,
        c.pending_auth matches Some(p) ==> just(
            proof_step(a, c, signature).out,
            Seq::empty(),
            Seq::empty(),
            Some(WorkView::VerifyProof(p.public_key, p.nonce, signature)),
        ),
        c.pending_auth is None ==> refused(
            proof_step(a, c, signature).out,
            None,
            ErrorCode::NotAuthenticated,
            "send Auth before AuthProof"@,
        ),
        !(msg is Auth) && !(msg is AuthProof) ==> {
            let s = unauthenticated_step(a, c, msg, nonce);
            &&& s.app == a
            &&& s.client == c
            &&& refused(s.out, None, ErrorCode::NotAuthenticated, "send Auth first"@)
        },
{
}

/// A client that proved who it is is let in: its connection is there with what it said of itself,
/// it gets that connection's ids, name and counts, and is told them. Frames to it are compressed
/// exactly when it can take that and the daemon wants it on that transport.
pub proof fn law_who_is_let_in(
    a: AppView,
    c: ClientView,
    p: PendingView,
    machine_id: Seq<char>,
    label: Seq<char>,
)
    requires
        c.pending_auth == Some(p),
        a.resumed(p.connection_id) is None,
    ensures
        ({
            let s = verified_step(a, c, Some((machine_id, label)));
            let conn = s.app.connections.last();
            let answer = s.out.replies[0]->AuthResult_0;
            let compress = p.negotiation.frame_zstd && match a.compression.mode {
                CompressionMode::Always => true,
                CompressionMode::Never => false,
                CompressionMode::Auto => c.transport != TransportKind::Uds,
            };
            &&& s.app.connections.len() == a.connections.len() + 1
            &&& conn.conn_id == a.next_connection_id
            &&& conn.client_id.0 == a.next_client_id
            &&& conn.transport == c.transport
            &&& conn.metrics == c.metrics
            &&& conn.label == label
            &&& conn.identity.machine_id == machine_id
            &&& conn.identity.hostname == p.hostname
            &&& conn.identity.username == p.username
            &&& conn.identity.client_kind == p.client_kind
            &&& conn.identity.client_git_sha == p.client_git_sha
            &&& conn.identity.client_git_dirty == p.client_git_dirty
            &&& conn.identity.client_build_profile == p.client_build_profile
            &&& s.client == (ClientView {
                authenticated: true,
                client_id: Some(conn.client_id),
                connection_id: Some(ConnectionId(conn.conn_id)),
                capabilities: p.capabilities,
                pending_auth: None,
                machine_id: Some(machine_id),
                label: Some(label),
                comp_out: OutboundCompression { enabled: compress, ..c.comp_out },
                pending_swap_from: None,
                ..c
            })
            &&& just(s.out, seq![MsgView::AuthResult(answer)], Seq::empty(), None)
            &&& answer.success
            &&& answer.reason is None
            &&& answer.client_id == Some(conn.client_id)
            &&& answer.connection_id == Some(ConnectionId(conn.conn_id))
            &&& answer.server_version is Some
            &&& answer.compression == if compress {
                Some(Compression::Zstd)
            } else {
                None
            }
            &&& answer.machine_id == Some(machine_id)
            &&& answer.label == Some(label)
            &&& answer.server_machine_id == if a.server_machine_id.len() > 0 {
                Some(a.server_machine_id)
            } else {
                None
            }
            &&& answer.negotiated_protocol == p.negotiation.version
            &&& answer.negotiated_capabilities == p.negotiation.capabilities
        }),
{
}

/// A client that comes back on a connection that is still there gets the ids, the name and the
/// counts that it had. The connection runs over the new transport; that is told once the new
/// channel is in use.
pub proof fn law_who_comes_back(
    a: AppView,
    c: ClientView,
    p: PendingView,
    machine_id: Seq<char>,
    label: Seq<char>,
    i: int,
)
    requires
        c.pending_auth == Some(p),
        a.resumed(p.connection_id) == Some(i),
        0 <= i < a.connections.len(),
    ensures
        ({
            let s = verified_step(a, c, Some((machine_id, label)));
            let before = a.connections[i];
            let answer = s.out.replies[0]->AuthResult_0;
            &&& s.app.connections.len() == a.connections.len()
            &&& s.app.connections[i].transport == c.transport
            &&& s.app.connections[i].conn_id == before.conn_id
            &&& s.app.connections[i].client_id == before.client_id
            &&& s.app.connections[i].metrics == before.metrics
            &&& s.app.connections[i].identity == before.identity
            &&& s.app.connections[i].label == before.label
            &&& forall|j: int|
                0 <= j < a.connections.len() && j != i ==> #[trigger] s.app.connections[j]
                    == a.connections[j]
            &&& s.app == (AppView { connections: s.app.connections, ..a })
            &&& s.client.client_id == Some(before.client_id)
            &&& s.client.connection_id == Some(ConnectionId(before.conn_id))
            &&& s.client.label == Some(before.label)
            &&& s.client.metrics == before.metrics
            &&& s.client.pending_swap_from == Some(before.transport)
            &&& s.client.attached == c.attached
            &&& answer.success
            &&& answer.client_id == Some(before.client_id)
            &&& answer.connection_id == Some(ConnectionId(before.conn_id))
            &&& answer.label == Some(before.label)
        }),
{
}

/// A client whose proof fails is told so and cut off, and is not let in by sending it again.
pub proof fn law_failed_proof_cuts_off(a: AppView, c: ClientView)
    requires
        c.pending_auth is Some,
    ensures
        ({
            let s = verified_step(a, c, None);
            &&& s.app == a
            &&& s.client == (ClientView { pending_auth: None, ..c })
            &&& s.out.flow == Flow::Close
            &&& s.out.replies.len() == 1
            &&& s.out.replies[0] is AuthResult
            &&& !s.out.replies[0]->AuthResult_0.success
            &&& s.out.replies[0]->AuthResult_0.reason == Some("identity verification failed"@)
            &&& s.out.work is None
        }),
{
}

/// A client that switched transports is told once which one it left, when it says that it is
/// ready; after that there is nothing to tell.
pub proof fn law_switch_is_told_once(a: AppView, c: ClientView)
    ensures
        ({
            let s = ready_step(a, c);
            let again = ready_step(s.app, s.client);
            &&& s.app == a
            &&& s.client == (ClientView { pending_swap_from: None, ..c })
            &&& c.pending_swap_from is None ==> just(s.out, Seq::empty(), Seq::empty(), None)
            &&& c.pending_swap_from == Some(TransportKind::Quic) ==> just(
                s.out,
                seq![MsgView::ChannelSwitched("QUIC"@)],
                Seq::empty(),
                None,
            )
            &&& c.pending_swap_from == Some(TransportKind::Tcp) ==> just(
                s.out,
                seq![MsgView::ChannelSwitched("TCP"@)],
                Seq::empty(),
                None,
            )
            &&& c.pending_swap_from == Some(TransportKind::TcpTls) ==> just(
                s.out,
                seq![MsgView::ChannelSwitched("TCP+TLS"@)],
                Seq::empty(),
                None,
            )
            &&& c.pending_swap_from == Some(TransportKind::Uds) ==> just(
                s.out,
                seq![MsgView::ChannelSwitched("UDS"@)],
                Seq::empty(),
                None,
            )
            &&& just(again.out, Seq::empty(), Seq::empty(), None)
        }),
{
}

} // verus!
