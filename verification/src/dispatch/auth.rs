//! The handshake, and the notice of a switched channel that may follow it.

use super::{
    ClientView, Flow, OutView, Outcome, PendingAuth, PendingView, SharedClientState, Step, Work,
    WorkView,
};
use crate::app::clients::RegistrationView;
use crate::app::{AppView, ServerApp};
use crate::auth::validate_token;
use crate::capability::SERVER_VERSION;
use crate::connection::{ClientIdentity, IdentityView};
use crate::messages::{
    AuthAnswer, AuthAnswerView, AuthRequest, ClientMessage, Compression, MsgView, ServerMessage,
};
use crate::protocol::ErrorCode;
use crate::text::is_empty_text;
use vstd::prelude::*;
use vstd::string::StringExecFns;

verus! {

/// The answer to a client that is not let in.
pub open spec fn failure(reason: Seq<char>) -> MsgView {
    MsgView::AuthResult(
        AuthAnswerView {
            success: false,
            reason: Some(reason),
            client_id: None,
            server_version: Some(SERVER_VERSION@),
            connection_id: None,
            compression: None,
            machine_id: None,
            label: None,
            server_machine_id: None,
            negotiated_protocol: None,
            negotiated_capabilities: Seq::empty(),
        },
    )
}

/// An answer after which the connection is closed.
pub open spec fn turned_away(reason: Seq<char>) -> OutView {
    OutView { flow: Flow::Close, ..OutView::reply(failure(reason)) }
}

pub open spec fn mismatch(client: Seq<char>, server: Seq<char>) -> Seq<char> {
    "protocol version mismatch: client="@ + client + ", server="@ + server
}

/// What is kept of a request whose token is right.
pub open spec fn pending_of(req: AuthRequest, nonce: Seq<u8>) -> PendingView {
    PendingView {
        nonce,
        public_key: req.public_key@,
        hostname: req.hostname@,
        username: req.username@,
        capabilities: req.capabilities,
        negotiation: req.negotiation@,
        connection_id: req.connection_id,
        client_kind: req.client_kind@,
        client_git_sha: req.client_git_sha@,
        client_git_dirty: req.client_git_dirty,
        client_build_profile: req.client_build_profile@,
    }
}

/// A request to be let in: the protocol is checked first, then the token; then the client is
/// challenged to prove its identity.
pub open spec fn auth_step(a: AppView, c: ClientView, req: AuthRequest, nonce: Seq<u8>) -> Step {
    if req.negotiation.version is None {
        Step {
            app: a,
            client: c,
            out: turned_away(
                mismatch(req.negotiation.client_range@, req.negotiation.server_range@),
            ),
        }
    } else if req.token@ != a.auth_token {
        Step { app: a, client: c, out: turned_away("invalid token"@) }
    } else {
        Step {
            app: a,
            client: ClientView { pending_auth: Some(pending_of(req, nonce)), ..c },
            out: OutView::reply(MsgView::AuthChallenge(nonce)),
        }
    }
}

/// A proof of identity: to be verified, if there was a challenge.
pub open spec fn proof_step(a: AppView, c: ClientView, signature: Seq<u8>) -> Step {
    Step {
        app: a,
        client: c,
        out: match c.pending_auth {
            None => OutView::reply(
                MsgView::Error(None, ErrorCode::NotAuthenticated, "send Auth before AuthProof"@),
            ),
            Some(p) => OutView::needing(WorkView::VerifyProof(p.public_key, p.nonce, signature)),
        },
    }
}

/// Who a client turned out to be, and the name given to its connection.
#[derive(Debug)]
pub struct Verified {
    pub machine_id: String,
    pub label: String,
}

pub open spec fn identity_of(p: PendingView, machine_id: Seq<char>) -> IdentityView {
    IdentityView {
        machine_id,
        hostname: p.hostname,
        username: p.username,
        client_kind: p.client_kind,
        client_git_sha: p.client_git_sha,
        client_git_dirty: p.client_git_dirty,
        client_build_profile: p.client_build_profile,
    }
}

/// The text, unless it is empty.
pub open spec fn unless_empty(t: Seq<char>) -> Option<Seq<char>> {
    if t.len() == 0 {
        None
    } else {
        Some(t)
    }
}

/// The state of a connection that was let in.
pub open spec fn let_in(
    a: AppView,
    c: ClientView,
    p: PendingView,
    machine_id: Seq<char>,
    reg: RegistrationView,
) -> ClientView {
    let compress = p.negotiation.frame_zstd && a.compression.compresses(c.transport);
    ClientView {
        authenticated: true,
        client_id: Some(reg.client_id),
        connection_id: Some(reg.connection_id),
        capabilities: p.capabilities,
        pending_auth: None,
        machine_id: Some(machine_id),
        label: Some(reg.label),
        metrics: reg.metrics,
        comp_out: super::OutboundCompression { enabled: compress, ..c.comp_out },
        pending_swap_from: reg.previous_transport,
        ..c
    }
}

/// The answer to a client that is let in.
pub open spec fn welcome(
    a: AppView,
    c: ClientView,
    p: PendingView,
    machine_id: Seq<char>,
    reg: RegistrationView,
) -> MsgView {
    MsgView::AuthResult(
        AuthAnswerView {
            success: true,
            reason: None,
            client_id: Some(reg.client_id),
            server_version: Some(SERVER_VERSION@),
            connection_id: Some(reg.connection_id),
            compression: if p.negotiation.frame_zstd && a.compression.compresses(c.transport) {
                Some(Compression::Zstd)
            } else {
                None
            },
            machine_id: Some(machine_id),
            label: Some(reg.label),
            server_machine_id: unless_empty(a.server_machine_id),
            negotiated_protocol: p.negotiation.version,
            negotiated_capabilities: p.negotiation.capabilities,
        },
    )
}

/// The result of verifying a proof. A client that cannot back its claim is turned away.
pub open spec fn verified_step(
    a: AppView,
    c: ClientView,
    verified: Option<(Seq<char>, Seq<char>)>,
) -> Step {
    match c.pending_auth {
        None => Step {
            app: a,
            client: c,
            out: OutView::reply(
                MsgView::Error(None, ErrorCode::NotAuthenticated, "send Auth before AuthProof"@),
            ),
        },
        Some(p) => match verified {
            None => Step {
                app: a,
                client: ClientView { pending_auth: None, ..c },
                out: turned_away("identity verification failed"@),
            },
            Some((machine_id, label)) => {
                let (b, reg) = a.registered(
                    c.transport,
                    c.metrics,
                    p.connection_id,
                    identity_of(p, machine_id),
                    label,
                );
                Step {
                    app: b,
                    client: let_in(a, c, p, machine_id, reg),
                    out: OutView::reply(welcome(a, c, p, machine_id, reg)),
                }
            },
        },
    }
}

/// The first use of a switched channel.
pub open spec fn ready_step(a: AppView, c: ClientView) -> Step {
    Step {
        app: a,
        client: ClientView { pending_swap_from: None, ..c },
        out: match c.pending_swap_from {
            Some(old) => OutView::reply(MsgView::ChannelSwitched(old.name_text())),
            None => OutView::nothing(),
        },
    }
}

/// What a connection may say before it is let in.
pub open spec fn unauthenticated_step(
    a: AppView,
    c: ClientView,
    msg: ClientMessage,
    nonce: Seq<u8>,
) -> Step {
    match msg {
        ClientMessage::Auth(req) => auth_step(a, c, req, nonce),
        ClientMessage::AuthProof { signature } => proof_step(a, c, signature@),
        _ => Step {
            app: a,
            client: c,
            out: OutView::reply(
                MsgView::Error(None, ErrorCode::NotAuthenticated, "send Auth first"@),
            ),
        },
    }
}

fn auth_failure(reason: String) -> (r: Outcome)
    ensures
        r@ == turned_away(reason@),
{
    let answer = AuthAnswer {
        success: false,
        reason: Some(reason),
        client_id: None,
        server_version: Some(SERVER_VERSION.to_owned()),
        connection_id: None,
        compression: None,
        machine_id: None,
        label: None,
        server_machine_id: None,
        negotiated_protocol: None,
        negotiated_capabilities: Vec::new(),
    };
    assert(answer@.negotiated_capabilities =~= Seq::<Seq<char>>::empty());
    let mut r = Outcome::reply(ServerMessage::AuthResult(answer));
    r.flow = Flow::Close;
    r
}

fn no_challenge() -> (r: Outcome)
    ensures
        r@ == OutView::reply(
            MsgView::Error(None, ErrorCode::NotAuthenticated, "send Auth before AuthProof"@),
        ),
{
    Outcome::refusal(
        None,
        ErrorCode::NotAuthenticated,
        "send Auth before AuthProof".to_owned(),
    )
}

/// Check protocol and token, then issue a challenge. A mismatch of either closes the connection.
pub fn on_auth(app: &ServerApp, state: &mut SharedClientState, req: AuthRequest, nonce: Vec<u8>)
    -> (r: Outcome)
    ensures
        final(state)@ == auth_step(app@, old(state)@, req, nonce@).client,
        r@ == auth_step(app@, old(state)@, req, nonce@).out,
        app@ == auth_step(app@, old(state)@, req, nonce@).app,
{
    if req.negotiation.version.is_none() {
        let mut reason = "protocol version mismatch: client=".to_owned();
        reason.append(req.negotiation.client_range.as_str());
        reason.append(", server=");
        reason.append(req.negotiation.server_range.as_str());
        return auth_failure(reason);
    }
    if !validate_token(req.token.as_str(), app.auth_token.as_str()) {
        return auth_failure("invalid token".to_owned());
    }
    let challenge = copy_bytes(&nonce);
    state.pending_auth = Some(
        PendingAuth {
            nonce,
            public_key: req.public_key,
            hostname: req.hostname,
            username: req.username,
            capabilities: req.capabilities,
            negotiation: req.negotiation,
            connection_id: req.connection_id,
            client_kind: req.client_kind,
            client_git_sha: req.client_git_sha,
            client_git_dirty: req.client_git_dirty,
            client_build_profile: req.client_build_profile,
        },
    );
    Outcome::reply(ServerMessage::AuthChallenge { nonce: challenge })
}

/// A copy of some bytes.
pub fn copy_bytes(data: &Vec<u8>) -> (r: Vec<u8>)
    ensures
        r@ == data@,
{
    let mut out: Vec<u8> = Vec::new();
    out.extend_from_slice(data.as_slice());
    assert(out@ =~= data@);
    out
}

/// Ask for the verification of a proof. One without a challenge is refused, but the connection
/// stays.
pub fn on_auth_proof(state: &SharedClientState, signature: Vec<u8>) -> (r: Outcome)
    ensures
        forall|a: AppView|
            (#[trigger] proof_step(a, state@, signature@)).out == r@ && proof_step(
                a,
                state@,
                signature@,
            ).client == state@,
{
    match &state.pending_auth {
        None => no_challenge(),
        Some(p) => Outcome::needing(
            Work::VerifyProof {
                public_key: copy_bytes(&p.public_key),
                nonce: copy_bytes(&p.nonce),
                signature,
            },
        ),
    }
}

/// What a connection may say before it is let in. Everything but the handshake is refused without
/// closing, so a client that spoke too early can still authenticate.
pub fn handle_unauthenticated(
    app: &ServerApp,
    state: &mut SharedClientState,
    msg: ClientMessage,
    nonce: Vec<u8>,
) -> (r: Outcome)
    ensures
        final(state)@ == unauthenticated_step(app@, old(state)@, msg, nonce@).client,
        r@ == unauthenticated_step(app@, old(state)@, msg, nonce@).out,
        app@ == unauthenticated_step(app@, old(state)@, msg, nonce@).app,
{
    match msg {
        ClientMessage::Auth(req) => on_auth(app, state, req, nonce),
        ClientMessage::AuthProof { signature } => {
            let r = on_auth_proof(state, signature);
            assert(proof_step(app@, state@, signature@).out == r@);
            r
        },
        _ => Outcome::refusal(None, ErrorCode::NotAuthenticated, "send Auth first".to_owned()),
    }
}

/// The model of who a client turned out to be.
pub open spec fn verified_view(v: Option<Verified>) -> Option<(Seq<char>, Seq<char>)> {
    match v {
        Some(w) => Some((w.machine_id@, w.label@)),
        None => None,
    }
}

/// Let a client in whose proof was verified, or turn it away.
pub fn finish_auth_proof(
    app: &mut ServerApp,
    state: &mut SharedClientState,
    verified: Option<Verified>,
) -> (r: Outcome)
    requires
        old(app)@.next_client_id < u64::MAX,
        old(app)@.next_connection_id < u64::MAX,
    ensures
        final(app)@ == verified_step(old(app)@, old(state)@, verified_view(verified)).app,
        final(state)@ == verified_step(old(app)@, old(state)@, verified_view(verified)).client,
        r@ == verified_step(old(app)@, old(state)@, verified_view(verified)).out,
        old(app)@.wf() ==> final(app)@.wf(),
        old(state)@.wf() ==> final(state)@.wf(),
{
    let ghost a = app@;
    let ghost c = state@;
    match state.pending_auth.take() {
        None => no_challenge(),
        Some(p) => match verified {
            None => auth_failure("identity verification failed".to_owned()),
            Some(v) => {
                let reg = app.register_client(
                    state.transport,
                    state.metrics,
                    p.connection_id,
                    ClientIdentity {
                        machine_id: v.machine_id.clone(),
                        hostname: p.hostname,
                        username: p.username,
                        client_kind: p.client_kind,
                        client_git_sha: p.client_git_sha,
                        client_git_dirty: p.client_git_dirty,
                        client_build_profile: p.client_build_profile,
                    },
                    v.label,
                );
                state.client_id = Some(reg.client_id);
                state.connection_id = Some(reg.connection_id);
                state.capabilities = p.capabilities;
                state.authenticated = true;
                state.pending_swap_from = reg.previous_transport;
                state.metrics = reg.metrics;
                state.machine_id = Some(v.machine_id.clone());
                state.label = Some(reg.label.clone());
                let compress = p.negotiation.frame_zstd && app.compression.enabled_for(
                    state.transport,
                );
                state.comp_out.set_enabled(compress);
                let server_machine_id: Option<String> = if is_empty_text(
                    app.server_machine_id.as_str(),
                ) {
                    None
                } else {
                    Some(app.server_machine_id.clone())
                };
                let answer = AuthAnswer {
                    success: true,
                    reason: None,
                    client_id: Some(reg.client_id),
                    server_version: Some(SERVER_VERSION.to_owned()),
                    connection_id: Some(reg.connection_id),
                    compression: if compress {
                        Some(Compression::Zstd)
                    } else {
                        None
                    },
                    machine_id: Some(v.machine_id),
                    label: Some(reg.label),
                    server_machine_id,
                    negotiated_protocol: p.negotiation.version,
                    negotiated_capabilities: p.negotiation.capabilities,
                };
                Outcome::reply(ServerMessage::AuthResult(answer))
            },
        },
    }
}

/// Name the transport that the connection switched from, once.
pub fn on_channel_ready(state: &mut SharedClientState) -> (r: Outcome)
    ensures
        forall|a: AppView|
            (#[trigger] ready_step(a, old(state)@)).out == r@ && ready_step(
                a,
                old(state)@,
            ).client == final(state)@,
{
    match state.pending_swap_from.take() {
        Some(old) => Outcome::reply(ServerMessage::ChannelSwitched { old_transport: old.name() }),
        None => Outcome::nothing(),
    }
}

} // verus!
