//! What holds of every message of a client that was let in.

use super::{
    daemon_step, dispatched, program_step, session_step, step_of, tab_step, view_step, ClientView,
    OutView, Step,
};
use crate::app::clients::Clock;
use crate::app::AppView;
use crate::messages::ClientMessage;
use vstd::prelude::*;

verus! {

/// Whether a step leaves a client who it is: its ids, its identity and its name.
pub open spec fn same_client(c: ClientView, s: Step) -> bool {
    &&& s.client.client_id == c.client_id
    &&& s.client.connection_id == c.connection_id
    &&& s.client.machine_id == c.machine_id
    &&& s.client.label == c.label
}

/// Whether a step starts to show a pane to the client.
pub open spec fn starts_stream(s: Step) -> bool {
    s.out.work matches Some(w) && (w is StartStream || w is ViewProxied)
}

#[verifier::rlimit(30)]
proof fn lemma_session_step(a: AppView, c: ClientView, msg: ClientMessage)
    ensures
        same_client(c, session_step(a, c, msg)),
        !starts_stream(session_step(a, c, msg)),
{
}

#[verifier::rlimit(30)]
proof fn lemma_tab_step(a: AppView, c: ClientView, msg: ClientMessage)
    ensures
        same_client(c, tab_step(a, c, msg)),
        !starts_stream(tab_step(a, c, msg)),
{
}

#[verifier::rlimit(30)]
proof fn lemma_program_step(a: AppView, c: ClientView, msg: ClientMessage, now: Clock)
    ensures
        same_client(c, program_step(a, c, msg, now)),
        !starts_stream(program_step(a, c, msg, now)),
{
}

#[verifier::rlimit(30)]
proof fn lemma_view_step(a: AppView, c: ClientView, msg: ClientMessage)
    ensures
        same_client(c, view_step(a, c, msg)),
        !(msg is Attach) ==> !starts_stream(view_step(a, c, msg)),
{
}

#[verifier::rlimit(30)]
proof fn lemma_daemon_step(a: AppView, c: ClientView, msg: ClientMessage, now: Clock)
    ensures
        same_client(c, daemon_step(a, c, msg, now)),
        !starts_stream(daemon_step(a, c, msg, now)),
{
}

/// A client that was let in stays who it is, whatever it sends: its ids, its identity and its name
/// are never changed.
pub proof fn law_clients_stay_who_they_are(
    a: AppView,
    c: ClientView,
    msg: ClientMessage,
    now: Clock,
    nonce: Seq<u8>,
)
    requires
        c.authenticated,
    ensures
        same_client(c, dispatched(a, c, msg, now, nonce)),
{
    lemma_session_step(a, c, msg);
    lemma_tab_step(a, c, msg);
    lemma_program_step(a, c, msg, now);
    lemma_view_step(a, c, msg);
    lemma_daemon_step(a, c, msg, now);
}

/// Nothing but a wish to see a pane starts to show one.
pub proof fn law_only_attaching_shows_a_pane(
    a: AppView,
    c: ClientView,
    msg: ClientMessage,
    now: Clock,
    nonce: Seq<u8>,
)
    requires
        c.authenticated,
        !(msg is Attach),
    ensures
        !starts_stream(dispatched(a, c, msg, now, nonce)),
{
    lemma_session_step(a, c, msg);
    lemma_tab_step(a, c, msg);
    lemma_program_step(a, c, msg, now);
    lemma_view_step(a, c, msg);
    lemma_daemon_step(a, c, msg, now);
}

/// A client that was let in cannot repeat the handshake: doing so sends and changes nothing.
pub proof fn law_handshake_is_not_repeated(
    a: AppView,
    c: ClientView,
    msg: ClientMessage,
    now: Clock,
    nonce: Seq<u8>,
)
    requires
        c.authenticated,
        msg is Auth || msg is AuthProof,
    ensures
        dispatched(a, c, msg, now, nonce) == step_of(c, (a, OutView::nothing())),
{
}

} // verus!
