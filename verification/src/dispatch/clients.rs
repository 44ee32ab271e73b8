//! Who else is attached to a session, and sending one of them away.

use super::{OutView, Outcome, Work, WorkView};
use crate::app::attach::{leave_notices, leaving};
use crate::app::clients::{attached_to, ClientInfo, Clock, KickOutcome};
use crate::app::{changed_session, session_at, AppView, ServerApp};
use crate::messages::{MsgView, ServerMessage};
use crate::protocol::{ClientId, ErrorCode};
use crate::text::{decimal, decimal_text, views};
use vstd::prelude::*;
use vstd::string::StringExecFns;

verus! {

pub open spec fn missing_session(request_id: u64, word: Seq<char>) -> OutView {
    OutView::reply(
        MsgView::Error(
            Some(request_id),
            ErrorCode::SessionNotFound,
            "session not found: "@ + word,
        ),
    )
}

fn refuse_missing(request_id: u64, word_id: &str) -> (r: Outcome)
    ensures
        r@ == missing_session(request_id, word_id@),
{
    let mut text = "session not found: ".to_owned();
    text.append(word_id);
    Outcome::refusal(Some(request_id), ErrorCode::SessionNotFound, text)
}

pub open spec fn list_out(
    a: AppView,
    id: ClientId,
    request_id: u64,
    word: Seq<char>,
    now: Clock,
) -> OutView {
    if a.is_proxied(word) {
        OutView::needing(WorkView::ListRemoteClients(request_id, word))
    } else {
        match session_at(a.sessions, word) {
            Some(i) => OutView::reply(
                MsgView::ClientListResult(request_id, word, a.session_clients(i, id, now)),
            ),
            None => missing_session(request_id, word),
        }
    }
}

/// List the clients of a session; if a peer hosts it, the peer is asked.
pub fn on_client_list(
    app: &ServerApp,
    client_id: ClientId,
    request_id: u64,
    word_id: String,
    now: Clock,
) -> (r: Outcome)
    ensures
        r@ == list_out(app@, client_id, request_id, word_id@, now),
{
    if app.is_federated_session(word_id.as_str()) {
        return Outcome::needing(Work::ListRemoteClients { request_id, word_id });
    }
    match app.list_session_clients(word_id.as_str(), client_id, now) {
        Some(clients) => Outcome::reply(
            ServerMessage::ClientListResult { request_id, word_id, clients },
        ),
        None => refuse_missing(request_id, word_id.as_str()),
    }
}

/// Answer with the clients that a peer listed, or why it did not.
pub fn finish_remote_clients(
    request_id: u64,
    word_id: String,
    listed: Result<Vec<ClientInfo>, String>,
) -> (r: Outcome)
    ensures
        r@ == OutView::reply(
            match listed {
                Ok(clients) => MsgView::ClientListResult(request_id, word_id@, views(clients@)),
                Err(reason) => MsgView::Error(
                    Some(request_id),
                    ErrorCode::SessionNotFound,
                    reason@,
                ),
            },
        ),
{
    match listed {
        Ok(clients) => Outcome::reply(
            ServerMessage::ClientListResult { request_id, word_id, clients },
        ),
        Err(reason) => Outcome::refusal(Some(request_id), ErrorCode::SessionNotFound, reason),
    }
}

pub open spec fn not_attached(target: ClientId, word: Seq<char>) -> Seq<char> {
    "client "@ + decimal_text(target.0 as nat) + " not attached to session "@ + word
}

/// Sending a client away from a session: it is told who did it, and its connection stays.
pub open spec fn kick_step(
    a: AppView,
    label: Option<Seq<char>>,
    request_id: u64,
    word: Seq<char>,
    target: ClientId,
) -> (AppView, OutView) {
    if a.is_proxied(word) {
        (a, OutView::needing(WorkView::KickRemote(request_id, word, target)))
    } else {
        match session_at(a.sessions, word) {
            None => (a, missing_session(request_id, word)),
            Some(i) => {
                let s = a.sessions[i];
                if attached_to(s.panes, target) {
                    (
                        a.with_session_at(i, changed_session(s, leaving(target))),
                        OutView {
                            resizes: leave_notices(s.panes, s.meta.word_id, target),
                            told: Some(
                                (
                                    target,
                                    MsgView::SessionKicked(
                                        word,
                                        match label {
                                            Some(l) => l,
                                            None => Seq::empty(),
                                        },
                                    ),
                                ),
                            ),
                            ..OutView::reply(MsgView::ClientKicked(request_id, word, target))
                        },
                    )
                } else {
                    (
                        a,
                        OutView::reply(
                            MsgView::Error(
                                Some(request_id),
                                ErrorCode::ClientNotFound,
                                not_attached(target, word),
                            ),
                        ),
                    )
                }
            },
        }
    }
}

/// Send a client away from a session; if a peer hosts it, the peer is asked.
pub fn on_kick_client(
    app: &mut ServerApp,
    label: &Option<String>,
    request_id: u64,
    word_id: String,
    target: ClientId,
) -> (r: Outcome)
    ensures
        (final(app)@, r@) == kick_step(
            old(app)@,
            crate::text::text_option(*label),
            request_id,
            word_id@,
            target,
        ),
        old(app)@.wf() ==> final(app)@.wf(),
{
    if app.is_federated_session(word_id.as_str()) {
        return Outcome::needing(Work::KickRemote { request_id, word_id, client_id: target });
    }
    let (outcome, notices) = app.kick_client_from_session(word_id.as_str(), target);
    match outcome {
        KickOutcome::Kicked => {
            let by_label = match label {
                Some(l) => l.clone(),
                None => String::new(),
            };
            let mut r = Outcome::reply(
                ServerMessage::ClientKicked {
                    request_id,
                    word_id: word_id.clone(),
                    client_id: target,
                },
            );
            r.resizes = notices;
            r.told = Some((target, ServerMessage::SessionKicked { word_id, by_label }));
            assert(by_label@ =~= match label {
                Some(l) => l@,
                None => Seq::empty(),
            });
            r
        },
        KickOutcome::SessionNotFound => refuse_missing(request_id, word_id.as_str()),
        KickOutcome::ClientNotFound => {
            let mut text = "client ".to_owned();
            let d = decimal(target.0);
            text.append(d.as_str());
            text.append(" not attached to session ");
            text.append(word_id.as_str());
            Outcome::refusal(Some(request_id), ErrorCode::ClientNotFound, text)
        },
    }
}

/// Answer once a peer sent a client away, or did not.
pub fn finish_remote_kick(
    request_id: u64,
    word_id: String,
    target: ClientId,
    kicked: Result<(), String>,
) -> (r: Outcome)
    ensures
        r@ == OutView::reply(
            match kicked {
                Ok(_) => MsgView::ClientKicked(request_id, word_id@, target),
                Err(reason) => MsgView::Error(
                    Some(request_id),
                    ErrorCode::ClientNotFound,
                    reason@,
                ),
            },
        ),
{
    match kicked {
        Ok(()) => Outcome::reply(
            ServerMessage::ClientKicked { request_id, word_id, client_id: target },
        ),
        Err(reason) => Outcome::refusal(Some(request_id), ErrorCode::ClientNotFound, reason),
    }
}

} // verus!
