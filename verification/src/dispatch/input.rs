//! Everything that reaches a pane's process: keys, text, size, signals, and the lock that
//! arbitrates between clients that compete for one pane.

use super::peer::{routed, CommandView, PeerCommand};
use super::{OutView, Outcome, Work, WorkView};
use crate::app::io::{is_fixed_signal, unit_result};
use crate::app::{AppView, ServerApp};
use crate::messages::{MsgView, ServerMessage};
use crate::pane::{sized, InputLockOutcome, InputView};
use crate::protocol::{pane_error, ClientId, Errno, ErrorView, KeyEvent, KmuxError, TermSize};
use crate::text::views;
use vstd::prelude::*;
use vstd::string::StrSliceExecFns;
use vstd::utf8::encode_utf8;

verus! {

/// What an operation without an answer leads to: nothing, or an error.
pub open spec fn silent(r: Result<(), ErrorView>) -> OutView {
    match r {
        Ok(_) => OutView::nothing(),
        Err(e) => OutView::error(None, e),
    }
}

/// Input for a pane.
pub open spec fn input_step(a: AppView, pane_id: Seq<char>, id: ClientId, i: InputView, now: u64)
    -> (AppView, OutView) {
    let sent = a.input_sent(pane_id, id, i, now);
    (sent.0, silent(sent.1))
}

/// A client's new size. The peer that hosts a pane reconciles the sizes of all its viewers.
pub open spec fn resize_step(a: AppView, pane_id: Seq<char>, id: ClientId, size: TermSize) -> (
    AppView,
    OutView,
) {
    if a.is_proxied_pane(pane_id) {
        (a, OutView::needing(WorkView::ResizeProxied(pane_id, id, size)))
    } else {
        match a.find_pane(pane_id) {
            Some((s, p)) => {
                let pane = a.sessions[s].panes[p].with_flags(id, sized(size));
                (
                    a.with_pane_at(s, p, pane.fitted()),
                    OutView::nothing().and_resize(pane.resize_notice(pane_id)),
                )
            },
            None => (a, OutView::error(None, ErrorView::PaneNotFound(pane_id))),
        }
    }
}

/// A request for exclusive input.
pub open spec fn lock_step(a: AppView, pane_id: Seq<char>, id: ClientId) -> (AppView, OutView) {
    match a.find_pane(pane_id) {
        Some((s, p)) => {
            let asked = a.sessions[s].panes[p].lock_requested(id);
            (
                a.with_pane_at(s, p, asked.0),
                OutView::reply(
                    match asked.1 {
                        InputLockOutcome::Granted => MsgView::InputLockGranted(pane_id),
                        InputLockOutcome::Denied(holder) => MsgView::InputLockDenied(
                            pane_id,
                            holder,
                        ),
                    },
                ),
            )
        },
        None => (a, OutView::error(None, ErrorView::PaneNotFound(pane_id))),
    }
}

/// The end of exclusive input. Only its holder is answered.
pub open spec fn unlock_step(a: AppView, pane_id: Seq<char>, id: ClientId) -> (AppView, OutView) {
    match a.find_pane(pane_id) {
        Some((s, p)) => {
            let given = a.sessions[s].panes[p].lock_released(id);
            (
                a.with_pane_at(s, p, given.0),
                if given.1 {
                    OutView::reply(MsgView::InputLockReleased(pane_id))
                } else {
                    OutView::nothing()
                },
            )
        },
        None => (a, OutView::error(None, ErrorView::PaneNotFound(pane_id))),
    }
}

fn answer_silently(r: Result<(), KmuxError>) -> (o: Outcome)
    ensures
        o@ == silent(unit_result(r)),
{
    match r {
        Ok(()) => Outcome::nothing(),
        Err(e) => Outcome::error(None, &e),
    }
}

/// Raw bytes for a pane.
pub fn on_pty_input(app: &mut ServerApp, client_id: ClientId, pane_id: String, data: Vec<u8>, now: u64)
    -> (r: Outcome)
    ensures
        (final(app)@, r@) == routed(
            old(app)@,
            pane_id@,
            CommandView::Input(data@),
            input_step(old(app)@, pane_id@, client_id, InputView::Bytes(data@), now),
        ),
        old(app)@.wf() ==> final(app)@.wf(),
{
    if app.is_federated_pane(pane_id.as_str()) {
        return Outcome::needing(Work::Forward { pane_id, command: PeerCommand::Input { data } });
    }
    let sent = app.write_input(pane_id.as_str(), client_id, data, now);
    answer_silently(sent)
}

/// Text pasted into a pane.
pub fn on_pty_paste(app: &mut ServerApp, client_id: ClientId, pane_id: String, data: String, now: u64)
    -> (r: Outcome)
    ensures
        (final(app)@, r@) == routed(
            old(app)@,
            pane_id@,
            CommandView::Paste(data@),
            input_step(old(app)@, pane_id@, client_id, InputView::Paste(encode_utf8(data@)), now),
        ),
        old(app)@.wf() ==> final(app)@.wf(),
{
    if app.is_federated_pane(pane_id.as_str()) {
        return Outcome::needing(Work::Forward { pane_id, command: PeerCommand::Paste { data } });
    }
    let bytes = data.as_str().as_bytes_vec();
    let sent = app.write_paste(pane_id.as_str(), client_id, bytes, now);
    answer_silently(sent)
}

/// Keys for a pane.
pub fn on_pty_key_batch(
    app: &mut ServerApp,
    client_id: ClientId,
    pane_id: String,
    events: Vec<KeyEvent>,
    now: u64,
) -> (r: Outcome)
    ensures
        (final(app)@, r@) == routed(
            old(app)@,
            pane_id@,
            CommandView::Keys(views(events@)),
            input_step(old(app)@, pane_id@, client_id, InputView::Keys(views(events@)), now),
        ),
        old(app)@.wf() ==> final(app)@.wf(),
{
    if app.is_federated_pane(pane_id.as_str()) {
        return Outcome::needing(Work::Forward { pane_id, command: PeerCommand::Keys { events } });
    }
    let sent = app.write_key_batch(pane_id.as_str(), client_id, events, now);
    answer_silently(sent)
}

/// A client's new size.
pub fn on_resize(app: &mut ServerApp, client_id: ClientId, pane_id: String, size: TermSize) -> (r:
    Outcome)
    ensures
        (final(app)@, r@) == resize_step(old(app)@, pane_id@, client_id, size),
        old(app)@.wf() ==> final(app)@.wf(),
{
    if app.is_federated_pane(pane_id.as_str()) {
        return Outcome::needing(Work::ResizeProxied { pane_id, client_id, size });
    }
    match app.resize(pane_id.as_str(), client_id, size) {
        Ok(n) => {
            let mut r = Outcome::nothing();
            r.resize(n);
            r
        },
        Err(e) => Outcome::error(None, &e),
    }
}

/// A signal for a pane's process.
pub fn on_signal(app: &ServerApp, pane_id: String, signal: i32) -> (r: Outcome)
    ensures
        (app@, r@) == routed(
            app@,
            pane_id@,
            CommandView::Signal(signal),
            (app@, OutView::needing(WorkView::SendSignal(pane_id@, signal))),
        ),
{
    if app.is_federated_pane(pane_id.as_str()) {
        return Outcome::needing(Work::Forward { pane_id, command: PeerCommand::Signal { signal } });
    }
    Outcome::needing(Work::SendSignal { pane_id, signal })
}

/// Deliver a signal, if the pane's process is known and the signal is one. Which numbers are
/// signals is the system's to say; those with a fixed number always are, those below one never.
pub fn finish_signal(
    app: &ServerApp,
    pane_id: String,
    registered: Result<(), KmuxError>,
    signal: i32,
) -> (r: Outcome)
    ensures
        match registered {
            Err(e) => r@ == OutView::error(None, pane_error(pane_id@, e@)),
            Ok(_) => {
                ||| r@ == OutView::needing(WorkView::DeliverSignal(pane_id@, signal)) && signal
                    > 0
                ||| r@ == OutView::error(None, ErrorView::Pty(Errno::EINVAL)) && !is_fixed_signal(
                    signal,
                )
            },
        },
{
    match app.send_signal(pane_id.as_str(), registered, signal) {
        Ok(n) => Outcome::needing(Work::DeliverSignal { pane_id, signal: n }),
        Err(e) => Outcome::error(None, &e),
    }
}

/// Report a signal that could not be delivered.
pub fn finish_delivery(delivered: Result<(), KmuxError>) -> (r: Outcome)
    ensures
        r@ == silent(unit_result(delivered)),
{
    answer_silently(delivered)
}

/// A request for exclusive input.
pub fn on_request_input_lock(app: &mut ServerApp, client_id: ClientId, pane_id: String) -> (r:
    Outcome)
    ensures
        (final(app)@, r@) == lock_step(old(app)@, pane_id@, client_id),
        old(app)@.wf() ==> final(app)@.wf(),
{
    match app.request_input_lock(pane_id.as_str(), client_id) {
        Ok(InputLockOutcome::Granted) => Outcome::reply(ServerMessage::InputLockGranted { pane_id }),
        Ok(InputLockOutcome::Denied(holder)) => Outcome::reply(
            ServerMessage::InputLockDenied { pane_id, holder },
        ),
        Err(e) => Outcome::error(None, &e),
    }
}

/// The end of exclusive input.
pub fn on_release_input_lock(app: &mut ServerApp, client_id: ClientId, pane_id: String) -> (r:
    Outcome)
    ensures
        (final(app)@, r@) == unlock_step(old(app)@, pane_id@, client_id),
        old(app)@.wf() ==> final(app)@.wf(),
{
    match app.release_input_lock(pane_id.as_str(), client_id) {
        Ok(true) => Outcome::reply(ServerMessage::InputLockReleased { pane_id }),
        Ok(false) => Outcome::nothing(),
        Err(e) => Outcome::error(None, &e),
    }
}

} // verus!
