//! What a client looks at: the panes it is attached to, and how much of them it wants to see.

use super::peer::{routed, CommandView, PeerCommand};
use super::{ClientView, OutView, Outcome, SharedClientState, Step, Work, WorkView};
use crate::app::attach::{pause_setting, snapshot_setting, AttachParams};
use crate::app::{AppView, ServerApp};
use crate::messages::{MsgView, ServerMessage};
use crate::pane::{exempting, notice_view, AttachResult, ReplayView, ResizeNotice, ResizeView};
use crate::protocol::{pane_not_found, ClientId, ErrorCode, ErrorView, SequenceNo, TermSize};
use crate::terminal::CellState;
use crate::text::{lemma_is_text, lemma_texts_distinct, views, with_text, without_text};
use vstd::prelude::*;

verus! {

/// The state after a client left a pane, wherever it is hosted, and the pane's change of size.
pub open spec fn left_any(a: AppView, pane_id: Seq<char>, id: ClientId) -> (
    AppView,
    Option<ResizeView>,
) {
    if a.is_proxied_pane(pane_id) {
        (a, None)
    } else {
        a.left_pane(pane_id, id)
    }
}

/// A pane, if a peer hosts it.
pub open spec fn if_proxied(a: AppView, pane_id: Seq<char>) -> Seq<Seq<char>> {
    if a.is_proxied_pane(pane_id) {
        seq![pane_id]
    } else {
        Seq::empty()
    }
}

/// A request to see a pane. One that is seen already is left first.
pub open spec fn attach_step(
    a: AppView,
    c: ClientView,
    pane_id: Seq<char>,
    last_seqno: Option<SequenceNo>,
    size: TermSize,
) -> Step {
    let again = c.attached.contains(pane_id);
    let (b, n) = if again {
        left_any(a, pane_id, c.id())
    } else {
        (a, None)
    };
    let client = ClientView { attached: without_text(c.attached, pane_id), ..c };
    let stopped = if again {
        seq![pane_id]
    } else {
        Seq::empty()
    };
    if a.is_proxied_pane(pane_id) {
        Step {
            app: a,
            client,
            out: OutView {
                stopped,
                unviewed: stopped,
                ..OutView::needing(WorkView::ViewProxied(pane_id, c.id(), last_seqno, size))
            },
        }
    } else {
        match b.find_pane(pane_id) {
            Some((s, p)) => {
                let pane = b.sessions[s].panes[p];
                let joined = pane.joined(c.id(), size, c.capabilities);
                Step {
                    app: b.with_pane_at(s, p, joined.fitted()),
                    client,
                    out: OutView {
                        stopped,
                        ..OutView::needing(
                            WorkView::StartStream(pane_id, pane.replay(last_seqno)),
                        ).and_resize(n).and_resize(joined.resize_notice(pane_id))
                    },
                }
            },
            None => Step {
                app: b,
                client,
                out: OutView {
                    stopped,
                    ..OutView::error(None, ErrorView::PaneNotFound(pane_id)).and_resize(n)
                },
            },
        }
    }
}

/// Ask to see a pane.
pub fn on_attach(
    app: &mut ServerApp,
    state: &mut SharedClientState,
    client_id: ClientId,
    pane_id: String,
    last_seqno: Option<SequenceNo>,
    size: TermSize,
) -> (r: Outcome)
    requires
        client_id == old(state)@.id(),
    ensures
        final(app)@ == attach_step(old(app)@, old(state)@, pane_id@, last_seqno, size).app,
        final(state)@ == attach_step(old(app)@, old(state)@, pane_id@, last_seqno, size).client,
        r@ == attach_step(old(app)@, old(state)@, pane_id@, last_seqno, size).out,
        old(app)@.wf() ==> final(app)@.wf(),
        old(state)@.wf() ==> final(state)@.wf(),
{
    proof {
        lemma_is_text(state@.attached, pane_id@);
        if state@.wf() {
            lemma_texts_distinct(state@.attached, pane_id@);
        }
    }
    let again = state.stop_stream(pane_id.as_str());
    let proxied = app.is_federated_pane(pane_id.as_str());
    let n = if again {
        app.detach_pane_any(pane_id.as_str(), client_id)
    } else {
        None
    };
    let mut stopped: Vec<String> = Vec::new();
    if again {
        stopped.push(pane_id.clone());
    }
    assert(views(stopped@) =~= if again {
        seq![pane_id@]
    } else {
        Seq::empty()
    });
    if proxied {
        let mut unviewed: Vec<String> = Vec::new();
        if again {
            unviewed.push(pane_id.clone());
        }
        assert(views(unviewed@) =~= views(stopped@));
        let mut r = Outcome::needing(Work::ViewProxied { pane_id, client_id, last_seqno, size });
        r.stopped = stopped;
        r.unviewed = unviewed;
        return r;
    }
    let attached = app.attach(
        AttachParams {
            pane_id: pane_id.clone(),
            client_id,
            last_seqno,
            size,
            capabilities: state.capabilities,
        },
    );
    match attached {
        Ok((replay, m)) => {
            let mut r = Outcome::needing(Work::StartStream { pane_id, replay });
            r.resize(n);
            r.resize(m);
            r.stopped = stopped;
            r
        },
        Err(e) => {
            let mut r = Outcome::error(None, &e);
            r.resize(n);
            r.stopped = stopped;
            r
        },
    }
}

/// The result of starting to forward a pane's output.
pub open spec fn started_step(c: ClientView, pane_id: Seq<char>, started: Result<(), Seq<char>>)
    -> (ClientView, OutView) {
    match started {
        Ok(_) => (
            ClientView { attached: with_text(c.attached, pane_id), ..c },
            OutView::nothing(),
        ),
        Err(e) => (
            c,
            OutView::reply(MsgView::Error(None, ErrorCode::InternalError, e)),
        ),
    }
}

/// Note that a pane's output is forwarded, or say why it is not.
pub fn finish_attach(state: &mut SharedClientState, pane_id: String, started: Result<(), String>)
    -> (r: Outcome)
    ensures
        (final(state)@, r@) == started_step(
            old(state)@,
            pane_id@,
            match started {
                Ok(_) => Ok(()),
                Err(e) => Err(e@),
            },
        ),
        old(state)@.wf() ==> final(state)@.wf(),
{
    match started {
        Ok(()) => {
            proof {
                if state@.wf() {
                    lemma_texts_distinct(state@.attached, pane_id@);
                }
            }
            state.start_stream(pane_id);
            Outcome::nothing()
        },
        Err(e) => Outcome::refusal(None, ErrorCode::InternalError, e),
    }
}

/// A request not to see a pane any more.
pub open spec fn detach_step(a: AppView, c: ClientView, pane_id: Seq<char>) -> Step {
    if c.attached.contains(pane_id) {
        let (b, n) = left_any(a, pane_id, c.id());
        Step {
            app: b,
            client: ClientView { attached: without_text(c.attached, pane_id), ..c },
            out: OutView {
                stopped: seq![pane_id],
                unviewed: if_proxied(a, pane_id),
                ..OutView::nothing().and_resize(n)
            },
        }
    } else {
        Step { app: a, client: c, out: OutView::nothing() }
    }
}

/// Leave a pane.
pub fn on_detach(
    app: &mut ServerApp,
    state: &mut SharedClientState,
    client_id: ClientId,
    pane_id: String,
) -> (r: Outcome)
    requires
        client_id == old(state)@.id(),
    ensures
        final(app)@ == detach_step(old(app)@, old(state)@, pane_id@).app,
        final(state)@ == detach_step(old(app)@, old(state)@, pane_id@).client,
        r@ == detach_step(old(app)@, old(state)@, pane_id@).out,
        old(app)@.wf() ==> final(app)@.wf(),
        old(state)@.wf() ==> final(state)@.wf(),
{
    proof {
        lemma_is_text(state@.attached, pane_id@);
        if state@.wf() {
            lemma_texts_distinct(state@.attached, pane_id@);
        }
    }
    if state.stop_stream(pane_id.as_str()) {
        let mut unviewed: Vec<String> = Vec::new();
        if app.is_federated_pane(pane_id.as_str()) {
            unviewed.push(pane_id.clone());
        }
        assert(views(unviewed@) =~= if_proxied(app@, pane_id@));
        let n = app.detach_pane_any(pane_id.as_str(), client_id);
        let mut r = Outcome::nothing();
        r.resize(n);
        let mut stopped: Vec<String> = Vec::new();
        stopped.push(pane_id);
        assert(views(stopped@) =~= seq![pane_id@]);
        r.stopped = stopped;
        r.unviewed = unviewed;
        r
    } else {
        Outcome::nothing()
    }
}

impl ServerApp {
    /// A client leaves a pane. If a peer hosts it, nothing changes here.
    pub fn detach_pane_any(&mut self, pane_id: &str, client_id: ClientId) -> (r: Option<
        ResizeNotice,
    >)
        ensures
            (final(self)@, notice_view(r)) == left_any(old(self)@, pane_id@, client_id),
            old(self)@.wf() ==> final(self)@.wf(),
    {
        if self.is_federated_pane(pane_id) {
            None
        } else {
            self.detach_from_pane(pane_id, client_id)
        }
    }
}

/// Choose between differences and whole screens.
pub fn on_set_snapshot_mode(app: &mut ServerApp, client_id: ClientId, enabled: bool) -> (r: Outcome)
    ensures
        final(app)@ == old(app)@.with_every_pane(snapshot_setting(client_id, enabled)),
        r@ == OutView::nothing(),
        old(app)@.wf() ==> final(app)@.wf(),
{
    app.set_snapshot_mode(client_id, enabled);
    Outcome::nothing()
}

/// What a client's pause leads to: peers are told, if any session is theirs.
pub open spec fn pause_out(a: AppView, id: ClientId, paused: bool, auto: bool) -> OutView {
    if a.proxied.len() > 0 {
        OutView::needing(WorkView::PauseProxied(id, paused, auto))
    } else {
        OutView::nothing()
    }
}

/// Pause or resume what a client is shown, of every pane.
pub fn on_set_paused(app: &mut ServerApp, client_id: ClientId, paused: bool, auto: bool) -> (r:
    Outcome)
    ensures
        final(app)@ == old(app)@.with_every_pane(pause_setting(client_id, paused, auto)),
        r@ == pause_out(old(app)@, client_id, paused, auto),
        old(app)@.wf() ==> final(app)@.wf(),
{
    app.set_paused(client_id, paused, auto);
    if app.proxied.len() > 0 {
        Outcome::needing(Work::PauseProxied { client_id, paused, auto })
    } else {
        Outcome::nothing()
    }
}

/// What a pane's exemption from automatic pauses leads to: the peer that hosts it is told.
pub open spec fn exempt_out(a: AppView, id: ClientId, pane_id: Seq<char>, exempt: bool) -> OutView {
    if a.is_proxied_pane(pane_id) {
        OutView::needing(WorkView::ExemptProxied(id, pane_id, exempt))
    } else {
        OutView::nothing()
    }
}

/// Exempt a pane from a client's automatic pauses, or no longer.
pub fn on_set_pane_no_auto_pause(
    app: &mut ServerApp,
    client_id: ClientId,
    pane_id: String,
    exempt: bool,
) -> (r: Outcome)
    ensures
        final(app)@ == exempted(old(app)@, client_id, pane_id@, exempt),
        r@ == exempt_out(old(app)@, client_id, pane_id@, exempt),
        old(app)@.wf() ==> final(app)@.wf(),
{
    let proxied = app.is_federated_pane(pane_id.as_str());
    app.set_pane_no_auto_pause(client_id, pane_id.as_str(), exempt);
    if proxied {
        Outcome::needing(Work::ExemptProxied { client_id, pane_id, exempt })
    } else {
        Outcome::nothing()
    }
}

/// The state with one pane's exemption from automatic pauses set for a client.
pub open spec fn exempted(a: AppView, id: ClientId, pane_id: Seq<char>, exempt: bool) -> AppView {
    match a.find_pane(pane_id) {
        Some((s, p)) => a.with_pane_at(
            s,
            p,
            a.sessions[s].panes[p].with_flags(id, exempting(exempt)),
        ),
        None => a,
    }
}

pub open spec fn history_out(
    a: AppView,
    request_id: u64,
    pane_id: Seq<char>,
    start: u64,
    count: u32,
) -> OutView {
    if a.find_pane(pane_id) is Some {
        OutView::needing(WorkView::ReadHistory(request_id, pane_id, start, count))
    } else {
        OutView::error(Some(request_id), ErrorView::PaneNotFound(pane_id))
    }
}

/// Ask for lines of a pane's history.
pub fn on_fetch_history(
    app: &ServerApp,
    request_id: u64,
    pane_id: String,
    start_index: u64,
    count: u32,
) -> (r: Outcome)
    ensures
        (app@, r@) == routed(
            app@,
            pane_id@,
            CommandView::History(request_id, start_index, count),
            (app@, history_out(app@, request_id, pane_id@, start_index, count)),
        ),
{
    if app.is_federated_pane(pane_id.as_str()) {
        return Outcome::needing(
            Work::Forward {
                pane_id,
                command: PeerCommand::History { request_id, start_index, count },
            },
        );
    }
    match app.pane_position(pane_id.as_str()) {
        Some(_) => Outcome::needing(
            Work::ReadHistory { request_id, pane_id, start_index, count },
        ),
        None => Outcome::error(Some(request_id), &pane_not_found(pane_id.as_str())),
    }
}

/// Answer with lines of a pane's history.
pub fn finish_fetch_history(
    request_id: u64,
    pane_id: String,
    first_index: u64,
    lines: Vec<Vec<CellState>>,
    history_total: u64,
    now: u64,
) -> (r: Outcome)
    ensures
        r@ == OutView::reply(
            MsgView::HistoryLines(
                request_id,
                pane_id@,
                first_index,
                views(lines@),
                history_total,
                now,
            ),
        ),
{
    Outcome::reply(
        ServerMessage::HistoryLines {
            request_id,
            pane_id,
            first_index,
            lines,
            history_total,
            sent_at_ms: now,
        },
    )
}

/// The messages that bring a client that attaches up to date.
pub open spec fn replay_msgs(r: ReplayView, pane_id: Seq<char>, now: u64) -> Seq<MsgView> {
    match r {
        ReplayView::FullSnapshot(seqno) => seq![MsgView::TerminalSnapshot(pane_id, seqno, now)],
        ReplayView::Delta(diffs) => Seq::new(
            diffs.len(),
            |i: int| MsgView::TerminalUpdate(pane_id, diffs[i], now),
        ),
        ReplayView::SyncReset(seqno) => seq![
            MsgView::SyncReset(pane_id),
            MsgView::TerminalSnapshot(pane_id, seqno, now),
        ],
    }
}

/// What a client is sent on attaching brings it to where the replay ends. A full snapshot is one
/// message, a picture of that pane at that position. A reset is followed by such a picture, and
/// nothing comes after it. A delta is one update for each difference, of that pane, at the
/// differences' positions and in their order. So a client that is not sent a delta is left with
/// a picture, and one that is sent a delta misses none of its differences.
pub proof fn law_attaching_brings_up_to_date(r: ReplayView, pane_id: Seq<char>, now: u64)
    ensures
        ({
            let sent = replay_msgs(r, pane_id, now);
            &&& match r {
                ReplayView::FullSnapshot(n) => {
                    &&& sent.len() == 1
                    &&& sent[0] == MsgView::TerminalSnapshot(pane_id, n, now)
                },
                ReplayView::SyncReset(n) => {
                    &&& sent.len() == 2
                    &&& sent[0] == MsgView::SyncReset(pane_id)
                    &&& sent[1] == MsgView::TerminalSnapshot(pane_id, n, now)
                },
                ReplayView::Delta(diffs) => {
                    &&& sent.len() == diffs.len()
                    &&& forall|i: int|
                        0 <= i < diffs.len() ==> #[trigger] sent[i] == MsgView::TerminalUpdate(
                            pane_id,
                            diffs[i],
                            now,
                        )
                },
            }
            &&& !(r is Delta) ==> sent.len() > 0 && sent.last() is TerminalSnapshot
        }),
{
}

/// The messages that bring a client that attaches up to date, in order.
pub fn build_attach_replay(result: AttachResult, pane_id: &str, now: u64) -> (r: Vec<ServerMessage>)
    ensures
        views(r@) == replay_msgs(result@, pane_id@, now),
{
    let ghost want = replay_msgs(result@, pane_id@, now);
    let mut out: Vec<ServerMessage> = Vec::new();
    match result {
        AttachResult::FullSnapshot(seqno) => {
            out.push(
                ServerMessage::TerminalSnapshot {
                    pane_id: pane_id.to_owned(),
                    seqno,
                    sent_at_ms: now,
                },
            );
        },
        AttachResult::Delta(diffs) => {
            let mut i: usize = 0;
            while i < diffs.len()
                invariant
                    0 <= i <= diffs@.len(),
                    out@.len() == i,
                    forall|j: int|
                        0 <= j < i ==> (#[trigger] out@[j])@ == MsgView::TerminalUpdate(
                            pane_id@,
                            diffs@[j],
                            now,
                        ),
                decreases diffs@.len() - i,
            {
                out.push(
                    ServerMessage::TerminalUpdate {
                        pane_id: pane_id.to_owned(),
                        seqno: diffs[i],
                        sent_at_ms: now,
                    },
                );
                i = i + 1;
            }
        },
        AttachResult::SyncReset(seqno) => {
            out.push(ServerMessage::SyncReset { pane_id: pane_id.to_owned() });
            out.push(
                ServerMessage::TerminalSnapshot {
                    pane_id: pane_id.to_owned(),
                    seqno,
                    sent_at_ms: now,
                },
            );
        },
    }
    assert(views(out@) =~= want);
    out
}

} // verus!
