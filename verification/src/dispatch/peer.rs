//! Peer daemons: connecting to them, and passing on what concerns their panes.

use super::input::resize_step;
use super::view::attach_step;
use super::{ClientView, OutView, Outcome, Work, WorkView};
use crate::app::peers::{all_free, law_opening_a_peer_keeps_wf};
use crate::app::{AppView, ServerApp};
use crate::messages::{peer_name, ClientMessage, MsgView, PeerTarget, ServerMessage};
use crate::protocol::{KeyEvent, KeyView, SequenceNo, SessionEntry, SessionEntryView, TermSize};
use crate::text::views;
use vstd::prelude::*;

verus! {

/// What a peer is asked about one of its panes.
#[derive(Debug)]
pub enum PeerCommand {
    Input { data: Vec<u8> },
    Paste { data: String },
    Keys { events: Vec<KeyEvent> },
    Signal { signal: i32 },
    History { request_id: u64, start_index: u64, count: u32 },
}

pub enum CommandView {
    Input(Seq<u8>),
    Paste(Seq<char>),
    Keys(Seq<KeyView>),
    Signal(i32),
    History(u64, u64, u32),
}

impl View for PeerCommand {
    type V = CommandView;

    open spec fn view(&self) -> CommandView {
        match self {
            PeerCommand::Input { data } => CommandView::Input(data@),
            PeerCommand::Paste { data } => CommandView::Paste(data@),
            PeerCommand::Keys { events } => CommandView::Keys(views(events@)),
            PeerCommand::Signal { signal } => CommandView::Signal(*signal),
            PeerCommand::History { request_id, start_index, count } => CommandView::History(
                *request_id,
                *start_index,
                *count,
            ),
        }
    }
}

impl PeerCommand {
    /// The message to the peer, which knows the pane by an id of its own.
    pub fn addressed(self, pane_id: String) -> (r: ClientMessage)
        ensures
            r == match self {
                PeerCommand::Input { data } => ClientMessage::PtyInput { pane_id, data },
                PeerCommand::Paste { data } => ClientMessage::PtyPaste { pane_id, data },
                PeerCommand::Keys { events } => ClientMessage::PtyKeyBatch { pane_id, events },
                PeerCommand::Signal { signal } => ClientMessage::Signal { pane_id, signal },
                PeerCommand::History { request_id, start_index, count } =>
                    ClientMessage::FetchHistory { request_id, pane_id, start_index, count },
            },
    {
        match self {
            PeerCommand::Input { data } => ClientMessage::PtyInput { pane_id, data },
            PeerCommand::Paste { data } => ClientMessage::PtyPaste { pane_id, data },
            PeerCommand::Keys { events } => ClientMessage::PtyKeyBatch { pane_id, events },
            PeerCommand::Signal { signal } => ClientMessage::Signal { pane_id, signal },
            PeerCommand::History { request_id, start_index, count } => {
                ClientMessage::FetchHistory { request_id, pane_id, start_index, count }
            },
        }
    }
}

/// What concerns a pane: passed on if a peer hosts it, else done here.
pub open spec fn routed(
    a: AppView,
    pane_id: Seq<char>,
    command: CommandView,
    here: (AppView, OutView),
) -> (AppView, OutView) {
    if a.is_proxied_pane(pane_id) {
        (a, OutView::needing(WorkView::Forward(pane_id, command)))
    } else {
        here
    }
}

/// What concerns a peer's pane is passed on to the peer: input, a signal or a question about its
/// history, a client's size, and a client's wish to see it. Nothing changes here, and nobody is
/// answered or told of it.
pub proof fn law_peers_panes_are_passed_on(
    a: AppView,
    c: ClientView,
    pane_id: Seq<char>,
    command: CommandView,
    here: (AppView, OutView),
    last_seqno: Option<SequenceNo>,
    size: TermSize,
)
    requires
        a.is_proxied_pane(pane_id),
    ensures
        routed(a, pane_id, command, here) == (
            a,
            OutView::needing(WorkView::Forward(pane_id, command)),
        ),
        resize_step(a, pane_id, c.id(), size) == (
            a,
            OutView::needing(WorkView::ResizeProxied(pane_id, c.id(), size)),
        ),
        ({
            let s = attach_step(a, c, pane_id, last_seqno, size);
            &&& s.app == a
            &&& s.out.work == Some(WorkView::ViewProxied(pane_id, c.id(), last_seqno, size))
            &&& s.out.replies.len() == 0
            &&& s.out.broadcasts.len() == 0
            &&& s.out.resizes.len() == 0
            &&& s.out.told is None
        }),
{
}

/// The result of connecting to a peer.
pub open spec fn opened_step(
    a: AppView,
    request_id: u64,
    hint: Seq<char>,
    r: Result<(Seq<char>, Seq<SessionEntryView>), Seq<char>>,
) -> (AppView, OutView) {
    match r {
        Ok((peer, entries)) => (
            a.peer_opened(peer, entries),
            OutView::reply(MsgView::PeerOpened(request_id, peer)),
        ),
        Err(reason) => (a, OutView::reply(MsgView::PeerError(request_id, Some(hint), reason))),
    }
}

/// Connect to a peer.
pub fn on_open_peer(request_id: u64, target: PeerTarget) -> (r: Outcome)
    ensures
        r@ == OutView::needing(
            WorkView::ConnectPeer(request_id, target@, peer_name(target.host@, target.port)),
        ),
{
    let peer = target.peer_id();
    Outcome::needing(Work::ConnectPeer { request_id, target, peer })
}

/// Answer once the connection to a peer stands, or failed. With the peer's name come those of its
/// sessions that are not shown yet, each under a free word.
pub fn finish_open_peer(
    app: &mut ServerApp,
    request_id: u64,
    hint: String,
    opened: Result<(String, Vec<SessionEntry>), String>,
) -> (r: Outcome)
    ensures
        (final(app)@, r@) == opened_step(
            old(app)@,
            request_id,
            hint@,
            match opened {
                Ok((p, entries)) => Ok((p@, views(entries@))),
                Err(e) => Err(e@),
            },
        ),
        ({
            &&& old(app)@.wf()
            &&& opened matches Ok((_, entries)) ==> all_free(old(app)@, views(entries@))
        }) ==> final(app)@.wf(),
{
    match opened {
        Ok((peer, sessions)) => {
            proof {
                if app@.wf() && all_free(app@, views(sessions@)) {
                    law_opening_a_peer_keeps_wf(app@, peer@, views(sessions@));
                }
            }
            app.note_peer(peer.as_str(), sessions);
            Outcome::reply(ServerMessage::PeerOpened { request_id, peer })
        },
        Err(reason) => Outcome::reply(
            ServerMessage::PeerError { request_id, peer: Some(hint), reason },
        ),
    }
}

/// Drop a peer. One that was never connected is acknowledged all the same.
pub fn on_close_peer(app: &mut ServerApp, request_id: u64, peer: String) -> (r: Outcome)
    ensures
        final(app)@ == old(app)@.peer_closed(peer@),
        r@ == OutView::reply(MsgView::PeerClosed(request_id, peer@)),
        old(app)@.wf() ==> final(app)@.wf(),
{
    app.close_peer(peer.as_str());
    Outcome::reply(ServerMessage::PeerClosed { request_id, peer })
}

} // verus!
