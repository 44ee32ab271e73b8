//! Which message leads to what: each request is done with what it says, and no other is.

use super::auth::ready_step;
use super::clients::{kick_step, list_out};
use super::diagnostics::notify_out;
use super::input::{input_step, lock_step, resize_step, unlock_step};
use super::layout::{layout_step, scheme_out};
use super::pane::{close_pane_step, close_tab_step, rename_tab_step, reorder_step, split_step};
use super::peer::{routed, CommandView};
use super::request_laws::just;
use super::session::{close_step, create_out, rename_step, restore_out};
use super::view::{attach_step, detach_step, exempt_out, exempted, history_out, pause_out};
use super::{
    daemon_step, dispatched, pane, program_step, session_step, tab_step, view_step, ClientView,
    OutView, Step, WorkView,
};
use crate::app::clients::Clock;
use crate::app::recover::all_pane_ids;
use crate::app::AppView;
use crate::layout::SplitDir;
use crate::messages::{ClientMessage, MsgView, PeerTarget, Spawn};
use crate::pane::{pausing, snapshotting, InputView};
use crate::protocol::{AttentionKind, ClientId, KeyEvent, SequenceNo, TermSize};
use crate::session::{focusing, reweighting, trading, SessionView};
use crate::text::{decimal_text, pane_id_text, text_option, views};
use vstd::utf8::encode_utf8;
use vstd::prelude::*;

verus! {

/// What a step is made of.
pub open spec fn does(s: Step, app: AppView, client: ClientView, out: OutView) -> bool {
    &&& s.app == app
    &&& s.client == client
    &&& s.out == out
}

/// A request for a session is done with the name, the directory, the program and the peer in it.
pub proof fn law_session_create_is_done(
    a: AppView,
    c: ClientView,
    request_id: u64,
    name: Option<String>,
    cwd: Option<String>,
    spawn: Spawn,
    peer: Option<String>,
)
    ensures
        does(
            session_step(
                a,
                c,
                (ClientMessage::SessionCreate { request_id, name, cwd, spawn, peer }),
            ),
            a,
            c,
            create_out(
                a,
                request_id,
                text_option(name),
                text_option(cwd),
                spawn@,
                text_option(peer),
            ),
        ),
{
}

/// Closing, renaming and bringing back a session is done to the session named.
pub proof fn law_session_requests_are_done(
    a: AppView,
    c: ClientView,
    request_id: u64,
    word_id: String,
    new_name: String,
)
    ensures
        session_step(a, c, (ClientMessage::SessionClose { request_id, word_id })) == close_step(
            a,
            c,
            request_id,
            word_id@,
        ),
        does(
            session_step(a, c, (ClientMessage::SessionRename { request_id, word_id, new_name })),
            rename_step(a, request_id, word_id@, new_name@).0,
            c,
            rename_step(a, request_id, word_id@, new_name@).1,
        ),
        does(
            session_step(a, c, (ClientMessage::SessionRestore { request_id, word_id })),
            a,
            c,
            restore_out(a, request_id, word_id@),
        ),
{
}

/// The list of sessions is this daemon's own, and behind them those of the peers; the list of
/// closed ones is this daemon's.
pub proof fn law_lists_are_sent(a: AppView, c: ClientView, request_id: u64)
    ensures
        ({
            let s = session_step(a, c, (ClientMessage::SessionList { request_id }));
            &&& s.app == a && s.client == c
            &&& just(
                s.out,
                seq![MsgView::SessionListResult(request_id, a.listed() + a.proxied)],
                Seq::empty(),
                None,
            )
        }),
        ({
            let s = session_step(a, c, (ClientMessage::SessionListClosed { request_id }));
            &&& s.app == a && s.client == c
            &&& just(
                s.out,
                seq![MsgView::ClosedSessionListResult(request_id, a.closed_entries())],
                Seq::empty(),
                None,
            )
        }),
{
}

/// A pane or a tab is made, split off or closed in the session and the tab named.
pub proof fn law_pane_requests_are_done(
    a: AppView,
    c: ClientView,
    request_id: u64,
    word_id: String,
    pane_id: String,
    tab_index: u32,
    from_pane: u32,
    dir: SplitDir,
    spawn: Spawn,
)
    ensures
        does(
            tab_step(a, c, (ClientMessage::PaneCreate { request_id, word_id, spawn })),
            pane::tab_step(a, request_id, word_id@, spawn@, true).0,
            c,
            pane::tab_step(a, request_id, word_id@, spawn@, true).1,
        ),
        does(
            tab_step(a, c, (ClientMessage::TabCreate { request_id, word_id, spawn })),
            pane::tab_step(a, request_id, word_id@, spawn@, false).0,
            c,
            pane::tab_step(a, request_id, word_id@, spawn@, false).1,
        ),
        tab_step(a, c, (ClientMessage::PaneClose { request_id, pane_id })) == close_pane_step(
            a,
            c,
            request_id,
            pane_id@,
        ),
        ({
            let m = ClientMessage::PaneSplit {
                request_id,
                word_id,
                tab_index,
                from_pane,
                dir,
                spawn,
            };
            let r = split_step(a, request_id, word_id@, tab_index, from_pane, dir, spawn@);
            does(tab_step(a, c, m), r.0, c, r.1)
        }),
{
}

/// A tab is closed, renamed or moved as the request says.
pub proof fn law_tab_requests_are_done(
    a: AppView,
    c: ClientView,
    request_id: u64,
    word_id: String,
    tab_index: u32,
    new_name: String,
    new_position: u32,
)
    ensures
        ({
            let m = ClientMessage::TabClose { request_id, word_id, tab_index };
            let r = close_tab_step(a, request_id, word_id@, tab_index);
            does(tab_step(a, c, m), r.0, c, r.1)
        }),
        ({
            let m = ClientMessage::TabRename { request_id, word_id, tab_index, new_name };
            let r = rename_tab_step(a, request_id, word_id@, tab_index, new_name@);
            does(tab_step(a, c, m), r.0, c, r.1)
        }),
        ({
            let m = ClientMessage::TabReorder { word_id, tab_index, new_position };
            let r = reorder_step(a, word_id@, tab_index, new_position);
            does(tab_step(a, c, m), r.0, c, r.1)
        }),
{
}

/// A tab's panes trade places, its weights are set, its focus moves, or it is arranged, as the
/// request says.
pub proof fn law_layout_requests_are_done(
    a: AppView,
    c: ClientView,
    word_id: String,
    tab_index: u32,
    x: u32,
    y: u32,
    path: Vec<u32>,
    ratios: Vec<u16>,
    scheme: String,
)
    ensures
        ({
            let m = ClientMessage::PaneSwap { word_id, tab_index, a: x, b: y };
            let r = layout_step(a, word_id@, tab_index, trading(x, y));
            does(tab_step(a, c, m), r.0, c, r.1)
        }),
        ({
            let m = ClientMessage::SetLayoutRatios { word_id, tab_index, path, ratios };
            let r = layout_step(a, word_id@, tab_index, reweighting(path@, ratios@));
            does(tab_step(a, c, m), r.0, c, r.1)
        }),
        ({
            let m = ClientMessage::SetFocus { word_id, tab_index, pane_index: x };
            let r = layout_step(a, word_id@, tab_index, focusing(x));
            does(tab_step(a, c, m), r.0, c, r.1)
        }),
        ({
            let m = ClientMessage::ApplyLayoutScheme { word_id, tab_index, scheme };
            does(tab_step(a, c, m), a, c, scheme_out(a, word_id@, tab_index, scheme@))
        }),
{
}

/// What a client types, pastes or presses goes to the pane named, from that client, as it is; for
/// a peer's pane it is passed on.
pub proof fn law_input_is_delivered(
    a: AppView,
    c: ClientView,
    now: Clock,
    pane_id: String,
    data: Vec<u8>,
    text: String,
    events: Vec<KeyEvent>,
)
    ensures
        ({
            let s = program_step(a, c, (ClientMessage::PtyInput { pane_id, data }), now);
            let here = input_step(a, pane_id@, c.id(), InputView::Bytes(data@), now.epoch_ms);
            let r = routed(a, pane_id@, CommandView::Input(data@), here);
            does(s, r.0, c, r.1)
        }),
        ({
            let s = program_step(a, c, (ClientMessage::PtyPaste { pane_id, data: text }), now);
            let bytes = encode_utf8(text@);
            let here = input_step(a, pane_id@, c.id(), InputView::Paste(bytes), now.epoch_ms);
            let r = routed(a, pane_id@, CommandView::Paste(text@), here);
            does(s, r.0, c, r.1)
        }),
        ({
            let s = program_step(a, c, (ClientMessage::PtyKeyBatch { pane_id, events }), now);
            let keys = views(events@);
            let here = input_step(a, pane_id@, c.id(), InputView::Keys(keys), now.epoch_ms);
            let r = routed(a, pane_id@, CommandView::Keys(keys), here);
            does(s, r.0, c, r.1)
        }),
{
}

/// A size, a signal and the lock are for the pane named and from the client that sends them.
pub proof fn law_program_requests_are_done(
    a: AppView,
    c: ClientView,
    now: Clock,
    pane_id: String,
    size: TermSize,
    signal: i32,
)
    ensures
        ({
            let s = program_step(a, c, (ClientMessage::Resize { pane_id, size }), now);
            let r = resize_step(a, pane_id@, c.id(), size);
            does(s, r.0, c, r.1)
        }),
        ({
            let s = program_step(a, c, (ClientMessage::Signal { pane_id, signal }), now);
            &&& s.app == a && s.client == c
            &&& a.is_proxied_pane(pane_id@) ==> just(
                s.out,
                Seq::empty(),
                Seq::empty(),
                Some(WorkView::Forward(pane_id@, CommandView::Signal(signal))),
            )
            &&& !a.is_proxied_pane(pane_id@) ==> just(
                s.out,
                Seq::empty(),
                Seq::empty(),
                Some(WorkView::SendSignal(pane_id@, signal)),
            )
        }),
        ({
            let s = program_step(a, c, (ClientMessage::RequestInputLock { pane_id }), now);
            let r = lock_step(a, pane_id@, c.id());
            does(s, r.0, c, r.1)
        }),
        ({
            let s = program_step(a, c, (ClientMessage::ReleaseInputLock { pane_id }), now);
            let r = unlock_step(a, pane_id@, c.id());
            does(s, r.0, c, r.1)
        }),
{
}

/// A client sees, leaves and reads back the pane named.
pub proof fn law_view_requests_are_done(
    a: AppView,
    c: ClientView,
    request_id: u64,
    pane_id: String,
    last_seqno: Option<SequenceNo>,
    size: TermSize,
    start_index: u64,
    count: u32,
)
    ensures
        view_step(a, c, (ClientMessage::Attach { pane_id, last_seqno, size })) == attach_step(
            a,
            c,
            pane_id@,
            last_seqno,
            size,
        ),
        view_step(a, c, (ClientMessage::Detach { pane_id })) == detach_step(a, c, pane_id@),
        ({
            let m = ClientMessage::FetchHistory { request_id, pane_id, start_index, count };
            let r = routed(
                a,
                pane_id@,
                CommandView::History(request_id, start_index, count),
                (a, history_out(a, request_id, pane_id@, start_index, count)),
            );
            does(view_step(a, c, m), r.0, c, r.1)
        }),
{
}

/// A client's pauses and its snapshot mode hold in every pane that it sees; an exemption holds in
/// the pane named. The panes keep their places, and nothing is answered.
pub proof fn law_settings_reach_the_panes(
    a: AppView,
    c: ClientView,
    on: bool,
    auto: bool,
    pane_id: String,
    s: int,
    p: int,
)
    requires
        0 <= s < a.sessions.len(),
        0 <= p < a.sessions[s].panes.len(),
    ensures
        ({
            let r = view_step(a, c, (ClientMessage::SetSnapshotMode { enabled: on }));
            &&& r.client == c
            &&& just(r.out, Seq::empty(), Seq::empty(), None)
            &&& r.app.sessions[s].panes[p] == a.sessions[s].panes[p].with_flags(
                c.id(),
                snapshotting(on),
            )
            &&& r.app == (AppView { sessions: r.app.sessions, ..a })
        }),
        ({
            let r = view_step(a, c, (ClientMessage::SetPaused { paused: on, auto }));
            &&& r.client == c
            &&& r.out == pause_out(a, c.id(), on, auto)
            &&& r.app.sessions[s].panes[p] == a.sessions[s].panes[p].with_flags(
                c.id(),
                pausing(on, auto),
            )
            &&& r.app == (AppView { sessions: r.app.sessions, ..a })
        }),
        does(
            view_step(a, c, (ClientMessage::SetPaneNoAutoPause { pane_id, exempt: on })),
            exempted(a, c.id(), pane_id@, on),
            c,
            exempt_out(a, c.id(), pane_id@, on),
        ),
{
}

/// What is asked of the system is asked with what the request says, and changes nothing.
pub proof fn law_system_requests_are_passed_on(
    a: AppView,
    c: ClientView,
    now: Clock,
    request_id: u64,
    lines: Option<u32>,
    follow: bool,
    path: String,
    target: PeerTarget,
)
    ensures
        ({
            let r = daemon_step(a, c, (ClientMessage::FetchLogs { request_id, lines, follow }), now);
            let w = WorkView::ReadLog(request_id, lines, follow);
            &&& r.app == a && r.client == c
            &&& just(r.out, Seq::empty(), Seq::empty(), Some(w))
        }),
        ({
            let r = daemon_step(a, c, (ClientMessage::ListDirectory { request_id, path }), now);
            let w = WorkView::ReadDirectory(request_id, path@);
            &&& r.app == a && r.client == c
            &&& just(r.out, Seq::empty(), Seq::empty(), Some(w))
        }),
        ({
            let r = daemon_step(a, c, (ClientMessage::ProcessOverview { request_id }), now);
            let w = WorkView::ListProcesses(request_id, all_pane_ids(a.sessions));
            &&& r.app == a && r.client == c
            &&& just(r.out, Seq::empty(), Seq::empty(), Some(w))
        }),
        ({
            let r = daemon_step(a, c, (ClientMessage::OpenPeer { request_id, target }), now);
            let name = target.host@ + ":"@ + decimal_text(target.port as nat);
            let w = WorkView::ConnectPeer(request_id, target@, name);
            &&& r.app == a && r.client == c
            &&& just(r.out, Seq::empty(), Seq::empty(), Some(w))
        }),
{
}

/// Closing a peer, listing and kicking clients and notices are done as the request says; a kicked
/// client hears who asked for it.
pub proof fn law_daemon_requests_are_done(
    a: AppView,
    c: ClientView,
    now: Clock,
    request_id: u64,
    peer: String,
    word_id: String,
    client_id: ClientId,
)
    ensures
        ({
            let r = daemon_step(a, c, (ClientMessage::ClosePeer { request_id, peer }), now);
            &&& r.app == a.peer_closed(peer@) && r.client == c
            &&& just(
                r.out,
                seq![MsgView::PeerClosed(request_id, peer@)],
                Seq::empty(),
                None,
            )
        }),
        does(
            daemon_step(a, c, (ClientMessage::ClientList { request_id, word_id }), now),
            a,
            c,
            list_out(a, c.id(), request_id, word_id@, now),
        ),
        ({
            let m = ClientMessage::KickClient { request_id, word_id, client_id };
            let r = kick_step(a, c.label, request_id, word_id@, client_id);
            does(daemon_step(a, c, m, now), r.0, c, r.1)
        }),
{
}

/// A notice is passed on as it is, a ping is answered with its number, a channel that is ready is
/// told, and the answer to the latest ping tells how long it took.
pub proof fn law_small_requests_are_done(
    a: AppView,
    c: ClientView,
    now: Clock,
    request_id: u64,
    pane_id: String,
    kind: AttentionKind,
    title: String,
    body: String,
    seq: u64,
)
    ensures
        ({
            let m = ClientMessage::Notify { request_id, pane_id, kind, title, body };
            let out = notify_out(a, request_id, pane_id@, kind, title@, body@);
            does(daemon_step(a, c, m, now), a, c, out)
        }),
        ({
            let r = daemon_step(a, c, (ClientMessage::Ping { seq }), now);
            &&& r.app == a && r.client == c
            &&& just(r.out, seq![MsgView::Pong(seq)], Seq::empty(), None)
        }),
        daemon_step(a, c, (ClientMessage::ChannelReady), now) == ready_step(a, c),
        ({
            let r = daemon_step(a, c, (ClientMessage::Pong { seq }), now);
            &&& r.app == a
            &&& r.client == (ClientView { metrics: r.client.metrics, ..c })
            &&& r.client.metrics == c.metrics.ponged(seq, now.monotonic_ms, now.epoch_ms)
            &&& just(r.out, Seq::empty(), Seq::empty(), None)
        }),
{
}

/// Every pane's id is listed, session by session.
pub proof fn law_every_pane_is_listed(sessions: Seq<SessionView>, s: SessionView)
    ensures
        all_pane_ids(Seq::empty()).len() == 0,
        ({
            let before = all_pane_ids(sessions);
            let after = all_pane_ids(sessions.push(s));
            let n = before.len() as int;
            &&& after.len() == n + s.panes.len()
            &&& after.take(n) == before
            &&& forall|p: int|
                0 <= p < s.panes.len() ==> #[trigger] after[n + p] == pane_id_text(
                    s.meta.word_id,
                    s.panes[p].pane_index,
                )
        }),
{
    assert(sessions.push(s).drop_last() =~= sessions);
    let before = all_pane_ids(sessions);
    let after = all_pane_ids(sessions.push(s));
    assert(after.take(before.len() as int) =~= before);
}

/// What a client that was let in sends is taken for what it is: requests about sessions, about
/// tabs and their layouts, about programs, about what the client sees, and the rest.
pub proof fn law_messages_are_told_apart(
    a: AppView,
    c: ClientView,
    msg: ClientMessage,
    now: Clock,
    nonce: Seq<u8>,
)
    requires
        c.authenticated,
    ensures
        dispatched(a, c, msg, now, nonce) == match msg {
            ClientMessage::SessionCreate { .. }
            | ClientMessage::SessionClose { .. }
            | ClientMessage::SessionList { .. }
            | ClientMessage::SessionListClosed { .. }
            | ClientMessage::SessionRestore { .. }
            | ClientMessage::SessionRename { .. } => session_step(a, c, msg),
            ClientMessage::PaneCreate { .. }
            | ClientMessage::PaneClose { .. }
            | ClientMessage::TabCreate { .. }
            | ClientMessage::TabClose { .. }
            | ClientMessage::TabRename { .. }
            | ClientMessage::TabReorder { .. }
            | ClientMessage::PaneSplit { .. }
            | ClientMessage::PaneSwap { .. }
            | ClientMessage::SetLayoutRatios { .. }
            | ClientMessage::ApplyLayoutScheme { .. }
            | ClientMessage::SetFocus { .. } => tab_step(a, c, msg),
            ClientMessage::PtyInput { .. }
            | ClientMessage::PtyPaste { .. }
            | ClientMessage::PtyKeyBatch { .. }
            | ClientMessage::Resize { .. }
            | ClientMessage::Signal { .. }
            | ClientMessage::RequestInputLock { .. }
            | ClientMessage::ReleaseInputLock { .. } => program_step(a, c, msg, now),
            ClientMessage::Attach { .. }
            | ClientMessage::Detach { .. }
            | ClientMessage::SetSnapshotMode { .. }
            | ClientMessage::SetPaused { .. }
            | ClientMessage::SetPaneNoAutoPause { .. }
            | ClientMessage::FetchHistory { .. } => view_step(a, c, msg),
            _ => daemon_step(a, c, msg, now),
        },
{
}

} // verus!
