//! What the daemon's other answers hold: clients, peers, logs, directories and notices.

use super::clients::{kick_step, list_out};
use super::diagnostics::{
    chunks, dir_names, directory_msg, in_order, joined, listed_dirs, log_out, notify_out, ranks,
    FoundDirectory, FoundView, LogRead,
};
use super::peer::opened_step;
use super::request_laws::{just, only_session, refused, unknown};
use super::{Flow, WorkView};
use crate::app::attach::leave_notices;
use crate::app::clients::{attached_to, Clock};
use crate::app::laws::lemma_session_found;
use crate::app::peers::hosted;
use crate::app::{is_session, AppView};
use crate::events::EventView;
use crate::list::{lemma_arranged, lemma_first_where, stable_order};
use crate::messages::MsgView;
use crate::protocol::{AttentionKind, ClientId, ErrorCode, SessionEntryView};
use crate::session::SessionView;
use crate::text::{decimal_text, lemma_without_text, text_option, views};
use vstd::prelude::*;

verus! {

// ─── Clients ─────────────────────────────────────────────────────────────────

/// The clients of a session here are listed; those of a peer's are asked of the peer; where there
/// is no such session the client is told.
pub proof fn law_listing_clients(
    a: AppView,
    asker: ClientId,
    id: u64,
    word: Seq<char>,
    now: Clock,
    i: int,
)
    requires
        a.wf(),
    ensures
        a.is_proxied(word) ==> just(
            list_out(a, asker, id, word, now),
            Seq::empty(),
            Seq::empty(),
            Some(WorkView::ListRemoteClients(id, word)),
        ),
        0 <= i < a.sessions.len() && a.sessions[i].meta.word_id == word ==> just(
            list_out(a, asker, id, word, now),
            seq![MsgView::ClientListResult(id, word, a.session_clients(i, asker, now))],
            Seq::empty(),
            None,
        ),
        !a.is_proxied(word) && unknown(a, word) ==> refused(
            list_out(a, asker, id, word, now),
            Some(id),
            ErrorCode::SessionNotFound,
            "session not found: "@ + word,
        ),
{
    if 0 <= i < a.sessions.len() && a.sessions[i].meta.word_id == word {
        lemma_session_found(a, i);
        if a.is_proxied(word) {
            let j = choose|j: int|
                0 <= j < a.proxied.len() && (#[trigger] a.proxied[j]).meta.word_id == word;
            assert(a.sessions[i].meta.word_id != a.proxied[j].meta.word_id);
        }
    }
    if unknown(a, word) {
        lemma_first_where(a.sessions, is_session(word));
    }
}

/// Kicking a client out of a session: it is gone from every pane of that session, the panes fit
/// those that are left, the client is told by whom, and so is the one that asked. Other sessions
/// stay. A client that sees none of the session's panes is not kicked.
pub proof fn law_kicking_a_client(
    a: AppView,
    label: Option<Seq<char>>,
    id: u64,
    i: int,
    target: ClientId,
)
    requires
        a.wf(),
        0 <= i < a.sessions.len(),
        !a.is_proxied(a.sessions[i].meta.word_id),
    ensures
        ({
            let s = a.sessions[i];
            let word = s.meta.word_id;
            let (b, out) = kick_step(a, label, id, word, target);
            &&& attached_to(s.panes, target) ==> {
                &&& only_session(a, b, i)
                &&& b.sessions[i] == (SessionView { panes: b.sessions[i].panes, ..s })
                &&& b.sessions[i].panes.len() == s.panes.len()
                &&& forall|p: int|
                    0 <= p < s.panes.len() ==> #[trigger] b.sessions[i].panes[p]
                        == s.panes[p].without_client(target).recomputed().fitted()
                &&& out.flow == Flow::Continue
                &&& out.replies == seq![MsgView::ClientKicked(id, word, target)]
                &&& out.broadcasts.len() == 0
                &&& out.resizes == leave_notices(s.panes, word, target)
                &&& out.stopped.len() == 0 && out.unviewed.len() == 0
                &&& label matches Some(l) ==> out.told == Some(
                    (target, MsgView::SessionKicked(word, l)),
                )
                &&& label is None ==> out.told == Some(
                    (target, MsgView::SessionKicked(word, Seq::empty())),
                )
                &&& out.work is None
            }
            &&& !attached_to(s.panes, target) ==> b == a && refused(
                out,
                Some(id),
                ErrorCode::ClientNotFound,
                "client "@ + decimal_text(target.0 as nat) + " not attached to session "@ + word,
            )
        }),
{
    lemma_session_found(a, i);
}

/// Kicking a client out of a peer's session is asked of the peer; out of no session, it fails.
pub proof fn law_kicking_elsewhere(
    a: AppView,
    label: Option<Seq<char>>,
    id: u64,
    word: Seq<char>,
    target: ClientId,
)
    ensures
        kick_step(a, label, id, word, target).0 == a || !a.is_proxied(word) && !unknown(a, word),
        a.is_proxied(word) ==> just(
            kick_step(a, label, id, word, target).1,
            Seq::empty(),
            Seq::empty(),
            Some(WorkView::KickRemote(id, word, target)),
        ),
        !a.is_proxied(word) && unknown(a, word) ==> refused(
            kick_step(a, label, id, word, target).1,
            Some(id),
            ErrorCode::SessionNotFound,
            "session not found: "@ + word,
        ),
{
    if unknown(a, word) {
        lemma_first_where(a.sessions, is_session(word));
    }
}

// ─── Peers ───────────────────────────────────────────────────────────────────

/// A peer that was reached is told to the client, and one that was not with the reason; then
/// nothing changes.
pub proof fn law_opening_a_peer_is_answered(
    a: AppView,
    id: u64,
    hint: Seq<char>,
    peer: Seq<char>,
    entries: Seq<SessionEntryView>,
    reason: Seq<char>,
)
    ensures
        ({
            let (b, out) = opened_step(a, id, hint, Ok((peer, entries)));
            &&& b == a.peer_opened(peer, entries)
            &&& just(out, seq![MsgView::PeerOpened(id, peer)], Seq::empty(), None)
        }),
        ({
            let (b, out) = opened_step(a, id, hint, Err(reason));
            &&& b == a
            &&& just(out, seq![MsgView::PeerError(id, Some(hint), reason)], Seq::empty(), None)
        }),
{
}

/// A peer that is reached is known from then on, and its sessions are listed behind the others, in
/// order and as the peer's. Nothing changes but the peers, what they host and the words in use.
pub proof fn law_peers_sessions_are_listed(
    a: AppView,
    peer: Seq<char>,
    entries: Seq<SessionEntryView>,
)
    requires
        a.peers.no_duplicates(),
    ensures
        ({
            let b = a.peer_opened(peer, entries);
            let n = a.proxied.len() as int;
            &&& forall|q: Seq<char>| #[trigger]
                b.peers.contains(q) <==> a.peers.contains(q) || q == peer
            &&& b.proxied.len() == n + entries.len()
            &&& forall|i: int| 0 <= i < n ==> #[trigger] b.proxied[i] == a.proxied[i]
            &&& forall|i: int|
                0 <= i < entries.len() ==> #[trigger] b.proxied[n + i] == (SessionEntryView {
                    peer: Some(peer),
                    ..entries[i]
                })
            &&& b == (AppView {
                peers: b.peers,
                proxied: b.proxied,
                used_words: b.used_words,
                ..a
            })
        }),
{
    lemma_without_text(a.peers, peer);
    let c = AppView { peers: a.peer_opened(peer, Seq::empty()).peers, ..a };
    lemma_all_surfaced(c, peer, entries);
}

proof fn lemma_all_surfaced(a: AppView, peer: Seq<char>, entries: Seq<SessionEntryView>)
    ensures
        ({
            let b = a.all_surfaced(peer, entries);
            let n = a.proxied.len() as int;
            &&& b.peers == a.peers
            &&& b.proxied.len() == n + entries.len()
            &&& forall|i: int| 0 <= i < n ==> #[trigger] b.proxied[i] == a.proxied[i]
            &&& forall|i: int|
                0 <= i < entries.len() ==> #[trigger] b.proxied[n + i] == (SessionEntryView {
                    peer: Some(peer),
                    ..entries[i]
                })
            &&& b == (AppView { proxied: b.proxied, used_words: b.used_words, ..a })
        }),
    decreases entries.len(),
{
    if entries.len() > 0 {
        lemma_all_surfaced(a, peer, entries.drop_last());
        let b = a.all_surfaced(peer, entries);
        let n = a.proxied.len() as int;
        let c = a.all_surfaced(peer, entries.drop_last());
        assert forall|i: int| 0 <= i < entries.len() implies #[trigger] b.proxied[n + i] == (
        SessionEntryView { peer: Some(peer), ..entries[i] }) by {
            if i < entries.len() - 1 {
                assert(c.proxied[n + i] == (SessionEntryView {
                    peer: Some(peer),
                    ..entries.drop_last()[i]
                }));
            }
        }
    }
}

/// A peer that is closed is not known any more; the sessions that it hosts are not listed, and
/// those of the others are, in their order. Nothing else changes but the words in use.
pub proof fn law_closed_peer_hosts_nothing(a: AppView, peer: Seq<char>)
    requires
        a.peers.no_duplicates(),
    ensures
        ({
            let b = a.peer_closed(peer);
            &&& forall|q: Seq<char>| #[trigger]
                b.peers.contains(q) <==> a.peers.contains(q) && q != peer
            &&& b.proxied == hosted(a.proxied, peer, false)
            &&& b == (AppView {
                peers: b.peers,
                proxied: b.proxied,
                used_words: b.used_words,
                ..a
            })
        }),
{
    lemma_without_text(a.peers, peer);
}

/// The sessions that a peer hosts, or those that it does not, are picked in order, one by one.
pub proof fn law_hosted_sessions_are_picked_in_order(
    entries: Seq<SessionEntryView>,
    e: SessionEntryView,
    peer: Seq<char>,
    own: bool,
)
    ensures
        hosted(Seq::empty(), peer, own).len() == 0,
        (e.peer == Some(peer)) == own ==> hosted(entries.push(e), peer, own) == hosted(
            entries,
            peer,
            own,
        ).push(e),
        (e.peer == Some(peer)) != own ==> hosted(entries.push(e), peer, own) == hosted(
            entries,
            peer,
            own,
        ),
{
    assert(entries.push(e).drop_last() =~= entries);
}

// ─── Notices ─────────────────────────────────────────────────────────────────

/// A notice about a pane goes to everyone as it was sent, and its sender is told; about a pane
/// that is not there nobody hears, and its sender is told that.
pub proof fn law_notices_reach_everyone(
    a: AppView,
    id: u64,
    pane_id: Seq<char>,
    kind: AttentionKind,
    title: Seq<char>,
    body: Seq<char>,
)
    ensures
        a.find_pane(pane_id) is Some ==> just(
            notify_out(a, id, pane_id, kind, title, body),
            seq![MsgView::NotifyAccepted(id)],
            seq![MsgView::Event(EventView::PaneAttention(pane_id, kind, title, body))],
            None,
        ),
        a.find_pane(pane_id) is None ==> refused(
            notify_out(a, id, pane_id, kind, title, body),
            Some(id),
            ErrorCode::PaneNotFound,
            "pane not found: "@ + pane_id,
        ),
{
}

// ─── Logs ────────────────────────────────────────────────────────────────────

/// A log is sent in chunks of at most 65536 bytes, which together are the log from where its last
/// lines start, or all of it where no number of lines was asked for. The end is told, unless the
/// client wants to hear what comes after.
pub proof fn law_log_is_sent_in_chunks(
    id: u64,
    lines: Option<u32>,
    follow: bool,
    data: Vec<u8>,
    start: usize,
)
    requires
        start <= data@.len(),
    ensures
        ({
            let out = log_out(id, lines, follow, LogRead::Content { data, start });
            let wanted = if lines is Some {
                data@.skip(start as int)
            } else {
                data@
            };
            let cs = chunks(wanted, 65536);
            let n = cs.len() as int;
            &&& joined(cs) == wanted
            &&& forall|i: int| 0 <= i < n ==> 1 <= (#[trigger] cs[i]).len() <= 65536
            &&& forall|i: int| 0 <= i < n ==> #[trigger] out.replies[i] == MsgView::LogChunk(id, cs[i])
            &&& follow ==> out.replies.len() == n && out.work == Some(WorkView::FollowLog(id))
            &&& !follow ==> out.replies.len() == n + 1 && out.replies[n] == MsgView::LogEnd(id)
                && out.work is None
            &&& out.flow == Flow::Continue
            &&& out.broadcasts.len() == 0 && out.told is None
        }),
{
    let wanted = if lines is Some {
        data@.skip(start as int)
    } else {
        data@
    };
    assert(data@.skip(0) =~= data@);
    super::diagnostics::law_chunks_make_the_whole(wanted, 65536);
}

/// A log that cannot be read is an error that says why.
pub proof fn law_log_that_is_not_read(
    id: u64,
    lines: Option<u32>,
    follow: bool,
    path: String,
    e: String,
)
    ensures
        refused(
            log_out(id, lines, follow, LogRead::NoPath(e)),
            Some(id),
            ErrorCode::InternalError,
            "daemon log path unavailable: "@ + e@,
        ),
        refused(
            log_out(id, lines, follow, LogRead::Unreadable { path, error: e }),
            Some(id),
            ErrorCode::InternalError,
            "daemon log not readable at "@ + path@ + ": "@ + e@,
        ),
        refused(
            log_out(id, lines, follow, LogRead::Failed(e)),
            Some(id),
            ErrorCode::InternalError,
            "reading daemon log failed: "@ + e@,
        ),
{
}

// ─── Directories ─────────────────────────────────────────────────────────────

/// Of what a directory holds, those entries count that have a name and are directories, or links
/// to one; in the order in which they were found.
pub proof fn law_which_entries_are_directories(entries: Seq<FoundView>, e: FoundView)
    ensures
        dir_names(Seq::empty()).len() == 0,
        e.name matches Some(name) ==> if e.is_dir || e.links_to_dir {
            dir_names(entries.push(e)) == dir_names(entries).push(name)
        } else {
            dir_names(entries.push(e)) == dir_names(entries)
        },
        e.name is None ==> dir_names(entries.push(e)) == dir_names(entries),
{
    assert(entries.push(e).drop_last() =~= entries);
}

/// The directories are listed in order, and no more than the first 2000 of them, each as a
/// directory.
pub proof fn law_listing_is_cut_off(names: Seq<Seq<char>>)
    ensures
        ({
            let r = listed_dirs(names);
            let sorted = in_order(names);
            &&& r.len() <= 2000
            &&& sorted.len() <= 2000 ==> r.len() == sorted.len()
            &&& sorted.len() > 2000 ==> r.len() == 2000
            &&& forall|i: int|
                0 <= i < r.len() ==> (#[trigger] r[i]).name == sorted[i] && r[i].is_dir
        }),
{
}

/// A listing names the directory that was read and its parent; one that could not be read is
/// answered with the directory asked for and the reason.
pub proof fn law_directory_is_answered(
    id: u64,
    requested: Seq<char>,
    d: FoundDirectory,
    reason: String,
)
    ensures
        directory_msg(id, requested, Ok(d)) == MsgView::DirectoryListing(
            id,
            d.path@,
            text_option(d.parent),
            listed_dirs(dir_names(views(d.entries@))),
            None,
        ),
        directory_msg(id, requested, Err(reason)) == MsgView::DirectoryListing(
            id,
            requested,
            None,
            Seq::empty(),
            Some(reason@),
        ),
{
}

/// Putting names in order loses none and adds none.
pub proof fn law_order_loses_no_name(names: Seq<Seq<char>>)
    ensures
        in_order(names).len() == names.len(),
        forall|i: int| 0 <= i < names.len() ==> in_order(names).contains(#[trigger] names[i]),
        forall|i: int| 0 <= i < names.len() ==> names.contains(#[trigger] in_order(names)[i]),
{
    lemma_arranged(names, ranks(names));
    assert forall|i: int| 0 <= i < names.len() implies names.contains(
        #[trigger] in_order(names)[i],
    ) by {
        let o = stable_order(ranks(names));
        assert(0 <= o[i] < names.len());
        assert(in_order(names)[i] == names[o[i]]);
    }
}

} // verus!
