//! What each request about sessions, tabs and layouts does: to the daemon's state, in answers and
//! in news to the others.

use super::layout::{layout_step, scheme_out};
use super::pane::{
    close_news, close_pane_step, close_tab_step, pane_closed_step, rename_tab_step, reorder_step,
    request_of, spawned_step, split_step, tab_step,
};
use super::session::{
    closed_step, create_out, prepared_step, remote_created_step, rename_step, restore_out,
    restored_step,
};
use super::{ClientView, Flow, OutView, PurposeView, WorkView};
use crate::app::crud::new_session;
use crate::app::graveyard::lemma_reserved;
use crate::app::laws::{law_pane_id_leads_to_its_pane, lemma_session_found};
use crate::app::persistence::CaptureView;
use crate::app::restart::is_closed;
use crate::app::restore::{restored_session, PaneOutcome};
use crate::app::{is_session, lemma_find_pane, released, session_at, AppView};
use crate::events::EventView;
use crate::layout::{SplitDir, Tree};
use crate::list::{lemma_first_where, lemma_first_where_is};
use crate::messages::{MsgView, SpawnView};
use crate::pane::PaneView;
use crate::protocol::{
    ClientId, ErrorCode, ErrorView, MetaView, SessionEntryView, TabView, TermSize,
};
use crate::session::{is_tab, tab_at, CloseView, SessionView};
use crate::session_laws::{lemma_pane_update_keeps_wf, lemma_tab_found};
use crate::text::{
    decimal_text, law_pane_id_round_trip, lemma_without_text, pane_id_parts, pane_id_text,
};
use vstd::prelude::*;

verus! {

/// Whether an outcome is this and nothing else: what the client is told, what everyone is told,
/// and what is asked of the system.
pub open spec fn just(
    o: OutView,
    own: Seq<MsgView>,
    all: Seq<MsgView>,
    work: Option<WorkView>,
) -> bool {
    &&& o.flow == Flow::Continue
    &&& o.replies == own
    &&& o.broadcasts == all
    &&& o.resizes.len() == 0
    &&& o.stopped.len() == 0
    &&& o.unviewed.len() == 0
    &&& o.told is None
    &&& o.work == work
}

/// Whether an outcome is an error and nothing else.
pub open spec fn refused(o: OutView, request_id: Option<u64>, code: ErrorCode, text: Seq<char>)
    -> bool {
    just(o, seq![MsgView::Error(request_id, code, text)], Seq::empty(), None)
}

/// Whether two states differ in one session at most.
pub open spec fn only_session(a: AppView, b: AppView, i: int) -> bool {
    &&& b.sessions.len() == a.sessions.len()
    &&& forall|j: int|
        0 <= j < a.sessions.len() && j != i ==> #[trigger] b.sessions[j] == a.sessions[j]
    &&& b == (AppView { sessions: b.sessions, ..a })
}

/// Whether two states differ in one tab of one session at most.
pub open spec fn only_tab(a: AppView, b: AppView, i: int, t: int) -> bool {
    &&& only_session(a, b, i)
    &&& b.sessions[i].tabs.len() == a.sessions[i].tabs.len()
    &&& forall|u: int|
        0 <= u < a.sessions[i].tabs.len() && u != t ==> #[trigger] b.sessions[i].tabs[u]
            == a.sessions[i].tabs[u]
    &&& b.sessions[i] == (SessionView { tabs: b.sessions[i].tabs, ..a.sessions[i] })
}

/// No session has a word.
pub open spec fn unknown(a: AppView, word: Seq<char>) -> bool {
    forall|i: int| 0 <= i < a.sessions.len() ==> (#[trigger] a.sessions[i]).meta.word_id != word
}

proof fn lemma_unknown(a: AppView, word: Seq<char>)
    requires
        unknown(a, word),
    ensures
        session_at(a.sessions, word) is None,
{
    lemma_first_where(a.sessions, is_session(word));
}

/// A session's tab, and that it is found.
proof fn lemma_found(a: AppView, i: int, t: int)
    requires
        a.wf(),
        0 <= i < a.sessions.len(),
        0 <= t < a.sessions[i].tabs.len(),
    ensures
        session_at(a.sessions, a.sessions[i].meta.word_id) == Some(i),
        tab_at(a.sessions[i].tabs, a.sessions[i].tabs[t].tab_index) == Some(t),
{
    lemma_session_found(a, i);
    assert(a.sessions[i].wf());
    lemma_tab_found(a.sessions[i], t);
}

// ─── Sessions ────────────────────────────────────────────────────────────────

/// A renamed session has the new name and is otherwise as before, and so is everything else; the
/// client is told. Where no session has the word, nothing changes and the client is told that.
pub proof fn law_renaming_a_session(a: AppView, id: u64, word: Seq<char>, name: Seq<char>, i: int)
    requires
        a.wf(),
    ensures
        0 <= i < a.sessions.len() && a.sessions[i].meta.word_id == word ==> {
            let (b, out) = rename_step(a, id, word, name);
            &&& only_session(a, b, i)
            &&& b.sessions[i].meta.name == name
            &&& b.sessions[i].meta == (MetaView { name, ..a.sessions[i].meta })
            &&& b.sessions[i] == (SessionView { meta: b.sessions[i].meta, ..a.sessions[i] })
            &&& just(out, seq![MsgView::SessionRenamed(word, name)], Seq::empty(), None)
        },
        unknown(a, word) ==> rename_step(a, id, word, name).0 == a && refused(
            rename_step(a, id, word, name).1,
            Some(id),
            ErrorCode::SessionNotFound,
            "session not found: "@ + word,
        ),
{
    if 0 <= i < a.sessions.len() && a.sessions[i].meta.word_id == word {
        lemma_session_found(a, i);
    }
    if unknown(a, word) {
        lemma_unknown(a, word);
    }
}

/// A new session is asked of the peer that was named, where that is connected, and of this daemon
/// where none was named. The name, the directory and the program go with the request.
pub proof fn law_where_a_session_is_created(
    a: AppView,
    id: u64,
    name: Option<Seq<char>>,
    cwd: Option<Seq<char>>,
    spawn: SpawnView,
    peer: Seq<char>,
)
    ensures
        just(
            create_out(a, id, name, cwd, spawn, None),
            Seq::empty(),
            Seq::empty(),
            Some(WorkView::PrepareSession(id, name, cwd, spawn)),
        ),
        a.peers.contains(peer) ==> just(
            create_out(a, id, name, cwd, spawn, Some(peer)),
            Seq::empty(),
            Seq::empty(),
            Some(WorkView::CreateRemote(id, peer, name, cwd, spawn)),
        ),
        !a.peers.contains(peer) ==> refused(
            create_out(a, id, name, cwd, spawn, Some(peer)),
            Some(id),
            ErrorCode::InternalError,
            "peer "@ + peer + " is not connected"@,
        ),
{
}

/// A session is begun with the word that was drawn, the next number and the directory; it is
/// called what was asked for, else after its directory, else by its word. Its first pane is asked
/// for as number zero, with the program that was asked for.
pub proof fn law_session_is_prepared(
    a: AppView,
    id: u64,
    name: Option<Seq<char>>,
    word: Seq<char>,
    cwd: Seq<char>,
    base: Option<Seq<char>>,
    spawn: SpawnView,
    meta: MetaView,
)
    requires
        a.sessions.len() < 1000,
        meta.index == a.session_index_counter,
        meta.word_id == word,
        meta.cwd == cwd,
        name matches Some(n) ==> meta.name == n,
        name is None && base is Some ==> Some(meta.name) == base,
        name is None && base is None ==> meta.name == word,
    ensures
        ({
            let (b, out) = prepared_step(a, id, name, Some(word), cwd, base, spawn);
            &&& b == a.session_begun(word)
            &&& just(
                out,
                Seq::empty(),
                Seq::empty(),
                Some(WorkView::SpawnPane(PurposeView::Session(id, meta), 0, spawn)),
            )
        }),
{
}

/// A thousand sessions are the most: a further one is refused, and so is one for which there is no
/// word left. Nothing changes then.
pub proof fn law_when_a_session_is_refused(
    a: AppView,
    id: u64,
    name: Option<Seq<char>>,
    drawn: Option<Seq<char>>,
    cwd: Seq<char>,
    base: Option<Seq<char>>,
    spawn: SpawnView,
)
    ensures
        ({
            let (b, out) = prepared_step(a, id, name, drawn, cwd, base, spawn);
            &&& a.sessions.len() >= 1000 ==> b == a && refused(
                out,
                Some(id),
                ErrorCode::SessionAlreadyExists,
                "session already exists: "@ + "session limit (1000) reached"@,
            )
            &&& a.sessions.len() < 1000 && drawn is None ==> b == a && refused(
                out,
                Some(id),
                ErrorCode::SessionAlreadyExists,
                "session already exists: "@ + "word pool exhausted"@,
            )
        }),
{
}

/// A session that a peer created is listed from then on as that peer's, last; its word is in use
/// and its client is told. Where the peer failed, the client is told why.
pub proof fn law_peers_session_is_listed(
    a: AppView,
    id: u64,
    peer: Seq<char>,
    entry: SessionEntryView,
    reason: Seq<char>,
)
    requires
        a.wf(),
    ensures
        ({
            let (b, out) = remote_created_step(a, id, peer, Ok(entry));
            let shown = b.proxied.last();
            &&& b.proxied.len() == a.proxied.len() + 1
            &&& b.proxied.drop_last() == a.proxied
            &&& shown.peer == Some(peer)
            &&& shown.meta == entry.meta && shown.panes == entry.panes && shown.tabs == entry.tabs
                && shown.active_tab == entry.active_tab
            &&& b.used_words.contains(entry.meta.word_id)
            &&& forall|w: Seq<char>| #[trigger]
                b.used_words.contains(w) <==> a.used_words.contains(w) || w == entry.meta.word_id
            &&& b == (AppView { proxied: b.proxied, used_words: b.used_words, ..a })
            &&& just(out, seq![MsgView::SessionCreated(id, shown)], Seq::empty(), None)
        }),
        ({
            let (b, out) = remote_created_step(a, id, peer, Err(reason));
            b == a && refused(out, Some(id), ErrorCode::InternalError, reason)
        }),
{
    lemma_reserved(a.used_words, entry.meta.word_id);
    let b = remote_created_step(a, id, peer, Ok(entry)).0;
    assert(b.proxied.drop_last() =~= a.proxied);
}

/// A session that is closed, once its panes are captured: it is put away, all its panes are ended
/// by their ids, and the client is told.
pub proof fn law_closing_a_session(
    a: AppView,
    id: u64,
    i: int,
    captures: Seq<CaptureView>,
    now: u64,
)
    requires
        a.wf(),
        0 <= i < a.sessions.len(),
    ensures
        ({
            let word = a.sessions[i].meta.word_id;
            let (b, out) = closed_step(a, id, word, captures, now);
            let ended = out.work->0->EndPanes_0;
            &&& b == a.session_closed(i, captures, now)
            &&& just(
                out,
                seq![MsgView::SessionClosed(id, word, None)],
                Seq::empty(),
                Some(WorkView::EndPanes(ended)),
            )
            &&& ended.len() == a.sessions[i].panes.len()
            &&& forall|p: int|
                0 <= p < ended.len() ==> #[trigger] ended[p] == pane_id_text(
                    word,
                    a.sessions[i].panes[p].pane_index,
                )
        }),
{
    lemma_session_found(a, i);
}

/// A session that is asked back: its panes are to be started where it is among the closed ones,
/// and otherwise the client is told that there is none.
pub proof fn law_asking_a_session_back(a: AppView, id: u64, word: Seq<char>)
    ensures
        (exists|k: int|
            0 <= k < a.closed_sessions.len() && (
            #[trigger] a.closed_sessions[k]).session.meta.word_id == word) ==> just(
            restore_out(a, id, word),
            Seq::empty(),
            Seq::empty(),
            Some(WorkView::RestorePanes(id, word)),
        ),
        (forall|k: int|
            0 <= k < a.closed_sessions.len() ==> (
            #[trigger] a.closed_sessions[k]).session.meta.word_id != word) ==> refused(
            restore_out(a, id, word),
            Some(id),
            ErrorCode::SessionNotFound,
            "session not found: "@ + word,
        ),
{
    lemma_first_where(a.closed_sessions, is_closed(word));
    if exists|k: int|
        0 <= k < a.closed_sessions.len() && (
        #[trigger] a.closed_sessions[k]).session.meta.word_id == word {
        let k = choose|k: int|
            0 <= k < a.closed_sessions.len() && (
            #[trigger] a.closed_sessions[k]).session.meta.word_id == word;
        assert(is_closed(word)(a.closed_sessions[k]));
    }
}

/// A session that came back is live again and everyone hears of it; one whose panes all failed is
/// not, and stays among the closed ones.
pub proof fn law_session_asked_back_is_live(
    a: AppView,
    id: u64,
    k: int,
    outcomes: Seq<PaneOutcome>,
)
    requires
        a.wf(),
        0 <= k < a.closed_sessions.len(),
    ensures
        ({
            let word = a.closed_sessions[k].session.meta.word_id;
            let (b, out) = restored_step(a, id, word, outcomes);
            match restored_session(a.closed_sessions[k].session, outcomes) {
                Some(s) => {
                    &&& b == a.reopened(s)
                    &&& just(
                        out,
                        seq![MsgView::SessionCreated(id, s.entry())],
                        seq![MsgView::Event(EventView::SessionCreated(s.meta.word_id))],
                        None,
                    )
                },
                None => {
                    &&& b == a
                    &&& refused(
                        out,
                        Some(id),
                        ErrorCode::InternalError,
                        "failed to restore closed session '"@ + word + "'"@,
                    )
                },
            }
        }),
{
    let word = a.closed_sessions[k].session.meta.word_id;
    assert forall|j: int| 0 <= j < k implies !is_closed(word)(#[trigger] a.closed_sessions[j]) by {
        assert(a.closed_sessions[j].word() != a.closed_sessions[k].word());
    }
    lemma_first_where_is(a.closed_sessions, is_closed(word), k);
}

// ─── Tabs and panes ──────────────────────────────────────────────────────────

/// A new tab takes the session's next tab index and its next pane index, which are then used up;
/// the program goes with the request. Nothing else of the daemon changes.
pub proof fn law_asking_for_a_tab(
    a: AppView,
    id: u64,
    i: int,
    spawn: SpawnView,
    as_pane: bool,
)
    requires
        a.wf(),
        0 <= i < a.sessions.len(),
        a.sessions[i].next_pane_index < u32::MAX,
        a.sessions[i].next_tab_index < u32::MAX,
    ensures
        ({
            let s = a.sessions[i];
            let (b, out) = tab_step(a, id, s.meta.word_id, spawn, as_pane);
            &&& only_session(a, b, i)
            &&& b.sessions[i].next_pane_index == s.next_pane_index + 1
            &&& b.sessions[i].next_tab_index == s.next_tab_index + 1
            &&& b.sessions[i] == (SessionView {
                next_pane_index: b.sessions[i].next_pane_index,
                next_tab_index: b.sessions[i].next_tab_index,
                ..s
            })
            &&& out.work matches Some(WorkView::SpawnPane(purpose, index, program))
            &&& index == s.next_pane_index
            &&& program == spawn
            &&& as_pane ==> purpose == PurposeView::Pane(id, s.meta.word_id, s.next_tab_index)
            &&& !as_pane ==> purpose == PurposeView::Tab(id, s.meta.word_id, s.next_tab_index)
            &&& just(out, Seq::empty(), Seq::empty(), out.work)
        }),
{
    lemma_session_found(a, i);
}

/// A pane is split where its tab shows it: the new pane takes the session's next index, and the
/// request says which pane to split and which way. A pane that the tab does not show is not
/// split, and the client is told which.
pub proof fn law_asking_for_a_split(
    a: AppView,
    id: u64,
    i: int,
    t: int,
    from: u32,
    dir: SplitDir,
    spawn: SpawnView,
)
    requires
        a.wf(),
        0 <= i < a.sessions.len(),
        0 <= t < a.sessions[i].tabs.len(),
        a.sessions[i].next_pane_index < u32::MAX,
    ensures
        ({
            let s = a.sessions[i];
            let word = s.meta.word_id;
            let tab = s.tabs[t].tab_index;
            let (b, out) = split_step(a, id, word, tab, from, dir, spawn);
            &&& s.tabs[t].layout.leaves().contains(from) ==> {
                &&& only_session(a, b, i)
                &&& b.sessions[i].next_pane_index == s.next_pane_index + 1
                &&& b.sessions[i] == (SessionView {
                    next_pane_index: b.sessions[i].next_pane_index,
                    ..s
                })
                &&& just(
                    out,
                    Seq::empty(),
                    Seq::empty(),
                    Some(
                        WorkView::SpawnPane(
                            PurposeView::Split(id, word, tab, from, dir),
                            s.next_pane_index,
                            spawn,
                        ),
                    ),
                )
            }
            &&& !s.tabs[t].layout.leaves().contains(from) ==> b == a && refused(
                out,
                Some(id),
                ErrorCode::SessionNotFound,
                "session not found: "@ + pane_id_text(word, from),
            )
        }),
{
    lemma_found(a, i, t);
}

/// The first pane of a session makes the session: it is there, with that pane, and its client is
/// told what it looks like.
pub proof fn law_first_pane_makes_the_session(
    a: AppView,
    id: u64,
    meta: MetaView,
    pane: PaneView,
    size: TermSize,
    now: u64,
)
    requires
        unknown(a, meta.word_id),
    ensures
        ({
            let (b, out) = spawned_step(a, PurposeView::Session(id, meta), pane, size, now);
            let s = new_session(meta, pane, now);
            &&& b.sessions.len() == a.sessions.len() + 1
            &&& b.sessions.drop_last() == a.sessions
            &&& b.sessions.last() == s
            &&& b == (AppView { sessions: b.sessions, ..a })
            &&& just(out, seq![MsgView::SessionCreated(id, s.entry())], Seq::empty(), None)
        }),
{
    lemma_unknown(a, meta.word_id);
    let b = spawned_step(a, PurposeView::Session(id, meta), pane, size, now).0;
    assert(b.sessions.drop_last() =~= a.sessions);
}

/// A pane in a tab of its own: the tab is added to its session, the client is told of the pane or
/// of the tab, whichever it asked for, and everyone hears of the tab.
pub proof fn law_new_tab_is_told(
    a: AppView,
    id: u64,
    i: int,
    tab: u32,
    pane: PaneView,
    size: TermSize,
    now: u64,
)
    requires
        a.wf(),
        0 <= i < a.sessions.len(),
    ensures
        ({
            let word = a.sessions[i].meta.word_id;
            let (b, out) = spawned_step(a, PurposeView::Pane(id, word, tab), pane, size, now);
            &&& only_session(a, b, i)
            &&& b.sessions[i] == a.sessions[i].tab_added(tab, pane)
            &&& just(
                out,
                seq![MsgView::PaneCreated(id, pane_id_text(word, pane.pane_index), word, size)],
                seq![MsgView::Event(EventView::TabCreated(word, tab))],
                None,
            )
        }),
        ({
            let word = a.sessions[i].meta.word_id;
            let (b, out) = spawned_step(a, PurposeView::Tab(id, word, tab), pane, size, now);
            &&& only_session(a, b, i)
            &&& b.sessions[i] == a.sessions[i].tab_added(tab, pane)
            &&& just(
                out,
                seq![MsgView::TabCreated(id, word, b.sessions[i].tabs.last())],
                seq![MsgView::Event(EventView::TabCreated(word, tab))],
                None,
            )
        }),
{
    lemma_session_found(a, i);
}

/// A pane beside another one: the tab is split, the client is told of the new pane, and everyone
/// of the layout as it is then, with the focus on the new pane.
pub proof fn law_split_is_told(
    a: AppView,
    id: u64,
    i: int,
    t: int,
    from: u32,
    dir: SplitDir,
    pane: PaneView,
    size: TermSize,
    now: u64,
)
    requires
        a.wf(),
        0 <= i < a.sessions.len(),
        0 <= t < a.sessions[i].tabs.len(),
    ensures
        ({
            let word = a.sessions[i].meta.word_id;
            let tab = a.sessions[i].tabs[t].tab_index;
            let (b, out) = spawned_step(
                a,
                PurposeView::Split(id, word, tab, from, dir),
                pane,
                size,
                now,
            );
            let layout = b.sessions[i].tabs[t].layout;
            &&& only_session(a, b, i)
            &&& b.sessions[i] == a.sessions[i].pane_split(tab, from, dir, pane)
            &&& just(
                out,
                seq![MsgView::PaneSplit(id, word, tab, pane.info(word), layout)],
                seq![MsgView::LayoutUpdate(word, tab, layout, pane.pane_index)],
                None,
            )
        }),
{
    lemma_found(a, i, t);
}

/// A pane whose session is gone by the time it runs changes nothing; the client is told.
pub proof fn law_pane_without_a_session_is_reported(
    a: AppView,
    id: u64,
    word: Seq<char>,
    tab: u32,
    from: u32,
    dir: SplitDir,
    pane: PaneView,
    size: TermSize,
    now: u64,
)
    requires
        unknown(a, word),
    ensures
        ({
            let text = "session not found: "@ + word;
            let one = spawned_step(a, PurposeView::Pane(id, word, tab), pane, size, now);
            let two = spawned_step(a, PurposeView::Tab(id, word, tab), pane, size, now);
            let three = spawned_step(
                a,
                PurposeView::Split(id, word, tab, from, dir),
                pane,
                size,
                now,
            );
            &&& one.0 == a && refused(one.1, Some(id), ErrorCode::SessionNotFound, text)
            &&& two.0 == a && refused(two.1, Some(id), ErrorCode::SessionNotFound, text)
            &&& three.0 == a && refused(three.1, Some(id), ErrorCode::SessionNotFound, text)
        }),
{
    lemma_unknown(a, word);
}

/// A renamed tab has the new name, and nothing else of the daemon changes; everyone hears of it.
pub proof fn law_renaming_a_tab(a: AppView, id: u64, i: int, t: int, name: Seq<char>)
    requires
        a.wf(),
        0 <= i < a.sessions.len(),
        0 <= t < a.sessions[i].tabs.len(),
    ensures
        ({
            let word = a.sessions[i].meta.word_id;
            let before = a.sessions[i].tabs[t];
            let (b, out) = rename_tab_step(a, id, word, before.tab_index, name);
            &&& only_tab(a, b, i, t)
            &&& b.sessions[i].tabs[t] == (TabView { name, ..before })
            &&& just(
                out,
                Seq::empty(),
                seq![MsgView::Event(EventView::TabRenamed(word, before.tab_index, name))],
                None,
            )
        }),
{
    lemma_found(a, i, t);
}

/// Moving a tab: everyone hears the order of the tabs as it is then, first to last.
pub proof fn law_moving_a_tab(a: AppView, i: int, tab: u32, position: u32)
    requires
        a.wf(),
        0 <= i < a.sessions.len(),
    ensures
        ({
            let word = a.sessions[i].meta.word_id;
            let (b, out) = reorder_step(a, word, tab, position);
            let order = out.broadcasts[0]->Event_0->TabsReordered_1;
            &&& only_session(a, b, i)
            &&& b.sessions[i] == a.sessions[i].reordered(tab, position)
            &&& just(
                out,
                Seq::empty(),
                seq![MsgView::Event(EventView::TabsReordered(word, order))],
                None,
            )
            &&& order.len() == b.sessions[i].tabs.len()
            &&& forall|k: int|
                0 <= k < order.len() ==> #[trigger] order[k] == b.sessions[i].tabs[k].tab_index
        }),
{
    lemma_session_found(a, i);
}

/// Closing a tab: its panes are ended, by the ids of the panes that its layout shows; the client
/// is told, and everyone hears that the tab is gone, or the session where that was its last tab.
pub proof fn law_closing_a_tab_is_told(a: AppView, id: u64, i: int, t: int)
    requires
        a.wf(),
        0 <= i < a.sessions.len(),
        0 <= t < a.sessions[i].tabs.len(),
    ensures
        ({
            let s = a.sessions[i];
            let word = s.meta.word_id;
            let tab = s.tabs[t].tab_index;
            let (b, out) = close_tab_step(a, id, word, tab);
            let ended = out.work->0->EndPanes_0;
            let shown = s.tabs[t].layout.leaves();
            &&& ended.len() == shown.len()
            &&& forall|k: int|
                0 <= k < ended.len() ==> #[trigger] ended[k] == pane_id_text(word, shown[k])
            &&& out.work == Some(WorkView::EndPanes(ended))
            &&& s.tabs.len() > 1 ==> {
                &&& only_session(a, b, i)
                &&& b.sessions[i] == s.tab_closed(tab)
                &&& just(
                    out,
                    seq![MsgView::TabClosed(id, word, tab)],
                    seq![MsgView::Event(EventView::TabClosed(word, tab))],
                    out.work,
                )
            }
            &&& s.tabs.len() == 1 ==> {
                &&& b.sessions == a.sessions.remove(i)
                &&& b.used_words == released(a.used_words, word)
                &&& b == (AppView { sessions: b.sessions, used_words: b.used_words, ..a })
                &&& just(
                    out,
                    seq![MsgView::TabClosed(id, word, tab)],
                    seq![MsgView::Event(EventView::SessionClosed(word))],
                    out.work,
                )
            }
        }),
{
    lemma_found(a, i, t);
    let s = a.sessions[i];
    let closed = s.tab_closed(s.tabs[t].tab_index);
    assert(closed.tabs == s.tabs.remove(t));
    assert(closed.meta == s.meta);
    assert(a.sessions.update(i, closed).remove(i) =~= a.sessions.remove(i));
}

/// What everyone hears when a pane is closed: the layout that is left, that the tab is gone, or
/// that the session is; nothing where no tab showed the pane.
pub proof fn law_what_a_closed_pane_is_told(word: Seq<char>, tab: u32, layout: Tree, focused: u32)
    ensures
        close_news(word, CloseView::TabUpdated(tab, layout, focused)) == seq![
            MsgView::LayoutUpdate(word, tab, layout, focused),
        ],
        close_news(word, CloseView::TabClosed(tab)) == seq![
            MsgView::Event(EventView::TabClosed(word, tab)),
        ],
        close_news(word, CloseView::SessionClosed) == seq![
            MsgView::Event(EventView::SessionClosed(word)),
        ],
        close_news(word, CloseView::Gone).len() == 0,
{
}

/// Closing a pane, once its program is ended: nobody watches it any more, it leaves its session
/// as the session's rules say, the client is told, and everyone hears what that means.
pub proof fn law_closing_a_pane_is_told(a: AppView, id: u64, i: int, p: int)
    requires
        a.wf(),
        0 <= i < a.sessions.len(),
        0 <= p < a.sessions[i].panes.len(),
    ensures
        ({
            let s = a.sessions[i];
            let word = s.meta.word_id;
            let index = s.panes[p].pane_index;
            let pane_id = pane_id_text(word, index);
            let alone = PaneView { clients: Seq::empty(), ..s.panes[p] };
            let (after, outcome) = (SessionView {
                panes: s.panes.update(p, alone),
                ..s
            }).pane_closed(index);
            let (b, out) = pane_closed_step(a, id, pane_id, Ok(()));
            &&& just(
                out,
                seq![MsgView::PaneClosed(id, pane_id, None)],
                close_news(word, outcome),
                None,
            )
            &&& !(outcome is SessionClosed) ==> only_session(a, b, i) && b.sessions[i] == after
            &&& outcome is SessionClosed ==> {
                &&& b.sessions == a.sessions.remove(i)
                &&& b.used_words == released(a.used_words, word)
                &&& b == (AppView { sessions: b.sessions, used_words: b.used_words, ..a })
            }
        }),
{
    let s = a.sessions[i];
    let word = s.meta.word_id;
    let index = s.panes[p].pane_index;
    let pane_id = pane_id_text(word, index);
    law_pane_id_round_trip(word, index);
    law_pane_id_leads_to_its_pane(a, pane_id, i, p);
    let alone = PaneView { clients: Seq::empty(), ..s.panes[p] };
    let cleared = a.pane_cleared(pane_id);
    assert(cleared == a.with_pane_at(i, p, alone));
    assert(s.wf());
    lemma_pane_update_keeps_wf(s, p, alone);
    let changed = SessionView { panes: s.panes.update(p, alone), ..s };
    assert(cleared.sessions == a.sessions.update(i, changed));
    lemma_session_found(a, i);
    assert(session_at(cleared.sessions, word) == Some(i)) by {
        assert forall|j: int| 0 <= j < i implies !is_session(word)(
            #[trigger] cleared.sessions[j],
        ) by {
            assert(a.sessions[j].meta.word_id != a.sessions[i].meta.word_id);
        }
        lemma_first_where_is(cleared.sessions, is_session(word), i);
    }
    let after = changed.pane_closed(index).0;
    assert(after.meta == s.meta);
    assert(cleared.sessions.update(i, after).remove(i) =~= a.sessions.remove(i));
}

/// A pane that a client wants closed is no longer shown to it: its output stops, and the client is
/// gone from the pane. Ending the program is asked for.
pub proof fn law_asking_to_close_a_pane(a: AppView, c: ClientView, id: u64, pane_id: Seq<char>)
    requires
        c.attached.no_duplicates(),
    ensures
        ({
            let s = close_pane_step(a, c, id, pane_id);
            &&& s.out.work == Some(WorkView::ClosePane(id, pane_id))
            &&& s.out.flow == Flow::Continue
            &&& s.out.replies.len() == 0 && s.out.broadcasts.len() == 0 && s.out.told is None
            &&& s.out.unviewed.len() == 0
            &&& c.attached.contains(pane_id) ==> s.out.stopped == seq![pane_id]
            &&& !c.attached.contains(pane_id) ==> s.out.stopped.len() == 0
            &&& forall|q: Seq<char>| #[trigger]
                s.client.attached.contains(q) <==> c.attached.contains(q) && q != pane_id
            &&& s.client == (ClientView { attached: s.client.attached, ..c })
            &&& s.app == a.left_pane(pane_id, c.id()).0
            &&& match a.left_pane(pane_id, c.id()).1 {
                Some(n) => s.out.resizes == seq![n],
                None => s.out.resizes.len() == 0,
            }
        }),
{
    lemma_without_text(c.attached, pane_id);
}

/// A pane that a client leaves: the client is gone from it, the pane is as large as those that are
/// left want it, and they are to be shown it anew where that changed. Nothing else changes, and
/// nothing at all where there is no such pane.
pub proof fn law_leaving_a_pane(a: AppView, pane_id: Seq<char>, id: ClientId)
    ensures
        ({
            let (b, n) = a.left_pane(pane_id, id);
            match a.find_pane(pane_id) {
                Some((s, p)) => {
                    let left = a.sessions[s].panes[p].without_client(id).recomputed();
                    &&& b == a.with_pane_at(s, p, left.fitted())
                    &&& n == left.resize_notice(pane_id)
                },
                None => b == a && n is None,
            }
        }),
{
}

// ─── Layouts ─────────────────────────────────────────────────────────────────

/// Changing a tab's layout or focus: the tab is changed, and nothing else; everyone is told the
/// tab's layout and focus as they are then.
pub proof fn law_layout_changes_are_told(
    a: AppView,
    i: int,
    t: int,
    f: spec_fn(TabView) -> TabView,
)
    requires
        a.wf(),
        0 <= i < a.sessions.len(),
        0 <= t < a.sessions[i].tabs.len(),
    ensures
        ({
            let word = a.sessions[i].meta.word_id;
            let tab = a.sessions[i].tabs[t].tab_index;
            let (b, out) = layout_step(a, word, tab, f);
            let after = b.sessions[i].tabs[t];
            &&& only_tab(a, b, i, t)
            &&& after == f(a.sessions[i].tabs[t])
            &&& just(
                out,
                Seq::empty(),
                seq![MsgView::LayoutUpdate(word, tab, after.layout, after.focused_pane)],
                None,
            )
        }),
{
    lemma_found(a, i, t);
}

/// Arranging a tab's panes is asked for with the scheme and with the panes that the tab shows.
pub proof fn law_arranging_is_asked_for(a: AppView, i: int, t: int, scheme: Seq<char>)
    requires
        a.wf(),
        0 <= i < a.sessions.len(),
        0 <= t < a.sessions[i].tabs.len(),
    ensures
        ({
            let word = a.sessions[i].meta.word_id;
            let tab = a.sessions[i].tabs[t];
            just(
                scheme_out(a, word, tab.tab_index, scheme),
                Seq::empty(),
                Seq::empty(),
                Some(WorkView::ArrangeTab(word, tab.tab_index, scheme, tab.layout.leaves())),
            )
        }),
{
    lemma_found(a, i, t);
}

// ─── Requests that fail ──────────────────────────────────────────────────────

/// A request about a session that is not there changes nothing and is answered with an error
/// that names the session; where the request has an id, the answer carries it.
pub proof fn law_unknown_session_is_reported(
    a: AppView,
    id: u64,
    word: Seq<char>,
    name: Seq<char>,
    spawn: SpawnView,
    as_pane: bool,
    x: u32,
    y: u32,
    dir: SplitDir,
    f: spec_fn(TabView) -> TabView,
)
    requires
        unknown(a, word),
    ensures
        ({
            let text = "session not found: "@ + word;
            let code = ErrorCode::SessionNotFound;
            &&& tab_step(a, id, word, spawn, as_pane).0 == a
            &&& refused(tab_step(a, id, word, spawn, as_pane).1, Some(id), code, text)
            &&& split_step(a, id, word, x, y, dir, spawn).0 == a
            &&& refused(split_step(a, id, word, x, y, dir, spawn).1, Some(id), code, text)
            &&& close_tab_step(a, id, word, x).0 == a
            &&& refused(close_tab_step(a, id, word, x).1, Some(id), code, text)
            &&& rename_tab_step(a, id, word, x, name).0 == a
            &&& refused(rename_tab_step(a, id, word, x, name).1, Some(id), code, text)
            &&& reorder_step(a, word, x, y).0 == a
            &&& refused(reorder_step(a, word, x, y).1, None, code, text)
            &&& layout_step(a, word, x, f).0 == a
            &&& refused(layout_step(a, word, x, f).1, None, code, text)
            &&& refused(scheme_out(a, word, x, name), None, code, text)
        }),
{
    lemma_unknown(a, word);
}

/// A request about a tab that its session does not have changes nothing and is answered with an
/// error that names session and tab.
pub proof fn law_unknown_tab_is_reported(
    a: AppView,
    id: u64,
    i: int,
    name: Seq<char>,
    spawn: SpawnView,
    x: u32,
    y: u32,
    dir: SplitDir,
    f: spec_fn(TabView) -> TabView,
)
    requires
        a.wf(),
        0 <= i < a.sessions.len(),
        forall|t: int|
            0 <= t < a.sessions[i].tabs.len() ==> (#[trigger] a.sessions[i].tabs[t]).tab_index != x,
    ensures
        ({
            let word = a.sessions[i].meta.word_id;
            let text = "session not found: "@ + (word + " tab "@ + decimal_text(x as nat));
            let code = ErrorCode::SessionNotFound;
            &&& split_step(a, id, word, x, y, dir, spawn).0 == a
            &&& refused(split_step(a, id, word, x, y, dir, spawn).1, Some(id), code, text)
            &&& close_tab_step(a, id, word, x).0 == a
            &&& refused(close_tab_step(a, id, word, x).1, Some(id), code, text)
            &&& rename_tab_step(a, id, word, x, name).0 == a
            &&& refused(rename_tab_step(a, id, word, x, name).1, Some(id), code, text)
            &&& layout_step(a, word, x, f).0 == a
            &&& refused(layout_step(a, word, x, f).1, None, code, text)
            &&& refused(scheme_out(a, word, x, name), None, code, text)
        }),
{
    lemma_session_found(a, i);
    lemma_first_where(a.sessions[i].tabs, is_tab(x));
    assert(a.sessions.update(i, a.sessions[i]) =~= a.sessions);
}

/// A pane whose id is no pane id, and one whose program could not be ended, is not closed: the
/// client is told why.
pub proof fn law_pane_that_is_not_closed(a: AppView, id: u64, pane_id: Seq<char>, e: ErrorView)
    ensures
        pane_id_parts(pane_id) is None ==> {
            let (b, out) = pane_closed_step(a, id, pane_id, Ok(()));
            b == a && refused(
                out,
                Some(id),
                ErrorCode::PaneNotFound,
                "pane not found: "@ + pane_id,
            )
        },
        pane_id_parts(pane_id) is Some ==> {
            let (b, out) = pane_closed_step(a, id, pane_id, Err(e));
            &&& b.sessions.len() == a.sessions.len()
            &&& forall|i: int|
                0 <= i < a.sessions.len() ==> (#[trigger] b.sessions[i]).panes.len()
                    == a.sessions[i].panes.len() && b.sessions[i].tabs == a.sessions[i].tabs
            &&& e is SessionNotFound ==> refused(
                out,
                Some(id),
                ErrorCode::PaneNotFound,
                "pane not found: "@ + pane_id,
            )
            &&& e matches ErrorView::Spawn(reason) ==> refused(
                out,
                Some(id),
                ErrorCode::InternalError,
                reason,
            )
        },
{
    lemma_find_pane(a, pane_id);
}

/// A pane that cannot be started is reported to the request that asked for it.
pub proof fn law_whose_pane_it_is(
    id: u64,
    meta: MetaView,
    word: Seq<char>,
    tab: u32,
    from: u32,
    dir: SplitDir,
)
    ensures
        request_of(PurposeView::Session(id, meta)) == id,
        request_of(PurposeView::Pane(id, word, tab)) == id,
        request_of(PurposeView::Tab(id, word, tab)) == id,
        request_of(PurposeView::Split(id, word, tab, from, dir)) == id,
{
}

} // verus!
