//! Sessions: creating, closing, listing, restoring and renaming them.

use super::{
    ClientView, OutView, Outcome, PurposeView, SharedClientState, SpawnPurpose, Step, Work,
    WorkView,
};
use crate::app::crud::display_name;
use crate::app::persistence::{CaptureView, PaneCapture};
use crate::app::recover::session_pane_ids;
use crate::app::restart::{closed_at, restore_failure};
use crate::app::restore::{restored_session, PaneOutcome};
use crate::app::{session_at, AppView, ServerApp, MAX_SESSIONS};
use crate::events::{EventView, SessionEventMsg};
use crate::list::group_views;
use crate::messages::{MsgView, ServerMessage, Spawn, SpawnView};
use crate::pane::ResizeView;
use crate::protocol::{
    session_not_found, ClientId, ErrorCode, ErrorView, MetaView, SessionEntry, SessionEntryView,
};
use crate::session::SessionView;
use crate::text::{format_pane_id, text_option, views};
use vstd::prelude::*;
use vstd::string::{StrSliceExecFns, StringExecFns};

verus! {

// ─── Creating ────────────────────────────────────────────────────────────────

pub open spec fn create_out(
    a: AppView,
    request_id: u64,
    name: Option<Seq<char>>,
    cwd: Option<Seq<char>>,
    spawn: SpawnView,
    peer: Option<Seq<char>>,
) -> OutView {
    match peer {
        Some(p) => if a.peers.contains(p) {
            OutView::needing(WorkView::CreateRemote(request_id, p, name, cwd, spawn))
        } else {
            OutView::reply(
                MsgView::Error(
                    Some(request_id),
                    ErrorCode::InternalError,
                    "peer "@ + p + " is not connected"@,
                ),
            )
        },
        None => OutView::needing(WorkView::PrepareSession(request_id, name, cwd, spawn)),
    }
}

/// Create a session here, or on a connected peer.
pub fn on_session_create(
    app: &ServerApp,
    request_id: u64,
    name: Option<String>,
    cwd: Option<String>,
    spawn: Spawn,
    peer: Option<String>,
) -> (r: Outcome)
    ensures
        r@ == create_out(
            app@,
            request_id,
            text_option(name),
            text_option(cwd),
            spawn@,
            text_option(peer),
        ),
{
    match peer {
        Some(peer) => if app.has_peer(peer.as_str()) {
            Outcome::needing(Work::CreateRemote { request_id, peer, name, cwd, spawn })
        } else {
            let mut text = "peer ".to_owned();
            text.append(peer.as_str());
            text.append(" is not connected");
            Outcome::refusal(Some(request_id), ErrorCode::InternalError, text)
        },
        None => Outcome::needing(Work::PrepareSession { request_id, name, cwd, spawn }),
    }
}

/// Beginning a session once its word is drawn and its directory resolved.
pub open spec fn prepared_step(
    a: AppView,
    request_id: u64,
    name: Option<Seq<char>>,
    drawn: Option<Seq<char>>,
    cwd: Seq<char>,
    base: Option<Seq<char>>,
    spawn: SpawnView,
) -> (AppView, OutView) {
    if a.sessions.len() >= MAX_SESSIONS {
        (
            a,
            OutView::error(
                Some(request_id),
                ErrorView::SessionAlreadyExists("session limit (1000) reached"@),
            ),
        )
    } else {
        match drawn {
            None => (
                a,
                OutView::error(
                    Some(request_id),
                    ErrorView::SessionAlreadyExists("word pool exhausted"@),
                ),
            ),
            Some(word) => (
                a.session_begun(word),
                OutView::needing(
                    WorkView::SpawnPane(
                        PurposeView::Session(
                            request_id,
                            MetaView {
                                index: a.session_index_counter,
                                word_id: word,
                                name: display_name(name, base, word),
                                cwd,
                            },
                        ),
                        0,
                        spawn,
                    ),
                ),
            ),
        }
    }
}

/// Begin a session: `drawn` is a free word, `cwd` the directory to start in, `base` its own name.
pub fn finish_prepare_session(
    app: &mut ServerApp,
    request_id: u64,
    name: Option<String>,
    drawn: Option<String>,
    cwd: String,
    base: Option<String>,
    spawn: Spawn,
) -> (r: Outcome)
    ensures
        (final(app)@, r@) == prepared_step(
            old(app)@,
            request_id,
            text_option(name),
            text_option(drawn),
            cwd@,
            text_option(base),
            spawn@,
        ),
        old(app)@.wf() ==> final(app)@.wf(),
{
    match app.begin_session(name, drawn, cwd, base) {
        Ok(meta) => Outcome::needing(
            Work::SpawnPane {
                purpose: SpawnPurpose::Session { request_id, meta },
                pane_index: 0,
                spawn,
            },
        ),
        Err(e) => Outcome::error(Some(request_id), &e),
    }
}

/// The result of creating a session on a peer: it is shown here.
pub open spec fn remote_created_step(
    a: AppView,
    request_id: u64,
    peer: Seq<char>,
    created: Result<SessionEntryView, Seq<char>>,
) -> (AppView, OutView) {
    match created {
        Ok(entry) => (
            a.surfaced(peer, entry),
            OutView::reply(
                MsgView::SessionCreated(
                    request_id,
                    SessionEntryView { peer: Some(peer), ..entry },
                ),
            ),
        ),
        Err(e) => (
            a,
            OutView::reply(MsgView::Error(Some(request_id), ErrorCode::InternalError, e)),
        ),
    }
}

/// Show a session that was created on a peer, under a free word, or say why there is none.
pub fn finish_create_remote(
    app: &mut ServerApp,
    request_id: u64,
    peer: String,
    created: Result<SessionEntry, String>,
) -> (r: Outcome)
    ensures
        (final(app)@, r@) == remote_created_step(
            old(app)@,
            request_id,
            peer@,
            match created {
                Ok(entry) => Ok(entry@),
                Err(e) => Err(e@),
            },
        ),
        ({
            &&& old(app)@.wf()
            &&& created matches Ok(entry) ==> old(app)@.peers.contains(peer@) && !old(
                app,
            )@.used_words.contains(entry@.meta.word_id)
        }) ==> final(app)@.wf(),
{
    match created {
        Ok(mut entry) => {
            app.surface_session(peer.as_str(), entry.copy());
            entry.peer = Some(peer);
            Outcome::reply(ServerMessage::SessionCreated { request_id, entry })
        },
        Err(e) => Outcome::refusal(Some(request_id), ErrorCode::InternalError, e),
    }
}

// ─── Closing ─────────────────────────────────────────────────────────────────

/// Whether a pane id belongs to a session.
pub open spec fn belongs(pane_id: Seq<char>, word: Seq<char>) -> bool {
    pane_id.len() > word.len() && pane_id.take(word.len() as int) == word
        && pane_id[word.len() as int] == '/'
}

/// Those pane ids that belong to a session (`own`), or those that do not.
pub open spec fn chosen(ids: Seq<Seq<char>>, word: Seq<char>, own: bool) -> Seq<Seq<char>>
    decreases ids.len(),
{
    if ids.len() == 0 {
        Seq::empty()
    } else {
        let rest = chosen(ids.drop_last(), word, own);
        if belongs(ids.last(), word) == own {
            rest.push(ids.last())
        } else {
            rest
        }
    }
}

/// The state after a client left several panes, and their changes of size.
pub open spec fn left_panes(a: AppView, ids: Seq<Seq<char>>, id: ClientId) -> (
    AppView,
    Seq<ResizeView>,
)
    decreases ids.len(),
{
    if ids.len() == 0 {
        (a, Seq::empty())
    } else {
        let (b, notices) = left_panes(a, ids.drop_last(), id);
        let (c, n) = b.left_pane(ids.last(), id);
        (
            c,
            match n {
                Some(r) => notices.push(r),
                None => notices,
            },
        )
    }
}

/// A request to close a session: the client's own streams of it end first.
pub open spec fn close_step(a: AppView, c: ClientView, request_id: u64, word: Seq<char>) -> Step {
    let own = chosen(c.attached, word, true);
    let (b, notices) = left_panes(a, own, c.id());
    Step {
        app: b,
        client: ClientView { attached: chosen(c.attached, word, false), ..c },
        out: OutView {
            resizes: notices,
            stopped: own,
            ..if session_at(b.sessions, word) is Some {
                OutView::needing(WorkView::CaptureSession(request_id, word))
            } else {
                OutView::error(Some(request_id), ErrorView::SessionNotFound(word))
            }
        },
    }
}

/// Whether a pane id belongs to a session.
fn pane_belongs(pane_id: &str, word_id: &str) -> (r: bool)
    ensures
        r == belongs(pane_id@, word_id@),
{
    let p = crate::text::chars_of(pane_id);
    let w = crate::text::chars_of(word_id);
    if p.len() <= w.len() {
        return false;
    }
    let mut i: usize = 0;
    while i < w.len()
        invariant
            0 <= i <= w@.len(),
            w@ == word_id@,
            p@ == pane_id@,
            p@.len() > w@.len(),
            forall|j: int| 0 <= j < i ==> p@[j] == w@[j],
        decreases w@.len() - i,
    {
        if p[i] != w[i] {
            assert(pane_id@.take(word_id@.len() as int)[i as int] != word_id@[i as int]);
            return false;
        }
        i = i + 1;
    }
    assert(pane_id@.take(word_id@.len() as int) =~= word_id@);
    p[w.len()] == '/'
}

/// Ask for a session to be closed.
#[verifier::rlimit(30)]
pub fn on_session_close(
    app: &mut ServerApp,
    state: &mut SharedClientState,
    client_id: ClientId,
    request_id: u64,
    word_id: String,
) -> (r: Outcome)
    requires
        client_id == old(state)@.id(),
    ensures
        final(app)@ == close_step(old(app)@, old(state)@, request_id, word_id@).app,
        final(state)@ == close_step(old(app)@, old(state)@, request_id, word_id@).client,
        r@ == close_step(old(app)@, old(state)@, request_id, word_id@).out,
        old(app)@.wf() ==> final(app)@.wf(),
        old(state)@.wf() ==> final(state)@.wf(),
{
    broadcast use group_views;

    let ghost a = app@;
    let ghost c = state@;
    let ghost word = word_id@;
    let ghost all = c.attached;
    let mut list: Vec<String> = Vec::new();
    std::mem::swap(&mut list, &mut state.attached);
    let mut own: Vec<String> = Vec::new();
    let mut kept: Vec<String> = Vec::new();
    let mut out = Outcome::nothing();
    let mut i: usize = 0;
    proof {
        assert(views(list@) == all);
        assert(all.take(0) =~= Seq::<Seq<char>>::empty());
        assert(views(own@) =~= Seq::<Seq<char>>::empty());
        assert(views(kept@) =~= Seq::<Seq<char>>::empty());
    }
    while i < list.len()
        invariant
            0 <= i <= list@.len(),
            word == word_id@,
            views(list@) == all,
            views(own@) == chosen(all.take(i as int), word, true),
            views(kept@) == chosen(all.take(i as int), word, false),
            (app@, out@.resizes) == left_panes(a, views(own@), client_id),
            out@ == (OutView { resizes: out@.resizes, ..OutView::nothing() }),
            a.wf() ==> app@.wf(),
        decreases list@.len() - i,
    {
        let ghost next = all.take(i + 1);
        assert(next.drop_last() =~= all.take(i as int));
        assert(next.last() == list@[i as int]@);
        let ghost had = views(own@);
        if pane_belongs(list[i].as_str(), word_id.as_str()) {
            let n = app.detach_from_pane(list[i].as_str(), client_id);
            own.push(list[i].clone());
            out.resize(n);
            assert(views(own@).drop_last() =~= had);
        } else {
            kept.push(list[i].clone());
        }
        i = i + 1;
    }
    assert(all.take(i as int) =~= all);
    state.attached = kept;
    proof {
        if c.wf() {
            lemma_chosen_distinct(all, word, false);
        }
    }
    let mut r = if app.session_position(word_id.as_str()).is_some() {
        Outcome::needing(Work::CaptureSession { request_id, word_id })
    } else {
        Outcome::error(Some(request_id), &session_not_found(word_id.as_str()))
    };
    r.resizes = out.resizes;
    r.stopped = own;
    r
}

/// Choosing among different ids gives different ids.
proof fn lemma_chosen_distinct(ids: Seq<Seq<char>>, word: Seq<char>, own: bool)
    requires
        ids.no_duplicates(),
    ensures
        chosen(ids, word, own).no_duplicates(),
        forall|k: int|
            0 <= k < chosen(ids, word, own).len() ==> ids.contains(
                #[trigger] chosen(ids, word, own)[k],
            ),
    decreases ids.len(),
{
    if ids.len() > 0 {
        let init = ids.drop_last();
        assert forall|i: int, j: int| 0 <= i < init.len() && 0 <= j < init.len() && i != j implies
            init[i] != init[j] by {
            assert(ids[i] != ids[j]);
        }
        lemma_chosen_distinct(init, word, own);
        let q = chosen(init, word, own);
        let r = chosen(ids, word, own);
        let n = ids.len() - 1;
        assert forall|k: int| 0 <= k < r.len() implies ids.contains(#[trigger] r[k]) by {
            if k < q.len() {
                assert(init.contains(q[k]));
                let m = choose|m: int| 0 <= m < init.len() && init[m] == q[k];
                assert(ids[m] == r[k]);
            } else {
                assert(ids[n] == r[k]);
            }
        }
        assert forall|x: int, y: int| 0 <= x < r.len() && 0 <= y < r.len() && x != y implies r[x]
            != r[y] by {
            if x < q.len() && y < q.len() {
                assert(q[x] != q[y]);
            } else {
                let z = if x < q.len() {
                    x
                } else {
                    y
                };
                assert(init.contains(q[z]));
                let m = choose|m: int| 0 <= m < init.len() && init[m] == q[z];
                assert(ids[m] != ids[n]);
            }
        }
    }
}

/// Closing a session once its panes are captured: it is retained, and its processes end.
pub open spec fn closed_step(
    a: AppView,
    request_id: u64,
    word: Seq<char>,
    captures: Seq<CaptureView>,
    now: u64,
) -> (AppView, OutView) {
    match session_at(a.sessions, word) {
        Some(i) => {
            let s = a.sessions[i];
            (
                a.session_closed(i, captures, now),
                OutView {
                    work: Some(WorkView::EndPanes(session_pane_ids(s, s.panes.len() as int))),
                    ..OutView::reply(MsgView::SessionClosed(request_id, word, None))
                },
            )
        },
        None => (a, OutView::error(Some(request_id), ErrorView::SessionNotFound(word))),
    }
}

/// Close a session whose panes were captured.
pub fn finish_session_close(
    app: &mut ServerApp,
    request_id: u64,
    word_id: String,
    captures: Vec<PaneCapture>,
    now: u64,
) -> (r: Outcome)
    requires
        session_at(old(app)@.sessions, word_id@) matches Some(i) ==> captures@.len()
            == old(app)@.sessions[i].panes.len(),
    ensures
        (final(app)@, r@) == closed_step(
            old(app)@,
            request_id,
            word_id@,
            views(captures@),
            now,
        ),
        old(app)@.wf() ==> final(app)@.wf(),
{
    broadcast use group_views;

    let mut ids: Vec<String> = Vec::new();
    if let Some(i) = app.session_position(word_id.as_str()) {
        let session = &app.sessions[i];
        assert(app@.sessions[i as int] == session@);
        let mut k: usize = 0;
        while k < session.panes.len()
            invariant
                0 <= k <= session.panes@.len(),
                ids@.len() == k,
                forall|j: int|
                    0 <= j < k ==> (#[trigger] ids@[j])@ == session_pane_ids(session@, k as int)[j],
            decreases session.panes@.len() - k,
        {
            assert(session@.panes[k as int] == session.panes@[k as int]@);
            ids.push(format_pane_id(session.meta.word_id.as_str(), session.panes[k].pane_index));
            k = k + 1;
        }
        assert(views(ids@) =~= session_pane_ids(session@, session@.panes.len() as int));
    }
    match app.close_session(word_id.as_str(), captures, now) {
        Ok(exit_code) => {
            let mut r = Outcome::reply(
                ServerMessage::SessionClosed { request_id, word_id, exit_code },
            );
            r.work = Some(Work::EndPanes { pane_ids: ids });
            r
        },
        Err(e) => Outcome::error(Some(request_id), &e),
    }
}

// ─── Listing, restoring, renaming ────────────────────────────────────────────

/// List the live sessions: this daemon's own, then those of its peers.
pub fn on_session_list(app: &ServerApp, request_id: u64) -> (r: Outcome)
    ensures
        r@ == OutView::reply(MsgView::SessionListResult(request_id, app@.listed() + app@.proxied)),
{
    let mut sessions = app.list_sessions();
    let ghost own = sessions@;
    let mut remote = app.list_federated_sessions();
    let ghost theirs = remote@;
    sessions.append(&mut remote);
    assert(views(sessions@) =~= views(own) + views(theirs));
    Outcome::reply(ServerMessage::SessionListResult { request_id, sessions })
}

/// List the closed sessions that can be restored.
pub fn on_session_list_closed(app: &ServerApp, request_id: u64) -> (r: Outcome)
    ensures
        r@ == OutView::reply(MsgView::ClosedSessionListResult(request_id, app@.closed_entries())),
{
    Outcome::reply(
        ServerMessage::ClosedSessionListResult {
            request_id,
            sessions: app.closed_session_entries(),
        },
    )
}

pub open spec fn restore_out(a: AppView, request_id: u64, word: Seq<char>) -> OutView {
    if closed_at(a.closed_sessions, word) is Some {
        OutView::needing(WorkView::RestorePanes(request_id, word))
    } else {
        OutView::error(Some(request_id), ErrorView::SessionNotFound(word))
    }
}

/// Ask for a closed session to be restored.
pub fn on_session_restore(app: &ServerApp, request_id: u64, word_id: String) -> (r: Outcome)
    ensures
        r@ == restore_out(app@, request_id, word_id@),
{
    if app.closed_position(word_id.as_str()).is_some() {
        Outcome::needing(Work::RestorePanes { request_id, word_id })
    } else {
        Outcome::error(Some(request_id), &session_not_found(word_id.as_str()))
    }
}

/// Restoring a closed session once its panes were started: everyone hears of it.
pub open spec fn restored_step(
    a: AppView,
    request_id: u64,
    word: Seq<char>,
    outcomes: Seq<PaneOutcome>,
) -> (AppView, OutView) {
    match closed_at(a.closed_sessions, word) {
        None => (a, OutView::error(Some(request_id), ErrorView::SessionNotFound(word))),
        Some(i) => match restored_session(a.closed_sessions[i].session, outcomes) {
            None => (a, OutView::error(Some(request_id), ErrorView::Spawn(restore_failure(word)))),
            Some(s) => (
                a.reopened(s),
                OutView::reply(MsgView::SessionCreated(request_id, s.entry())).and_broadcast(
                    MsgView::Event(EventView::SessionCreated(s.meta.word_id)),
                ),
            ),
        },
    }
}

/// Restore a closed session whose panes were started.
pub fn finish_session_restore(
    app: &mut ServerApp,
    request_id: u64,
    word_id: String,
    outcomes: &Vec<PaneOutcome>,
) -> (r: Outcome)
    requires
        closed_at(old(app)@.closed_sessions, word_id@) matches Some(i) ==> {
            &&& outcomes@.len() == old(app)@.closed_sessions[i].session.panes.len()
            &&& old(app)@.closed_sessions[i].session.restorable()
        },
    ensures
        (final(app)@, r@) == restored_step(old(app)@, request_id, word_id@, outcomes@),
        old(app)@.wf() ==> final(app)@.wf(),
{
    match app.restore_session(word_id.as_str(), outcomes) {
        Ok(entry) => {
            let restored = entry.meta.word_id.clone();
            let mut r = Outcome::reply(ServerMessage::SessionCreated { request_id, entry });
            r.broadcast(
                ServerMessage::Event { event: SessionEventMsg::SessionCreated { word_id: restored } },
            );
            r
        },
        Err(e) => Outcome::error(Some(request_id), &e),
    }
}

pub open spec fn rename_step(a: AppView, request_id: u64, word: Seq<char>, name: Seq<char>) -> (
    AppView,
    OutView,
) {
    match session_at(a.sessions, word) {
        Some(i) => (
            a.with_session_at(
                i,
                SessionView {
                    meta: MetaView { name, ..a.sessions[i].meta },
                    ..a.sessions[i]
                },
            ),
            OutView::reply(MsgView::SessionRenamed(word, name)),
        ),
        None => (a, OutView::error(Some(request_id), ErrorView::SessionNotFound(word))),
    }
}

/// Rename a session.
pub fn on_session_rename(app: &mut ServerApp, request_id: u64, word_id: String, new_name: String)
    -> (r: Outcome)
    ensures
        (final(app)@, r@) == rename_step(old(app)@, request_id, word_id@, new_name@),
        old(app)@.wf() ==> final(app)@.wf(),
{
    match app.rename_session(word_id.as_str(), new_name.as_str()) {
        Ok(()) => Outcome::reply(ServerMessage::SessionRenamed { word_id, new_name }),
        Err(e) => Outcome::error(Some(request_id), &e),
    }
}

} // verus!
