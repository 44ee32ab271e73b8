//! Tabs and panes: creating, splitting, closing, renaming and reordering them.

use super::{
    ClientView, OutView, Outcome, PurposeView, SharedClientState, SpawnPurpose, Step, Work,
    WorkView,
};
use crate::app::crud::new_session;
use crate::app::io::unit_result;
use crate::app::tabs::ids_of;
use crate::app::{session_at, AppView, ServerApp};
use crate::events::{EventView, SessionEventMsg};
use crate::layout::SplitDir;
use crate::messages::{MsgView, ServerMessage, Spawn, SpawnView};
use crate::pane::{distinct_clients, PaneRelay, PaneView};
use crate::protocol::{tab_name, ClientId, ErrorView, KmuxError, TermSize};
use crate::session::{named, single_tab, tab_at, tab_order, CloseView, PaneCloseOutcome};
use crate::session_laws::{fits_new_pane, fits_new_tab};
use crate::text::{pane_id_parts, pane_id_text, parse_pane_id, views};
use vstd::prelude::*;

verus! {

// ─── New panes ───────────────────────────────────────────────────────────────

/// A request for a pane in a new tab. `as_pane` says how it was asked for.
pub open spec fn tab_step(
    a: AppView,
    request_id: u64,
    word: Seq<char>,
    spawn: SpawnView,
    as_pane: bool,
) -> (AppView, OutView) {
    match session_at(a.sessions, word) {
        Some(i) => {
            let s = a.sessions[i];
            (
                a.with_session_at(i, s.tab_reserved()),
                OutView::needing(
                    WorkView::SpawnPane(
                        if as_pane {
                            PurposeView::Pane(request_id, word, s.next_tab_index)
                        } else {
                            PurposeView::Tab(request_id, word, s.next_tab_index)
                        },
                        s.next_pane_index,
                        spawn,
                    ),
                ),
            )
        },
        None => (a, OutView::error(Some(request_id), ErrorView::SessionNotFound(word))),
    }
}

/// Ask for a pane in a new tab.
pub fn on_new_tab(
    app: &mut ServerApp,
    request_id: u64,
    word_id: String,
    spawn: Spawn,
    as_pane: bool,
) -> (r: Outcome)
    requires
        old(app)@.has_pane_index(word_id@),
        old(app)@.has_tab_index(word_id@),
    ensures
        (final(app)@, r@) == tab_step(old(app)@, request_id, word_id@, spawn@, as_pane),
        old(app)@.wf() ==> final(app)@.wf(),
{
    match app.begin_tab(word_id.as_str()) {
        Ok((pane_index, tab_index)) => {
            let purpose = if as_pane {
                SpawnPurpose::Pane { request_id, word_id, tab_index }
            } else {
                SpawnPurpose::Tab { request_id, word_id, tab_index }
            };
            Outcome::needing(Work::SpawnPane { purpose, pane_index, spawn })
        },
        Err(e) => Outcome::error(Some(request_id), &e),
    }
}

/// A request for a pane beside another one.
pub open spec fn split_step(
    a: AppView,
    request_id: u64,
    word: Seq<char>,
    tab_index: u32,
    from_pane: u32,
    dir: SplitDir,
    spawn: SpawnView,
) -> (AppView, OutView) {
    match session_at(a.sessions, word) {
        None => (a, OutView::error(Some(request_id), ErrorView::SessionNotFound(word))),
        Some(i) => {
            let s = a.sessions[i];
            match tab_at(s.tabs, tab_index) {
                None => (
                    a,
                    OutView::error(
                        Some(request_id),
                        ErrorView::SessionNotFound(tab_name(word, tab_index)),
                    ),
                ),
                Some(t) => if s.tabs[t].has(from_pane) {
                    (
                        a.with_session_at(i, s.pane_reserved()),
                        OutView::needing(
                            WorkView::SpawnPane(
                                PurposeView::Split(request_id, word, tab_index, from_pane, dir),
                                s.next_pane_index,
                                spawn,
                            ),
                        ),
                    )
                } else {
                    (
                        a,
                        OutView::error(
                            Some(request_id),
                            ErrorView::SessionNotFound(pane_id_text(word, from_pane)),
                        ),
                    )
                },
            }
        },
    }
}

/// Ask for a pane beside another one.
pub fn on_pane_split(
    app: &mut ServerApp,
    request_id: u64,
    word_id: String,
    tab_index: u32,
    from_pane: u32,
    dir: SplitDir,
    spawn: Spawn,
) -> (r: Outcome)
    requires
        old(app)@.has_pane_index(word_id@),
    ensures
        (final(app)@, r@) == split_step(
            old(app)@,
            request_id,
            word_id@,
            tab_index,
            from_pane,
            dir,
            spawn@,
        ),
        old(app)@.wf() ==> final(app)@.wf(),
{
    match app.begin_split(word_id.as_str(), tab_index, from_pane) {
        Ok(pane_index) => Outcome::needing(
            Work::SpawnPane {
                purpose: SpawnPurpose::Split { request_id, word_id, tab_index, from_pane, dir },
                pane_index,
                spawn,
            },
        ),
        Err(e) => Outcome::error(Some(request_id), &e),
    }
}

/// The request that a new pane answers.
pub open spec fn request_of(p: PurposeView) -> u64 {
    match p {
        PurposeView::Session(r, _) => r,
        PurposeView::Pane(r, _, _) => r,
        PurposeView::Tab(r, _, _) => r,
        PurposeView::Split(r, _, _, _, _) => r,
    }
}

/// Putting in a pane whose process was started.
pub open spec fn spawned_step(a: AppView, p: PurposeView, pane: PaneView, size: TermSize, now: u64)
    -> (AppView, OutView) {
    match p {
        PurposeView::Session(request_id, meta) => {
            let s = new_session(meta, pane, now);
            (a.with_session(s), OutView::reply(MsgView::SessionCreated(request_id, s.entry())))
        },
        PurposeView::Pane(request_id, word, tab_index) => match session_at(a.sessions, word) {
            Some(i) => (
                a.with_session_at(i, a.sessions[i].tab_added(tab_index, pane)),
                OutView::reply(
                    MsgView::PaneCreated(request_id, pane.info(word).pane_id, word, size),
                ).and_broadcast(MsgView::Event(EventView::TabCreated(word, tab_index))),
            ),
            None => (a, OutView::error(Some(request_id), ErrorView::SessionNotFound(word))),
        },
        PurposeView::Tab(request_id, word, tab_index) => match session_at(a.sessions, word) {
            Some(i) => (
                a.with_session_at(i, a.sessions[i].tab_added(tab_index, pane)),
                OutView::reply(
                    MsgView::TabCreated(request_id, word, single_tab(tab_index, pane.pane_index)),
                ).and_broadcast(MsgView::Event(EventView::TabCreated(word, tab_index))),
            ),
            None => (a, OutView::error(Some(request_id), ErrorView::SessionNotFound(word))),
        },
        PurposeView::Split(request_id, word, tab_index, from_pane, dir) => match session_at(
            a.sessions,
            word,
        ) {
            Some(i) => {
                let s = a.sessions[i].pane_split(tab_index, from_pane, dir, pane);
                (
                    a.with_session_at(i, s),
                    match tab_at(a.sessions[i].tabs, tab_index) {
                        None => OutView::error(
                            Some(request_id),
                            ErrorView::SessionNotFound(tab_name(word, tab_index)),
                        ),
                        Some(t) => OutView::reply(
                            MsgView::PaneSplit(
                                request_id,
                                word,
                                tab_index,
                                pane.info(word),
                                s.tabs[t].layout,
                            ),
                        ).and_broadcast(
                            MsgView::LayoutUpdate(
                                word,
                                tab_index,
                                s.tabs[t].layout,
                                pane.pane_index,
                            ),
                        ),
                    },
                )
            },
            None => (a, OutView::error(Some(request_id), ErrorView::SessionNotFound(word))),
        },
    }
}

/// A new pane fits what it was started for: its index and its tab's were reserved for it.
pub open spec fn spawn_fits(a: AppView, p: PurposeView, pane: PaneView) -> bool {
    match p {
        PurposeView::Session(_, meta) => {
            &&& a.used_words.contains(meta.word_id)
            &&& forall|k: int|
                0 <= k < a.closed_sessions.len() ==> (#[trigger] a.closed_sessions[k]).word()
                    != meta.word_id
            &&& !a.is_proxied(meta.word_id)
            &&& distinct_clients(pane.clients)
        },
        PurposeView::Pane(_, word, tab_index) => session_at(a.sessions, word) matches Some(i)
            ==> fits_new_tab(a.sessions[i], tab_index, pane),
        PurposeView::Tab(_, word, tab_index) => session_at(a.sessions, word) matches Some(i)
            ==> fits_new_tab(a.sessions[i], tab_index, pane),
        PurposeView::Split(_, word, _, _, _) => session_at(a.sessions, word) matches Some(i)
            ==> fits_new_pane(a.sessions[i], pane),
    }
}

/// Put in a pane whose process was started, or say why it was not.
pub fn finish_spawn(
    app: &mut ServerApp,
    purpose: SpawnPurpose,
    spawned: Result<PaneRelay, KmuxError>,
    size: TermSize,
    now: u64,
) -> (r: Outcome)
    requires
        old(app)@.wf(),
        purpose is Session ==> (spawned matches Ok(pane) ==> pane@.pane_index == 0),
    ensures
        match spawned {
            Ok(pane) => {
                &&& (final(app)@, r@) == spawned_step(old(app)@, purpose@, pane@, size, now)
                &&& spawn_fits(old(app)@, purpose@, pane@) ==> final(app)@.wf()
            },
            Err(e) => {
                &&& final(app)@ == old(app)@
                &&& r@ == OutView::error(Some(request_of(purpose@)), e@)
            },
        },
{
    match purpose {
        SpawnPurpose::Session { request_id, meta } => match app.create_session(
            meta,
            spawned,
            now,
        ) {
            Ok(entry) => Outcome::reply(ServerMessage::SessionCreated { request_id, entry }),
            Err(e) => Outcome::error(Some(request_id), &e),
        },
        SpawnPurpose::Pane { request_id, word_id, tab_index } => match app.create_tab(
            word_id.as_str(),
            tab_index,
            spawned,
        ) {
            Ok((_tab, pane)) => {
                let mut r = Outcome::reply(
                    ServerMessage::PaneCreated {
                        request_id,
                        pane_id: pane.pane_id,
                        session_word_id: word_id.clone(),
                        size,
                    },
                );
                r.broadcast(
                    ServerMessage::Event { event: SessionEventMsg::TabCreated { word_id, tab_index } },
                );
                r
            },
            Err(e) => Outcome::error(Some(request_id), &e),
        },
        SpawnPurpose::Tab { request_id, word_id, tab_index } => match app.create_tab(
            word_id.as_str(),
            tab_index,
            spawned,
        ) {
            Ok((tab, _pane)) => {
                let mut r = Outcome::reply(
                    ServerMessage::TabCreated { request_id, word_id: word_id.clone(), tab },
                );
                r.broadcast(
                    ServerMessage::Event { event: SessionEventMsg::TabCreated { word_id, tab_index } },
                );
                r
            },
            Err(e) => Outcome::error(Some(request_id), &e),
        },
        SpawnPurpose::Split { request_id, word_id, tab_index, from_pane, dir } =>
            match app.split_pane(word_id.as_str(), tab_index, from_pane, dir, spawned) {
            Ok((new_pane, layout, focused_pane)) => {
                let mut r = Outcome::reply(
                    ServerMessage::PaneSplit {
                        request_id,
                        word_id: word_id.clone(),
                        tab_index,
                        new_pane,
                        layout: layout.duplicate(),
                    },
                );
                r.broadcast(
                    ServerMessage::LayoutUpdate { word_id, tab_index, layout, focused_pane },
                );
                r
            },
            Err(e) => Outcome::error(Some(request_id), &e),
        },
    }
}

// ─── Closing panes ───────────────────────────────────────────────────────────

/// A request to close a pane: the client's own stream of it ends first.
pub open spec fn close_pane_step(a: AppView, c: ClientView, request_id: u64, pane_id: Seq<char>)
    -> Step {
    let (b, n) = a.left_pane(pane_id, c.id());
    Step {
        app: b,
        client: ClientView { attached: crate::text::without_text(c.attached, pane_id), ..c },
        out: OutView {
            stopped: if c.attached.contains(pane_id) {
                seq![pane_id]
            } else {
                Seq::empty()
            },
            ..OutView::needing(WorkView::ClosePane(request_id, pane_id)).and_resize(n)
        },
    }
}

/// Ask for a pane to be closed.
pub fn on_pane_close(
    app: &mut ServerApp,
    state: &mut SharedClientState,
    client_id: ClientId,
    request_id: u64,
    pane_id: String,
) -> (r: Outcome)
    requires
        client_id == old(state)@.id(),
    ensures
        final(app)@ == close_pane_step(old(app)@, old(state)@, request_id, pane_id@).app,
        final(state)@ == close_pane_step(old(app)@, old(state)@, request_id, pane_id@).client,
        r@ == close_pane_step(old(app)@, old(state)@, request_id, pane_id@).out,
        old(app)@.wf() ==> final(app)@.wf(),
        old(state)@.wf() ==> final(state)@.wf(),
{
    proof {
        if state@.wf() {
            crate::text::lemma_texts_distinct(state@.attached, pane_id@);
        }
    }
    let was = state.stop_stream(pane_id.as_str());
    let n = app.detach_from_pane(pane_id.as_str(), client_id);
    let mut stopped: Vec<String> = Vec::new();
    if was {
        stopped.push(pane_id.clone());
    }
    assert(views(stopped@) =~= if was {
        seq![pane_id@]
    } else {
        Seq::empty()
    });
    let mut r = Outcome::needing(Work::ClosePane { request_id, pane_id });
    r.resize(n);
    r.stopped = stopped;
    r
}

/// The session that a pane id names; none where it names none.
pub open spec fn word_of(pane_id: Seq<char>) -> Seq<char> {
    match pane_id_parts(pane_id) {
        Some((word, _)) => word,
        None => Seq::empty(),
    }
}

/// What everyone hears of a pane that was closed.
pub open spec fn close_news(word: Seq<char>, outcome: CloseView) -> Seq<MsgView> {
    match outcome {
        CloseView::TabUpdated(tab_index, layout, focused) => seq![
            MsgView::LayoutUpdate(word, tab_index, layout, focused),
        ],
        CloseView::TabClosed(tab_index) => seq![
            MsgView::Event(EventView::TabClosed(word, tab_index)),
        ],
        CloseView::SessionClosed => seq![MsgView::Event(EventView::SessionClosed(word))],
        CloseView::Gone => Seq::empty(),
    }
}

/// Taking a pane out once its process is closed, or was found to be missing.
pub open spec fn pane_closed_step(
    a: AppView,
    request_id: u64,
    pane_id: Seq<char>,
    registry: Result<(), ErrorView>,
) -> (AppView, OutView) {
    let closed = a.pane_closed(pane_id, registry);
    (
        closed.0,
        match closed.1 {
            Ok(outcome) => OutView {
                broadcasts: close_news(word_of(pane_id), outcome),
                ..OutView::reply(MsgView::PaneClosed(request_id, pane_id, None))
            },
            Err(e) => OutView::error(Some(request_id), e),
        },
    )
}

/// Take a pane out whose process was closed, or was found to be missing.
pub fn finish_pane_close(
    app: &mut ServerApp,
    request_id: u64,
    pane_id: String,
    registry: Result<(), KmuxError>,
) -> (r: Outcome)
    requires
        old(app)@.wf(),
    ensures
        (final(app)@, r@) == pane_closed_step(
            old(app)@,
            request_id,
            pane_id@,
            unit_result(registry),
        ),
        final(app)@.wf(),
{
    match app.close_pane(pane_id.as_str(), registry) {
        Ok((exit_code, outcome)) => {
            let word_id = match parse_pane_id(pane_id.as_str()) {
                Some((word, _)) => word.to_owned(),
                None => String::new(),
            };
            assert(word_id@ =~= word_of(pane_id@));
            let ghost news = close_news(word_of(pane_id@), outcome@);
            let mut r = Outcome::reply(ServerMessage::PaneClosed { request_id, pane_id, exit_code });
            match outcome {
                PaneCloseOutcome::TabUpdated { tab_index, layout, focused_pane } => {
                    r.broadcast(
                        ServerMessage::LayoutUpdate { word_id, tab_index, layout, focused_pane },
                    );
                },
                PaneCloseOutcome::TabClosed { tab_index } => {
                    r.broadcast(
                        ServerMessage::Event {
                            event: SessionEventMsg::TabClosed { word_id, tab_index },
                        },
                    );
                },
                PaneCloseOutcome::SessionClosed => {
                    r.broadcast(
                        ServerMessage::Event { event: SessionEventMsg::SessionClosed { word_id } },
                    );
                },
                PaneCloseOutcome::Gone => {},
            }
            assert(r@.broadcasts =~= news);
            r
        },
        Err(e) => Outcome::error(Some(request_id), &e),
    }
}

// ─── Tabs ────────────────────────────────────────────────────────────────────

/// Closing a tab, and with the last one its session. The processes of its panes end.
pub open spec fn close_tab_step(a: AppView, request_id: u64, word: Seq<char>, tab_index: u32) -> (
    AppView,
    OutView,
) {
    let closed = a.tab_closed(word, tab_index);
    (
        closed.0,
        match closed.1 {
            Ok(session_closed) => {
                let i = session_at(a.sessions, word)->0;
                let t = tab_at(a.sessions[i].tabs, tab_index)->0;
                OutView {
                    work: Some(
                        WorkView::EndPanes(ids_of(word, a.sessions[i].tabs[t].layout.leaves())),
                    ),
                    ..OutView::reply(MsgView::TabClosed(request_id, word, tab_index)).and_broadcast(
                        MsgView::Event(
                            if session_closed {
                                EventView::SessionClosed(word)
                            } else {
                                EventView::TabClosed(word, tab_index)
                            },
                        ),
                    )
                }
            },
            Err(e) => OutView::error(Some(request_id), e),
        },
    )
}

/// Close a tab.
pub fn on_tab_close(app: &mut ServerApp, request_id: u64, word_id: String, tab_index: u32) -> (r:
    Outcome)
    ensures
        (final(app)@, r@) == close_tab_step(old(app)@, request_id, word_id@, tab_index),
        old(app)@.wf() ==> final(app)@.wf(),
{
    match app.tab_pane_ids(word_id.as_str(), tab_index) {
        Err(e) => Outcome::error(Some(request_id), &e),
        Ok(pane_ids) => match app.close_tab(word_id.as_str(), tab_index) {
            Ok(session_closed) => {
                let mut r = Outcome::reply(
                    ServerMessage::TabClosed { request_id, word_id: word_id.clone(), tab_index },
                );
                r.broadcast(
                    ServerMessage::Event {
                        event: if session_closed {
                            SessionEventMsg::SessionClosed { word_id }
                        } else {
                            SessionEventMsg::TabClosed { word_id, tab_index }
                        },
                    },
                );
                r.work = Some(Work::EndPanes { pane_ids });
                r
            },
            Err(e) => Outcome::error(Some(request_id), &e),
        },
    }
}

pub open spec fn rename_tab_step(
    a: AppView,
    request_id: u64,
    word: Seq<char>,
    tab_index: u32,
    name: Seq<char>,
) -> (AppView, OutView) {
    (
        a.tab_changed(word, tab_index, named(name)),
        match a.tab_answer(word, tab_index, named(name)) {
            Ok(_) => OutView::broadcast(
                MsgView::Event(EventView::TabRenamed(word, tab_index, name)),
            ),
            Err(e) => OutView::error(Some(request_id), e),
        },
    )
}

/// Rename a tab.
pub fn on_tab_rename(
    app: &mut ServerApp,
    request_id: u64,
    word_id: String,
    tab_index: u32,
    new_name: String,
) -> (r: Outcome)
    ensures
        (final(app)@, r@) == rename_tab_step(
            old(app)@,
            request_id,
            word_id@,
            tab_index,
            new_name@,
        ),
        old(app)@.wf() ==> final(app)@.wf(),
{
    match app.rename_tab(word_id.as_str(), tab_index, new_name.as_str()) {
        Ok(()) => Outcome::broadcast_only(
            ServerMessage::Event {
                event: SessionEventMsg::TabRenamed { word_id, tab_index, name: new_name },
            },
        ),
        Err(e) => Outcome::error(Some(request_id), &e),
    }
}

pub open spec fn reorder_step(a: AppView, word: Seq<char>, tab_index: u32, position: u32) -> (
    AppView,
    OutView,
) {
    match session_at(a.sessions, word) {
        Some(i) => {
            let s = a.sessions[i].reordered(tab_index, position);
            (
                a.with_session_at(i, s),
                OutView::broadcast(
                    MsgView::Event(EventView::TabsReordered(word, tab_order(s.tabs))),
                ),
            )
        },
        None => (a, OutView::error(None, ErrorView::SessionNotFound(word))),
    }
}

/// Move a tab.
pub fn on_tab_reorder(app: &mut ServerApp, word_id: String, tab_index: u32, new_position: u32) -> (r:
    Outcome)
    ensures
        (final(app)@, r@) == reorder_step(old(app)@, word_id@, tab_index, new_position),
        old(app)@.wf() ==> final(app)@.wf(),
{
    match app.reorder_tab(word_id.as_str(), tab_index, new_position) {
        Ok(tab_indices) => Outcome::broadcast_only(
            ServerMessage::Event { event: SessionEventMsg::TabsReordered { word_id, tab_indices } },
        ),
        Err(e) => Outcome::error(None, &e),
    }
}

} // verus!
