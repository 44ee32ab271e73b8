//! Creating, closing, listing and renaming sessions.

use super::persistence::{session_keys, CaptureView, PaneCapture};
use super::{
    is_session, lemma_with_session_keeps_wf, released, reserved, session_at, AppView, ServerApp,
    MAX_SESSIONS,
};
use crate::app::graveyard::{lemma_released, lemma_reserved};
use crate::list::{
    arrange, arranged, group_views, lemma_first_where, lemma_order_distinct, positions,
    sorted_order, stable_order,
};
use crate::pane::{distinct_clients, PaneRelay, PaneView};
use crate::persist::{ClosedView, PersistedClosedSession};
use crate::protocol::{
    session_not_found, ErrorView, KmuxError, MetaView, SessionEntry, SessionEntryView, SessionMeta,
};
use crate::session::{single_tab, SessionState, SessionView};
use crate::text::{text_option, views};
use vstd::prelude::*;

verus! {

/// `sessions` with a session put in, in place of one of the same word if there is one.
pub open spec fn put_session(sessions: Seq<SessionView>, s: SessionView) -> Seq<SessionView> {
    match session_at(sessions, s.meta.word_id) {
        Some(i) => sessions.update(i, s),
        None => sessions.push(s),
    }
}

/// A session that was just created.
pub open spec fn new_session(meta: MetaView, pane: PaneView, now_ms: u64) -> SessionView {
    SessionView {
        meta,
        panes: seq![pane],
        next_pane_index: 1,
        tabs: seq![single_tab(0, 0)],
        next_tab_index: 1,
        active_tab: 0,
        last_active_ms: now_ms,
    }
}

/// The name a session gets: the one asked for, else that of its directory, else its word.
pub open spec fn display_name(
    name: Option<Seq<char>>,
    base: Option<Seq<char>>,
    word: Seq<char>,
) -> Seq<char> {
    match name {
        Some(n) => n,
        None => match base {
            Some(b) => b,
            None => word,
        },
    }
}

impl AppView {
    /// The state once a word and a creation index are given to a new session.
    pub open spec fn session_begun(self, word: Seq<char>) -> AppView {
        AppView {
            used_words: reserved(self.used_words, word),
            session_index_counter: self.session_index_counter.wrapping_add(1),
            ..self
        }
    }

    /// The state with a session put in.
    pub open spec fn with_session(self, s: SessionView) -> AppView {
        AppView { sessions: put_session(self.sessions, s), ..self }
    }

    /// The state without the session at a position.
    pub open spec fn without_session(self, i: int) -> AppView {
        AppView { sessions: self.sessions.remove(i), ..self }
    }

    /// The state without the session at a position, and its word free again.
    pub open spec fn session_ended(self, i: int) -> AppView {
        AppView {
            used_words: released(self.used_words, self.sessions[i].meta.word_id),
            ..self.without_session(i)
        }
    }

    /// The state after a session was closed: it moves to the closed sessions.
    pub open spec fn session_closed(
        self,
        i: int,
        captures: Seq<CaptureView>,
        now_ms: u64,
    ) -> AppView {
        self.without_session(i).with_closed(
            ClosedView { closed_at_ms: now_ms, session: self.sessions[i].saved(captures) },
        ).pruned(now_ms)
    }

    /// The sessions as they are listed: in creation order.
    pub open spec fn listed(self) -> Seq<SessionEntryView> {
        arranged(session_entries(self.sessions), stable_order(session_keys(self.sessions)))
    }
}

pub open spec fn session_entries(sessions: Seq<SessionView>) -> Seq<SessionEntryView> {
    Seq::new(sessions.len(), |i: int| sessions[i].entry())
}

// ─── Proofs ──────────────────────────────────────────────────────────────────

/// Taking a session out keeps the state well formed, whatever becomes of its word.
pub proof fn law_end_session_keeps_wf(a: AppView, i: int)
    requires
        a.wf(),
        0 <= i < a.sessions.len(),
    ensures
        a.without_session(i).wf(),
        a.session_ended(i).wf(),
{
    let r = a.without_session(i);
    let from = |k: int|
        if k < i {
            k
        } else {
            k + 1
        };
    assert forall|k: int| 0 <= k < r.sessions.len() implies #[trigger] r.sessions[k]
        == a.sessions[from(k)] by {}
    assert forall|k: int| 0 <= k < r.sessions.len() implies (#[trigger] r.sessions[k]).wf()
        && r.used_words.contains(r.sessions[k].meta.word_id) by {
        assert(a.sessions[from(k)].wf());
        assert(a.used_words.contains(a.sessions[from(k)].meta.word_id));
    }
    assert forall|x: int, y: int| 0 <= x < y < r.sessions.len() implies (
    #[trigger] r.sessions[x]).meta.word_id != (#[trigger] r.sessions[y]).meta.word_id by {
        assert(a.sessions[from(x)].meta.word_id != a.sessions[from(y)].meta.word_id);
    }
    assert forall|x: int, y: int| 0 <= x < r.sessions.len() && 0 <= y < r.closed_sessions.len()
        implies (#[trigger] r.sessions[x]).meta.word_id != (
    #[trigger] r.closed_sessions[y]).word() by {
        assert(a.sessions[from(x)].meta.word_id != a.closed_sessions[y].word());
    }
    assert forall|x: int, y: int| 0 <= x < r.sessions.len() && 0 <= y < r.proxied.len() implies (
    #[trigger] r.sessions[x]).meta.word_id != (#[trigger] r.proxied[y]).meta.word_id by {
        assert(a.sessions[from(x)].meta.word_id != a.proxied[y].meta.word_id);
    }
    let w = a.sessions[i].meta.word_id;
    lemma_released(a.used_words, w);
    let e = a.session_ended(i);
    assert forall|k: int| 0 <= k < e.proxied.len() implies e.used_words.contains(
        (#[trigger] e.proxied[k]).meta.word_id,
    ) by {
        assert(a.sessions[i].meta.word_id != a.proxied[k].meta.word_id);
    }
    assert forall|k: int| 0 <= k < e.sessions.len() implies e.used_words.contains(
        (#[trigger] e.sessions[k]).meta.word_id,
    ) by {
        assert(e.sessions[k] == r.sessions[k]);
        let j = from(k);
        if j < i {
            assert(a.sessions[j].meta.word_id != a.sessions[i].meta.word_id);
        } else {
            assert(a.sessions[i].meta.word_id != a.sessions[j].meta.word_id);
        }
    }
    assert forall|k: int| 0 <= k < e.closed_sessions.len() implies e.used_words.contains(
        (#[trigger] e.closed_sessions[k]).word(),
    ) by {
        assert(a.sessions[i].meta.word_id != a.closed_sessions[k].word());
    }
    assert forall|k: int| 0 <= k < e.sessions.len() implies (#[trigger] e.sessions[k]).wf() by {
        assert(e.sessions[k] == r.sessions[k]);
    }
}

/// Closing a session keeps the state well formed.
pub proof fn law_close_session_keeps_wf(
    a: AppView,
    i: int,
    captures: Seq<CaptureView>,
    now_ms: u64,
)
    requires
        a.wf(),
        0 <= i < a.sessions.len(),
    ensures
        a.session_closed(i, captures, now_ms).wf(),
{
    law_end_session_keeps_wf(a, i);
    let s = a.sessions[i];
    assert(s.wf());
    super::persistence::law_saved_session_wf(s, captures);
    let r = a.without_session(i);
    let c = ClosedView { closed_at_ms: now_ms, session: s.saved(captures) };
    let q = r.with_closed(c);
    assert(c.word() == s.meta.word_id);
    let n = r.closed_sessions.len();
    assert forall|k: int| 0 <= k < q.closed_sessions.len() implies q.used_words.contains(
        (#[trigger] q.closed_sessions[k]).word(),
    ) && q.closed_sessions[k].session.wf() by {
        if k < n {
            assert(q.closed_sessions[k] == a.closed_sessions[k]);
        }
    }
    assert forall|x: int, y: int| 0 <= x < y < q.closed_sessions.len() implies (
    #[trigger] q.closed_sessions[x]).word() != (#[trigger] q.closed_sessions[y]).word() by {
        if y == n {
            assert(a.sessions[i].meta.word_id != a.closed_sessions[x].word());
        }
    }
    assert forall|x: int, y: int| 0 <= x < q.sessions.len() && 0 <= y < q.closed_sessions.len()
        implies (#[trigger] q.sessions[x]).meta.word_id != (
    #[trigger] q.closed_sessions[y]).word() by {
        if y == n {
            let j = if x < i {
                x
            } else {
                x + 1
            };
            assert(q.sessions[x] == a.sessions[j]);
            if j < i {
                assert(a.sessions[j].meta.word_id != a.sessions[i].meta.word_id);
            } else {
                assert(a.sessions[i].meta.word_id != a.sessions[j].meta.word_id);
            }
        } else {
            assert(r.sessions[x].meta.word_id != r.closed_sessions[y].word());
        }
    }
    assert forall|x: int, y: int| 0 <= x < q.closed_sessions.len() && 0 <= y < q.proxied.len()
        implies (#[trigger] q.closed_sessions[x]).word() != (
    #[trigger] q.proxied[y]).meta.word_id by {
        if x == n {
            assert(a.sessions[i].meta.word_id != a.proxied[y].meta.word_id);
        } else {
            assert(a.closed_sessions[x].word() != a.proxied[y].meta.word_id);
        }
    }
    super::graveyard::law_prune_keeps_wf(q, now_ms);
}

/// Putting in a well-formed session under a reserved word that names no other session keeps the
/// state well formed.
pub proof fn law_put_session_keeps_wf(a: AppView, s: SessionView)
    requires
        a.wf(),
        s.wf(),
        a.used_words.contains(s.meta.word_id),
        forall|k: int|
            0 <= k < a.closed_sessions.len() ==> (#[trigger] a.closed_sessions[k]).word()
                != s.meta.word_id,
        !a.is_proxied(s.meta.word_id),
    ensures
        a.with_session(s).wf(),
{
    lemma_first_where(a.sessions, is_session(s.meta.word_id));
    match session_at(a.sessions, s.meta.word_id) {
        Some(i) => {
            lemma_with_session_keeps_wf(a, i, s);
        },
        None => {
            let r = a.with_session(s);
            let n = a.sessions.len();
            assert forall|k: int| 0 <= k < r.sessions.len() implies (#[trigger] r.sessions[k]).wf()
                && r.used_words.contains(r.sessions[k].meta.word_id) by {
                if k < n {
                    assert(r.sessions[k] == a.sessions[k]);
                }
            }
            assert forall|x: int, y: int| 0 <= x < y < r.sessions.len() implies (
            #[trigger] r.sessions[x]).meta.word_id != (#[trigger] r.sessions[y]).meta.word_id by {
                if y == n {
                    assert(!is_session(s.meta.word_id)(a.sessions[x]));
                }
            }
            assert forall|x: int, y: int| 0 <= x < r.sessions.len() && 0 <= y
                < r.closed_sessions.len() implies (#[trigger] r.sessions[x]).meta.word_id != (
            #[trigger] r.closed_sessions[y]).word() by {
                if x < n {
                    assert(r.sessions[x] == a.sessions[x]);
                }
            }
            assert forall|x: int, y: int| 0 <= x < r.sessions.len() && 0 <= y
                < r.proxied.len() implies (#[trigger] r.sessions[x]).meta.word_id != (
            #[trigger] r.proxied[y]).meta.word_id by {
                if x < n {
                    assert(r.sessions[x] == a.sessions[x]);
                    assert(a.sessions[x].meta.word_id != a.proxied[y].meta.word_id);
                } else {
                    assert(a.proxied[y].meta.word_id != s.meta.word_id);
                }
            }
        },
    }
}

/// Reserving a free word keeps the state well formed.
pub proof fn law_begin_session_keeps_wf(a: AppView, word: Seq<char>)
    requires
        a.wf(),
    ensures
        a.session_begun(word).wf(),
        a.session_begun(word).used_words.contains(word),
{
    lemma_reserved(a.used_words, word);
}

/// A free word names no session, be it live, closed or a peer's: one drawn from the free words
/// never collides.
pub proof fn law_free_word_names_nothing(a: AppView, word: Seq<char>)
    requires
        a.wf(),
        !a.used_words.contains(word),
    ensures
        session_at(a.sessions, word) is None,
        forall|k: int|
            0 <= k < a.closed_sessions.len() ==> (#[trigger] a.closed_sessions[k]).word() != word,
        !a.is_proxied(word),
{
    lemma_first_where(a.sessions, is_session(word));
    if let Some(i) = session_at(a.sessions, word) {
        assert(a.used_words.contains(a.sessions[i].meta.word_id));
    }
}

/// A session that is begun with a free word and then put in leaves every other session as it
/// was: it stands behind them.
pub proof fn law_new_session_leaves_the_others(a: AppView, s: SessionView)
    requires
        a.wf(),
        !a.used_words.contains(s.meta.word_id),
    ensures
        a.session_begun(s.meta.word_id).with_session(s) == (AppView {
            sessions: a.sessions.push(s),
            ..a.session_begun(s.meta.word_id)
        }),
        a.session_begun(s.meta.word_id).closed_sessions == a.closed_sessions,
{
    law_free_word_names_nothing(a, s.meta.word_id);
}

// ─── Operations ──────────────────────────────────────────────────────────────

impl ServerApp {
    /// Begin a session: give it a word and a name. `drawn` is a free word, or none where the
    /// pool is empty; `cwd` is the directory to start in and `base` that directory's own name.
    pub fn begin_session(
        &mut self,
        name: Option<String>,
        drawn: Option<String>,
        cwd: String,
        base: Option<String>,
    ) -> (r: Result<SessionMeta, KmuxError>)
        ensures
            if old(self)@.sessions.len() >= MAX_SESSIONS {
                &&& final(self)@ == old(self)@
                &&& r matches Err(e) && e@ == ErrorView::SessionAlreadyExists(
                    "session limit (1000) reached"@,
                )
            } else {
                match drawn {
                    None => {
                        &&& final(self)@ == old(self)@
                        &&& r matches Err(e) && e@ == ErrorView::SessionAlreadyExists(
                            "word pool exhausted"@,
                        )
                    },
                    Some(word) => {
                        &&& final(self)@ == old(self)@.session_begun(word@)
                        &&& r matches Ok(meta) && meta@ == (MetaView {
                            index: old(self)@.session_index_counter,
                            word_id: word@,
                            name: display_name(text_option(name), text_option(base), word@),
                            cwd: cwd@,
                        })
                    },
                }
            },
            old(self)@.wf() ==> final(self)@.wf(),
    {
        if self.sessions.len() >= MAX_SESSIONS {
            return Err(
                KmuxError::SessionAlreadyExists { name: "session limit (1000) reached".to_owned() },
            );
        }
        match drawn {
            None => Err(
                KmuxError::SessionAlreadyExists { name: "word pool exhausted".to_owned() },
            ),
            Some(word) => {
                proof {
                    if self@.wf() {
                        law_begin_session_keeps_wf(self@, word@);
                    }
                }
                let _free = self.reserve_word(word.as_str());
                let index: u32 = self.session_index_counter;
                self.session_index_counter = index.wrapping_add(1);
                let name = match name {
                    Some(n) => n,
                    None => match base {
                        Some(b) => b,
                        None => word.clone(),
                    },
                };
                Ok(SessionMeta { index, word_id: word, name, cwd })
            },
        }
    }

    /// Put a session in, in place of one of the same word if there is one.
    pub fn put_session(&mut self, session: SessionState)
        ensures
            final(self)@ == old(self)@.with_session(session@),
    {
        broadcast use group_views;

        match self.session_position(session.meta.word_id.as_str()) {
            Some(i) => {
                self.sessions.set(i, session);
            },
            None => {
                self.sessions.push(session);
            },
        }
    }

    /// Finish a session that was begun: `spawned` is its first pane, or why there is none. A
    /// session whose first pane failed keeps its word.
    pub fn create_session(
        &mut self,
        meta: SessionMeta,
        spawned: Result<PaneRelay, KmuxError>,
        now_ms: u64,
    ) -> (r: Result<SessionEntry, KmuxError>)
        requires
            spawned matches Ok(pane) ==> pane@.pane_index == 0,
        ensures
            match spawned {
                Ok(pane) => {
                    &&& final(self)@ == old(self)@.with_session(
                        new_session(meta@, pane@, now_ms),
                    )
                    &&& r matches Ok(entry) && entry@ == new_session(meta@, pane@, now_ms).entry()
                },
                Err(e) => {
                    &&& final(self)@ == old(self)@
                    &&& r matches Err(f) && f@ == e@
                },
            },
            ({
                &&& old(self)@.wf()
                &&& old(self)@.used_words.contains(meta@.word_id)
                &&& forall|k: int|
                    0 <= k < old(self)@.closed_sessions.len() ==> (
                    #[trigger] old(self)@.closed_sessions[k]).word() != meta@.word_id
                &&& !old(self)@.is_proxied(meta@.word_id)
                &&& spawned matches Ok(pane) ==> distinct_clients(pane@.clients)
            }) ==> final(self)@.wf(),
    {
        match spawned {
            Ok(pane) => {
                let session = SessionState::new(meta, pane, now_ms);
                let entry = session.to_entry();
                proof {
                    if self@.wf() && session@.wf() && self@.used_words.contains(meta@.word_id) && (
                    forall|k: int|
                        0 <= k < self@.closed_sessions.len() ==> (
                        #[trigger] self@.closed_sessions[k]).word() != meta@.word_id)
                        && !self@.is_proxied(meta@.word_id) {
                        law_put_session_keeps_wf(self@, session@);
                    }
                }
                self.put_session(session);
                Ok(entry)
            },
            Err(e) => Err(e),
        }
    }

    /// Close a session. It is saved and moves to the closed sessions; `captures` holds one
    /// capture per pane. The exit codes of its processes are not waited for.
    pub fn close_session(&mut self, word_id: &str, captures: Vec<PaneCapture>, now_ms: u64) -> (r:
        Result<Option<i32>, KmuxError>)
        requires
            session_at(old(self)@.sessions, word_id@) matches Some(i) ==> captures@.len()
                == old(self)@.sessions[i].panes.len(),
        ensures
            match session_at(old(self)@.sessions, word_id@) {
                Some(i) => {
                    &&& final(self)@ == old(self)@.session_closed(i, views(captures@), now_ms)
                    &&& r matches Ok(code) && code is None
                },
                None => {
                    &&& final(self)@ == old(self)@
                    &&& r matches Err(e) && e@ == ErrorView::SessionNotFound(word_id@)
                },
            },
            old(self)@.wf() ==> final(self)@.wf(),
    {
        broadcast use group_views;

        match self.session_position(word_id) {
            Some(i) => {
                proof {
                    assert(self@.sessions[i as int] == self.sessions@[i as int]@);
                    if self@.wf() {
                        law_close_session_keeps_wf(self@, i as int, views(captures@), now_ms);
                    }
                }
                let session = self.sessions[i].snapshot(captures);
                let _gone = self.sessions.remove(i);
                self.retain_closed_session(
                    PersistedClosedSession { closed_at_ms: now_ms, session },
                    now_ms,
                );
                Ok(None)
            },
            None => Err(session_not_found(word_id)),
        }
    }

    /// Remove the session at a position and free its word.
    pub fn end_session(&mut self, i: usize)
        requires
            i < old(self).sessions@.len(),
        ensures
            final(self)@ == old(self)@.session_ended(i as int),
            old(self)@.wf() ==> final(self)@.wf(),
    {
        broadcast use group_views;

        proof {
            assert(self@.sessions[i as int] == self.sessions@[i as int]@);
            if self@.wf() {
                law_end_session_keeps_wf(self@, i as int);
            }
        }
        let gone = self.sessions.remove(i);
        self.release_word(gone.meta.word_id.as_str());
    }

    /// List all sessions with their panes, in creation order.
    pub fn list_sessions(&self) -> (r: Vec<SessionEntry>)
        ensures
            views(r@) == self@.listed(),
    {
        let keys = self.session_order_keys();
        let mut entries: Vec<SessionEntry> = Vec::new();
        let mut i: usize = 0;
        while i < self.sessions.len()
            invariant
                0 <= i <= self.sessions@.len(),
                entries@.len() == i,
                forall|j: int|
                    0 <= j < i ==> (#[trigger] entries@[j])@ == self@.sessions[j].entry(),
            decreases self.sessions@.len() - i,
        {
            assert(self@.sessions[i as int] == self.sessions@[i as int]@);
            entries.push(self.sessions[i].to_entry());
            i = i + 1;
        }
        let order = sorted_order(&keys);
        let ghost all = entries@;
        proof {
            lemma_order_distinct(keys@, order@);
            assert(views(entries@) =~= session_entries(self@.sessions));
        }
        let r = arrange(entries, &order);
        assert(views(r@) =~= arranged(views(all), positions(order@)));
        r
    }

    /// Rename a session.
    pub fn rename_session(&mut self, word_id: &str, new_name: &str) -> (r: Result<(), KmuxError>)
        ensures
            match session_at(old(self)@.sessions, word_id@) {
                Some(i) => {
                    &&& final(self)@ == old(self)@.with_session_at(
                        i,
                        SessionView {
                            meta: MetaView {
                                name: new_name@,
                                ..old(self)@.sessions[i].meta
                            },
                            ..old(self)@.sessions[i]
                        },
                    )
                    &&& r is Ok
                },
                None => {
                    &&& final(self)@ == old(self)@
                    &&& r matches Err(e) && e@ == ErrorView::SessionNotFound(word_id@)
                },
            },
            old(self)@.wf() ==> final(self)@.wf(),
    {
        match self.session_position(word_id) {
            Some(i) => {
                proof {
                    let s = self@.sessions[i as int];
                    assert(s == self.sessions@[i as int]@);
                    let t = SessionView { meta: MetaView { name: new_name@, ..s.meta }, ..s };
                    if self@.wf() {
                        assert(s.wf());
                        assert forall|k: int, p: u32| 0 <= k < t.tabs.len()
                            && #[trigger] t.tabs[k].has(p) implies t.has_pane(p) by {
                            assert(s.has_pane(p));
                        }
                        lemma_with_session_keeps_wf(self@, i as int, t);
                    }
                }
                self.session_slot(i).meta.name = new_name.to_owned();
                Ok(())
            },
            None => Err(session_not_found(word_id)),
        }
    }
}

} // verus!
