//! Bringing sessions back: all of them after the daemon restarts, or one that was closed.

use super::crud::{law_close_session_keeps_wf, law_put_session_keeps_wf};
use super::graveyard::{all_reserved, expired, lemma_all_reserved, lemma_released, unexpired};
use super::persistence::CaptureView;
use super::restore::{
    law_restore_after_save, law_restored_session_wf, restored_session, PaneOutcome, RestoreReport,
    SeedMode,
};
use super::{is_session, released, session_at, AppView, ServerApp};
use crate::list::{
    first_where, group_views, lemma_first_where, lemma_first_where_is, lemma_first_where_none,
};
use crate::persist::{ClosedView, DaemonView, PersistedDaemonState, PersistedSession, SavedView};
use crate::protocol::{session_not_found, ErrorView, KmuxError, SessionEntry};
use crate::session::{tab_at, SessionState, SessionView};
use crate::text::{same_text, views};
use vstd::prelude::*;
use vstd::string::StringExecFns;

verus! {

/// Recognizes a closed session by its word.
pub open spec fn is_closed(word: Seq<char>) -> spec_fn(ClosedView) -> bool {
    |c: ClosedView| c.word() == word
}

/// Where the closed session of a word stands.
pub open spec fn closed_at(cs: Seq<ClosedView>, word: Seq<char>) -> Option<int> {
    first_where(cs, is_closed(word))
}

/// The closed sessions of other words.
pub open spec fn others(cs: Seq<ClosedView>, word: Seq<char>) -> Seq<ClosedView>
    decreases cs.len(),
{
    if cs.len() == 0 {
        Seq::empty()
    } else {
        let rest = others(cs.drop_last(), word);
        if cs.last().word() == word {
            rest
        } else {
            rest.push(cs.last())
        }
    }
}

/// How many panes came back.
pub open spec fn restored_count(outcomes: Seq<PaneOutcome>) -> nat
    decreases outcomes.len(),
{
    if outcomes.len() == 0 {
        0
    } else {
        restored_count(outcomes.drop_last()) + if outcomes.last() is Failed {
            0nat
        } else {
            1nat
        }
    }
}

/// How many panes came back with their process.
pub open spec fn alive_count(outcomes: Seq<PaneOutcome>) -> nat
    decreases outcomes.len(),
{
    if outcomes.len() == 0 {
        0
    } else {
        alive_count(outcomes.drop_last()) + if outcomes.last() matches PaneOutcome::Restored {
            mode: SeedMode::Inherited,
            ..
        } {
            1nat
        } else {
            0nat
        }
    }
}

/// How many panes of all sessions came back.
pub open spec fn restored_total(outcomes: Seq<Seq<PaneOutcome>>) -> nat
    decreases outcomes.len(),
{
    if outcomes.len() == 0 {
        0
    } else {
        restored_total(outcomes.drop_last()) + restored_count(outcomes.last())
    }
}

/// How many panes of all sessions came back with their process.
pub open spec fn alive_total(outcomes: Seq<Seq<PaneOutcome>>) -> nat
    decreases outcomes.len(),
{
    if outcomes.len() == 0 {
        0
    } else {
        alive_total(outcomes.drop_last()) + alive_count(outcomes.last())
    }
}

impl AppView {
    /// The state after a saved session was brought back. Where none of its panes was, its word
    /// is free again.
    pub open spec fn session_restored(self, saved: SavedView, outcomes: Seq<PaneOutcome>)
        -> AppView {
        match restored_session(saved, outcomes) {
            Some(s) => self.with_session(s),
            None => AppView {
                used_words: released(self.used_words, saved.meta.word_id),
                ..self
            },
        }
    }

    pub open spec fn sessions_restored(
        self,
        saved: Seq<SavedView>,
        outcomes: Seq<Seq<PaneOutcome>>,
    ) -> AppView
        decreases saved.len(),
    {
        if saved.len() == 0 {
            self
        } else {
            self.sessions_restored(saved.drop_last(), outcomes).session_restored(
                saved.last(),
                outcomes[saved.len() - 1],
            )
        }
    }

    /// The state with what a saved daemon knew: how many sessions were created, and which words
    /// are in use.
    pub open spec fn resumed_from(self, state: DaemonView) -> AppView {
        AppView {
            session_index_counter: if state.session_index_counter > self.session_index_counter {
                state.session_index_counter
            } else {
                self.session_index_counter
            },
            used_words: all_reserved(self.used_words, state.used_words),
            ..self
        }
    }

    /// The state after a closed session was brought back.
    pub open spec fn reopened(self, s: SessionView) -> AppView {
        AppView {
            closed_sessions: others(self.closed_sessions, s.meta.word_id),
            ..self.with_session(s)
        }
    }
}

/// The text of the error for a closed session of which no pane came back.
pub open spec fn restore_failure(word: Seq<char>) -> Seq<char> {
    "failed to restore closed session '"@ + word + "'"@
}

// ─── Proofs ──────────────────────────────────────────────────────────────────

proof fn lemma_alive_bound(outcomes: Seq<PaneOutcome>)
    ensures
        alive_count(outcomes) <= restored_count(outcomes),
        restored_count(outcomes) <= outcomes.len(),
    decreases outcomes.len(),
{
    if outcomes.len() > 0 {
        lemma_alive_bound(outcomes.drop_last());
    }
}

proof fn lemma_alive_total_bound(outcomes: Seq<Seq<PaneOutcome>>)
    ensures
        alive_total(outcomes) <= restored_total(outcomes),
    decreases outcomes.len(),
{
    if outcomes.len() > 0 {
        lemma_alive_total_bound(outcomes.drop_last());
        lemma_alive_bound(outcomes.last());
    }
}

proof fn lemma_total_prefix(outcomes: Seq<Seq<PaneOutcome>>, i: int)
    requires
        0 <= i <= outcomes.len(),
    ensures
        restored_total(outcomes.take(i)) <= restored_total(outcomes),
    decreases outcomes.len() - i,
{
    if i < outcomes.len() {
        lemma_total_prefix(outcomes, i + 1);
        assert(outcomes.take(i + 1).drop_last() =~= outcomes.take(i));
    } else {
        assert(outcomes.take(i) =~= outcomes);
    }
}

proof fn lemma_count_prefix(outcomes: Seq<PaneOutcome>, i: int)
    requires
        0 <= i <= outcomes.len(),
    ensures
        restored_count(outcomes.take(i)) <= restored_count(outcomes),
    decreases outcomes.len() - i,
{
    if i < outcomes.len() {
        lemma_count_prefix(outcomes, i + 1);
        assert(outcomes.take(i + 1).drop_last() =~= outcomes.take(i));
    } else {
        assert(outcomes.take(i) =~= outcomes);
    }
}

/// Panes that are all started anew are not alive.
proof fn lemma_none_alive(outcomes: Seq<Seq<PaneOutcome>>)
    requires
        forall|i: int, j: int|
            0 <= i < outcomes.len() && 0 <= j < outcomes[i].len() ==> !((
            #[trigger] outcomes[i][j]) matches PaneOutcome::Restored {
                mode: SeedMode::Inherited,
                ..
            }),
    ensures
        alive_total(outcomes) == 0,
    decreases outcomes.len(),
{
    if outcomes.len() > 0 {
        let init = outcomes.drop_last();
        assert forall|i: int, j: int| 0 <= i < init.len() && 0 <= j < init[i].len() implies !((
        #[trigger] init[i][j]) matches PaneOutcome::Restored { mode: SeedMode::Inherited, .. }) by {
            assert(init[i][j] == outcomes[i][j]);
        }
        lemma_none_alive(init);
        lemma_none_alive_in(outcomes[outcomes.len() - 1]);
    }
}

proof fn lemma_none_alive_in(outcomes: Seq<PaneOutcome>)
    requires
        forall|j: int|
            0 <= j < outcomes.len() ==> !((#[trigger] outcomes[j]) matches PaneOutcome::Restored {
                mode: SeedMode::Inherited,
                ..
            }),
    ensures
        alive_count(outcomes) == 0,
    decreases outcomes.len(),
{
    if outcomes.len() > 0 {
        let init = outcomes.drop_last();
        assert forall|j: int| 0 <= j < init.len() implies !((
        #[trigger] init[j]) matches PaneOutcome::Restored { mode: SeedMode::Inherited, .. }) by {
            assert(init[j] == outcomes[j]);
        }
        lemma_none_alive_in(init);
        let last = outcomes[outcomes.len() - 1];
    }
}

/// Leaving a word out keeps exactly the sessions of other words.
pub proof fn lemma_others(cs: Seq<ClosedView>, word: Seq<char>)
    ensures
        forall|k: int|
            0 <= k < others(cs, word).len() ==> cs.contains(#[trigger] others(cs, word)[k])
                && others(cs, word)[k].word() != word,
        forall|k: int|
            0 <= k < cs.len() && (#[trigger] cs[k]).word() != word ==> others(cs, word).contains(
                cs[k],
            ),
    decreases cs.len(),
{
    if cs.len() > 0 {
        let init = cs.drop_last();
        lemma_others(init, word);
        let q = others(init, word);
        let r = others(cs, word);
        assert forall|k: int| 0 <= k < r.len() implies cs.contains(#[trigger] r[k]) && r[k].word()
            != word by {
            if k < q.len() {
                assert(r[k] == q[k]);
                assert(init.contains(q[k]));
                let m = choose|m: int| 0 <= m < init.len() && init[m] == q[k];
                assert(cs[m] == r[k]);
            } else {
                assert(cs[cs.len() - 1] == r[k]);
            }
        }
        assert forall|k: int| 0 <= k < cs.len() && (#[trigger] cs[k]).word()
            != word implies r.contains(cs[k]) by {
            if k < init.len() {
                assert(init[k] == cs[k]);
                assert(q.contains(init[k]));
                let m = choose|m: int| 0 <= m < q.len() && q[m] == init[k];
                assert(r[m] == cs[k]);
            } else {
                assert(r[r.len() - 1] == cs[k]);
            }
        }
    }
}

/// Leaving a word out keeps the words of the others different.
proof fn lemma_others_distinct(cs: Seq<ClosedView>, word: Seq<char>)
    requires
        forall|i: int, j: int|
            0 <= i < j < cs.len() ==> (#[trigger] cs[i]).word() != (#[trigger] cs[j]).word(),
    ensures
        forall|i: int, j: int|
            0 <= i < j < others(cs, word).len() ==> (#[trigger] others(cs, word)[i]).word() != (
            #[trigger] others(cs, word)[j]).word(),
    decreases cs.len(),
{
    if cs.len() > 0 {
        let init = cs.drop_last();
        assert forall|i: int, j: int| 0 <= i < j < init.len() implies (#[trigger] init[i]).word()
            != (#[trigger] init[j]).word() by {
            assert(cs[i].word() != cs[j].word());
        }
        lemma_others_distinct(init, word);
        lemma_others(init, word);
        let q = others(init, word);
        let r = others(cs, word);
        assert forall|i: int, j: int| 0 <= i < j < r.len() implies (#[trigger] r[i]).word() != (
        #[trigger] r[j]).word() by {
            if j < q.len() {
                assert(q[i].word() != q[j].word());
            } else {
                assert(init.contains(q[i]));
                let m = choose|m: int| 0 <= m < init.len() && init[m] == q[i];
                assert(cs[m].word() != cs[cs.len() - 1].word());
            }
        }
    }
}

/// Bringing a closed session back keeps the state well formed: its word passes from the closed
/// sessions to the live one.
pub proof fn law_reopen_keeps_wf(a: AppView, s: SessionView)
    requires
        a.wf(),
        s.wf(),
        closed_at(a.closed_sessions, s.meta.word_id) is Some,
    ensures
        a.reopened(s).wf(),
        closed_at(a.reopened(s).closed_sessions, s.meta.word_id) is None,
{
    let word = s.meta.word_id;
    let cs = a.closed_sessions;
    lemma_first_where(cs, is_closed(word));
    let k = closed_at(cs, word)->0;
    assert(a.used_words.contains(cs[k].word()));
    lemma_others(cs, word);
    lemma_others_distinct(cs, word);
    let few = AppView { closed_sessions: others(cs, word), ..a };
    let r = few.closed_sessions;
    assert forall|i: int| 0 <= i < r.len() implies few.used_words.contains((#[trigger] r[i]).word())
        && r[i].session.wf() by {
        assert(cs.contains(r[i]));
        let m = choose|m: int| 0 <= m < cs.len() && cs[m] == r[i];
        assert(a.used_words.contains(cs[m].word()));
        assert(cs[m].session.wf());
    }
    assert forall|i: int, j: int| 0 <= i < few.sessions.len() && 0 <= j < r.len() implies (
    #[trigger] few.sessions[i]).meta.word_id != (#[trigger] r[j]).word() by {
        assert(cs.contains(r[j]));
        let m = choose|m: int| 0 <= m < cs.len() && cs[m] == r[j];
        assert(a.sessions[i].meta.word_id != cs[m].word());
    }
    assert forall|i: int, j: int| 0 <= i < r.len() && 0 <= j < few.proxied.len() implies (
    #[trigger] r[i]).word() != (#[trigger] few.proxied[j]).meta.word_id by {
        assert(cs.contains(r[i]));
        let m = choose|m: int| 0 <= m < cs.len() && cs[m] == r[i];
        assert(cs[m].word() != a.proxied[j].meta.word_id);
    }
    assert(few.wf());
    assert forall|j: int| 0 <= j < few.proxied.len() implies (
    #[trigger] few.proxied[j]).meta.word_id != word by {
        assert(cs[k].word() != a.proxied[j].meta.word_id);
    }
    law_put_session_keeps_wf(few, s);
    assert(few.with_session(s) == a.reopened(s));
    lemma_first_where(r, is_closed(word));
}

/// What holds after bringing sessions back one by one.
proof fn lemma_sessions_restored(
    a: AppView,
    saved: Seq<SavedView>,
    outcomes: Seq<Seq<PaneOutcome>>,
)
    requires
        a.wf(),
        forall|i: int| 0 <= i < saved.len() ==> (#[trigger] saved[i]).wf(),
        forall|i: int|
            0 <= i < saved.len() ==> a.used_words.contains((#[trigger] saved[i]).meta.word_id),
        forall|i: int, j: int|
            0 <= i < j < saved.len() ==> (#[trigger] saved[i]).meta.word_id != (
            #[trigger] saved[j]).meta.word_id,
        forall|i: int, j: int|
            0 <= i < a.sessions.len() && 0 <= j < saved.len() ==> (
            #[trigger] a.sessions[i]).meta.word_id != (#[trigger] saved[j]).meta.word_id,
        forall|i: int, j: int|
            0 <= i < a.closed_sessions.len() && 0 <= j < saved.len() ==> (
            #[trigger] a.closed_sessions[i]).word() != (#[trigger] saved[j]).meta.word_id,
        forall|i: int| 0 <= i < saved.len() ==> !a.is_proxied((#[trigger] saved[i]).meta.word_id),
    ensures
        ({
            let r = a.sessions_restored(saved, outcomes);
            &&& r.wf()
            &&& r.closed_sessions == a.closed_sessions
            &&& r.proxied == a.proxied
            &&& forall|w: Seq<char>|
                a.used_words.contains(w) && (forall|j: int|
                    0 <= j < saved.len() ==> (#[trigger] saved[j]).meta.word_id != w)
                    ==> #[trigger] r.used_words.contains(w)
            &&& forall|i: int| #![trigger r.sessions[i]]
                0 <= i < r.sessions.len() ==> known_word(a, saved, r.sessions[i].meta.word_id)
        }),
    decreases saved.len(),
{
    if saved.len() > 0 {
        let init = saved.drop_last();
        let n = saved.len() - 1;
        let last = saved[n];
        let w = last.meta.word_id;
        assert forall|i: int| 0 <= i < init.len() implies (#[trigger] init[i]).wf()
            && a.used_words.contains(init[i].meta.word_id) by {
            assert(init[i] == saved[i]);
        }
        assert forall|i: int, j: int| 0 <= i < j < init.len() implies (
        #[trigger] init[i]).meta.word_id != (#[trigger] init[j]).meta.word_id by {
            assert(saved[i].meta.word_id != saved[j].meta.word_id);
        }
        assert forall|i: int, j: int| 0 <= i < a.sessions.len() && 0 <= j < init.len() implies (
        #[trigger] a.sessions[i]).meta.word_id != (#[trigger] init[j]).meta.word_id by {
            assert(init[j] == saved[j]);
        }
        assert forall|i: int, j: int| 0 <= i < a.closed_sessions.len() && 0 <= j < init.len()
            implies (#[trigger] a.closed_sessions[i]).word() != (
        #[trigger] init[j]).meta.word_id by {
            assert(init[j] == saved[j]);
        }
        assert forall|i: int| 0 <= i < init.len() implies !a.is_proxied(
            (#[trigger] init[i]).meta.word_id,
        ) by {
            assert(init[i] == saved[i]);
        }
        lemma_sessions_restored(a, init, outcomes);
        assert(!a.is_proxied(saved[n].meta.word_id));
        let q = a.sessions_restored(init, outcomes);
        let r = a.sessions_restored(saved, outcomes);
        assert(q.used_words.contains(w)) by {
            assert forall|j: int| 0 <= j < init.len() implies (#[trigger] init[j]).meta.word_id
                != w by {
                assert(saved[j].meta.word_id != saved[n].meta.word_id);
            }
        }
        assert forall|i: int| 0 <= i < q.sessions.len() implies (
        #[trigger] q.sessions[i]).meta.word_id != w && known_word(
            a,
            saved,
            q.sessions[i].meta.word_id,
        ) by {
            lemma_known_word(a, saved, q.sessions[i].meta.word_id);
        }
        law_restored_session_wf(last, outcomes[n]);
        lemma_first_where(q.sessions, is_session(w));
        match restored_session(last, outcomes[n]) {
            Some(s) => {
                assert forall|j: int| 0 <= j < q.proxied.len() implies (
                #[trigger] q.proxied[j]).meta.word_id != w by {
                    assert(a.proxied[j].meta.word_id != w);
                }
                law_put_session_keeps_wf(q, s);
                assert(session_at(q.sessions, w) is None);
                assert forall|i: int|
                    #![trigger r.sessions[i]]
                    0 <= i < r.sessions.len() implies known_word(
                    a,
                    saved,
                    r.sessions[i].meta.word_id,
                ) by {
                    if i < q.sessions.len() {
                        assert(r.sessions[i] == q.sessions[i]);
                    } else {
                        assert(saved[n].meta.word_id == w);
                    }
                }
            },
            None => {
                lemma_released(q.used_words, w);
                assert forall|i: int| 0 <= i < r.sessions.len() implies r.used_words.contains(
                    (#[trigger] r.sessions[i]).meta.word_id,
                ) by {
                    assert(q.used_words.contains(q.sessions[i].meta.word_id));
                }
                assert forall|i: int|
                    0 <= i < r.closed_sessions.len() implies r.used_words.contains(
                    (#[trigger] r.closed_sessions[i]).word(),
                ) by {
                    assert(q.used_words.contains(q.closed_sessions[i].word()));
                    assert(a.closed_sessions[i].word() != saved[n].meta.word_id);
                }
                assert forall|i: int| 0 <= i < r.proxied.len() implies r.used_words.contains(
                    (#[trigger] r.proxied[i]).meta.word_id,
                ) by {
                    assert(q.used_words.contains(q.proxied[i].meta.word_id));
                    assert(a.proxied[i].meta.word_id != w);
                }
                assert forall|i: int|
                    #![trigger r.sessions[i]]
                    0 <= i < r.sessions.len() implies known_word(
                    a,
                    saved,
                    r.sessions[i].meta.word_id,
                ) by {
                    assert(r.sessions[i] == q.sessions[i]);
                }
            },
        }
        assert forall|x: Seq<char>|
            a.used_words.contains(x) && (forall|j: int|
                0 <= j < saved.len() ==> (#[trigger] saved[j]).meta.word_id != x) implies
            #[trigger] r.used_words.contains(x) by {
            assert forall|j: int| 0 <= j < init.len() implies (#[trigger] init[j]).meta.word_id
                != x by {
                assert(saved[j].meta.word_id != x);
            }
            assert(q.used_words.contains(x));
            assert(saved[n].meta.word_id != x);
        }
    }
}

/// A word names a live session of the state or one of the saved ones.
pub open spec fn known_word(a: AppView, saved: Seq<SavedView>, word: Seq<char>) -> bool {
    ||| exists|i: int| 0 <= i < a.sessions.len() && (#[trigger] a.sessions[i]).meta.word_id == word
    ||| exists|i: int| 0 <= i < saved.len() && (#[trigger] saved[i]).meta.word_id == word
}

/// A word known without the last saved session is known with it, and is not its word.
proof fn lemma_known_word(a: AppView, saved: Seq<SavedView>, word: Seq<char>)
    requires
        saved.len() > 0,
        known_word(a, saved.drop_last(), word),
        forall|i: int, j: int|
            0 <= i < j < saved.len() ==> (#[trigger] saved[i]).meta.word_id != (
            #[trigger] saved[j]).meta.word_id,
        forall|i: int, j: int|
            0 <= i < a.sessions.len() && 0 <= j < saved.len() ==> (
            #[trigger] a.sessions[i]).meta.word_id != (#[trigger] saved[j]).meta.word_id,
    ensures
        known_word(a, saved, word),
        word != saved.last().meta.word_id,
{
    let init = saved.drop_last();
    let n = saved.len() - 1;
    if exists|i: int| 0 <= i < a.sessions.len() && (#[trigger] a.sessions[i]).meta.word_id == word {
        let i = choose|i: int|
            0 <= i < a.sessions.len() && (#[trigger] a.sessions[i]).meta.word_id == word;
        assert(a.sessions[i].meta.word_id != saved[n].meta.word_id);
    } else {
        let i = choose|i: int| 0 <= i < init.len() && (#[trigger] init[i]).meta.word_id == word;
        assert(saved[i].meta.word_id != saved[n].meta.word_id);
    }
}

/// Restoring what a well-formed daemon saved keeps the state well formed, whichever panes come
/// back.
pub proof fn law_restart_keeps_wf(
    a: AppView,
    state: DaemonView,
    outcomes: Seq<Seq<PaneOutcome>>,
)
    requires
        a.wf(),
        forall|i: int| 0 <= i < state.sessions.len() ==> (#[trigger] state.sessions[i]).wf(),
        forall|i: int|
            0 <= i < state.sessions.len() ==> state.used_words.contains(
                (#[trigger] state.sessions[i]).meta.word_id,
            ),
        forall|i: int, j: int|
            0 <= i < j < state.sessions.len() ==> (#[trigger] state.sessions[i]).meta.word_id != (
            #[trigger] state.sessions[j]).meta.word_id,
        forall|i: int, j: int|
            0 <= i < a.sessions.len() && 0 <= j < state.sessions.len() ==> (
            #[trigger] a.sessions[i]).meta.word_id != (#[trigger] state.sessions[j]).meta.word_id,
        forall|i: int, j: int|
            0 <= i < a.closed_sessions.len() && 0 <= j < state.sessions.len() ==> (
            #[trigger] a.closed_sessions[i]).word() != (
            #[trigger] state.sessions[j]).meta.word_id,
        forall|i: int|
            0 <= i < state.sessions.len() ==> !a.is_proxied(
                (#[trigger] state.sessions[i]).meta.word_id,
            ),
    ensures
        a.resumed_from(state).sessions_restored(state.sessions, outcomes).wf(),
{
    lemma_all_reserved(a.used_words, state.used_words);
    let b = a.resumed_from(state);
    assert forall|i: int| 0 <= i < b.sessions.len() implies b.used_words.contains(
        (#[trigger] b.sessions[i]).meta.word_id,
    ) by {
        assert(a.used_words.contains(a.sessions[i].meta.word_id));
    }
    assert forall|i: int| 0 <= i < b.closed_sessions.len() implies b.used_words.contains(
        (#[trigger] b.closed_sessions[i]).word(),
    ) by {
        assert(a.used_words.contains(a.closed_sessions[i].word()));
    }
    assert forall|i: int| 0 <= i < state.sessions.len() implies b.used_words.contains(
        (#[trigger] state.sessions[i]).meta.word_id,
    ) by {
        assert(state.used_words.contains(state.sessions[i].meta.word_id));
    }
    assert forall|i: int| 0 <= i < b.proxied.len() implies b.used_words.contains(
        (#[trigger] b.proxied[i]).meta.word_id,
    ) by {
        assert(a.used_words.contains(a.proxied[i].meta.word_id));
    }
    assert forall|i: int| 0 <= i < state.sessions.len() implies !b.is_proxied(
        (#[trigger] state.sessions[i]).meta.word_id,
    ) by {
        assert(!a.is_proxied(state.sessions[i].meta.word_id));
        assert(b.proxied == a.proxied);
    }
    lemma_sessions_restored(b, state.sessions, outcomes);
}

/// A session that is closed can be restored right away, and with all of its panes back it has its
/// old name, tabs, layouts, focus and active tab.
pub proof fn law_closed_session_can_be_restored(
    a: AppView,
    i: int,
    captures: Seq<CaptureView>,
    now_ms: u64,
    outcomes: Seq<PaneOutcome>,
)
    requires
        a.wf(),
        0 <= i < a.sessions.len(),
        a.closed_session_keep > 0,
        a.sessions[i].tabs.len() > 0,
        tab_at(a.sessions[i].tabs, a.sessions[i].active_tab) is Some,
        forall|k: int|
            0 <= k < a.sessions[i].panes.len() ==> !(#[trigger] outcomes[k] is Failed),
    ensures
        ({
            let s = a.sessions[i];
            let b = a.session_closed(i, captures, now_ms);
            &&& closed_at(b.closed_sessions, s.meta.word_id) matches Some(k)
                && b.closed_sessions[k].session == s.saved(captures)
            &&& restored_session(s.saved(captures), outcomes) matches Some(r) && {
                &&& r.meta == s.meta
                &&& r.tabs == s.tabs
                &&& r.active_tab == s.active_tab
                &&& b.reopened(r).wf()
            }
        }),
{
    let s = a.sessions[i];
    assert(s.wf());
    let b = a.session_closed(i, captures, now_ms);
    law_close_session_keeps_wf(a, i, captures, now_ms);
    law_restore_after_save(s, captures, outcomes);
    let c = ClosedView { closed_at_ms: now_ms, session: s.saved(captures) };
    let q = a.without_session(i).with_closed(c);
    let ttl = a.closed_session_ttl_ms;
    assert(q.closed_sessions.last() == c);
    assert(q.closed_sessions.drop_last() =~= a.closed_sessions);
    assert(!expired(c, ttl, now_ms));
    let kept = unexpired(q.closed_sessions, ttl, now_ms);
    assert(kept == unexpired(a.closed_sessions, ttl, now_ms).push(c));
    assert(b.closed_sessions.len() > 0);
    assert(b.closed_sessions.last() == kept.last());
    let last = b.closed_sessions.len() - 1;
    assert(b.closed_sessions[last] == c);
    assert(c.word() == s.meta.word_id);
    assert forall|k: int| 0 <= k < last implies !is_closed(s.meta.word_id)(
        #[trigger] b.closed_sessions[k],
    ) by {
        assert(b.closed_sessions[k].word() != b.closed_sessions[last].word());
    }
    lemma_first_where_is(b.closed_sessions, is_closed(s.meta.word_id), last);
    super::persistence::law_saved_session_wf(s, captures);
    law_restored_session_wf(s.saved(captures), outcomes);
    law_reopen_keeps_wf(b, restored_session(s.saved(captures), outcomes)->0);
}

// ─── Operations ──────────────────────────────────────────────────────────────

/// Count the panes of one session into a report.
fn count_panes(report: &mut RestoreReport, outcomes: &Vec<PaneOutcome>)
    requires
        old(report).restored + restored_count(outcomes@) <= usize::MAX,
        old(report).restored == old(report).alive + old(report).dead,
    ensures
        final(report).restored == old(report).restored + restored_count(outcomes@),
        final(report).alive == old(report).alive + alive_count(outcomes@),
        final(report).restored == final(report).alive + final(report).dead,
{
    let ghost start = *report;
    let mut i: usize = 0;
    while i < outcomes.len()
        invariant
            0 <= i <= outcomes@.len(),
            start.restored + restored_count(outcomes@) <= usize::MAX,
            report.restored == start.restored + restored_count(outcomes@.take(i as int)),
            report.alive == start.alive + alive_count(outcomes@.take(i as int)),
            report.restored == report.alive + report.dead,
        decreases outcomes@.len() - i,
    {
        let ghost next = outcomes@.take(i + 1);
        assert(next.drop_last() =~= outcomes@.take(i as int));
        proof {
            lemma_count_prefix(outcomes@, i + 1);
        }
        match outcomes[i] {
            PaneOutcome::Failed => {},
            PaneOutcome::Restored { mode, seeded: _ } => {
                report.restored = report.restored + 1;
                match mode {
                    SeedMode::Inherited => {
                        report.alive = report.alive + 1;
                    },
                    SeedMode::Respawned => {
                        report.dead = report.dead + 1;
                    },
                }
            },
        }
        i = i + 1;
    }
    assert(outcomes@.take(i as int) =~= outcomes@);
}

impl ServerApp {
    /// Restore saved sessions. `outcomes` says for each saved pane what became of it: whether its
    /// process, handed over by the previous daemon, was adopted, or a fresh one was started, or
    /// neither could be had.
    pub fn restore_with_handoff(
        &mut self,
        state: PersistedDaemonState,
        outcomes: &Vec<Vec<PaneOutcome>>,
    ) -> (r: RestoreReport)
        requires
            outcomes@.len() == state@.sessions.len(),
            forall|i: int|
                0 <= i < state@.sessions.len() ==> (#[trigger] outcomes@[i])@.len()
                    == state@.sessions[i].panes.len(),
            forall|i: int|
                0 <= i < state@.sessions.len() ==> (#[trigger] state@.sessions[i]).restorable(),
            restored_total(views(outcomes@)) <= usize::MAX,
        ensures
            final(self)@ == old(self)@.resumed_from(state@).sessions_restored(
                state@.sessions,
                views(outcomes@),
            ),
            r.restored == restored_total(views(outcomes@)),
            r.alive == alive_total(views(outcomes@)),
            r.dead == r.restored - r.alive,
    {
        broadcast use group_views;

        let ghost start = self@;
        let ghost outs = views(outcomes@);
        let mut report = RestoreReport::default();
        if state.session_index_counter > self.session_index_counter {
            self.session_index_counter = state.session_index_counter;
        }
        let mut w: usize = 0;
        let ghost counted = self@;
        while w < state.used_words.len()
            invariant
                0 <= w <= state.used_words@.len(),
                self@ == (AppView {
                    used_words: all_reserved(counted.used_words, state@.used_words.take(w as int)),
                    ..counted
                }),
            decreases state.used_words@.len() - w,
        {
            let ghost next = state@.used_words.take(w + 1);
            assert(next.drop_last() =~= state@.used_words.take(w as int));
            assert(next.last() == state.used_words@[w as int]@);
            let _free = self.reserve_word(state.used_words[w].as_str());
            w = w + 1;
        }
        assert(state@.used_words.take(w as int) =~= state@.used_words);
        let ghost base = self@;
        assert(base == start.resumed_from(state@));
        let mut i: usize = 0;
        assert(base.sessions_restored(state@.sessions.take(0), outs) == base);
        while i < state.sessions.len()
            invariant
                0 <= i <= state.sessions@.len(),
                outcomes@.len() == state.sessions@.len(),
                outs == views(outcomes@),
                restored_total(outs) <= usize::MAX,
                forall|k: int|
                    0 <= k < state@.sessions.len() ==> (#[trigger] outcomes@[k])@.len()
                        == state@.sessions[k].panes.len(),
                forall|k: int|
                    0 <= k < state@.sessions.len() ==> (#[trigger] state@.sessions[k]).restorable(),
                self@ == base.sessions_restored(state@.sessions.take(i as int), outs),
                report.restored == restored_total(outs.take(i as int)),
                report.alive == alive_total(outs.take(i as int)),
                report.restored == report.alive + report.dead,
            decreases state.sessions@.len() - i,
        {
            let ghost next = state@.sessions.take(i + 1);
            assert(next.drop_last() =~= state@.sessions.take(i as int));
            assert(next.last() == state.sessions@[i as int]@);
            assert(state@.sessions[i as int].restorable());
            assert(outs.take(i + 1).drop_last() =~= outs.take(i as int));
            assert(outs[i as int] == outcomes@[i as int]@);
            proof {
                lemma_total_prefix(outs, i + 1);
            }
            count_panes(&mut report, &outcomes[i]);
            match SessionState::restored(&state.sessions[i], &outcomes[i]) {
                Some(session) => {
                    self.put_session(session);
                },
                None => {
                    self.release_word(state.sessions[i].meta.word_id.as_str());
                },
            }
            i = i + 1;
        }
        assert(state@.sessions.take(i as int) =~= state@.sessions);
        assert(outs.take(i as int) =~= outs);
        report
    }

    /// Restore saved sessions, each pane with a fresh process.
    pub fn restore_from(&mut self, state: PersistedDaemonState, outcomes: &Vec<Vec<PaneOutcome>>)
        -> (r: RestoreReport)
        requires
            outcomes@.len() == state@.sessions.len(),
            forall|i: int|
                0 <= i < state@.sessions.len() ==> (#[trigger] outcomes@[i])@.len()
                    == state@.sessions[i].panes.len(),
            forall|i: int|
                0 <= i < state@.sessions.len() ==> (#[trigger] state@.sessions[i]).restorable(),
            restored_total(views(outcomes@)) <= usize::MAX,
            forall|i: int, j: int|
                0 <= i < outcomes@.len() && 0 <= j < views(outcomes@)[i].len() ==> !((
                #[trigger] views(outcomes@)[i][j]) matches PaneOutcome::Restored {
                    mode: SeedMode::Inherited,
                    ..
                }),
        ensures
            final(self)@ == old(self)@.resumed_from(state@).sessions_restored(
                state@.sessions,
                views(outcomes@),
            ),
            r.restored == restored_total(views(outcomes@)),
            r.alive == 0,
            r.dead == r.restored,
    {
        proof {
            lemma_none_alive(views(outcomes@));
        }
        self.restore_with_handoff(state, outcomes)
    }

    /// Where the closed session of a word stands.
    pub fn closed_position(&self, word_id: &str) -> (r: Option<usize>)
        ensures
            match r {
                Some(i) => i < self.closed_sessions@.len() && closed_at(
                    self@.closed_sessions,
                    word_id@,
                ) == Some(i as int),
                None => closed_at(self@.closed_sessions, word_id@) is None,
            },
    {
        let mut i: usize = 0;
        while i < self.closed_sessions.len()
            invariant
                0 <= i <= self.closed_sessions@.len(),
                forall|j: int|
                    0 <= j < i ==> !is_closed(word_id@)(#[trigger] self@.closed_sessions[j]),
            decreases self.closed_sessions@.len() - i,
        {
            assert(self@.closed_sessions[i as int] == self.closed_sessions@[i as int]@);
            if same_text(self.closed_sessions[i].session.meta.word_id.as_str(), word_id) {
                proof {
                    lemma_first_where_is(self@.closed_sessions, is_closed(word_id@), i as int);
                }
                return Some(i);
            }
            i = i + 1;
        }
        proof {
            lemma_first_where_none(self@.closed_sessions, is_closed(word_id@));
        }
        None
    }

    /// The closed session of a word, to start its panes again.
    pub fn closed_session(&self, word_id: &str) -> (r: Option<&PersistedSession>)
        ensures
            match r {
                Some(s) => closed_at(self@.closed_sessions, word_id@) matches Some(i)
                    && self@.closed_sessions[i].session == s@,
                None => closed_at(self@.closed_sessions, word_id@) is None,
            },
    {
        match self.closed_position(word_id) {
            Some(i) => {
                assert(self@.closed_sessions[i as int] == self.closed_sessions@[i as int]@);
                Some(&self.closed_sessions[i].session)
            },
            None => None,
        }
    }

    /// Drop the closed sessions of a word.
    fn drop_closed(&mut self, word_id: &str)
        ensures
            final(self)@ == (AppView {
                closed_sessions: others(old(self)@.closed_sessions, word_id@),
                ..old(self)@
            }),
    {
        broadcast use group_views;

        let ghost start = self@;
        let ghost cs = self@.closed_sessions;
        let mut i: usize = 0;
        let ghost mut seen: int = 0;
        assert(cs.skip(0) =~= cs);
        while i < self.closed_sessions.len()
            invariant
                0 <= i <= self.closed_sessions@.len(),
                0 <= seen <= cs.len(),
                self@ == (AppView { closed_sessions: self@.closed_sessions, ..start }),
                self@.closed_sessions.take(i as int) == others(cs.take(seen), word_id@),
                self@.closed_sessions.skip(i as int) == cs.skip(seen),
                self@.closed_sessions.len() - i == cs.len() - seen,
                self@.closed_sessions.len() == self.closed_sessions@.len(),
            decreases self.closed_sessions@.len() - i,
        {
            let ghost had = self@.closed_sessions;
            assert(had[i as int] == self.closed_sessions@[i as int]@);
            assert(had[i as int] == had.skip(i as int)[0]);
            assert(cs.skip(seen)[0] == cs[seen]);
            let ghost next = cs.take(seen + 1);
            assert(next.drop_last() =~= cs.take(seen));
            if same_text(self.closed_sessions[i].session.meta.word_id.as_str(), word_id) {
                let _gone = self.closed_sessions.remove(i);
                proof {
                    assert(self@.closed_sessions =~= had.remove(i as int));
                    assert(self@.closed_sessions.take(i as int) =~= had.take(i as int));
                    assert(self@.closed_sessions.skip(i as int) =~= had.skip(i + 1));
                }
            } else {
                proof {
                    assert(had.take(i + 1) =~= had.take(i as int).push(had[i as int]));
                }
                i = i + 1;
            }
            proof {
                assert(had.skip(i as int).len() >= 0);
                assert(cs.skip(seen + 1) =~= cs.skip(seen).skip(1));
                seen = seen + 1;
            }
        }
        proof {
            assert(cs.take(seen) =~= cs);
            assert(self@.closed_sessions.take(i as int) =~= self@.closed_sessions);
        }
    }

    /// Restore a closed session. `outcomes` says for each of its panes what became of it. Where
    /// none came back, the session stays closed and can be restored later.
    pub fn restore_session(&mut self, word_id: &str, outcomes: &Vec<PaneOutcome>) -> (r: Result<
        SessionEntry,
        KmuxError,
    >)
        requires
            closed_at(old(self)@.closed_sessions, word_id@) matches Some(i) ==> {
                &&& outcomes@.len() == old(self)@.closed_sessions[i].session.panes.len()
                &&& old(self)@.closed_sessions[i].session.restorable()
            },
        ensures
            match closed_at(old(self)@.closed_sessions, word_id@) {
                None => {
                    &&& final(self)@ == old(self)@
                    &&& r matches Err(e) && e@ == ErrorView::SessionNotFound(word_id@)
                },
                Some(i) => match restored_session(
                    old(self)@.closed_sessions[i].session,
                    outcomes@,
                ) {
                    None => {
                        &&& final(self)@ == old(self)@
                        &&& r matches Err(e) && e@ == ErrorView::Spawn(restore_failure(word_id@))
                    },
                    Some(s) => {
                        &&& final(self)@ == old(self)@.reopened(s)
                        &&& r matches Ok(entry) && entry@ == s.entry()
                    },
                },
            },
            old(self)@.wf() ==> final(self)@.wf(),
    {
        broadcast use group_views;

        let ghost start = self@;
        match self.closed_position(word_id) {
            None => Err(session_not_found(word_id)),
            Some(i) => {
                let ghost saved = self@.closed_sessions[i as int].session;
                assert(self@.closed_sessions[i as int] == self.closed_sessions@[i as int]@);
                proof {
                    lemma_first_where(self@.closed_sessions, is_closed(word_id@));
                }
                match SessionState::restored(&self.closed_sessions[i].session, outcomes) {
                    None => {
                        let mut text = "failed to restore closed session '".to_owned();
                        text.append(word_id);
                        text.append("'");
                        Err(KmuxError::Spawn(text))
                    },
                    Some(session) => {
                        proof {
                            assert(session@.meta.word_id == word_id@);
                            if start.wf() {
                                law_reopen_keeps_wf(start, session@);
                            }
                        }
                        let entry = session.to_entry();
                        self.put_session(session);
                        self.drop_closed(word_id);
                        Ok(entry)
                    },
                }
            },
        }
    }
}

} // verus!
