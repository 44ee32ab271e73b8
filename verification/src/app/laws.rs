//! What the daemon's operations do: to which session, pane or closed session, and to nothing else.

use crate::app::crud::{display_name, new_session};
use crate::app::graveyard::{
    age_keys, expired, expired_words, lemma_all_released, recency_keys, unexpired, words_of,
};
use crate::app::persistence::CaptureView;
use crate::app::recover::{handoff_of, latest, logged, recent, with_log, ChildStatus};
use crate::app::restart::{
    alive_count, alive_total, lemma_others, others, restored_count, restored_total,
};
use crate::app::restore::{restored_session, PaneOutcome, SeedMode};
use crate::app::spawn::{spawn_after, spawn_begins, SpawnStep};
use crate::app::{is_session, session_at, AppView, RestartView};
use crate::config::SessionIsolationMode;
use crate::list::{
    law_stable_order, lemma_first_where, lemma_first_where_is, lemma_order_covers, precedes,
    stable_order,
};
use crate::pane::{InputView, PaneView};
use crate::persist::{ClosedView, DaemonView, SavedView};
use crate::protocol::{ClientId, Errno, ErrorView, MetaView};
use crate::session::{is_pane, SessionView};
use crate::text::{decimal_text, pane_id_parts};
use vstd::prelude::*;

verus! {

// ─── Finding ─────────────────────────────────────────────────────────────────

/// In a well-formed state, a session is found where it stands.
pub proof fn lemma_session_found(a: AppView, i: int)
    requires
        a.wf(),
        0 <= i < a.sessions.len(),
    ensures
        session_at(a.sessions, a.sessions[i].meta.word_id) == Some(i),
{
    let word = a.sessions[i].meta.word_id;
    assert forall|j: int| 0 <= j < i implies !is_session(word)(#[trigger] a.sessions[j]) by {
        assert(a.sessions[j].meta.word_id != a.sessions[i].meta.word_id);
    }
    lemma_first_where_is(a.sessions, is_session(word), i);
}

/// A pane's id leads to the pane of that session and index, and to no other.
pub proof fn law_pane_id_leads_to_its_pane(a: AppView, pane_id: Seq<char>, s: int, p: int)
    requires
        a.wf(),
        0 <= s < a.sessions.len(),
        0 <= p < a.sessions[s].panes.len(),
    ensures
        pane_id_parts(pane_id) == Some(
            (a.sessions[s].meta.word_id, a.sessions[s].panes[p].pane_index),
        ) <==> a.find_pane(pane_id) == Some((s, p)),
{
    lemma_session_found(a, s);
    assert(a.sessions[s].wf());
    let index = a.sessions[s].panes[p].pane_index;
    assert forall|j: int| 0 <= j < p implies !is_pane(index)(
        #[trigger] a.sessions[s].panes[j],
    ) by {
        assert(a.sessions[s].panes[j].pane_index != a.sessions[s].panes[p].pane_index);
    }
    lemma_first_where_is(a.sessions[s].panes, is_pane(index), p);
    crate::app::lemma_find_pane(a, pane_id);
}

/// Changing a pane changes that pane of that session, and nothing else of the daemon.
pub proof fn law_one_pane_changes(a: AppView, s: int, p: int, pane: PaneView)
    requires
        0 <= s < a.sessions.len(),
        0 <= p < a.sessions[s].panes.len(),
    ensures
        ({
            let b = a.with_pane_at(s, p, pane);
            &&& b.sessions.len() == a.sessions.len()
            &&& b.sessions[s].panes.len() == a.sessions[s].panes.len()
            &&& b.sessions[s].panes[p] == pane
            &&& forall|q: int|
                0 <= q < a.sessions[s].panes.len() && q != p ==> #[trigger] b.sessions[s].panes[q]
                    == a.sessions[s].panes[q]
            &&& b.sessions[s] == (SessionView {
                panes: b.sessions[s].panes,
                ..a.sessions[s]
            })
            &&& forall|t: int|
                0 <= t < a.sessions.len() && t != s ==> #[trigger] b.sessions[t] == a.sessions[t]
            &&& b == (AppView { sessions: b.sessions, ..a })
        }),
{
}

/// Changing every pane changes each pane by the same rule, and nothing else of the daemon.
pub proof fn law_every_pane_changes(a: AppView, f: spec_fn(PaneView) -> PaneView, s: int, p: int)
    requires
        0 <= s < a.sessions.len(),
        0 <= p < a.sessions[s].panes.len(),
    ensures
        ({
            let b = a.with_every_pane(f);
            &&& b.sessions.len() == a.sessions.len()
            &&& b.sessions[s].panes.len() == a.sessions[s].panes.len()
            &&& b.sessions[s].panes[p] == f(a.sessions[s].panes[p])
            &&& b.sessions[s] == (SessionView {
                panes: b.sessions[s].panes,
                ..a.sessions[s]
            })
            &&& b == (AppView { sessions: b.sessions, ..a })
        }),
{
}

// ─── Sessions ────────────────────────────────────────────────────────────────

/// A new session has the pane it was started with in one tab, the first, which is active and
/// shows that pane.
pub proof fn law_new_session_has_one_tab(meta: MetaView, pane: PaneView, now_ms: u64)
    ensures
        ({
            let s = new_session(meta, pane, now_ms);
            &&& s.meta == meta
            &&& s.last_active_ms == now_ms
            &&& s.panes == seq![pane]
            &&& s.tabs.len() == 1
            &&& s.tabs[0].tab_index == 0 && s.active_tab == 0
            &&& s.tabs[0].layout.leaves() == seq![0u32]
            &&& s.tabs[0].focused_pane == 0
            &&& s.tabs[0].layout is Leaf
            &&& s.tabs[0].name == decimal_text(1)
            &&& s.next_pane_index == 1 && s.next_tab_index == 1
        }),
{
}

/// A session is called what was asked for, else after its directory, else by its word.
pub proof fn law_what_a_session_is_called(name: Seq<char>, base: Seq<char>, word: Seq<char>)
    ensures
        display_name(Some(name), Some(base), word) == name,
        display_name(Some(name), None, word) == name,
        display_name(None, Some(base), word) == base,
        display_name(None, None, word) == word,
{
}

/// A session that begins uses up its word and a number; no session is touched.
pub proof fn law_beginning_uses_a_word_and_a_number(a: AppView, word: Seq<char>)
    requires
        a.wf(),
    ensures
        ({
            let b = a.session_begun(word);
            &&& b.used_words.contains(word)
            &&& forall|w: Seq<char>| #[trigger]
                b.used_words.contains(w) <==> a.used_words.contains(w) || w == word
            &&& a.session_index_counter < u32::MAX ==> b.session_index_counter
                == a.session_index_counter + 1
            &&& b == (AppView {
                used_words: b.used_words,
                session_index_counter: b.session_index_counter,
                ..a
            })
        }),
{
    crate::app::graveyard::lemma_reserved(a.used_words, word);
}

/// A session that ends is gone, with its word free again; the others stay, in their order.
pub proof fn law_ended_session_frees_its_word(a: AppView, i: int)
    requires
        a.wf(),
        0 <= i < a.sessions.len(),
    ensures
        ({
            let b = a.session_ended(i);
            let word = a.sessions[i].meta.word_id;
            &&& b.sessions == a.sessions.remove(i)
            &&& forall|w: Seq<char>| #[trigger]
                b.used_words.contains(w) <==> a.used_words.contains(w) && w != word
            &&& b == (AppView { sessions: b.sessions, used_words: b.used_words, ..a })
        }),
{
    crate::app::graveyard::lemma_released(a.used_words, a.sessions[i].meta.word_id);
}

/// A session that is closed can be brought back: it is the last of the closed ones, with all that
/// it saves and the time it was closed, and its word stays its own. The other sessions stay.
pub proof fn law_closed_session_is_kept(
    a: AppView,
    i: int,
    captures: Seq<CaptureView>,
    now_ms: u64,
)
    requires
        a.wf(),
        0 <= i < a.sessions.len(),
        a.closed_session_keep > 0,
    ensures
        ({
            let b = a.session_closed(i, captures, now_ms);
            let c = b.closed_sessions.last();
            &&& b.sessions == a.sessions.remove(i)
            &&& b.closed_sessions.len() > 0
            &&& c.closed_at_ms == now_ms
            &&& c.session == a.sessions[i].saved(captures)
            &&& b.used_words.contains(a.sessions[i].meta.word_id)
            &&& b == (AppView {
                sessions: b.sessions,
                closed_sessions: b.closed_sessions,
                used_words: b.used_words,
                ..a
            })
        }),
{
    let c = ClosedView { closed_at_ms: now_ms, session: a.sessions[i].saved(captures) };
    let all = a.closed_sessions.push(c);
    assert(all.drop_last() =~= a.closed_sessions);
    let kept = unexpired(all, a.closed_session_ttl_ms, now_ms);
    assert(!expired(c, a.closed_session_ttl_ms, now_ms));
    assert(kept.last() == c);
    crate::app::crud::law_close_session_keeps_wf(a, i, captures, now_ms);
    let b = a.session_closed(i, captures, now_ms);
    let last = b.closed_sessions.len() - 1;
    assert(b.closed_sessions[last] == c);
    assert(b.used_words.contains(b.closed_sessions[last].word()));
}

// ─── Closed sessions ─────────────────────────────────────────────────────────

/// A closed session expires when more than the time it is kept for has passed since it was
/// closed; without such a time, never.
pub proof fn law_when_a_closed_session_expires(c: ClosedView, ttl_ms: u64, now_ms: u64)
    ensures
        ttl_ms == 0 ==> !expired(c, ttl_ms, now_ms),
        ttl_ms > 0 ==> (expired(c, ttl_ms, now_ms) <==> now_ms > c.closed_at_ms + ttl_ms),
{
}

/// The sessions that are not expired are those that stay, in their order.
pub proof fn law_only_expired_sessions_leave(cs: Seq<ClosedView>, c: ClosedView, ttl_ms: u64, now_ms: u64)
    ensures
        unexpired(Seq::empty(), ttl_ms, now_ms) == Seq::<ClosedView>::empty(),
        expired(c, ttl_ms, now_ms) ==> unexpired(cs.push(c), ttl_ms, now_ms) == unexpired(
            cs,
            ttl_ms,
            now_ms,
        ),
        !expired(c, ttl_ms, now_ms) ==> unexpired(cs.push(c), ttl_ms, now_ms) == unexpired(
            cs,
            ttl_ms,
            now_ms,
        ).push(c),
{
    assert(cs.push(c).drop_last() =~= cs);
}

/// Of the closed sessions that are not expired, the latest stay, as many as are to be kept. The
/// live sessions are not touched.
pub proof fn law_latest_closed_sessions_stay(a: AppView, now_ms: u64)
    ensures
        ({
            let b = a.pruned(now_ms);
            let kept = unexpired(a.closed_sessions, a.closed_session_ttl_ms, now_ms);
            &&& kept.len() <= a.closed_session_keep ==> b.closed_sessions == kept
            &&& kept.len() > a.closed_session_keep ==> {
                &&& b.closed_sessions.len() == a.closed_session_keep
                &&& b.closed_sessions == kept.skip(kept.len() - a.closed_session_keep)
            }
            &&& b == (AppView {
                closed_sessions: b.closed_sessions,
                used_words: b.used_words,
                ..a
            })
        }),
{
    let kept = unexpired(a.closed_sessions, a.closed_session_ttl_ms, now_ms);
    assert(kept.skip(0) =~= kept);
}

proof fn lemma_expired_word(cs: Seq<ClosedView>, ttl_ms: u64, now_ms: u64, k: int)
    requires
        0 <= k < cs.len(),
    ensures
        expired(cs[k], ttl_ms, now_ms) ==> expired_words(cs, ttl_ms, now_ms).contains(
            cs[k].word(),
        ),
        !expired(cs[k], ttl_ms, now_ms) ==> unexpired(cs, ttl_ms, now_ms).contains(cs[k]),
    decreases cs.len(),
{
    let init = cs.drop_last();
    let e = expired_words(cs, ttl_ms, now_ms);
    let u = unexpired(cs, ttl_ms, now_ms);
    if k < init.len() {
        lemma_expired_word(init, ttl_ms, now_ms, k);
        assert(init[k] == cs[k]);
        let d = expired_words(init, ttl_ms, now_ms);
        let v = unexpired(init, ttl_ms, now_ms);
        if expired(cs[k], ttl_ms, now_ms) {
            let m = choose|m: int| 0 <= m < d.len() && d[m] == cs[k].word();
            assert(e[m] == cs[k].word());
        } else {
            let m = choose|m: int| 0 <= m < v.len() && v[m] == cs[k];
            assert(u[m] == cs[k]);
        }
    } else if expired(cs[k], ttl_ms, now_ms) {
        assert(e[e.len() - 1] == cs[k].word());
    } else {
        assert(u[u.len() - 1] == cs[k]);
    }
}

/// The word of a closed session that is not kept is free again.
pub proof fn law_dropped_session_frees_its_word(a: AppView, now_ms: u64, k: int)
    requires
        a.wf(),
        0 <= k < a.closed_sessions.len(),
        !a.pruned(now_ms).closed_sessions.contains(a.closed_sessions[k]),
    ensures
        !a.pruned(now_ms).used_words.contains(a.closed_sessions[k].word()),
{
    let ttl = a.closed_session_ttl_ms;
    let cs = a.closed_sessions;
    let kept = unexpired(cs, ttl, now_ms);
    let cut = crate::app::graveyard::excess(kept.len(), a.closed_session_keep);
    let gone = a.evicted(now_ms);
    lemma_expired_word(cs, ttl, now_ms, k);
    lemma_all_released(a.used_words, gone);
    let e = expired_words(cs, ttl, now_ms);
    let w = words_of(kept.take(cut));
    if expired(cs[k], ttl, now_ms) {
        let m = choose|m: int| 0 <= m < e.len() && e[m] == cs[k].word();
        assert(gone[m] == cs[k].word());
    } else {
        let m = choose|m: int| 0 <= m < kept.len() && kept[m] == cs[k];
        if m >= cut {
            assert(kept.skip(cut)[m - cut] == cs[k]);
        }
        assert(w[m] == cs[k].word());
        assert(gone[e.len() + m] == cs[k].word());
    }
}

/// The closed sessions are offered all, each as it is, those used last first.
pub proof fn law_closed_sessions_are_offered(a: AppView)
    ensures
        ({
            let e = a.closed_entries();
            &&& e.len() == a.closed_sessions.len()
            &&& forall|k: int|
                0 <= k < a.closed_sessions.len() ==> e.contains(
                    (#[trigger] a.closed_sessions[k]).entry(),
                )
            &&& forall|i: int, j: int|
                0 <= i < j < e.len() ==> (#[trigger] e[i]).last_active_ms >= (
                #[trigger] e[j]).last_active_ms
        }),
{
    let keys = recency_keys(a.closed_sessions);
    let o = stable_order(keys);
    law_stable_order(keys);
    let e = a.closed_entries();
    assert forall|k: int| 0 <= k < a.closed_sessions.len() implies e.contains(
        (#[trigger] a.closed_sessions[k]).entry(),
    ) by {
        lemma_order_covers(keys, k);
        let m = choose|m: int| 0 <= m < o.len() && o[m] == k;
        assert(e[m] == a.closed_sessions[k].entry());
    }
    assert forall|i: int, j: int| 0 <= i < j < e.len() implies (#[trigger] e[i]).last_active_ms
        >= (#[trigger] e[j]).last_active_ms by {
        assert(precedes(keys, o[i], o[j]));
    }
}

/// What a closed session is offered as.
pub proof fn law_closed_entry_is_true(c: ClosedView)
    requires
        c.session.panes.len() <= u32::MAX,
    ensures
        c.entry().meta == c.session.meta,
        c.entry().last_active_ms == c.session.last_active_ms,
        c.entry().closed_at_ms == c.closed_at_ms,
        c.entry().pane_count == c.session.panes.len(),
        c.word() == c.session.meta.word_id,
{
}

/// Of saved closed sessions, those are taken up that are not live again and not expired.
pub proof fn law_which_closed_sessions_are_loaded(
    a: AppView,
    cs: Seq<ClosedView>,
    c: ClosedView,
    now_ms: u64,
)
    ensures
        a.loadable(Seq::empty(), now_ms) == Seq::<ClosedView>::empty(),
        a.loadable(cs.push(c), now_ms) == if expired(c, a.closed_session_ttl_ms, now_ms) || exists|
            i: int,
        |
            0 <= i < a.sessions.len() && (#[trigger] a.sessions[i]).meta.word_id
                == c.session.meta.word_id {
            a.loadable(cs, now_ms)
        } else {
            a.loadable(cs, now_ms).push(c)
        },
{
    assert(cs.push(c).drop_last() =~= cs);
    lemma_first_where(a.sessions, is_session(c.word()));
    if exists|i: int|
        0 <= i < a.sessions.len() && (#[trigger] a.sessions[i]).meta.word_id
            == c.session.meta.word_id {
        let i = choose|i: int|
            0 <= i < a.sessions.len() && (#[trigger] a.sessions[i]).meta.word_id
                == c.session.meta.word_id;
        assert(is_session(c.word())(a.sessions[i]));
    }
    if let Some(i) = session_at(a.sessions, c.word()) {
        assert(a.sessions[i].meta.word_id == c.session.meta.word_id);
    }
}

/// What is loaded stands by the time it was closed, and of too many the latest are taken.
pub proof fn law_loaded_sessions_stand_by_age(a: AppView, cs: Seq<ClosedView>, now_ms: u64)
    ensures
        ({
            let r = a.loaded(cs, now_ms);
            let all = a.loadable(cs, now_ms);
            &&& all.len() <= a.closed_session_keep ==> r.len() == all.len()
            &&& all.len() > a.closed_session_keep ==> r.len() == a.closed_session_keep
            &&& forall|i: int, j: int|
                0 <= i < j < r.len() ==> (#[trigger] r[i]).closed_at_ms <= (
                #[trigger] r[j]).closed_at_ms
            &&& forall|k: int|
                0 <= k < all.len() && !r.contains(#[trigger] all[k]) ==> forall|i: int|
                    0 <= i < r.len() ==> all[k].closed_at_ms <= (#[trigger] r[i]).closed_at_ms
        }),
{
    let all = a.loadable(cs, now_ms);
    let keys = age_keys(all);
    let o = stable_order(keys);
    law_stable_order(keys);
    let r = a.loaded(cs, now_ms);
    let cut = all.len() - r.len();
    assert forall|i: int, j: int| 0 <= i < j < r.len() implies (#[trigger] r[i]).closed_at_ms <= (
    #[trigger] r[j]).closed_at_ms by {
        assert(precedes(keys, o[cut + i], o[cut + j]));
    }
    assert forall|k: int| 0 <= k < all.len() && !r.contains(#[trigger] all[k]) implies forall|
        i: int,
    | 0 <= i < r.len() ==> all[k].closed_at_ms <= (#[trigger] r[i]).closed_at_ms by {
        lemma_order_covers(keys, k);
        let m = choose|m: int| 0 <= m < o.len() && o[m] == k;
        if m >= cut {
            assert(r[m - cut] == all[k]);
        }
        assert forall|i: int| 0 <= i < r.len() implies all[k].closed_at_ms <= (
        #[trigger] r[i]).closed_at_ms by {
            assert(precedes(keys, o[m], o[cut + i]));
        }
    }
}

/// A session that is brought back is live and no longer among the closed ones, which are
/// otherwise as they were.
pub proof fn law_reopened_session_is_live(a: AppView, s: SessionView, k: int)
    requires
        a.wf(),
        0 <= k < a.closed_sessions.len(),
        a.closed_sessions[k].session.meta.word_id == s.meta.word_id,
    ensures
        ({
            let b = a.reopened(s);
            &&& b.sessions == a.sessions.push(s)
            &&& forall|i: int|
                0 <= i < b.closed_sessions.len() ==> (
                #[trigger] b.closed_sessions[i]).session.meta.word_id != s.meta.word_id
                    && a.closed_sessions.contains(b.closed_sessions[i])
            &&& forall|i: int|
                0 <= i < a.closed_sessions.len() && i != k ==> b.closed_sessions.contains(
                    #[trigger] a.closed_sessions[i],
                )
            &&& b.used_words == a.used_words
        }),
{
    let word = s.meta.word_id;
    assert(a.closed_sessions[k].word() == word);
    lemma_first_where(a.sessions, is_session(word));
    if let Some(i) = session_at(a.sessions, word) {
        assert(a.sessions[i].meta.word_id != a.closed_sessions[k].word());
    }
    lemma_others(a.closed_sessions, word);
    let b = a.reopened(s);
    assert forall|i: int| 0 <= i < a.closed_sessions.len() && i != k implies b.closed_sessions.contains(
        #[trigger] a.closed_sessions[i],
    ) by {
        if i < k {
            assert(a.closed_sessions[i].word() != a.closed_sessions[k].word());
        } else {
            assert(a.closed_sessions[k].word() != a.closed_sessions[i].word());
        }
    }
}

// ─── Restarting the daemon ───────────────────────────────────────────────────

/// A restarted daemon numbers its sessions on from where it or the saved state stood, whichever
/// is further, and takes every saved word.
pub proof fn law_restart_numbers_on(a: AppView, state: DaemonView)
    requires
        a.used_words.no_duplicates(),
    ensures
        ({
            let b = a.resumed_from(state);
            &&& b.session_index_counter >= state.session_index_counter
            &&& b.session_index_counter >= a.session_index_counter
            &&& b.session_index_counter == state.session_index_counter || b.session_index_counter
                == a.session_index_counter
            &&& forall|w: Seq<char>| #[trigger]
                b.used_words.contains(w) <==> a.used_words.contains(w)
                    || state.used_words.contains(w)
            &&& b == (AppView {
                session_index_counter: b.session_index_counter,
                used_words: b.used_words,
                ..a
            })
        }),
{
    crate::app::graveyard::lemma_all_reserved(a.used_words, state.used_words);
}

/// A saved session of which a pane came back is live; the word of one of which none did is free.
pub proof fn law_session_comes_back_or_its_word_is_free(
    a: AppView,
    saved: SavedView,
    outcomes: Seq<PaneOutcome>,
)
    requires
        a.wf(),
        forall|i: int|
            0 <= i < a.sessions.len() ==> (#[trigger] a.sessions[i]).meta.word_id
                != saved.meta.word_id,
    ensures
        ({
            let b = a.session_restored(saved, outcomes);
            match restored_session(saved, outcomes) {
                Some(s) => b.sessions == a.sessions.push(s) && b.used_words == a.used_words,
                None => {
                    &&& b.sessions == a.sessions
                    &&& forall|w: Seq<char>| #[trigger]
                        b.used_words.contains(w) <==> a.used_words.contains(w) && w
                            != saved.meta.word_id
                },
            }
        }),
{
    lemma_first_where(a.sessions, is_session(saved.meta.word_id));
    crate::app::graveyard::lemma_released(a.used_words, saved.meta.word_id);
}

/// The saved sessions are taken up one after the other.
pub proof fn law_sessions_come_back_one_by_one(
    a: AppView,
    front: Seq<SavedView>,
    saved: SavedView,
    outcomes: Seq<Seq<PaneOutcome>>,
)
    ensures
        a.sessions_restored(Seq::empty(), outcomes) == a,
        a.sessions_restored(front.push(saved), outcomes) == a.sessions_restored(
            front,
            outcomes,
        ).session_restored(saved, outcomes[front.len() as int]),
{
    assert(front.push(saved).drop_last() =~= front);
}

/// What a restore reports: every pane that came back counts, and among these the ones whose
/// process survived.
pub proof fn law_what_a_restore_counts(outcomes: Seq<PaneOutcome>, o: PaneOutcome)
    ensures
        restored_count(Seq::empty()) == 0,
        alive_count(Seq::empty()) == 0,
        o is Failed ==> restored_count(outcomes.push(o)) == restored_count(outcomes)
            && alive_count(outcomes.push(o)) == alive_count(outcomes),
        !(o is Failed) ==> restored_count(outcomes.push(o)) == restored_count(outcomes) + 1,
        !(o is Failed) && o->mode == SeedMode::Inherited ==> alive_count(outcomes.push(o))
            == alive_count(outcomes) + 1,
        !(o is Failed) && o->mode == SeedMode::Respawned ==> alive_count(outcomes.push(o))
            == alive_count(outcomes),
{
    assert(outcomes.push(o).drop_last() =~= outcomes);
}

// ─── Restarting workers ──────────────────────────────────────────────────────

/// Restarts count for a minute, in their order.
pub proof fn law_restarts_count_for_a_minute(times: Seq<u64>, t: u64, now_ms: u64)
    ensures
        recent(Seq::empty(), now_ms) == Seq::<u64>::empty(),
        now_ms >= t + 60_000 ==> recent(times.push(t), now_ms) == recent(times, now_ms),
        now_ms < t + 60_000 ==> recent(times.push(t), now_ms) == recent(times, now_ms).push(t),
{
    assert(times.push(t).drop_last() =~= times);
}

/// A worker may be restarted while fewer than three restarts of it count.
pub proof fn law_three_restarts_a_minute(a: AppView, pane_id: Seq<char>, now_ms: u64)
    ensures
        a.may_restart(pane_id, now_ms) <==> recent(logged(a.restarts, pane_id), now_ms).len() < 3,
{
}

/// A restart is written down for its pane, and for no other.
pub proof fn law_restart_is_logged_for_its_pane(
    a: AppView,
    pane_id: Seq<char>,
    other: Seq<char>,
    now_ms: u64,
)
    requires
        other != pane_id,
    ensures
        ({
            let b = a.restart_logged(pane_id, now_ms);
            let before = recent(logged(a.restarts, pane_id), now_ms);
            &&& logged(b.restarts, other) == logged(a.restarts, other)
            &&& before.len() < 3 ==> logged(b.restarts, pane_id) == before.push(now_ms)
            &&& before.len() >= 3 ==> logged(b.restarts, pane_id) == before
            &&& b == (AppView { restarts: b.restarts, ..a })
        }),
{
    let before = recent(logged(a.restarts, pane_id), now_ms);
    let log = RestartView {
        pane_id,
        times_ms: if before.len() < 3 {
            before.push(now_ms)
        } else {
            before
        },
    };
    lemma_log(a.restarts, log, pane_id);
    lemma_log(a.restarts, log, other);
}

proof fn lemma_log(restarts: Seq<RestartView>, log: RestartView, pane_id: Seq<char>)
    ensures
        logged(with_log(restarts, log), pane_id) == if pane_id == log.pane_id {
            log.times_ms
        } else {
            logged(restarts, pane_id)
        },
{
    let p = crate::app::recover::is_log(pane_id);
    let own = crate::app::recover::is_log(log.pane_id);
    let r = with_log(restarts, log);
    lemma_first_where(restarts, p);
    lemma_first_where(restarts, own);
    lemma_first_where(r, p);
    match crate::list::first_where(restarts, own) {
        Some(i) => {
            if pane_id == log.pane_id {
                assert forall|j: int| 0 <= j < i implies !p(#[trigger] r[j]) by {
                    assert(!p(restarts[j]));
                }
                lemma_first_where_is(r, p, i);
            } else {
                match crate::list::first_where(restarts, p) {
                    Some(k) => {
                        assert forall|j: int| 0 <= j < k implies !p(#[trigger] r[j]) by {
                            assert(!p(restarts[j]));
                        }
                        lemma_first_where_is(r, p, k);
                    },
                    None => {
                        assert forall|j: int| 0 <= j < r.len() implies !p(#[trigger] r[j]) by {
                            assert(!p(restarts[j]));
                        }
                        crate::list::lemma_first_where_none(r, p);
                    },
                }
            }
        },
        None => {
            let n = restarts.len() as int;
            if pane_id == log.pane_id {
                assert forall|j: int| 0 <= j < n implies !p(#[trigger] r[j]) by {
                    assert(!own(restarts[j]));
                }
                lemma_first_where_is(r, p, n);
            } else {
                match crate::list::first_where(restarts, p) {
                    Some(k) => {
                        assert forall|j: int| 0 <= j < k implies !p(#[trigger] r[j]) by {
                            assert(!p(restarts[j]));
                        }
                        lemma_first_where_is(r, p, k);
                    },
                    None => {
                        assert forall|j: int| 0 <= j < r.len() implies !p(#[trigger] r[j]) by {
                            if j < n {
                                assert(!p(restarts[j]));
                            }
                        }
                        crate::list::lemma_first_where_none(r, p);
                    },
                }
            }
        },
    }
}

/// The latest of some times is one of them, and none is later.
pub proof fn law_latest_is_the_largest(times: Seq<u64>)
    ensures
        match latest(times) {
            Some(t) => times.contains(t) && forall|i: int| 0 <= i < times.len() ==> #[trigger] times[i]
                <= t,
            None => times.len() == 0,
        },
    decreases times.len(),
{
    if times.len() > 0 {
        let init = times.drop_last();
        let n = times.len() - 1;
        law_latest_is_the_largest(init);
        let t = latest(times)->0;
        assert(times[n] == times.last());
        if t == times.last() {
            assert(times.contains(t));
        } else {
            let k = choose|k: int| 0 <= k < init.len() && init[k] == t;
            assert(times[k] == t);
        }
        assert forall|i: int| 0 <= i < times.len() implies #[trigger] times[i] <= t by {
            if i < n {
                assert(init[i] <= latest(init)->0);
            }
        }
    }
}

/// A pane's terminal is handed over only where its process is known and known to run.
pub proof fn law_only_running_panes_are_handed_over(pane_id: Seq<char>, child: ChildStatus)
    ensures
        ({
            let h = handoff_of(pane_id, child);
            &&& h.pane_id == pane_id
            &&& child.pid is Some ==> h.pid == child.pid->0
            &&& h.has_live_fd ==> child.pid is Some && child.exited == Some(false)
            &&& child.pid is Some && child.exited == Some(false) ==> h.has_live_fd
        }),
{
}

/// The way to a new pane: a shell is looked for where no program was asked for, then the program
/// is started, in a process of its own where that is configured and works, else in the daemon.
pub proof fn law_way_to_a_pane()
    ensures
        spawn_begins(true) == SpawnStep::Start,
        spawn_begins(false) == SpawnStep::DetectShell,
        forall|m: SessionIsolationMode| #[trigger]
            spawn_after(SpawnStep::DetectShell, true, m) == SpawnStep::Start,
        forall|m: SessionIsolationMode| #[trigger]
            spawn_after(SpawnStep::DetectShell, false, m) == SpawnStep::Failed,
        forall|m: SessionIsolationMode| #[trigger]
            spawn_after(SpawnStep::Start, false, m) == SpawnStep::Failed,
        spawn_after(SpawnStep::Start, true, SessionIsolationMode::Process)
            == SpawnStep::StartWorker,
        forall|m: SessionIsolationMode|
            m != SessionIsolationMode::Process ==> #[trigger] spawn_after(SpawnStep::Start, true, m)
                == SpawnStep::OpenTerminal,
        forall|m: SessionIsolationMode| #[trigger]
            spawn_after(SpawnStep::StartWorker, true, m) == (SpawnStep::Done { isolated: true }),
        forall|m: SessionIsolationMode| #[trigger]
            spawn_after(SpawnStep::StartWorker, false, m) == SpawnStep::OpenTerminal,
        forall|m: SessionIsolationMode| #[trigger]
            spawn_after(SpawnStep::OpenTerminal, true, m) == (SpawnStep::Done { isolated: false }),
        forall|m: SessionIsolationMode| #[trigger]
            spawn_after(SpawnStep::OpenTerminal, false, m) == SpawnStep::Failed,
{
}

// ─── Input ───────────────────────────────────────────────────────────────────

/// Input of a client that may write waits behind what already waits, in that pane alone, and its
/// session counts as used. Of a client that may not write nothing is taken.
pub proof fn law_input_waits_its_turn(
    a: AppView,
    pane_id: Seq<char>,
    id: ClientId,
    input: InputView,
    now_ms: u64,
    s: int,
    p: int,
)
    requires
        a.find_pane(pane_id) == Some((s, p)),
        0 <= s < a.sessions.len(),
        0 <= p < a.sessions[s].panes.len(),
    ensures
        ({
            let (b, r) = a.input_sent(pane_id, id, input, now_ms);
            let pane = a.sessions[s].panes[p];
            let empty = input matches InputView::Keys(k) && k.len() == 0;
            &&& !pane.writable_by(id) ==> b == a && r == Err::<(), ErrorView>(
                ErrorView::Pty(Errno::EPERM),
            )
            &&& pane.writable_by(id) && empty ==> b == a && r is Ok
            &&& pane.writable_by(id) && !empty && pane.input.len() < 256 ==> {
                &&& r is Ok
                &&& b.sessions[s].panes[p].input == pane.input.push(input)
                &&& b.sessions[s].panes[p] == (PaneView {
                    input: b.sessions[s].panes[p].input,
                    ..pane
                })
                &&& b.sessions[s].last_active_ms == now_ms
            }
            &&& pane.writable_by(id) && !empty && pane.input.len() >= 256 ==> {
                &&& r == Err::<(), ErrorView>(ErrorView::InputQueueFull(pane_id))
                &&& b.sessions[s].panes == a.sessions[s].panes
                &&& b.sessions[s].last_active_ms == now_ms
            }
            &&& b.sessions.len() == a.sessions.len()
            &&& forall|q: int|
                0 <= q < a.sessions[s].panes.len() && q != p ==> #[trigger] b.sessions[s].panes[q]
                    == a.sessions[s].panes[q]
            &&& forall|t: int|
                0 <= t < a.sessions.len() && t != s ==> #[trigger] b.sessions[t] == a.sessions[t]
            &&& b.sessions[s] == (SessionView {
                panes: b.sessions[s].panes,
                last_active_ms: b.sessions[s].last_active_ms,
                ..a.sessions[s]
            })
            &&& b == (AppView { sessions: b.sessions, ..a })
        }),
{
}

/// What is counted over all sessions is the sum of what is counted in each.
pub proof fn law_restores_add_up(all: Seq<Seq<PaneOutcome>>, one: Seq<PaneOutcome>)
    ensures
        restored_total(Seq::empty()) == 0,
        alive_total(Seq::empty()) == 0,
        restored_total(all.push(one)) == restored_total(all) + restored_count(one),
        alive_total(all.push(one)) == alive_total(all) + alive_count(one),
{
    assert(all.push(one).drop_last() =~= all);
}

} // verus!
