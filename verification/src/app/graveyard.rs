//! Closed sessions that can still be restored. The set is bounded by a count and by an age.

use super::{is_session, lemma_word_position, released, reserved, session_at, AppView, ServerApp};
use crate::app::is_word;
use crate::list::{
    arrange, arranged, first_where, group_views, law_stable_order, lemma_first_where,
    lemma_order_distinct, positions, precedes, sorted_order, stable_order,
};
use crate::persist::{ClosedView, PersistedClosedSession, PersistedGraveyard};
use crate::protocol::{ClosedEntryView, ClosedSessionEntry};
use crate::text::views;
use vstd::prelude::*;

verus! {

/// Whether a closed session is past its age. An age of zero never passes.
pub open spec fn expired(c: ClosedView, ttl_ms: u64, now_ms: u64) -> bool {
    ttl_ms > 0 && (if c.closed_at_ms + ttl_ms > u64::MAX {
        u64::MAX as int
    } else {
        c.closed_at_ms + ttl_ms
    }) < now_ms
}

/// The closed sessions that are not past their age.
pub open spec fn unexpired(cs: Seq<ClosedView>, ttl_ms: u64, now_ms: u64) -> Seq<ClosedView>
    decreases cs.len(),
{
    if cs.len() == 0 {
        Seq::empty()
    } else if expired(cs.last(), ttl_ms, now_ms) {
        unexpired(cs.drop_last(), ttl_ms, now_ms)
    } else {
        unexpired(cs.drop_last(), ttl_ms, now_ms).push(cs.last())
    }
}

/// The words of the closed sessions that are past their age.
pub open spec fn expired_words(cs: Seq<ClosedView>, ttl_ms: u64, now_ms: u64) -> Seq<Seq<char>>
    decreases cs.len(),
{
    if cs.len() == 0 {
        Seq::empty()
    } else if expired(cs.last(), ttl_ms, now_ms) {
        expired_words(cs.drop_last(), ttl_ms, now_ms).push(cs.last().word())
    } else {
        expired_words(cs.drop_last(), ttl_ms, now_ms)
    }
}

pub open spec fn words_of(cs: Seq<ClosedView>) -> Seq<Seq<char>> {
    Seq::new(cs.len(), |i: int| cs[i].word())
}

/// How many of `n` entries are too many.
pub open spec fn excess(n: nat, keep: usize) -> int {
    if n > keep {
        n - keep
    } else {
        0
    }
}

/// The words in use once several are not any more.
pub open spec fn all_released(words: Seq<Seq<char>>, gone: Seq<Seq<char>>) -> Seq<Seq<char>>
    decreases gone.len(),
{
    if gone.len() == 0 {
        words
    } else {
        released(all_released(words, gone.drop_last()), gone.last())
    }
}

/// The words in use once several more are.
pub open spec fn all_reserved(words: Seq<Seq<char>>, more: Seq<Seq<char>>) -> Seq<Seq<char>>
    decreases more.len(),
{
    if more.len() == 0 {
        words
    } else {
        reserved(all_reserved(words, more.drop_last()), more.last())
    }
}

impl AppView {
    /// The words that pruning frees: of entries past their age, then of the oldest ones that are
    /// too many.
    pub open spec fn evicted(self, now_ms: u64) -> Seq<Seq<char>> {
        let kept = unexpired(self.closed_sessions, self.closed_session_ttl_ms, now_ms);
        expired_words(self.closed_sessions, self.closed_session_ttl_ms, now_ms) + words_of(
            kept.take(excess(kept.len(), self.closed_session_keep)),
        )
    }

    /// The state with both bounds applied to the closed sessions.
    pub open spec fn pruned(self, now_ms: u64) -> AppView {
        let kept = unexpired(self.closed_sessions, self.closed_session_ttl_ms, now_ms);
        AppView {
            closed_sessions: kept.skip(excess(kept.len(), self.closed_session_keep)),
            used_words: all_released(self.used_words, self.evicted(now_ms)),
            ..self
        }
    }

    /// The state with one more closed session.
    pub open spec fn with_closed(self, c: ClosedView) -> AppView {
        AppView { closed_sessions: self.closed_sessions.push(c), ..self }
    }

    /// The closed sessions as they are offered to clients, most recently active first.
    pub open spec fn closed_entries(self) -> Seq<ClosedEntryView> {
        arranged(entries_of(self.closed_sessions), stable_order(recency_keys(self.closed_sessions)))
    }

    /// Which closed sessions read from disk are kept: those that are not live and not past their
    /// age.
    pub open spec fn loadable(self, cs: Seq<ClosedView>, now_ms: u64) -> Seq<ClosedView>
        decreases cs.len(),
    {
        if cs.len() == 0 {
            Seq::empty()
        } else {
            let rest = self.loadable(cs.drop_last(), now_ms);
            let c = cs.last();
            if session_at(self.sessions, c.word()) is Some || expired(
                c,
                self.closed_session_ttl_ms,
                now_ms,
            ) {
                rest
            } else {
                rest.push(c)
            }
        }
    }

    /// The closed sessions taken over from disk: oldest first, and the newest where there are
    /// too many.
    pub open spec fn loaded(self, cs: Seq<ClosedView>, now_ms: u64) -> Seq<ClosedView> {
        let kept = self.loadable(cs, now_ms);
        let sorted = arranged(kept, stable_order(age_keys(kept)));
        sorted.skip(excess(sorted.len(), self.closed_session_keep))
    }
}

pub open spec fn entries_of(cs: Seq<ClosedView>) -> Seq<ClosedEntryView> {
    Seq::new(cs.len(), |i: int| cs[i].entry())
}

/// Ascending keys for descending activity.
pub open spec fn recency_keys(cs: Seq<ClosedView>) -> Seq<u64> {
    Seq::new(cs.len(), |i: int| (u64::MAX - cs[i].session.last_active_ms) as u64)
}

pub open spec fn age_keys(cs: Seq<ClosedView>) -> Seq<u64> {
    Seq::new(cs.len(), |i: int| cs[i].closed_at_ms)
}

fn is_expired(closed_at_ms: u64, ttl_ms: u64, now_ms: u64) -> (r: bool)
    ensures
        forall|c: ClosedView|
            c.closed_at_ms == closed_at_ms ==> r == #[trigger] expired(c, ttl_ms, now_ms),
{
    ttl_ms > 0 && closed_at_ms.saturating_add(ttl_ms) < now_ms
}

// ─── Proofs ──────────────────────────────────────────────────────────────────

/// A kept entry is one of the entries, and not past its age.
pub proof fn lemma_unexpired(cs: Seq<ClosedView>, ttl_ms: u64, now_ms: u64)
    ensures
        forall|k: int|
            0 <= k < unexpired(cs, ttl_ms, now_ms).len() ==> cs.contains(
                #[trigger] unexpired(cs, ttl_ms, now_ms)[k],
            ) && !expired(unexpired(cs, ttl_ms, now_ms)[k], ttl_ms, now_ms),
        unexpired(cs, ttl_ms, now_ms).len() + expired_words(cs, ttl_ms, now_ms).len() == cs.len(),
    decreases cs.len(),
{
    if cs.len() > 0 {
        let init = cs.drop_last();
        lemma_unexpired(init, ttl_ms, now_ms);
        let r = unexpired(cs, ttl_ms, now_ms);
        assert forall|k: int| 0 <= k < r.len() implies cs.contains(#[trigger] r[k]) && !expired(
            r[k],
            ttl_ms,
            now_ms,
        ) by {
            let q = unexpired(init, ttl_ms, now_ms);
            if k < q.len() {
                assert(r[k] == q[k]);
                assert(init.contains(q[k]));
                let m = choose|m: int| 0 <= m < init.len() && init[m] == q[k];
                assert(cs[m] == r[k]);
            } else {
                assert(cs[cs.len() - 1] == r[k]);
            }
        }
    }
}

/// With different words, kept and evicted entries have different words, and so have any two kept
/// entries.
proof fn lemma_unexpired_words(cs: Seq<ClosedView>, ttl_ms: u64, now_ms: u64)
    requires
        forall|i: int, j: int|
            0 <= i < j < cs.len() ==> (#[trigger] cs[i]).word() != (#[trigger] cs[j]).word(),
    ensures
        ({
            let r = unexpired(cs, ttl_ms, now_ms);
            let e = expired_words(cs, ttl_ms, now_ms);
            &&& forall|i: int, j: int|
                0 <= i < j < r.len() ==> (#[trigger] r[i]).word() != (#[trigger] r[j]).word()
            &&& forall|i: int, j: int|
                0 <= i < r.len() && 0 <= j < e.len() ==> (#[trigger] r[i]).word()
                    != #[trigger] e[j]
            &&& forall|j: int| 0 <= j < e.len() ==> words_of(cs).contains(#[trigger] e[j])
        }),
    decreases cs.len(),
{
    if cs.len() > 0 {
        let init = cs.drop_last();
        lemma_unexpired_words(init, ttl_ms, now_ms);
        lemma_unexpired(init, ttl_ms, now_ms);
        let q = unexpired(init, ttl_ms, now_ms);
        let d = expired_words(init, ttl_ms, now_ms);
        let c = cs.last();
        assert forall|i: int| 0 <= i < q.len() implies (#[trigger] q[i]).word() != c.word() by {
            assert(init.contains(q[i]));
            let m = choose|m: int| 0 <= m < init.len() && init[m] == q[i];
            assert(cs[m].word() != cs[cs.len() - 1].word());
        }
        assert forall|j: int| 0 <= j < d.len() implies #[trigger] d[j] != c.word() by {
            assert(words_of(init).contains(d[j]));
            let m = choose|m: int| 0 <= m < words_of(init).len() && words_of(init)[m] == d[j];
            assert(cs[m].word() != cs[cs.len() - 1].word());
        }
        let e = expired_words(cs, ttl_ms, now_ms);
        assert forall|j: int| 0 <= j < e.len() implies words_of(cs).contains(#[trigger] e[j]) by {
            if j < d.len() {
                assert(e[j] == d[j]);
                let m = choose|m: int| 0 <= m < words_of(init).len() && words_of(init)[m] == d[j];
                assert(words_of(cs)[m] == e[j]);
            } else {
                assert(words_of(cs)[cs.len() - 1] == e[j]);
            }
        }
    }
}

/// Releasing a word that is listed once takes exactly it out of use.
pub proof fn lemma_released(words: Seq<Seq<char>>, word: Seq<char>)
    requires
        words.no_duplicates(),
    ensures
        released(words, word).no_duplicates(),
        forall|w: Seq<char>|
            #[trigger] released(words, word).contains(w) <==> words.contains(w) && w != word,
{
    lemma_word_position(words, word);
    lemma_first_where(words, is_word(word));
    let r = released(words, word);
    match first_where(words, is_word(word)) {
        None => {},
        Some(i) => {
            let from = |k: int|
                if k < i {
                    k
                } else {
                    k + 1
                };
            assert forall|k: int| 0 <= k < r.len() implies #[trigger] r[k] == words[from(k)] by {}
            assert forall|a: int, b: int| 0 <= a < r.len() && 0 <= b < r.len() && a != b implies r[a]
                != r[b] by {
                assert(words[from(a)] != words[from(b)]);
            }
            assert forall|w: Seq<char>| #[trigger] r.contains(w) <==> words.contains(w) && w
                != word by {
                if r.contains(w) {
                    let k = choose|k: int| 0 <= k < r.len() && r[k] == w;
                    assert(words[from(k)] == w);
                    assert(words[from(k)] != words[i]);
                }
                if words.contains(w) && w != word {
                    let k = choose|k: int| 0 <= k < words.len() && words[k] == w;
                    if k < i {
                        assert(r[k] == w);
                    } else {
                        assert(r[k - 1] == w);
                    }
                }
            }
        },
    }
}

pub proof fn lemma_all_released(words: Seq<Seq<char>>, gone: Seq<Seq<char>>)
    requires
        words.no_duplicates(),
    ensures
        all_released(words, gone).no_duplicates(),
        forall|w: Seq<char>|
            #[trigger] all_released(words, gone).contains(w) <==> words.contains(w)
                && !gone.contains(w),
    decreases gone.len(),
{
    if gone.len() > 0 {
        let init = gone.drop_last();
        lemma_all_released(words, init);
        lemma_released(all_released(words, init), gone.last());
        assert forall|w: Seq<char>| gone.contains(w) <==> init.contains(w) || w == gone.last() by {
            if gone.contains(w) {
                let k = choose|k: int| 0 <= k < gone.len() && gone[k] == w;
                if k < init.len() {
                    assert(init[k] == w);
                }
            }
            if init.contains(w) {
                let k = choose|k: int| 0 <= k < init.len() && init[k] == w;
                assert(gone[k] == w);
            }
            assert(gone[gone.len() - 1] == gone.last());
        }
    }
}

/// Reserving words puts exactly them into use.
pub proof fn lemma_all_reserved(words: Seq<Seq<char>>, more: Seq<Seq<char>>)
    requires
        words.no_duplicates(),
    ensures
        all_reserved(words, more).no_duplicates(),
        forall|w: Seq<char>|
            #[trigger] all_reserved(words, more).contains(w) <==> words.contains(w)
                || more.contains(w),
    decreases more.len(),
{
    if more.len() > 0 {
        let init = more.drop_last();
        lemma_all_reserved(words, init);
        let q = all_reserved(words, init);
        lemma_reserved(q, more.last());
        assert forall|w: Seq<char>| more.contains(w) <==> init.contains(w) || w == more.last() by {
            if more.contains(w) {
                let k = choose|k: int| 0 <= k < more.len() && more[k] == w;
                if k < init.len() {
                    assert(init[k] == w);
                }
            }
            if init.contains(w) {
                let k = choose|k: int| 0 <= k < init.len() && init[k] == w;
                assert(more[k] == w);
            }
            assert(more[more.len() - 1] == more.last());
        }
    }
}

pub proof fn lemma_reserved(words: Seq<Seq<char>>, word: Seq<char>)
    requires
        words.no_duplicates(),
    ensures
        reserved(words, word).no_duplicates(),
        forall|w: Seq<char>|
            #[trigger] reserved(words, word).contains(w) <==> words.contains(w) || w == word,
{
    lemma_word_position(words, word);
    let r = reserved(words, word);
    if !words.contains(word) {
        assert forall|w: Seq<char>| #[trigger] r.contains(w) <==> words.contains(w) || w
            == word by {
            if r.contains(w) {
                let k = choose|k: int| 0 <= k < r.len() && r[k] == w;
                if k < words.len() {
                    assert(words[k] == w);
                }
            }
            if words.contains(w) {
                let k = choose|k: int| 0 <= k < words.len() && words[k] == w;
                assert(r[k] == w);
            }
            assert(r[words.len() as int] == word);
        }
        assert forall|a: int, b: int| 0 <= a < r.len() && 0 <= b < r.len() && a != b implies r[a]
            != r[b] by {
            if a < words.len() && b < words.len() {
                assert(words[a] != words[b]);
            }
        }
    }
}

/// Pruning keeps the state well formed: no word of a remaining session is freed.
pub proof fn law_prune_keeps_wf(a: AppView, now_ms: u64)
    requires
        a.wf(),
    ensures
        a.pruned(now_ms).wf(),
{
    let ttl = a.closed_session_ttl_ms;
    let cs = a.closed_sessions;
    let kept = unexpired(cs, ttl, now_ms);
    let n = excess(kept.len(), a.closed_session_keep);
    lemma_unexpired(cs, ttl, now_ms);
    lemma_unexpired_words(cs, ttl, now_ms);
    lemma_all_released(a.used_words, a.evicted(now_ms));
    let r = a.pruned(now_ms);
    let gone = a.evicted(now_ms);
    let e = expired_words(cs, ttl, now_ms);
    assert forall|i: int| 0 <= i < r.closed_sessions.len() implies #[trigger] r.closed_sessions[i]
        == kept[i + n] && cs.contains(kept[i + n]) by {}
    // An evicted word is one of the closed sessions', hence not a live one's.
    assert forall|w: Seq<char>| gone.contains(w) implies words_of(cs).contains(w) by {
        let k = choose|k: int| 0 <= k < gone.len() && gone[k] == w;
        if k < e.len() {
            assert(e[k] == w);
        } else {
            let m = k - e.len();
            assert(kept[m].word() == w);
            assert(cs.contains(kept[m]));
            let x = choose|x: int| 0 <= x < cs.len() && cs[x] == kept[m];
            assert(words_of(cs)[x] == w);
        }
    }
    assert forall|i: int| 0 <= i < r.sessions.len() implies r.used_words.contains(
        (#[trigger] r.sessions[i]).meta.word_id,
    ) by {
        let w = a.sessions[i].meta.word_id;
        assert(a.used_words.contains(w));
        if gone.contains(w) {
            let x = choose|x: int| 0 <= x < words_of(cs).len() && words_of(cs)[x] == w;
            assert(a.sessions[i].meta.word_id != cs[x].word());
        }
    }
    assert forall|i: int| 0 <= i < r.proxied.len() implies r.used_words.contains(
        (#[trigger] r.proxied[i]).meta.word_id,
    ) by {
        let w = a.proxied[i].meta.word_id;
        assert(a.used_words.contains(w));
        if gone.contains(w) {
            let x = choose|x: int| 0 <= x < words_of(cs).len() && words_of(cs)[x] == w;
            assert(cs[x].word() != a.proxied[i].meta.word_id);
        }
    }
    assert forall|i: int, j: int| 0 <= i < r.closed_sessions.len() && 0 <= j < r.proxied.len()
        implies (#[trigger] r.closed_sessions[i]).word() != (
    #[trigger] r.proxied[j]).meta.word_id by {
        let x = choose|x: int| 0 <= x < cs.len() && cs[x] == kept[i + n];
        assert(cs[x].word() != a.proxied[j].meta.word_id);
    }
    assert forall|i: int| 0 <= i < r.closed_sessions.len() implies r.used_words.contains(
        (#[trigger] r.closed_sessions[i]).word(),
    ) by {
        let c = kept[i + n];
        let x = choose|x: int| 0 <= x < cs.len() && cs[x] == c;
        assert(a.used_words.contains(cs[x].word()));
        if gone.contains(c.word()) {
            let k = choose|k: int| 0 <= k < gone.len() && gone[k] == c.word();
            if k < e.len() {
                assert(e[k] == c.word());
                assert(kept[i + n].word() != e[k]);
            } else {
                let m = k - e.len();
                assert(kept[m].word() == c.word());
                assert(m < n);
                assert(kept[m].word() != kept[i + n].word());
            }
        }
    }
    assert forall|i: int, j: int| 0 <= i < j < r.closed_sessions.len() implies (
    #[trigger] r.closed_sessions[i]).word() != (#[trigger] r.closed_sessions[j]).word() by {
        assert(kept[i + n].word() != kept[j + n].word());
    }
    assert forall|i: int, j: int| 0 <= i < r.sessions.len() && 0 <= j < r.closed_sessions.len()
        implies (#[trigger] r.sessions[i]).meta.word_id != (
    #[trigger] r.closed_sessions[j]).word() by {
        let x = choose|x: int| 0 <= x < cs.len() && cs[x] == kept[j + n];
        assert(a.sessions[i].meta.word_id != cs[x].word());
    }
    assert forall|i: int| 0 <= i < r.closed_sessions.len() implies (
    #[trigger] r.closed_sessions[i]).session.wf() by {
        let x = choose|x: int| 0 <= x < cs.len() && cs[x] == kept[i + n];
        assert(cs[x].session.wf());
    }
}

/// Pruning leaves at most as many entries as are kept, none past its age, and never reorders
/// them.
pub proof fn law_prune_bounds(a: AppView, now_ms: u64)
    ensures
        a.pruned(now_ms).closed_sessions.len() <= a.closed_session_keep,
        forall|i: int|
            0 <= i < a.pruned(now_ms).closed_sessions.len() ==> !expired(
                #[trigger] a.pruned(now_ms).closed_sessions[i],
                a.closed_session_ttl_ms,
                now_ms,
            ) && a.closed_sessions.contains(a.pruned(now_ms).closed_sessions[i]),
{
    lemma_unexpired(a.closed_sessions, a.closed_session_ttl_ms, now_ms);
    let kept = unexpired(a.closed_sessions, a.closed_session_ttl_ms, now_ms);
    let n = excess(kept.len(), a.closed_session_keep);
    let r = a.pruned(now_ms).closed_sessions;
    assert forall|i: int| 0 <= i < r.len() implies !expired(
        #[trigger] r[i],
        a.closed_session_ttl_ms,
        now_ms,
    ) && a.closed_sessions.contains(r[i]) by {
        assert(r[i] == kept[i + n]);
    }
}

/// Entries that are kept when they are read from disk are some of them, none of a live session,
/// and of different words if all are.
proof fn lemma_loadable(a: AppView, cs: Seq<ClosedView>, now_ms: u64)
    requires
        forall|i: int, j: int|
            0 <= i < j < cs.len() ==> (#[trigger] cs[i]).word() != (#[trigger] cs[j]).word(),
    ensures
        ({
            let r = a.loadable(cs, now_ms);
            &&& forall|k: int|
                0 <= k < r.len() ==> cs.contains(#[trigger] r[k]) && session_at(
                    a.sessions,
                    r[k].word(),
                ) is None && !expired(r[k], a.closed_session_ttl_ms, now_ms)
            &&& forall|i: int, j: int|
                0 <= i < j < r.len() ==> (#[trigger] r[i]).word() != (#[trigger] r[j]).word()
        }),
    decreases cs.len(),
{
    if cs.len() > 0 {
        let init = cs.drop_last();
        let n = cs.len() - 1;
        assert forall|i: int, j: int| 0 <= i < j < init.len() implies (#[trigger] init[i]).word()
            != (#[trigger] init[j]).word() by {
            assert(cs[i].word() != cs[j].word());
        }
        lemma_loadable(a, init, now_ms);
        let q = a.loadable(init, now_ms);
        let r = a.loadable(cs, now_ms);
        assert forall|k: int| 0 <= k < r.len() implies cs.contains(#[trigger] r[k]) && session_at(
            a.sessions,
            r[k].word(),
        ) is None && !expired(r[k], a.closed_session_ttl_ms, now_ms) by {
            if k < q.len() {
                assert(init.contains(q[k]));
                let m = choose|m: int| 0 <= m < init.len() && init[m] == q[k];
                assert(cs[m] == r[k]);
            } else {
                assert(cs[n] == r[k]);
            }
        }
        assert forall|i: int, j: int| 0 <= i < j < r.len() implies (#[trigger] r[i]).word() != (
        #[trigger] r[j]).word() by {
            if j < q.len() {
                assert(q[i].word() != q[j].word());
            } else {
                assert(init.contains(q[i]));
                let m = choose|m: int| 0 <= m < init.len() && init[m] == q[i];
                assert(cs[m].word() != cs[n].word());
            }
        }
    }
}

/// Taking over well-formed closed sessions of different words from disk keeps the state well
/// formed, and leaves no more of them than are to be kept.
pub proof fn law_load_keeps_wf(a: AppView, cs: Seq<ClosedView>, now_ms: u64)
    requires
        a.wf(),
        forall|i: int| 0 <= i < cs.len() ==> (#[trigger] cs[i]).session.wf(),
        forall|i: int, j: int|
            0 <= i < j < cs.len() ==> (#[trigger] cs[i]).word() != (#[trigger] cs[j]).word(),
        forall|i: int| 0 <= i < cs.len() ==> !a.is_proxied((#[trigger] cs[i]).word()),
    ensures
        (AppView {
            closed_sessions: a.loaded(cs, now_ms),
            used_words: all_reserved(a.used_words, words_of(a.loaded(cs, now_ms))),
            ..a
        }).wf(),
        a.loaded(cs, now_ms).len() <= a.closed_session_keep,
{
    let kept = a.loadable(cs, now_ms);
    lemma_loadable(a, cs, now_ms);
    let keys = age_keys(kept);
    let o = stable_order(keys);
    law_stable_order(keys);
    let sorted = arranged(kept, o);
    let n = excess(sorted.len(), a.closed_session_keep);
    let l = a.loaded(cs, now_ms);
    lemma_all_reserved(a.used_words, words_of(l));
    let b = AppView {
        closed_sessions: l,
        used_words: all_reserved(a.used_words, words_of(l)),
        ..a
    };
    assert forall|k: int| 0 <= k < l.len() implies #[trigger] l[k] == kept[o[k + n]] && 0 <= o[k
        + n] < kept.len() by {}
    assert forall|k: int| 0 <= k < l.len() implies b.used_words.contains((#[trigger] l[k]).word())
        && l[k].session.wf() by {
        assert(words_of(l)[k] == l[k].word());
        assert(cs.contains(kept[o[k + n]]));
        let m = choose|m: int| 0 <= m < cs.len() && cs[m] == kept[o[k + n]];
        assert(cs[m].session.wf());
    }
    assert forall|i: int, j: int| 0 <= i < j < l.len() implies (#[trigger] l[i]).word() != (
    #[trigger] l[j]).word() by {
        let x = o[i + n];
        let y = o[j + n];
        assert(precedes(keys, x, y));
        if x < y {
            assert(kept[x].word() != kept[y].word());
        } else {
            assert(kept[y].word() != kept[x].word());
        }
    }
    assert forall|i: int, j: int| 0 <= i < b.sessions.len() && 0 <= j < l.len() implies (
    #[trigger] b.sessions[i]).meta.word_id != (#[trigger] l[j]).word() by {
        let c = kept[o[j + n]];
        assert(session_at(a.sessions, c.word()) is None);
        lemma_first_where(a.sessions, is_session(c.word()));
        assert(!is_session(c.word())(a.sessions[i]));
    }
    assert forall|i: int| 0 <= i < b.sessions.len() implies b.used_words.contains(
        (#[trigger] b.sessions[i]).meta.word_id,
    ) by {
        assert(a.used_words.contains(a.sessions[i].meta.word_id));
    }
    assert forall|i: int| 0 <= i < b.proxied.len() implies b.used_words.contains(
        (#[trigger] b.proxied[i]).meta.word_id,
    ) by {
        assert(a.used_words.contains(a.proxied[i].meta.word_id));
    }
    assert forall|i: int, j: int| 0 <= i < l.len() && 0 <= j < b.proxied.len() implies (
    #[trigger] l[i]).word() != (#[trigger] b.proxied[j]).meta.word_id by {
        assert(cs.contains(kept[o[i + n]]));
        let m = choose|m: int| 0 <= m < cs.len() && cs[m] == kept[o[i + n]];
        assert(!a.is_proxied(cs[m].word()));
        assert(a.proxied[j].meta.word_id != cs[m].word());
    }
}

// ─── Operations ──────────────────────────────────────────────────────────────

impl ServerApp {
    /// Return words to the pool.
    pub fn release_words(&mut self, words: &Vec<String>)
        ensures
            final(self)@ == (AppView {
                used_words: all_released(old(self)@.used_words, views(words@)),
                ..old(self)@
            }),
    {
        let ghost start = self@;
        let mut i: usize = 0;
        assert(views(words@).take(0).len() == 0);
        while i < words.len()
            invariant
                0 <= i <= words@.len(),
                self@ == (AppView {
                    used_words: all_released(start.used_words, views(words@).take(i as int)),
                    ..start
                }),
            decreases words@.len() - i,
        {
            proof {
                let next = views(words@).take(i as int + 1);
                assert(next.drop_last() =~= views(words@).take(i as int));
                assert(next.last() == words@[i as int]@);
            }
            self.release_word(words[i].as_str());
            i = i + 1;
        }
        assert(views(words@).take(words@.len() as int) =~= views(words@));
    }

    /// Apply both bounds to the closed sessions, freeing the word of every evicted one. Returns
    /// whether anything was removed.
    pub fn prune_graveyard(&mut self, now_ms: u64) -> (r: bool)
        ensures
            final(self)@ == old(self)@.pruned(now_ms),
            r == (old(self)@.evicted(now_ms).len() > 0),
            old(self)@.wf() ==> final(self)@.wf(),
    {
        broadcast use group_views;

        let ghost start = self@;
        let ttl: u64 = self.closed_session_ttl_ms;
        let mut evicted: Vec<String> = Vec::new();
        // Age: walk the entries once, dropping those past their age.
        let mut i: usize = 0;
        let mut done: usize = 0;
        let n: usize = self.closed_sessions.len();
        assert(views(evicted@) =~= expired_words(start.closed_sessions.take(0), ttl, now_ms));
        assert(self@.closed_sessions =~= unexpired(start.closed_sessions.take(0), ttl, now_ms)
            + start.closed_sessions.skip(0));
        while done < n
            invariant
                n == start.closed_sessions.len(),
                0 <= i <= done <= n,
                ttl == start.closed_session_ttl_ms,
                self@ == (AppView { closed_sessions: self@.closed_sessions, ..start }),
                i == unexpired(start.closed_sessions.take(done as int), ttl, now_ms).len(),
                self@.closed_sessions == unexpired(
                    start.closed_sessions.take(done as int),
                    ttl,
                    now_ms,
                ) + start.closed_sessions.skip(done as int),
                views(evicted@) == expired_words(
                    start.closed_sessions.take(done as int),
                    ttl,
                    now_ms,
                ),
            decreases n - done,
        {
            let ghost next = start.closed_sessions.take(done as int + 1);
            proof {
                assert(next.drop_last() =~= start.closed_sessions.take(done as int));
                assert(next.last() == start.closed_sessions[done as int]);
                assert(self@.closed_sessions.len() == self.closed_sessions@.len());
                assert(self@.closed_sessions[i as int] == start.closed_sessions[done as int]);
                assert(self.closed_sessions@[i as int]@ == self@.closed_sessions[i as int]);
            }
            let ghost had = self@.closed_sessions;
            if is_expired(self.closed_sessions[i].closed_at_ms, ttl, now_ms) {
                evicted.push(self.closed_sessions[i].session.meta.word_id.clone());
                let _gone = self.closed_sessions.remove(i);
                assert(self@.closed_sessions =~= had.remove(i as int));
            } else {
                i = i + 1;
            }
            assert(self@.closed_sessions =~= unexpired(next, ttl, now_ms)
                + start.closed_sessions.skip(done as int + 1));
            done = done + 1;
        }
        let ghost kept = unexpired(start.closed_sessions, ttl, now_ms);
        proof {
            assert(start.closed_sessions.take(n as int) =~= start.closed_sessions);
            assert(self@.closed_sessions =~= kept);
        }
        // Count: drop the oldest.
        let keep: usize = self.closed_session_keep;
        let ghost old_evicted = views(evicted@);
        let ghost mut dropped: int = 0;
        let ghost over = excess(kept.len(), keep);
        assert(kept.take(0).len() == 0);
        assert(views(evicted@) =~= old_evicted + words_of(kept.take(0)));
        assert(kept.skip(0) =~= kept);
        while self.closed_sessions.len() > keep
            invariant
                keep == start.closed_session_keep,
                self@ == (AppView { closed_sessions: self@.closed_sessions, ..start }),
                0 <= dropped <= over,
                over == excess(kept.len(), keep),
                self@.closed_sessions == kept.skip(dropped),
                views(evicted@) == old_evicted + words_of(kept.take(dropped)),
            decreases self.closed_sessions@.len(),
        {
            assert(self@.closed_sessions.len() == self.closed_sessions@.len());
            assert(self@.closed_sessions[0] == kept[dropped]);
            assert(self.closed_sessions@[0]@ == self@.closed_sessions[0]);
            let ghost had = self@.closed_sessions;
            let ghost named = views(evicted@);
            let gone = self.closed_sessions.remove(0);
            evicted.push(gone.session.meta.word_id);
            proof {
                assert(self@.closed_sessions =~= had.remove(0));
                assert(views(evicted@) =~= named.push(kept[dropped].word()));
                assert(self@.closed_sessions =~= kept.skip(dropped + 1));
                assert(words_of(kept.take(dropped + 1)) =~= words_of(
                    kept.take(dropped),
                ).push(kept[dropped].word()));
                assert(views(evicted@) =~= old_evicted + words_of(kept.take(dropped + 1)));
                dropped = dropped + 1;
            }
        }
        assert(self@.closed_sessions.len() == self.closed_sessions@.len());
        assert(dropped == over);
        assert(views(evicted@) == start.evicted(now_ms));
        proof {
            if start.wf() {
                law_prune_keeps_wf(start, now_ms);
            }
        }
        self.release_words(&evicted);
        evicted.len() > 0
    }

    /// Keep a session that was just closed, and apply the bounds.
    pub fn retain_closed_session(&mut self, closed: PersistedClosedSession, now_ms: u64)
        ensures
            final(self)@ == old(self)@.with_closed(closed@).pruned(now_ms),
            old(self)@.with_closed(closed@).wf() ==> final(self)@.wf(),
    {
        broadcast use group_views;

        self.closed_sessions.push(closed);
        let _changed = self.prune_graveyard(now_ms);
    }

    /// Apply the bounds. Returns whether the saved set is to be rewritten.
    pub fn sweep_graveyard(&mut self, now_ms: u64) -> (r: bool)
        ensures
            final(self)@ == old(self)@.pruned(now_ms),
            r == (old(self)@.evicted(now_ms).len() > 0),
            old(self)@.wf() ==> final(self)@.wf(),
    {
        self.prune_graveyard(now_ms)
    }

    /// The closed sessions, most recently active first.
    pub fn closed_session_entries(&self) -> (r: Vec<ClosedSessionEntry>)
        ensures
            views(r@) == self@.closed_entries(),
    {
        let mut keys: Vec<u64> = Vec::new();
        let mut entries: Vec<ClosedSessionEntry> = Vec::new();
        let mut i: usize = 0;
        while i < self.closed_sessions.len()
            invariant
                0 <= i <= self.closed_sessions@.len(),
                keys@.len() == i,
                entries@.len() == i,
                forall|j: int|
                    0 <= j < i ==> keys@[j] == (u64::MAX
                        - self@.closed_sessions[j].session.last_active_ms) as u64,
                forall|j: int|
                    0 <= j < i ==> (#[trigger] entries@[j])@ == self@.closed_sessions[j].entry(),
            decreases self.closed_sessions@.len() - i,
        {
            assert(self@.closed_sessions[i as int] == self.closed_sessions@[i as int]@);
            let active: u64 = self.closed_sessions[i].session.last_active_ms;
            keys.push(u64::MAX - active);
            entries.push(self.closed_sessions[i].to_entry());
            i = i + 1;
        }
        let order = sorted_order(&keys);
        proof {
            assert(keys@ =~= recency_keys(self@.closed_sessions));
            lemma_order_distinct(keys@, order@);
            assert(views(entries@) =~= entries_of(self@.closed_sessions));
        }
        let ghost all = entries@;
        let r = arrange(entries, &order);
        assert(views(r@) =~= arranged(views(all), positions(order@)));
        r
    }

    /// Take over the closed sessions read from disk at startup: not those that are live again,
    /// nor those past their age, and only the newest where there are too many. Returns whether
    /// any was dropped.
    pub fn load_graveyard(&mut self, graveyard: PersistedGraveyard, now_ms: u64) -> (r: bool)
        ensures
            final(self)@ == (AppView {
                closed_sessions: old(self)@.loaded(views(graveyard.sessions@), now_ms),
                used_words: all_reserved(
                    old(self)@.used_words,
                    words_of(old(self)@.loaded(views(graveyard.sessions@), now_ms)),
                ),
                ..old(self)@
            }),
            r == (old(self)@.loaded(views(graveyard.sessions@), now_ms).len()
                != graveyard.sessions@.len()),
    {
        broadcast use group_views;

        let ghost start = self@;
        let mut rest = graveyard.sessions;
        let ghost cs = views(rest@);
        let loaded: usize = rest.len();
        // Filter, walking the list from its end.
        let mut reversed: Vec<PersistedClosedSession> = Vec::new();
        proof {
            assert(cs.take(cs.len() as int) =~= cs);
            assert(views(reversed@).reverse() =~= Seq::<ClosedView>::empty());
            assert(start.loadable(cs, now_ms) + Seq::<ClosedView>::empty() =~= start.loadable(
                cs,
                now_ms,
            ));
        }
        while rest.len() > 0
            invariant
                self@ == start,
                rest@.len() <= cs.len(),
                views(rest@) == cs.take(rest@.len() as int),
                start.loadable(cs, now_ms) == start.loadable(views(rest@), now_ms) + views(
                    reversed@,
                ).reverse(),
            decreases rest@.len(),
        {
            let ghost before = views(rest@);
            let ghost old_rest = rest@;
            let ghost old_reversed = views(reversed@);
            let last = rest.pop();
            proof {
                assert(rest@ =~= old_rest.drop_last());
                assert(views(rest@) =~= before.drop_last());
                assert(views(rest@) =~= cs.take(rest@.len() as int));
                assert(before.last() == old_rest.last()@);
            }
            if let Some(c) = last {
                let live = self.session_position(c.session.meta.word_id.as_str()).is_some();
                let old = is_expired(c.closed_at_ms, self.closed_session_ttl_ms, now_ms);
                if !live && !old {
                    reversed.push(c);
                    proof {
                        assert(views(reversed@).reverse() =~= seq![before.last()]
                            + old_reversed.reverse());
                        assert(start.loadable(before, now_ms) + old_reversed.reverse()
                            =~= start.loadable(views(rest@), now_ms) + views(reversed@).reverse());
                    }
                } else {
                    assert(start.loadable(before, now_ms) == start.loadable(views(rest@), now_ms));
                }
            }
        }
        let ghost kept = start.loadable(cs, now_ms);
        assert(start.loadable(views(rest@), now_ms) =~= Seq::<ClosedView>::empty());
        assert(kept =~= views(reversed@).reverse());
        // Back into the order of the list.
        let mut list: Vec<PersistedClosedSession> = Vec::new();
        let mut keys: Vec<u64> = Vec::new();
        let ghost rev = views(reversed@);
        while reversed.len() > 0
            invariant
                kept == rev.reverse(),
                list@.len() + reversed@.len() == rev.len(),
                views(reversed@) == rev.take(reversed@.len() as int),
                views(list@) == kept.take(list@.len() as int),
                keys@ == age_keys(kept.take(list@.len() as int)),
            decreases reversed@.len(),
        {
            let ghost before = reversed@;
            let last = reversed.pop();
            proof {
                assert(reversed@ =~= before.drop_last());
                assert(views(reversed@) =~= rev.take(reversed@.len() as int));
                assert(before.last()@ == views(before)[before.len() - 1]);
                assert(kept[list@.len() as int] == before.last()@);
            }
            if let Some(c) = last {
                let ghost m = list@.len();
                keys.push(c.closed_at_ms);
                list.push(c);
                proof {
                    assert(views(list@) =~= kept.take(m as int + 1));
                    assert(keys@ =~= age_keys(kept.take(m as int + 1)));
                }
            }
        }
        proof {
            assert(kept.take(kept.len() as int) =~= kept);
        }
        let order = sorted_order(&keys);
        proof {
            lemma_order_distinct(keys@, order@);
        }
        let ghost unsorted = list@;
        let mut sorted = arrange(list, &order);
        let ghost all = arranged(kept, stable_order(age_keys(kept)));
        assert(views(sorted@) =~= all);
        let keep: usize = self.closed_session_keep;
        let ghost mut dropped: int = 0;
        assert(all.skip(0) =~= all);
        while sorted.len() > keep
            invariant
                0 <= dropped <= excess(all.len(), keep),
                views(sorted@) == all.skip(dropped),
            decreases sorted@.len(),
        {
            assert(views(sorted@).len() == sorted@.len());
            let ghost had = views(sorted@);
            let _gone = sorted.remove(0);
            assert(views(sorted@) =~= had.remove(0));
            proof {
                assert(views(sorted@) =~= all.skip(dropped + 1));
                dropped = dropped + 1;
            }
        }
        assert(views(sorted@).len() == sorted@.len());
        let ghost result = start.loaded(cs, now_ms);
        assert(views(sorted@) == result);
        let mut i: usize = 0;
        assert(words_of(result).take(0).len() == 0);
        while i < sorted.len()
            invariant
                0 <= i <= sorted@.len(),
                views(sorted@) == result,
                self@ == (AppView {
                    used_words: all_reserved(start.used_words, words_of(result).take(i as int)),
                    ..start
                }),
            decreases sorted@.len() - i,
        {
            proof {
                let next = words_of(result).take(i as int + 1);
                assert(next.drop_last() =~= words_of(result).take(i as int));
                assert(result[i as int] == sorted@[i as int]@);
                assert(next.last() == sorted@[i as int]@.word());
            }
            let _free = self.reserve_word(sorted[i].session.meta.word_id.as_str());
            i = i + 1;
        }
        assert(words_of(result).take(result.len() as int) =~= words_of(result));
        let changed = sorted.len() != loaded;
        self.closed_sessions = sorted;
        changed
    }
}

} // verus!
