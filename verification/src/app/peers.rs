//! Peer daemons, and the sessions they host: shown here under words of this daemon's own, so that
//! what a client does with them is passed on to the peer.

use super::graveyard::{all_released, lemma_all_released, lemma_reserved};
use super::{is_hosted, is_session, reserved, session_at, AppView, ServerApp};
use crate::list::{
    first_where, group_views, lemma_first_where, lemma_first_where_is, lemma_first_where_none,
};
use crate::protocol::{SessionEntry, SessionEntryView};
use crate::text::{
    is_text, lemma_is_text, pane_id_parts, parse_pane_id, same_text, views, with_text, without_text,
};
use vstd::prelude::*;

verus! {

/// Those of some sessions that a peer hosts (`own`), or those that it does not.
pub open spec fn hosted(entries: Seq<SessionEntryView>, peer: Seq<char>, own: bool) -> Seq<
    SessionEntryView,
>
    decreases entries.len(),
{
    if entries.len() == 0 {
        Seq::empty()
    } else {
        let rest = hosted(entries.drop_last(), peer, own);
        if (entries.last().peer == Some(peer)) == own {
            rest.push(entries.last())
        } else {
            rest
        }
    }
}

/// The words of some sessions.
pub open spec fn entry_words(entries: Seq<SessionEntryView>) -> Seq<Seq<char>> {
    Seq::new(entries.len(), |i: int| entries[i].meta.word_id)
}

impl AppView {
    /// Whether a word names a session that a peer hosts.
    pub open spec fn is_proxied(self, word: Seq<char>) -> bool {
        exists|i: int|
            0 <= i < self.proxied.len() && (#[trigger] self.proxied[i]).meta.word_id == word
    }

    /// Whether a pane id names a pane of a session that a peer hosts.
    pub open spec fn is_proxied_pane(self, pane_id: Seq<char>) -> bool {
        match pane_id_parts(pane_id) {
            Some((word, _)) => self.is_proxied(word),
            None => false,
        }
    }

    /// The state once a session of a peer is shown here.
    pub open spec fn surfaced(self, peer: Seq<char>, entry: SessionEntryView) -> AppView {
        AppView {
            used_words: reserved(self.used_words, entry.meta.word_id),
            proxied: self.proxied.push(SessionEntryView { peer: Some(peer), ..entry }),
            ..self
        }
    }

    /// The state once several sessions of a peer are.
    pub open spec fn all_surfaced(self, peer: Seq<char>, entries: Seq<SessionEntryView>) -> AppView
        decreases entries.len(),
    {
        if entries.len() == 0 {
            self
        } else {
            self.all_surfaced(peer, entries.drop_last()).surfaced(peer, entries.last())
        }
    }

    /// The state once a peer is connected, with the sessions it hosts.
    pub open spec fn peer_opened(self, peer: Seq<char>, entries: Seq<SessionEntryView>) -> AppView {
        AppView { peers: with_text(self.peers, peer), ..self }.all_surfaced(peer, entries)
    }

    /// The state without a peer: its sessions are gone, and their words are free.
    pub open spec fn peer_closed(self, peer: Seq<char>) -> AppView {
        AppView {
            peers: without_text(self.peers, peer),
            proxied: hosted(self.proxied, peer, false),
            used_words: all_released(
                self.used_words,
                entry_words(hosted(self.proxied, peer, true)),
            ),
            ..self
        }
    }
}

// ─── Proofs ──────────────────────────────────────────────────────────────────

/// Where an entry stands among those that a peer hosts, or does not host, it stands in the whole
/// list too, and the order is kept.
proof fn lemma_hosted(entries: Seq<SessionEntryView>, peer: Seq<char>, own: bool)
    ensures
        forall|k: int|
            0 <= k < hosted(entries, peer, own).len() ==> entries.contains(
                #[trigger] hosted(entries, peer, own)[k],
            ) && (hosted(entries, peer, own)[k].peer == Some(peer)) == own,
        forall|i: int|
            0 <= i < entries.len() && ((#[trigger] entries[i]).peer == Some(peer)) == own
                ==> hosted(entries, peer, own).contains(entries[i]),
    decreases entries.len(),
{
    if entries.len() > 0 {
        let init = entries.drop_last();
        let n = entries.len() - 1;
        lemma_hosted(init, peer, own);
        let q = hosted(init, peer, own);
        let r = hosted(entries, peer, own);
        assert forall|k: int| 0 <= k < r.len() implies entries.contains(#[trigger] r[k]) && (
        r[k].peer == Some(peer)) == own by {
            if k < q.len() {
                assert(init.contains(q[k]));
                let m = choose|m: int| 0 <= m < init.len() && init[m] == q[k];
                assert(entries[m] == r[k]);
            } else {
                assert(entries[n] == r[k]);
            }
        }
        assert forall|i: int|
            0 <= i < entries.len() && ((#[trigger] entries[i]).peer == Some(peer))
                == own implies r.contains(entries[i]) by {
            if i < n {
                assert(init[i] == entries[i]);
                assert(q.contains(init[i]));
                let m = choose|m: int| 0 <= m < q.len() && q[m] == init[i];
                assert(r[m] == entries[i]);
            } else {
                assert(r[r.len() - 1] == entries[i]);
            }
        }
    }
}

/// Choosing among sessions of different words gives sessions of different words.
proof fn lemma_hosted_distinct(entries: Seq<SessionEntryView>, peer: Seq<char>, own: bool)
    requires
        forall|i: int, j: int|
            0 <= i < j < entries.len() ==> (#[trigger] entries[i]).meta.word_id != (
            #[trigger] entries[j]).meta.word_id,
    ensures
        forall|i: int, j: int|
            0 <= i < j < hosted(entries, peer, own).len() ==> (
            #[trigger] hosted(entries, peer, own)[i]).meta.word_id != (
            #[trigger] hosted(entries, peer, own)[j]).meta.word_id,
    decreases entries.len(),
{
    if entries.len() > 0 {
        let init = entries.drop_last();
        let n = entries.len() - 1;
        assert forall|i: int, j: int| 0 <= i < j < init.len() implies (
        #[trigger] init[i]).meta.word_id != (#[trigger] init[j]).meta.word_id by {
            assert(entries[i].meta.word_id != entries[j].meta.word_id);
        }
        lemma_hosted_distinct(init, peer, own);
        lemma_hosted(init, peer, own);
        let q = hosted(init, peer, own);
        let r = hosted(entries, peer, own);
        assert forall|i: int, j: int| 0 <= i < j < r.len() implies (#[trigger] r[i]).meta.word_id
            != (#[trigger] r[j]).meta.word_id by {
            if j < q.len() {
                assert(q[i].meta.word_id != q[j].meta.word_id);
            } else {
                assert(init.contains(q[i]));
                let m = choose|m: int| 0 <= m < init.len() && init[m] == q[i];
                assert(entries[m].meta.word_id != entries[n].meta.word_id);
            }
        }
    }
}

/// No pane of a peer's session is one of this daemon's own: where a message goes depends on the
/// pane alone.
pub proof fn law_proxied_panes_are_elsewhere(a: AppView, pane_id: Seq<char>)
    requires
        a.wf(),
        a.is_proxied_pane(pane_id),
    ensures
        a.find_pane(pane_id) is None,
{
    let (word, _) = pane_id_parts(pane_id)->0;
    let i = choose|i: int|
        0 <= i < a.proxied.len() && (#[trigger] a.proxied[i]).meta.word_id == word;
    lemma_first_where(a.sessions, is_session(word));
    if let Some(s) = session_at(a.sessions, word) {
        assert(a.sessions[s].meta.word_id != a.proxied[i].meta.word_id);
    }
}

/// Showing a session of a connected peer under a free word keeps the state well formed: it
/// collides with none of this daemon's own sessions and with none of another peer's.
pub proof fn law_surfacing_keeps_wf(a: AppView, peer: Seq<char>, entry: SessionEntryView)
    requires
        a.wf(),
        a.peers.contains(peer),
        !a.used_words.contains(entry.meta.word_id),
    ensures
        a.surfaced(peer, entry).wf(),
        a.surfaced(peer, entry).is_proxied(entry.meta.word_id),
{
    let r = a.surfaced(peer, entry);
    let n = a.proxied.len() as int;
    let w = entry.meta.word_id;
    lemma_reserved(a.used_words, w);
    assert(r.proxied[n].meta.word_id == w);
    assert forall|i: int| 0 <= i < r.proxied.len() implies r.used_words.contains(
        (#[trigger] r.proxied[i]).meta.word_id,
    ) && is_hosted(r.proxied[i], r.peers) by {
        if i < n {
            assert(r.proxied[i] == a.proxied[i]);
            assert(is_hosted(a.proxied[i], a.peers));
        }
    }
    assert forall|i: int, j: int| 0 <= i < j < r.proxied.len() implies (
    #[trigger] r.proxied[i]).meta.word_id != (#[trigger] r.proxied[j]).meta.word_id by {
        assert(r.proxied[i] == a.proxied[i]);
        if j < n {
            assert(r.proxied[j] == a.proxied[j]);
        } else {
            assert(a.used_words.contains(a.proxied[i].meta.word_id));
        }
    }
    assert forall|i: int, j: int| 0 <= i < r.sessions.len() && 0 <= j < r.proxied.len() implies (
    #[trigger] r.sessions[i]).meta.word_id != (#[trigger] r.proxied[j]).meta.word_id by {
        assert(a.used_words.contains(a.sessions[i].meta.word_id));
        if j < n {
            assert(r.proxied[j] == a.proxied[j]);
        }
    }
    assert forall|i: int, j: int| 0 <= i < r.closed_sessions.len() && 0 <= j < r.proxied.len()
        implies (#[trigger] r.closed_sessions[i]).word() != (
    #[trigger] r.proxied[j]).meta.word_id by {
        assert(a.used_words.contains(a.closed_sessions[i].word()));
        if j < n {
            assert(r.proxied[j] == a.proxied[j]);
        }
    }
    assert forall|i: int| 0 <= i < r.sessions.len() implies r.used_words.contains(
        (#[trigger] r.sessions[i]).meta.word_id,
    ) by {
        assert(a.used_words.contains(a.sessions[i].meta.word_id));
    }
    assert forall|i: int| 0 <= i < r.closed_sessions.len() implies r.used_words.contains(
        (#[trigger] r.closed_sessions[i]).word(),
    ) by {
        assert(a.used_words.contains(a.closed_sessions[i].word()));
    }
}

/// Whether sessions have words that are free, and no two the same.
pub open spec fn all_free(a: AppView, entries: Seq<SessionEntryView>) -> bool {
    &&& forall|i: int|
        0 <= i < entries.len() ==> !a.used_words.contains((#[trigger] entries[i]).meta.word_id)
    &&& forall|i: int, j: int|
        0 <= i < j < entries.len() ==> (#[trigger] entries[i]).meta.word_id != (
        #[trigger] entries[j]).meta.word_id
}

/// Connecting to a peer whose sessions get free words keeps the state well formed.
pub proof fn law_opening_a_peer_keeps_wf(
    a: AppView,
    peer: Seq<char>,
    entries: Seq<SessionEntryView>,
)
    requires
        a.wf(),
        all_free(a, entries),
    ensures
        a.peer_opened(peer, entries).wf(),
        a.peer_opened(peer, entries).peers.contains(peer),
{
    let b = AppView { peers: with_text(a.peers, peer), ..a };
    assert(b.peers.contains(peer)) by {
        if !a.peers.contains(peer) {
            assert(b.peers[a.peers.len() as int] == peer);
        }
    }
    assert forall|i: int| 0 <= i < b.proxied.len() implies is_hosted(
        #[trigger] b.proxied[i],
        b.peers,
    ) by {
        assert(is_hosted(a.proxied[i], a.peers));
        let p = a.proxied[i].peer->0;
        let k = choose|k: int| 0 <= k < a.peers.len() && a.peers[k] == p;
        assert(b.peers[k] == p);
    }
    lemma_all_surfaced(b, peer, entries);
}

proof fn lemma_all_surfaced(b: AppView, peer: Seq<char>, entries: Seq<SessionEntryView>)
    requires
        b.wf(),
        b.peers.contains(peer),
        all_free(b, entries),
    ensures
        b.all_surfaced(peer, entries).wf(),
        b.all_surfaced(peer, entries).peers == b.peers,
        forall|w: Seq<char>| #[trigger]
            b.all_surfaced(peer, entries).used_words.contains(w) <==> b.used_words.contains(w)
                || entry_words(entries).contains(w),
    decreases entries.len(),
{
    let r = b.all_surfaced(peer, entries);
    if entries.len() == 0 {
        assert(entry_words(entries).len() == 0);
    } else {
        let init = entries.drop_last();
        let n = entries.len() - 1;
        assert forall|i: int| 0 <= i < init.len() implies !b.used_words.contains(
            (#[trigger] init[i]).meta.word_id,
        ) by {
            assert(init[i] == entries[i]);
        }
        assert forall|i: int, j: int| 0 <= i < j < init.len() implies (
        #[trigger] init[i]).meta.word_id != (#[trigger] init[j]).meta.word_id by {
            assert(entries[i].meta.word_id != entries[j].meta.word_id);
        }
        lemma_all_surfaced(b, peer, init);
        let q = b.all_surfaced(peer, init);
        let w = entries[n].meta.word_id;
        if entry_words(init).contains(w) {
            let k = choose|k: int| 0 <= k < init.len() && entry_words(init)[k] == w;
            assert(entries[k].meta.word_id != entries[n].meta.word_id);
        }
        assert(!b.used_words.contains(entries[n].meta.word_id));
        law_surfacing_keeps_wf(q, peer, entries[n]);
        lemma_reserved(q.used_words, w);
        assert forall|x: Seq<char>| entry_words(entries).contains(x) <==> entry_words(
            init,
        ).contains(x) || x == w by {
            if entry_words(entries).contains(x) {
                let k = choose|k: int| 0 <= k < entries.len() && entry_words(entries)[k] == x;
                if k < n {
                    assert(entry_words(init)[k] == x);
                }
            }
            if entry_words(init).contains(x) {
                let k = choose|k: int| 0 <= k < init.len() && entry_words(init)[k] == x;
                assert(entry_words(entries)[k] == x);
            }
            assert(entry_words(entries)[n] == w);
        }
    }
}

/// Dropping a peer keeps the state well formed: exactly its sessions are gone, and their words are
/// free for others.
pub proof fn law_closing_a_peer_frees_its_words(a: AppView, peer: Seq<char>)
    requires
        a.wf(),
    ensures
        a.peer_closed(peer).wf(),
        forall|i: int|
            0 <= i < a.proxied.len() ==> {
                let e = #[trigger] a.proxied[i];
                if e.peer == Some(peer) {
                    &&& !a.peer_closed(peer).is_proxied(e.meta.word_id)
                    &&& !a.peer_closed(peer).used_words.contains(e.meta.word_id)
                } else {
                    &&& a.peer_closed(peer).proxied.contains(e)
                    &&& a.peer_closed(peer).used_words.contains(e.meta.word_id)
                }
            },
{
    let r = a.peer_closed(peer);
    let own = hosted(a.proxied, peer, true);
    let gone = entry_words(own);
    lemma_hosted(a.proxied, peer, true);
    lemma_hosted(a.proxied, peer, false);
    lemma_hosted_distinct(a.proxied, peer, false);
    lemma_all_released(a.used_words, gone);
    // A freed word is one of the peer's, hence nobody else's.
    assert forall|w: Seq<char>| gone.contains(w) implies exists|m: int|
        0 <= m < a.proxied.len() && (#[trigger] a.proxied[m]).meta.word_id == w
            && a.proxied[m].peer == Some(peer) by {
        let k = choose|k: int| 0 <= k < gone.len() && gone[k] == w;
        assert(a.proxied.contains(own[k]));
        let m = choose|m: int| 0 <= m < a.proxied.len() && a.proxied[m] == own[k];
        assert(a.proxied[m].meta.word_id == w);
    }
    assert forall|i: int| 0 <= i < r.sessions.len() implies r.used_words.contains(
        (#[trigger] r.sessions[i]).meta.word_id,
    ) by {
        assert(a.used_words.contains(a.sessions[i].meta.word_id));
    }
    assert forall|i: int| 0 <= i < r.closed_sessions.len() implies r.used_words.contains(
        (#[trigger] r.closed_sessions[i]).word(),
    ) by {
        assert(a.used_words.contains(a.closed_sessions[i].word()));
    }
    assert forall|i: int| 0 <= i < a.proxied.len() implies (gone.contains(
        (#[trigger] a.proxied[i]).meta.word_id,
    ) <==> a.proxied[i].peer == Some(peer)) by {
        let e = a.proxied[i];
        if e.peer == Some(peer) {
            assert(own.contains(e));
            let k = choose|k: int| 0 <= k < own.len() && own[k] == e;
            assert(gone[k] == e.meta.word_id);
        }
        if gone.contains(e.meta.word_id) {
            let m = choose|m: int|
                0 <= m < a.proxied.len() && (#[trigger] a.proxied[m]).meta.word_id
                    == e.meta.word_id && a.proxied[m].peer == Some(peer);
            if m < i {
                assert(a.proxied[m].meta.word_id != a.proxied[i].meta.word_id);
            } else if i < m {
                assert(a.proxied[i].meta.word_id != a.proxied[m].meta.word_id);
            }
        }
    }
    lemma_is_text(a.peers, peer);
    lemma_first_where(a.peers, is_text(peer));
    assert forall|j: int| 0 <= j < r.proxied.len() implies r.used_words.contains(
        (#[trigger] r.proxied[j]).meta.word_id,
    ) && is_hosted(r.proxied[j], r.peers) by {
        assert(a.proxied.contains(r.proxied[j]));
        let m = choose|m: int| 0 <= m < a.proxied.len() && a.proxied[m] == r.proxied[j];
        assert(a.used_words.contains(a.proxied[m].meta.word_id));
        assert(is_hosted(a.proxied[m], a.peers));
        let p = a.proxied[m].peer->0;
        let k = choose|k: int| 0 <= k < a.peers.len() && a.peers[k] == p;
        if let Some(i) = first_where(a.peers, is_text(peer)) {
            if k < i {
                assert(r.peers[k] == p);
            } else {
                assert(r.peers[k - 1] == p);
            }
        }
    }
    assert forall|i: int, j: int| 0 <= i < r.sessions.len() && 0 <= j < r.proxied.len() implies (
    #[trigger] r.sessions[i]).meta.word_id != (#[trigger] r.proxied[j]).meta.word_id by {
        assert(a.proxied.contains(r.proxied[j]));
        let m = choose|m: int| 0 <= m < a.proxied.len() && a.proxied[m] == r.proxied[j];
        assert(a.sessions[i].meta.word_id != a.proxied[m].meta.word_id);
    }
    assert forall|i: int, j: int| 0 <= i < r.closed_sessions.len() && 0 <= j < r.proxied.len()
        implies (#[trigger] r.closed_sessions[i]).word() != (
    #[trigger] r.proxied[j]).meta.word_id by {
        assert(a.proxied.contains(r.proxied[j]));
        let m = choose|m: int| 0 <= m < a.proxied.len() && a.proxied[m] == r.proxied[j];
        assert(a.closed_sessions[i].word() != a.proxied[m].meta.word_id);
    }
    assert forall|i: int| 0 <= i < a.proxied.len() implies {
        let e = #[trigger] a.proxied[i];
        if e.peer == Some(peer) {
            &&& !r.is_proxied(e.meta.word_id)
            &&& !r.used_words.contains(e.meta.word_id)
        } else {
            &&& r.proxied.contains(e)
            &&& r.used_words.contains(e.meta.word_id)
        }
    } by {
        let e = a.proxied[i];
        assert(a.used_words.contains(e.meta.word_id));
        if e.peer == Some(peer) && r.is_proxied(e.meta.word_id) {
            let j = choose|j: int|
                0 <= j < r.proxied.len() && (#[trigger] r.proxied[j]).meta.word_id
                    == e.meta.word_id;
            assert(r.used_words.contains(r.proxied[j].meta.word_id));
        }
    }
}

/// Dropping a peer that is not connected changes nothing.
pub proof fn law_closing_an_unknown_peer_changes_nothing(a: AppView, peer: Seq<char>)
    requires
        a.wf(),
        !a.peers.contains(peer),
    ensures
        a.peer_closed(peer) == a,
{
    lemma_is_text(a.peers, peer);
    assert forall|i: int| 0 <= i < a.proxied.len() implies (#[trigger] a.proxied[i]).peer != Some(
        peer,
    ) by {
        assert(is_hosted(a.proxied[i], a.peers));
    }
    lemma_none_hosted(a.proxied, peer);
    assert(entry_words(hosted(a.proxied, peer, true)).len() == 0);
}

proof fn lemma_none_hosted(entries: Seq<SessionEntryView>, peer: Seq<char>)
    requires
        forall|i: int| 0 <= i < entries.len() ==> (#[trigger] entries[i]).peer != Some(peer),
    ensures
        hosted(entries, peer, true).len() == 0,
        hosted(entries, peer, false) == entries,
    decreases entries.len(),
{
    if entries.len() > 0 {
        let init = entries.drop_last();
        assert forall|i: int| 0 <= i < init.len() implies (#[trigger] init[i]).peer != Some(
            peer,
        ) by {
            assert(entries[i].peer != Some(peer));
        }
        lemma_none_hosted(init, peer);
        assert(entries[entries.len() - 1].peer != Some(peer));
        assert(init.push(entries.last()) =~= entries);
    }
}

// ─── Operations ──────────────────────────────────────────────────────────────

impl ServerApp {
    /// Where a connected peer stands in the list of peers.
    fn peer_position(&self, peer: &str) -> (r: Option<usize>)
        ensures
            match r {
                Some(i) => i < self.peers@.len() && first_where(self@.peers, is_text(peer@))
                    == Some(i as int),
                None => first_where(self@.peers, is_text(peer@)) is None,
            },
            r is Some <==> self@.peers.contains(peer@),
    {
        proof {
            lemma_is_text(self@.peers, peer@);
        }
        let mut i: usize = 0;
        while i < self.peers.len()
            invariant
                0 <= i <= self.peers@.len(),
                forall|j: int| 0 <= j < i ==> !is_text(peer@)(#[trigger] self@.peers[j]),
            decreases self.peers@.len() - i,
        {
            assert(self@.peers[i as int] == self.peers@[i as int]@);
            if same_text(self.peers[i].as_str(), peer) {
                proof {
                    lemma_first_where_is(self@.peers, is_text(peer@), i as int);
                    lemma_is_text(self@.peers, peer@);
                }
                return Some(i);
            }
            i = i + 1;
        }
        proof {
            lemma_first_where_none(self@.peers, is_text(peer@));
            lemma_is_text(self@.peers, peer@);
        }
        None
    }

    /// Whether a peer is connected.
    pub fn has_peer(&self, peer: &str) -> (r: bool)
        ensures
            r == self@.peers.contains(peer@),
    {
        self.peer_position(peer).is_some()
    }

    /// Whether a word names a session that a peer hosts.
    pub fn is_federated_session(&self, word_id: &str) -> (r: bool)
        ensures
            r == self@.is_proxied(word_id@),
    {
        let mut i: usize = 0;
        while i < self.proxied.len()
            invariant
                0 <= i <= self.proxied@.len(),
                forall|j: int|
                    0 <= j < i ==> (#[trigger] self@.proxied[j]).meta.word_id != word_id@,
            decreases self.proxied@.len() - i,
        {
            assert(self@.proxied[i as int] == self.proxied@[i as int]@);
            if same_text(self.proxied[i].meta.word_id.as_str(), word_id) {
                return true;
            }
            i = i + 1;
        }
        false
    }

    /// Whether a pane id names a pane of a session that a peer hosts.
    pub fn is_federated_pane(&self, pane_id: &str) -> (r: bool)
        ensures
            r == self@.is_proxied_pane(pane_id@),
    {
        match parse_pane_id(pane_id) {
            Some((word, _)) => self.is_federated_session(word),
            None => false,
        }
    }

    /// The sessions that peers host, in the order in which they were first shown.
    pub fn list_federated_sessions(&self) -> (r: Vec<SessionEntry>)
        ensures
            views(r@) == self@.proxied,
    {
        let mut r: Vec<SessionEntry> = Vec::new();
        let mut i: usize = 0;
        while i < self.proxied.len()
            invariant
                0 <= i <= self.proxied@.len(),
                r@.len() == i,
                forall|j: int| 0 <= j < i ==> (#[trigger] r@[j])@ == self@.proxied[j],
            decreases self.proxied@.len() - i,
        {
            r.push(self.proxied[i].copy());
            i = i + 1;
        }
        assert(views(r@) =~= self@.proxied);
        r
    }

    /// Show a session of a peer here. Its word was drawn from this daemon's free ones.
    pub fn surface_session(&mut self, peer: &str, entry: SessionEntry)
        ensures
            final(self)@ == old(self)@.surfaced(peer@, entry@),
            old(self)@.wf() && old(self)@.peers.contains(peer@) && !old(
                self,
            )@.used_words.contains(entry@.meta.word_id) ==> final(self)@.wf(),
    {
        broadcast use group_views;

        proof {
            if self@.wf() && self@.peers.contains(peer@) && !self@.used_words.contains(
                entry@.meta.word_id,
            ) {
                law_surfacing_keeps_wf(self@, peer@, entry@);
            }
        }
        let _free = self.reserve_word(entry.meta.word_id.as_str());
        let mut shown = entry;
        shown.peer = Some(peer.to_owned());
        self.proxied.push(shown);
    }

    /// A peer is connected, and its sessions are shown here.
    pub fn note_peer(&mut self, peer: &str, sessions: Vec<SessionEntry>)
        ensures
            final(self)@ == old(self)@.peer_opened(peer@, views(sessions@)),
    {
        broadcast use group_views;

        if !self.has_peer(peer) {
            self.peers.push(peer.to_owned());
        }
        let ghost start = self@;
        let ghost all = views(sessions@);
        let mut rest = sessions;
        let ghost mut n: int = 0;
        assert(all.take(0) =~= Seq::<SessionEntryView>::empty());
        assert(all.skip(0) =~= all);
        while rest.len() > 0
            invariant
                0 <= n <= all.len(),
                views(rest@) == all.skip(n),
                self@ == start.all_surfaced(peer@, all.take(n)),
            decreases rest@.len(),
        {
            let ghost had = rest@;
            let ghost next = all.take(n + 1);
            let entry = rest.remove(0);
            proof {
                assert(views(had).len() == all.skip(n).len());
                assert(views(had)[0] == all.skip(n)[0]);
                assert(next.drop_last() =~= all.take(n));
                assert(next.last() == entry@);
                assert(views(rest@) =~= all.skip(n + 1)) by {
                    assert forall|k: int| 0 <= k < rest@.len() implies views(rest@)[k]
                        == #[trigger] all.skip(n + 1)[k] by {
                        assert(rest@[k] == had[k + 1]);
                        assert(views(had)[k + 1] == all.skip(n)[k + 1]);
                    }
                }
            }
            self.surface_session(peer, entry);
            proof {
                n = n + 1;
            }
        }
        assert(all.take(n) =~= all);
    }

    /// Drop a peer, if it is connected, with its sessions.
    pub fn close_peer(&mut self, peer: &str)
        ensures
            final(self)@ == old(self)@.peer_closed(peer@),
            old(self)@.wf() ==> final(self)@.wf(),
    {
        broadcast use group_views;

        let ghost start = self@;
        proof {
            if start.wf() {
                law_closing_a_peer_frees_its_words(start, peer@);
            }
        }
        if let Some(i) = self.peer_position(peer) {
            let ghost had = self@.peers;
            let _gone = self.peers.remove(i);
            assert(self@.peers =~= had.remove(i as int));
        }
        let mut list: Vec<SessionEntry> = Vec::new();
        std::mem::swap(&mut list, &mut self.proxied);
        let ghost all = views(list@);
        let mut kept: Vec<SessionEntry> = Vec::new();
        let mut freed: Vec<String> = Vec::new();
        let ghost mut n: int = 0;
        proof {
            assert(all.take(0) =~= Seq::<SessionEntryView>::empty());
            assert(all.skip(0) =~= all);
            assert(views(kept@) =~= Seq::<SessionEntryView>::empty());
            assert(views(freed@) =~= entry_words(Seq::<SessionEntryView>::empty()));
        }
        while list.len() > 0
            invariant
                0 <= n <= all.len(),
                views(list@) == all.skip(n),
                views(kept@) == hosted(all.take(n), peer@, false),
                views(freed@) == entry_words(hosted(all.take(n), peer@, true)),
            decreases list@.len(),
        {
            let ghost had = list@;
            let ghost next = all.take(n + 1);
            let entry = list.remove(0);
            proof {
                assert(views(had).len() == all.skip(n).len());
                assert(views(had)[0] == all.skip(n)[0]);
                assert(next.drop_last() =~= all.take(n));
                assert(next.last() == entry@);
                assert(views(list@) =~= all.skip(n + 1)) by {
                    assert forall|k: int| 0 <= k < list@.len() implies views(list@)[k]
                        == #[trigger] all.skip(n + 1)[k] by {
                        assert(list@[k] == had[k + 1]);
                        assert(views(had)[k + 1] == all.skip(n)[k + 1]);
                    }
                }
            }
            let own = match &entry.peer {
                Some(p) => same_text(p.as_str(), peer),
                None => false,
            };
            assert(own == (entry@.peer == Some(peer@)));
            let ghost before = hosted(all.take(n), peer@, true);
            if own {
                freed.push(entry.meta.word_id.clone());
                assert(entry_words(before.push(entry@)) =~= entry_words(before).push(
                    entry@.meta.word_id,
                ));
            } else {
                kept.push(entry);
            }
            proof {
                n = n + 1;
            }
        }
        assert(all.take(n) =~= all);
        self.proxied = kept;
        self.release_words(&freed);
    }

    /// Drop every peer, as the daemon shuts down. The words of their sessions stay in use.
    pub fn close_all_peers(&mut self)
        ensures
            final(self)@ == (AppView { peers: Seq::empty(), proxied: Seq::empty(), ..old(self)@ }),
            old(self)@.wf() ==> final(self)@.wf(),
    {
        self.peers = Vec::new();
        self.proxied = Vec::new();
        assert(self@.peers =~= Seq::empty());
        assert(self@.proxied =~= Seq::empty());
    }
}

} // verus!
