//! The daemon's state: its sessions, its client connections, the words that name sessions, and
//! the closed sessions that can still be restored.

use crate::config::{CompressionConfig, CompressionMode};
use crate::connection::{ConnectionState, ConnectionView};
use crate::list::{
    first_where, group_views, lemma_first_where, lemma_first_where_is, lemma_first_where_none,
};
use crate::pane::{distinct_clients, PaneRelay, PaneView};
use crate::persist::{ClosedView, PersistedClosedSession};
use crate::protocol::{SessionEntry, SessionEntryView};
use crate::session::{is_pane, pane_at, SessionState, SessionView};
use crate::session_laws::lemma_pane_update_keeps_wf;
use crate::text::{pane_id_parts, parse_pane_id, same_text, views};
use vstd::prelude::*;

pub mod attach;
pub mod client_laws;
pub mod clients;
pub mod crud;
pub mod graveyard;
pub mod io;
pub mod laws;
pub mod peers;
pub mod persistence;
pub mod recover;
pub mod restart;
pub mod restore;
pub mod restore_laws;
pub mod spawn;
pub mod tabs;

verus! {

/// Maximum number of active sessions per daemon.
pub const MAX_SESSIONS: usize = 1000;

/// Inputs that may wait for one pane's child process.
pub const INPUT_QUEUE_CAPACITY: usize = 256;

/// Closed sessions kept for restoring, unless configured otherwise.
pub const DEFAULT_CLOSED_SESSION_KEEP: usize = 100;

/// Recent restarts of one pane's worker process.
#[derive(Debug)]
pub struct RestartLog {
    pub pane_id: String,
    /// Monotonic times of the restarts, in milliseconds.
    pub times_ms: Vec<u64>,
}

pub struct RestartView {
    pub pane_id: Seq<char>,
    pub times_ms: Seq<u64>,
}

impl View for RestartLog {
    type V = RestartView;

    open spec fn view(&self) -> RestartView {
        RestartView { pane_id: self.pane_id@, times_ms: self.times_ms@ }
    }
}

/// Shared server state.
#[derive(Debug)]
pub struct ServerApp {
    pub auth_token: String,
    /// Wire compression policy.
    pub compression: CompressionConfig,
    pub sessions: Vec<SessionState>,
    /// Creation order of the next session.
    pub session_index_counter: u32,
    pub next_client_id: u64,
    pub next_connection_id: u64,
    pub connections: Vec<ConnectionState>,
    /// Words that name a live or a restorable session.
    pub used_words: Vec<String>,
    /// Closed sessions, oldest first.
    pub closed_sessions: Vec<PersistedClosedSession>,
    /// How many closed sessions to keep.
    pub closed_session_keep: usize,
    /// How long to keep them, in milliseconds; 0 = forever.
    pub closed_session_ttl_ms: u64,
    pub restarts: Vec<RestartLog>,
    /// Identity of the machine the daemon runs on; empty = unknown.
    pub server_machine_id: String,
    /// Peer daemons that are connected.
    pub peers: Vec<String>,
    /// Sessions that peers host, under words of this daemon's own.
    pub proxied: Vec<SessionEntry>,
}

pub struct AppView {
    pub auth_token: Seq<char>,
    pub compression: CompressionConfig,
    pub sessions: Seq<SessionView>,
    pub session_index_counter: u32,
    pub next_client_id: u64,
    pub next_connection_id: u64,
    pub connections: Seq<ConnectionView>,
    pub used_words: Seq<Seq<char>>,
    pub closed_sessions: Seq<ClosedView>,
    pub closed_session_keep: usize,
    pub closed_session_ttl_ms: u64,
    pub restarts: Seq<RestartView>,
    pub server_machine_id: Seq<char>,
    pub peers: Seq<Seq<char>>,
    pub proxied: Seq<SessionEntryView>,
}

impl View for ServerApp {
    type V = AppView;

    open spec fn view(&self) -> AppView {
        AppView {
            auth_token: self.auth_token@,
            compression: self.compression,
            sessions: views(self.sessions@),
            session_index_counter: self.session_index_counter,
            next_client_id: self.next_client_id,
            next_connection_id: self.next_connection_id,
            connections: views(self.connections@),
            used_words: views(self.used_words@),
            closed_sessions: views(self.closed_sessions@),
            closed_session_keep: self.closed_session_keep,
            closed_session_ttl_ms: self.closed_session_ttl_ms,
            restarts: views(self.restarts@),
            server_machine_id: self.server_machine_id@,
            peers: views(self.peers@),
            proxied: views(self.proxied@),
        }
    }
}

/// Recognizes a session by its word.
pub open spec fn is_session(word: Seq<char>) -> spec_fn(SessionView) -> bool {
    |s: SessionView| s.meta.word_id == word
}

/// Where the session of a word stands.
pub open spec fn session_at(sessions: Seq<SessionView>, word: Seq<char>) -> Option<int> {
    first_where(sessions, is_session(word))
}

/// Whether one of some peers hosts a session.
pub open spec fn is_hosted(entry: SessionEntryView, peers: Seq<Seq<char>>) -> bool {
    entry.peer matches Some(p) && peers.contains(p)
}

/// Recognizes a word.
pub open spec fn is_word(word: Seq<char>) -> spec_fn(Seq<char>) -> bool {
    |w: Seq<char>| w == word
}

/// The words in use once `word` is, too.
pub open spec fn reserved(words: Seq<Seq<char>>, word: Seq<char>) -> Seq<Seq<char>> {
    if first_where(words, is_word(word)) is Some {
        words
    } else {
        words.push(word)
    }
}

/// The words in use once `word` is not any more.
pub open spec fn released(words: Seq<Seq<char>>, word: Seq<char>) -> Seq<Seq<char>> {
    match first_where(words, is_word(word)) {
        Some(i) => words.remove(i),
        None => words,
    }
}

impl AppView {
    /// What every operation keeps. Sessions are well formed and named by different words; every
    /// live, every restorable and every proxied session's word is in use, and no word names two
    /// of them; connection and client ids are unique and below the next ones to be assigned.
    pub open spec fn wf(self) -> bool {
        &&& forall|i: int| 0 <= i < self.sessions.len() ==> (#[trigger] self.sessions[i]).wf()
        &&& forall|i: int, j: int|
            0 <= i < j < self.sessions.len() ==> (#[trigger] self.sessions[i]).meta.word_id != (
            #[trigger] self.sessions[j]).meta.word_id
        &&& self.used_words.no_duplicates()
        &&& forall|i: int|
            0 <= i < self.sessions.len() ==> self.used_words.contains(
                (#[trigger] self.sessions[i]).meta.word_id,
            )
        &&& forall|i: int|
            0 <= i < self.closed_sessions.len() ==> self.used_words.contains(
                (#[trigger] self.closed_sessions[i]).word(),
            )
        &&& forall|i: int, j: int|
            0 <= i < j < self.closed_sessions.len() ==> (#[trigger] self.closed_sessions[i]).word()
                != (#[trigger] self.closed_sessions[j]).word()
        &&& forall|i: int, j: int|
            0 <= i < self.sessions.len() && 0 <= j < self.closed_sessions.len() ==> (
            #[trigger] self.sessions[i]).meta.word_id != (
            #[trigger] self.closed_sessions[j]).word()
        &&& forall|i: int|
            0 <= i < self.closed_sessions.len() ==> (
            #[trigger] self.closed_sessions[i]).session.wf()
        &&& self.proxied_wf()
        &&& self.connections_wf()
    }

    pub open spec fn proxied_wf(self) -> bool {
        &&& forall|i: int|
            0 <= i < self.proxied.len() ==> is_hosted(#[trigger] self.proxied[i], self.peers)
        &&& forall|i: int|
            0 <= i < self.proxied.len() ==> self.used_words.contains(
                (#[trigger] self.proxied[i]).meta.word_id,
            )
        &&& forall|i: int, j: int|
            0 <= i < j < self.proxied.len() ==> (#[trigger] self.proxied[i]).meta.word_id != (
            #[trigger] self.proxied[j]).meta.word_id
        &&& forall|i: int, j: int|
            0 <= i < self.sessions.len() && 0 <= j < self.proxied.len() ==> (
            #[trigger] self.sessions[i]).meta.word_id != (#[trigger] self.proxied[j]).meta.word_id
        &&& forall|i: int, j: int|
            0 <= i < self.closed_sessions.len() && 0 <= j < self.proxied.len() ==> (
            #[trigger] self.closed_sessions[i]).word() != (
            #[trigger] self.proxied[j]).meta.word_id
    }

    pub open spec fn connections_wf(self) -> bool {
        &&& forall|i: int, j: int|
            0 <= i < j < self.connections.len() ==> (#[trigger] self.connections[i]).conn_id != (
            #[trigger] self.connections[j]).conn_id && self.connections[i].client_id
                != self.connections[j].client_id
        &&& forall|i: int|
            0 <= i < self.connections.len() ==> (#[trigger] self.connections[i]).conn_id
                < self.next_connection_id && self.connections[i].client_id.0 < self.next_client_id
    }

    /// Where the pane of an id stands: its session's position, and its own in that session.
    pub open spec fn find_pane(self, pane_id: Seq<char>) -> Option<(int, int)> {
        match pane_id_parts(pane_id) {
            Some((word, index)) => match session_at(self.sessions, word) {
                Some(s) => match pane_at(self.sessions[s].panes, index) {
                    Some(p) => Some((s, p)),
                    None => None,
                },
                None => None,
            },
            None => None,
        }
    }

    /// The state with one session replaced.
    pub open spec fn with_session_at(self, s: int, session: SessionView) -> AppView {
        AppView { sessions: self.sessions.update(s, session), ..self }
    }

    /// The state with one pane replaced.
    pub open spec fn with_pane_at(self, s: int, p: int, pane: PaneView) -> AppView {
        self.with_session_at(
            s,
            SessionView {
                panes: self.sessions[s].panes.update(p, pane),
                ..self.sessions[s]
            },
        )
    }

    /// The state with every pane changed in the same way.
    pub open spec fn with_every_pane(self, f: spec_fn(PaneView) -> PaneView) -> AppView {
        AppView { sessions: changed_sessions(self.sessions, f), ..self }
    }
}

/// Sessions with every pane changed in the same way.
pub open spec fn changed_sessions(
    sessions: Seq<SessionView>,
    f: spec_fn(PaneView) -> PaneView,
) -> Seq<SessionView> {
    Seq::new(sessions.len(), |i: int| changed_session(sessions[i], f))
}

/// A session with every pane changed in the same way.
pub open spec fn changed_session(s: SessionView, f: spec_fn(PaneView) -> PaneView) -> SessionView {
    SessionView { panes: Seq::new(s.panes.len(), |i: int| f(s.panes[i])), ..s }
}

/// Replacing a pane by one of the same index, without repeated clients, keeps the state well
/// formed.
pub proof fn lemma_with_pane_keeps_wf(a: AppView, s: int, p: int, pane: PaneView)
    requires
        a.wf(),
        0 <= s < a.sessions.len(),
        0 <= p < a.sessions[s].panes.len(),
        pane.pane_index == a.sessions[s].panes[p].pane_index,
        distinct_clients(pane.clients),
    ensures
        a.with_pane_at(s, p, pane).wf(),
{
    lemma_pane_update_keeps_wf(a.sessions[s], p, pane);
    lemma_with_session_keeps_wf(
        a,
        s,
        SessionView { panes: a.sessions[s].panes.update(p, pane), ..a.sessions[s] },
    );
}

/// Replacing a session by a well-formed one of the same word keeps the state well formed.
pub proof fn lemma_with_session_keeps_wf(a: AppView, s: int, session: SessionView)
    requires
        a.wf(),
        0 <= s < a.sessions.len(),
        session.meta.word_id == a.sessions[s].meta.word_id,
        session.wf(),
    ensures
        a.with_session_at(s, session).wf(),
{
    let r = a.with_session_at(s, session);
    assert(forall|i: int|
        0 <= i < a.sessions.len() ==> (#[trigger] r.sessions[i]).meta.word_id
            == a.sessions[i].meta.word_id);
    assert forall|i: int| 0 <= i < r.sessions.len() implies (#[trigger] r.sessions[i]).wf() by {
        if i != s {
            assert(r.sessions[i] == a.sessions[i]);
        }
    }
}

/// What [`AppView::find_pane`] finds.
pub proof fn lemma_find_pane(a: AppView, pane_id: Seq<char>)
    ensures
        match a.find_pane(pane_id) {
            Some((s, p)) => {
                &&& 0 <= s < a.sessions.len()
                &&& 0 <= p < a.sessions[s].panes.len()
                &&& pane_id_parts(pane_id) == Some(
                    (a.sessions[s].meta.word_id, a.sessions[s].panes[p].pane_index),
                )
            },
            None => true,
        },
{
    if let Some((word, index)) = pane_id_parts(pane_id) {
        lemma_first_where(a.sessions, is_session(word));
        if let Some(s) = session_at(a.sessions, word) {
            lemma_first_where(a.sessions[s].panes, is_pane(index));
        }
    }
}

impl ServerApp {
    /// A daemon without sessions or connections.
    pub fn new(token: String) -> (r: Self)
        ensures
            r@ == (AppView {
                auth_token: token@,
                compression: CompressionConfig {
                    mode: CompressionMode::Auto,
                    level: 3,
                    min_size: 256,
                },
                sessions: Seq::empty(),
                session_index_counter: 0,
                next_client_id: 1,
                next_connection_id: 1,
                connections: Seq::empty(),
                used_words: Seq::empty(),
                closed_sessions: Seq::empty(),
                closed_session_keep: DEFAULT_CLOSED_SESSION_KEEP,
                closed_session_ttl_ms: 0,
                restarts: Seq::empty(),
                server_machine_id: Seq::empty(),
                peers: Seq::empty(),
                proxied: Seq::empty(),
            }),
            r@.wf(),
    {
        let r = ServerApp {
            auth_token: token,
            compression: CompressionConfig::default(),
            sessions: Vec::new(),
            session_index_counter: 0,
            next_client_id: 1,
            next_connection_id: 1,
            connections: Vec::new(),
            used_words: Vec::new(),
            closed_sessions: Vec::new(),
            closed_session_keep: DEFAULT_CLOSED_SESSION_KEEP,
            closed_session_ttl_ms: 0,
            restarts: Vec::new(),
            server_machine_id: String::new(),
            peers: Vec::new(),
            proxied: Vec::new(),
        };
        proof {
            assert(r@.peers =~= Seq::<Seq<char>>::empty());
            assert(r@.proxied =~= Seq::<SessionEntryView>::empty());
            assert(r@.sessions =~= Seq::<SessionView>::empty());
            assert(r@.connections =~= Seq::<ConnectionView>::empty());
            assert(r@.used_words =~= Seq::<Seq<char>>::empty());
            assert(r@.closed_sessions =~= Seq::<ClosedView>::empty());
            assert(r@.restarts =~= Seq::<RestartView>::empty());
        }
        r
    }

    /// Override the wire compression policy.
    pub fn with_compression(self, compression: CompressionConfig) -> (r: Self)
        ensures
            r@ == (AppView { compression, ..self@ }),
    {
        ServerApp { compression, ..self }
    }

    /// Where the session of a word stands.
    pub fn session_position(&self, word_id: &str) -> (r: Option<usize>)
        ensures
            match r {
                Some(i) => i < self.sessions@.len() && session_at(self@.sessions, word_id@) == Some(
                    i as int,
                ),
                None => session_at(self@.sessions, word_id@) is None,
            },
    {
        let mut i: usize = 0;
        while i < self.sessions.len()
            invariant
                0 <= i <= self.sessions@.len(),
                forall|j: int| 0 <= j < i ==> !is_session(word_id@)(#[trigger] self@.sessions[j]),
            decreases self.sessions@.len() - i,
        {
            assert(self@.sessions[i as int] == self.sessions@[i as int]@);
            if same_text(self.sessions[i].meta.word_id.as_str(), word_id) {
                proof {
                    lemma_first_where_is(self@.sessions, is_session(word_id@), i as int);
                }
                return Some(i);
            }
            i = i + 1;
        }
        proof {
            lemma_first_where_none(self@.sessions, is_session(word_id@));
        }
        None
    }

    /// Where the pane of an id stands.
    pub fn pane_position(&self, pane_id: &str) -> (r: Option<(usize, usize)>)
        ensures
            match r {
                Some((s, p)) => {
                    &&& s < self.sessions@.len()
                    &&& p < self.sessions@[s as int].panes@.len()
                    &&& self@.find_pane(pane_id@) == Some((s as int, p as int))
                },
                None => self@.find_pane(pane_id@) is None,
            },
    {
        match parse_pane_id(pane_id) {
            Some((word, index)) => match self.session_position(word) {
                Some(s) => {
                    assert(self@.sessions[s as int] == self.sessions@[s as int]@);
                    match self.sessions[s].pane_position(index) {
                        Some(p) => Some((s, p)),
                        None => None,
                    }
                },
                None => None,
            },
            None => None,
        }
    }

    /// The session at a position, to change it.
    pub fn session_slot(&mut self, s: usize) -> (r: &mut SessionState)
        requires
            s < old(self).sessions@.len(),
        ensures
            *r == old(self).sessions@[s as int],
            final(self)@ == old(self)@.with_session_at(s as int, final(r)@),
    {
        broadcast use group_views;

        &mut self.sessions[s]
    }

    /// The pane at a position, to change it.
    pub fn pane_slot(&mut self, s: usize, p: usize) -> (r: &mut PaneRelay)
        requires
            s < old(self).sessions@.len(),
            p < old(self).sessions@[s as int].panes@.len(),
        ensures
            *r == old(self).sessions@[s as int].panes@[p as int],
            r@ == old(self)@.sessions[s as int].panes[p as int],
            final(self)@ == old(self)@.with_pane_at(s as int, p as int, final(r)@),
    {
        self.session_slot(s).pane_slot(p)
    }

    /// Whether a word names a live or a restorable session.
    pub fn word_in_use(&self, word: &str) -> (r: bool)
        ensures
            r == self@.used_words.contains(word@),
    {
        let mut i: usize = 0;
        while i < self.used_words.len()
            invariant
                0 <= i <= self.used_words@.len(),
                forall|j: int| 0 <= j < i ==> #[trigger] self@.used_words[j] != word@,
            decreases self.used_words@.len() - i,
        {
            assert(self@.used_words[i as int] == self.used_words@[i as int]@);
            if same_text(self.used_words[i].as_str(), word) {
                return true;
            }
            i = i + 1;
        }
        false
    }

    /// Take a word out of the pool. Returns whether it was free.
    pub fn reserve_word(&mut self, word: &str) -> (r: bool)
        ensures
            r == !old(self)@.used_words.contains(word@),
            final(self)@ == (AppView {
                used_words: reserved(old(self)@.used_words, word@),
                ..old(self)@
            }),
    {
        broadcast use group_views;

        proof {
            lemma_word_position(self@.used_words, word@);
        }
        if self.word_in_use(word) {
            false
        } else {
            self.used_words.push(word.to_owned());
            true
        }
    }

    /// Return a word to the pool.
    pub fn release_word(&mut self, word: &str)
        ensures
            final(self)@ == (AppView {
                used_words: released(old(self)@.used_words, word@),
                ..old(self)@
            }),
    {
        broadcast use group_views;

        let mut i: usize = 0;
        let n: usize = self.used_words.len();
        let mut found: Option<usize> = None;
        while i < n && found.is_none()
            invariant
                n == self.used_words@.len(),
                self@ == old(self)@,
                0 <= i <= n,
                match found {
                    Some(f) => f < n && first_where(self@.used_words, is_word(word@)) == Some(
                        f as int,
                    ),
                    None => forall|j: int|
                        0 <= j < i ==> !is_word(word@)(#[trigger] self@.used_words[j]),
                },
            decreases n - i,
        {
            assert(self@.used_words[i as int] == self.used_words@[i as int]@);
            if same_text(self.used_words[i].as_str(), word) {
                proof {
                    lemma_first_where_is(self@.used_words, is_word(word@), i as int);
                }
                found = Some(i);
            }
            i = i + 1;
        }
        match found {
            Some(f) => {
                let _gone = self.used_words.remove(f);
            },
            None => {
                proof {
                    lemma_first_where_none(self@.used_words, is_word(word@));
                }
            },
        }
    }
}

/// A word is in use exactly if it is found.
pub proof fn lemma_word_position(words: Seq<Seq<char>>, word: Seq<char>)
    ensures
        words.contains(word) <==> first_where(words, is_word(word)) is Some,
{
    lemma_first_where(words, is_word(word));
    if words.contains(word) {
        let i = choose|i: int| 0 <= i < words.len() && words[i] == word;
        assert(is_word(word)(words[i]));
    }
    if let Some(i) = first_where(words, is_word(word)) {
        assert(words[i] == word);
    }
}

} // verus!
