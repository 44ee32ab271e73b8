//! Attaching clients to panes and detaching them, and the per-client view settings.

use super::{
    changed_session, changed_sessions, lemma_find_pane, lemma_with_pane_keeps_wf, AppView,
    ServerApp,
};
use crate::list::group_views;
use crate::pane::{
    client_at, compute_replay, distinct_clients, exempting, is_client, notice_view, pausing,
    snapshotting, AttachResult, ClientSender, PaneView, ResizeNotice, ResizeView,
};
use crate::protocol::{
    pane_not_found, ClientCapabilities, ClientId, ErrorView, KmuxError, SequenceNo, TermSize,
};
use crate::session::{SessionState, SessionView};
use crate::text::{format_pane_id, pane_id_text, views};
use vstd::prelude::*;

verus! {

/// Parameters for [`ServerApp::attach`].
#[derive(Debug)]
pub struct AttachParams {
    pub pane_id: String,
    pub client_id: ClientId,
    pub last_seqno: Option<SequenceNo>,
    pub size: TermSize,
    pub capabilities: ClientCapabilities,
}

impl PaneView {
    /// The pane with a client attached, before its size is reconciled.
    pub open spec fn joined(
        self,
        id: ClientId,
        size: TermSize,
        capabilities: ClientCapabilities,
    ) -> PaneView {
        self.with_client(id, size, capabilities).recomputed()
    }

    /// The pane with a client detached, before its size is reconciled.
    pub open spec fn left(self, id: ClientId) -> PaneView {
        self.without_client(id).recomputed()
    }
}

/// Detaches a client and reconciles the size.
pub open spec fn leaving(id: ClientId) -> spec_fn(PaneView) -> PaneView {
    |p: PaneView| p.left(id).fitted()
}

/// Changes a client's snapshot mode.
pub open spec fn snapshot_setting(id: ClientId, enabled: bool) -> spec_fn(PaneView) -> PaneView {
    |p: PaneView| p.with_flags(id, snapshotting(enabled))
}

/// Pauses or resumes a client.
pub open spec fn pause_setting(id: ClientId, paused: bool, auto: bool) -> spec_fn(
    PaneView,
) -> PaneView {
    |p: PaneView| p.with_flags(id, pausing(paused, auto))
}

/// The size changes announced when a client leaves each of `panes`.
pub open spec fn leave_notices(panes: Seq<PaneView>, word: Seq<char>, id: ClientId) -> Seq<
    ResizeView,
>
    decreases panes.len(),
{
    if panes.len() == 0 {
        Seq::empty()
    } else {
        let rest = leave_notices(panes.drop_last(), word, id);
        let p = panes.last();
        match p.left(id).resize_notice(pane_id_text(word, p.pane_index)) {
            Some(n) => rest.push(n),
            None => rest,
        }
    }
}

/// The size changes announced when a client leaves every pane of `sessions`.
pub open spec fn leave_all_notices(sessions: Seq<SessionView>, id: ClientId) -> Seq<ResizeView>
    decreases sessions.len(),
{
    if sessions.len() == 0 {
        Seq::empty()
    } else {
        let s = sessions.last();
        leave_all_notices(sessions.drop_last(), id) + leave_notices(s.panes, s.meta.word_id, id)
    }
}

/// Attaching a client lists it once; the others stay listed once.
pub proof fn lemma_join_keeps_distinct(
    p: PaneView,
    id: ClientId,
    size: TermSize,
    capabilities: ClientCapabilities,
)
    requires
        distinct_clients(p.clients),
    ensures
        distinct_clients(p.joined(id, size, capabilities).clients),
        client_at(p.joined(id, size, capabilities).clients, id) is Some,
{
    crate::list::lemma_first_where(p.clients, is_client(id));
    let r = p.joined(id, size, capabilities).clients;
    match client_at(p.clients, id) {
        Some(i) => {
            assert(forall|k: int|
                0 <= k < r.len() ==> (#[trigger] r[k]).client_id == p.clients[k].client_id);
            crate::list::lemma_first_where(r, is_client(id));
            assert(is_client(id)(r[i]));
        },
        None => {
            assert forall|a: int, b: int| 0 <= a < b < r.len() implies (#[trigger] r[a]).client_id
                != (#[trigger] r[b]).client_id by {
                if b == p.clients.len() {
                    assert(!is_client(id)(p.clients[a]));
                }
            }
            crate::list::lemma_first_where(r, is_client(id));
            assert(is_client(id)(r[r.len() - 1]));
        },
    }
}

/// Detaching a client removes it and leaves the others listed once.
pub proof fn lemma_leave_keeps_distinct(p: PaneView, id: ClientId)
    requires
        distinct_clients(p.clients),
    ensures
        distinct_clients(p.left(id).clients),
        client_at(p.left(id).clients, id) is None,
{
    crate::list::lemma_first_where(p.clients, is_client(id));
    let r = p.left(id).clients;
    crate::list::lemma_first_where(r, is_client(id));
    if let Some(i) = client_at(p.clients, id) {
        let from = |k: int|
            if k < i {
                k
            } else {
                k + 1
            };
        assert forall|k: int| 0 <= k < r.len() implies #[trigger] r[k] == p.clients[from(k)] by {}
        assert forall|a: int, b: int| 0 <= a < b < r.len() implies (#[trigger] r[a]).client_id != (
        #[trigger] r[b]).client_id by {
            assert(p.clients[from(a)].client_id != p.clients[from(b)].client_id);
        }
        if let Some(k) = client_at(r, id) {
            let j = from(k);
            assert(p.clients[j].client_id == id);
            if j < i {
                assert(p.clients[j].client_id != p.clients[i].client_id);
            } else {
                assert(p.clients[i].client_id != p.clients[j].client_id);
            }
        }
    }
}

/// Changing a client's settings leaves every client listed as it was.
pub proof fn lemma_flags_keep_distinct(
    p: PaneView,
    id: ClientId,
    f: spec_fn(ClientSender) -> ClientSender,
)
    requires
        distinct_clients(p.clients),
        forall|c: ClientSender| (#[trigger] f(c)).client_id == c.client_id,
    ensures
        distinct_clients(p.with_flags(id, f).clients),
{
    crate::list::lemma_first_where(p.clients, is_client(id));
    let r = p.with_flags(id, f).clients;
    assert(forall|k: int|
        0 <= k < r.len() ==> (#[trigger] r[k]).client_id == p.clients[k].client_id);
}

/// A change of every pane that keeps their indices and repeats no client keeps the state well
/// formed.
pub proof fn lemma_every_pane_keeps_wf(a: AppView, f: spec_fn(PaneView) -> PaneView)
    requires
        a.wf(),
        forall|p: PaneView|
            distinct_clients(p.clients) ==> (#[trigger] f(p)).pane_index == p.pane_index
                && distinct_clients(f(p).clients),
    ensures
        a.with_every_pane(f).wf(),
{
    let r = a.with_every_pane(f);
    assert forall|i: int| 0 <= i < r.sessions.len() implies (#[trigger] r.sessions[i]).wf() by {
        assert(a.sessions[i].wf());
        lemma_changed_session_wf(a.sessions[i], f);
    }
    assert(forall|i: int|
        0 <= i < r.sessions.len() ==> (#[trigger] r.sessions[i]).meta == a.sessions[i].meta);
}

/// A change of every pane that keeps their indices and repeats no client keeps a session well
/// formed.
pub proof fn lemma_changed_session_wf(s: SessionView, f: spec_fn(PaneView) -> PaneView)
    requires
        s.wf(),
        forall|p: PaneView|
            distinct_clients(p.clients) ==> (#[trigger] f(p)).pane_index == p.pane_index
                && distinct_clients(f(p).clients),
    ensures
        changed_session(s, f).wf(),
{
    let t = changed_session(s, f);
    assert(forall|k: int| 0 <= k < s.panes.len() ==> (#[trigger] t.panes[k]) == f(s.panes[k]));
    assert forall|k: int| 0 <= k < s.panes.len() implies (#[trigger] s.panes[k]).pane_index
        == t.panes[k].pane_index by {
        assert(distinct_clients(s.panes[k].clients));
        assert(t.panes[k] == f(s.panes[k]));
    }
    crate::session_laws::lemma_same_indices(s.panes, t.panes);
    assert forall|j: int, q: u32| 0 <= j < t.tabs.len() && #[trigger] t.tabs[j].has(
        q,
    ) implies t.has_pane(q) by {
        assert(s.tabs[j].has(q));
        assert(s.has_pane(q));
    }
    assert forall|x: int, y: int| 0 <= x < y < t.panes.len() implies (
    #[trigger] t.panes[x]).pane_index != (#[trigger] t.panes[y]).pane_index by {
        assert(s.panes[x].pane_index != s.panes[y].pane_index);
    }
    assert forall|k: int| 0 <= k < t.panes.len() implies (#[trigger] t.panes[k]).pane_index
        < t.next_pane_index by {
        assert(s.panes[k].pane_index < s.next_pane_index);
    }
    assert forall|k: int| 0 <= k < t.panes.len() implies distinct_clients(
        (#[trigger] t.panes[k]).clients,
    ) by {
        assert(distinct_clients(s.panes[k].clients));
        assert(t.panes[k] == f(s.panes[k]));
    }
}

/// Detaching a client from every pane keeps a session well formed.
pub proof fn lemma_leave_session_keeps_wf(s: SessionView, id: ClientId)
    requires
        s.wf(),
    ensures
        changed_session(s, leaving(id)).wf(),
{
    let f = leaving(id);
    assert forall|p: PaneView| distinct_clients(p.clients) implies (#[trigger] f(p)).pane_index
        == p.pane_index && distinct_clients(f(p).clients) by {
        lemma_leave_keeps_distinct(p, id);
    }
    lemma_changed_session_wf(s, f);
}

impl SessionState {
    /// Detach a client from every pane of the session.
    pub fn detach_client(&mut self, client_id: ClientId) -> (r: Vec<ResizeNotice>)
        ensures
            final(self)@ == changed_session(old(self)@, leaving(client_id)),
            views(r@) == leave_notices(old(self)@.panes, old(self)@.meta.word_id, client_id),
    {
        broadcast use group_views;

        let ghost start = self@;
        let mut notices: Vec<ResizeNotice> = Vec::new();
        let n: usize = self.panes.len();
        let mut i: usize = 0;
        assert(views(notices@) =~= leave_notices(start.panes.take(0), start.meta.word_id, client_id));
        while i < n
            invariant
                n == self.panes@.len(),
                n == start.panes.len(),
                0 <= i <= n,
                self@ == (SessionView { panes: self@.panes, ..start }),
                forall|k: int|
                    0 <= k < i ==> #[trigger] self@.panes[k] == leaving(client_id)(start.panes[k]),
                forall|k: int| i <= k < n ==> #[trigger] self@.panes[k] == start.panes[k],
                views(notices@) == leave_notices(
                    start.panes.take(i as int),
                    start.meta.word_id,
                    client_id,
                ),
            decreases n - i,
        {
            let ghost before = self@;
            assert(before.panes[i as int] == start.panes[i as int]);
            assert(self.panes@[i as int]@ == before.panes[i as int]);
            let pane_id = format_pane_id(self.meta.word_id.as_str(), self.panes[i].pane_index);
            let notice = self.pane_slot(i).detach_client(pane_id.as_str(), client_id);
            proof {
                let next = start.panes.take(i as int + 1);
                assert(next.drop_last() =~= start.panes.take(i as int));
                assert(next.last() == start.panes[i as int]);
                assert(self@.panes == before.panes.update(
                    i as int,
                    leaving(client_id)(start.panes[i as int]),
                ));
            }
            if let Some(notice) = notice {
                notices.push(notice);
            }
            i = i + 1;
        }
        proof {
            assert(start.panes.take(n as int) =~= start.panes);
            assert(self@.panes =~= changed_session(start, leaving(client_id)).panes);
        }
        notices
    }

    fn set_snapshot_mode(&mut self, client_id: ClientId, enabled: bool)
        ensures
            final(self)@ == changed_session(old(self)@, snapshot_setting(client_id, enabled)),
    {
        let ghost start = self@;
        let n: usize = self.panes.len();
        let mut i: usize = 0;
        while i < n
            invariant
                n == self.panes@.len(),
                n == start.panes.len(),
                0 <= i <= n,
                self@ == (SessionView { panes: self@.panes, ..start }),
                forall|k: int|
                    0 <= k < i ==> #[trigger] self@.panes[k] == snapshot_setting(
                        client_id,
                        enabled,
                    )(start.panes[k]),
                forall|k: int| i <= k < n ==> #[trigger] self@.panes[k] == start.panes[k],
            decreases n - i,
        {
            let ghost before = self@;
            assert(before.panes[i as int] == start.panes[i as int]);
            assert(self.panes@[i as int]@ == before.panes[i as int]);
            self.pane_slot(i).set_snapshot_mode(client_id, enabled);
            assert(self@.panes.len() == self.panes@.len());
            i = i + 1;
        }
        assert(self@.panes =~= changed_session(start, snapshot_setting(client_id, enabled)).panes);
    }

    fn set_paused(&mut self, client_id: ClientId, paused: bool, auto: bool)
        ensures
            final(self)@ == changed_session(old(self)@, pause_setting(client_id, paused, auto)),
    {
        let ghost start = self@;
        let n: usize = self.panes.len();
        let mut i: usize = 0;
        while i < n
            invariant
                n == self.panes@.len(),
                n == start.panes.len(),
                0 <= i <= n,
                self@ == (SessionView { panes: self@.panes, ..start }),
                forall|k: int|
                    0 <= k < i ==> #[trigger] self@.panes[k] == pause_setting(
                        client_id,
                        paused,
                        auto,
                    )(start.panes[k]),
                forall|k: int| i <= k < n ==> #[trigger] self@.panes[k] == start.panes[k],
            decreases n - i,
        {
            let ghost before = self@;
            assert(before.panes[i as int] == start.panes[i as int]);
            assert(self.panes@[i as int]@ == before.panes[i as int]);
            self.pane_slot(i).set_paused(client_id, paused, auto);
            assert(self@.panes.len() == self.panes@.len());
            i = i + 1;
        }
        assert(self@.panes =~= changed_session(
            start,
            pause_setting(client_id, paused, auto),
        ).panes);
    }
}

impl ServerApp {
    /// Attach a client to a pane. Returns what the client is shown first, and the size change to
    /// announce, if there is one.
    pub fn attach(&mut self, params: AttachParams) -> (r: Result<
        (AttachResult, Option<ResizeNotice>),
        KmuxError,
    >)
        ensures
            match old(self)@.find_pane(params.pane_id@) {
                Some((s, p)) => {
                    let pane = old(self)@.sessions[s].panes[p];
                    let joined = pane.joined(params.client_id, params.size, params.capabilities);
                    &&& final(self)@ == old(self)@.with_pane_at(s, p, joined.fitted())
                    &&& r matches Ok(v) && v.0@ == pane.replay(params.last_seqno) && notice_view(
                        v.1,
                    ) == joined.resize_notice(params.pane_id@)
                },
                None => {
                    &&& final(self)@ == old(self)@
                    &&& r matches Err(e) && e@ == ErrorView::PaneNotFound(params.pane_id@)
                },
            },
            old(self)@.wf() ==> final(self)@.wf(),
    {
        let ghost before = self@;
        match self.pane_position(params.pane_id.as_str()) {
            Some((s, p)) => {
                proof {
                    lemma_find_pane(before, params.pane_id@);
                    if before.wf() {
                        assert(before.sessions[s as int].wf());
                        let pane = before.sessions[s as int].panes[p as int];
                        lemma_join_keeps_distinct(
                            pane,
                            params.client_id,
                            params.size,
                            params.capabilities,
                        );
                        lemma_with_pane_keeps_wf(
                            before,
                            s as int,
                            p as int,
                            pane.joined(
                                params.client_id,
                                params.size,
                                params.capabilities,
                            ).fitted(),
                        );
                    }
                }
                let relay = self.pane_slot(s, p);
                let replay = compute_replay(relay, params.last_seqno);
                let notice = relay.attach_client(
                    params.pane_id.as_str(),
                    params.client_id,
                    params.size,
                    params.capabilities,
                );
                Ok((replay, notice))
            },
            None => Err(pane_not_found(params.pane_id.as_str())),
        }
    }

    /// Set the full-snapshot mode of a client across all panes.
    pub fn set_snapshot_mode(&mut self, client_id: ClientId, enabled: bool)
        ensures
            final(self)@ == old(self)@.with_every_pane(snapshot_setting(client_id, enabled)),
            old(self)@.wf() ==> final(self)@.wf(),
    {
        let ghost start = self@;
        let n: usize = self.sessions.len();
        let mut i: usize = 0;
        while i < n
            invariant
                n == self.sessions@.len(),
                n == start.sessions.len(),
                0 <= i <= n,
                self@ == (AppView { sessions: self@.sessions, ..start }),
                forall|k: int|
                    0 <= k < i ==> #[trigger] self@.sessions[k] == changed_session(
                        start.sessions[k],
                        snapshot_setting(client_id, enabled),
                    ),
                forall|k: int| i <= k < n ==> #[trigger] self@.sessions[k] == start.sessions[k],
            decreases n - i,
        {
            let ghost before = self@;
            assert(before.sessions[i as int] == start.sessions[i as int]);
            assert(self.sessions@[i as int]@ == before.sessions[i as int]);
            self.session_slot(i).set_snapshot_mode(client_id, enabled);
            assert(self@.sessions.len() == self.sessions@.len());
            i = i + 1;
        }
        proof {
            let f = snapshot_setting(client_id, enabled);
            assert(self@.sessions =~= changed_sessions(start.sessions, f));
            if start.wf() {
                assert forall|p: PaneView| distinct_clients(p.clients) implies (
                #[trigger] f(p)).pane_index == p.pane_index && distinct_clients(f(p).clients) by {
                    lemma_flags_keep_distinct(p, client_id, snapshotting(enabled));
                }
                lemma_every_pane_keeps_wf(start, f);
            }
        }
    }

    /// Pause or resume output for a client across all panes. A paused client keeps counting
    /// toward the size of its panes.
    pub fn set_paused(&mut self, client_id: ClientId, paused: bool, auto: bool)
        ensures
            final(self)@ == old(self)@.with_every_pane(pause_setting(client_id, paused, auto)),
            old(self)@.wf() ==> final(self)@.wf(),
    {
        let ghost start = self@;
        let n: usize = self.sessions.len();
        let mut i: usize = 0;
        while i < n
            invariant
                n == self.sessions@.len(),
                n == start.sessions.len(),
                0 <= i <= n,
                self@ == (AppView { sessions: self@.sessions, ..start }),
                forall|k: int|
                    0 <= k < i ==> #[trigger] self@.sessions[k] == changed_session(
                        start.sessions[k],
                        pause_setting(client_id, paused, auto),
                    ),
                forall|k: int| i <= k < n ==> #[trigger] self@.sessions[k] == start.sessions[k],
            decreases n - i,
        {
            let ghost before = self@;
            assert(before.sessions[i as int] == start.sessions[i as int]);
            assert(self.sessions@[i as int]@ == before.sessions[i as int]);
            self.session_slot(i).set_paused(client_id, paused, auto);
            assert(self@.sessions.len() == self.sessions@.len());
            i = i + 1;
        }
        proof {
            let f = pause_setting(client_id, paused, auto);
            assert(self@.sessions =~= changed_sessions(start.sessions, f));
            if start.wf() {
                assert forall|p: PaneView| distinct_clients(p.clients) implies (
                #[trigger] f(p)).pane_index == p.pane_index && distinct_clients(f(p).clients) by {
                    lemma_flags_keep_distinct(p, client_id, pausing(paused, auto));
                }
                lemma_every_pane_keeps_wf(start, f);
            }
        }
    }

    /// Exempt a single pane from a client's automatic pause, or end the exemption. Nothing
    /// happens where the client is not attached to the pane.
    pub fn set_pane_no_auto_pause(&mut self, client_id: ClientId, pane_id: &str, exempt: bool)
        ensures
            final(self)@ == match old(self)@.find_pane(pane_id@) {
                Some((s, p)) => old(self)@.with_pane_at(
                    s,
                    p,
                    old(self)@.sessions[s].panes[p].with_flags(client_id, exempting(exempt)),
                ),
                None => old(self)@,
            },
            old(self)@.wf() ==> final(self)@.wf(),
    {
        let ghost before = self@;
        if let Some((s, p)) = self.pane_position(pane_id) {
            proof {
                lemma_find_pane(before, pane_id@);
                if before.wf() {
                    assert(before.sessions[s as int].wf());
                    let pane = before.sessions[s as int].panes[p as int];
                    lemma_flags_keep_distinct(pane, client_id, exempting(exempt));
                    lemma_with_pane_keeps_wf(
                        before,
                        s as int,
                        p as int,
                        pane.with_flags(client_id, exempting(exempt)),
                    );
                }
            }
            self.pane_slot(s, p).set_no_auto_pause(client_id, exempt);
        }
    }

    /// Detach a client from a pane, releasing its input lock.
    pub fn detach_from_pane(&mut self, pane_id: &str, client_id: ClientId) -> (r: Option<
        ResizeNotice,
    >)
        ensures
            match old(self)@.find_pane(pane_id@) {
                Some((s, p)) => {
                    let left = old(self)@.sessions[s].panes[p].left(client_id);
                    &&& final(self)@ == old(self)@.with_pane_at(s, p, left.fitted())
                    &&& notice_view(r) == left.resize_notice(pane_id@)
                },
                None => final(self)@ == old(self)@ && r is None,
            },
            old(self)@.wf() ==> final(self)@.wf(),
    {
        let ghost before = self@;
        match self.pane_position(pane_id) {
            Some((s, p)) => {
                proof {
                    lemma_find_pane(before, pane_id@);
                    if before.wf() {
                        assert(before.sessions[s as int].wf());
                        let pane = before.sessions[s as int].panes[p as int];
                        lemma_leave_keeps_distinct(pane, client_id);
                        lemma_with_pane_keeps_wf(
                            before,
                            s as int,
                            p as int,
                            pane.left(client_id).fitted(),
                        );
                    }
                }
                self.pane_slot(s, p).detach_client(pane_id, client_id)
            },
            None => None,
        }
    }

    /// Detach a client from every pane.
    pub fn detach_client_all(&mut self, client_id: ClientId) -> (r: Vec<ResizeNotice>)
        ensures
            final(self)@ == old(self)@.with_every_pane(leaving(client_id)),
            views(r@) == leave_all_notices(old(self)@.sessions, client_id),
            old(self)@.wf() ==> final(self)@.wf(),
    {
        let ghost start = self@;
        let mut notices: Vec<ResizeNotice> = Vec::new();
        let n: usize = self.sessions.len();
        let mut i: usize = 0;
        assert(views(notices@) =~= leave_all_notices(start.sessions.take(0), client_id));
        while i < n
            invariant
                n == self.sessions@.len(),
                n == start.sessions.len(),
                0 <= i <= n,
                self@ == (AppView { sessions: self@.sessions, ..start }),
                forall|k: int|
                    0 <= k < i ==> #[trigger] self@.sessions[k] == changed_session(
                        start.sessions[k],
                        leaving(client_id),
                    ),
                forall|k: int| i <= k < n ==> #[trigger] self@.sessions[k] == start.sessions[k],
                views(notices@) == leave_all_notices(start.sessions.take(i as int), client_id),
            decreases n - i,
        {
            let ghost before = self@;
            assert(before.sessions[i as int] == start.sessions[i as int]);
            assert(self.sessions@[i as int]@ == before.sessions[i as int]);
            let mut more = self.session_slot(i).detach_client(client_id);
            assert(self@.sessions.len() == self.sessions@.len());
            let ghost had = notices@;
            let ghost came = more@;
            notices.append(&mut more);
            proof {
                let next = start.sessions.take(i as int + 1);
                assert(next.drop_last() =~= start.sessions.take(i as int));
                assert(next.last() == start.sessions[i as int]);
                assert(views(notices@) =~= views(had) + views(came));
            }
            i = i + 1;
        }
        proof {
            assert(start.sessions.take(n as int) =~= start.sessions);
            let f = leaving(client_id);
            assert(self@.sessions =~= changed_sessions(start.sessions, f));
            if start.wf() {
                assert forall|p: PaneView| distinct_clients(p.clients) implies (
                #[trigger] f(p)).pane_index == p.pane_index && distinct_clients(f(p).clients) by {
                    lemma_leave_keeps_distinct(p, client_id);
                }
                lemma_every_pane_keeps_wf(start, f);
            }
        }
        notices
    }
}

} // verus!
