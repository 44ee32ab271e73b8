//! Worker processes: restarting one that crashed, within a budget, and handing all of them over
//! to a successor daemon.

use super::{AppView, RestartLog, RestartView, ServerApp};
use crate::connection::since;
use crate::list::{
    first_where, group_views, lemma_first_where, lemma_first_where_is, lemma_first_where_none,
};
use crate::pane::{streaming, PaneView};
use crate::protocol::{ClientId, SequenceNo, TermSize};
use crate::session::SessionView;
use crate::text::{format_pane_id, pane_id_text, same_text, views};
use vstd::prelude::*;

verus! {

/// Restarts of one pane's worker within the window, before giving up.
pub const MAX_RESTARTS: usize = 3;

/// The window of the restart budget, in milliseconds.
pub const RESTART_WINDOW_MS: u64 = 60_000;

/// Recognizes the log of one pane.
pub open spec fn is_log(pane_id: Seq<char>) -> spec_fn(RestartView) -> bool {
    |l: RestartView| l.pane_id == pane_id
}

/// The times logged for a pane.
pub open spec fn logged(restarts: Seq<RestartView>, pane_id: Seq<char>) -> Seq<u64> {
    match first_where(restarts, is_log(pane_id)) {
        Some(i) => restarts[i].times_ms,
        None => Seq::empty(),
    }
}

/// The logs with one pane's replaced, or added.
pub open spec fn with_log(restarts: Seq<RestartView>, log: RestartView) -> Seq<RestartView> {
    match first_where(restarts, is_log(log.pane_id)) {
        Some(i) => restarts.update(i, log),
        None => restarts.push(log),
    }
}

/// The times within the window.
pub open spec fn recent(times: Seq<u64>, now_ms: u64) -> Seq<u64>
    decreases times.len(),
{
    if times.len() == 0 {
        Seq::empty()
    } else {
        let rest = recent(times.drop_last(), now_ms);
        if since(now_ms, times.last()) < RESTART_WINDOW_MS {
            rest.push(times.last())
        } else {
            rest
        }
    }
}

/// The latest of some times.
pub open spec fn latest(times: Seq<u64>) -> Option<u64>
    decreases times.len(),
{
    if times.len() == 0 {
        None
    } else {
        match latest(times.drop_last()) {
            Some(t) if t > times.last() => Some(t),
            _ => Some(times.last()),
        }
    }
}

impl AppView {
    /// Whether a pane's worker may be restarted once more.
    pub open spec fn may_restart(self, pane_id: Seq<char>, now_ms: u64) -> bool {
        recent(logged(self.restarts, pane_id), now_ms).len() < MAX_RESTARTS
    }

    /// The state after a restart was asked for: times outside the window are forgotten, and a
    /// restart that is allowed is logged.
    pub open spec fn restart_logged(self, pane_id: Seq<char>, now_ms: u64) -> AppView {
        let times = recent(logged(self.restarts, pane_id), now_ms);
        AppView {
            restarts: with_log(
                self.restarts,
                RestartView {
                    pane_id,
                    times_ms: if times.len() < MAX_RESTARTS {
                        times.push(now_ms)
                    } else {
                        times
                    },
                },
            ),
            ..self
        }
    }
}

/// The crash-loop budget of one pane.
#[derive(Clone, Copy, Debug, PartialEq, Eq, Structural)]
pub struct RestartStats {
    /// Restarts within the window.
    pub count: usize,
    /// Age of the latest of them, in milliseconds.
    pub last_age_ms: Option<u64>,
    /// Another restart is still allowed.
    pub allowed: bool,
}

/// What to do about a worker that crashed.
#[derive(Clone, Copy, Debug, PartialEq, Eq, Structural)]
pub enum Recovery {
    /// Too many restarts: the pane stays as it is.
    BudgetExceeded,
    /// There is no such pane, or its emulator is not in a process of its own.
    Nothing,
    /// Start a fresh worker on the pane's terminal.
    Respawn { size: TermSize, kitty_graphics: bool, kitty_keyboard: bool },
}

/// A full snapshot to be sent to some clients.
#[derive(Debug)]
pub struct ForcedSnapshot {
    pub seqno: SequenceNo,
    pub recipients: Vec<ClientId>,
}

/// A pane as it is announced to a successor daemon.
#[derive(Debug)]
pub struct HandoffPaneMeta {
    pub pane_id: String,
    /// Process id of its child; 0 = unknown.
    pub pid: i32,
    /// Its terminal will be handed over.
    pub has_live_fd: bool,
}

pub struct HandoffView {
    pub pane_id: Seq<char>,
    pub pid: i32,
    pub has_live_fd: bool,
}

impl View for HandoffPaneMeta {
    type V = HandoffView;

    open spec fn view(&self) -> HandoffView {
        HandoffView { pane_id: self.pane_id@, pid: self.pid, has_live_fd: self.has_live_fd }
    }
}

/// What is known of a pane's child process.
#[derive(Clone, Copy, Debug, PartialEq, Eq, Structural)]
pub struct ChildStatus {
    pub pid: Option<i32>,
    /// Whether it exited, if that is known.
    pub exited: Option<bool>,
}

/// How a pane is announced: its terminal can be handed over only if its child is known and known
/// to be running.
pub open spec fn handoff_of(pane_id: Seq<char>, child: ChildStatus) -> HandoffView {
    HandoffView {
        pane_id,
        pid: match child.pid {
            Some(pid) => pid,
            None => 0,
        },
        has_live_fd: child.pid is Some && child.exited == Some(false),
    }
}

/// The ids of the first `n` panes of a session.
pub open spec fn session_pane_ids(s: SessionView, n: int) -> Seq<Seq<char>> {
    Seq::new(n as nat, |i: int| pane_id_text(s.meta.word_id, s.panes[i].pane_index))
}

/// The ids of all panes.
pub open spec fn all_pane_ids(sessions: Seq<SessionView>) -> Seq<Seq<char>>
    decreases sessions.len(),
{
    if sessions.len() == 0 {
        Seq::empty()
    } else {
        let s = sessions.last();
        all_pane_ids(sessions.drop_last()) + session_pane_ids(s, s.panes.len() as int)
    }
}

// ─── Proofs ──────────────────────────────────────────────────────────────────

/// Recent times are some of the times, all of them within the window.
pub proof fn lemma_recent(times: Seq<u64>, now_ms: u64)
    ensures
        recent(times, now_ms).len() <= times.len(),
        forall|k: int|
            0 <= k < recent(times, now_ms).len() ==> since(
                now_ms,
                #[trigger] recent(times, now_ms)[k],
            ) < RESTART_WINDOW_MS,
    decreases times.len(),
{
    if times.len() > 0 {
        lemma_recent(times.drop_last(), now_ms);
    }
}

/// A restart that is logged is the latest of at most three within the window. One that is refused
/// logs nothing: three are left, where there never were more.
pub proof fn law_restart_budget(a: AppView, pane_id: Seq<char>, now_ms: u64)
    ensures
        ({
            let b = a.restart_logged(pane_id, now_ms);
            let times = logged(b.restarts, pane_id);
            &&& a.may_restart(pane_id, now_ms) ==> times.len() <= MAX_RESTARTS && times.last()
                == now_ms
            &&& !a.may_restart(pane_id, now_ms) ==> times == recent(
                logged(a.restarts, pane_id),
                now_ms,
            ) && times.len() >= MAX_RESTARTS
            &&& logged(a.restarts, pane_id).len() <= MAX_RESTARTS ==> times.len() <= MAX_RESTARTS
        }),
{
    lemma_recent(logged(a.restarts, pane_id), now_ms);
    let b = a.restart_logged(pane_id, now_ms);
    lemma_first_where(a.restarts, is_log(pane_id));
    match first_where(a.restarts, is_log(pane_id)) {
        Some(i) => {
            assert forall|k: int| 0 <= k < i implies !is_log(pane_id)(#[trigger] b.restarts[k]) by {
                assert(b.restarts[k] == a.restarts[k]);
            }
            lemma_first_where_is(b.restarts, is_log(pane_id), i);
        },
        None => {
            let n = a.restarts.len() as int;
            assert forall|k: int| 0 <= k < n implies !is_log(pane_id)(#[trigger] b.restarts[k]) by {
                assert(b.restarts[k] == a.restarts[k]);
            }
            lemma_first_where_is(b.restarts, is_log(pane_id), n);
        },
    }
}

// ─── Operations ──────────────────────────────────────────────────────────────

/// The time from `b` to `a`, or zero.
fn elapsed(a: u64, b: u64) -> (r: u64)
    ensures
        r == since(a, b),
{
    if a >= b {
        a - b
    } else {
        0
    }
}

/// The times within the window.
fn recent_times(times: &Vec<u64>, now_ms: u64) -> (r: Vec<u64>)
    ensures
        r@ == recent(times@, now_ms),
{
    let mut out: Vec<u64> = Vec::new();
    let mut i: usize = 0;
    while i < times.len()
        invariant
            0 <= i <= times@.len(),
            out@ == recent(times@.take(i as int), now_ms),
        decreases times@.len() - i,
    {
        let ghost next = times@.take(i + 1);
        assert(next.drop_last() =~= times@.take(i as int));
        if elapsed(now_ms, times[i]) < RESTART_WINDOW_MS {
            out.push(times[i]);
        }
        i = i + 1;
    }
    assert(times@.take(i as int) =~= times@);
    out
}

/// How a pane is announced to a successor daemon.
pub fn handoff_meta(pane_id: String, child: ChildStatus) -> (r: HandoffPaneMeta)
    ensures
        r@ == handoff_of(pane_id@, child),
{
    let running = match child.exited {
        Some(exited) => !exited,
        None => false,
    };
    let pid: i32 = match child.pid {
        Some(pid) => pid,
        None => 0,
    };
    HandoffPaneMeta { pane_id, pid, has_live_fd: child.pid.is_some() && running }
}

impl ServerApp {
    /// Where a pane's log stands.
    fn log_position(&self, pane_id: &str) -> (r: Option<usize>)
        ensures
            match r {
                Some(i) => i < self.restarts@.len() && first_where(self@.restarts, is_log(pane_id@))
                    == Some(i as int),
                None => first_where(self@.restarts, is_log(pane_id@)) is None,
            },
    {
        let mut i: usize = 0;
        while i < self.restarts.len()
            invariant
                0 <= i <= self.restarts@.len(),
                forall|j: int| 0 <= j < i ==> !is_log(pane_id@)(#[trigger] self@.restarts[j]),
            decreases self.restarts@.len() - i,
        {
            assert(self@.restarts[i as int] == self.restarts@[i as int]@);
            if same_text(self.restarts[i].pane_id.as_str(), pane_id) {
                proof {
                    lemma_first_where_is(self@.restarts, is_log(pane_id@), i as int);
                }
                return Some(i);
            }
            i = i + 1;
        }
        proof {
            lemma_first_where_none(self@.restarts, is_log(pane_id@));
        }
        None
    }

    /// Record a restart of a pane's worker, if it is within the budget.
    pub fn allow_worker_restart(&mut self, pane_id: &str, now_ms: u64) -> (r: bool)
        ensures
            r == old(self)@.may_restart(pane_id@, now_ms),
            final(self)@ == old(self)@.restart_logged(pane_id@, now_ms),
            old(self)@.wf() ==> final(self)@.wf(),
    {
        broadcast use group_views;

        let at = self.log_position(pane_id);
        let mut times: Vec<u64> = match at {
            Some(i) => {
                assert(self@.restarts[i as int] == self.restarts@[i as int]@);
                recent_times(&self.restarts[i].times_ms, now_ms)
            },
            None => Vec::new(),
        };
        assert(times@ =~= recent(logged(self@.restarts, pane_id@), now_ms));
        let allowed = times.len() < MAX_RESTARTS;
        if allowed {
            times.push(now_ms);
        }
        let log = RestartLog { pane_id: pane_id.to_owned(), times_ms: times };
        match at {
            Some(i) => {
                self.restarts.set(i, log);
            },
            None => {
                self.restarts.push(log);
            },
        }
        allowed
    }

    /// The crash-loop budget of a pane, unchanged.
    pub fn worker_restart_stats(&self, pane_id: &str, now_ms: u64) -> (r: RestartStats)
        ensures
            r.count == recent(logged(self@.restarts, pane_id@), now_ms).len(),
            r.last_age_ms == match latest(recent(logged(self@.restarts, pane_id@), now_ms)) {
                Some(t) => Some(since(now_ms, t)),
                None => None,
            },
            r.allowed == self@.may_restart(pane_id@, now_ms),
    {
        let times: Vec<u64> = match self.log_position(pane_id) {
            Some(i) => {
                assert(self@.restarts[i as int] == self.restarts@[i as int]@);
                recent_times(&self.restarts[i].times_ms, now_ms)
            },
            None => Vec::new(),
        };
        assert(times@ =~= recent(logged(self@.restarts, pane_id@), now_ms));
        let mut newest: Option<u64> = None;
        let mut i: usize = 0;
        while i < times.len()
            invariant
                0 <= i <= times@.len(),
                newest == latest(times@.take(i as int)),
            decreases times@.len() - i,
        {
            let ghost next = times@.take(i + 1);
            assert(next.drop_last() =~= times@.take(i as int));
            newest = match newest {
                Some(t) => if t > times[i] {
                    Some(t)
                } else {
                    Some(times[i])
                },
                None => Some(times[i]),
            };
            i = i + 1;
        }
        assert(times@.take(i as int) =~= times@);
        let last_age_ms: Option<u64> = match newest {
            Some(t) => Some(elapsed(now_ms, t)),
            None => None,
        };
        RestartStats { count: times.len(), last_age_ms, allowed: times.len() < MAX_RESTARTS }
    }

    /// Decide what to do about a worker that crashed.
    pub fn recover_faulted_worker(&mut self, pane_id: &str, now_ms: u64) -> (r: Recovery)
        ensures
            final(self)@ == old(self)@.restart_logged(pane_id@, now_ms),
            r == if !old(self)@.may_restart(pane_id@, now_ms) {
                Recovery::BudgetExceeded
            } else {
                match old(self)@.find_pane(pane_id@) {
                    Some((s, p)) => {
                        let pane = old(self)@.sessions[s].panes[p];
                        if pane.isolated {
                            Recovery::Respawn {
                                size: pane.size,
                                kitty_graphics: pane.kitty_graphics_enabled,
                                kitty_keyboard: pane.kitty_keyboard_enabled,
                            }
                        } else {
                            Recovery::Nothing
                        }
                    },
                    None => Recovery::Nothing,
                }
            },
            old(self)@.wf() ==> final(self)@.wf(),
    {
        if !self.allow_worker_restart(pane_id, now_ms) {
            return Recovery::BudgetExceeded;
        }
        match self.pane_position(pane_id) {
            Some((s, p)) => {
                let pane = &self.sessions[s].panes[p];
                assert(self@.sessions[s as int] == self.sessions@[s as int]@);
                assert(self.sessions@[s as int]@.panes[p as int] == pane@);
                if pane.isolated {
                    Recovery::Respawn {
                        size: pane.size,
                        kitty_graphics: pane.kitty_graphics_enabled,
                        kitty_keyboard: pane.kitty_keyboard_enabled,
                    }
                } else {
                    Recovery::Nothing
                }
            },
            None => Recovery::Nothing,
        }
    }

    /// A fresh snapshot for every client of a pane whose output is not withheld. It takes a place
    /// of its own in the stream.
    pub fn force_pane_resync(&mut self, pane_id: &str) -> (r: Option<ForcedSnapshot>)
        ensures
            match old(self)@.find_pane(pane_id@) {
                Some((s, p)) => {
                    let pane = old(self)@.sessions[s].panes[p];
                    &&& final(self)@ == old(self)@.with_pane_at(
                        s,
                        p,
                        PaneView { next_seqno: pane.next_seqno.wrapping_add(1), ..pane },
                    )
                    &&& r matches Some(f) && f.seqno == SequenceNo(pane.next_seqno)
                        && f.recipients@ == streaming(pane.clients)
                },
                None => final(self)@ == old(self)@ && r is None,
            },
            old(self)@.wf() ==> final(self)@.wf(),
    {
        let ghost start = self@;
        match self.pane_position(pane_id) {
            Some((s, p)) => {
                proof {
                    if start.wf() {
                        super::lemma_find_pane(start, pane_id@);
                        let pane = start.sessions[s as int].panes[p as int];
                        super::lemma_with_pane_keeps_wf(
                            start,
                            s as int,
                            p as int,
                            PaneView { next_seqno: pane.next_seqno.wrapping_add(1), ..pane },
                        );
                    }
                }
                let pane = self.pane_slot(s, p);
                let seqno = SequenceNo(pane.next_seqno);
                let recipients = pane.streaming_clients();
                pane.next_seqno = pane.next_seqno.wrapping_add(1);
                Some(ForcedSnapshot { seqno, recipients })
            },
            None => None,
        }
    }

    /// A fresh worker runs a pane's emulator, or none could be started. The new emulator is blank,
    /// so the pane's clients are shown it; without one, the pane stays as it is.
    pub fn finish_recovery(&mut self, pane_id: &str, respawned: bool) -> (r: Option<ForcedSnapshot>)
        ensures
            match old(self)@.find_pane(pane_id@) {
                Some((s, p)) if respawned => {
                    let pane = old(self)@.sessions[s].panes[p];
                    &&& final(self)@ == old(self)@.with_pane_at(
                        s,
                        p,
                        PaneView { next_seqno: pane.next_seqno.wrapping_add(1), ..pane },
                    )
                    &&& r matches Some(f) && f.seqno == SequenceNo(pane.next_seqno)
                        && f.recipients@ == streaming(pane.clients)
                },
                _ => final(self)@ == old(self)@ && r is None,
            },
            old(self)@.wf() ==> final(self)@.wf(),
    {
        if respawned {
            self.force_pane_resync(pane_id)
        } else {
            None
        }
    }

    /// The ids of all panes.
    pub fn pane_ids(&self) -> (r: Vec<String>)
        ensures
            views(r@) == all_pane_ids(self@.sessions),
    {
        broadcast use group_views;

        let mut out: Vec<String> = Vec::new();
        let mut i: usize = 0;
        assert(views(out@) =~= all_pane_ids(self@.sessions.take(0)));
        while i < self.sessions.len()
            invariant
                0 <= i <= self.sessions@.len(),
                views(out@) == all_pane_ids(self@.sessions.take(i as int)),
            decreases self.sessions@.len() - i,
        {
            let ghost before = views(out@);
            let ghost next = self@.sessions.take(i + 1);
            let session = &self.sessions[i];
            assert(next.drop_last() =~= self@.sessions.take(i as int));
            assert(next.last() == session@);
            let mut k: usize = 0;
            assert(before + session_pane_ids(session@, 0) =~= before);
            while k < session.panes.len()
                invariant
                    0 <= k <= session.panes@.len(),
                    views(out@) == before + session_pane_ids(session@, k as int),
                decreases session.panes@.len() - k,
            {
                let ghost had = views(out@);
                assert(session@.panes[k as int] == session.panes@[k as int]@);
                let id = format_pane_id(session.meta.word_id.as_str(), session.panes[k].pane_index);
                let ghost text = id@;
                out.push(id);
                k = k + 1;
                proof {
                    assert(views(out@) =~= had.push(text));
                    assert(views(out@) =~= before + session_pane_ids(session@, k as int));
                }
            }
            i = i + 1;
        }
        assert(self@.sessions.take(i as int) =~= self@.sessions);
        out
    }

    /// The panes as they are announced to a successor daemon. `children` holds what is known of
    /// each pane's child process, in the order of the pane ids.
    pub fn collect_handoff_panes(&self, children: &Vec<ChildStatus>) -> (r: Vec<HandoffPaneMeta>)
        requires
            children@.len() == all_pane_ids(self@.sessions).len(),
        ensures
            views(r@) == Seq::new(
                children@.len(),
                |i: int| handoff_of(all_pane_ids(self@.sessions)[i], children@[i]),
            ),
    {
        let ids = self.pane_ids();
        let ghost all = views(ids@);
        let mut out: Vec<HandoffPaneMeta> = Vec::new();
        let mut i: usize = 0;
        while i < ids.len()
            invariant
                0 <= i <= ids@.len(),
                all == views(ids@),
                children@.len() == ids@.len(),
                out@.len() == i,
                forall|j: int|
                    0 <= j < i ==> (#[trigger] out@[j])@ == handoff_of(all[j], children@[j]),
            decreases ids@.len() - i,
        {
            assert(all[i as int] == ids@[i as int]@);
            out.push(handoff_meta(ids[i].clone(), children[i]));
            i = i + 1;
        }
        assert(views(out@) =~= Seq::new(
            children@.len(),
            |i: int| handoff_of(all_pane_ids(self@.sessions)[i], children@[i]),
        ));
        out
    }
}

} // verus!
