//! Saving sessions.

use super::ServerApp;
use crate::app::AppView;
use crate::list::{arranged, is_stable_order, positions, precedes, sorted_order, stable_order};
use crate::pane::PaneView;
use crate::persist::{
    DaemonView, PersistedDaemonState, PersistedPane, PersistedSession, PersistedTab,
    PersistedTermSize, SavedPaneView, SavedView,
};
use crate::session::{pane_keys, SessionState, SessionView};
use crate::terminal::{CellState, CursorShape, CursorState, GridSnapshot, GridView, TermModes};
use crate::text::{copy_texts, views};
use vstd::prelude::*;

verus! {

/// What only the terminal emulator and the process registry know of a pane.
#[derive(Debug)]
pub struct PaneCapture {
    pub child_pid: Option<i32>,
    pub grid: GridSnapshot,
    pub scrollback_lines: Vec<Vec<CellState>>,
}

pub struct CaptureView {
    pub child_pid: Option<i32>,
    pub grid: GridView,
    pub scrollback_lines: Seq<Seq<CellState>>,
}

impl View for PaneCapture {
    type V = CaptureView;

    open spec fn view(&self) -> CaptureView {
        CaptureView {
            child_pid: self.child_pid,
            grid: self.grid@,
            scrollback_lines: views(self.scrollback_lines@),
        }
    }
}

impl PaneCapture {
    /// Nothing captured: no process, a screen of no size and no scrollback.
    pub fn empty() -> (r: PaneCapture)
        ensures
            r@ == (CaptureView {
                child_pid: None,
                grid: GridView {
                    rows: 0,
                    cols: 0,
                    cells: Seq::empty(),
                    cursor: CursorState { row: 0, col: 0, shape: CursorShape::Block, visible: true },
                    modes: TermModes(0),
                    history_total: 0,
                },
                scrollback_lines: Seq::empty(),
            }),
    {
        let r = PaneCapture {
            child_pid: None,
            grid: GridSnapshot {
                rows: 0,
                cols: 0,
                cells: Vec::new(),
                cursor: CursorState::default(),
                modes: TermModes(0),
                history_total: 0,
            },
            scrollback_lines: Vec::new(),
        };
        assert(r@.grid.cells =~= Seq::<CellState>::empty());
        assert(r@.scrollback_lines =~= Seq::<Seq<CellState>>::empty());
        r
    }
}

/// A pane as it is saved.
pub open spec fn saved_pane(p: PaneView, c: CaptureView, cwd: Seq<char>) -> SavedPaneView {
    SavedPaneView {
        pane_index: p.pane_index,
        program: p.program,
        args: p.args,
        size: PersistedTermSize { rows: p.size.rows, cols: p.size.cols },
        status: p.status,
        child_pid: c.child_pid,
        grid: c.grid,
        scrollback_lines: c.scrollback_lines,
        cwd,
    }
}

/// Panes as they are saved, each with its capture.
pub open spec fn saved_panes(panes: Seq<PaneView>, captures: Seq<CaptureView>, cwd: Seq<char>)
    -> Seq<SavedPaneView> {
    Seq::new(panes.len(), |i: int| saved_pane(panes[i], captures[i], cwd))
}

impl SessionView {
    /// The session as it is saved, its panes by index.
    pub open spec fn saved(self, captures: Seq<CaptureView>) -> SavedView {
        SavedView {
            meta: self.meta,
            next_pane_index: self.next_pane_index,
            panes: arranged(
                saved_panes(self.panes, captures, self.meta.cwd),
                stable_order(pane_keys(self.panes)),
            ),
            tabs: self.tabs,
            next_tab_index: self.next_tab_index,
            active_tab: self.active_tab,
            last_active_ms: self.last_active_ms,
        }
    }
}

/// A saved session is as well formed as the session was.
pub proof fn law_saved_session_wf(s: SessionView, captures: Seq<CaptureView>)
    requires
        s.wf(),
    ensures
        s.saved(captures).wf(),
{
    let keys = pane_keys(s.panes);
    let o = stable_order(keys);
    crate::list::law_stable_order(keys);
    let r = s.saved(captures);
    assert forall|i: int| 0 <= i < r.panes.len() implies (#[trigger] r.panes[i]).pane_index
        == s.panes[o[i]].pane_index && 0 <= o[i] < s.panes.len() by {}
    assert forall|i: int, j: int| 0 <= i < j < r.panes.len() implies (
    #[trigger] r.panes[i]).pane_index != (#[trigger] r.panes[j]).pane_index by {
        assert(precedes(keys, o[i], o[j]));
        let a = o[i];
        let b = o[j];
        assert(a != b);
        if a < b {
            assert(s.panes[a].pane_index != s.panes[b].pane_index);
        } else {
            assert(s.panes[b].pane_index != s.panes[a].pane_index);
        }
    }
    assert forall|i: int| 0 <= i < r.panes.len() implies (#[trigger] r.panes[i]).pane_index
        < r.next_pane_index by {
        assert(s.panes[o[i]].pane_index < s.next_pane_index);
    }
}

/// What a session saves of a pane is what the pane is and what was captured of it: under the
/// pane's index stand its program, arguments, rows, columns and status, and the process, screen
/// and scrollback of its capture. Nothing else is saved, and the panes are saved by index.
pub proof fn law_saved_pane_is_what_was_captured(s: SessionView, captures: Seq<CaptureView>)
    requires
        s.wf(),
        captures.len() == s.panes.len(),
    ensures
        ({
            let saved = s.saved(captures).panes;
            &&& saved.len() == s.panes.len()
            &&& forall|k: int|
                0 <= k < s.panes.len() ==> exists|m: int|
                    0 <= m < saved.len() && (#[trigger] saved[m]).pane_index == (
                    #[trigger] s.panes[k]).pane_index
            &&& forall|m: int, k: int|
                0 <= m < saved.len() && 0 <= k < s.panes.len() && (#[trigger] saved[m]).pane_index
                    == (#[trigger] s.panes[k]).pane_index ==> keeps(
                    saved[m],
                    s.panes[k],
                    captures[k],
                )
            &&& forall|m: int|
                0 <= m < saved.len() ==> (#[trigger] saved[m]).cwd == s.meta.cwd
            &&& forall|m: int, n: int|
                0 <= m < n < saved.len() ==> (#[trigger] saved[m]).pane_index < (
                #[trigger] saved[n]).pane_index
        }),
{
    let keys = pane_keys(s.panes);
    let o = stable_order(keys);
    crate::list::law_stable_order(keys);
    let saved = s.saved(captures).panes;
    assert forall|k: int| 0 <= k < s.panes.len() implies exists|m: int|
        0 <= m < saved.len() && (#[trigger] saved[m]).pane_index == (
        #[trigger] s.panes[k]).pane_index by {
        crate::list::lemma_order_covers(keys, k);
        let m = choose|m: int| 0 <= m < o.len() && o[m] == k;
        assert(saved[m].pane_index == s.panes[k].pane_index);
    }
    assert forall|m: int, k: int|
        0 <= m < saved.len() && 0 <= k < s.panes.len() && (#[trigger] saved[m]).pane_index == (
        #[trigger] s.panes[k]).pane_index implies keeps(saved[m], s.panes[k], captures[k]) by {
        let a = o[m];
        assert(saved[m].pane_index == s.panes[a].pane_index);
        if a < k {
            assert(s.panes[a].pane_index != s.panes[k].pane_index);
        } else if k < a {
            assert(s.panes[k].pane_index != s.panes[a].pane_index);
        }
    }
    assert forall|m: int, n: int| 0 <= m < n < saved.len() implies (
    #[trigger] saved[m]).pane_index < (#[trigger] saved[n]).pane_index by {
        assert(precedes(keys, o[m], o[n]));
        let a = o[m];
        let b = o[n];
        if a < b {
            assert(s.panes[a].pane_index != s.panes[b].pane_index);
        } else {
            assert(s.panes[b].pane_index != s.panes[a].pane_index);
        }
    }
}

/// A saved pane holds what there is to a pane and to its capture.
pub open spec fn keeps(saved: SavedPaneView, p: PaneView, c: CaptureView) -> bool {
    &&& saved.pane_index == p.pane_index
    &&& saved.program == p.program
    &&& saved.args == p.args
    &&& saved.size.rows == p.size.rows
    &&& saved.size.cols == p.size.cols
    &&& saved.status == p.status
    &&& saved.child_pid == c.child_pid
    &&& saved.grid == c.grid
    &&& saved.scrollback_lines == c.scrollback_lines
}

/// What a session saves besides its panes: its name and directory, its tabs in their order, which
/// of them is active, the indices it would hand out next, and when it was last used.
pub proof fn law_saved_session_keeps_its_tabs(s: SessionView, captures: Seq<CaptureView>)
    ensures
        ({
            let saved = s.saved(captures);
            &&& saved.meta == s.meta
            &&& saved.tabs == s.tabs
            &&& saved.active_tab == s.active_tab
            &&& saved.next_pane_index == s.next_pane_index
            &&& saved.next_tab_index == s.next_tab_index
            &&& saved.last_active_ms == s.last_active_ms
        }),
{
}

/// A checkpoint holds every session, as it saves itself with its own captures, in the order the
/// sessions were created, and the words of all of them.
pub proof fn law_checkpoint_holds_every_session(a: AppView, captures: Seq<Seq<CaptureView>>)
    ensures
        ({
            let saved = a.checkpoint(captures);
            &&& saved.session_index_counter == a.session_index_counter
            &&& saved.sessions.len() == a.sessions.len()
            &&& forall|k: int|
                0 <= k < a.sessions.len() ==> saved.sessions.contains(
                    (#[trigger] a.sessions[k]).saved(captures[k]),
                )
            &&& forall|m: int, n: int|
                0 <= m < n < saved.sessions.len() ==> (#[trigger] saved.sessions[m]).meta.index
                    <= (#[trigger] saved.sessions[n]).meta.index
            &&& saved.used_words.len() == a.sessions.len()
            &&& forall|k: int|
                0 <= k < a.sessions.len() ==> #[trigger] saved.used_words[k]
                    == a.sessions[k].meta.word_id
        }),
{
    let keys = session_keys(a.sessions);
    let o = stable_order(keys);
    crate::list::law_stable_order(keys);
    let saved = a.checkpoint(captures);
    assert forall|k: int| 0 <= k < a.sessions.len() implies saved.sessions.contains(
        (#[trigger] a.sessions[k]).saved(captures[k]),
    ) by {
        crate::list::lemma_order_covers(keys, k);
        let m = choose|m: int| 0 <= m < o.len() && o[m] == k;
        assert(saved.sessions[m] == a.sessions[k].saved(captures[k]));
    }
    assert forall|m: int, n: int| 0 <= m < n < saved.sessions.len() implies (
    #[trigger] saved.sessions[m]).meta.index <= (#[trigger] saved.sessions[n]).meta.index by {
        assert(precedes(keys, o[m], o[n]));
    }
}

impl SessionState {
    /// Save the session. `captures` holds one capture per pane, in the order of the panes.
    pub fn snapshot(&self, captures: Vec<PaneCapture>) -> (r: PersistedSession)
        requires
            captures@.len() == self@.panes.len(),
        ensures
            r@ == self@.saved(views(captures@)),
    {
        let mut captures = captures;
        let mut keys: Vec<u64> = Vec::new();
        let mut i: usize = 0;
        while i < self.panes.len()
            invariant
                0 <= i <= self.panes@.len(),
                keys@.len() == i,
                forall|j: int| 0 <= j < i ==> keys@[j] == self.panes@[j].pane_index as u64,
            decreases self.panes@.len() - i,
        {
            keys.push(self.panes[i].pane_index as u64);
            i = i + 1;
        }
        assert(keys@ =~= pane_keys(self@.panes));
        let order = sorted_order(&keys);
        let ghost o = stable_order(keys@);
        let ghost caps = views(captures@);
        let ghost all = saved_panes(self@.panes, caps, self@.meta.cwd);
        let mut panes: Vec<PersistedPane> = Vec::new();
        let mut k: usize = 0;
        while k < order.len()
            invariant
                0 <= k <= order@.len(),
                positions(order@) == o,
                is_stable_order(keys@, o),
                keys@.len() == self.panes@.len(),
                captures@.len() == self.panes@.len(),
                caps.len() == self.panes@.len(),
                all == saved_panes(self@.panes, caps, self@.meta.cwd),
                forall|j: int|
                    k <= j < order@.len() ==> captures@[#[trigger] o[j]]@ == caps[o[j]],
                panes@.len() == k,
                forall|j: int| 0 <= j < k ==> (#[trigger] panes@[j])@ == all[o[j]],
            decreases order@.len() - k,
        {
            assert(o[k as int] == order@[k as int] as int);
            let at: usize = order[k];
            let mut capture = PaneCapture::empty();
            let ghost before = captures@;
            std::mem::swap(&mut capture, &mut captures[at]);
            let pane = &self.panes[at];
            assert(self@.panes[at as int] == self.panes@[at as int]@);
            panes.push(
                PersistedPane {
                    pane_index: pane.pane_index,
                    program: pane.program.clone(),
                    args: copy_texts(&pane.args),
                    size: PersistedTermSize { rows: pane.size.rows, cols: pane.size.cols },
                    status: pane.status,
                    child_pid: capture.child_pid,
                    grid: capture.grid,
                    scrollback_lines: capture.scrollback_lines,
                    cwd: self.meta.cwd.clone(),
                },
            );
            proof {
                assert forall|j: int| k + 1 <= j < order@.len() implies captures@[#[trigger] o[j]]@
                    == caps[o[j]] by {
                    assert(precedes(keys@, o[k as int], o[j]));
                    assert(captures@[o[j]] == before[o[j]]);
                }
            }
            k = k + 1;
        }
        assert(views(panes@) =~= arranged(all, o));
        let mut tabs: Vec<PersistedTab> = Vec::new();
        let mut t: usize = 0;
        while t < self.tabs.len()
            invariant
                0 <= t <= self.tabs@.len(),
                tabs@.len() == t,
                forall|j: int| 0 <= j < t ==> (#[trigger] tabs@[j])@ == self.tabs@[j]@,
            decreases self.tabs@.len() - t,
        {
            let tab = &self.tabs[t];
            tabs.push(
                PersistedTab {
                    tab_index: tab.tab_index,
                    name: tab.name.clone(),
                    layout: tab.layout.duplicate(),
                    focused_pane: tab.focused_pane,
                },
            );
            t = t + 1;
        }
        assert(views(tabs@) =~= self@.tabs);
        PersistedSession {
            meta: self.meta.copy(),
            next_pane_index: self.next_pane_index,
            panes,
            tabs,
            next_tab_index: self.next_tab_index,
            active_tab: self.active_tab,
            last_active_ms: self.last_active_ms,
        }
    }
}

pub open spec fn session_keys(sessions: Seq<SessionView>) -> Seq<u64> {
    Seq::new(sessions.len(), |i: int| sessions[i].meta.index as u64)
}

pub open spec fn capture_views(captures: Seq<Vec<PaneCapture>>) -> Seq<Seq<CaptureView>> {
    Seq::new(captures.len(), |i: int| views(captures[i]@))
}

impl AppView {
    /// The sessions as they are saved, in the order of their list.
    pub open spec fn saved_sessions(self, captures: Seq<Seq<CaptureView>>) -> Seq<SavedView> {
        Seq::new(self.sessions.len(), |i: int| self.sessions[i].saved(captures[i]))
    }

    /// The daemon's state as it is saved: its sessions in creation order, and their words.
    pub open spec fn checkpoint(self, captures: Seq<Seq<CaptureView>>) -> DaemonView {
        DaemonView {
            session_index_counter: self.session_index_counter,
            sessions: arranged(
                self.saved_sessions(captures),
                stable_order(session_keys(self.sessions)),
            ),
            used_words: Seq::new(
                self.sessions.len(),
                |i: int| self.sessions[i].meta.word_id,
            ),
        }
    }
}

impl ServerApp {
    /// Sort keys of the sessions: their creation order.
    pub fn session_order_keys(&self) -> (r: Vec<u64>)
        ensures
            r@ == session_keys(self@.sessions),
    {
        let mut keys: Vec<u64> = Vec::new();
        let mut i: usize = 0;
        while i < self.sessions.len()
            invariant
                0 <= i <= self.sessions@.len(),
                keys@.len() == i,
                forall|j: int| 0 <= j < i ==> keys@[j] == self.sessions@[j].meta.index as u64,
            decreases self.sessions@.len() - i,
        {
            keys.push(self.sessions[i].meta.index as u64);
            i = i + 1;
        }
        assert(keys@ =~= session_keys(self@.sessions));
        keys
    }

    /// Capture the daemon's state for saving. `captures` holds, for each session, one capture
    /// per pane.
    pub fn checkpoint_state(&self, captures: Vec<Vec<PaneCapture>>) -> (r: PersistedDaemonState)
        requires
            captures@.len() == self@.sessions.len(),
            forall|i: int|
                0 <= i < captures@.len() ==> (#[trigger] captures@[i])@.len()
                    == self@.sessions[i].panes.len(),
        ensures
            r@ == self@.checkpoint(capture_views(captures@)),
    {
        let mut captures = captures;
        let keys = self.session_order_keys();
        let order = sorted_order(&keys);
        let ghost o = stable_order(keys@);
        let ghost caps = capture_views(captures@);
        let ghost all = self@.saved_sessions(caps);
        let mut saved: Vec<PersistedSession> = Vec::new();
        let mut k: usize = 0;
        while k < order.len()
            invariant
                0 <= k <= order@.len(),
                positions(order@) == o,
                is_stable_order(keys@, o),
                keys@.len() == self.sessions@.len(),
                captures@.len() == self.sessions@.len(),
                caps.len() == self.sessions@.len(),
                all == self@.saved_sessions(caps),
                forall|j: int|
                    k <= j < order@.len() ==> views(captures@[#[trigger] o[j]]@) == caps[o[j]],
                forall|i: int|
                    0 <= i < caps.len() ==> (#[trigger] caps[i]).len()
                        == self@.sessions[i].panes.len(),
                saved@.len() == k,
                forall|j: int| 0 <= j < k ==> (#[trigger] saved@[j])@ == all[o[j]],
            decreases order@.len() - k,
        {
            assert(o[k as int] == order@[k as int] as int);
            let at: usize = order[k];
            let mut panes: Vec<PaneCapture> = Vec::new();
            let ghost before = captures@;
            std::mem::swap(&mut panes, &mut captures[at]);
            assert(self@.sessions[at as int] == self.sessions@[at as int]@);
            assert(views(panes@) == caps[at as int]);
            assert(panes@.len() == caps[at as int].len());
            saved.push(self.sessions[at].snapshot(panes));
            proof {
                assert forall|j: int| k + 1 <= j < order@.len() implies views(
                    captures@[#[trigger] o[j]]@,
                ) == caps[o[j]] by {
                    assert(precedes(keys@, o[k as int], o[j]));
                    assert(captures@[o[j]] == before[o[j]]);
                }
            }
            k = k + 1;
        }
        assert(views(saved@) =~= arranged(all, o));
        let mut words: Vec<String> = Vec::new();
        let mut i: usize = 0;
        while i < self.sessions.len()
            invariant
                0 <= i <= self.sessions@.len(),
                words@.len() == i,
                forall|j: int|
                    0 <= j < i ==> (#[trigger] words@[j])@ == self.sessions@[j].meta.word_id@,
            decreases self.sessions@.len() - i,
        {
            words.push(self.sessions[i].meta.word_id.clone());
            i = i + 1;
        }
        assert(views(words@) =~= self@.checkpoint(caps).used_words);
        PersistedDaemonState {
            session_index_counter: self.session_index_counter,
            sessions: saved,
            used_words: words,
        }
    }
}

} // verus!
