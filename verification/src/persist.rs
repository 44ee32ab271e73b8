//! Sessions as they are saved: to survive a restart of the daemon, or to be restored after they
//! were closed.

use crate::layout::LayoutNode;
use crate::protocol::{
    ClosedEntryView, ClosedSessionEntry, MetaView, SessionMeta, SessionStatus, TabView, TermSize,
};
use crate::terminal::{CellState, GridSnapshot, GridView};
use crate::text::views;
use vstd::prelude::*;

verus! {

/// A size in cells.
#[derive(Clone, Copy, Debug, PartialEq, Eq, Structural)]
pub struct PersistedTermSize {
    pub rows: u16,
    pub cols: u16,
}

impl PersistedTermSize {
    pub open spec fn term_size(self) -> TermSize {
        TermSize { rows: self.rows, cols: self.cols, pixel_width: 0, pixel_height: 0 }
    }

    /// The size a restored pane starts with; pixel dimensions are not saved.
    pub fn to_term_size(&self) -> (r: TermSize)
        ensures
            r == self.term_size(),
    {
        TermSize { rows: self.rows, cols: self.cols, pixel_width: 0, pixel_height: 0 }
    }
}

/// A saved pane.
#[derive(Debug)]
pub struct PersistedPane {
    pub pane_index: u32,
    pub program: String,
    pub args: Vec<String>,
    pub size: PersistedTermSize,
    pub status: SessionStatus,
    pub child_pid: Option<i32>,
    pub grid: GridSnapshot,
    pub scrollback_lines: Vec<Vec<CellState>>,
    pub cwd: String,
}

pub struct SavedPaneView {
    pub pane_index: u32,
    pub program: Seq<char>,
    pub args: Seq<Seq<char>>,
    pub size: PersistedTermSize,
    pub status: SessionStatus,
    pub child_pid: Option<i32>,
    pub grid: GridView,
    pub scrollback_lines: Seq<Seq<CellState>>,
    pub cwd: Seq<char>,
}

impl View for PersistedPane {
    type V = SavedPaneView;

    open spec fn view(&self) -> SavedPaneView {
        SavedPaneView {
            pane_index: self.pane_index,
            program: self.program@,
            args: views(self.args@),
            size: self.size,
            status: self.status,
            child_pid: self.child_pid,
            grid: self.grid@,
            scrollback_lines: views(self.scrollback_lines@),
            cwd: self.cwd@,
        }
    }
}

/// A saved tab.
#[derive(Debug)]
pub struct PersistedTab {
    pub tab_index: u32,
    pub name: String,
    pub layout: LayoutNode,
    pub focused_pane: u32,
}

impl View for PersistedTab {
    type V = TabView;

    open spec fn view(&self) -> TabView {
        TabView {
            tab_index: self.tab_index,
            name: self.name@,
            layout: self.layout@,
            focused_pane: self.focused_pane,
        }
    }
}

/// A saved session.
#[derive(Debug)]
pub struct PersistedSession {
    pub meta: SessionMeta,
    pub next_pane_index: u32,
    pub panes: Vec<PersistedPane>,
    pub tabs: Vec<PersistedTab>,
    pub next_tab_index: u32,
    pub active_tab: u32,
    pub last_active_ms: u64,
}

pub struct SavedView {
    pub meta: MetaView,
    pub next_pane_index: u32,
    pub panes: Seq<SavedPaneView>,
    pub tabs: Seq<TabView>,
    pub next_tab_index: u32,
    pub active_tab: u32,
    pub last_active_ms: u64,
}

impl View for PersistedSession {
    type V = SavedView;

    open spec fn view(&self) -> SavedView {
        SavedView {
            meta: self.meta@,
            next_pane_index: self.next_pane_index,
            panes: views(self.panes@),
            tabs: views(self.tabs@),
            next_tab_index: self.next_tab_index,
            active_tab: self.active_tab,
            last_active_ms: self.last_active_ms,
        }
    }
}

impl SavedView {
    /// What a saved live session satisfies: unique pane and tab indices below the next ones to be
    /// assigned, well-formed layouts, no pane shown twice.
    pub open spec fn wf(self) -> bool {
        &&& forall|i: int, j: int|
            0 <= i < j < self.panes.len() ==> (#[trigger] self.panes[i]).pane_index != (
            #[trigger] self.panes[j]).pane_index
        &&& forall|i: int|
            0 <= i < self.panes.len() ==> (#[trigger] self.panes[i]).pane_index
                < self.next_pane_index
        &&& forall|i: int, j: int|
            0 <= i < j < self.tabs.len() ==> (#[trigger] self.tabs[i]).tab_index != (
            #[trigger] self.tabs[j]).tab_index
        &&& forall|i: int| 0 <= i < self.tabs.len() ==> (#[trigger] self.tabs[i]).wf()
        &&& forall|i: int, j: int, p: u32|
            0 <= i < j < self.tabs.len() ==> !(#[trigger] self.tabs[i].has(p)
                && #[trigger] self.tabs[j].has(p))
        &&& forall|i: int|
            0 <= i < self.tabs.len() ==> (#[trigger] self.tabs[i]).tab_index < self.next_tab_index
    }
}

/// A closed session that can still be restored.
#[derive(Debug)]
pub struct PersistedClosedSession {
    pub closed_at_ms: u64,
    pub session: PersistedSession,
}

pub struct ClosedView {
    pub closed_at_ms: u64,
    pub session: SavedView,
}

impl View for PersistedClosedSession {
    type V = ClosedView;

    open spec fn view(&self) -> ClosedView {
        ClosedView { closed_at_ms: self.closed_at_ms, session: self.session@ }
    }
}

impl ClosedView {
    pub open spec fn word(self) -> Seq<char> {
        self.session.meta.word_id
    }

    /// How the session is offered to clients. The count of panes is kept to 32 bits.
    pub open spec fn entry(self) -> ClosedEntryView {
        ClosedEntryView {
            meta: self.session.meta,
            last_active_ms: self.session.last_active_ms,
            closed_at_ms: self.closed_at_ms,
            pane_count: self.session.panes.len() as u32,
        }
    }
}

impl PersistedClosedSession {
    /// Offer the session to clients.
    pub fn to_entry(&self) -> (r: ClosedSessionEntry)
        ensures
            r@ == self@.entry(),
    {
        ClosedSessionEntry {
            meta: self.session.meta.copy(),
            last_active_ms: self.session.last_active_ms,
            closed_at_ms: self.closed_at_ms,
            pane_count: self.session.panes.len() as u32,
        }
    }
}

/// The state of the daemon, as it is saved.
#[derive(Debug)]
pub struct PersistedDaemonState {
    pub session_index_counter: u32,
    pub sessions: Vec<PersistedSession>,
    /// Words that must not be handed out again.
    pub used_words: Vec<String>,
}

pub struct DaemonView {
    pub session_index_counter: u32,
    pub sessions: Seq<SavedView>,
    pub used_words: Seq<Seq<char>>,
}

impl View for PersistedDaemonState {
    type V = DaemonView;

    open spec fn view(&self) -> DaemonView {
        DaemonView {
            session_index_counter: self.session_index_counter,
            sessions: views(self.sessions@),
            used_words: views(self.used_words@),
        }
    }
}

/// The closed sessions, as they are saved.
#[derive(Debug)]
pub struct PersistedGraveyard {
    pub sessions: Vec<PersistedClosedSession>,
}

} // verus!
