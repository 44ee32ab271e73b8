//! A session: its panes, and the tabs that lay them out.

use crate::layout::{
    contains, first_of, focus_tree, next_focus_after_removal, ratios_tree, remove_pane, remove_tree,
    set_ratios, split, split_tree, swap, swap_tree, LayoutNode, SplitDir, Tree,
};
use crate::list::{
    first_where, group_views, lemma_first_where, lemma_first_where_is, lemma_first_where_none,
};
use crate::pane::{distinct_clients, PaneRelay, PaneView};
use crate::protocol::{
    tab_name, tab_not_found, ErrorView, KmuxError, MetaView, PaneInfo, PaneInfoView, SessionEntry,
    SessionEntryView, SessionMeta, TabInfo, TabView,
};
use crate::list::{arranged, positions, sorted_order, stable_order};
use crate::session_laws;
use crate::text::{decimal, decimal_text, format_pane_id, pane_id_text, views};
use vstd::prelude::*;

verus! {

/// One tab: a named tiling layout over a subset of the session's panes.
#[derive(Debug)]
pub struct TabState {
    pub tab_index: u32,
    pub name: String,
    pub layout: LayoutNode,
    /// The focused leaf.
    pub focused_pane: u32,
}

impl View for TabState {
    type V = TabView;

    open spec fn view(&self) -> TabView {
        TabView {
            tab_index: self.tab_index,
            name: self.name@,
            layout: self.layout@,
            focused_pane: self.focused_pane,
        }
    }
}

/// State of one session.
#[derive(Debug)]
pub struct SessionState {
    pub meta: SessionMeta,
    /// The pool of panes; tabs refer to them by index.
    pub panes: Vec<PaneRelay>,
    /// Next pane index to assign.
    pub next_pane_index: u32,
    pub tabs: Vec<TabState>,
    /// Next tab index to assign.
    pub next_tab_index: u32,
    /// Tab shown by default.
    pub active_tab: u32,
    /// Time of the last input, in milliseconds.
    pub last_active_ms: u64,
}

pub struct SessionView {
    pub meta: MetaView,
    pub panes: Seq<PaneView>,
    pub next_pane_index: u32,
    pub tabs: Seq<TabView>,
    pub next_tab_index: u32,
    pub active_tab: u32,
    pub last_active_ms: u64,
}

impl View for SessionState {
    type V = SessionView;

    open spec fn view(&self) -> SessionView {
        SessionView {
            meta: self.meta@,
            panes: views(self.panes@),
            next_pane_index: self.next_pane_index,
            tabs: views(self.tabs@),
            next_tab_index: self.next_tab_index,
            active_tab: self.active_tab,
            last_active_ms: self.last_active_ms,
        }
    }
}

/// Recognizes a pane by its index.
pub open spec fn is_pane(index: u32) -> spec_fn(PaneView) -> bool {
    |p: PaneView| p.pane_index == index
}

pub open spec fn pane_at(panes: Seq<PaneView>, index: u32) -> Option<int> {
    first_where(panes, is_pane(index))
}

/// Recognizes a tab by its index.
pub open spec fn is_tab(index: u32) -> spec_fn(TabView) -> bool {
    |t: TabView| t.tab_index == index
}

pub open spec fn tab_at(tabs: Seq<TabView>, index: u32) -> Option<int> {
    first_where(tabs, is_tab(index))
}

/// Recognizes a tab that shows a pane.
pub open spec fn shows(pane: u32) -> spec_fn(TabView) -> bool {
    |t: TabView| t.has(pane)
}

/// Where the tab that shows a pane stands.
pub open spec fn tab_showing(tabs: Seq<TabView>, pane: u32) -> Option<int> {
    first_where(tabs, shows(pane))
}

/// The indices of tabs, in their order.
pub open spec fn tab_order(tabs: Seq<TabView>) -> Seq<u32> {
    Seq::new(tabs.len(), |i: int| tabs[i].tab_index)
}

impl TabView {
    /// Whether the tab shows a pane.
    pub open spec fn has(self, pane: u32) -> bool {
        self.layout.leaves().contains(pane)
    }

    /// A well-formed layout without repeated panes, with the focus on one of them.
    pub open spec fn wf(self) -> bool {
        &&& self.layout.well_formed()
        &&& self.layout.leaves().no_duplicates()
        &&& self.has(self.focused_pane)
    }

    /// The tab after `new` was split off from `from`, or from the focused pane where `from` is
    /// gone. The new pane takes the focus.
    pub open spec fn split_off(self, from: u32, new: u32, dir: SplitDir) -> TabView {
        let target = if self.has(from) {
            from
        } else {
            self.focused_pane
        };
        TabView {
            layout: match split_tree(self.layout, target, new, dir) {
                Some(t) => t,
                None => self.layout,
            },
            focused_pane: new,
            ..self
        }
    }

    /// The tab with two panes exchanged, where it shows both.
    pub open spec fn swapped(self, a: u32, b: u32) -> TabView {
        if a != b && self.has(a) && self.has(b) {
            TabView { layout: swap_tree(self.layout, a, b), ..self }
        } else {
            self
        }
    }

    /// The tab with the weights of the split at `path` changed, where they fit it.
    pub open spec fn reweighted(self, path: Seq<u32>, ratios: Seq<u16>) -> TabView {
        match ratios_tree(self.layout, path, ratios) {
            Some(t) => TabView { layout: t, ..self },
            None => self,
        }
    }

    /// The tab with the focus on a pane it shows.
    pub open spec fn refocused(self, pane: u32) -> TabView {
        if self.has(pane) {
            TabView { focused_pane: pane, ..self }
        } else {
            self
        }
    }

    /// The tab without one of its panes. A pane that held the focus hands it to its previous
    /// sibling, else to its next.
    pub open spec fn without_pane(self, pane: u32) -> TabView {
        let layout = match remove_tree(self.layout, pane) {
            Some(t) => t,
            None => self.layout,
        };
        TabView {
            layout,
            focused_pane: if self.focused_pane == pane {
                match focus_tree(self.layout, pane) {
                    Some(f) => f,
                    None => match first_of(layout.leaves()) {
                        Some(f) => f,
                        None => pane,
                    },
                }
            } else {
                self.focused_pane
            },
            ..self
        }
    }
}

/// A tab of one pane.
pub open spec fn single_tab(tab_index: u32, pane: u32) -> TabView {
    TabView {
        tab_index,
        name: decimal_text(tab_index as nat + 1),
        layout: Tree::Leaf(pane),
        focused_pane: pane,
    }
}

/// `panes` with a pane put in, in place of one with the same index if there is one.
pub open spec fn put_pane(panes: Seq<PaneView>, pane: PaneView) -> Seq<PaneView> {
    match pane_at(panes, pane.pane_index) {
        Some(i) => panes.update(i, pane),
        None => panes.push(pane),
    }
}

/// `panes` without the pane of an index.
pub open spec fn drop_pane(panes: Seq<PaneView>, index: u32) -> Seq<PaneView> {
    match pane_at(panes, index) {
        Some(i) => panes.remove(i),
        None => panes,
    }
}

/// `panes` without the panes of several indices.
pub open spec fn drop_panes(panes: Seq<PaneView>, indices: Seq<u32>) -> Seq<PaneView>
    decreases indices.len(),
{
    if indices.len() == 0 {
        panes
    } else {
        drop_pane(drop_panes(panes, indices.drop_last()), indices.last())
    }
}

/// Result of removing a single pane from its tab.
#[derive(Debug)]
pub enum PaneCloseOutcome {
    /// The pane's tab is still alive with an updated layout.
    TabUpdated { tab_index: u32, layout: LayoutNode, focused_pane: u32 },
    /// The pane was the last one in its tab; the tab was removed.
    TabClosed { tab_index: u32 },
    /// The pane was the last one in the session's last tab; the session closes.
    SessionClosed,
    /// The pane or its session was already gone.
    Gone,
}

pub enum CloseView {
    TabUpdated(u32, Tree, u32),
    TabClosed(u32),
    SessionClosed,
    Gone,
}

impl View for PaneCloseOutcome {
    type V = CloseView;

    open spec fn view(&self) -> CloseView {
        match self {
            PaneCloseOutcome::TabUpdated { tab_index, layout, focused_pane } =>
                CloseView::TabUpdated(*tab_index, layout@, *focused_pane),
            PaneCloseOutcome::TabClosed { tab_index } => CloseView::TabClosed(*tab_index),
            PaneCloseOutcome::SessionClosed => CloseView::SessionClosed,
            PaneCloseOutcome::Gone => CloseView::Gone,
        }
    }
}

/// The tab shown by default once the tab `gone` has left `tabs`.
pub open spec fn next_active(active: u32, gone: u32, tabs: Seq<TabView>) -> u32 {
    if active == gone {
        if tabs.len() > 0 {
            tabs[0].tab_index
        } else {
            0
        }
    } else {
        active
    }
}

impl SessionView {
    pub open spec fn has_pane(self, index: u32) -> bool {
        pane_at(self.panes, index) is Some
    }

    /// What every operation keeps: pane and tab indices are unique and below the next ones to be
    /// assigned, layouts are well formed, no pane is shown twice, and every pane shown exists.
    pub open spec fn wf(self) -> bool {
        &&& forall|i: int, j: int|
            0 <= i < j < self.panes.len() ==> (#[trigger] self.panes[i]).pane_index != (
            #[trigger] self.panes[j]).pane_index
        &&& forall|i: int, j: int|
            0 <= i < j < self.tabs.len() ==> (#[trigger] self.tabs[i]).tab_index != (
            #[trigger] self.tabs[j]).tab_index
        &&& forall|i: int| 0 <= i < self.tabs.len() ==> (#[trigger] self.tabs[i]).wf()
        &&& forall|i: int, j: int, p: u32|
            0 <= i < j < self.tabs.len() ==> !(#[trigger] self.tabs[i].has(p)
                && #[trigger] self.tabs[j].has(p))
        &&& forall|i: int, p: u32|
            0 <= i < self.tabs.len() && #[trigger] self.tabs[i].has(p) ==> self.has_pane(p)
        &&& forall|i: int|
            0 <= i < self.panes.len() ==> (#[trigger] self.panes[i]).pane_index
                < self.next_pane_index
        &&& forall|i: int|
            0 <= i < self.tabs.len() ==> (#[trigger] self.tabs[i]).tab_index < self.next_tab_index
        &&& forall|i: int|
            0 <= i < self.panes.len() ==> distinct_clients((#[trigger] self.panes[i]).clients)
    }

    /// The session with the tab `index` moved to a position; positions past the end mean the end.
    pub open spec fn reordered(self, index: u32, position: u32) -> SessionView {
        match tab_at(self.tabs, index) {
            Some(i) => {
                let rest = self.tabs.remove(i);
                let at = if position < rest.len() {
                    position as int
                } else {
                    rest.len() as int
                };
                SessionView { tabs: rest.insert(at, self.tabs[i]), ..self }
            },
            None => self,
        }
    }

    /// The session with one of its tabs changed.
    pub open spec fn with_tab(self, index: u32, f: spec_fn(TabView) -> TabView) -> SessionView {
        match tab_at(self.tabs, index) {
            Some(i) => SessionView { tabs: self.tabs.update(i, f(self.tabs[i])), ..self },
            None => self,
        }
    }

    /// The session with a pane index handed out.
    pub open spec fn pane_reserved(self) -> SessionView {
        SessionView { next_pane_index: (self.next_pane_index + 1) as u32, ..self }
    }

    /// The session with a pane index and a tab index handed out.
    pub open spec fn tab_reserved(self) -> SessionView {
        SessionView {
            next_pane_index: (self.next_pane_index + 1) as u32,
            next_tab_index: (self.next_tab_index + 1) as u32,
            ..self
        }
    }

    /// The session with a fresh pane in a tab of its own.
    pub open spec fn tab_added(self, index: u32, pane: PaneView) -> SessionView {
        SessionView {
            panes: put_pane(self.panes, pane),
            tabs: self.tabs.push(single_tab(index, pane.pane_index)),
            ..self
        }
    }

    /// The session without one of its tabs and the panes it shows.
    pub open spec fn tab_closed(self, index: u32) -> SessionView {
        match tab_at(self.tabs, index) {
            Some(i) => {
                let tabs = self.tabs.remove(i);
                SessionView {
                    panes: drop_panes(self.panes, self.tabs[i].layout.leaves()),
                    tabs,
                    active_tab: next_active(self.active_tab, index, tabs),
                    ..self
                }
            },
            None => self,
        }
    }

    /// The session with a fresh pane split off in a tab. Where the tab is gone, the pane is kept
    /// all the same.
    pub open spec fn pane_split(
        self,
        index: u32,
        from: u32,
        dir: SplitDir,
        pane: PaneView,
    ) -> SessionView {
        let kept = SessionView { panes: put_pane(self.panes, pane), ..self };
        match tab_at(self.tabs, index) {
            Some(i) => SessionView {
                tabs: self.tabs.update(
                    i,
                    self.tabs[i].split_off(from, pane.pane_index, dir),
                ),
                ..kept
            },
            None => kept,
        }
    }

    /// The session without a pane, and what became of the tab that showed it.
    pub open spec fn pane_closed(self, pane: u32) -> (SessionView, CloseView) {
        let left = SessionView { panes: drop_pane(self.panes, pane), ..self };
        match tab_showing(self.tabs, pane) {
            None => (
                left,
                if left.panes.len() == 0 {
                    CloseView::SessionClosed
                } else {
                    CloseView::Gone
                },
            ),
            Some(i) => {
                let tab = self.tabs[i];
                if tab.layout.leaves().len() <= 1 {
                    let tabs = self.tabs.remove(i);
                    (
                        SessionView {
                            tabs,
                            active_tab: next_active(self.active_tab, tab.tab_index, tabs),
                            ..left
                        },
                        if tabs.len() == 0 {
                            CloseView::SessionClosed
                        } else {
                            CloseView::TabClosed(tab.tab_index)
                        },
                    )
                } else {
                    let new = tab.without_pane(pane);
                    (
                        SessionView { tabs: self.tabs.update(i, new), ..left },
                        CloseView::TabUpdated(tab.tab_index, new.layout, new.focused_pane),
                    )
                }
            },
        }
    }

    /// How the session is reported to clients: its panes by index.
    pub open spec fn entry(self) -> SessionEntryView {
        SessionEntryView {
            meta: self.meta,
            panes: arranged(
                pane_infos(self.panes, self.meta.word_id),
                stable_order(pane_keys(self.panes)),
            ),
            tabs: self.tabs,
            active_tab: self.active_tab,
            peer: None,
        }
    }
}

pub open spec fn pane_infos(panes: Seq<PaneView>, word: Seq<char>) -> Seq<PaneInfoView> {
    Seq::new(panes.len(), |i: int| panes[i].info(word))
}

pub open spec fn pane_keys(panes: Seq<PaneView>) -> Seq<u64> {
    Seq::new(panes.len(), |i: int| panes[i].pane_index as u64)
}

// ─── Tabs ────────────────────────────────────────────────────────────────────

impl TabState {
    /// A tab of one pane, named by its position in the order of creation.
    pub fn single(tab_index: u32, pane_index: u32) -> (r: TabState)
        ensures
            r@ == single_tab(tab_index, pane_index),
    {
        TabState {
            tab_index,
            name: decimal(tab_index as u64 + 1),
            layout: LayoutNode::single(pane_index),
            focused_pane: pane_index,
        }
    }

    /// Report the tab to clients.
    pub fn to_info(&self) -> (r: TabInfo)
        ensures
            r@ == self@,
    {
        TabInfo {
            tab_index: self.tab_index,
            name: self.name.clone(),
            layout: self.layout.duplicate(),
            focused_pane: self.focused_pane,
        }
    }

    /// Whether the tab shows a pane.
    pub fn shows_pane(&self, pane_index: u32) -> (r: bool)
        ensures
            r == self@.has(pane_index),
    {
        let leaves = self.layout.leaves();
        contains(&leaves, pane_index)
    }

    fn split_off(&mut self, from_pane: u32, new_pane: u32, dir: SplitDir)
        requires
            old(self)@.layout.sized(),
        ensures
            final(self)@ == old(self)@.split_off(from_pane, new_pane, dir),
    {
        let target: u32 = if self.shows_pane(from_pane) {
            from_pane
        } else {
            self.focused_pane
        };
        let _done = split(&mut self.layout, target, new_pane, dir);
        self.focused_pane = new_pane;
    }

    fn swap(&mut self, a: u32, b: u32)
        ensures
            final(self)@ == old(self)@.swapped(a, b),
    {
        let _done = swap(&mut self.layout, a, b);
    }

    fn reweight(&mut self, path: &[u32], ratios: &[u16])
        ensures
            final(self)@ == old(self)@.reweighted(path@, ratios@),
    {
        let _done = set_ratios(&mut self.layout, path, ratios);
    }

    fn set_layout(&mut self, layout: LayoutNode)
        ensures
            final(self)@ == (TabView { layout: layout@, ..old(self)@ }),
    {
        self.layout = layout;
    }

    fn refocus(&mut self, pane_index: u32)
        ensures
            final(self)@ == old(self)@.refocused(pane_index),
    {
        if self.shows_pane(pane_index) {
            self.focused_pane = pane_index;
        }
    }

    fn remove_leaf(&mut self, pane_index: u32)
        requires
            old(self)@.layout.sized(),
        ensures
            final(self)@ == old(self)@.without_pane(pane_index),
    {
        let next = next_focus_after_removal(&self.layout, pane_index);
        let _done = remove_pane(&mut self.layout, pane_index);
        if self.focused_pane == pane_index {
            self.focused_pane = match next {
                Some(f) => f,
                None => {
                    let leaves = self.layout.leaves();
                    if leaves.len() > 0 {
                        leaves[0]
                    } else {
                        pane_index
                    }
                },
            };
        }
    }
}

// ─── Sessions ────────────────────────────────────────────────────────────────

impl SessionState {
    /// A session with one pane in one tab.
    pub fn new(meta: SessionMeta, pane: PaneRelay, now_ms: u64) -> (r: SessionState)
        requires
            pane@.pane_index == 0,
        ensures
            r@ == (SessionView {
                meta: meta@,
                panes: seq![pane@],
                next_pane_index: 1,
                tabs: seq![single_tab(0, 0)],
                next_tab_index: 1,
                active_tab: 0,
                last_active_ms: now_ms,
            }),
            distinct_clients(pane@.clients) ==> r@.wf(),
    {
        let r = SessionState {
            meta,
            panes: vec![pane],
            next_pane_index: 1,
            tabs: vec![TabState::single(0, 0)],
            next_tab_index: 1,
            active_tab: 0,
            last_active_ms: now_ms,
        };
        proof {
            assert(r@.panes =~= seq![pane@]);
            assert(r@.tabs =~= seq![single_tab(0, 0)]);
            session_laws::lemma_first_session_wf(r@);
        }
        r
    }

    /// Where a tab stands.
    pub fn tab_position(&self, tab_index: u32) -> (r: Option<usize>)
        ensures
            match r {
                Some(i) => i < self.tabs@.len() && tab_at(self@.tabs, tab_index) == Some(i as int),
                None => tab_at(self@.tabs, tab_index) is None,
            },
    {
        let mut i: usize = 0;
        while i < self.tabs.len()
            invariant
                0 <= i <= self.tabs@.len(),
                forall|j: int| 0 <= j < i ==> !is_tab(tab_index)(#[trigger] self@.tabs[j]),
            decreases self.tabs@.len() - i,
        {
            assert(self@.tabs[i as int] == self.tabs@[i as int]@);
            if self.tabs[i].tab_index == tab_index {
                proof {
                    lemma_first_where_is(self@.tabs, is_tab(tab_index), i as int);
                }
                return Some(i);
            }
            i = i + 1;
        }
        proof {
            lemma_first_where_none(self@.tabs, is_tab(tab_index));
        }
        None
    }

    /// Where a pane stands.
    pub fn pane_position(&self, pane_index: u32) -> (r: Option<usize>)
        ensures
            match r {
                Some(i) => i < self.panes@.len() && pane_at(self@.panes, pane_index) == Some(
                    i as int,
                ),
                None => pane_at(self@.panes, pane_index) is None,
            },
    {
        let mut i: usize = 0;
        while i < self.panes.len()
            invariant
                0 <= i <= self.panes@.len(),
                forall|j: int| 0 <= j < i ==> !is_pane(pane_index)(#[trigger] self@.panes[j]),
            decreases self.panes@.len() - i,
        {
            assert(self@.panes[i as int] == self.panes@[i as int]@);
            if self.panes[i].pane_index == pane_index {
                proof {
                    lemma_first_where_is(self@.panes, is_pane(pane_index), i as int);
                }
                return Some(i);
            }
            i = i + 1;
        }
        proof {
            lemma_first_where_none(self@.panes, is_pane(pane_index));
        }
        None
    }

    /// The pane at a position, to change it.
    pub fn pane_slot(&mut self, p: usize) -> (r: &mut PaneRelay)
        requires
            p < old(self).panes@.len(),
        ensures
            *r == old(self).panes@[p as int],
            final(self)@ == (SessionView {
                panes: old(self)@.panes.update(p as int, final(r)@),
                ..old(self)@
            }),
    {
        broadcast use group_views;

        &mut self.panes[p]
    }

    /// Find a tab by index.
    pub fn tab(&self, tab_index: u32) -> (r: Option<&TabState>)
        ensures
            match r {
                Some(t) => tab_at(self@.tabs, tab_index) is Some && t@ == self@.tabs[tab_at(
                    self@.tabs,
                    tab_index,
                )->0],
                None => tab_at(self@.tabs, tab_index) is None,
            },
    {
        match self.tab_position(tab_index) {
            Some(i) => Some(&self.tabs[i]),
            None => None,
        }
    }

    /// Find a tab by index, to change it.
    pub fn tab_mut(&mut self, tab_index: u32) -> (r: Option<&mut TabState>)
        ensures
            match r {
                Some(t) => {
                    &&& tab_at(old(self)@.tabs, tab_index) is Some
                    &&& t@ == old(self)@.tabs[tab_at(old(self)@.tabs, tab_index)->0]
                    &&& final(self)@ == (SessionView {
                        tabs: old(self)@.tabs.update(
                            tab_at(old(self)@.tabs, tab_index)->0,
                            final(t)@,
                        ),
                        ..old(self)@
                    })
                },
                None => tab_at(old(self)@.tabs, tab_index) is None && final(self)@ == old(self)@,
            },
    {
        broadcast use group_views;

        match self.tab_position(tab_index) {
            Some(i) => {
                assert(self@.tabs[i as int] == self.tabs@[i as int]@);
                Some(&mut self.tabs[i])
            },
            None => None,
        }
    }

    /// The tab (index) that shows the given pane, if any.
    pub fn tab_of_pane(&self, pane_index: u32) -> (r: Option<u32>)
        ensures
            r == match tab_showing(self@.tabs, pane_index) {
                Some(i) => Some(self@.tabs[i].tab_index),
                None => None,
            },
    {
        match self.showing_position(pane_index) {
            Some(i) => Some(self.tabs[i].tab_index),
            None => None,
        }
    }

    fn showing_position(&self, pane_index: u32) -> (r: Option<usize>)
        ensures
            match r {
                Some(i) => i < self.tabs@.len() && tab_showing(self@.tabs, pane_index) == Some(
                    i as int,
                ),
                None => tab_showing(self@.tabs, pane_index) is None,
            },
    {
        let mut i: usize = 0;
        while i < self.tabs.len()
            invariant
                0 <= i <= self.tabs@.len(),
                forall|j: int| 0 <= j < i ==> !shows(pane_index)(#[trigger] self@.tabs[j]),
            decreases self.tabs@.len() - i,
        {
            assert(self@.tabs[i as int] == self.tabs@[i as int]@);
            if self.tabs[i].shows_pane(pane_index) {
                proof {
                    lemma_first_where_is(self@.tabs, shows(pane_index), i as int);
                }
                return Some(i);
            }
            i = i + 1;
        }
        proof {
            lemma_first_where_none(self@.tabs, shows(pane_index));
        }
        None
    }

    /// Report all tabs to clients.
    pub fn tab_infos(&self) -> (r: Vec<TabInfo>)
        ensures
            views(r@) == self@.tabs,
    {
        let mut out: Vec<TabInfo> = Vec::new();
        let mut i: usize = 0;
        while i < self.tabs.len()
            invariant
                0 <= i <= self.tabs@.len(),
                out@.len() == i,
                forall|j: int| 0 <= j < i ==> (#[trigger] out@[j])@ == self.tabs@[j]@,
            decreases self.tabs@.len() - i,
        {
            out.push(self.tabs[i].to_info());
            i = i + 1;
        }
        assert(views(out@) =~= self@.tabs);
        out
    }

    /// The indices of the tabs, in their order.
    pub fn tab_indices(&self) -> (r: Vec<u32>)
        ensures
            r@ == tab_order(self@.tabs),
    {
        let mut out: Vec<u32> = Vec::new();
        let mut i: usize = 0;
        while i < self.tabs.len()
            invariant
                0 <= i <= self.tabs@.len(),
                out@.len() == i,
                forall|j: int| 0 <= j < i ==> out@[j] == self.tabs@[j].tab_index,
            decreases self.tabs@.len() - i,
        {
            out.push(self.tabs[i].tab_index);
            i = i + 1;
        }
        assert(out@ =~= tab_order(self@.tabs));
        out
    }

    /// Move a tab and return the complete order. A tab the session does not have moves nothing.
    pub fn reorder_tab(&mut self, tab_index: u32, new_position: u32) -> (r: Vec<u32>)
        ensures
            final(self)@ == old(self)@.reordered(tab_index, new_position),
            r@ == tab_order(final(self)@.tabs),
            old(self)@.wf() ==> final(self)@.wf(),
    {
        broadcast use group_views;

        let ghost before = self@;
        if let Some(i) = self.tab_position(tab_index) {
            let tab = self.tabs.remove(i);
            let end: usize = self.tabs.len();
            let at: usize = if (new_position as u64) < end as u64 {
                new_position as usize
            } else {
                end
            };
            self.tabs.insert(at, tab);
        }
        proof {
            if before.wf() {
                session_laws::law_reorder_keeps_wf(before, tab_index, new_position);
            }
        }
        self.tab_indices()
    }

    /// Hand out the next pane index.
    pub fn reserve_pane(&mut self) -> (r: u32)
        requires
            old(self)@.next_pane_index < u32::MAX,
        ensures
            r == old(self)@.next_pane_index,
            final(self)@ == old(self)@.pane_reserved(),
            old(self)@.wf() ==> final(self)@.wf(),
    {
        let index: u32 = self.next_pane_index;
        self.next_pane_index = index + 1;
        proof {
            assert(self@.panes == old(self)@.panes);
            assert(self@.tabs == old(self)@.tabs);
        }
        index
    }

    /// Hand out the next pane index and the next tab index.
    pub fn reserve_tab(&mut self) -> (r: (u32, u32))
        requires
            old(self)@.next_pane_index < u32::MAX,
            old(self)@.next_tab_index < u32::MAX,
        ensures
            r == (old(self)@.next_pane_index, old(self)@.next_tab_index),
            final(self)@ == old(self)@.tab_reserved(),
            old(self)@.wf() ==> final(self)@.wf(),
    {
        let pane: u32 = self.next_pane_index;
        self.next_pane_index = pane + 1;
        let tab: u32 = self.next_tab_index;
        self.next_tab_index = tab + 1;
        (pane, tab)
    }

    /// Put a pane into the pool, in place of one with the same index if there is one.
    pub fn put_pane(&mut self, pane: PaneRelay)
        ensures
            final(self)@ == (SessionView {
                panes: put_pane(old(self)@.panes, pane@),
                ..old(self)@
            }),
    {
        broadcast use group_views;

        match self.pane_position(pane.pane_index) {
            Some(i) => {
                self.panes.set(i, pane);
            },
            None => {
                self.panes.push(pane);
            },
        }
    }

    /// Take a pane out of the pool, if it is there.
    pub fn drop_pane(&mut self, pane_index: u32)
        ensures
            final(self)@ == (SessionView {
                panes: drop_pane(old(self)@.panes, pane_index),
                ..old(self)@
            }),
    {
        broadcast use group_views;

        match self.pane_position(pane_index) {
            Some(i) => {
                let _gone = self.panes.remove(i);
            },
            None => {},
        }
    }

    /// Add a fresh pane in a tab of its own.
    pub fn add_tab(&mut self, tab_index: u32, pane: PaneRelay) -> (r: TabInfo)
        ensures
            final(self)@ == old(self)@.tab_added(tab_index, pane@),
            r@ == single_tab(tab_index, pane@.pane_index),
    {
        broadcast use group_views;

        let pane_index: u32 = pane.pane_index;
        self.put_pane(pane);
        let tab = TabState::single(tab_index, pane_index);
        let info = tab.to_info();
        self.tabs.push(tab);
        info
    }

    /// Remove a tab and every pane it shows.
    pub fn remove_tab(&mut self, tab_index: u32) -> (r: bool)
        ensures
            r == (tab_at(old(self)@.tabs, tab_index) is Some),
            final(self)@ == old(self)@.tab_closed(tab_index),
            old(self)@.wf() ==> final(self)@.wf(),
    {
        broadcast use group_views;

        let ghost before = self@;
        match self.tab_position(tab_index) {
            Some(i) => {
                let leaves = self.tabs[i].layout.leaves();
                self.drop_panes(&leaves);
                let _gone = self.tabs.remove(i);
                if self.active_tab == tab_index {
                    self.active_tab = if self.tabs.len() > 0 {
                        self.tabs[0].tab_index
                    } else {
                        0
                    };
                }
                proof {
                    assert(self.tabs@.len() > 0 ==> self@.tabs[0] == self.tabs@[0]@);
                    if before.wf() {
                        session_laws::law_close_tab_keeps_wf(before, tab_index);
                    }
                }
                true
            },
            None => false,
        }
    }

    fn drop_panes(&mut self, indices: &Vec<u32>)
        ensures
            final(self)@ == (SessionView {
                panes: drop_panes(old(self)@.panes, indices@),
                ..old(self)@
            }),
            final(self).tabs == old(self).tabs,
            final(self).active_tab == old(self).active_tab,
    {
        let ghost start = *self;
        let mut k: usize = 0;
        assert(indices@.take(0).len() == 0);
        while k < indices.len()
            invariant
                0 <= k <= indices@.len(),
                self@ == (SessionView {
                    panes: drop_panes(start@.panes, indices@.take(k as int)),
                    ..start@
                }),
                self.tabs == start.tabs,
                self.active_tab == start.active_tab,
            decreases indices@.len() - k,
        {
            proof {
                assert(indices@.take(k as int + 1).drop_last() =~= indices@.take(k as int));
                assert(indices@.take(k as int + 1).last() == indices@[k as int]);
            }
            self.drop_pane_only(indices[k]);
            k = k + 1;
        }
        assert(indices@.take(indices@.len() as int) =~= indices@);
    }

    fn drop_pane_only(&mut self, pane_index: u32)
        ensures
            final(self)@ == (SessionView {
                panes: drop_pane(old(self)@.panes, pane_index),
                ..old(self)@
            }),
            final(self).tabs == old(self).tabs,
            final(self).active_tab == old(self).active_tab,
    {
        broadcast use group_views;

        match self.pane_position(pane_index) {
            Some(i) => {
                let _gone = self.panes.remove(i);
            },
            None => {},
        }
    }

    /// Rename a tab.
    pub fn rename_tab(&mut self, tab_index: u32, new_name: &str) -> (r: Result<(), KmuxError>)
        ensures
            final(self)@ == old(self)@.with_tab(tab_index, named(new_name@)),
            match r {
                Ok(_) => tab_at(old(self)@.tabs, tab_index) is Some,
                Err(e) => tab_at(old(self)@.tabs, tab_index) is None && e@
                    == ErrorView::SessionNotFound(
                    tab_name(old(self)@.meta.word_id, tab_index),
                ),
            },
            old(self)@.wf() ==> final(self)@.wf(),
    {
        let ghost before = self@;
        match self.tab_position(tab_index) {
            Some(i) => {
                self.tabs[i].name = new_name.to_owned();
                proof {
                    assert(self@.tabs =~= before.tabs.update(
                        i as int,
                        named(new_name@)(before.tabs[i as int]),
                    ));
                    if before.wf() {
                        lemma_first_where(before.tabs, is_tab(tab_index));
                        session_laws::lemma_tab_update_keeps_wf(
                            before,
                            i as int,
                            named(new_name@)(before.tabs[i as int]),
                        );
                    }
                }
                Ok(())
            },
            None => Err(tab_not_found(self.meta.word_id.as_str(), tab_index)),
        }
    }

    /// Check that a pane can be split, and hand out the index of the new one.
    pub fn begin_split(&mut self, tab_index: u32, from_pane: u32) -> (r: Result<u32, KmuxError>)
        requires
            old(self)@.next_pane_index < u32::MAX,
        ensures
            match tab_at(old(self)@.tabs, tab_index) {
                None => {
                    &&& final(self)@ == old(self)@
                    &&& r matches Err(e) && e@ == ErrorView::SessionNotFound(
                        tab_name(old(self)@.meta.word_id, tab_index),
                    )
                },
                Some(i) => if old(self)@.tabs[i].has(from_pane) {
                    &&& final(self)@ == old(self)@.pane_reserved()
                    &&& r matches Ok(n) && n == old(self)@.next_pane_index
                } else {
                    &&& final(self)@ == old(self)@
                    &&& r matches Err(e) && e@ == ErrorView::SessionNotFound(
                        pane_id_text(old(self)@.meta.word_id, from_pane),
                    )
                },
            },
            old(self)@.wf() ==> final(self)@.wf(),
    {
        match self.tab_position(tab_index) {
            None => Err(tab_not_found(self.meta.word_id.as_str(), tab_index)),
            Some(i) => {
                assert(self@.tabs[i as int] == self.tabs@[i as int]@);
                if self.tabs[i].shows_pane(from_pane) {
                    Ok(self.reserve_pane())
                } else {
                    Err(
                        KmuxError::SessionNotFound {
                            name: format_pane_id(self.meta.word_id.as_str(), from_pane),
                        },
                    )
                }
            },
        }
    }

    /// Put a freshly spawned pane beside the one it was split off from.
    pub fn finish_split(
        &mut self,
        tab_index: u32,
        from_pane: u32,
        dir: SplitDir,
        pane: PaneRelay,
    ) -> (r: Result<(LayoutNode, u32), KmuxError>)
        requires
            old(self)@.wf(),
        ensures
            final(self)@ == old(self)@.pane_split(tab_index, from_pane, dir, pane@),
            match tab_at(old(self)@.tabs, tab_index) {
                None => r matches Err(e) && e@ == ErrorView::SessionNotFound(
                    tab_name(old(self)@.meta.word_id, tab_index),
                ),
                Some(i) => {
                    &&& r matches Ok(v) && v.0@ == final(self)@.tabs[i].layout && v.1
                        == pane@.pane_index
                },
            },
    {
        let ghost before = self@;
        let new_index: u32 = pane.pane_index;
        self.put_pane(pane);
        match self.tab_position(tab_index) {
            None => Err(tab_not_found(self.meta.word_id.as_str(), tab_index)),
            Some(i) => {
                proof {
                    assert(self@.tabs[i as int] == self.tabs@[i as int]@);
                    assert(before.tabs[i as int].wf());
                    session_laws::lemma_well_formed_sized(before.tabs[i as int].layout);
                }
                let ghost mid = self@;
                self.tabs[i].split_off(from_pane, new_index, dir);
                proof {
                    assert(self@.tabs =~= mid.tabs.update(
                        i as int,
                        mid.tabs[i as int].split_off(from_pane, new_index, dir),
                    ));
                }
                Ok((self.tabs[i].layout.duplicate(), self.tabs[i].focused_pane))
            },
        }
    }

    /// Swap two panes' positions within a tab. Returns the layout and the focus.
    pub fn swap_panes(&mut self, tab_index: u32, a: u32, b: u32) -> (r: Result<
        (LayoutNode, u32),
        KmuxError,
    >)
        ensures
            final(self)@ == old(self)@.with_tab(tab_index, trading(a, b)),
            layout_answer(old(self)@, final(self)@, tab_index, r),
            old(self)@.wf() ==> final(self)@.wf(),
    {
        let ghost before = self@;
        match self.tab_position(tab_index) {
            None => Err(tab_not_found(self.meta.word_id.as_str(), tab_index)),
            Some(i) => {
                assert(self@.tabs[i as int] == self.tabs@[i as int]@);
                self.tabs[i].swap(a, b);
                proof {
                    let t = trading(a, b)(before.tabs[i as int]);
                    assert(self@.tabs =~= before.tabs.update(i as int, t));
                    lemma_first_where(before.tabs, is_tab(tab_index));
                    if before.wf() {
                        session_laws::lemma_swap_tab(before.tabs[i as int], a, b);
                        session_laws::lemma_tab_update_keeps_wf(before, i as int, t);
                    }
                }
                Ok((self.tabs[i].layout.duplicate(), self.tabs[i].focused_pane))
            },
        }
    }

    /// Adjust split weights at `path` within a tab. Returns the layout and the focus.
    pub fn set_layout_ratios(&mut self, tab_index: u32, path: &[u32], ratios: &[u16]) -> (r: Result<
        (LayoutNode, u32),
        KmuxError,
    >)
        ensures
            final(self)@ == old(self)@.with_tab(tab_index, reweighting(path@, ratios@)),
            layout_answer(old(self)@, final(self)@, tab_index, r),
            old(self)@.wf() ==> final(self)@.wf(),
    {
        let ghost before = self@;
        match self.tab_position(tab_index) {
            None => Err(tab_not_found(self.meta.word_id.as_str(), tab_index)),
            Some(i) => {
                assert(self@.tabs[i as int] == self.tabs@[i as int]@);
                self.tabs[i].reweight(path, ratios);
                proof {
                    let t = reweighting(path@, ratios@)(before.tabs[i as int]);
                    assert(self@.tabs =~= before.tabs.update(i as int, t));
                    lemma_first_where(before.tabs, is_tab(tab_index));
                    if before.wf() {
                        session_laws::lemma_reweight_tab(before.tabs[i as int], path@, ratios@);
                        session_laws::lemma_tab_update_keeps_wf(before, i as int, t);
                    }
                }
                Ok((self.tabs[i].layout.duplicate(), self.tabs[i].focused_pane))
            },
        }
    }

    /// Set the shared input focus within a tab. Returns the layout and the focus.
    pub fn set_tab_focus(&mut self, tab_index: u32, pane_index: u32) -> (r: Result<
        (LayoutNode, u32),
        KmuxError,
    >)
        ensures
            final(self)@ == old(self)@.with_tab(tab_index, focusing(pane_index)),
            layout_answer(old(self)@, final(self)@, tab_index, r),
            old(self)@.wf() ==> final(self)@.wf(),
    {
        let ghost before = self@;
        match self.tab_position(tab_index) {
            None => Err(tab_not_found(self.meta.word_id.as_str(), tab_index)),
            Some(i) => {
                assert(self@.tabs[i as int] == self.tabs@[i as int]@);
                self.tabs[i].refocus(pane_index);
                proof {
                    let t = focusing(pane_index)(before.tabs[i as int]);
                    assert(self@.tabs =~= before.tabs.update(i as int, t));
                    lemma_first_where(before.tabs, is_tab(tab_index));
                    if before.wf() {
                        session_laws::lemma_tab_update_keeps_wf(before, i as int, t);
                    }
                }
                Ok((self.tabs[i].layout.duplicate(), self.tabs[i].focused_pane))
            },
        }
    }

    /// Lay a tab's panes out anew. Returns the layout and the focus.
    pub fn apply_layout(&mut self, tab_index: u32, arranged: LayoutNode) -> (r: Result<
        (LayoutNode, u32),
        KmuxError,
    >)
        ensures
            final(self)@ == old(self)@.with_tab(tab_index, arranging(arranged@)),
            layout_answer(old(self)@, final(self)@, tab_index, r),
            old(self)@.wf() && (tab_at(old(self)@.tabs, tab_index) matches Some(i) ==> rearranges(
                old(self)@.tabs[i].layout,
                arranged@,
            )) ==> final(self)@.wf(),
    {
        let ghost before = self@;
        match self.tab_position(tab_index) {
            None => Err(tab_not_found(self.meta.word_id.as_str(), tab_index)),
            Some(i) => {
                assert(self@.tabs[i as int] == self.tabs@[i as int]@);
                self.tabs[i].set_layout(arranged);
                proof {
                    let old_tab = before.tabs[i as int];
                    let t = arranging(arranged@)(old_tab);
                    assert(self@.tabs =~= before.tabs.update(i as int, t));
                    lemma_first_where(before.tabs, is_tab(tab_index));
                    if before.wf() && rearranges(old_tab.layout, arranged@) {
                        assert(old_tab.wf());
                        assert(arranged@.leaves().contains(old_tab.focused_pane));
                        session_laws::lemma_tab_update_keeps_wf(before, i as int, t);
                    }
                }
                Ok((self.tabs[i].layout.duplicate(), self.tabs[i].focused_pane))
            },
        }
    }

    /// Remove a pane: collapse the tab that shows it, or remove that tab with its last pane.
    pub fn close_pane(&mut self, pane_index: u32) -> (r: PaneCloseOutcome)
        requires
            old(self)@.wf(),
        ensures
            (final(self)@, r@) == old(self)@.pane_closed(pane_index),
            final(self)@.wf(),
    {
        broadcast use group_views;

        let ghost before = self@;
        proof {
            session_laws::law_close_pane_keeps_wf(before, pane_index);
        }
        self.drop_pane_only(pane_index);
        match self.showing_position(pane_index) {
            None => if self.panes.len() == 0 {
                PaneCloseOutcome::SessionClosed
            } else {
                PaneCloseOutcome::Gone
            },
            Some(i) => {
                let tab_index: u32 = self.tabs[i].tab_index;
                let leaves = self.tabs[i].layout.leaves();
                proof {
                    assert(self@.tabs[i as int] == self.tabs@[i as int]@);
                    assert(before.tabs[i as int].wf());
                    session_laws::lemma_well_formed_sized(before.tabs[i as int].layout);
                }
                if leaves.len() <= 1 {
                    let _gone = self.tabs.remove(i);
                    if self.active_tab == tab_index {
                        self.active_tab = if self.tabs.len() > 0 {
                            self.tabs[0].tab_index
                        } else {
                            0
                        };
                    }
                    assert(self.tabs@.len() > 0 ==> self@.tabs[0] == self.tabs@[0]@);
                    if self.tabs.len() == 0 {
                        PaneCloseOutcome::SessionClosed
                    } else {
                        PaneCloseOutcome::TabClosed { tab_index }
                    }
                } else {
                    let ghost mid = self@;
                    self.tabs[i].remove_leaf(pane_index);
                    assert(self@.tabs =~= mid.tabs.update(
                        i as int,
                        mid.tabs[i as int].without_pane(pane_index),
                    ));
                    PaneCloseOutcome::TabUpdated {
                        tab_index,
                        layout: self.tabs[i].layout.duplicate(),
                        focused_pane: self.tabs[i].focused_pane,
                    }
                }
            },
        }
    }

    /// Report the session to clients, its panes by index.
    pub fn to_entry(&self) -> (r: SessionEntry)
        ensures
            r@ == self@.entry(),
    {
        let mut keys: Vec<u64> = Vec::new();
        let mut i: usize = 0;
        while i < self.panes.len()
            invariant
                0 <= i <= self.panes@.len(),
                keys@.len() == i,
                forall|j: int| 0 <= j < i ==> keys@[j] == self.panes@[j].pane_index as u64,
            decreases self.panes@.len() - i,
        {
            keys.push(self.panes[i].pane_index as u64);
            i = i + 1;
        }
        assert(keys@ =~= pane_keys(self@.panes));
        let order = sorted_order(&keys);
        let ghost o = stable_order(keys@);
        let ghost infos = pane_infos(self@.panes, self@.meta.word_id);
        let mut panes: Vec<PaneInfo> = Vec::new();
        let mut k: usize = 0;
        while k < order.len()
            invariant
                0 <= k <= order@.len(),
                positions(order@) == o,
                crate::list::is_stable_order(keys@, o),
                keys@.len() == self.panes@.len(),
                infos == pane_infos(self@.panes, self@.meta.word_id),
                panes@.len() == k,
                forall|j: int| 0 <= j < k ==> (#[trigger] panes@[j])@ == infos[o[j]],
            decreases order@.len() - k,
        {
            assert(o[k as int] == order@[k as int] as int);
            let at: usize = order[k];
            assert(self@.panes[at as int] == self.panes@[at as int]@);
            panes.push(self.panes[at].to_pane_info(self.meta.word_id.as_str()));
            k = k + 1;
        }
        assert(views(panes@) =~= arranged(infos, o));
        SessionEntry {
            meta: self.meta.copy(),
            panes,
            tabs: self.tab_infos(),
            active_tab: self.active_tab,
            peer: None,
        }
    }
}

/// What a layout operation answers: the tab's layout and focus, or which tab is missing.
pub open spec fn layout_answer(
    before: SessionView,
    after: SessionView,
    tab_index: u32,
    r: Result<(LayoutNode, u32), KmuxError>,
) -> bool {
    match tab_at(before.tabs, tab_index) {
        None => r matches Err(e) && e@ == ErrorView::SessionNotFound(
            tab_name(before.meta.word_id, tab_index),
        ),
        Some(i) => r matches Ok(v) && v.0@ == after.tabs[i].layout && v.1
            == after.tabs[i].focused_pane,
    }
}

pub open spec fn named(name: Seq<char>) -> spec_fn(TabView) -> TabView {
    |t: TabView| TabView { name, ..t }
}

pub open spec fn trading(a: u32, b: u32) -> spec_fn(TabView) -> TabView {
    |t: TabView| t.swapped(a, b)
}

pub open spec fn reweighting(path: Seq<u32>, ratios: Seq<u16>) -> spec_fn(TabView) -> TabView {
    |t: TabView| t.reweighted(path, ratios)
}

pub open spec fn arranging(layout: Tree) -> spec_fn(TabView) -> TabView {
    |t: TabView| TabView { layout, ..t }
}

/// A layout shows the same panes as another one.
pub open spec fn rearranges(before: Tree, after: Tree) -> bool {
    &&& after.well_formed()
    &&& after.leaves().no_duplicates()
    &&& forall|p: u32| #[trigger] after.leaves().contains(p) <==> before.leaves().contains(p)
}

pub open spec fn focusing(pane: u32) -> spec_fn(TabView) -> TabView {
    |t: TabView| t.refocused(pane)
}

} // verus!
