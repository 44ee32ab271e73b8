//! Tabs and panes of live sessions: creating, splitting, arranging and closing them.

use super::io::unit_result;
use super::{
    is_session, lemma_find_pane, lemma_with_pane_keeps_wf, lemma_with_session_keeps_wf, session_at,
    AppView, ServerApp,
};
use crate::layout::{LayoutNode, SplitDir, Tree};
use crate::list::lemma_first_where;
use crate::pane::{PaneRelay, PaneView};
use crate::protocol::{
    as_pane_error, pane_error, pane_not_found, session_not_found, tab_name, tab_not_found,
    ErrorView, KmuxError, PaneInfo, TabInfo, TabView,
};
use crate::session::{
    arranging, focusing, named, rearranges, reweighting, single_tab, tab_at, tab_order, trading,
    CloseView, PaneCloseOutcome,
};
use crate::session_laws;
use crate::text::{format_pane_id, pane_id_parts, pane_id_text, parse_pane_id, views};
use vstd::prelude::*;

verus! {

/// The model of a layout operation's answer: the tab's layout and focus, or what is missing.
pub open spec fn layout_result(r: Result<(LayoutNode, u32), KmuxError>) -> Result<
    (Tree, u32),
    ErrorView,
> {
    match r {
        Ok(v) => Ok((v.0@, v.1)),
        Err(e) => Err(e@),
    }
}

impl AppView {
    /// The state after a change of one tab.
    pub open spec fn tab_changed(
        self,
        word: Seq<char>,
        tab_index: u32,
        f: spec_fn(TabView) -> TabView,
    ) -> AppView {
        match session_at(self.sessions, word) {
            Some(i) => self.with_session_at(i, self.sessions[i].with_tab(tab_index, f)),
            None => self,
        }
    }

    /// What a change of one tab is answered: the tab's layout and focus afterwards, or whether
    /// the session or the tab is missing.
    pub open spec fn tab_answer(
        self,
        word: Seq<char>,
        tab_index: u32,
        f: spec_fn(TabView) -> TabView,
    ) -> Result<(Tree, u32), ErrorView> {
        match session_at(self.sessions, word) {
            Some(i) => match tab_at(self.sessions[i].tabs, tab_index) {
                Some(t) => {
                    let tab = f(self.sessions[i].tabs[t]);
                    Ok((tab.layout, tab.focused_pane))
                },
                None => Err(ErrorView::SessionNotFound(tab_name(word, tab_index))),
            },
            None => Err(ErrorView::SessionNotFound(word)),
        }
    }

    /// A session, if it is there, has not run out of pane indices.
    pub open spec fn has_pane_index(self, word: Seq<char>) -> bool {
        match session_at(self.sessions, word) {
            Some(i) => self.sessions[i].next_pane_index < u32::MAX,
            None => true,
        }
    }

    /// A session, if it is there, has not run out of tab indices.
    pub open spec fn has_tab_index(self, word: Seq<char>) -> bool {
        match session_at(self.sessions, word) {
            Some(i) => self.sessions[i].next_tab_index < u32::MAX,
            None => true,
        }
    }

    /// The state and the answer after a tab was closed.
    pub open spec fn tab_closed(self, word: Seq<char>, tab_index: u32) -> (
        AppView,
        Result<bool, ErrorView>,
    ) {
        match session_at(self.sessions, word) {
            None => (self, Err(ErrorView::SessionNotFound(word))),
            Some(i) => {
                let s = self.sessions[i];
                if tab_at(s.tabs, tab_index) is None {
                    (self, Err(ErrorView::SessionNotFound(tab_name(word, tab_index))))
                } else if s.tab_closed(tab_index).tabs.len() == 0 {
                    (
                        self.with_session_at(i, s.tab_closed(tab_index)).session_ended(i),
                        Ok(true),
                    )
                } else {
                    (self.with_session_at(i, s.tab_closed(tab_index)), Ok(false))
                }
            },
        }
    }

    /// The state with every client detached from a pane.
    pub open spec fn pane_cleared(self, pane_id: Seq<char>) -> AppView {
        match self.find_pane(pane_id) {
            Some((s, p)) => self.with_pane_at(
                s,
                p,
                PaneView { clients: Seq::empty(), ..self.sessions[s].panes[p] },
            ),
            None => self,
        }
    }

    /// The state and the outcome once a pane's process is closed.
    pub open spec fn pane_removed(self, word: Seq<char>, index: u32) -> (AppView, CloseView) {
        match session_at(self.sessions, word) {
            None => (self, CloseView::Gone),
            Some(i) => {
                let closed = self.sessions[i].pane_closed(index);
                let after = self.with_session_at(i, closed.0);
                (
                    if closed.1 is SessionClosed {
                        after.session_ended(i)
                    } else {
                        after
                    },
                    closed.1,
                )
            },
        }
    }

    /// The state and the answer after a request to close a pane. `registry` is what closing the
    /// pane's process answered.
    pub open spec fn pane_closed(self, pane_id: Seq<char>, registry: Result<(), ErrorView>) -> (
        AppView,
        Result<CloseView, ErrorView>,
    ) {
        match pane_id_parts(pane_id) {
            None => (self, Err(ErrorView::PaneNotFound(pane_id))),
            Some((word, index)) => match registry {
                Err(e) => (self.pane_cleared(pane_id), Err(pane_error(pane_id, e))),
                Ok(_) => {
                    let removed = self.pane_cleared(pane_id).pane_removed(word, index);
                    (removed.0, Ok(removed.1))
                },
            },
        }
    }
}

/// The outcome of closing a pane, without the exit code.
pub open spec fn close_result(r: Result<(Option<i32>, PaneCloseOutcome), KmuxError>) -> Result<
    CloseView,
    ErrorView,
> {
    match r {
        Ok(v) => Ok(v.1@),
        Err(e) => Err(e@),
    }
}

proof fn lemma_session_at(a: AppView, word: Seq<char>)
    ensures
        session_at(a.sessions, word) matches Some(i) ==> 0 <= i < a.sessions.len()
            && a.sessions[i].meta.word_id == word,
{
    lemma_first_where(a.sessions, is_session(word));
}

impl ServerApp {
    /// Move a tab and return the complete order of tabs.
    pub fn reorder_tab(&mut self, word_id: &str, tab_index: u32, new_position: u32) -> (r: Result<
        Vec<u32>,
        KmuxError,
    >)
        ensures
            match session_at(old(self)@.sessions, word_id@) {
                Some(i) => {
                    let s = old(self)@.sessions[i].reordered(tab_index, new_position);
                    &&& final(self)@ == old(self)@.with_session_at(i, s)
                    &&& r matches Ok(order) && order@ == tab_order(s.tabs)
                },
                None => {
                    &&& final(self)@ == old(self)@
                    &&& r matches Err(e) && e@ == ErrorView::SessionNotFound(word_id@)
                },
            },
            old(self)@.wf() ==> final(self)@.wf(),
    {
        let ghost before = self@;
        match self.session_position(word_id) {
            Some(i) => {
                assert(before.sessions[i as int] == self.sessions@[i as int]@);
                let order = self.session_slot(i).reorder_tab(tab_index, new_position);
                proof {
                    if before.wf() {
                        assert(before.sessions[i as int].wf());
                        lemma_with_session_keeps_wf(
                            before,
                            i as int,
                            before.sessions[i as int].reordered(tab_index, new_position),
                        );
                    }
                }
                Ok(order)
            },
            None => Err(session_not_found(word_id)),
        }
    }

    /// Begin a tab: reserve the index of its pane and its own. Returns both.
    pub fn begin_tab(&mut self, word_id: &str) -> (r: Result<(u32, u32), KmuxError>)
        requires
            old(self)@.has_pane_index(word_id@),
            old(self)@.has_tab_index(word_id@),
        ensures
            match session_at(old(self)@.sessions, word_id@) {
                Some(i) => {
                    let s = old(self)@.sessions[i];
                    &&& final(self)@ == old(self)@.with_session_at(i, s.tab_reserved())
                    &&& r == Ok::<(u32, u32), KmuxError>((s.next_pane_index, s.next_tab_index))
                },
                None => {
                    &&& final(self)@ == old(self)@
                    &&& r matches Err(e) && e@ == ErrorView::SessionNotFound(word_id@)
                },
            },
            old(self)@.wf() ==> final(self)@.wf(),
    {
        let ghost before = self@;
        match self.session_position(word_id) {
            Some(i) => {
                assert(before.sessions[i as int] == self.sessions@[i as int]@);
                let reserved = self.session_slot(i).reserve_tab();
                proof {
                    if before.wf() {
                        assert(before.sessions[i as int].wf());
                        lemma_with_session_keeps_wf(
                            before,
                            i as int,
                            before.sessions[i as int].tab_reserved(),
                        );
                    }
                }
                Ok(reserved)
            },
            None => Err(session_not_found(word_id)),
        }
    }

    /// Finish a tab that was begun: `spawned` is its pane, or why there is none.
    pub fn create_tab(
        &mut self,
        word_id: &str,
        tab_index: u32,
        spawned: Result<PaneRelay, KmuxError>,
    ) -> (r: Result<(TabInfo, PaneInfo), KmuxError>)
        ensures
            match spawned {
                Err(e) => {
                    &&& final(self)@ == old(self)@
                    &&& r matches Err(f) && f@ == e@
                },
                Ok(pane) => match session_at(old(self)@.sessions, word_id@) {
                    Some(i) => {
                        &&& final(self)@ == old(self)@.with_session_at(
                            i,
                            old(self)@.sessions[i].tab_added(tab_index, pane@),
                        )
                        &&& r matches Ok(v) && v.0@ == single_tab(tab_index, pane@.pane_index)
                            && v.1@ == pane@.info(word_id@)
                    },
                    None => {
                        &&& final(self)@ == old(self)@
                        &&& r matches Err(e) && e@ == ErrorView::SessionNotFound(word_id@)
                    },
                },
            },
            ({
                &&& old(self)@.wf()
                &&& spawned matches Ok(pane) ==> session_at(
                    old(self)@.sessions,
                    word_id@,
                ) matches Some(i) ==> session_laws::fits_new_tab(
                    old(self)@.sessions[i],
                    tab_index,
                    pane@,
                )
            }) ==> final(self)@.wf(),
    {
        let ghost before = self@;
        match spawned {
            Err(e) => Err(e),
            Ok(pane) => match self.session_position(word_id) {
                Some(i) => {
                    assert(before.sessions[i as int] == self.sessions@[i as int]@);
                    let info = pane.to_pane_info(word_id);
                    proof {
                        if before.wf() && session_laws::fits_new_tab(
                            before.sessions[i as int],
                            tab_index,
                            pane@,
                        ) {
                            assert(before.sessions[i as int].wf());
                            session_laws::law_add_tab_keeps_wf(
                                before.sessions[i as int],
                                tab_index,
                                pane@,
                            );
                            lemma_with_session_keeps_wf(
                                before,
                                i as int,
                                before.sessions[i as int].tab_added(tab_index, pane@),
                            );
                        }
                    }
                    let tab = self.session_slot(i).add_tab(tab_index, pane);
                    Ok((tab, info))
                },
                None => Err(session_not_found(word_id)),
            },
        }
    }

    /// Close an entire tab and every pane in it. Returns whether that closed the session.
    pub fn close_tab(&mut self, word_id: &str, tab_index: u32) -> (r: Result<bool, KmuxError>)
        ensures
            final(self)@ == old(self)@.tab_closed(word_id@, tab_index).0,
            match r {
                Ok(b) => old(self)@.tab_closed(word_id@, tab_index).1 == Ok::<bool, ErrorView>(b),
                Err(e) => old(self)@.tab_closed(word_id@, tab_index).1 == Err::<bool, ErrorView>(
                    e@,
                ),
            },
            old(self)@.wf() ==> final(self)@.wf(),
    {
        let ghost before = self@;
        match self.session_position(word_id) {
            None => Err(session_not_found(word_id)),
            Some(i) => {
                proof {
                    lemma_session_at(before, word_id@);
                    assert(before.sessions[i as int] == self.sessions@[i as int]@);
                }
                if self.sessions[i].tab(tab_index).is_none() {
                    return Err(tab_not_found(word_id, tab_index));
                }
                let _found = self.session_slot(i).remove_tab(tab_index);
                let ghost closed = before.sessions[i as int].tab_closed(tab_index);
                proof {
                    if before.wf() {
                        assert(before.sessions[i as int].wf());
                        session_laws::law_close_tab_keeps_wf(before.sessions[i as int], tab_index);
                        lemma_with_session_keeps_wf(before, i as int, closed);
                    }
                    assert(self@.sessions[i as int] == closed);
                    assert(self@.sessions.len() == self.sessions@.len());
                    assert(self.sessions@[i as int]@ == closed);
                    assert(views(self.sessions@[i as int].tabs@) == closed.tabs);
                    assert(self.sessions@[i as int].tabs@.len() == closed.tabs.len());
                }
                if self.sessions[i].tabs.len() == 0 {
                    self.end_session(i);
                    Ok(true)
                } else {
                    Ok(false)
                }
            },
        }
    }

    /// The ids of the panes a tab shows.
    pub fn tab_pane_ids(&self, word_id: &str, tab_index: u32) -> (r: Result<Vec<String>, KmuxError>)
        ensures
            match session_at(self@.sessions, word_id@) {
                None => r matches Err(e) && e@ == ErrorView::SessionNotFound(word_id@),
                Some(i) => match tab_at(self@.sessions[i].tabs, tab_index) {
                    None => r matches Err(e) && e@ == ErrorView::SessionNotFound(
                        tab_name(word_id@, tab_index),
                    ),
                    Some(t) => r matches Ok(ids) && views(ids@) == ids_of(
                        word_id@,
                        self@.sessions[i].tabs[t].layout.leaves(),
                    ),
                },
            },
    {
        match self.session_position(word_id) {
            None => Err(session_not_found(word_id)),
            Some(i) => {
                assert(self@.sessions[i as int] == self.sessions@[i as int]@);
                match self.sessions[i].tab(tab_index) {
                    None => Err(tab_not_found(word_id, tab_index)),
                    Some(tab) => {
                        let leaves = tab.layout.leaves();
                        Ok(format_ids(word_id, &leaves))
                    },
                }
            },
        }
    }

    /// Rename a tab.
    pub fn rename_tab(&mut self, word_id: &str, tab_index: u32, new_name: &str) -> (r: Result<
        (),
        KmuxError,
    >)
        ensures
            final(self)@ == old(self)@.tab_changed(word_id@, tab_index, named(new_name@)),
            match old(self)@.tab_answer(word_id@, tab_index, named(new_name@)) {
                Ok(_) => r is Ok,
                Err(e) => r matches Err(f) && f@ == e,
            },
            old(self)@.wf() ==> final(self)@.wf(),
    {
        let ghost before = self@;
        match self.session_position(word_id) {
            Some(i) => {
                proof {
                    lemma_session_at(before, word_id@);
                    assert(before.sessions[i as int] == self.sessions@[i as int]@);
                }
                let r = self.session_slot(i).rename_tab(tab_index, new_name);
                proof {
                    if before.wf() {
                        assert(before.sessions[i as int].wf());
                        lemma_with_session_keeps_wf(
                            before,
                            i as int,
                            before.sessions[i as int].with_tab(tab_index, named(new_name@)),
                        );
                    }
                }
                r
            },
            None => Err(session_not_found(word_id)),
        }
    }

    /// Begin a split: check its target and reserve the index of the new pane.
    pub fn begin_split(&mut self, word_id: &str, tab_index: u32, from_pane: u32) -> (r: Result<
        u32,
        KmuxError,
    >)
        requires
            old(self)@.has_pane_index(word_id@),
        ensures
            match session_at(old(self)@.sessions, word_id@) {
                None => {
                    &&& final(self)@ == old(self)@
                    &&& r matches Err(e) && e@ == ErrorView::SessionNotFound(word_id@)
                },
                Some(i) => {
                    let s = old(self)@.sessions[i];
                    match tab_at(s.tabs, tab_index) {
                        None => {
                            &&& final(self)@ == old(self)@
                            &&& r matches Err(e) && e@ == ErrorView::SessionNotFound(
                                tab_name(word_id@, tab_index),
                            )
                        },
                        Some(t) => if s.tabs[t].has(from_pane) {
                            &&& final(self)@ == old(self)@.with_session_at(i, s.pane_reserved())
                            &&& r == Ok::<u32, KmuxError>(s.next_pane_index)
                        } else {
                            &&& final(self)@ == old(self)@
                            &&& r matches Err(e) && e@ == ErrorView::SessionNotFound(
                                pane_id_text(word_id@, from_pane),
                            )
                        },
                    }
                },
            },
            old(self)@.wf() ==> final(self)@.wf(),
    {
        let ghost before = self@;
        match self.session_position(word_id) {
            Some(i) => {
                proof {
                    lemma_session_at(before, word_id@);
                    assert(before.sessions[i as int] == self.sessions@[i as int]@);
                }
                let ghost s = before.sessions[i as int];
                let r = self.session_slot(i).begin_split(tab_index, from_pane);
                proof {
                    let t = self@.sessions[i as int];
                    assert(before.with_session_at(i as int, s).sessions =~= before.sessions);
                    if before.wf() {
                        assert(s.wf());
                        lemma_with_session_keeps_wf(before, i as int, t);
                    }
                }
                r
            },
            None => Err(session_not_found(word_id)),
        }
    }

    /// Finish a split that was begun: `spawned` is the new pane, or why there is none. Returns
    /// the new pane, the tab's layout and its focus.
    pub fn split_pane(
        &mut self,
        word_id: &str,
        tab_index: u32,
        from_pane: u32,
        dir: SplitDir,
        spawned: Result<PaneRelay, KmuxError>,
    ) -> (r: Result<(PaneInfo, LayoutNode, u32), KmuxError>)
        requires
            old(self)@.wf(),
        ensures
            match spawned {
                Err(e) => {
                    &&& final(self)@ == old(self)@
                    &&& r matches Err(f) && f@ == e@
                },
                Ok(pane) => match session_at(old(self)@.sessions, word_id@) {
                    None => {
                        &&& final(self)@ == old(self)@
                        &&& r matches Err(e) && e@ == ErrorView::SessionNotFound(word_id@)
                    },
                    Some(i) => {
                        let s = old(self)@.sessions[i].pane_split(tab_index, from_pane, dir, pane@);
                        &&& final(self)@ == old(self)@.with_session_at(i, s)
                        &&& match tab_at(old(self)@.sessions[i].tabs, tab_index) {
                            None => r matches Err(e) && e@ == ErrorView::SessionNotFound(
                                tab_name(word_id@, tab_index),
                            ),
                            Some(t) => r matches Ok(v) && v.0@ == pane@.info(word_id@) && v.1@
                                == s.tabs[t].layout && v.2 == pane@.pane_index,
                        }
                    },
                },
            },
            (spawned matches Ok(pane) ==> session_at(old(self)@.sessions, word_id@) matches Some(i)
                ==> session_laws::fits_new_pane(old(self)@.sessions[i], pane@))
                ==> final(self)@.wf(),
    {
        let ghost before = self@;
        match spawned {
            Err(e) => Err(e),
            Ok(pane) => match self.session_position(word_id) {
                Some(i) => {
                    proof {
                        lemma_session_at(before, word_id@);
                        assert(before.sessions[i as int] == self.sessions@[i as int]@);
                        assert(before.sessions[i as int].wf());
                        if session_laws::fits_new_pane(before.sessions[i as int], pane@) {
                            session_laws::law_split_pane_keeps_wf(
                                before.sessions[i as int],
                                tab_index,
                                from_pane,
                                dir,
                                pane@,
                            );
                            lemma_with_session_keeps_wf(
                                before,
                                i as int,
                                before.sessions[i as int].pane_split(
                                    tab_index,
                                    from_pane,
                                    dir,
                                    pane@,
                                ),
                            );
                        }
                    }
                    let info = pane.to_pane_info(word_id);
                    match self.session_slot(i).finish_split(tab_index, from_pane, dir, pane) {
                        Ok((layout, focus)) => Ok((info, layout, focus)),
                        Err(e) => Err(e),
                    }
                },
                None => Err(session_not_found(word_id)),
            },
        }
    }

    /// Swap two panes' positions within a tab.
    pub fn swap_panes(&mut self, word_id: &str, tab_index: u32, a: u32, b: u32) -> (r: Result<
        (LayoutNode, u32),
        KmuxError,
    >)
        ensures
            final(self)@ == old(self)@.tab_changed(word_id@, tab_index, trading(a, b)),
            layout_result(r) == old(self)@.tab_answer(word_id@, tab_index, trading(a, b)),
            old(self)@.wf() ==> final(self)@.wf(),
    {
        let ghost before = self@;
        match self.session_position(word_id) {
            Some(i) => {
                proof {
                    lemma_session_at(before, word_id@);
                    assert(before.sessions[i as int] == self.sessions@[i as int]@);
                    lemma_first_where(
                        before.sessions[i as int].tabs,
                        crate::session::is_tab(tab_index),
                    );
                }
                let r = self.session_slot(i).swap_panes(tab_index, a, b);
                proof {
                    if before.wf() {
                        assert(before.sessions[i as int].wf());
                        lemma_with_session_keeps_wf(
                            before,
                            i as int,
                            before.sessions[i as int].with_tab(tab_index, trading(a, b)),
                        );
                    }
                }
                r
            },
            None => Err(session_not_found(word_id)),
        }
    }

    /// Adjust split weights at `path` within a tab.
    pub fn set_layout_ratios(
        &mut self,
        word_id: &str,
        tab_index: u32,
        path: &[u32],
        ratios: &[u16],
    ) -> (r: Result<(LayoutNode, u32), KmuxError>)
        ensures
            final(self)@ == old(self)@.tab_changed(
                word_id@,
                tab_index,
                reweighting(path@, ratios@),
            ),
            layout_result(r) == old(self)@.tab_answer(
                word_id@,
                tab_index,
                reweighting(path@, ratios@),
            ),
            old(self)@.wf() ==> final(self)@.wf(),
    {
        let ghost before = self@;
        match self.session_position(word_id) {
            Some(i) => {
                proof {
                    lemma_session_at(before, word_id@);
                    assert(before.sessions[i as int] == self.sessions@[i as int]@);
                    lemma_first_where(
                        before.sessions[i as int].tabs,
                        crate::session::is_tab(tab_index),
                    );
                }
                let r = self.session_slot(i).set_layout_ratios(tab_index, path, ratios);
                proof {
                    if before.wf() {
                        assert(before.sessions[i as int].wf());
                        lemma_with_session_keeps_wf(
                            before,
                            i as int,
                            before.sessions[i as int].with_tab(
                                tab_index,
                                reweighting(path@, ratios@),
                            ),
                        );
                    }
                }
                r
            },
            None => Err(session_not_found(word_id)),
        }
    }

    /// Set the shared input focus within a tab.
    pub fn set_tab_focus(&mut self, word_id: &str, tab_index: u32, pane_index: u32) -> (r: Result<
        (LayoutNode, u32),
        KmuxError,
    >)
        ensures
            final(self)@ == old(self)@.tab_changed(word_id@, tab_index, focusing(pane_index)),
            layout_result(r) == old(self)@.tab_answer(word_id@, tab_index, focusing(pane_index)),
            old(self)@.wf() ==> final(self)@.wf(),
    {
        let ghost before = self@;
        match self.session_position(word_id) {
            Some(i) => {
                proof {
                    lemma_session_at(before, word_id@);
                    assert(before.sessions[i as int] == self.sessions@[i as int]@);
                    lemma_first_where(
                        before.sessions[i as int].tabs,
                        crate::session::is_tab(tab_index),
                    );
                }
                let r = self.session_slot(i).set_tab_focus(tab_index, pane_index);
                proof {
                    if before.wf() {
                        assert(before.sessions[i as int].wf());
                        lemma_with_session_keeps_wf(
                            before,
                            i as int,
                            before.sessions[i as int].with_tab(tab_index, focusing(pane_index)),
                        );
                    }
                }
                r
            },
            None => Err(session_not_found(word_id)),
        }
    }

    /// The panes of a tab, to be laid out anew.
    pub fn tab_leaves(&self, word_id: &str, tab_index: u32) -> (r: Result<Vec<u32>, KmuxError>)
        ensures
            match session_at(self@.sessions, word_id@) {
                None => r matches Err(e) && e@ == ErrorView::SessionNotFound(word_id@),
                Some(i) => match tab_at(self@.sessions[i].tabs, tab_index) {
                    None => r matches Err(e) && e@ == ErrorView::SessionNotFound(
                        tab_name(word_id@, tab_index),
                    ),
                    Some(t) => r matches Ok(v) && v@
                        == self@.sessions[i].tabs[t].layout.leaves(),
                },
            },
    {
        match self.session_position(word_id) {
            None => Err(session_not_found(word_id)),
            Some(i) => {
                assert(self@.sessions[i as int] == self.sessions@[i as int]@);
                match self.sessions[i].tab_position(tab_index) {
                    None => Err(tab_not_found(word_id, tab_index)),
                    Some(t) => {
                        assert(self.sessions@[i as int]@.tabs[t as int]
                            == self.sessions@[i as int].tabs@[t as int]@);
                        Ok(self.sessions[i].tabs[t].layout.leaves())
                    },
                }
            },
        }
    }

    /// Lay a tab out anew: `arranged` is its panes as a scheme arranges them.
    pub fn apply_layout_scheme(&mut self, word_id: &str, tab_index: u32, arranged: LayoutNode) -> (r:
        Result<(LayoutNode, u32), KmuxError>)
        ensures
            final(self)@ == old(self)@.tab_changed(word_id@, tab_index, arranging(arranged@)),
            layout_result(r) == old(self)@.tab_answer(word_id@, tab_index, arranging(arranged@)),
            old(self)@.wf() && (session_at(old(self)@.sessions, word_id@) matches Some(i) ==> tab_at(
                old(self)@.sessions[i].tabs,
                tab_index,
            ) matches Some(t) ==> rearranges(
                old(self)@.sessions[i].tabs[t].layout,
                arranged@,
            )) ==> final(self)@.wf(),
    {
        let ghost before = self@;
        match self.session_position(word_id) {
            Some(i) => {
                proof {
                    lemma_session_at(before, word_id@);
                    assert(before.sessions[i as int] == self.sessions@[i as int]@);
                    lemma_first_where(
                        before.sessions[i as int].tabs,
                        crate::session::is_tab(tab_index),
                    );
                }
                let ghost layout = arranged@;
                let r = self.session_slot(i).apply_layout(tab_index, arranged);
                proof {
                    let s = before.sessions[i as int];
                    if before.wf() && (tab_at(s.tabs, tab_index) matches Some(t) ==> rearranges(
                        s.tabs[t].layout,
                        layout,
                    )) {
                        assert(s.wf());
                        lemma_with_session_keeps_wf(
                            before,
                            i as int,
                            s.with_tab(tab_index, arranging(layout)),
                        );
                    }
                }
                r
            },
            None => Err(session_not_found(word_id)),
        }
    }

    /// Detach every client from a pane that is about to be closed.
    pub fn clear_pane(&mut self, pane_id: &str)
        ensures
            final(self)@ == old(self)@.pane_cleared(pane_id@),
            old(self)@.wf() ==> final(self)@.wf(),
    {
        let ghost before = self@;
        if let Some((s, p)) = self.pane_position(pane_id) {
            proof {
                lemma_find_pane(before, pane_id@);
                if before.wf() {
                    let pane = before.sessions[s as int].panes[p as int];
                    lemma_with_pane_keeps_wf(
                        before,
                        s as int,
                        p as int,
                        PaneView { clients: Seq::empty(), ..pane },
                    );
                }
            }
            self.pane_slot(s, p).drop_clients();
        }
    }

    /// Close a pane, collapsing its tab's layout. `registry` is what closing the pane's process
    /// answered. The exit code is not waited for.
    pub fn close_pane(&mut self, pane_id: &str, registry: Result<(), KmuxError>) -> (r: Result<
        (Option<i32>, PaneCloseOutcome),
        KmuxError,
    >)
        requires
            old(self)@.wf(),
        ensures
            final(self)@ == old(self)@.pane_closed(pane_id@, unit_result(registry)).0,
            close_result(r) == old(self)@.pane_closed(pane_id@, unit_result(registry)).1,
            r matches Ok(v) ==> v.0 is None,
            final(self)@.wf(),
    {
        match parse_pane_id(pane_id) {
            None => Err(pane_not_found(pane_id)),
            Some((word, index)) => {
                self.clear_pane(pane_id);
                match registry {
                    Err(e) => Err(as_pane_error(pane_id, e)),
                    Ok(_) => Ok((None, self.remove_pane(word, index))),
                }
            },
        }
    }

    fn remove_pane(&mut self, word: &str, index: u32) -> (r: PaneCloseOutcome)
        requires
            old(self)@.wf(),
        ensures
            (final(self)@, r@) == old(self)@.pane_removed(word@, index),
            final(self)@.wf(),
    {
        let ghost before = self@;
        match self.session_position(word) {
            None => PaneCloseOutcome::Gone,
            Some(i) => {
                proof {
                    lemma_session_at(before, word@);
                    assert(before.sessions[i as int] == self.sessions@[i as int]@);
                    assert(before.sessions[i as int].wf());
                    session_laws::law_close_pane_keeps_wf(before.sessions[i as int], index);
                    lemma_with_session_keeps_wf(
                        before,
                        i as int,
                        before.sessions[i as int].pane_closed(index).0,
                    );
                }
                let outcome = self.session_slot(i).close_pane(index);
                assert(self@.sessions.len() == self.sessions@.len());
                match outcome {
                    PaneCloseOutcome::SessionClosed => {
                        self.end_session(i);
                    },
                    _ => {},
                }
                outcome
            },
        }
    }
}

pub open spec fn ids_of(word: Seq<char>, indices: Seq<u32>) -> Seq<Seq<char>> {
    Seq::new(indices.len(), |i: int| pane_id_text(word, indices[i]))
}

/// The ids of several panes of one session.
pub fn format_ids(word: &str, indices: &Vec<u32>) -> (r: Vec<String>)
    ensures
        views(r@) == ids_of(word@, indices@),
{
    let mut out: Vec<String> = Vec::new();
    let mut i: usize = 0;
    while i < indices.len()
        invariant
            0 <= i <= indices@.len(),
            out@.len() == i,
            forall|j: int|
                0 <= j < i ==> (#[trigger] out@[j])@ == pane_id_text(word@, indices@[j]),
        decreases indices@.len() - i,
    {
        out.push(format_pane_id(word, indices[i]));
        i = i + 1;
    }
    assert(views(out@) =~= ids_of(word@, indices@));
    out
}

} // verus!
