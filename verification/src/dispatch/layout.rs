//! Layout and focus: changes of a tab that nobody waits for. Whoever views the tab is told of
//! the new layout; the sender hears only of a failure.

use super::{OutView, Outcome, Work, WorkView};
use crate::app::tabs::layout_result;
use crate::app::{session_at, AppView, ServerApp};
use crate::layout::{LayoutNode, Tree};
use crate::messages::{MsgView, ServerMessage};
use crate::protocol::{tab_name, ErrorView, KmuxError, TabView};
use crate::session::{arranging, focusing, rearranges, reweighting, tab_at, trading};
use vstd::prelude::*;

verus! {

/// The answer to a change of layout.
pub open spec fn layout_answered(
    word: Seq<char>,
    tab_index: u32,
    r: Result<(Tree, u32), ErrorView>,
) -> OutView {
    match r {
        Ok((layout, focused)) => OutView::broadcast(
            MsgView::LayoutUpdate(word, tab_index, layout, focused),
        ),
        Err(e) => OutView::error(None, e),
    }
}

/// A change of one tab.
pub open spec fn layout_step(
    a: AppView,
    word: Seq<char>,
    tab_index: u32,
    f: spec_fn(TabView) -> TabView,
) -> (AppView, OutView) {
    (
        a.tab_changed(word, tab_index, f),
        layout_answered(word, tab_index, a.tab_answer(word, tab_index, f)),
    )
}

fn answer_layout_change(word_id: String, tab_index: u32, r: Result<(LayoutNode, u32), KmuxError>)
    -> (o: Outcome)
    ensures
        o@ == layout_answered(word_id@, tab_index, layout_result(r)),
{
    match r {
        Ok((layout, focused_pane)) => Outcome::broadcast_only(
            ServerMessage::LayoutUpdate { word_id, tab_index, layout, focused_pane },
        ),
        Err(e) => Outcome::error(None, &e),
    }
}

/// Swap two panes.
pub fn on_pane_swap(app: &mut ServerApp, word_id: String, tab_index: u32, a: u32, b: u32) -> (r:
    Outcome)
    ensures
        (final(app)@, r@) == layout_step(old(app)@, word_id@, tab_index, trading(a, b)),
        old(app)@.wf() ==> final(app)@.wf(),
{
    let changed = app.swap_panes(word_id.as_str(), tab_index, a, b);
    answer_layout_change(word_id, tab_index, changed)
}

/// Set the weights of a split.
pub fn on_set_layout_ratios(
    app: &mut ServerApp,
    word_id: String,
    tab_index: u32,
    path: Vec<u32>,
    ratios: Vec<u16>,
) -> (r: Outcome)
    ensures
        (final(app)@, r@) == layout_step(
            old(app)@,
            word_id@,
            tab_index,
            reweighting(path@, ratios@),
        ),
        old(app)@.wf() ==> final(app)@.wf(),
{
    let changed = app.set_layout_ratios(
        word_id.as_str(),
        tab_index,
        path.as_slice(),
        ratios.as_slice(),
    );
    answer_layout_change(word_id, tab_index, changed)
}

/// A request to arrange a tab's panes by a scheme.
pub open spec fn scheme_out(a: AppView, word: Seq<char>, tab_index: u32, scheme: Seq<char>)
    -> OutView {
    match session_at(a.sessions, word) {
        None => OutView::error(None, ErrorView::SessionNotFound(word)),
        Some(i) => match tab_at(a.sessions[i].tabs, tab_index) {
            None => OutView::error(None, ErrorView::SessionNotFound(tab_name(word, tab_index))),
            Some(t) => OutView::needing(
                WorkView::ArrangeTab(
                    word,
                    tab_index,
                    scheme,
                    a.sessions[i].tabs[t].layout.leaves(),
                ),
            ),
        },
    }
}

/// Ask for a tab's panes to be arranged by a scheme.
pub fn on_apply_layout_scheme(app: &ServerApp, word_id: String, tab_index: u32, scheme: String) -> (r:
    Outcome)
    ensures
        r@ == scheme_out(app@, word_id@, tab_index, scheme@),
{
    match app.tab_leaves(word_id.as_str(), tab_index) {
        Ok(leaves) => Outcome::needing(Work::ArrangeTab { word_id, tab_index, scheme, leaves }),
        Err(e) => Outcome::error(None, &e),
    }
}

/// Put in a tab's panes as they were arranged.
pub fn finish_layout_scheme(
    app: &mut ServerApp,
    word_id: String,
    tab_index: u32,
    arranged: LayoutNode,
) -> (r: Outcome)
    ensures
        (final(app)@, r@) == layout_step(old(app)@, word_id@, tab_index, arranging(arranged@)),
        old(app)@.wf() && (session_at(old(app)@.sessions, word_id@) matches Some(i) ==> tab_at(
            old(app)@.sessions[i].tabs,
            tab_index,
        ) matches Some(t) ==> rearranges(old(app)@.sessions[i].tabs[t].layout, arranged@))
            ==> final(app)@.wf(),
{
    let changed = app.apply_layout_scheme(word_id.as_str(), tab_index, arranged);
    answer_layout_change(word_id, tab_index, changed)
}

/// Move the focus.
pub fn on_set_focus(app: &mut ServerApp, word_id: String, tab_index: u32, pane_index: u32) -> (r:
    Outcome)
    ensures
        (final(app)@, r@) == layout_step(old(app)@, word_id@, tab_index, focusing(pane_index)),
        old(app)@.wf() ==> final(app)@.wf(),
{
    let changed = app.set_tab_focus(word_id.as_str(), tab_index, pane_index);
    answer_layout_change(word_id, tab_index, changed)
}

} // verus!
