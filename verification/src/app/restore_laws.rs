//! What comes back when a saved session is restored.

use crate::app::persistence::{keeps, CaptureView};
use crate::app::restore::{
    index_above, lemma_nothing_missing, lemma_restored_tab, restored_pane, restored_panes,
    restored_session, restored_tab, restored_tabs, single_tabs, step_after, PaneOutcome,
    RestoreStep, SeedMode,
};
use crate::layout::Tree;
use crate::list::{
    law_stable_order, lemma_first_where, lemma_order_covers, precedes, stable_order,
};
use crate::pane::{PaneView, ReplayView};
use crate::persist::{SavedPaneView, SavedView};
use crate::protocol::{InputMode, SequenceNo, SessionStatus, TabView};
use crate::session::{is_pane, pane_at, pane_keys, SessionView};
use crate::text::decimal_text;
use vstd::prelude::*;

verus! {

/// No pane is listed twice.
pub open spec fn distinct_panes(panes: Seq<SavedPaneView>) -> bool {
    forall|i: int, j: int|
        0 <= i < j < panes.len() ==> (#[trigger] panes[i]).pane_index != (
        #[trigger] panes[j]).pane_index
}

/// A pane that is back has the index, program, arguments, rows and columns that were saved. It
/// runs, nobody looks at it yet, and everyone may write. What shows its old screen counts as its
/// first output.
pub proof fn law_restored_pane_is_the_saved_one(
    word: Seq<char>,
    p: SavedPaneView,
    seeded: Option<usize>,
)
    ensures
        ({
            let r = restored_pane(word, p, seeded);
            &&& r.pane_index == p.pane_index
            &&& r.program == p.program
            &&& r.args == p.args
            &&& r.size.rows == p.size.rows && r.size.cols == p.size.cols
            &&& r.clients.len() == 0 && r.input.len() == 0
            &&& r.input_mode == InputMode::Open
            &&& r.status == SessionStatus::Running
            &&& !r.kitty_graphics_enabled && !r.kitty_keyboard_enabled
            &&& match seeded {
                Some(bytes) => {
                    &&& r.replay(None) == ReplayView::FullSnapshot(SequenceNo(1))
                    &&& r.scrollback.len() == 1
                    &&& r.scrollback[0].seqno == 1 && r.scrollback[0].bytes == bytes
                },
                None => {
                    &&& r.replay(None) == ReplayView::FullSnapshot(SequenceNo(0))
                    &&& r.scrollback.len() == 0
                },
            }
        }),
{
}

/// Exactly the panes that could be brought back are back, each as it was saved.
pub proof fn law_which_panes_come_back(
    word: Seq<char>,
    panes: Seq<SavedPaneView>,
    outcomes: Seq<PaneOutcome>,
)
    requires
        distinct_panes(panes),
    ensures
        ({
            let r = restored_panes(word, panes, outcomes);
            &&& forall|i: int|
                0 <= i < panes.len() && !(outcomes[i] is Failed) ==> r.contains(
                    restored_pane(word, #[trigger] panes[i], outcomes[i]->seeded),
                )
            &&& forall|k: int|
                0 <= k < r.len() ==> exists|i: int|
                    0 <= i < panes.len() && !(outcomes[i] is Failed) && (
                    #[trigger] panes[i]).pane_index == (#[trigger] r[k]).pane_index
            &&& forall|k: int, i: int|
                0 <= k < r.len() && 0 <= i < panes.len() && outcomes[i] is Failed ==> (
                #[trigger] r[k]).pane_index != (#[trigger] panes[i]).pane_index
        }),
    decreases panes.len(),
{
    let r = restored_panes(word, panes, outcomes);
    if panes.len() > 0 {
        let init = panes.drop_last();
        let n = panes.len() - 1;
        assert forall|i: int| 0 <= i < n implies #[trigger] init[i] == panes[i] by {}
        assert forall|i: int, j: int| 0 <= i < j < init.len() implies (
        #[trigger] init[i]).pane_index != (#[trigger] init[j]).pane_index by {
            assert(panes[i].pane_index != panes[j].pane_index);
        }
        law_which_panes_come_back(word, init, outcomes);
        let q = restored_panes(word, init, outcomes);
        if outcomes[n] is Failed {
            assert(r == q);
        } else {
            let new = restored_pane(word, panes[n], outcomes[n]->seeded);
            lemma_first_where(q, is_pane(new.pane_index));
            if let Some(k) = pane_at(q, new.pane_index) {
                let i = choose|i: int|
                    0 <= i < init.len() && !(outcomes[i] is Failed) && (
                    #[trigger] init[i]).pane_index == q[k].pane_index;
                assert(panes[i].pane_index != panes[n].pane_index);
            }
            assert(r == q.push(new));
            assert(r[q.len() as int] == new);
        }
        assert forall|i: int| 0 <= i < panes.len() && !(outcomes[i] is Failed) implies r.contains(
            restored_pane(word, #[trigger] panes[i], outcomes[i]->seeded),
        ) by {
            if i < n {
                let x = restored_pane(word, init[i], outcomes[i]->seeded);
                assert(q.contains(x));
                let k = choose|k: int| 0 <= k < q.len() && q[k] == x;
                assert(r[k] == x);
            } else {
                assert(r[q.len() as int] == restored_pane(word, panes[n], outcomes[n]->seeded));
            }
        }
        assert forall|k: int| 0 <= k < r.len() implies exists|i: int|
            0 <= i < panes.len() && !(outcomes[i] is Failed) && (#[trigger] panes[i]).pane_index
                == (#[trigger] r[k]).pane_index by {
            if k < q.len() {
                assert(q[k] == r[k]);
                let i = choose|i: int|
                    0 <= i < init.len() && !(outcomes[i] is Failed) && (
                    #[trigger] init[i]).pane_index == q[k].pane_index;
                assert(panes[i].pane_index == r[k].pane_index);
            } else {
                assert(panes[n].pane_index == r[k].pane_index);
            }
        }
        assert forall|k: int, i: int|
            0 <= k < r.len() && 0 <= i < panes.len() && outcomes[i] is Failed implies (
        #[trigger] r[k]).pane_index != (#[trigger] panes[i]).pane_index by {
            let j = choose|j: int|
                0 <= j < panes.len() && !(outcomes[j] is Failed) && (
                #[trigger] panes[j]).pane_index == r[k].pane_index;
            if j < i {
                assert(panes[j].pane_index != panes[i].pane_index);
            } else {
                assert(panes[i].pane_index != panes[j].pane_index);
            }
        }
    }
}

/// A tab comes back with its name and number, and shows exactly those of its panes that are back.
/// The focus stays on its pane, or goes to the first that is shown where that pane is gone. A tab
/// of which no pane is back is dropped.
pub proof fn law_restored_tab_shows_what_is_back(t: TabView, panes: Seq<PaneView>)
    requires
        t.wf(),
    ensures
        match restored_tab(t, panes) {
            Some(u) => {
                &&& u.tab_index == t.tab_index
                &&& u.name == t.name
                &&& forall|p: u32| #[trigger]
                    u.layout.leaves().contains(p) <==> t.layout.leaves().contains(p) && is_back(
                        p,
                        panes,
                    )
                &&& is_back(t.focused_pane, panes) ==> u.focused_pane == t.focused_pane
                &&& !is_back(t.focused_pane, panes) ==> u.focused_pane == u.layout.leaves()[0]
                &&& u.layout.leaves().contains(u.focused_pane)
            },
            None => forall|p: u32| #[trigger]
                t.layout.leaves().contains(p) ==> !is_back(p, panes),
        },
{
    lemma_restored_tab(t, panes);
    assert forall|p: u32| #[trigger] is_back(p, panes) == (pane_at(panes, p) is Some) by {
        lemma_first_where(panes, is_pane(p));
        if let Some(k) = pane_at(panes, p) {
            assert(panes[k].pane_index == p);
        }
        if is_back(p, panes) {
            let k = choose|k: int| 0 <= k < panes.len() && (#[trigger] panes[k]).pane_index == p;
            assert(is_pane(p)(panes[k]));
        }
    }
    if let Some(u) = restored_tab(t, panes) {
        assert(u.wf());
        assert(u.has(u.focused_pane));
        assert forall|p: u32| #[trigger] u.layout.leaves().contains(p)
            <==> t.layout.leaves().contains(p) && is_back(p, panes) by {
            assert(u.has(p) <==> t.has(p) && pane_at(panes, p) is Some);
        }
        let l = u.layout.leaves();
        assert forall|i: int| 0 <= i < l.len() implies pane_at(panes, #[trigger] l[i]) is Some by {
            assert(l.contains(l[i]));
        }
        lemma_nothing_missing(l, panes);
    } else {
        assert forall|p: u32| #[trigger] t.layout.leaves().contains(p) implies !is_back(
            p,
            panes,
        ) by {
            assert(t.has(p));
        }
    }
}

/// Whether a pane is among those that are back.
pub open spec fn is_back(p: u32, panes: Seq<PaneView>) -> bool {
    exists|k: int| 0 <= k < panes.len() && (#[trigger] panes[k]).pane_index == p
}

/// Tabs come back one by one, in their order.
pub proof fn law_tabs_come_back_in_order(
    front: Seq<TabView>,
    t: TabView,
    panes: Seq<PaneView>,
)
    ensures
        restored_tabs(Seq::empty(), panes) == Seq::<TabView>::empty(),
        restored_tab(t, panes) matches Some(u) ==> restored_tabs(front.push(t), panes)
            == restored_tabs(front, panes).push(u),
        restored_tab(t, panes) is None ==> restored_tabs(front.push(t), panes) == restored_tabs(
            front,
            panes,
        ),
{
    assert(front.push(t).drop_last() =~= front);
}

/// A restored session keeps its name and the time of its last use, hands out no index twice, and
/// shows the tab that was active where that is back, else its first. Where no tab is back, each
/// pane has one of its own. The session is gone only where no pane is back.
pub proof fn law_restored_session_goes_on(saved: SavedView, outcomes: Seq<PaneOutcome>)
    requires
        saved.wf(),
    ensures
        match restored_session(saved, outcomes) {
            Some(s) => {
                &&& s.meta == saved.meta
                &&& s.last_active_ms == saved.last_active_ms
                &&& s.next_pane_index == saved.next_pane_index
                &&& s.panes == restored_panes(saved.meta.word_id, saved.panes, outcomes)
                &&& s.panes.len() > 0
                &&& (exists|i: int|
                    0 <= i < s.tabs.len() && (#[trigger] s.tabs[i]).tab_index == saved.active_tab)
                    ==> s.active_tab == saved.active_tab
                &&& restored_tabs(saved.tabs, s.panes).len() > 0 ==> s.tabs == restored_tabs(
                    saved.tabs,
                    s.panes,
                )
                &&& restored_tabs(saved.tabs, s.panes).len() == 0 ==> s.tabs == single_tabs(s.panes)
                &&& s.next_tab_index == index_above(s.tabs, saved.next_tab_index)
                &&& (forall|i: int|
                    0 <= i < s.tabs.len() ==> (#[trigger] s.tabs[i]).tab_index != saved.active_tab)
                    ==> s.active_tab == s.tabs[0].tab_index
            },
            None => forall|i: int| 0 <= i < saved.panes.len() ==> #[trigger] outcomes[i] is Failed,
        },
{
    let panes = restored_panes(saved.meta.word_id, saved.panes, outcomes);
    law_which_panes_come_back(saved.meta.word_id, saved.panes, outcomes);
    if panes.len() == 0 {
        assert forall|i: int| 0 <= i < saved.panes.len() implies #[trigger] outcomes[i]
            is Failed by {
            if !(outcomes[i] is Failed) {
                assert(panes.contains(
                    restored_pane(saved.meta.word_id, saved.panes[i], outcomes[i]->seeded),
                ));
            }
        }
    } else {
        let s = restored_session(saved, outcomes)->0;
        lemma_first_where(s.tabs, crate::session::is_tab(saved.active_tab));
        if exists|i: int|
            0 <= i < s.tabs.len() && (#[trigger] s.tabs[i]).tab_index == saved.active_tab {
            let i = choose|i: int|
                0 <= i < s.tabs.len() && (#[trigger] s.tabs[i]).tab_index == saved.active_tab;
            assert(crate::session::is_tab(saved.active_tab)(s.tabs[i]));
        }
    }
}

/// Saving a session and restoring all of its panes gives back each pane's program, arguments,
/// rows and columns under its index.
pub proof fn law_restore_after_save_keeps_the_panes(
    s: SessionView,
    captures: Seq<CaptureView>,
    outcomes: Seq<PaneOutcome>,
    k: int,
)
    requires
        s.wf(),
        captures.len() == s.panes.len(),
        0 <= k < s.panes.len(),
        forall|i: int| 0 <= i < s.panes.len() ==> !(#[trigger] outcomes[i] is Failed),
    ensures
        restored_session(s.saved(captures), outcomes) matches Some(r) && exists|m: int|
            0 <= m < r.panes.len() && (#[trigger] r.panes[m]).pane_index == s.panes[k].pane_index
                && r.panes[m].program == s.panes[k].program && r.panes[m].args == s.panes[k].args
                && r.panes[m].size.rows == s.panes[k].size.rows && r.panes[m].size.cols
                == s.panes[k].size.cols,
{
    let saved = s.saved(captures);
    let word = saved.meta.word_id;
    crate::app::persistence::law_saved_session_wf(s, captures);
    let i = lemma_saved_at(s, captures, k);
    assert(!(outcomes[i] is Failed));
    let m = lemma_back_at(word, saved.panes, outcomes, i);
    let r = restored_session(saved, outcomes)->0;
    assert(r.panes[m].pane_index == s.panes[k].pane_index);
}

proof fn lemma_saved_at(s: SessionView, captures: Seq<CaptureView>, k: int) -> (i: int)
    requires
        s.wf(),
        captures.len() == s.panes.len(),
        0 <= k < s.panes.len(),
    ensures
        s.saved(captures).panes.len() == s.panes.len(),
        0 <= i < s.saved(captures).panes.len(),
        keeps(s.saved(captures).panes[i], s.panes[k], captures[k]),
{
    crate::app::persistence::law_saved_pane_is_what_was_captured(s, captures);
    let saved = s.saved(captures).panes;
    let p = s.panes[k];
    choose|i: int| 0 <= i < saved.len() && (#[trigger] saved[i]).pane_index == p.pane_index
}

proof fn lemma_back_at(
    word: Seq<char>,
    panes: Seq<SavedPaneView>,
    outcomes: Seq<PaneOutcome>,
    i: int,
) -> (m: int)
    requires
        distinct_panes(panes),
        0 <= i < panes.len(),
        !(outcomes[i] is Failed),
    ensures
        0 <= m < restored_panes(word, panes, outcomes).len(),
        restored_panes(word, panes, outcomes)[m] == restored_pane(
            word,
            panes[i],
            outcomes[i]->seeded,
        ),
{
    law_which_panes_come_back(word, panes, outcomes);
    let r = restored_panes(word, panes, outcomes);
    let x = restored_pane(word, panes[i], outcomes[i]->seeded);
    choose|m: int| 0 <= m < r.len() && r[m] == x
}

/// The way a pane is brought back. A process that was handed over is adopted, registered and
/// opened; where that fails, a fresh one is started, and one that was already registered is
/// closed before. Only where the fresh one fails as well is the pane lost.
pub proof fn law_way_back(a: bool, b: bool, c: bool, x: bool, y: bool)
    ensures
        ({
            let registered = step_after(step_after(RestoreStep::Adopt, a), b);
            let opened = step_after(registered, c);
            let fresh = step_after(step_after(RestoreStep::Spawn, x), y);
            &&& a && b && c ==> opened == RestoreStep::Done(SeedMode::Inherited)
            &&& a && b && !c ==> opened == RestoreStep::CloseAdopted
            &&& step_after(RestoreStep::CloseAdopted, x) == RestoreStep::Spawn
            &&& !a ==> step_after(RestoreStep::Adopt, a) == RestoreStep::Spawn
            &&& a && !b ==> registered == RestoreStep::Spawn
            &&& x && y ==> fresh == RestoreStep::Done(SeedMode::Respawned)
            &&& !(x && y) ==> fresh == RestoreStep::Failed
        }),
{
}

/// Where no tab can be brought back, each pane has one of its own: numbered from zero and named
/// from one, in the order of the panes' indices, with the focus on its pane.
pub proof fn law_panes_without_tabs_get_their_own(panes: Seq<PaneView>)
    requires
        panes.len() <= u32::MAX,
    ensures
        ({
            let t = single_tabs(panes);
            &&& t.len() == panes.len()
            &&& forall|i: int|
                0 <= i < t.len() ==> (#[trigger] t[i]).tab_index == i && t[i].name == decimal_text(
                    (i + 1) as nat,
                ) && t[i].layout == Tree::Leaf(t[i].focused_pane)
            &&& forall|i: int, j: int|
                0 <= i < j < t.len() ==> (#[trigger] t[i]).focused_pane <= (
                #[trigger] t[j]).focused_pane
        }),
{
    let keys = pane_keys(panes);
    let o = stable_order(keys);
    law_stable_order(keys);
    let t = single_tabs(panes);
    assert forall|i: int, j: int| 0 <= i < j < t.len() implies (#[trigger] t[i]).focused_pane <= (
    #[trigger] t[j]).focused_pane by {
        assert(precedes(keys, o[i], o[j]));
    }
}

/// Where no tab can be brought back, no pane is left without a tab.
pub proof fn law_no_pane_is_left_without_a_tab(panes: Seq<PaneView>, k: int)
    requires
        panes.len() <= u32::MAX,
        0 <= k < panes.len(),
    ensures
        exists|i: int|
            0 <= i < panes.len() && (#[trigger] single_tabs(panes)[i]).focused_pane
                == panes[k].pane_index,
{
    let keys = pane_keys(panes);
    let o = stable_order(keys);
    law_stable_order(keys);
    lemma_order_covers(keys, k);
    let i = choose|i: int| 0 <= i < o.len() && o[i] == k;
    assert(single_tabs(panes)[i].focused_pane == panes[k].pane_index);
}

/// The next tab index is the smallest that is not below a given one and above every tab's.
pub proof fn law_next_tab_index_is_free(tabs: Seq<TabView>, n: u32)
    requires
        forall|i: int| 0 <= i < tabs.len() ==> (#[trigger] tabs[i]).tab_index < u32::MAX,
    ensures
        index_above(tabs, n) >= n,
        forall|i: int|
            0 <= i < tabs.len() ==> (#[trigger] tabs[i]).tab_index < index_above(tabs, n),
        index_above(tabs, n) == n || exists|i: int|
            0 <= i < tabs.len() && (#[trigger] tabs[i]).tab_index + 1 == index_above(tabs, n),
    decreases tabs.len(),
{
    if tabs.len() > 0 {
        let init = tabs.drop_last();
        assert forall|i: int| 0 <= i < init.len() implies (#[trigger] init[i]).tab_index
            < u32::MAX by {
            assert(init[i] == tabs[i]);
        }
        law_next_tab_index_is_free(init, n);
        let m = index_above(init, n);
        assert forall|i: int| 0 <= i < tabs.len() implies (#[trigger] tabs[i]).tab_index
            < index_above(tabs, n) by {
            if i < init.len() {
                assert(init[i].tab_index < m);
            }
        }
        if index_above(tabs, n) == m && m != n {
            let i = choose|i: int|
                0 <= i < init.len() && (#[trigger] init[i]).tab_index + 1 == m;
            assert(tabs[i].tab_index + 1 == m);
        } else if index_above(tabs, n) != m {
            assert(tabs[tabs.len() - 1].tab_index + 1 == index_above(tabs, n));
        }
    }
}

} // verus!
