//! What every session operation keeps.

use crate::layout::{focus_tree, remove_tree, split_tree, swap_tree, traded, SplitDir, Tree};
use crate::layout_laws::{
    inserted_behind, law_focus_survives_removal, law_ratios_keep_well_formed,
    law_remove_keeps_well_formed, law_remove_leaves, law_split_keeps_well_formed, law_split_leaves,
    law_swap_twice, removed_at,
};
use crate::list::{
    law_stable_order, lemma_first_where, lemma_first_where_is, lemma_first_where_none,
    lemma_order_covers, precedes, stable_order,
};
use crate::pane::{distinct_clients, PaneView};
use crate::protocol::TabView;
use crate::session::{
    arranging, drop_pane, drop_panes, focusing, is_pane, is_tab, named, pane_at, pane_keys,
    put_pane, shows, single_tab, tab_at, tab_showing, trading, CloseView, SessionView,
};
use crate::text::decimal_text;
use vstd::prelude::*;

verus! {

pub proof fn lemma_well_formed_sized(t: Tree)
    requires
        t.well_formed(),
    ensures
        t.sized(),
    decreases t,
{
    match t {
        Tree::Leaf(_) => {},
        Tree::Split(_, _, cs) => {
            assert forall|i: int| 0 <= i < cs.len() implies (#[trigger] cs[i]).sized() by {
                assert(cs[i].well_formed());
                lemma_well_formed_sized(cs[i]);
            }
        },
    }
}

pub proof fn lemma_single_leaf(p: u32, q: u32)
    ensures
        Tree::Leaf(p).leaves().contains(q) <==> p == q,
        Tree::Leaf(p).leaves().no_duplicates(),
{
    let l = Tree::Leaf(p).leaves();
    assert(l =~= seq![p]);
    assert(l[0] == p);
}

/// A session of one pane in one tab is well formed.
pub proof fn lemma_first_session_wf(s: SessionView)
    requires
        s.panes.len() == 1,
        s.panes[0].pane_index == 0,
        s.next_pane_index == 1,
        s.tabs == seq![single_tab(0, 0)],
        s.next_tab_index == 1,
    ensures
        distinct_clients(s.panes[0].clients) ==> s.wf(),
{
    let t = s.tabs[0];
    lemma_single_leaf(0, 0);
    assert(t.wf());
    lemma_first_where_is(s.panes, is_pane(0), 0);
    assert forall|p: u32| #[trigger] t.has(p) implies s.has_pane(p) by {
        lemma_single_leaf(0, p);
    }
}

/// A tab may be replaced by a well-formed one of the same index that shows the same panes.
pub proof fn lemma_tab_update_keeps_wf(s: SessionView, i: int, t: TabView)
    requires
        s.wf(),
        0 <= i < s.tabs.len(),
        t.tab_index == s.tabs[i].tab_index,
        t.wf(),
        forall|p: u32| #[trigger] t.has(p) <==> s.tabs[i].has(p),
    ensures
        (SessionView { tabs: s.tabs.update(i, t), ..s }).wf(),
{
    let r = SessionView { tabs: s.tabs.update(i, t), ..s };
    assert(forall|k: int|
        0 <= k < s.tabs.len() ==> (#[trigger] r.tabs[k]).tab_index == s.tabs[k].tab_index);
    assert(forall|k: int, p: u32|
        0 <= k < s.tabs.len() ==> (#[trigger] r.tabs[k].has(p) <==> s.tabs[k].has(p)));
    assert forall|p: u32| s.has_pane(p) implies r.has_pane(p) by {}
    assert forall|k: int| 0 <= k < r.tabs.len() implies (#[trigger] r.tabs[k]).wf() by {
        if k != i {
            assert(r.tabs[k] == s.tabs[k]);
        }
    }
}

/// A pane may be replaced by one of the same index without repeated clients.
pub proof fn lemma_pane_update_keeps_wf(s: SessionView, p: int, pane: PaneView)
    requires
        s.wf(),
        0 <= p < s.panes.len(),
        pane.pane_index == s.panes[p].pane_index,
        distinct_clients(pane.clients),
    ensures
        (SessionView { panes: s.panes.update(p, pane), ..s }).wf(),
{
    let r = SessionView { panes: s.panes.update(p, pane), ..s };
    assert(forall|k: int|
        0 <= k < s.panes.len() ==> (#[trigger] r.panes[k]).pane_index == s.panes[k].pane_index);
    lemma_same_indices(s.panes, r.panes);
    assert forall|i: int, q: u32| 0 <= i < r.tabs.len() && #[trigger] r.tabs[i].has(
        q,
    ) implies r.has_pane(q) by {
        assert(s.tabs[i].has(q));
        assert(s.has_pane(q));
    }
    assert forall|k: int| 0 <= k < r.panes.len() implies distinct_clients(
        (#[trigger] r.panes[k]).clients,
    ) by {
        if k != p {
            assert(r.panes[k] == s.panes[k]);
        }
    }
}

/// Panes are found at the same positions in lists with the same indices.
pub proof fn lemma_same_indices(a: Seq<PaneView>, b: Seq<PaneView>)
    requires
        a.len() == b.len(),
        forall|k: int| 0 <= k < a.len() ==> (#[trigger] a[k]).pane_index == b[k].pane_index,
    ensures
        forall|q: u32| #[trigger] pane_at(a, q) == pane_at(b, q),
{
    assert forall|q: u32| #[trigger] pane_at(a, q) == pane_at(b, q) by {
        lemma_first_where(a, is_pane(q));
        match pane_at(a, q) {
            Some(i) => {
                assert(is_pane(q)(b[i]));
                assert forall|j: int| 0 <= j < i implies !is_pane(q)(#[trigger] b[j]) by {
                    assert(!is_pane(q)(a[j]));
                }
                lemma_first_where_is(b, is_pane(q), i);
            },
            None => {
                assert forall|j: int| 0 <= j < b.len() implies !is_pane(q)(#[trigger] b[j]) by {
                    assert(!is_pane(q)(a[j]));
                }
                lemma_first_where_none(b, is_pane(q));
            },
        }
    }
}

/// Moving a tab keeps a session well formed.
pub proof fn law_reorder_keeps_wf(s: SessionView, index: u32, position: u32)
    requires
        s.wf(),
    ensures
        s.reordered(index, position).wf(),
{
    lemma_first_where(s.tabs, is_tab(index));
    match tab_at(s.tabs, index) {
        None => {},
        Some(i) => {
            let rest = s.tabs.remove(i);
            let at = if position < rest.len() {
                position as int
            } else {
                rest.len() as int
            };
            let r = s.reordered(index, position);
            // Where the tab at position `k` of the result stood before.
            let from = |k: int|
                if k == at {
                    i
                } else {
                    let m = if k < at {
                        k
                    } else {
                        k - 1
                    };
                    if m < i {
                        m
                    } else {
                        m + 1
                    }
                };
            assert forall|k: int| 0 <= k < r.tabs.len() implies 0 <= #[trigger] from(k)
                < s.tabs.len() && r.tabs[k] == s.tabs[from(k)] by {}
            assert forall|a: int, b: int| 0 <= a < b < r.tabs.len() implies (
            #[trigger] r.tabs[a]).tab_index != (#[trigger] r.tabs[b]).tab_index by {
                let x = from(a);
                let y = from(b);
                assert(x != y);
                assert(s.tabs[x].tab_index != s.tabs[y].tab_index);
            }
            assert forall|a: int, b: int, p: u32| 0 <= a < b < r.tabs.len() implies !(
            #[trigger] r.tabs[a].has(p) && #[trigger] r.tabs[b].has(p)) by {
                let x = from(a);
                let y = from(b);
                assert(x != y);
                if x < y {
                    assert(!(s.tabs[x].has(p) && s.tabs[y].has(p)));
                } else {
                    assert(!(s.tabs[y].has(p) && s.tabs[x].has(p)));
                }
            }
            assert forall|a: int| 0 <= a < r.tabs.len() implies (#[trigger] r.tabs[a]).wf() by {
                assert(s.tabs[from(a)].wf());
            }
            assert forall|a: int, p: u32| 0 <= a < r.tabs.len() && #[trigger] r.tabs[a].has(
                p,
            ) implies r.has_pane(p) by {
                assert(s.tabs[from(a)].has(p));
            }
            assert forall|a: int| 0 <= a < r.tabs.len() implies (#[trigger] r.tabs[a]).tab_index
                < r.next_tab_index by {
                assert(s.tabs[from(a)].tab_index < s.next_tab_index);
            }
        },
    }
}

/// Dropping a pane leaves the others where they can be found.
pub proof fn lemma_drop_pane(panes: Seq<PaneView>, index: u32)
    requires
        forall|i: int, j: int|
            0 <= i < j < panes.len() ==> (#[trigger] panes[i]).pane_index != (
            #[trigger] panes[j]).pane_index,
    ensures
        ({
            let r = drop_pane(panes, index);
            &&& forall|i: int, j: int|
                0 <= i < j < r.len() ==> (#[trigger] r[i]).pane_index != (
                #[trigger] r[j]).pane_index
            &&& forall|i: int| 0 <= i < r.len() ==> panes.contains(#[trigger] r[i])
            &&& forall|p: u32|
                p != index ==> (#[trigger] pane_at(r, p) is Some <==> pane_at(panes, p) is Some)
            &&& pane_at(r, index) is None
        }),
{
    let r = drop_pane(panes, index);
    lemma_first_where(panes, is_pane(index));
    match pane_at(panes, index) {
        None => {
            assert forall|i: int| 0 <= i < r.len() implies panes.contains(#[trigger] r[i]) by {
                assert(panes[i] == r[i]);
            }
        },
        Some(k) => {
            let from = |i: int|
                if i < k {
                    i
                } else {
                    i + 1
                };
            assert forall|i: int| 0 <= i < r.len() implies #[trigger] r[i] == panes[from(i)] by {}
            assert forall|i: int, j: int| 0 <= i < j < r.len() implies (
            #[trigger] r[i]).pane_index != (#[trigger] r[j]).pane_index by {
                assert(panes[from(i)].pane_index != panes[from(j)].pane_index);
            }
            assert forall|p: u32| p != index implies (#[trigger] pane_at(r, p) is Some <==> pane_at(
                panes,
                p,
            ) is Some) by {
                lemma_first_where(panes, is_pane(p));
                lemma_first_where(r, is_pane(p));
                if let Some(a) = pane_at(panes, p) {
                    let b = if a < k {
                        a
                    } else {
                        a - 1
                    };
                    assert(a != k);
                    assert(r[b] == panes[a]);
                    assert(is_pane(p)(r[b]));
                }
                if let Some(b) = pane_at(r, p) {
                    assert(is_pane(p)(panes[from(b)]));
                }
            }
            lemma_first_where(r, is_pane(index));
            if let Some(b) = pane_at(r, index) {
                let a = from(b);
                assert(panes[a].pane_index == index);
                assert(a != k);
                if a < k {
                    assert(panes[a].pane_index != panes[k].pane_index);
                } else {
                    assert(panes[k].pane_index != panes[a].pane_index);
                }
            }
        },
    }
}

/// Dropping several panes leaves the others where they can be found.
pub proof fn lemma_drop_panes(panes: Seq<PaneView>, indices: Seq<u32>)
    requires
        forall|i: int, j: int|
            0 <= i < j < panes.len() ==> (#[trigger] panes[i]).pane_index != (
            #[trigger] panes[j]).pane_index,
    ensures
        ({
            let r = drop_panes(panes, indices);
            &&& forall|i: int, j: int|
                0 <= i < j < r.len() ==> (#[trigger] r[i]).pane_index != (
                #[trigger] r[j]).pane_index
            &&& forall|i: int| 0 <= i < r.len() ==> panes.contains(#[trigger] r[i])
            &&& forall|p: u32|
                !indices.contains(p) ==> (#[trigger] pane_at(r, p) is Some <==> pane_at(panes, p)
                    is Some)
            &&& forall|p: u32| indices.contains(p) ==> #[trigger] pane_at(r, p) is None
        }),
    decreases indices.len(),
{
    if indices.len() == 0 {
        let r = drop_panes(panes, indices);
        assert forall|i: int| 0 <= i < r.len() implies panes.contains(#[trigger] r[i]) by {
            assert(panes[i] == r[i]);
        }
    } else {
        let init = indices.drop_last();
        let last = indices.last();
        lemma_drop_panes(panes, init);
        let m = drop_panes(panes, init);
        lemma_drop_pane(m, last);
        let r = drop_panes(panes, indices);
        assert forall|i: int| 0 <= i < r.len() implies panes.contains(#[trigger] r[i]) by {
            assert(m.contains(r[i]));
            let k = choose|k: int| 0 <= k < m.len() && m[k] == r[i];
            assert(panes.contains(m[k]));
        }
        assert forall|p: u32| indices.contains(p) <==> init.contains(p) || p == last by {
            if indices.contains(p) {
                let k = choose|k: int| 0 <= k < indices.len() && indices[k] == p;
                if k < init.len() {
                    assert(init[k] == p);
                }
            }
            if init.contains(p) {
                let k = choose|k: int| 0 <= k < init.len() && init[k] == p;
                assert(indices[k] == p);
            }
            assert(indices[indices.len() - 1] == last);
        }
        assert forall|p: u32| !indices.contains(p) implies (#[trigger] pane_at(r, p) is Some
            <==> pane_at(panes, p) is Some) by {
            assert(!init.contains(p) && p != last);
            assert(pane_at(m, p) is Some <==> pane_at(panes, p) is Some);
        }
        assert forall|p: u32| indices.contains(p) implies #[trigger] pane_at(r, p) is None by {
            if p != last {
                assert(pane_at(m, p) is None);
            }
        }
    }
}

/// Closing a tab keeps a session well formed.
pub proof fn law_close_tab_keeps_wf(s: SessionView, index: u32)
    requires
        s.wf(),
    ensures
        s.tab_closed(index).wf(),
{
    lemma_first_where(s.tabs, is_tab(index));
    match tab_at(s.tabs, index) {
        None => {},
        Some(k) => {
            let leaves = s.tabs[k].layout.leaves();
            lemma_drop_panes(s.panes, leaves);
            let r = s.tab_closed(index);
            lemma_less_tab_wf(s, k, r);
        },
    }
}

/// A session stays well formed when it loses a tab and exactly the panes that tab shows.
proof fn lemma_less_tab_wf(s: SessionView, k: int, r: SessionView)
    requires
        s.wf(),
        0 <= k < s.tabs.len(),
        r.tabs == s.tabs.remove(k),
        r.next_pane_index == s.next_pane_index,
        r.next_tab_index == s.next_tab_index,
        forall|i: int, j: int|
            0 <= i < j < r.panes.len() ==> (#[trigger] r.panes[i]).pane_index != (
            #[trigger] r.panes[j]).pane_index,
        forall|i: int| 0 <= i < r.panes.len() ==> s.panes.contains(#[trigger] r.panes[i]),
        forall|p: u32|
            !s.tabs[k].has(p) ==> (#[trigger] pane_at(r.panes, p) is Some <==> pane_at(s.panes, p)
                is Some),
    ensures
        r.wf(),
{
    let from = |i: int|
        if i < k {
            i
        } else {
            i + 1
        };
    assert forall|i: int| 0 <= i < r.tabs.len() implies #[trigger] r.tabs[i] == s.tabs[from(i)] by {}
    assert forall|a: int, b: int| 0 <= a < b < r.tabs.len() implies (
    #[trigger] r.tabs[a]).tab_index != (#[trigger] r.tabs[b]).tab_index by {
        assert(s.tabs[from(a)].tab_index != s.tabs[from(b)].tab_index);
    }
    assert forall|a: int, b: int, p: u32| 0 <= a < b < r.tabs.len() implies !(
    #[trigger] r.tabs[a].has(p) && #[trigger] r.tabs[b].has(p)) by {
        assert(!(s.tabs[from(a)].has(p) && s.tabs[from(b)].has(p)));
    }
    assert forall|a: int| 0 <= a < r.tabs.len() implies (#[trigger] r.tabs[a]).wf() by {
        assert(s.tabs[from(a)].wf());
    }
    assert forall|a: int| 0 <= a < r.tabs.len() implies (#[trigger] r.tabs[a]).tab_index
        < r.next_tab_index by {
        assert(s.tabs[from(a)].tab_index < s.next_tab_index);
    }
    assert forall|a: int, p: u32| 0 <= a < r.tabs.len() && #[trigger] r.tabs[a].has(
        p,
    ) implies r.has_pane(p) by {
        let x = from(a);
        assert(s.tabs[x].has(p));
        assert(s.has_pane(p));
        assert(!s.tabs[k].has(p)) by {
            if x < k {
                assert(!(s.tabs[x].has(p) && s.tabs[k].has(p)));
            } else {
                assert(!(s.tabs[k].has(p) && s.tabs[x].has(p)));
            }
        }
        assert(pane_at(r.panes, p) is Some);
    }
    lemma_subset_panes(s, r);
}

proof fn lemma_subset_panes(s: SessionView, r: SessionView)
    requires
        s.wf(),
        r.next_pane_index >= s.next_pane_index,
        forall|i: int| 0 <= i < r.panes.len() ==> s.panes.contains(#[trigger] r.panes[i]),
    ensures
        forall|i: int|
            0 <= i < r.panes.len() ==> (#[trigger] r.panes[i]).pane_index < r.next_pane_index,
        forall|i: int|
            0 <= i < r.panes.len() ==> distinct_clients((#[trigger] r.panes[i]).clients),
{
    assert forall|i: int| 0 <= i < r.panes.len() implies (#[trigger] r.panes[i]).pane_index
        < r.next_pane_index && distinct_clients(r.panes[i].clients) by {
        assert(s.panes.contains(r.panes[i]));
        let m = choose|m: int| 0 <= m < s.panes.len() && s.panes[m] == r.panes[i];
        assert(s.panes[m].pane_index < s.next_pane_index);
    }
}

pub proof fn lemma_swap_tab(t: TabView, a: u32, b: u32)
    requires
        t.wf(),
    ensures
        t.swapped(a, b).wf(),
        forall|p: u32| #[trigger] t.swapped(a, b).has(p) <==> t.has(p),
{
    if a != b && t.has(a) && t.has(b) {
        law_swap_twice(t.layout, a, b);
        let l = t.layout.leaves();
        let m = swap_tree(t.layout, a, b).leaves();
        assert(m == l.map_values(|p: u32| traded(p, a, b)));
        assert forall|p: u32| #[trigger] m.contains(p) <==> l.contains(p) by {
            if m.contains(p) {
                let k = choose|k: int| 0 <= k < m.len() && m[k] == p;
                assert(m[k] == traded(l[k], a, b));
                assert(l.contains(l[k]));
            }
            if l.contains(p) {
                let q = traded(p, a, b);
                assert(traded(q, a, b) == p);
                assert(l.contains(q));
                let k = choose|k: int| 0 <= k < l.len() && l[k] == q;
                assert(m[k] == p);
            }
        }
        assert forall|i: int, j: int| 0 <= i < m.len() && 0 <= j < m.len() && i != j implies m[i]
            != m[j] by {
            assert(m[i] == traded(l[i], a, b));
            assert(m[j] == traded(l[j], a, b));
            assert(l[i] != l[j]);
        }
        assert(t.swapped(a, b).layout.leaves() == m);
    }
}

pub proof fn lemma_reweight_tab(t: TabView, path: Seq<u32>, ratios: Seq<u16>)
    requires
        t.wf(),
    ensures
        t.reweighted(path, ratios).wf(),
        forall|p: u32| #[trigger] t.reweighted(path, ratios).has(p) <==> t.has(p),
{
    law_ratios_keep_well_formed(t.layout, path, ratios);
}

/// A tab without one of its several panes is well formed and shows all the others.
pub proof fn lemma_tab_without_pane(t: TabView, pane: u32)
    requires
        t.wf(),
        t.has(pane),
        t.layout.leaves().len() > 1,
    ensures
        t.without_pane(pane).wf(),
        forall|p: u32| #[trigger] t.without_pane(pane).has(p) <==> t.has(p) && p != pane,
{
    let l = t.layout.leaves();
    assert(t.layout is Split) by {
        if let Tree::Leaf(q) = t.layout {
            assert(l =~= seq![q]);
        }
    }
    law_remove_leaves(t.layout, pane);
    law_remove_keeps_well_formed(t.layout, pane);
    law_focus_survives_removal(t.layout, pane);
    let u = remove_tree(t.layout, pane)->0;
    let m = u.leaves();
    let k = choose|k: int| removed_at(l, m, pane, k);
    assert forall|p: u32| #[trigger] m.contains(p) <==> l.contains(p) && p != pane by {
        if m.contains(p) {
            let i = choose|i: int| 0 <= i < m.len() && m[i] == p;
            let j = if i < k {
                i
            } else {
                i + 1
            };
            assert(l[j] == p);
            assert(l[j] != l[k]);
        }
        if l.contains(p) && p != pane {
            let j = choose|j: int| 0 <= j < l.len() && l[j] == p;
            assert(j != k);
            if j < k {
                assert(m[j] == p);
            } else {
                assert(m[j - 1] == p);
            }
        }
    }
    assert forall|i: int, j: int| 0 <= i < m.len() && 0 <= j < m.len() && i != j implies m[i]
        != m[j] by {
        let x = if i < k {
            i
        } else {
            i + 1
        };
        let y = if j < k {
            j
        } else {
            j + 1
        };
        assert(l[x] != l[y]);
    }
    let r = t.without_pane(pane);
    assert(r.layout == u);
    if t.focused_pane == pane {
        assert(m.contains(focus_tree(t.layout, pane)->0));
    }
    assert(r.has(r.focused_pane));
}

/// Closing a pane keeps a session well formed, and its pane is gone.
pub proof fn law_close_pane_keeps_wf(s: SessionView, pane: u32)
    requires
        s.wf(),
    ensures
        s.pane_closed(pane).0.wf(),
        !s.pane_closed(pane).0.has_pane(pane),
{
    let r = s.pane_closed(pane).0;
    lemma_drop_pane(s.panes, pane);
    lemma_first_where(s.tabs, shows(pane));
    let left = SessionView { panes: drop_pane(s.panes, pane), ..s };
    match tab_showing(s.tabs, pane) {
        None => {
            lemma_subset_panes(s, r);
            assert forall|i: int, p: u32| 0 <= i < r.tabs.len() && #[trigger] r.tabs[i].has(
                p,
            ) implies r.has_pane(p) by {
                assert(s.tabs[i].has(p));
                assert(s.has_pane(p));
                assert(p != pane) by {
                    if p == pane {
                        assert(shows(pane)(s.tabs[i]));
                    }
                }
                assert(pane_at(r.panes, p) is Some);
            }
        },
        Some(k) => {
            let tab = s.tabs[k];
            assert(tab.wf());
            assert(tab.has(pane));
            if tab.layout.leaves().len() <= 1 {
                assert forall|p: u32| !tab.has(p) implies (#[trigger] pane_at(r.panes, p) is Some
                    <==> pane_at(s.panes, p) is Some) by {
                    assert(p != pane);
                }
                lemma_less_tab_wf(s, k, r);
            } else {
                lemma_tab_without_pane(tab, pane);
                let new = tab.without_pane(pane);
                lemma_subset_panes(s, r);
                assert(forall|i: int|
                    0 <= i < s.tabs.len() ==> (#[trigger] r.tabs[i]).tab_index
                        == s.tabs[i].tab_index);
                assert forall|i: int, p: u32| 0 <= i < r.tabs.len() && #[trigger] r.tabs[i].has(
                    p,
                ) implies s.tabs[i].has(p) && p != pane by {
                    if i == k {
                        assert(new.has(p));
                    } else {
                        assert(r.tabs[i] == s.tabs[i]);
                        assert(s.tabs[i].has(p));
                        if p == pane {
                            if i < k {
                                assert(!(s.tabs[i].has(p) && s.tabs[k].has(p)));
                            } else {
                                assert(!(s.tabs[k].has(p) && s.tabs[i].has(p)));
                            }
                        }
                    }
                }
                assert forall|i: int, j: int, p: u32| 0 <= i < j < r.tabs.len() implies !(
                #[trigger] r.tabs[i].has(p) && #[trigger] r.tabs[j].has(p)) by {
                    if r.tabs[i].has(p) && r.tabs[j].has(p) {
                        assert(s.tabs[i].has(p) && s.tabs[j].has(p));
                    }
                }
                assert forall|i: int, p: u32| 0 <= i < r.tabs.len() && #[trigger] r.tabs[i].has(
                    p,
                ) implies r.has_pane(p) by {
                    assert(s.tabs[i].has(p) && p != pane);
                    assert(s.has_pane(p));
                    assert(pane_at(r.panes, p) is Some);
                }
                assert forall|i: int| 0 <= i < r.tabs.len() implies (#[trigger] r.tabs[i]).wf() by {
                    if i != k {
                        assert(r.tabs[i] == s.tabs[i]);
                    }
                }
            }
        },
    }
}

/// A freshly spawned pane that fits a session: its index was handed out and is not in use, and
/// it repeats no client.
pub open spec fn fits_new_pane(s: SessionView, pane: PaneView) -> bool {
    &&& pane.pane_index < s.next_pane_index
    &&& !s.has_pane(pane.pane_index)
    &&& distinct_clients(pane.clients)
}

/// A fresh pane and a fresh tab that fit a session.
pub open spec fn fits_new_tab(s: SessionView, tab_index: u32, pane: PaneView) -> bool {
    &&& fits_new_pane(s, pane)
    &&& tab_index < s.next_tab_index
    &&& tab_at(s.tabs, tab_index) is None
}

/// Adding a pane that is not there yet makes it, and no other, findable.
pub proof fn lemma_push_pane(panes: Seq<PaneView>, pane: PaneView)
    requires
        pane_at(panes, pane.pane_index) is None,
    ensures
        put_pane(panes, pane) == panes.push(pane),
        forall|q: u32|
            #[trigger] pane_at(panes.push(pane), q) is Some <==> pane_at(panes, q) is Some || q
                == pane.pane_index,
{
    let r = panes.push(pane);
    assert forall|q: u32| #[trigger] pane_at(r, q) is Some <==> pane_at(panes, q) is Some || q
        == pane.pane_index by {
        assert(r.drop_last() =~= panes);
        assert(r.last() == pane);
    }
}

proof fn lemma_new_pane_wf(s: SessionView, pane: PaneView)
    requires
        s.wf(),
        fits_new_pane(s, pane),
    ensures
        (SessionView { panes: put_pane(s.panes, pane), ..s }).wf(),
        (SessionView { panes: put_pane(s.panes, pane), ..s }).has_pane(pane.pane_index),
        forall|i: int|
            0 <= i < s.tabs.len() ==> !(#[trigger] s.tabs[i]).has(pane.pane_index),
{
    lemma_push_pane(s.panes, pane);
    let r = SessionView { panes: put_pane(s.panes, pane), ..s };
    lemma_first_where(s.panes, is_pane(pane.pane_index));
    assert forall|i: int, j: int| 0 <= i < j < r.panes.len() implies (
    #[trigger] r.panes[i]).pane_index != (#[trigger] r.panes[j]).pane_index by {
        if j == s.panes.len() {
            assert(!is_pane(pane.pane_index)(s.panes[i]));
        }
    }
    assert forall|i: int, p: u32| 0 <= i < r.tabs.len() && #[trigger] r.tabs[i].has(
        p,
    ) implies r.has_pane(p) by {
        assert(s.has_pane(p));
        assert(pane_at(r.panes, p) is Some);
    }
    assert forall|i: int| 0 <= i < r.panes.len() implies (#[trigger] r.panes[i]).pane_index
        < r.next_pane_index && distinct_clients(r.panes[i].clients) by {
        if i < s.panes.len() {
            assert(r.panes[i] == s.panes[i]);
        }
    }
    assert forall|i: int| 0 <= i < s.tabs.len() implies !(#[trigger] s.tabs[i]).has(
        pane.pane_index,
    ) by {
        if s.tabs[i].has(pane.pane_index) {
            assert(s.has_pane(pane.pane_index));
        }
    }
}

/// Adding a tab with a fresh pane keeps a session well formed.
pub proof fn law_add_tab_keeps_wf(s: SessionView, tab_index: u32, pane: PaneView)
    requires
        s.wf(),
        fits_new_tab(s, tab_index, pane),
    ensures
        s.tab_added(tab_index, pane).wf(),
{
    lemma_new_pane_wf(s, pane);
    let q = SessionView { panes: put_pane(s.panes, pane), ..s };
    let r = s.tab_added(tab_index, pane);
    let t = single_tab(tab_index, pane.pane_index);
    let n = s.tabs.len();
    lemma_single_leaf(pane.pane_index, pane.pane_index);
    assert(t.wf());
    lemma_first_where(s.tabs, is_tab(tab_index));
    assert forall|i: int| 0 <= i < r.tabs.len() implies (#[trigger] r.tabs[i]).wf()
        && r.tabs[i].tab_index < r.next_tab_index by {
        if i < n {
            assert(r.tabs[i] == s.tabs[i]);
        }
    }
    assert forall|i: int, j: int| 0 <= i < j < r.tabs.len() implies (
    #[trigger] r.tabs[i]).tab_index != (#[trigger] r.tabs[j]).tab_index by {
        if j == n {
            assert(!is_tab(tab_index)(s.tabs[i]));
        }
    }
    assert forall|i: int, j: int, p: u32| 0 <= i < j < r.tabs.len() implies !(
    #[trigger] r.tabs[i].has(p) && #[trigger] r.tabs[j].has(p)) by {
        if j == n {
            lemma_single_leaf(pane.pane_index, p);
            assert(r.tabs[i] == s.tabs[i]);
            assert(!s.tabs[i].has(pane.pane_index));
        } else {
            assert(!(s.tabs[i].has(p) && s.tabs[j].has(p)));
        }
    }
    assert forall|i: int, p: u32| 0 <= i < r.tabs.len() && #[trigger] r.tabs[i].has(
        p,
    ) implies r.has_pane(p) by {
        if i == n {
            lemma_single_leaf(pane.pane_index, p);
        } else {
            assert(q.tabs[i].has(p));
            assert(q.has_pane(p));
        }
    }
}

/// A tab with a pane split off shows that pane besides those it showed, and is well formed.
pub proof fn lemma_split_tab(t: TabView, from: u32, new: u32, dir: SplitDir)
    requires
        t.wf(),
        !t.has(new),
    ensures
        t.split_off(from, new, dir).wf(),
        forall|p: u32| #[trigger] t.split_off(from, new, dir).has(p) <==> t.has(p) || p == new,
{
    let target = if t.has(from) {
        from
    } else {
        t.focused_pane
    };
    law_split_keeps_well_formed(t.layout, target, new, dir);
    law_split_leaves(t.layout, target, new, dir);
    let u = split_tree(t.layout, target, new, dir)->0;
    let l = t.layout.leaves();
    let m = u.leaves();
    let k = choose|k: int| inserted_behind(l, m, target, new, k);
    assert(inserted_behind(l, m, target, new, k));
    assert forall|p: u32| #[trigger] m.contains(p) <==> l.contains(p) || p == new by {
        if m.contains(p) {
            let i = choose|i: int| 0 <= i < m.len() && m[i] == p;
            if i <= k {
                assert(l[i] == p);
            } else if i > k + 1 {
                assert(l[i - 1] == p);
            }
        }
        if l.contains(p) {
            let i = choose|i: int| 0 <= i < l.len() && l[i] == p;
            if i <= k {
                assert(m[i] == p);
            } else {
                assert(m[i + 1] == p);
            }
        }
        assert(m[k + 1] == new);
    }
    assert forall|i: int, j: int| 0 <= i < m.len() && 0 <= j < m.len() && i != j implies m[i]
        != m[j] by {
        let x = if i <= k {
            i
        } else {
            i - 1
        };
        let y = if j <= k {
            j
        } else {
            j - 1
        };
        if i != k + 1 && j != k + 1 {
            assert(l[x] != l[y]);
        } else if i == k + 1 {
            assert(l.contains(l[y]));
        } else {
            assert(l.contains(l[x]));
        }
    }
    assert(t.split_off(from, new, dir).layout == u);
}

/// Splitting a pane keeps a session well formed.
pub proof fn law_split_pane_keeps_wf(
    s: SessionView,
    tab_index: u32,
    from: u32,
    dir: SplitDir,
    pane: PaneView,
)
    requires
        s.wf(),
        fits_new_pane(s, pane),
    ensures
        s.pane_split(tab_index, from, dir, pane).wf(),
{
    lemma_new_pane_wf(s, pane);
    let q = SessionView { panes: put_pane(s.panes, pane), ..s };
    let r = s.pane_split(tab_index, from, dir, pane);
    lemma_first_where(s.tabs, is_tab(tab_index));
    if let Some(k) = tab_at(s.tabs, tab_index) {
        let new = pane.pane_index;
        lemma_split_tab(s.tabs[k], from, new, dir);
        let t = s.tabs[k].split_off(from, new, dir);
        assert forall|i: int| 0 <= i < r.tabs.len() implies (#[trigger] r.tabs[i]).wf()
            && r.tabs[i].tab_index == s.tabs[i].tab_index by {
            if i != k {
                assert(r.tabs[i] == s.tabs[i]);
            }
        }
        assert forall|i: int, p: u32| 0 <= i < r.tabs.len() && #[trigger] r.tabs[i].has(
            p,
        ) implies s.tabs[i].has(p) || (i == k && p == new) by {
            if i != k {
                assert(r.tabs[i] == s.tabs[i]);
            } else {
                assert(t.has(p));
            }
        }
        assert forall|i: int, j: int, p: u32| 0 <= i < j < r.tabs.len() implies !(
        #[trigger] r.tabs[i].has(p) && #[trigger] r.tabs[j].has(p)) by {
            if r.tabs[i].has(p) && r.tabs[j].has(p) {
                if p == new {
                    assert(!s.tabs[i].has(new) && !s.tabs[j].has(new));
                } else {
                    assert(s.tabs[i].has(p) && s.tabs[j].has(p));
                }
            }
        }
        assert forall|i: int, p: u32| 0 <= i < r.tabs.len() && #[trigger] r.tabs[i].has(
            p,
        ) implies r.has_pane(p) by {
            if s.tabs[i].has(p) {
                assert(q.tabs[i].has(p));
                assert(q.has_pane(p));
            }
        }
        assert forall|i: int, j: int| 0 <= i < j < r.tabs.len() implies (
        #[trigger] r.tabs[i]).tab_index != (#[trigger] r.tabs[j]).tab_index by {
            assert(s.tabs[i].tab_index != s.tabs[j].tab_index);
        }
        assert forall|i: int| 0 <= i < r.tabs.len() implies (#[trigger] r.tabs[i]).tab_index
            < r.next_tab_index by {
            assert(s.tabs[i].tab_index < s.next_tab_index);
        }
    }
}

// ─── What each operation does to a session ───────────────────────────────────

/// In a well-formed session, a tab is found where it stands.
pub proof fn lemma_tab_found(s: SessionView, i: int)
    requires
        s.wf(),
        0 <= i < s.tabs.len(),
    ensures
        tab_at(s.tabs, s.tabs[i].tab_index) == Some(i),
{
    let index = s.tabs[i].tab_index;
    assert forall|j: int| 0 <= j < i implies !is_tab(index)(#[trigger] s.tabs[j]) by {
        assert(s.tabs[j].tab_index != s.tabs[i].tab_index);
    }
    lemma_first_where_is(s.tabs, is_tab(index), i);
}

/// In a well-formed session, a pane is found where it stands.
pub proof fn lemma_pane_found(s: SessionView, i: int)
    requires
        s.wf(),
        0 <= i < s.panes.len(),
    ensures
        pane_at(s.panes, s.panes[i].pane_index) == Some(i),
{
    let index = s.panes[i].pane_index;
    assert forall|j: int| 0 <= j < i implies !is_pane(index)(#[trigger] s.panes[j]) by {
        assert(s.panes[j].pane_index != s.panes[i].pane_index);
    }
    lemma_first_where_is(s.panes, is_pane(index), i);
}

/// A tab that is moved stands at the position asked for, or at the end where that is further;
/// the other tabs keep their order among themselves, and nothing else of the session changes.
pub proof fn law_moved_tab_stands_where_asked(s: SessionView, i: int, position: u32)
    requires
        s.wf(),
        0 <= i < s.tabs.len(),
    ensures
        ({
            let r = s.reordered(s.tabs[i].tab_index, position);
            let last = s.tabs.len() - 1;
            let at = if position <= last {
                position as int
            } else {
                last
            };
            &&& r.tabs.len() == s.tabs.len()
            &&& r.tabs[at] == s.tabs[i]
            &&& r.tabs.remove(at) == s.tabs.remove(i)
            &&& r == (SessionView { tabs: r.tabs, ..s })
        }),
{
    lemma_tab_found(s, i);
    let r = s.reordered(s.tabs[i].tab_index, position);
    let last = s.tabs.len() - 1;
    let at = if position <= last {
        position as int
    } else {
        last
    };
    assert(r.tabs.remove(at) =~= s.tabs.remove(i));
}

/// Moving a tab that is not there changes nothing.
pub proof fn law_no_tab_no_move(s: SessionView, index: u32, position: u32)
    requires
        forall|i: int| 0 <= i < s.tabs.len() ==> (#[trigger] s.tabs[i]).tab_index != index,
    ensures
        s.reordered(index, position) == s,
        s.tab_closed(index) == s,
{
    lemma_first_where(s.tabs, is_tab(index));
}

/// Changing a tab changes that tab and nothing else of the session.
pub proof fn law_one_tab_changes(s: SessionView, i: int, f: spec_fn(TabView) -> TabView)
    requires
        s.wf(),
        0 <= i < s.tabs.len(),
    ensures
        ({
            let r = s.with_tab(s.tabs[i].tab_index, f);
            &&& r.tabs.len() == s.tabs.len()
            &&& r.tabs[i] == f(s.tabs[i])
            &&& forall|j: int|
                0 <= j < s.tabs.len() && j != i ==> #[trigger] r.tabs[j] == s.tabs[j]
            &&& r == (SessionView { tabs: r.tabs, ..s })
        }),
{
    lemma_tab_found(s, i);
}

/// A renamed tab has the new name, a focused one the focus on a pane that it shows; neither
/// changes anything else of the tab.
pub proof fn law_name_and_focus(t: TabView, name: Seq<char>, pane: u32)
    ensures
        ({
            let n = named(name)(t);
            &&& n.name == name
            &&& n.tab_index == t.tab_index && n.layout == t.layout && n.focused_pane
                == t.focused_pane
        }),
        ({
            let f = focusing(pane)(t);
            &&& t.layout.leaves().contains(pane) ==> f.focused_pane == pane
            &&& !t.layout.leaves().contains(pane) ==> f.focused_pane == t.focused_pane
            &&& f.tab_index == t.tab_index && f.layout == t.layout && f.name == t.name
        }),
{
}

/// Exchanging two panes of a tab: each stands where the other stood, and the others stay. The
/// focus stays on its pane. A pane that the tab does not show is exchanged with none.
pub proof fn law_panes_trade_places(t: TabView, a: u32, b: u32)
    ensures
        ({
            let u = trading(a, b)(t);
            let l = t.layout.leaves();
            let m = u.layout.leaves();
            &&& u == (TabView { layout: u.layout, ..t })
            &&& l.contains(a) && l.contains(b) ==> {
                &&& m.len() == l.len()
                &&& forall|i: int| 0 <= i < l.len() && l[i] == a ==> #[trigger] m[i] == b
                &&& forall|i: int| 0 <= i < l.len() && l[i] == b ==> #[trigger] m[i] == a
                &&& forall|i: int|
                    0 <= i < l.len() && l[i] != a && l[i] != b ==> #[trigger] m[i] == l[i]
            }
            &&& !l.contains(a) || !l.contains(b) ==> u == t
        }),
{
    law_swap_twice(t.layout, a, b);
}

/// An index is handed out once: the next one is one higher. Nothing else changes.
pub proof fn law_indices_go_up(s: SessionView)
    requires
        s.next_pane_index < u32::MAX,
        s.next_tab_index < u32::MAX,
    ensures
        s.pane_reserved().next_pane_index == s.next_pane_index + 1,
        s.pane_reserved() == (SessionView {
            next_pane_index: s.pane_reserved().next_pane_index,
            ..s
        }),
        s.tab_reserved().next_pane_index == s.next_pane_index + 1,
        s.tab_reserved().next_tab_index == s.next_tab_index + 1,
        s.tab_reserved() == (SessionView {
            next_pane_index: s.tab_reserved().next_pane_index,
            next_tab_index: s.tab_reserved().next_tab_index,
            ..s
        }),
{
}

/// A new tab stands behind the others, shows its pane alone and has the focus on it; it is named
/// after its number, counted from one. Everything that was there stays, the active tab too.
pub proof fn law_new_tab_is_last(s: SessionView, tab_index: u32, pane: PaneView)
    requires
        s.wf(),
        fits_new_tab(s, tab_index, pane),
    ensures
        ({
            let r = s.tab_added(tab_index, pane);
            let t = r.tabs.last();
            &&& r.tabs.len() == s.tabs.len() + 1
            &&& r.tabs.drop_last() == s.tabs
            &&& t.tab_index == tab_index
            &&& t.layout == Tree::Leaf(pane.pane_index)
            &&& t.focused_pane == pane.pane_index
            &&& t.name == decimal_text((tab_index + 1) as nat)
            &&& r.panes == s.panes.push(pane)
            &&& r == (SessionView { tabs: r.tabs, panes: r.panes, ..s })
        }),
{
    lemma_push_pane(s.panes, pane);
    assert(s.tab_added(tab_index, pane).tabs.drop_last() =~= s.tabs);
}

/// Closing a tab: the other tabs keep their order, the panes it showed are gone and all others
/// stay as they are. Another tab that is active stays so; where the active one was closed, the
/// first that is left becomes it.
pub proof fn law_closing_a_tab(s: SessionView, i: int)
    requires
        s.wf(),
        0 <= i < s.tabs.len(),
    ensures
        ({
            let r = s.tab_closed(s.tabs[i].tab_index);
            let gone = s.tabs[i].layout.leaves();
            &&& r.tabs == s.tabs.remove(i)
            &&& forall|k: int|
                0 <= k < s.panes.len() ==> (#[trigger] r.panes.contains(s.panes[k]) <==> !gone.contains(
                    s.panes[k].pane_index,
                ))
            &&& forall|k: int| 0 <= k < r.panes.len() ==> s.panes.contains(#[trigger] r.panes[k])
            &&& s.active_tab != s.tabs[i].tab_index ==> r.active_tab == s.active_tab
            &&& s.active_tab == s.tabs[i].tab_index && s.tabs.len() > 1 ==> r.active_tab
                == r.tabs[0].tab_index
            &&& r == (SessionView {
                tabs: r.tabs,
                panes: r.panes,
                active_tab: r.active_tab,
                ..s
            })
        }),
{
    lemma_tab_found(s, i);
    let gone = s.tabs[i].layout.leaves();
    lemma_drop_panes(s.panes, gone);
    let r = s.tab_closed(s.tabs[i].tab_index);
    assert forall|k: int| 0 <= k < s.panes.len() implies (#[trigger] r.panes.contains(s.panes[k])
        <==> !gone.contains(s.panes[k].pane_index)) by {
        let q = s.panes[k].pane_index;
        lemma_pane_found(s, k);
        lemma_first_where(r.panes, is_pane(q));
        if gone.contains(q) {
            assert(pane_at(r.panes, q) is None);
            if r.panes.contains(s.panes[k]) {
                let m = choose|m: int| 0 <= m < r.panes.len() && r.panes[m] == s.panes[k];
                assert(!is_pane(q)(r.panes[m]));
            }
        } else {
            assert(pane_at(r.panes, q) is Some);
            let m = pane_at(r.panes, q)->0;
            assert(s.panes.contains(r.panes[m]));
            let n = choose|n: int| 0 <= n < s.panes.len() && s.panes[n] == r.panes[m];
            if n < k {
                assert(s.panes[n].pane_index != s.panes[k].pane_index);
            } else if k < n {
                assert(s.panes[k].pane_index != s.panes[n].pane_index);
            }
            assert(r.panes[m] == s.panes[k]);
        }
    }
}

/// Splitting a pane of a tab: the new pane is added, stands in the layout right behind the one
/// that it was split off, and takes the focus. The other tabs and panes stay as they are.
pub proof fn law_split_pane_stands_behind(
    s: SessionView,
    i: int,
    from: u32,
    dir: SplitDir,
    pane: PaneView,
)
    requires
        s.wf(),
        fits_new_pane(s, pane),
        0 <= i < s.tabs.len(),
        s.tabs[i].layout.leaves().contains(from),
    ensures
        ({
            let r = s.pane_split(s.tabs[i].tab_index, from, dir, pane);
            &&& r.panes == s.panes.push(pane)
            &&& r.tabs.len() == s.tabs.len()
            &&& exists|k: int|
                inserted_behind(
                    s.tabs[i].layout.leaves(),
                    r.tabs[i].layout.leaves(),
                    from,
                    pane.pane_index,
                    k,
                )
            &&& split_tree(s.tabs[i].layout, from, pane.pane_index, dir) == Some(r.tabs[i].layout)
            &&& r.tabs[i].focused_pane == pane.pane_index
            &&& r.tabs[i].tab_index == s.tabs[i].tab_index
            &&& r.tabs[i].name == s.tabs[i].name
            &&& forall|j: int|
                0 <= j < s.tabs.len() && j != i ==> #[trigger] r.tabs[j] == s.tabs[j]
            &&& r == (SessionView { tabs: r.tabs, panes: r.panes, ..s })
        }),
{
    lemma_tab_found(s, i);
    lemma_push_pane(s.panes, pane);
    law_split_leaves(s.tabs[i].layout, from, pane.pane_index, dir);
}

/// Where the pane to split is gone by now, the one that has the focus is split in its place.
pub proof fn law_split_falls_back_to_the_focus(
    s: SessionView,
    i: int,
    from: u32,
    dir: SplitDir,
    pane: PaneView,
)
    requires
        s.wf(),
        0 <= i < s.tabs.len(),
        !s.tabs[i].layout.leaves().contains(from),
    ensures
        s.pane_split(s.tabs[i].tab_index, from, dir, pane) == s.pane_split(
            s.tabs[i].tab_index,
            s.tabs[i].focused_pane,
            dir,
            pane,
        ),
{
    lemma_tab_found(s, i);
    assert(s.tabs[i].wf());
}

/// Closing one of several panes of a tab: the pane is gone from the session and from the tab, and
/// the rest of the tab is told as it is then. The focus moves only where the closed pane had it.
pub proof fn law_closing_one_of_several_panes(s: SessionView, i: int, pane: u32)
    requires
        s.wf(),
        0 <= i < s.tabs.len(),
        s.tabs[i].layout.leaves().contains(pane),
        s.tabs[i].layout.leaves().len() > 1,
    ensures
        ({
            let (r, outcome) = s.pane_closed(pane);
            let t = s.tabs[i];
            let u = r.tabs[i];
            &&& r.tabs.len() == s.tabs.len()
            &&& forall|j: int|
                0 <= j < s.tabs.len() && j != i ==> #[trigger] r.tabs[j] == s.tabs[j]
            &&& exists|k: int| removed_at(t.layout.leaves(), u.layout.leaves(), pane, k)
            &&& remove_tree(t.layout, pane) == Some(u.layout)
            &&& t.focused_pane != pane ==> u.focused_pane == t.focused_pane
            &&& t.focused_pane == pane ==> focus_tree(t.layout, pane) == Some(u.focused_pane)
            &&& u.tab_index == t.tab_index && u.name == t.name
            &&& outcome == CloseView::TabUpdated(t.tab_index, u.layout, u.focused_pane)
            &&& without_index(s.panes, r.panes, pane)
            &&& r == (SessionView { tabs: r.tabs, panes: r.panes, ..s })
        }),
{
    let t = s.tabs[i];
    lemma_shown_at(s, i, pane);
    lemma_dropped(s, pane);
    assert(t.wf());
    assert(t.layout is Split) by {
        if let Tree::Leaf(q) = t.layout {
            assert(t.layout.leaves() =~= seq![q]);
        }
    }
    law_remove_leaves(t.layout, pane);
    law_focus_survives_removal(t.layout, pane);
}

/// Closing the only pane of a tab closes the tab, and the session where that was its last.
pub proof fn law_closing_the_only_pane(s: SessionView, i: int, pane: u32)
    requires
        s.wf(),
        0 <= i < s.tabs.len(),
        s.tabs[i].layout.leaves().contains(pane),
        s.tabs[i].layout.leaves().len() == 1,
    ensures
        ({
            let (r, outcome) = s.pane_closed(pane);
            &&& r.tabs == s.tabs.remove(i)
            &&& s.tabs.len() == 1 ==> outcome is SessionClosed
            &&& s.tabs.len() > 1 ==> outcome == CloseView::TabClosed(s.tabs[i].tab_index)
            &&& s.active_tab != s.tabs[i].tab_index ==> r.active_tab == s.active_tab
            &&& s.active_tab == s.tabs[i].tab_index && s.tabs.len() > 1 ==> r.active_tab
                == r.tabs[0].tab_index
            &&& without_index(s.panes, r.panes, pane)
            &&& r == (SessionView {
                tabs: r.tabs,
                panes: r.panes,
                active_tab: r.active_tab,
                ..s
            })
        }),
{
    lemma_shown_at(s, i, pane);
    lemma_dropped(s, pane);
}

/// Closing a pane that no tab shows takes away the pane alone; the session ends with its last
/// pane.
pub proof fn law_closing_a_pane_that_no_tab_shows(s: SessionView, pane: u32)
    requires
        s.wf(),
        forall|i: int|
            0 <= i < s.tabs.len() ==> !(#[trigger] s.tabs[i]).layout.leaves().contains(pane),
    ensures
        ({
            let (r, outcome) = s.pane_closed(pane);
            &&& without_index(s.panes, r.panes, pane)
            &&& r == (SessionView { panes: r.panes, ..s })
            &&& outcome is SessionClosed <==> r.panes.len() == 0
            &&& outcome is SessionClosed || outcome is Gone
        }),
{
    lemma_first_where(s.tabs, shows(pane));
    lemma_dropped(s, pane);
}

/// A list of panes without the one of an index: the others are all there, as they were and in
/// their order.
pub open spec fn without_index(before: Seq<PaneView>, after: Seq<PaneView>, index: u32) -> bool {
    if exists|k: int| 0 <= k < before.len() && (#[trigger] before[k]).pane_index == index {
        exists|k: int|
            0 <= k < before.len() && (#[trigger] before[k]).pane_index == index && after
                == before.remove(k)
    } else {
        after == before
    }
}

proof fn lemma_dropped(s: SessionView, pane: u32)
    ensures
        without_index(s.panes, drop_pane(s.panes, pane), pane),
{
    lemma_first_where(s.panes, is_pane(pane));
    if let Some(k) = pane_at(s.panes, pane) {
        assert(s.panes[k].pane_index == pane);
    }
}

proof fn lemma_shown_at(s: SessionView, i: int, pane: u32)
    requires
        s.wf(),
        0 <= i < s.tabs.len(),
        s.tabs[i].has(pane),
    ensures
        tab_showing(s.tabs, pane) == Some(i),
{
    assert forall|j: int| 0 <= j < i implies !shows(pane)(#[trigger] s.tabs[j]) by {
        assert(!(s.tabs[j].has(pane) && s.tabs[i].has(pane)));
    }
    lemma_first_where_is(s.tabs, shows(pane), i);
}

/// What clients are told of a session: its panes, all of them, by their index, its tabs in their
/// order, and which is active.
pub proof fn law_session_entry_is_true(s: SessionView)
    requires
        s.wf(),
    ensures
        ({
            let e = s.entry();
            &&& e.meta == s.meta && e.tabs == s.tabs && e.active_tab == s.active_tab
            &&& e.peer is None
            &&& e.panes.len() == s.panes.len()
            &&& forall|k: int|
                0 <= k < s.panes.len() ==> e.panes.contains(
                    (#[trigger] s.panes[k]).info(s.meta.word_id),
                )
            &&& forall|i: int, j: int|
                0 <= i < j < e.panes.len() ==> (#[trigger] e.panes[i]).pane_index < (
                #[trigger] e.panes[j]).pane_index
        }),
{
    let keys = pane_keys(s.panes);
    let o = stable_order(keys);
    law_stable_order(keys);
    let e = s.entry();
    assert forall|k: int| 0 <= k < s.panes.len() implies e.panes.contains(
        (#[trigger] s.panes[k]).info(s.meta.word_id),
    ) by {
        lemma_order_covers(keys, k);
        let m = choose|m: int| 0 <= m < o.len() && o[m] == k;
        assert(e.panes[m] == s.panes[k].info(s.meta.word_id));
    }
    assert forall|i: int, j: int| 0 <= i < j < e.panes.len() implies (
    #[trigger] e.panes[i]).pane_index < (#[trigger] e.panes[j]).pane_index by {
        assert(precedes(keys, o[i], o[j]));
        let a = o[i];
        let b = o[j];
        if a < b {
            assert(s.panes[a].pane_index != s.panes[b].pane_index);
        } else {
            assert(s.panes[b].pane_index != s.panes[a].pane_index);
        }
    }
}

/// An arranged tab has the layout that it was given, and is otherwise as before.
pub proof fn law_arranged_tab_has_its_layout(t: TabView, layout: Tree)
    ensures
        arranging(layout)(t).layout == layout,
        arranging(layout)(t) == (TabView { layout: arranging(layout)(t).layout, ..t }),
{
}

} // verus!
