//! Restoring saved sessions: after a restart of the daemon, or from the closed sessions.

use super::persistence::CaptureView;
use crate::ansi_emit::{screen_bytes, snapshot_to_ansi};
use crate::backend::TerminalBackend;
use crate::layout::{remove_pane, remove_tree, Tree};
use crate::layout_laws::{
    law_remove_keeps_well_formed, law_remove_leaves, lemma_remove_keeps_sized, removed_at,
};
use crate::list::{
    group_views, is_stable_order, lemma_first_where, positions, precedes, sorted_order,
    stable_order,
};
use crate::pane::{fresh_pane, BufferedDiff, PaneRelay, PaneView};
use crate::persist::{PersistedPane, PersistedSession, PersistedTab, SavedPaneView, SavedView};
use crate::protocol::{ClientCapabilities, TabView};
use crate::session::{
    is_pane, is_tab, pane_at, pane_keys, put_pane, single_tab, tab_at, SessionState, SessionView,
    TabState,
};
use crate::session_laws::{lemma_single_leaf, lemma_well_formed_sized};
use crate::text::{copy_texts, views};
use vstd::prelude::*;
use vstd::string::StringExecFns;

verus! {

/// How a restored pane's screen is seeded from what was saved.
#[derive(Clone, Copy, Debug, PartialEq, Eq, Structural)]
pub enum SeedMode {
    /// A fresh process was started: a separator marks where the old output ends.
    Respawned,
    /// The process survived: its output simply continues.
    Inherited,
}

/// The bytes that show a saved pane's screen and history in its new emulator before anything
/// else does.
pub fn seed_bytes(saved: &PersistedPane, mode: SeedMode) -> (r: Vec<u8>)
    ensures
        r@ == screen_bytes(saved@.grid, saved@.scrollback_lines, mode is Respawned),
{
    snapshot_to_ansi(&saved.grid, &saved.scrollback_lines, mode == SeedMode::Respawned)
}

/// Show a saved pane's screen and history in its new emulator.
pub fn seed_backend<B: TerminalBackend>(backend: &mut B, saved: &PersistedPane, mode: SeedMode)
    requires
        old(backend).wf(),
    ensures
        final(backend).wf(),
        final(backend).size_now() == old(backend).size_now(),
        old(backend).hears(
            screen_bytes(saved@.grid, saved@.scrollback_lines, mode is Respawned),
            &*final(backend),
        ),
{
    let preamble = seed_bytes(saved, mode);
    backend.feed(preamble.as_slice());
}

/// What became of one saved pane.
#[derive(Clone, Copy, Debug, PartialEq, Eq, Structural)]
pub enum PaneOutcome {
    /// It could not be brought back.
    Failed,
    /// It is back. `seeded` is the size of the diff that showed its old screen, if there was one.
    Restored { mode: SeedMode, seeded: Option<usize> },
}

/// Summary of a restore.
#[derive(Clone, Copy, Debug, PartialEq, Eq, Structural)]
pub struct RestoreReport {
    /// Panes brought back.
    pub restored: usize,
    /// Of these, panes whose process survived.
    pub alive: usize,
    /// Of these, panes whose process was started anew.
    pub dead: usize,
}

impl Default for RestoreReport {
    fn default() -> (r: Self)
        ensures
            r == (RestoreReport { restored: 0, alive: 0, dead: 0 }),
    {
        RestoreReport { restored: 0, alive: 0, dead: 0 }
    }
}

// ─── Bringing one pane back ──────────────────────────────────────────────────

/// Where bringing one pane back stands. A process handed over by a previous daemon is adopted
/// where that works; else a fresh one is started.
#[derive(Clone, Copy, Debug, PartialEq, Eq, Structural)]
pub enum RestoreStep {
    /// Adopt the process that was handed over.
    Adopt,
    /// Register the adopted process.
    Register,
    /// Open the adopted process for reading and writing.
    OpenAdopted,
    /// Close the adopted process, which could not be opened.
    CloseAdopted,
    /// Start a fresh process.
    Spawn,
    /// Open the fresh process for reading and writing.
    OpenSpawned,
    Done(SeedMode),
    Failed,
}

/// The step to begin with.
pub fn first_restore_step(handed_over: bool) -> (r: RestoreStep)
    ensures
        r == if handed_over {
            RestoreStep::Adopt
        } else {
            RestoreStep::Spawn
        },
{
    if handed_over {
        RestoreStep::Adopt
    } else {
        RestoreStep::Spawn
    }
}

/// The step after one that went well or not.
pub open spec fn step_after(step: RestoreStep, ok: bool) -> RestoreStep {
    match step {
        RestoreStep::Adopt => if ok {
            RestoreStep::Register
        } else {
            RestoreStep::Spawn
        },
        RestoreStep::Register => if ok {
            RestoreStep::OpenAdopted
        } else {
            RestoreStep::Spawn
        },
        RestoreStep::OpenAdopted => if ok {
            RestoreStep::Done(SeedMode::Inherited)
        } else {
            RestoreStep::CloseAdopted
        },
        RestoreStep::CloseAdopted => RestoreStep::Spawn,
        RestoreStep::Spawn => if ok {
            RestoreStep::OpenSpawned
        } else {
            RestoreStep::Failed
        },
        RestoreStep::OpenSpawned => if ok {
            RestoreStep::Done(SeedMode::Respawned)
        } else {
            RestoreStep::Failed
        },
        RestoreStep::Done(_) => step,
        RestoreStep::Failed => step,
    }
}

/// The step after one that went well or not.
pub fn next_restore_step(step: RestoreStep, ok: bool) -> (r: RestoreStep)
    ensures
        r == step_after(step, ok),
{
    match step {
        RestoreStep::Adopt => if ok {
            RestoreStep::Register
        } else {
            RestoreStep::Spawn
        },
        RestoreStep::Register => if ok {
            RestoreStep::OpenAdopted
        } else {
            RestoreStep::Spawn
        },
        RestoreStep::OpenAdopted => if ok {
            RestoreStep::Done(SeedMode::Inherited)
        } else {
            RestoreStep::CloseAdopted
        },
        RestoreStep::CloseAdopted => RestoreStep::Spawn,
        RestoreStep::Spawn => if ok {
            RestoreStep::OpenSpawned
        } else {
            RestoreStep::Failed
        },
        RestoreStep::OpenSpawned => if ok {
            RestoreStep::Done(SeedMode::Respawned)
        } else {
            RestoreStep::Failed
        },
        RestoreStep::Done(_) => step,
        RestoreStep::Failed => step,
    }
}

/// A pane is lost only if a fresh process could not be started or opened: whatever goes wrong
/// with one that was handed over, starting afresh is still tried.
pub proof fn law_handover_failures_fall_back(step: RestoreStep, ok: bool)
    ensures
        step_after(step, ok) is Failed ==> step is Failed || ((step is Spawn || step is OpenSpawned)
            && !ok),
        step_after(step, ok) == RestoreStep::Done(SeedMode::Inherited) ==> step
            == RestoreStep::Done(SeedMode::Inherited) || (step is OpenAdopted && ok),
{
}

/// A pane that was brought back: as freshly spawned, with its old screen as its first diff.
pub open spec fn restored_pane(word: Seq<char>, p: SavedPaneView, seeded: Option<usize>)
    -> PaneView {
    let fresh = fresh_pane(
        word,
        p.pane_index,
        p.program,
        p.args,
        p.size.term_size(),
        ClientCapabilities { kitty_graphics: false, kitty_keyboard: false, truecolor: false },
    );
    match seeded {
        Some(bytes) => PaneView {
            scrollback: seq![BufferedDiff { seqno: 1, bytes }],
            next_seqno: 2,
            ..fresh
        },
        None => fresh,
    }
}

impl PaneRelay {
    /// The state of a pane that was brought back.
    pub fn restored(word_id: &str, saved: &PersistedPane, seeded: Option<usize>) -> (r: PaneRelay)
        ensures
            r@ == restored_pane(word_id@, saved@, seeded),
    {
        let caps = ClientCapabilities {
            kitty_graphics: false,
            kitty_keyboard: false,
            truecolor: false,
        };
        let mut pane = PaneRelay::new(
            word_id,
            saved.pane_index,
            saved.program.clone(),
            copy_texts(&saved.args),
            saved.size.to_term_size(),
            &caps,
        );
        if let Some(bytes) = seeded {
            pane.scrollback = vec![BufferedDiff { seqno: 1, bytes }];
            pane.next_seqno = 2;
            assert(pane.scrollback@ =~= seq![BufferedDiff { seqno: 1, bytes }]);
        }
        pane
    }
}

// ─── Bringing one session back ───────────────────────────────────────────────

/// The panes of a session that were brought back.
pub open spec fn restored_panes(
    word: Seq<char>,
    panes: Seq<SavedPaneView>,
    outcomes: Seq<PaneOutcome>,
) -> Seq<PaneView>
    decreases panes.len(),
{
    if panes.len() == 0 {
        Seq::empty()
    } else {
        let rest = restored_panes(word, panes.drop_last(), outcomes);
        match outcomes[panes.len() - 1] {
            PaneOutcome::Failed => rest,
            PaneOutcome::Restored { mode: _, seeded } => put_pane(
                rest,
                restored_pane(word, panes.last(), seeded),
            ),
        }
    }
}

/// Those of the panes `ps` that were brought back (`want`), or those that were not.
pub open spec fn present(ps: Seq<u32>, panes: Seq<PaneView>, want: bool) -> Seq<u32>
    decreases ps.len(),
{
    if ps.len() == 0 {
        Seq::empty()
    } else {
        let rest = present(ps.drop_last(), panes, want);
        if (pane_at(panes, ps.last()) is Some) == want {
            rest.push(ps.last())
        } else {
            rest
        }
    }
}

/// A layout without several panes. The last pane of a layout is never taken out.
pub open spec fn without_leaves(t: Tree, gone: Seq<u32>) -> Tree
    decreases gone.len(),
{
    if gone.len() == 0 {
        t
    } else {
        let u = without_leaves(t, gone.drop_last());
        match remove_tree(u, gone.last()) {
            Some(v) => v,
            None => u,
        }
    }
}

/// A saved tab reconciled with the panes that were brought back: it loses the others, and goes
/// altogether where none is left. The focus stays where it was, if it can.
pub open spec fn restored_tab(t: TabView, panes: Seq<PaneView>) -> Option<TabView> {
    let layout = without_leaves(t.layout, present(t.layout.leaves(), panes, false));
    let live = present(layout.leaves(), panes, true);
    if live.len() == 0 {
        None
    } else {
        Some(
            TabView {
                layout,
                focused_pane: if pane_at(panes, t.focused_pane) is Some {
                    t.focused_pane
                } else {
                    live[0]
                },
                ..t
            },
        )
    }
}

pub open spec fn restored_tabs(tabs: Seq<TabView>, panes: Seq<PaneView>) -> Seq<TabView>
    decreases tabs.len(),
{
    if tabs.len() == 0 {
        Seq::empty()
    } else {
        let rest = restored_tabs(tabs.drop_last(), panes);
        match restored_tab(tabs.last(), panes) {
            Some(t) => rest.push(t),
            None => rest,
        }
    }
}

/// Each pane in a tab of its own, by pane index.
pub open spec fn single_tabs(panes: Seq<PaneView>) -> Seq<TabView> {
    let o = stable_order(pane_keys(panes));
    Seq::new(panes.len(), |i: int| single_tab(i as u32, panes[o[i]].pane_index))
}

/// The tabs of a restored session: the saved ones as far as they can be brought back, else one
/// for each pane.
pub open spec fn final_tabs(tabs: Seq<TabView>, panes: Seq<PaneView>) -> Seq<TabView> {
    let kept = restored_tabs(tabs, panes);
    if kept.len() == 0 {
        single_tabs(panes)
    } else {
        kept
    }
}

/// The smallest number that is at least `n` and above every tab's index.
pub open spec fn index_above(tabs: Seq<TabView>, n: u32) -> u32
    decreases tabs.len(),
{
    if tabs.len() == 0 {
        n
    } else {
        let m = index_above(tabs.drop_last(), n);
        if tabs.last().tab_index + 1 > m {
            (tabs.last().tab_index + 1) as u32
        } else {
            m
        }
    }
}

/// A session brought back, unless none of its panes was.
pub open spec fn restored_session(saved: SavedView, outcomes: Seq<PaneOutcome>) -> Option<
    SessionView,
> {
    let panes = restored_panes(saved.meta.word_id, saved.panes, outcomes);
    if panes.len() == 0 {
        None
    } else {
        let tabs = final_tabs(saved.tabs, panes);
        Some(
            SessionView {
                meta: saved.meta,
                panes,
                next_pane_index: saved.next_pane_index,
                tabs,
                next_tab_index: index_above(tabs, saved.next_tab_index),
                active_tab: if tab_at(tabs, saved.active_tab) is Some {
                    saved.active_tab
                } else {
                    tabs[0].tab_index
                },
                last_active_ms: saved.last_active_ms,
            },
        )
    }
}

// ─── Proofs about one session ────────────────────────────────────────────────

/// Different indices below `n` are at most `n`.
pub proof fn lemma_pigeonhole(indices: Seq<u32>, n: u32)
    requires
        indices.no_duplicates(),
        forall|i: int| 0 <= i < indices.len() ==> #[trigger] indices[i] < n,
    ensures
        indices.len() <= n,
{
    let s = Seq::new(indices.len(), |i: int| indices[i] as int);
    assert(s.no_duplicates()) by {
        assert forall|i: int, j: int| 0 <= i < s.len() && 0 <= j < s.len() && i != j implies s[i]
            != s[j] by {
            assert(indices[i] != indices[j]);
        }
    }
    s.unique_seq_to_set();
    let all = vstd::set_lib::set_int_range(0, n as int);
    vstd::set_lib::lemma_int_range(0, n as int);
    assert forall|x: int| s.to_set().contains(x) implies all.contains(x) by {
        let i = choose|i: int| 0 <= i < s.len() && s[i] == x;
        assert(indices[i] < n);
    }
    vstd::set_lib::lemma_len_subset(s.to_set(), all);
}

/// The panes brought back have different indices, all of them saved ones.
proof fn lemma_restored_panes(
    word: Seq<char>,
    panes: Seq<SavedPaneView>,
    outcomes: Seq<PaneOutcome>,
    next: u32,
)
    requires
        forall|i: int, j: int|
            0 <= i < j < panes.len() ==> (#[trigger] panes[i]).pane_index != (
            #[trigger] panes[j]).pane_index,
        forall|i: int| 0 <= i < panes.len() ==> (#[trigger] panes[i]).pane_index < next,
    ensures
        ({
            let r = restored_panes(word, panes, outcomes);
            &&& forall|i: int, j: int|
                0 <= i < j < r.len() ==> (#[trigger] r[i]).pane_index != (
                #[trigger] r[j]).pane_index
            &&& forall|i: int|
                0 <= i < r.len() ==> (#[trigger] r[i]).pane_index < next && r[i].clients.len() == 0
            &&& forall|i: int|
                0 <= i < r.len() ==> exists|k: int|
                    0 <= k < panes.len() && (#[trigger] panes[k]).pane_index == (
                    #[trigger] r[i]).pane_index
            &&& r.len() <= panes.len()
        }),
    decreases panes.len(),
{
    let r = restored_panes(word, panes, outcomes);
    if panes.len() > 0 {
        let init = panes.drop_last();
        let last = panes.last();
        assert forall|i: int, j: int| 0 <= i < j < init.len() implies (
        #[trigger] init[i]).pane_index != (#[trigger] init[j]).pane_index by {
            assert(panes[i].pane_index != panes[j].pane_index);
        }
        assert forall|i: int| 0 <= i < init.len() implies (#[trigger] init[i]).pane_index < next by {
            assert(panes[i].pane_index < next);
        }
        lemma_restored_panes(word, init, outcomes, next);
        let q = restored_panes(word, init, outcomes);
        assert forall|i: int| 0 <= i < q.len() implies (#[trigger] q[i]).pane_index
            != last.pane_index by {
            let k = choose|k: int|
                0 <= k < init.len() && (#[trigger] init[k]).pane_index == q[i].pane_index;
            assert(panes[k].pane_index != panes[panes.len() - 1].pane_index);
        }
        lemma_first_where(q, is_pane(last.pane_index));
        assert(pane_at(q, last.pane_index) is None);
        assert forall|i: int| 0 <= i < r.len() implies exists|k: int|
            0 <= k < panes.len() && (#[trigger] panes[k]).pane_index == (
            #[trigger] r[i]).pane_index by {
            if i < q.len() {
                assert(r[i] == q[i]);
                let k = choose|k: int|
                    0 <= k < init.len() && (#[trigger] init[k]).pane_index == q[i].pane_index;
                assert(panes[k].pane_index == r[i].pane_index);
            } else {
                assert(panes[panes.len() - 1].pane_index == r[i].pane_index);
            }
        }
    }
}

/// Filtering keeps exactly the panes that are wanted.
pub proof fn lemma_present(ps: Seq<u32>, panes: Seq<PaneView>, want: bool)
    ensures
        forall|p: u32|
            #[trigger] present(ps, panes, want).contains(p) <==> ps.contains(p) && (pane_at(
                panes,
                p,
            ) is Some) == want,
    decreases ps.len(),
{
    let r = present(ps, panes, want);
    if ps.len() > 0 {
        let init = ps.drop_last();
        lemma_present(init, panes, want);
        let q = present(init, panes, want);
        assert forall|p: u32| #[trigger] r.contains(p) <==> ps.contains(p) && (pane_at(
            panes,
            p,
        ) is Some) == want by {
            if r.contains(p) {
                let k = choose|k: int| 0 <= k < r.len() && r[k] == p;
                if k < q.len() {
                    assert(q[k] == p);
                    let m = choose|m: int| 0 <= m < init.len() && init[m] == p;
                    assert(ps[m] == p);
                } else {
                    assert(ps[ps.len() - 1] == p);
                }
            }
            if ps.contains(p) && (pane_at(panes, p) is Some) == want {
                let m = choose|m: int| 0 <= m < ps.len() && ps[m] == p;
                if m < init.len() {
                    assert(init[m] == p);
                    assert(q.contains(p));
                    let k = choose|k: int| 0 <= k < q.len() && q[k] == p;
                    assert(r[k] == p);
                } else {
                    assert(r[r.len() - 1] == p);
                }
            }
        }
    }
}

/// Taking panes out of a layout keeps it well formed and keeps all other panes. Where another
/// pane is left, the panes taken out are gone.
pub proof fn lemma_without_leaves(t: Tree, gone: Seq<u32>)
    requires
        t.well_formed(),
        t.leaves().no_duplicates(),
    ensures
        ({
            let u = without_leaves(t, gone);
            &&& u.well_formed()
            &&& u.leaves().no_duplicates()
            &&& forall|p: u32| #[trigger] u.leaves().contains(p) ==> t.leaves().contains(p)
            &&& forall|p: u32|
                t.leaves().contains(p) && !gone.contains(p) ==> #[trigger] u.leaves().contains(p)
            &&& (exists|p: u32| t.leaves().contains(p) && !gone.contains(p)) ==> forall|m: u32|
                gone.contains(m) ==> !#[trigger] u.leaves().contains(m)
        }),
    decreases gone.len(),
{
    let u = without_leaves(t, gone);
    if gone.len() > 0 {
        let init = gone.drop_last();
        let m = gone.last();
        lemma_without_leaves(t, init);
        let v = without_leaves(t, init);
        law_remove_leaves(v, m);
        law_remove_keeps_well_formed(v, m);
        assert forall|p: u32| gone.contains(p) <==> init.contains(p) || p == m by {
            if gone.contains(p) {
                let k = choose|k: int| 0 <= k < gone.len() && gone[k] == p;
                if k < init.len() {
                    assert(init[k] == p);
                }
            }
            if init.contains(p) {
                let k = choose|k: int| 0 <= k < init.len() && init[k] == p;
                assert(gone[k] == p);
            }
            assert(gone[gone.len() - 1] == m);
        }
        let l = v.leaves();
        if let Some(w) = remove_tree(v, m) {
            let r = w.leaves();
            let k = choose|k: int| removed_at(l, r, m, k);
            assert(removed_at(l, r, m, k));
            assert forall|p: u32| #[trigger] r.contains(p) <==> l.contains(p) && p != m by {
                if r.contains(p) {
                    let i = choose|i: int| 0 <= i < r.len() && r[i] == p;
                    let j = if i < k {
                        i
                    } else {
                        i + 1
                    };
                    assert(l[j] == p);
                    assert(l[j] != l[k]);
                }
                if l.contains(p) && p != m {
                    let j = choose|j: int| 0 <= j < l.len() && l[j] == p;
                    if j < k {
                        assert(r[j] == p);
                    } else {
                        assert(r[j - 1] == p);
                    }
                }
            }
            assert forall|i: int, j: int| 0 <= i < r.len() && 0 <= j < r.len() && i != j implies r[i]
                != r[j] by {
                let x = if i < k {
                    i
                } else {
                    i + 1
                };
                let y = if j < k {
                    j
                } else {
                    j + 1
                };
                assert(l[x] != l[y]);
            }
        }
        assert forall|p: u32| t.leaves().contains(p) && !gone.contains(p) implies
            #[trigger] u.leaves().contains(p) by {
            assert(v.leaves().contains(p));
        }
        if exists|p: u32| t.leaves().contains(p) && !gone.contains(p) {
            let p = choose|p: u32| t.leaves().contains(p) && !gone.contains(p);
            assert(!init.contains(p));
            assert(v.leaves().contains(p));
            assert forall|x: u32| gone.contains(x) implies !#[trigger] u.leaves().contains(x) by {
                if x == m && v.leaves().contains(m) {
                    if let Tree::Leaf(q) = v {
                        lemma_single_leaf(q, p);
                        lemma_single_leaf(q, m);
                    }
                    assert(remove_tree(v, m) is Some);
                } else if u.leaves().contains(x) {
                    assert(v.leaves().contains(x));
                }
            }
        }
    }
}

/// A reconciled tab is well formed and shows only panes that are back; no pane that is back and
/// was shown is lost.
pub proof fn lemma_restored_tab(t: TabView, panes: Seq<PaneView>)
    requires
        t.wf(),
    ensures
        restored_tab(t, panes) matches Some(u) ==> {
            &&& u.wf()
            &&& u.tab_index == t.tab_index
            &&& forall|p: u32|
                #[trigger] u.has(p) <==> t.has(p) && pane_at(panes, p) is Some
        },
        restored_tab(t, panes) is None ==> forall|p: u32|
            #[trigger] t.has(p) ==> pane_at(panes, p) is None,
{
    let l = t.layout.leaves();
    let gone = present(l, panes, false);
    let layout = without_leaves(t.layout, gone);
    let m = layout.leaves();
    let live = present(m, panes, true);
    lemma_present(l, panes, false);
    lemma_present(m, panes, true);
    lemma_without_leaves(t.layout, gone);
    if live.len() > 0 {
        assert(live.contains(live[0]));
        assert(m.contains(live[0]));
        let p0 = live[0];
        assert(l.contains(p0) && !gone.contains(p0));
        let u = restored_tab(t, panes)->0;
        assert forall|p: u32| #[trigger] u.has(p) <==> t.has(p) && pane_at(panes, p) is Some by {
            if m.contains(p) {
                assert(l.contains(p));
                if pane_at(panes, p) is None {
                    assert(gone.contains(p));
                }
            }
            if t.has(p) && pane_at(panes, p) is Some {
                assert(!gone.contains(p));
                assert(m.contains(p));
            }
        }
        assert(u.has(u.focused_pane));
    } else {
        assert forall|p: u32| #[trigger] t.has(p) implies pane_at(panes, p) is None by {
            if pane_at(panes, p) is Some {
                assert(!gone.contains(p));
                assert(m.contains(p));
                assert(live.contains(p));
            }
        }
    }
}

proof fn lemma_restored_tabs(tabs: Seq<TabView>, panes: Seq<PaneView>)
    requires
        forall|i: int| 0 <= i < tabs.len() ==> (#[trigger] tabs[i]).wf(),
        forall|i: int, j: int|
            0 <= i < j < tabs.len() ==> (#[trigger] tabs[i]).tab_index != (
            #[trigger] tabs[j]).tab_index,
        forall|i: int, j: int, p: u32|
            0 <= i < j < tabs.len() ==> !(#[trigger] tabs[i].has(p) && #[trigger] tabs[j].has(p)),
    ensures
        ({
            let r = restored_tabs(tabs, panes);
            &&& forall|i: int| 0 <= i < r.len() ==> (#[trigger] r[i]).wf()
            &&& forall|i: int, j: int|
                0 <= i < j < r.len() ==> (#[trigger] r[i]).tab_index != (#[trigger] r[j]).tab_index
            &&& forall|i: int, j: int, p: u32|
                0 <= i < j < r.len() ==> !(#[trigger] r[i].has(p) && #[trigger] r[j].has(p))
            &&& forall|i: int, p: u32|
                0 <= i < r.len() && #[trigger] r[i].has(p) ==> pane_at(panes, p) is Some
            &&& forall|i: int| #![trigger r[i]] 0 <= i < r.len() ==> comes_from(r[i], tabs)
        }),
    decreases tabs.len(),
{
    let r = restored_tabs(tabs, panes);
    if tabs.len() > 0 {
        let init = tabs.drop_last();
        let last = tabs.last();
        let n = tabs.len() - 1;
        assert forall|i: int| 0 <= i < init.len() implies (#[trigger] init[i]).wf() by {
            assert(tabs[i].wf());
        }
        assert forall|i: int, j: int| 0 <= i < j < init.len() implies (
        #[trigger] init[i]).tab_index != (#[trigger] init[j]).tab_index by {
            assert(tabs[i].tab_index != tabs[j].tab_index);
        }
        assert forall|i: int, j: int, p: u32| 0 <= i < j < init.len() implies !(
        #[trigger] init[i].has(p) && #[trigger] init[j].has(p)) by {
            assert(!(tabs[i].has(p) && tabs[j].has(p)));
        }
        lemma_restored_tabs(init, panes);
        assert(tabs[n].wf());
        lemma_restored_tab(last, panes);
        let q = restored_tabs(init, panes);
        assert forall|i: int| #![trigger q[i]] 0 <= i < q.len() implies comes_from(q[i], tabs) by {
            assert(comes_from(q[i], init));
            let k = choose|k: int| is_part_of(q[i], init, k);
            assert(is_part_of(q[i], tabs, k));
        }
        if let Some(t) = restored_tab(last, panes) {
            assert(is_part_of(t, tabs, n));
            assert forall|i: int, j: int| 0 <= i < j < r.len() implies (#[trigger] r[i]).tab_index
                != (#[trigger] r[j]).tab_index by {
                if j == q.len() {
                    assert(comes_from(q[i], init));
                    let k = choose|k: int| is_part_of(q[i], init, k);
                    assert(tabs[k].tab_index != tabs[n].tab_index);
                }
            }
            assert forall|i: int, j: int, p: u32| 0 <= i < j < r.len() implies !(
            #[trigger] r[i].has(p) && #[trigger] r[j].has(p)) by {
                if j == q.len() && r[i].has(p) && r[j].has(p) {
                    assert(comes_from(q[i], init));
                    let k = choose|k: int| is_part_of(q[i], init, k);
                    assert(init[k].has(p));
                    assert(tabs[k].has(p) && tabs[n].has(p));
                }
            }
            assert forall|i: int| #![trigger r[i]] 0 <= i < r.len() implies comes_from(r[i], tabs) by {
                if i < q.len() {
                    assert(r[i] == q[i]);
                }
            }
        }
    }
}

/// A tab is what is left of the one at position `k`.
pub open spec fn is_part_of(t: TabView, tabs: Seq<TabView>, k: int) -> bool {
    &&& 0 <= k < tabs.len()
    &&& t.tab_index == tabs[k].tab_index
    &&& forall|p: u32| #[trigger] t.has(p) ==> tabs[k].has(p)
}

/// A tab is what is left of one of `tabs`.
pub open spec fn comes_from(t: TabView, tabs: Seq<TabView>) -> bool {
    exists|k: int| is_part_of(t, tabs, k)
}

proof fn lemma_index_above(tabs: Seq<TabView>, n: u32)
    requires
        forall|i: int| 0 <= i < tabs.len() ==> (#[trigger] tabs[i]).tab_index < u32::MAX,
    ensures
        index_above(tabs, n) >= n,
        forall|i: int|
            0 <= i < tabs.len() ==> (#[trigger] tabs[i]).tab_index < index_above(tabs, n),
    decreases tabs.len(),
{
    if tabs.len() > 0 {
        let init = tabs.drop_last();
        assert forall|i: int| 0 <= i < init.len() implies (#[trigger] init[i]).tab_index
            < u32::MAX by {
            assert(tabs[i].tab_index < u32::MAX);
        }
        lemma_index_above(init, n);
        assert(tabs[tabs.len() - 1].tab_index < u32::MAX);
        assert forall|i: int| 0 <= i < tabs.len() implies (#[trigger] tabs[i]).tab_index
            < index_above(tabs, n) by {
            if i < init.len() {
                assert(init[i].tab_index < index_above(init, n));
            }
        }
    }
}

/// No restored tab has the last index there is.
proof fn lemma_final_tabs_low(tabs: Seq<TabView>, panes: Seq<PaneView>)
    requires
        forall|i: int| 0 <= i < tabs.len() ==> (#[trigger] tabs[i]).tab_index < u32::MAX,
        panes.len() <= u32::MAX,
    ensures
        forall|i: int|
            0 <= i < final_tabs(tabs, panes).len() ==> (
            #[trigger] final_tabs(tabs, panes)[i]).tab_index < u32::MAX,
        panes.len() > 0 ==> final_tabs(tabs, panes).len() > 0,
{
    lemma_restored_tabs_low(tabs, panes);
}

proof fn lemma_restored_tabs_low(tabs: Seq<TabView>, panes: Seq<PaneView>)
    requires
        forall|i: int| 0 <= i < tabs.len() ==> (#[trigger] tabs[i]).tab_index < u32::MAX,
    ensures
        forall|i: int|
            0 <= i < restored_tabs(tabs, panes).len() ==> (
            #[trigger] restored_tabs(tabs, panes)[i]).tab_index < u32::MAX,
    decreases tabs.len(),
{
    if tabs.len() > 0 {
        let init = tabs.drop_last();
        assert forall|i: int| 0 <= i < init.len() implies (#[trigger] init[i]).tab_index
            < u32::MAX by {
            assert(tabs[i].tab_index < u32::MAX);
        }
        lemma_restored_tabs_low(init, panes);
        assert(tabs[tabs.len() - 1].tab_index < u32::MAX);
    }
}

proof fn lemma_single_tabs(panes: Seq<PaneView>, next: u32)
    requires
        panes.len() > 0,
        forall|i: int, j: int|
            0 <= i < j < panes.len() ==> (#[trigger] panes[i]).pane_index != (
            #[trigger] panes[j]).pane_index,
        forall|i: int| 0 <= i < panes.len() ==> (#[trigger] panes[i]).pane_index < next,
    ensures
        ({
            let r = single_tabs(panes);
            &&& panes.len() <= next
            &&& r.len() == panes.len()
            &&& forall|i: int| 0 <= i < r.len() ==> (#[trigger] r[i]).wf() && r[i].tab_index == i
            &&& forall|i: int, j: int, p: u32|
                0 <= i < j < r.len() ==> !(#[trigger] r[i].has(p) && #[trigger] r[j].has(p))
            &&& forall|i: int, p: u32|
                0 <= i < r.len() && #[trigger] r[i].has(p) ==> pane_at(panes, p) is Some
        }),
{
    let indices = Seq::new(panes.len(), |i: int| panes[i].pane_index);
    assert(indices.no_duplicates()) by {
        assert forall|i: int, j: int| 0 <= i < indices.len() && 0 <= j < indices.len() && i != j
            implies indices[i] != indices[j] by {
            if i < j {
                assert(panes[i].pane_index != panes[j].pane_index);
            } else {
                assert(panes[j].pane_index != panes[i].pane_index);
            }
        }
    }
    assert forall|i: int| 0 <= i < indices.len() implies #[trigger] indices[i] < next by {
        assert(panes[i].pane_index < next);
    }
    lemma_pigeonhole(indices, next);
    let keys = pane_keys(panes);
    let o = stable_order(keys);
    crate::list::law_stable_order(keys);
    let r = single_tabs(panes);
    assert forall|i: int| 0 <= i < r.len() implies (#[trigger] r[i]).wf() && r[i].tab_index
        == i by {
        lemma_single_leaf(panes[o[i]].pane_index, panes[o[i]].pane_index);
    }
    assert forall|i: int, j: int, p: u32| 0 <= i < j < r.len() implies !(#[trigger] r[i].has(p)
        && #[trigger] r[j].has(p)) by {
        lemma_single_leaf(panes[o[i]].pane_index, p);
        lemma_single_leaf(panes[o[j]].pane_index, p);
        assert(precedes(keys, o[i], o[j]));
        let a = o[i];
        let b = o[j];
        if a < b {
            assert(panes[a].pane_index != panes[b].pane_index);
        } else {
            assert(panes[b].pane_index != panes[a].pane_index);
        }
    }
    assert forall|i: int, p: u32| 0 <= i < r.len() && #[trigger] r[i].has(p) implies pane_at(
        panes,
        p,
    ) is Some by {
        lemma_single_leaf(panes[o[i]].pane_index, p);
        lemma_first_where(panes, is_pane(p));
        assert(is_pane(p)(panes[o[i]]));
    }
}

/// A well-formed saved session comes back well formed, whichever of its panes come back.
pub proof fn law_restored_session_wf(saved: SavedView, outcomes: Seq<PaneOutcome>)
    requires
        saved.wf(),
    ensures
        restored_session(saved, outcomes) matches Some(s) ==> s.wf() && s.tabs.len() > 0
            && s.meta == saved.meta,
{
    let panes = restored_panes(saved.meta.word_id, saved.panes, outcomes);
    lemma_restored_panes(saved.meta.word_id, saved.panes, outcomes, saved.next_pane_index);
    if panes.len() > 0 {
        lemma_restored_tabs(saved.tabs, panes);
        lemma_single_tabs(panes, saved.next_pane_index);
        let tabs = final_tabs(saved.tabs, panes);
        let kept = restored_tabs(saved.tabs, panes);
        assert forall|i: int| 0 <= i < tabs.len() implies (#[trigger] tabs[i]).tab_index
            < u32::MAX by {
            if kept.len() > 0 {
                assert(comes_from(kept[i], saved.tabs));
                let k = choose|k: int| is_part_of(kept[i], saved.tabs, k);
                assert(saved.tabs[k].tab_index < saved.next_tab_index);
            }
        }
        lemma_index_above(tabs, saved.next_tab_index);
        let s = restored_session(saved, outcomes)->0;
        assert forall|i: int, p: u32| 0 <= i < s.tabs.len() && #[trigger] s.tabs[i].has(
            p,
        ) implies s.has_pane(p) by {}
    }
}

/// Nothing is missing where every pane is back.
pub proof fn lemma_nothing_missing(ps: Seq<u32>, panes: Seq<PaneView>)
    requires
        forall|i: int| 0 <= i < ps.len() ==> pane_at(panes, #[trigger] ps[i]) is Some,
    ensures
        present(ps, panes, false) == Seq::<u32>::empty(),
        present(ps, panes, true) == ps,
    decreases ps.len(),
{
    if ps.len() > 0 {
        let init = ps.drop_last();
        assert forall|i: int| 0 <= i < init.len() implies pane_at(
            panes,
            #[trigger] init[i],
        ) is Some by {
            assert(pane_at(panes, ps[i]) is Some);
        }
        lemma_nothing_missing(init, panes);
        assert(pane_at(panes, ps[ps.len() - 1]) is Some);
        assert(init.push(ps.last()) =~= ps);
    }
}

proof fn lemma_tabs_unchanged(tabs: Seq<TabView>, panes: Seq<PaneView>)
    requires
        forall|i: int| 0 <= i < tabs.len() ==> (#[trigger] tabs[i]).wf(),
        forall|i: int, p: u32|
            0 <= i < tabs.len() && #[trigger] tabs[i].has(p) ==> pane_at(panes, p) is Some,
    ensures
        restored_tabs(tabs, panes) == tabs,
    decreases tabs.len(),
{
    if tabs.len() > 0 {
        let init = tabs.drop_last();
        let last = tabs.last();
        let n = tabs.len() - 1;
        assert forall|i: int| 0 <= i < init.len() implies (#[trigger] init[i]).wf() by {
            assert(tabs[i].wf());
        }
        assert forall|i: int, p: u32| 0 <= i < init.len() && #[trigger] init[i].has(
            p,
        ) implies pane_at(panes, p) is Some by {
            assert(tabs[i].has(p));
        }
        lemma_tabs_unchanged(init, panes);
        assert(tabs[n].wf());
        let l = last.layout.leaves();
        assert forall|i: int| 0 <= i < l.len() implies pane_at(panes, #[trigger] l[i]) is Some by {
            assert(l.contains(l[i]));
            assert(tabs[n].has(l[i]));
        }
        lemma_nothing_missing(l, panes);
        assert(tabs[n].has(last.focused_pane));
        assert(l.len() > 0);
        assert(without_leaves(last.layout, Seq::<u32>::empty()) == last.layout);
        assert(init.push(last) =~= tabs);
    }
}

proof fn lemma_index_above_all(tabs: Seq<TabView>, n: u32)
    requires
        forall|i: int| 0 <= i < tabs.len() ==> (#[trigger] tabs[i]).tab_index < n,
    ensures
        index_above(tabs, n) == n,
    decreases tabs.len(),
{
    if tabs.len() > 0 {
        let init = tabs.drop_last();
        assert forall|i: int| 0 <= i < init.len() implies (#[trigger] init[i]).tab_index < n by {
            assert(tabs[i].tab_index < n);
        }
        lemma_index_above_all(init, n);
        assert(tabs[tabs.len() - 1].tab_index < n);
    }
}

/// Every pane with a successful outcome is back.
proof fn lemma_all_back(word: Seq<char>, panes: Seq<SavedPaneView>, outcomes: Seq<PaneOutcome>)
    requires
        forall|i: int| 0 <= i < panes.len() ==> !(#[trigger] outcomes[i] is Failed),
    ensures
        forall|i: int|
            0 <= i < panes.len() ==> pane_at(
                restored_panes(word, panes, outcomes),
                (#[trigger] panes[i]).pane_index,
            ) is Some,
    decreases panes.len(),
{
    if panes.len() > 0 {
        let init = panes.drop_last();
        let last = panes.last();
        lemma_all_back(word, init, outcomes);
        let q = restored_panes(word, init, outcomes);
        let r = restored_panes(word, panes, outcomes);
        assert(!(outcomes[panes.len() - 1] is Failed));
        assert forall|i: int| 0 <= i < panes.len() implies pane_at(
            r,
            (#[trigger] panes[i]).pane_index,
        ) is Some by {
            let x = panes[i].pane_index;
            lemma_first_where(q, is_pane(x));
            lemma_first_where(r, is_pane(x));
            lemma_first_where(q, is_pane(last.pane_index));
            if i < init.len() {
                assert(pane_at(q, init[i].pane_index) is Some);
                let k = pane_at(q, x)->0;
                assert(is_pane(x)(r[k]));
            } else {
                match pane_at(q, last.pane_index) {
                    Some(k) => {
                        assert(is_pane(x)(r[k]));
                    },
                    None => {
                        assert(is_pane(x)(r[r.len() - 1]));
                    },
                }
            }
        }
    }
}

/// Saving a session and restoring all of its panes gives back its name, its tabs with their
/// layouts and focus, its active tab and its counters.
pub proof fn law_restore_after_save(
    s: SessionView,
    captures: Seq<CaptureView>,
    outcomes: Seq<PaneOutcome>,
)
    requires
        s.wf(),
        s.tabs.len() > 0,
        tab_at(s.tabs, s.active_tab) is Some,
        forall|i: int| 0 <= i < s.panes.len() ==> !(#[trigger] outcomes[i] is Failed),
    ensures
        restored_session(s.saved(captures), outcomes) matches Some(r) && {
            &&& r.meta == s.meta
            &&& r.tabs == s.tabs
            &&& r.active_tab == s.active_tab
            &&& r.next_pane_index == s.next_pane_index
            &&& r.next_tab_index == s.next_tab_index
            &&& r.last_active_ms == s.last_active_ms
            &&& forall|p: u32| #[trigger] s.has_pane(p) ==> r.has_pane(p)
        },
{
    let saved = s.saved(captures);
    let keys = pane_keys(s.panes);
    let o = stable_order(keys);
    crate::list::law_stable_order(keys);
    let panes = restored_panes(saved.meta.word_id, saved.panes, outcomes);
    lemma_all_back(saved.meta.word_id, saved.panes, outcomes);
    assert forall|p: u32| #[trigger] s.has_pane(p) implies pane_at(panes, p) is Some by {
        lemma_first_where(s.panes, is_pane(p));
        let k = pane_at(s.panes, p)->0;
        lemma_order_covers(keys, k);
        let i = choose|i: int| 0 <= i < o.len() && o[i] == k;
        assert(saved.panes[i].pane_index == p);
    }
    assert(s.tabs[0].wf());
    assert(s.tabs[0].has(s.tabs[0].focused_pane));
    assert(s.has_pane(s.tabs[0].focused_pane));
    lemma_first_where(panes, is_pane(s.tabs[0].focused_pane));
    assert forall|i: int, p: u32| 0 <= i < s.tabs.len() && #[trigger] s.tabs[i].has(
        p,
    ) implies pane_at(panes, p) is Some by {
        assert(s.has_pane(p));
    }
    lemma_tabs_unchanged(s.tabs, panes);
    lemma_index_above_all(s.tabs, s.next_tab_index);
    let r = restored_session(saved, outcomes)->0;
    assert forall|p: u32| #[trigger] s.has_pane(p) implies r.has_pane(p) by {}
}

/// A stable order mentions every position.
proof fn lemma_order_covers(keys: Seq<u64>, k: int)
    requires
        0 <= k < keys.len(),
    ensures
        exists|i: int| 0 <= i < keys.len() && stable_order(keys)[i] == k,
    decreases keys.len(),
{
    let init = keys.drop_last();
    let o = stable_order(init);
    crate::list::law_stable_order(init);
    crate::list::law_stable_order(keys);
    let r = stable_order(keys);
    crate::list::lemma_place_covers(o, keys, keys.len() - 1);
    if k == keys.len() - 1 {
        let i = choose|i: int| 0 <= i < r.len() && r[i] == k;
        assert(r[i] == k);
    } else {
        lemma_order_covers(init, k);
        let j = choose|j: int| 0 <= j < init.len() && o[j] == k;
        assert(o.contains(k));
        assert(r.contains(k));
        let i = choose|i: int| 0 <= i < r.len() && r[i] == k;
        assert(r[i] == k);
    }
}

// ─── Operations ──────────────────────────────────────────────────────────────

impl SavedView {
    /// What restoring needs of a saved session: one weight per child in every layout, room above
    /// every tab's index, and few enough panes to number tabs after them.
    pub open spec fn restorable(self) -> bool {
        &&& forall|i: int|
            0 <= i < self.tabs.len() ==> (#[trigger] self.tabs[i]).layout.sized()
                && self.tabs[i].tab_index < u32::MAX
        &&& self.panes.len() <= u32::MAX
    }
}

/// A well-formed saved session can be restored.
pub proof fn law_saved_session_is_restorable(saved: SavedView)
    requires
        saved.wf(),
    ensures
        saved.restorable(),
{
    assert forall|i: int| 0 <= i < saved.tabs.len() implies (
    #[trigger] saved.tabs[i]).layout.sized() && saved.tabs[i].tab_index < u32::MAX by {
        lemma_well_formed_sized(saved.tabs[i].layout);
    }
    let indices = Seq::new(saved.panes.len(), |i: int| saved.panes[i].pane_index);
    assert forall|i: int, j: int| 0 <= i < indices.len() && 0 <= j < indices.len() && i
        != j implies indices[i] != indices[j] by {
        if i < j {
            assert(saved.panes[i].pane_index != saved.panes[j].pane_index);
        } else {
            assert(saved.panes[j].pane_index != saved.panes[i].pane_index);
        }
    }
    assert forall|i: int| 0 <= i < indices.len() implies #[trigger] indices[i]
        < saved.next_pane_index by {
        assert(saved.panes[i].pane_index < saved.next_pane_index);
    }
    lemma_pigeonhole(indices, saved.next_pane_index);
}

impl SessionState {
    /// Those of some panes that the session holds (`want`), or those that it does not.
    fn present_panes(&self, ps: &Vec<u32>, want: bool) -> (r: Vec<u32>)
        ensures
            r@ == present(ps@, self@.panes, want),
    {
        let mut out: Vec<u32> = Vec::new();
        let mut i: usize = 0;
        while i < ps.len()
            invariant
                0 <= i <= ps@.len(),
                out@ == present(ps@.take(i as int), self@.panes, want),
            decreases ps@.len() - i,
        {
            let ghost next = ps@.take(i + 1);
            assert(next.drop_last() =~= ps@.take(i as int));
            if self.pane_position(ps[i]).is_some() == want {
                out.push(ps[i]);
            }
            i = i + 1;
        }
        assert(ps@.take(i as int) =~= ps@);
        out
    }

    /// Reconcile a saved tab with the panes that are back.
    fn restored_tab(&self, saved: &PersistedTab) -> (r: Option<TabState>)
        requires
            saved@.layout.sized(),
        ensures
            match r {
                Some(t) => restored_tab(saved@, self@.panes) == Some(t@),
                None => restored_tab(saved@, self@.panes) is None,
            },
    {
        let mut layout = saved.layout.duplicate();
        let leaves = layout.leaves();
        let missing = self.present_panes(&leaves, false);
        let mut i: usize = 0;
        while i < missing.len()
            invariant
                0 <= i <= missing@.len(),
                layout@ == without_leaves(saved@.layout, missing@.take(i as int)),
                layout@.sized(),
            decreases missing@.len() - i,
        {
            let ghost next = missing@.take(i + 1);
            assert(next.drop_last() =~= missing@.take(i as int));
            proof {
                lemma_remove_keeps_sized(layout@, missing@[i as int]);
            }
            let _ok = remove_pane(&mut layout, missing[i]);
            i = i + 1;
        }
        assert(missing@.take(i as int) =~= missing@);
        let leaves = layout.leaves();
        let live = self.present_panes(&leaves, true);
        if live.len() == 0 {
            None
        } else {
            let focused_pane: u32 = if self.pane_position(saved.focused_pane).is_some() {
                saved.focused_pane
            } else {
                live[0]
            };
            Some(
                TabState {
                    tab_index: saved.tab_index,
                    name: saved.name.clone(),
                    layout,
                    focused_pane,
                },
            )
        }
    }

    /// Give every pane a tab of its own, by pane index.
    fn single_tabs(&self) -> (r: Vec<TabState>)
        requires
            self@.panes.len() <= u32::MAX,
        ensures
            views(r@) == single_tabs(self@.panes),
    {
        broadcast use group_views;

        let mut keys: Vec<u64> = Vec::new();
        let mut i: usize = 0;
        while i < self.panes.len()
            invariant
                0 <= i <= self.panes@.len(),
                keys@.len() == i,
                forall|j: int| 0 <= j < i ==> keys@[j] == self.panes@[j].pane_index as u64,
            decreases self.panes@.len() - i,
        {
            keys.push(self.panes[i].pane_index as u64);
            i = i + 1;
        }
        assert(keys@ =~= pane_keys(self@.panes));
        let order = sorted_order(&keys);
        let ghost o = stable_order(keys@);
        let mut tabs: Vec<TabState> = Vec::new();
        let mut k: usize = 0;
        while k < order.len()
            invariant
                0 <= k <= order@.len(),
                order@.len() == self.panes@.len(),
                self.panes@.len() <= u32::MAX,
                positions(order@) == o,
                keys@ == pane_keys(self@.panes),
                o == stable_order(keys@),
                is_stable_order(keys@, o),
                tabs@.len() == k,
                forall|j: int| 0 <= j < k ==> (#[trigger] tabs@[j])@ == single_tabs(self@.panes)[j],
            decreases order@.len() - k,
        {
            assert(o[k as int] == order@[k as int] as int);
            let at: usize = order[k];
            assert(self@.panes[at as int] == self.panes@[at as int]@);
            tabs.push(TabState::single(k as u32, self.panes[at].pane_index));
            k = k + 1;
        }
        assert(views(tabs@) =~= single_tabs(self@.panes));
        tabs
    }

    /// Bring a saved session back, unless none of its panes is. `outcomes` says for each saved
    /// pane what became of it.
    pub fn restored(saved: &PersistedSession, outcomes: &Vec<PaneOutcome>) -> (r: Option<
        SessionState,
    >)
        requires
            outcomes@.len() == saved@.panes.len(),
            saved@.restorable(),
        ensures
            match r {
                Some(s) => restored_session(saved@, outcomes@) == Some(s@),
                None => restored_session(saved@, outcomes@) is None,
            },
            saved@.wf() ==> (r matches Some(s) ==> s@.wf()),
    {
        broadcast use group_views;

        proof {
            if saved@.wf() {
                law_restored_session_wf(saved@, outcomes@);
            }
        }
        let mut session = SessionState {
            meta: saved.meta.copy(),
            panes: Vec::new(),
            next_pane_index: saved.next_pane_index,
            tabs: Vec::new(),
            next_tab_index: saved.next_tab_index,
            active_tab: saved.active_tab,
            last_active_ms: saved.last_active_ms,
        };
        let ghost word = saved@.meta.word_id;
        let ghost start = session@;
        let mut i: usize = 0;
        assert(session@.panes =~= restored_panes(word, saved@.panes.take(0), outcomes@));
        while i < saved.panes.len()
            invariant
                0 <= i <= saved.panes@.len(),
                outcomes@.len() == saved.panes@.len(),
                word == saved@.meta.word_id,
                session@ == (SessionView {
                    panes: restored_panes(word, saved@.panes.take(i as int), outcomes@),
                    ..start
                }),
                session@.panes.len() <= i,
            decreases saved.panes@.len() - i,
        {
            let ghost next = saved@.panes.take(i + 1);
            assert(next.drop_last() =~= saved@.panes.take(i as int));
            assert(next.last() == saved.panes@[i as int]@);
            match outcomes[i] {
                PaneOutcome::Failed => {},
                PaneOutcome::Restored { mode: _, seeded } => {
                    let pane = PaneRelay::restored(
                        saved.meta.word_id.as_str(),
                        &saved.panes[i],
                        seeded,
                    );
                    proof {
                        lemma_first_where(session@.panes, is_pane(pane@.pane_index));
                    }
                    session.put_pane(pane);
                },
            }
            i = i + 1;
        }
        assert(saved@.panes.take(i as int) =~= saved@.panes);
        if session.panes.len() == 0 {
            return None;
        }
        let mut tabs: Vec<TabState> = Vec::new();
        let mut t: usize = 0;
        assert(views(tabs@) =~= restored_tabs(saved@.tabs.take(0), session@.panes));
        while t < saved.tabs.len()
            invariant
                0 <= t <= saved.tabs@.len(),
                saved@.restorable(),
                views(tabs@) == restored_tabs(saved@.tabs.take(t as int), session@.panes),
            decreases saved.tabs@.len() - t,
        {
            let ghost next = saved@.tabs.take(t + 1);
            assert(next.drop_last() =~= saved@.tabs.take(t as int));
            assert(next.last() == saved.tabs@[t as int]@);
            assert(saved@.tabs[t as int].layout.sized());
            let ghost had = views(tabs@);
            if let Some(tab) = session.restored_tab(&saved.tabs[t]) {
                tabs.push(tab);
                assert(views(tabs@) =~= had.push(tab@));
            }
            t = t + 1;
        }
        assert(saved@.tabs.take(t as int) =~= saved@.tabs);
        if tabs.len() == 0 {
            tabs = session.single_tabs();
        }
        let ghost all = final_tabs(saved@.tabs, session@.panes);
        assert(views(tabs@) == all);
        proof {
            lemma_final_tabs_low(saved@.tabs, session@.panes);
        }
        let mut next_tab_index: u32 = saved.next_tab_index;
        let mut active_found = false;
        let mut k: usize = 0;
        while k < tabs.len()
            invariant
                0 <= k <= tabs@.len(),
                views(tabs@) == all,
                forall|j: int| 0 <= j < all.len() ==> (#[trigger] all[j]).tab_index < u32::MAX,
                next_tab_index == index_above(all.take(k as int), saved.next_tab_index),
                active_found == exists|j: int|
                    0 <= j < k && (#[trigger] all[j]).tab_index == saved.active_tab,
            decreases tabs@.len() - k,
        {
            let ghost next = all.take(k + 1);
            assert(next.drop_last() =~= all.take(k as int));
            assert(all[k as int] == tabs@[k as int]@);
            if tabs[k].tab_index + 1 > next_tab_index {
                next_tab_index = tabs[k].tab_index + 1;
            }
            if tabs[k].tab_index == saved.active_tab {
                active_found = true;
            }
            k = k + 1;
        }
        assert(all.take(k as int) =~= all);
        proof {
            lemma_first_where(all, is_tab(saved.active_tab));
            if let Some(f) = tab_at(all, saved.active_tab) {
                assert(all[f].tab_index == saved.active_tab);
            }
            if active_found {
                let j = choose|j: int|
                    0 <= j < k && (#[trigger] all[j]).tab_index == saved.active_tab;
                assert(is_tab(saved.active_tab)(all[j]));
            }
            assert(all[0] == tabs@[0]@);
        }
        if !active_found {
            session.active_tab = tabs[0].tab_index;
        }
        session.next_tab_index = next_tab_index;
        session.tabs = tabs;
        Some(session)
    }
}

} // verus!
