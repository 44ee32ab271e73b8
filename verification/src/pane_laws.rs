//! What holds of a pane across operations: the size its clients agree on, who may write, and what
//! a client that attaches is shown.

use crate::list::{lemma_first_where, lemma_first_where_is};
use crate::pane::{
    agreed_size, capability_list, client_at, distinct_clients, exempting, fresh_pane, has_cells,
    is_client, min_cols, min_rows, pasted, pausing, pending, pending_bytes, sized, snapshotting,
    streaming, BufferedDiff, ClientSender, InputLockOutcome, PaneView, ReplayView,
};
use crate::protocol::{ClientCapabilities, ClientId, InputMode, SequenceNo, SessionStatus, TermSize};
use crate::text::pane_id_text;
use vstd::prelude::*;

verus! {

/// The smallest number of rows is some client's, and no client that reported any has fewer.
proof fn lemma_min_rows(clients: Seq<ClientSender>)
    ensures
        match min_rows(clients) {
            Some(m) => {
                &&& m > 0
                &&& exists|i: int| 0 <= i < clients.len() && (#[trigger] clients[i]).size.rows == m
                &&& forall|i: int|
                    0 <= i < clients.len() ==> (#[trigger] clients[i]).size.rows == 0
                        || clients[i].size.rows >= m
            },
            None => forall|i: int| 0 <= i < clients.len() ==> (#[trigger] clients[i]).size.rows == 0,
        },
    decreases clients.len(),
{
    if clients.len() > 0 {
        let init = clients.drop_last();
        let n = clients.len() - 1;
        lemma_min_rows(init);
        if let Some(m) = min_rows(clients) {
            if clients[n].size.rows == m {
                assert(clients[n].size.rows == m);
            } else {
                let i = choose|i: int| 0 <= i < init.len() && (#[trigger] init[i]).size.rows == m;
                assert(clients[i].size.rows == m);
            }
            assert forall|i: int| 0 <= i < clients.len() implies (#[trigger] clients[i]).size.rows
                == 0 || clients[i].size.rows >= m by {
                if i < n {
                    assert(init[i] == clients[i]);
                }
            }
        } else {
            assert forall|i: int| 0 <= i < clients.len() implies (#[trigger] clients[i]).size.rows
                == 0 by {
                if i < n {
                    assert(init[i] == clients[i]);
                }
            }
        }
    }
}

proof fn lemma_min_cols(clients: Seq<ClientSender>)
    ensures
        match min_cols(clients) {
            Some(m) => {
                &&& m > 0
                &&& exists|i: int| 0 <= i < clients.len() && (#[trigger] clients[i]).size.cols == m
                &&& forall|i: int|
                    0 <= i < clients.len() ==> (#[trigger] clients[i]).size.cols == 0
                        || clients[i].size.cols >= m
            },
            None => forall|i: int| 0 <= i < clients.len() ==> (#[trigger] clients[i]).size.cols == 0,
        },
    decreases clients.len(),
{
    if clients.len() > 0 {
        let init = clients.drop_last();
        let n = clients.len() - 1;
        lemma_min_cols(init);
        if let Some(m) = min_cols(clients) {
            if clients[n].size.cols == m {
                assert(clients[n].size.cols == m);
            } else {
                let i = choose|i: int| 0 <= i < init.len() && (#[trigger] init[i]).size.cols == m;
                assert(clients[i].size.cols == m);
            }
            assert forall|i: int| 0 <= i < clients.len() implies (#[trigger] clients[i]).size.cols
                == 0 || clients[i].size.cols >= m by {
                if i < n {
                    assert(init[i] == clients[i]);
                }
            }
        } else {
            assert forall|i: int| 0 <= i < clients.len() implies (#[trigger] clients[i]).size.cols
                == 0 by {
                if i < n {
                    assert(init[i] == clients[i]);
                }
            }
        }
    }
}

/// The smallest client wins: the agreed size has as many rows as some client and no more than any
/// that reported rows, and likewise for columns. There is one as soon as some client reported rows
/// and some client columns.
pub proof fn law_smallest_client_wins(clients: Seq<ClientSender>)
    ensures
        match agreed_size(clients) {
            Some(s) => {
                &&& s.rows > 0 && s.cols > 0
                &&& forall|i: int|
                    0 <= i < clients.len() ==> ((#[trigger] clients[i]).size.rows == 0 || s.rows
                        <= clients[i].size.rows) && (clients[i].size.cols == 0 || s.cols
                        <= clients[i].size.cols)
                &&& exists|i: int|
                    0 <= i < clients.len() && (#[trigger] clients[i]).size.rows == s.rows
                &&& exists|i: int|
                    0 <= i < clients.len() && (#[trigger] clients[i]).size.cols == s.cols
            },
            None => (forall|i: int|
                0 <= i < clients.len() ==> (#[trigger] clients[i]).size.rows == 0) || (forall|
                i: int,
            | 0 <= i < clients.len() ==> (#[trigger] clients[i]).size.cols == 0),
        },
{
    lemma_min_rows(clients);
    lemma_min_cols(clients);
}

/// A client that is paused, or not any more, counts toward the size all the same.
pub proof fn law_paused_clients_count(
    clients: Seq<ClientSender>,
    k: int,
    paused: bool,
    auto: bool,
)
    requires
        0 <= k < clients.len(),
    ensures
        agreed_size(clients.update(k, pausing(paused, auto)(clients[k]))) == agreed_size(clients),
{
    let other = clients.update(k, pausing(paused, auto)(clients[k]));
    lemma_same_sizes(clients, other);
}

/// Clients of the same sizes agree on the same size.
proof fn lemma_same_sizes(a: Seq<ClientSender>, b: Seq<ClientSender>)
    requires
        a.len() == b.len(),
        forall|i: int| 0 <= i < a.len() ==> (#[trigger] a[i]).size == b[i].size,
    ensures
        agreed_size(a) == agreed_size(b),
{
    lemma_same_minima(a, b);
    if min_rows(a) is Some && min_cols(a) is Some {
        let p = crate::pane::has_cells(min_rows(a)->0, min_cols(a)->0);
        lemma_first_where(a, p);
        lemma_first_where(b, p);
        match crate::list::first_where(a, p) {
            Some(i) => {
                assert(p(b[i]));
                assert forall|j: int| 0 <= j < i implies !p(#[trigger] b[j]) by {
                    assert(!p(a[j]));
                }
                lemma_first_where_is(b, p, i);
            },
            None => {
                assert forall|j: int| 0 <= j < b.len() implies !p(#[trigger] b[j]) by {
                    assert(!p(a[j]));
                }
                crate::list::lemma_first_where_none(b, p);
            },
        }
    }
}

proof fn lemma_same_minima(a: Seq<ClientSender>, b: Seq<ClientSender>)
    requires
        a.len() == b.len(),
        forall|i: int| 0 <= i < a.len() ==> (#[trigger] a[i]).size == b[i].size,
    ensures
        min_rows(a) == min_rows(b),
        min_cols(a) == min_cols(b),
    decreases a.len(),
{
    if a.len() > 0 {
        let x = a.drop_last();
        let y = b.drop_last();
        assert forall|i: int| 0 <= i < x.len() implies (#[trigger] x[i]).size == y[i].size by {
            assert(a[i].size == b[i].size);
        }
        lemma_same_minima(x, y);
        assert(a[a.len() - 1].size == b[a.len() - 1].size);
    }
}

/// When the last client leaves, the pane keeps the size it has.
pub proof fn law_size_outlives_clients(p: PaneView)
    requires
        p.clients.len() == 0,
    ensures
        p.fitted() == p,
{
}

/// Fitting twice changes nothing more: once a pane has the size its clients agree on, nobody is
/// told of a new one.
pub proof fn law_fitting_settles(p: PaneView, pane_id: Seq<char>)
    ensures
        p.fitted().fitted() == p.fitted(),
        p.fitted().resize_notice(pane_id) is None,
{
}

/// Output is withheld from no client that gets a forced snapshot, and from every client that does
/// not.
pub proof fn law_paused_clients_see_nothing(clients: Seq<ClientSender>, id: ClientId)
    ensures
        streaming(clients).contains(id) <==> exists|i: int|
            0 <= i < clients.len() && (#[trigger] clients[i]).client_id == id
                && !clients[i].withheld(),
    decreases clients.len(),
{
    if clients.len() > 0 {
        let init = clients.drop_last();
        let n = clients.len() - 1;
        law_paused_clients_see_nothing(init, id);
        let q = streaming(init);
        let r = streaming(clients);
        if r.contains(id) {
            let k = choose|k: int| 0 <= k < r.len() && r[k] == id;
            if k < q.len() {
                assert(q[k] == id);
                let i = choose|i: int|
                    0 <= i < init.len() && (#[trigger] init[i]).client_id == id
                        && !init[i].withheld();
                assert(clients[i].client_id == id && !clients[i].withheld());
            } else {
                assert(clients[n].client_id == id && !clients[n].withheld());
            }
        }
        if exists|i: int|
            0 <= i < clients.len() && (#[trigger] clients[i]).client_id == id
                && !clients[i].withheld() {
            let i = choose|i: int|
                0 <= i < clients.len() && (#[trigger] clients[i]).client_id == id
                    && !clients[i].withheld();
            if i < n {
                assert(init[i].client_id == id && !init[i].withheld());
                let k = choose|k: int| 0 <= k < q.len() && q[k] == id;
                assert(r[k] == id);
            } else {
                assert(r[r.len() - 1] == id);
            }
        }
    }
}

/// The input lock is exclusive: while one client holds it, no other may write or take it.
pub proof fn law_input_lock_is_exclusive(p: PaneView, holder: ClientId, other: ClientId)
    requires
        p.lock_requested(holder).1 == InputLockOutcome::Granted,
        other != holder,
    ensures
        ({
            let q = p.lock_requested(holder).0;
            &&& q.writable_by(holder)
            &&& !q.writable_by(other)
            &&& q.lock_requested(other) == (q, InputLockOutcome::Denied(holder))
            &&& q.lock_released(other) == (q, false)
            // Asking again is granted and changes nothing.
            &&& q.lock_requested(holder) == (q, InputLockOutcome::Granted)
        }),
{
}

/// Giving the lock up, or leaving the pane, lets everyone write again.
pub proof fn law_lock_ends_with_its_holder(p: PaneView, holder: ClientId, other: ClientId)
    requires
        p.input_mode == InputMode::Locked(holder),
    ensures
        p.lock_released(holder).1,
        p.lock_released(holder).0.writable_by(other),
        p.left(holder).writable_by(other),
{
}

/// A lock that was open before it was taken and given up again leaves the pane as it was.
pub proof fn law_release_undoes_request(p: PaneView, id: ClientId)
    requires
        p.input_mode == InputMode::Open,
    ensures
        p.lock_requested(id).0.lock_released(id).0 == p,
{
}

/// A replay by diffs holds exactly the buffered diffs that the client has not seen, in order.
pub proof fn law_replay_is_what_was_missed(p: PaneView, seq: u64)
    requires
        p.replay(Some(SequenceNo(seq))) is Delta,
    ensures
        p.replay(Some(SequenceNo(seq))) == ReplayView::Delta(pending(p.scrollback, seq)),
        forall|k: int|
            0 <= k < pending(p.scrollback, seq).len() ==> (#[trigger] pending(
                p.scrollback,
                seq,
            )[k]).0 > seq,
        forall|i: int|
            0 <= i < p.scrollback.len() && (#[trigger] p.scrollback[i]).seqno > seq ==> pending(
                p.scrollback,
                seq,
            ).contains(SequenceNo(p.scrollback[i].seqno)),
{
    lemma_pending(p.scrollback, seq);
}

proof fn lemma_pending(buf: Seq<BufferedDiff>, seq: u64)
    ensures
        forall|k: int|
            0 <= k < pending(buf, seq).len() ==> (#[trigger] pending(buf, seq)[k]).0 > seq,
        forall|i: int|
            0 <= i < buf.len() && (#[trigger] buf[i]).seqno > seq ==> pending(buf, seq).contains(
                SequenceNo(buf[i].seqno),
            ),
    decreases buf.len(),
{
    if buf.len() > 0 {
        let init = buf.drop_last();
        lemma_pending(init, seq);
        let q = pending(init, seq);
        let r = pending(buf, seq);
        assert forall|i: int| 0 <= i < buf.len() && (#[trigger] buf[i]).seqno > seq implies
            r.contains(SequenceNo(buf[i].seqno)) by {
            if i < init.len() {
                assert(init[i] == buf[i]);
                assert(q.contains(SequenceNo(init[i].seqno)));
                let k = choose|k: int| 0 <= k < q.len() && q[k] == SequenceNo(init[i].seqno);
                assert(r[k] == SequenceNo(buf[i].seqno));
            } else {
                assert(r[r.len() - 1] == SequenceNo(buf[i].seqno));
            }
        }
    }
}

/// A client that attaches counts from then on, is not paused, and keeps its snapshot mode if it
/// had attached before.
pub proof fn law_attached_client_is_listed(
    p: PaneView,
    id: ClientId,
    size: TermSize,
    capabilities: ClientCapabilities,
)
    ensures
        ({
            let q = p.with_client(id, size, capabilities);
            &&& client_at(q.clients, id) matches Some(i) && {
                &&& q.clients[i].size == size
                &&& q.clients[i].capabilities == capabilities
                &&& !q.clients[i].withheld()
                &&& match client_at(p.clients, id) {
                    Some(j) => i == j && q.clients[i].force_full_snapshot
                        == p.clients[j].force_full_snapshot,
                    None => !q.clients[i].force_full_snapshot,
                }
            }
        }),
{
    let q = p.with_client(id, size, capabilities);
    lemma_first_where(p.clients, is_client(id));
    match client_at(p.clients, id) {
        Some(j) => {
            assert forall|k: int| 0 <= k < j implies !is_client(id)(#[trigger] q.clients[k]) by {
                assert(q.clients[k] == p.clients[k]);
            }
            lemma_first_where_is(q.clients, is_client(id), j);
        },
        None => {
            let n = p.clients.len() as int;
            assert forall|k: int| 0 <= k < n implies !is_client(id)(#[trigger] q.clients[k]) by {
                assert(q.clients[k] == p.clients[k]);
            }
            lemma_first_where_is(q.clients, is_client(id), n);
        },
    }
}

// ─── What each operation does to a pane ──────────────────────────────────────

/// Changing a client's entry changes that entry and nothing else of the pane.
proof fn lemma_with_flags(p: PaneView, id: ClientId, f: spec_fn(ClientSender) -> ClientSender, k: int)
    requires
        distinct_clients(p.clients),
        0 <= k < p.clients.len(),
        p.clients[k].client_id == id,
    ensures
        p.with_flags(id, f).clients == p.clients.update(k, f(p.clients[k])),
        p.with_flags(id, f) == (PaneView { clients: p.with_flags(id, f).clients, ..p }),
{
    assert forall|j: int| 0 <= j < k implies !is_client(id)(#[trigger] p.clients[j]) by {
        assert(p.clients[j].client_id != p.clients[k].client_id);
    }
    lemma_first_where_is(p.clients, is_client(id), k);
}

/// A client that is not attached has no entry to change.
proof fn lemma_without_entry(p: PaneView, id: ClientId, f: spec_fn(ClientSender) -> ClientSender)
    requires
        forall|i: int| 0 <= i < p.clients.len() ==> (#[trigger] p.clients[i]).client_id != id,
    ensures
        p.with_flags(id, f) == p,
        client_at(p.clients, id) is None,
{
    lemma_first_where(p.clients, is_client(id));
}

/// After an attached client reported a size, its entry holds exactly that size and is otherwise
/// as it was; so is everything else of the pane, the other clients' entries among it.
pub proof fn law_reported_size_is_recorded(p: PaneView, id: ClientId, size: TermSize, k: int)
    requires
        distinct_clients(p.clients),
        0 <= k < p.clients.len(),
        p.clients[k].client_id == id,
    ensures
        ({
            let q = p.with_flags(id, sized(size));
            &&& q.clients.len() == p.clients.len()
            &&& q.clients[k].size == size
            &&& q.clients[k] == (ClientSender { size, ..p.clients[k] })
            &&& forall|i: int|
                0 <= i < p.clients.len() && i != k ==> #[trigger] q.clients[i] == p.clients[i]
            &&& q == (PaneView { clients: q.clients, ..p })
        }),
{
    lemma_with_flags(p, id, sized(size), k);
}

/// A pane follows its only client in both directions: it has the rows and columns that the client
/// reported last, whatever it had before, and the client is told of them, with its pixels, exactly
/// when they differ from those before.
pub proof fn law_only_client_sets_the_size(
    p: PaneView,
    id: ClientId,
    size: TermSize,
    pane_id: Seq<char>,
)
    requires
        p.clients.len() == 1,
        p.clients[0].client_id == id,
        size.rows > 0,
        size.cols > 0,
    ensures
        ({
            let q = p.with_flags(id, sized(size));
            let changed = size.rows != p.size.rows || size.cols != p.size.cols;
            &&& q.fitted().size.rows == size.rows
            &&& q.fitted().size.cols == size.cols
            &&& changed ==> q.fitted().size == size
            &&& match q.resize_notice(pane_id) {
                Some(n) => changed && n.size == size && n.pane_id == pane_id,
                None => !changed,
            }
        }),
{
    law_reported_size_is_recorded(p, id, size, 0);
    let q = p.with_flags(id, sized(size));
    law_smallest_client_wins(q.clients);
    assert(q.clients[0].size == size);
    let s = agreed_size(q.clients);
    if s is None {
        assert(q.clients[0].size.rows == 0 || q.clients[0].size.cols == 0);
    }
    assert(s->0.rows == size.rows && s->0.cols == size.cols);
    assert(has_cells(size.rows, size.cols)(q.clients[0]));
    lemma_first_where_is(q.clients, has_cells(size.rows, size.cols), 0);
}

/// A pane has the fewest rows and the fewest columns that any of its clients reported, be that
/// more or less than it had; a client that reported none does not count. Its other state stays.
pub proof fn law_pane_fits_its_clients(p: PaneView, pane_id: Seq<char>)
    requires
        exists|i: int| 0 <= i < p.clients.len() && (#[trigger] p.clients[i]).size.rows > 0,
        exists|i: int| 0 <= i < p.clients.len() && (#[trigger] p.clients[i]).size.cols > 0,
    ensures
        ({
            let q = p.fitted();
            &&& forall|i: int|
                0 <= i < p.clients.len() ==> ((#[trigger] p.clients[i]).size.rows == 0
                    || q.size.rows <= p.clients[i].size.rows) && (p.clients[i].size.cols == 0
                    || q.size.cols <= p.clients[i].size.cols)
            &&& exists|i: int|
                0 <= i < p.clients.len() && (#[trigger] p.clients[i]).size.rows == q.size.rows
                    && q.size.rows > 0
            &&& exists|i: int|
                0 <= i < p.clients.len() && (#[trigger] p.clients[i]).size.cols == q.size.cols
                    && q.size.cols > 0
            &&& q == (PaneView { size: q.size, ..p })
            &&& match p.resize_notice(pane_id) {
                Some(n) => {
                    &&& q.size.rows != p.size.rows || q.size.cols != p.size.cols
                    &&& n.size == q.size
                    &&& n.pane_id == pane_id
                    &&& p.next_seqno > 0 ==> n.seqno.0 + 1 == p.next_seqno
                    &&& forall|id: ClientId| #[trigger]
                        n.clients.contains(id) <==> exists|i: int|
                            0 <= i < p.clients.len() && (#[trigger] p.clients[i]).client_id == id
                                && !p.clients[i].withheld()
                },
                None => q.size == p.size,
            }
        }),
{
    law_smallest_client_wins(p.clients);
    let s = agreed_size(p.clients);
    if s is None {
        let i = choose|i: int| 0 <= i < p.clients.len() && (#[trigger] p.clients[i]).size.rows > 0;
        let j = choose|i: int| 0 <= i < p.clients.len() && (#[trigger] p.clients[i]).size.cols > 0;
        assert(p.clients[i].size.rows > 0);
        assert(p.clients[j].size.cols > 0);
    }
    assert forall|id: ClientId| #[trigger] streaming(p.clients).contains(id) <==> exists|i: int|
        0 <= i < p.clients.len() && (#[trigger] p.clients[i]).client_id == id
            && !p.clients[i].withheld() by {
        law_paused_clients_see_nothing(p.clients, id);
    }
}

/// Output is withheld from a client that asked for it, and from one that is in the background
/// unless the pane is exempt; from nobody else.
pub proof fn law_when_output_is_withheld(c: ClientSender)
    ensures
        !c.paused ==> !c.withheld(),
        c.paused && !c.pause_auto ==> c.withheld(),
        c.paused && c.pause_auto ==> c.withheld() == !c.no_auto_pause,
{
}

/// The clients that output goes to are listed one by one, in the order they attached, and none
/// twice.
pub proof fn law_streaming_goes_client_by_client(a: Seq<ClientSender>, b: Seq<ClientSender>)
    ensures
        streaming(a + b) == streaming(a) + streaming(b),
        streaming(Seq::empty()) == Seq::<ClientId>::empty(),
        a.len() == 1 && !a[0].withheld() ==> streaming(a) == seq![a[0].client_id],
        a.len() == 1 && a[0].withheld() ==> streaming(a) == Seq::<ClientId>::empty(),
    decreases b.len(),
{
    if b.len() == 0 {
        assert(a + b =~= a);
        assert(streaming(a) + Seq::<ClientId>::empty() =~= streaming(a));
    } else {
        law_streaming_goes_client_by_client(a, b.drop_last());
        assert((a + b).drop_last() =~= a + b.drop_last());
        assert((a + b).last() == b.last());
        assert(streaming(a + b) =~= streaming(a) + streaming(b));
    }
    if a.len() == 1 {
        assert(a.drop_last() =~= Seq::empty());
        assert(streaming(a.drop_last()) =~= Seq::<ClientId>::empty());
        if !a[0].withheld() {
            assert(streaming(a) =~= seq![a[0].client_id]);
        }
    }
}

/// A client's own settings: each changes the one entry and in it the one setting.
pub proof fn law_settings_are_the_clients_own(p: PaneView, id: ClientId, on: bool, auto: bool, k: int)
    requires
        distinct_clients(p.clients),
        0 <= k < p.clients.len(),
        p.clients[k].client_id == id,
    ensures
        ({
            let s = p.with_flags(id, snapshotting(on));
            let u = p.with_flags(id, pausing(on, auto));
            let e = p.with_flags(id, exempting(on));
            let c = p.clients[k];
            &&& s.clients[k].force_full_snapshot == on
            &&& s.clients[k].paused == c.paused && s.clients[k].pause_auto == c.pause_auto
            &&& s.clients[k].no_auto_pause == c.no_auto_pause
            &&& u.clients[k].paused == on && u.clients[k].pause_auto == auto
            &&& u.clients[k].force_full_snapshot == c.force_full_snapshot
            &&& u.clients[k].no_auto_pause == c.no_auto_pause
            &&& e.clients[k].no_auto_pause == on
            &&& e.clients[k].paused == c.paused && e.clients[k].pause_auto == c.pause_auto
            &&& e.clients[k].force_full_snapshot == c.force_full_snapshot
            &&& forall|q: PaneView|
                q == s || q == u || q == e ==> {
                    &&& #[trigger] same_but_for(p, q, k)
                    &&& q.clients[k].client_id == id
                    &&& q.clients[k].capabilities == c.capabilities
                    &&& q.clients[k].size == c.size
                }
        }),
{
    lemma_with_flags(p, id, snapshotting(on), k);
    lemma_with_flags(p, id, pausing(on, auto), k);
    lemma_with_flags(p, id, exempting(on), k);
}

/// Two panes that differ at most in the entry of the client at `k`.
pub open spec fn same_but_for(p: PaneView, q: PaneView, k: int) -> bool {
    &&& q == (PaneView { clients: q.clients, ..p })
    &&& q.clients.len() == p.clients.len()
    &&& forall|i: int| 0 <= i < p.clients.len() && i != k ==> #[trigger] q.clients[i] == p.clients[i]
}

/// A client that is not attached changes nothing by its reports and settings.
pub proof fn law_strangers_have_no_settings(p: PaneView, id: ClientId, size: TermSize, on: bool, auto: bool)
    requires
        forall|i: int| 0 <= i < p.clients.len() ==> (#[trigger] p.clients[i]).client_id != id,
    ensures
        p.with_flags(id, sized(size)) == p,
        p.with_flags(id, snapshotting(on)) == p,
        p.with_flags(id, pausing(on, auto)) == p,
        p.with_flags(id, exempting(on)) == p,
        p.without_client(id).clients == p.clients,
{
    lemma_without_entry(p, id, sized(size));
    lemma_without_entry(p, id, snapshotting(on));
    lemma_without_entry(p, id, pausing(on, auto));
    lemma_without_entry(p, id, exempting(on));
}

/// A client that attaches for the first time is added behind the others with what it reported,
/// and sees output; nothing else of the pane changes.
pub proof fn law_first_attach_adds_an_entry(
    p: PaneView,
    id: ClientId,
    size: TermSize,
    capabilities: ClientCapabilities,
)
    requires
        forall|i: int| 0 <= i < p.clients.len() ==> (#[trigger] p.clients[i]).client_id != id,
    ensures
        ({
            let q = p.with_client(id, size, capabilities);
            let n = p.clients.len() as int;
            &&& q == (PaneView { clients: q.clients, ..p })
            &&& q.clients.len() == n + 1
            &&& q.clients.take(n) == p.clients
            &&& q.clients[n].client_id == id
            &&& q.clients[n].size == size
            &&& q.clients[n].capabilities == capabilities
            &&& !q.clients[n].paused && !q.clients[n].pause_auto && !q.clients[n].no_auto_pause
            &&& !q.clients[n].force_full_snapshot
        }),
{
    lemma_first_where(p.clients, is_client(id));
    assert(p.with_client(id, size, capabilities).clients.take(p.clients.len() as int)
        =~= p.clients);
}

/// A client that attaches again keeps its place and its snapshot mode; what it reports replaces
/// what it had reported, its pauses end, and the other clients' entries stay.
pub proof fn law_attach_again_renews_the_entry(
    p: PaneView,
    id: ClientId,
    size: TermSize,
    capabilities: ClientCapabilities,
    k: int,
)
    requires
        distinct_clients(p.clients),
        0 <= k < p.clients.len(),
        p.clients[k].client_id == id,
    ensures
        ({
            let q = p.with_client(id, size, capabilities);
            &&& same_but_for(p, q, k)
            &&& q.clients[k].client_id == id
            &&& q.clients[k].size == size
            &&& q.clients[k].capabilities == capabilities
            &&& q.clients[k].force_full_snapshot == p.clients[k].force_full_snapshot
            &&& !q.clients[k].paused && !q.clients[k].pause_auto && !q.clients[k].no_auto_pause
        }),
{
    assert forall|j: int| 0 <= j < k implies !is_client(id)(#[trigger] p.clients[j]) by {
        assert(p.clients[j].client_id != p.clients[k].client_id);
    }
    lemma_first_where_is(p.clients, is_client(id), k);
}

/// A client that leaves is gone, and nobody else is: the others keep their entries and their
/// order. A lock that it held is open again; one that another holds stays.
pub proof fn law_leaving_removes_one_client(p: PaneView, id: ClientId, k: int)
    requires
        distinct_clients(p.clients),
        0 <= k < p.clients.len(),
        p.clients[k].client_id == id,
    ensures
        ({
            let q = p.without_client(id);
            &&& q.clients == p.clients.remove(k)
            &&& forall|i: int|
                0 <= i < q.clients.len() ==> (#[trigger] q.clients[i]).client_id != id
            &&& q == (PaneView { clients: q.clients, input_mode: q.input_mode, ..p })
            &&& p.input_mode == InputMode::Locked(id) ==> q.input_mode == InputMode::Open
            &&& p.input_mode != InputMode::Locked(id) ==> q.input_mode == p.input_mode
        }),
{
    assert forall|j: int| 0 <= j < k implies !is_client(id)(#[trigger] p.clients[j]) by {
        assert(p.clients[j].client_id != p.clients[k].client_id);
    }
    lemma_first_where_is(p.clients, is_client(id), k);
    let q = p.without_client(id);
    assert forall|i: int| 0 <= i < q.clients.len() implies (#[trigger] q.clients[i]).client_id
        != id by {
        if i < k {
            assert(q.clients[i] == p.clients[i]);
        } else {
            assert(q.clients[i] == p.clients[i + 1]);
            assert(p.clients[k].client_id != p.clients[i + 1].client_id);
        }
    }
}

/// A pane offers a terminal feature exactly when it has clients and all of them can show it. To
/// take stock changes nothing else.
pub proof fn law_features_are_what_all_can_show(p: PaneView)
    ensures
        ({
            let q = p.recomputed();
            &&& q.kitty_graphics_enabled <==> p.clients.len() > 0 && forall|i: int|
                0 <= i < p.clients.len() ==> (
                #[trigger] p.clients[i]).capabilities.kitty_graphics
            &&& q.kitty_keyboard_enabled <==> p.clients.len() > 0 && forall|i: int|
                0 <= i < p.clients.len() ==> (
                #[trigger] p.clients[i]).capabilities.kitty_keyboard
            &&& q == (PaneView {
                kitty_graphics_enabled: q.kitty_graphics_enabled,
                kitty_keyboard_enabled: q.kitty_keyboard_enabled,
                ..p
            })
        }),
{
    let caps = capability_list(p.clients);
    assert forall|i: int| 0 <= i < p.clients.len() implies (
    #[trigger] p.clients[i]).capabilities == caps[i] by {}
    if p.recomputed().kitty_graphics_enabled {
        assert forall|i: int| 0 <= i < p.clients.len() implies (
        #[trigger] p.clients[i]).capabilities.kitty_graphics by {
            assert(caps[i].kitty_graphics);
        }
    }
    if p.recomputed().kitty_keyboard_enabled {
        assert forall|i: int| 0 <= i < p.clients.len() implies (
        #[trigger] p.clients[i]).capabilities.kitty_keyboard by {
            assert(caps[i].kitty_keyboard);
        }
    }
}

/// Who may write: everyone in an open pane, the holder alone in a locked one, nobody in one that
/// takes no input.
pub proof fn law_who_may_write(p: PaneView, id: ClientId)
    ensures
        p.input_mode == InputMode::Open ==> p.writable_by(id),
        p.input_mode == InputMode::Locked(id) ==> p.writable_by(id),
        p.input_mode matches InputMode::Locked(holder) && holder != id ==> !p.writable_by(id),
        p.input_mode == InputMode::Disabled ==> !p.writable_by(id),
{
}

/// The lock of an open pane goes to whoever asks first; a pane that takes no input grants none.
/// Asking and giving up touch nothing but the lock.
pub proof fn law_lock_goes_to_who_asks(p: PaneView, id: ClientId)
    ensures
        p.input_mode == InputMode::Open ==> p.lock_requested(id).1 == InputLockOutcome::Granted
            && p.lock_requested(id).0.input_mode == InputMode::Locked(id),
        p.input_mode == InputMode::Disabled ==> p.lock_requested(id).1 is Denied
            && p.lock_requested(id).0 == p,
        p.lock_requested(id).0 == (PaneView {
            input_mode: p.lock_requested(id).0.input_mode,
            ..p
        }),
        p.lock_released(id).0 == (PaneView { input_mode: p.lock_released(id).0.input_mode, ..p }),
        p.lock_released(id).1 <==> p.input_mode == InputMode::Locked(id),
        p.lock_released(id).1 ==> p.lock_released(id).0.input_mode == InputMode::Open,
        !p.lock_released(id).1 ==> p.lock_released(id).0 == p,
{
}

/// Estimated size of a list of diffs.
pub open spec fn total_bytes(buf: Seq<BufferedDiff>) -> nat
    decreases buf.len(),
{
    if buf.len() == 0 {
        0
    } else {
        total_bytes(buf.drop_last()) + buf.last().bytes as nat
    }
}

/// Diffs are numbered upwards.
pub open spec fn ascending(buf: Seq<BufferedDiff>) -> bool {
    forall|i: int, j: int|
        0 <= i < j < buf.len() ==> (#[trigger] buf[i]).seqno < (#[trigger] buf[j]).seqno
}

proof fn lemma_pending_of(buf: Seq<BufferedDiff>, seq: u64, k: int)
    requires
        0 <= k <= buf.len(),
        forall|i: int| 0 <= i < k ==> (#[trigger] buf[i]).seqno <= seq,
        forall|i: int| k <= i < buf.len() ==> (#[trigger] buf[i]).seqno > seq,
    ensures
        pending(buf, seq) == Seq::new(
            (buf.len() - k) as nat,
            |i: int| SequenceNo(buf[k + i].seqno),
        ),
        pending_bytes(buf, seq) == total_bytes(buf.skip(k)),
    decreases buf.len(),
{
    if buf.len() > 0 {
        let init = buf.drop_last();
        let n = buf.len() - 1;
        assert forall|i: int| 0 <= i < n implies #[trigger] init[i] == buf[i] by {}
        if k == buf.len() {
            assert(buf[n].seqno <= seq);
            lemma_pending_of(init, seq, n);
            assert(init.skip(n) =~= Seq::empty());
            assert(buf.skip(k) =~= Seq::empty());
        } else {
            assert(buf[n].seqno > seq);
            lemma_pending_of(init, seq, k);
            assert(buf.skip(k).drop_last() =~= init.skip(k));
        }
    }
    assert(pending(buf, seq) =~= Seq::new(
        (buf.len() - k) as nat,
        |i: int| SequenceNo(buf[k + i].seqno),
    ));
}

/// A client that comes back gets exactly the diffs behind the one it saw last, in order, where
/// the buffer reaches back that far and they are at most 256 and at most 256 KiB; else it starts
/// afresh at the pane's position. Of the buffer, the first `k` diffs are those it saw.
pub proof fn law_resume_replays_the_gap(p: PaneView, seq: u64, k: int)
    requires
        ascending(p.scrollback),
        0 < k <= p.scrollback.len(),
        p.scrollback[k - 1].seqno <= seq,
        k < p.scrollback.len() ==> p.scrollback[k].seqno > seq,
    ensures
        ({
            let missed = p.scrollback.skip(k);
            match p.replay(Some(SequenceNo(seq))) {
                ReplayView::Delta(diffs) => {
                    &&& missed.len() <= 256 && total_bytes(missed) <= 262_144
                    &&& diffs.len() == missed.len()
                    &&& forall|i: int|
                        0 <= i < missed.len() ==> (#[trigger] diffs[i]).0 == missed[i].seqno
                },
                ReplayView::SyncReset(at) => {
                    &&& missed.len() > 256 || total_bytes(missed) > 262_144
                    &&& p.next_seqno > 0 ==> at.0 + 1 == p.next_seqno
                },
                ReplayView::FullSnapshot(_) => false,
            }
        }),
{
    let buf = p.scrollback;
    assert forall|i: int| 0 <= i < k implies (#[trigger] buf[i]).seqno <= seq by {
        if i < k - 1 {
            assert(buf[i].seqno < buf[k - 1].seqno);
        }
    }
    assert forall|i: int| k <= i < buf.len() implies (#[trigger] buf[i]).seqno > seq by {
        if i > k {
            assert(buf[k].seqno < buf[i].seqno);
        }
    }
    lemma_pending_of(buf, seq, k);
    assert(buf[0].seqno <= seq);
}

/// A client that saw nothing gets the screen; one that saw what is no longer buffered starts
/// afresh. Both at the pane's position, behind the last diff produced.
pub proof fn law_replay_from_scratch(p: PaneView, seq: u64)
    requires
        p.next_seqno > 0,
    ensures
        p.replay(None) matches ReplayView::FullSnapshot(at) && at.0 + 1 == p.next_seqno,
        p.scrollback.len() == 0 || seq < p.scrollback[0].seqno ==> (p.replay(
            Some(SequenceNo(seq)),
        ) matches ReplayView::SyncReset(at) && at.0 + 1 == p.next_seqno),
{
}

/// Pasted text is written as it is, between `ESC [ 2 0 0 ~` and `ESC [ 2 0 1 ~` where the program
/// asked for that.
pub proof fn law_pasted_text_is_kept(data: Seq<u8>)
    ensures
        pasted(data, false) == data,
        pasted(data, true).len() == data.len() + 12,
        pasted(data, true).subrange(6, 6 + data.len() as int) == data,
        pasted(data, true).take(6) == seq![0x1bu8, 0x5b, 0x32, 0x30, 0x30, 0x7e],
        pasted(data, true).skip(6 + data.len() as int) == seq![
            0x1bu8,
            0x5b,
            0x32,
            0x30,
            0x31,
            0x7e,
        ],
{
    assert(pasted(data, true).subrange(6, 6 + data.len() as int) =~= data);
    assert(pasted(data, true).take(6) =~= seq![0x1bu8, 0x5b, 0x32, 0x30, 0x30, 0x7e]);
    assert(pasted(data, true).skip(6 + data.len() as int) =~= seq![
        0x1bu8,
        0x5b,
        0x32,
        0x30,
        0x31,
        0x7e,
    ]);
}

/// What clients are told of a pane is what holds of it.
pub proof fn law_pane_info_is_true(p: PaneView, word: Seq<char>)
    ensures
        ({
            let i = p.info(word);
            &&& i.pane_id == pane_id_text(word, p.pane_index)
            &&& i.pane_index == p.pane_index
            &&& i.program == p.program
            &&& i.size == p.size
            &&& i.status == p.status
            &&& i.title == p.sink.title
            &&& i.progress_state == p.sink.progress.state
            &&& i.progress == p.sink.progress.progress
            &&& i.attached_clients.len() == p.clients.len()
            &&& forall|k: int|
                0 <= k < p.clients.len() ==> #[trigger] i.attached_clients[k]
                    == p.clients[k].client_id
        }),
{
}

/// A pane that was just made has no clients and no output yet, takes input from everyone, and
/// offers what the client that asked for it can show.
pub proof fn law_fresh_pane_is_empty(
    word: Seq<char>,
    index: u32,
    program: Seq<char>,
    args: Seq<Seq<char>>,
    size: TermSize,
    seed: ClientCapabilities,
)
    ensures
        ({
            let p = fresh_pane(word, index, program, args, size, seed);
            &&& p.pane_index == index && p.program == program && p.args == args && p.size == size
            &&& p.clients.len() == 0 && p.scrollback.len() == 0 && p.input.len() == 0
            &&& p.input_mode == InputMode::Open
            &&& p.status == SessionStatus::Running
            &&& p.replay(None) == ReplayView::FullSnapshot(SequenceNo(0))
            &&& p.kitty_graphics_enabled == seed.kitty_graphics
            &&& p.kitty_keyboard_enabled == seed.kitty_keyboard
            &&& p.sink.pane_id == pane_id_text(word, index)
            &&& p.sink.title.len() == 0 && p.sink.outbox.len() == 0
            &&& p.sink.progress.progress is None
            &&& !p.isolated
        }),
{
}

} // verus!
