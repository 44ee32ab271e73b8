//! Searching and ordering of lists.

use crate::text::views;
use vstd::prelude::*;

verus! {

/// The position of the first element that satisfies `p`.
pub open spec fn first_where<T>(s: Seq<T>, p: spec_fn(T) -> bool) -> Option<int>
    decreases s.len(),
{
    if s.len() == 0 {
        None
    } else {
        match first_where(s.drop_last(), p) {
            Some(i) => Some(i),
            None => if p(s.last()) {
                Some(s.len() - 1)
            } else {
                None
            },
        }
    }
}

/// What [`first_where`] finds.
pub proof fn lemma_first_where<T>(s: Seq<T>, p: spec_fn(T) -> bool)
    ensures
        match first_where(s, p) {
            Some(i) => {
                &&& 0 <= i < s.len()
                &&& p(s[i])
                &&& forall|j: int| 0 <= j < i ==> !p(#[trigger] s[j])
            },
            None => forall|j: int| 0 <= j < s.len() ==> !p(#[trigger] s[j]),
        },
    decreases s.len(),
{
    if s.len() > 0 {
        let init = s.drop_last();
        lemma_first_where(init, p);
        match first_where(init, p) {
            Some(i) => {
                assert(init[i] == s[i]);
                assert forall|j: int| 0 <= j < i implies !p(#[trigger] s[j]) by {
                    assert(init[j] == s[j]);
                }
            },
            None => {
                assert forall|j: int| 0 <= j < s.len() - 1 implies !p(#[trigger] s[j]) by {
                    assert(init[j] == s[j]);
                }
            },
        }
    }
}

/// A position with the defining property is the one that [`first_where`] finds.
pub proof fn lemma_first_where_is<T>(s: Seq<T>, p: spec_fn(T) -> bool, i: int)
    requires
        0 <= i < s.len(),
        p(s[i]),
        forall|j: int| 0 <= j < i ==> !p(#[trigger] s[j]),
    ensures
        first_where(s, p) == Some(i),
{
    lemma_first_where(s, p);
    match first_where(s, p) {
        Some(k) => {
            if k < i {
                assert(!p(s[k]));
            } else if i < k {
                assert(!p(s[i]));
            }
        },
        None => {
            assert(!p(s[i]));
        },
    }
}

pub proof fn lemma_first_where_none<T>(s: Seq<T>, p: spec_fn(T) -> bool)
    requires
        forall|j: int| 0 <= j < s.len() ==> !p(#[trigger] s[j]),
    ensures
        first_where(s, p) is None,
{
    lemma_first_where(s, p);
}

/// How the model of a list changes with the list.
pub broadcast proof fn lemma_views_push<T: View>(s: Seq<T>, x: T)
    ensures
        #[trigger] views(s.push(x)) == views(s).push(x@),
{
    assert(views(s.push(x)) =~= views(s).push(x@));
}

pub broadcast proof fn lemma_views_update<T: View>(s: Seq<T>, i: int, x: T)
    requires
        0 <= i < s.len(),
    ensures
        #[trigger] views(s.update(i, x)) == views(s).update(i, x@),
{
    assert(views(s.update(i, x)) =~= views(s).update(i, x@));
}

pub broadcast proof fn lemma_views_remove<T: View>(s: Seq<T>, i: int)
    requires
        0 <= i < s.len(),
    ensures
        #[trigger] views(s.remove(i)) == views(s).remove(i),
{
    assert(views(s.remove(i)) =~= views(s).remove(i));
}

pub broadcast proof fn lemma_views_insert<T: View>(s: Seq<T>, i: int, x: T)
    requires
        0 <= i <= s.len(),
    ensures
        #[trigger] views(s.insert(i, x)) == views(s).insert(i, x@),
{
    assert(views(s.insert(i, x)) =~= views(s).insert(i, x@));
}

pub broadcast group group_views {
    lemma_views_push,
    lemma_views_update,
    lemma_views_remove,
    lemma_views_insert,
}

// ─── Stable ordering ─────────────────────────────────────────────────────────

/// `order` with index `i` put behind every index whose key is not larger.
pub open spec fn place(order: Seq<int>, keys: Seq<u64>, i: int) -> Seq<int>
    decreases order.len(),
{
    if order.len() == 0 {
        seq![i]
    } else if keys[order.last()] <= keys[i] {
        order.push(i)
    } else {
        place(order.drop_last(), keys, i).push(order.last())
    }
}

/// The positions of a list in ascending order of their keys; equal keys keep their order.
pub open spec fn stable_order(keys: Seq<u64>) -> Seq<int>
    decreases keys.len(),
{
    if keys.len() == 0 {
        Seq::empty()
    } else {
        place(stable_order(keys.drop_last()), keys, keys.len() - 1)
    }
}

/// `order` lists every position of `keys` once, by ascending key, equal keys by position.
pub open spec fn is_stable_order(keys: Seq<u64>, order: Seq<int>) -> bool {
    &&& order.len() == keys.len()
    &&& forall|a: int| 0 <= a < order.len() ==> 0 <= #[trigger] order[a] < keys.len()
    &&& forall|a: int, b: int|
        0 <= a < b < order.len() ==> precedes(keys, #[trigger] order[a], #[trigger] order[b])
}

/// Position `i` comes before position `j` in the stable order of `keys`.
pub open spec fn precedes(keys: Seq<u64>, i: int, j: int) -> bool {
    keys[i] < keys[j] || (keys[i] == keys[j] && i < j)
}

/// A list in the order given by positions into it.
pub open spec fn arranged<T>(s: Seq<T>, order: Seq<int>) -> Seq<T> {
    Seq::new(order.len(), |i: int| s[order[i]])
}

proof fn lemma_place(order: Seq<int>, keys: Seq<u64>, i: int)
    requires
        0 <= i < keys.len(),
        forall|a: int| 0 <= a < order.len() ==> 0 <= #[trigger] order[a] < i,
        forall|a: int, b: int|
            0 <= a < b < order.len() ==> precedes(keys, #[trigger] order[a], #[trigger] order[b]),
    ensures
        place(order, keys, i).len() == order.len() + 1,
        forall|a: int|
            0 <= a < order.len() + 1 ==> 0 <= #[trigger] place(order, keys, i)[a] <= i && (place(
                order,
                keys,
                i,
            )[a] == i || order.contains(place(order, keys, i)[a])),
        forall|a: int, b: int|
            0 <= a < b < order.len() + 1 ==> precedes(
                keys,
                #[trigger] place(order, keys, i)[a],
                #[trigger] place(order, keys, i)[b],
            ),
    decreases order.len(),
{
    let r = place(order, keys, i);
    if order.len() == 0 {
    } else if keys[order.last()] <= keys[i] {
        assert forall|a: int| 0 <= a < order.len() + 1 implies 0 <= #[trigger] r[a] <= i && (r[a]
            == i || order.contains(r[a])) by {
            if a < order.len() {
                assert(r[a] == order[a]);
            }
        }
        assert forall|a: int, b: int| 0 <= a < b < order.len() + 1 implies precedes(
            keys,
            #[trigger] r[a],
            #[trigger] r[b],
        ) by {
            if b < order.len() {
                assert(precedes(keys, order[a], order[b]));
            } else {
                let last = order.len() - 1;
                if a < last {
                    assert(precedes(keys, order[a], order[last]));
                }
            }
        }
    } else {
        let init = order.drop_last();
        let p = place(init, keys, i);
        assert forall|a: int, b: int| 0 <= a < b < init.len() implies precedes(
            keys,
            #[trigger] init[a],
            #[trigger] init[b],
        ) by {
            assert(precedes(keys, order[a], order[b]));
        }
        assert forall|a: int| 0 <= a < init.len() implies 0 <= #[trigger] init[a] < i by {
            assert(0 <= order[a] < i);
        }
        lemma_place(init, keys, i);
        assert(r == p.push(order.last()));
        let last = order.len() - 1;
        assert forall|a: int| 0 <= a < order.len() + 1 implies 0 <= #[trigger] r[a] <= i && (r[a]
            == i || order.contains(r[a])) by {
            if a < p.len() {
                assert(r[a] == p[a]);
                if p[a] != i {
                    let k = choose|k: int| 0 <= k < init.len() && init[k] == p[a];
                    assert(order[k] == r[a]);
                }
            } else {
                assert(order[last] == r[a]);
            }
        }
        assert forall|a: int, b: int| 0 <= a < b < order.len() + 1 implies precedes(
            keys,
            #[trigger] r[a],
            #[trigger] r[b],
        ) by {
            if b < p.len() {
                assert(precedes(keys, p[a], p[b]));
            } else {
                assert(r[b] == order[last]);
                assert(r[a] == p[a]);
                if p[a] != i {
                    let k = choose|k: int| 0 <= k < init.len() && init[k] == p[a];
                    assert(order[k] == p[a]);
                    assert(precedes(keys, order[k], order[last]));
                }
            }
        }
    }
}

/// Placing an index keeps the others and adds it.
pub proof fn lemma_place_covers(order: Seq<int>, keys: Seq<u64>, i: int)
    ensures
        place(order, keys, i).contains(i),
        forall|x: int| order.contains(x) ==> #[trigger] place(order, keys, i).contains(x),
    decreases order.len(),
{
    let r = place(order, keys, i);
    if order.len() == 0 {
        assert(r[0] == i);
    } else if keys[order.last()] <= keys[i] {
        assert(r[order.len() as int] == i);
        assert forall|x: int| order.contains(x) implies #[trigger] r.contains(x) by {
            let k = choose|k: int| 0 <= k < order.len() && order[k] == x;
            assert(r[k] == x);
        }
    } else {
        let init = order.drop_last();
        lemma_place_covers(init, keys, i);
        let p = place(init, keys, i);
        assert(r == p.push(order.last()));
        let a = choose|a: int| 0 <= a < p.len() && p[a] == i;
        assert(r[a] == i);
        assert forall|x: int| order.contains(x) implies #[trigger] r.contains(x) by {
            let k = choose|k: int| 0 <= k < order.len() && order[k] == x;
            if k < init.len() {
                assert(init[k] == x);
                assert(p.contains(x));
                let b = choose|b: int| 0 <= b < p.len() && p[b] == x;
                assert(r[b] == x);
            } else {
                assert(r[p.len() as int] == x);
            }
        }
    }
}

/// The stable order leaves no position out.
pub proof fn lemma_order_covers(keys: Seq<u64>, i: int)
    requires
        0 <= i < keys.len(),
    ensures
        stable_order(keys).contains(i),
    decreases keys.len(),
{
    let n = keys.len() - 1;
    lemma_place_covers(stable_order(keys.drop_last()), keys, n);
    if i < n {
        lemma_order_covers(keys.drop_last(), i);
    }
}

/// The stable order lists every position once, by ascending key, equal keys by position.
pub proof fn law_stable_order(keys: Seq<u64>)
    ensures
        is_stable_order(keys, stable_order(keys)),
    decreases keys.len(),
{
    if keys.len() > 0 {
        let init = keys.drop_last();
        law_stable_order(init);
        let o = stable_order(init);
        assert forall|a: int, b: int| 0 <= a < b < o.len() implies precedes(
            keys,
            #[trigger] o[a],
            #[trigger] o[b],
        ) by {
            assert(precedes(init, o[a], o[b]));
        }
        assert forall|a: int| 0 <= a < o.len() implies 0 <= #[trigger] o[a] < keys.len() - 1 by {
            assert(0 <= o[a] < init.len());
        }
        lemma_place(o, keys, keys.len() - 1);
    }
}

proof fn lemma_place_at(order: Seq<int>, keys: Seq<u64>, i: int, p: int)
    requires
        0 <= p <= order.len(),
        p > 0 ==> keys[order[p - 1]] <= keys[i],
        forall|q: int| p <= q < order.len() ==> keys[#[trigger] order[q]] > keys[i],
    ensures
        place(order, keys, i) == order.insert(p, i),
    decreases order.len(),
{
    if order.len() == 0 {
        assert(place(order, keys, i) =~= order.insert(p, i));
    } else if p == order.len() {
        assert(order.insert(p, i) =~= order.push(i));
    } else {
        assert(keys[order[order.len() - 1]] > keys[i]);
        let init = order.drop_last();
        lemma_place_at(init, keys, i, p);
        assert(init.insert(p, i).push(order.last()) =~= order.insert(p, i));
    }
}

/// Positions as mathematical integers.
pub open spec fn positions(v: Seq<usize>) -> Seq<int> {
    Seq::new(v.len(), |i: int| v[i] as int)
}

/// The positions of `keys` in ascending order of the keys; equal keys keep their order.
pub fn sorted_order(keys: &Vec<u64>) -> (r: Vec<usize>)
    ensures
        positions(r@) == stable_order(keys@),
        is_stable_order(keys@, stable_order(keys@)),
{
    let mut order: Vec<usize> = Vec::new();
    let mut i: usize = 0;
    assert(positions(order@) =~= stable_order(keys@.take(0)));
    while i < keys.len()
        invariant
            0 <= i <= keys@.len(),
            positions(order@) == stable_order(keys@.take(i as int)),
            order@.len() == i,
            forall|a: int| 0 <= a < order@.len() ==> #[trigger] order@[a] < i,
        decreases keys@.len() - i,
    {
        let k: u64 = keys[i];
        let mut p: usize = order.len();
        while p > 0 && keys[order[p - 1]] > k
            invariant
                0 <= p <= order@.len(),
                i < keys@.len(),
                k == keys@[i as int],
                order@.len() == i,
                forall|a: int| 0 <= a < order@.len() ==> #[trigger] order@[a] < i,
                forall|q: int| p <= q < order@.len() ==> keys@[#[trigger] order@[q] as int] > k,
            decreases p,
        {
            p = p - 1;
        }
        let ghost before = order@;
        order.insert(p, i);
        proof {
            let next = keys@.take(i as int + 1);
            assert(next.drop_last() =~= keys@.take(i as int));
            let o = positions(before);
            law_stable_order(keys@.take(i as int));
            assert forall|q: int| p <= q < o.len() implies next[#[trigger] o[q]] > next[i as int] by {
                assert(keys@[before[q] as int] > k);
            }
            lemma_place_at(o, next, i as int, p as int);
            assert(positions(order@) =~= o.insert(p as int, i as int));
            assert forall|a: int| 0 <= a < order@.len() implies #[trigger] order@[a] < i + 1 by {
                if a < p {
                    assert(order@[a] == before[a]);
                } else if a > p {
                    assert(order@[a] == before[a - 1]);
                }
            }
        }
        i = i + 1;
    }
    proof {
        assert(keys@.take(keys@.len() as int) =~= keys@);
        law_stable_order(keys@);
    }
    order
}

/// The items in the order given by positions that are all different.
pub fn arrange<T>(items: Vec<T>, order: &Vec<usize>) -> (r: Vec<T>)
    requires
        forall|a: int| 0 <= a < order@.len() ==> #[trigger] order@[a] < items@.len(),
        order@.no_duplicates(),
    ensures
        r@ == arranged(items@, positions(order@)),
{
    let ghost all = items@;
    let n: usize = items.len();
    let mut items = items;
    // The item at position `i` waits in slot `n - 1 - i`.
    let mut slots: Vec<Option<T>> = Vec::new();
    while items.len() > 0
        invariant
            n == all.len(),
            slots@.len() + items@.len() == n,
            items@ == all.take(items@.len() as int),
            forall|j: int| 0 <= j < slots@.len() ==> #[trigger] slots@[j] == Some(all[n - 1 - j]),
        decreases items@.len(),
    {
        let ghost before = items@;
        let item = items.pop();
        assert(items@ =~= all.take(items@.len() as int));
        slots.push(item);
    }
    let mut out: Vec<T> = Vec::new();
    let mut k: usize = 0;
    while k < order.len()
        invariant
            0 <= k <= order@.len(),
            n == all.len(),
            slots@.len() == n,
            forall|a: int| 0 <= a < order@.len() ==> #[trigger] order@[a] < n,
            order@.no_duplicates(),
            out@.len() == k,
            forall|j: int| 0 <= j < k ==> #[trigger] out@[j] == all[order@[j] as int],
            forall|j: int|
                k <= j < order@.len() ==> slots@[n - 1 - #[trigger] order@[j]] == Some(
                    all[order@[j] as int],
                ),
        decreases order@.len() - k,
    {
        assert(order@[k as int] < n);
        let at: usize = n - order[k] - 1;
        let ghost before = slots@;
        let item = slots[at].take();
        assert forall|j: int| k + 1 <= j < order@.len() implies slots@[n - 1 - #[trigger] order@[j]]
            == Some(all[order@[j] as int]) by {
            assert(order@[j] != order@[k as int]);
            assert(before[n - 1 - order@[j]] == Some(all[order@[j] as int]));
        }
        assert(before[n - 1 - order@[k as int]] == Some(all[order@[k as int] as int]));
        out.push(item.unwrap());
        k = k + 1;
    }
    assert(out@ =~= arranged(all, positions(order@)));
    out
}

/// The positions of a stable order are all different.
pub proof fn lemma_order_distinct(keys: Seq<u64>, order: Seq<usize>)
    requires
        is_stable_order(keys, positions(order)),
    ensures
        order.no_duplicates(),
        forall|a: int| 0 <= a < order.len() ==> #[trigger] order[a] < keys.len(),
{
    let o = positions(order);
    assert forall|a: int, b: int| 0 <= a < order.len() && 0 <= b < order.len() && a != b implies
        order[a] != order[b] by {
        if a < b {
            assert(precedes(keys, o[a], o[b]));
        } else {
            assert(precedes(keys, o[b], o[a]));
        }
    }
    assert forall|a: int| 0 <= a < order.len() implies #[trigger] order[a] < keys.len() by {
        assert(0 <= o[a] < keys.len());
    }
}

/// A list put in the order of keys holds the same items, and their keys ascend.
pub proof fn lemma_arranged<T>(s: Seq<T>, keys: Seq<u64>)
    requires
        s.len() == keys.len(),
    ensures
        arranged(s, stable_order(keys)).len() == s.len(),
        forall|k: int|
            0 <= k < s.len() ==> arranged(s, stable_order(keys)).contains(#[trigger] s[k]),
        forall|i: int|
            0 <= i < s.len() ==> 0 <= #[trigger] stable_order(keys)[i] < s.len() && arranged(
                s,
                stable_order(keys),
            )[i] == s[stable_order(keys)[i]],
        forall|i: int, j: int|
            0 <= i < j < s.len() ==> keys[#[trigger] stable_order(keys)[i]]
                <= keys[#[trigger] stable_order(keys)[j]],
{
    let o = stable_order(keys);
    let r = arranged(s, o);
    law_stable_order(keys);
    assert forall|k: int| 0 <= k < s.len() implies r.contains(#[trigger] s[k]) by {
        lemma_order_covers(keys, k);
        let m = choose|m: int| 0 <= m < o.len() && o[m] == k;
        assert(r[m] == s[k]);
    }
    assert forall|i: int, j: int| 0 <= i < j < s.len() implies keys[#[trigger] o[i]]
        <= keys[#[trigger] o[j]] by {
        assert(precedes(keys, o[i], o[j]));
    }
}

} // verus!
