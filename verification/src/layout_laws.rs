//! What every layout mutation keeps, and how the leaves move.

use crate::layout::{
    clamped, focus_forest, focus_tree, forest_leaves, has_leaf_child, is_first_leaf, leaf_child,
    pair, ratios_tree, remove_forest, remove_tree, resized, split_forest, split_tree, swap_tree,
    traded, SplitDir, Tree, MIN_RATIO,
};
use crate::ratios::{
    law_no_weights_share_equally, law_normalized_by_largest_remainder, law_normalized_fixpoint,
    law_normalized_keeps_quotas, law_normalized_sums_to_1000, lemma_sum_element, lemma_sum_nonneg,
    lemma_sum_update, normalized, quota, sum,
};
use vstd::prelude::*;

verus! {

proof fn lemma_leaf_child(cs: Seq<Tree>, p: u32)
    requires
        has_leaf_child(cs, p),
    ensures
        is_first_leaf(cs, p, leaf_child(cs, p)),
{
    let w = choose|i: int| 0 <= i < cs.len() && #[trigger] cs[i] == Tree::Leaf(p);
    lemma_first_leaf_upto(cs, p, w);
}

proof fn lemma_first_leaf_upto(cs: Seq<Tree>, p: u32, k: int)
    requires
        0 <= k < cs.len(),
        cs[k] == Tree::Leaf(p),
    ensures
        exists|i: int| is_first_leaf(cs, p, i),
    decreases k,
{
    if exists|j: int| 0 <= j < k && #[trigger] cs[j] == Tree::Leaf(p) {
        let j = choose|j: int| 0 <= j < k && #[trigger] cs[j] == Tree::Leaf(p);
        lemma_first_leaf_upto(cs, p, j);
    } else {
        assert(is_first_leaf(cs, p, k));
    }
}

proof fn lemma_forest_concat(a: Seq<Tree>, b: Seq<Tree>)
    ensures
        forest_leaves(a + b) == forest_leaves(a) + forest_leaves(b),
    decreases b.len(),
{
    if b.len() == 0 {
        assert(a + b =~= a);
        assert(forest_leaves(a) + forest_leaves(b) =~= forest_leaves(a));
    } else {
        let ab = a + b;
        let b0 = b.subrange(0, b.len() - 1);
        assert(ab.subrange(0, ab.len() - 1) =~= a + b0);
        assert(ab[ab.len() - 1] == b[b.len() - 1]);
        lemma_forest_concat(a, b0);
        assert(forest_leaves(a + b) =~= forest_leaves(a) + forest_leaves(b));
    }
}

proof fn lemma_forest_one(t: Tree)
    ensures
        forest_leaves(seq![t]) == t.leaves(),
{
    let s = seq![t];
    let init = s.subrange(0, s.len() - 1);
    assert(init.len() == 0);
    assert(forest_leaves(init) =~= Seq::<u32>::empty());
    assert(s[s.len() - 1] == t);
    assert(forest_leaves(s) =~= forest_leaves(init) + t.leaves());
    assert(forest_leaves(s) =~= t.leaves());
}

/// The leaves of a row of trees, cut at the tree at `i`.
proof fn lemma_forest_cut(cs: Seq<Tree>, i: int)
    requires
        0 <= i < cs.len(),
    ensures
        forest_leaves(cs) == forest_leaves(cs.subrange(0, i)) + cs[i].leaves() + forest_leaves(
            cs.subrange(i + 1, cs.len() as int),
        ),
{
    let pre = cs.subrange(0, i);
    let suf = cs.subrange(i + 1, cs.len() as int);
    assert(cs =~= pre + seq![cs[i]] + suf);
    lemma_forest_concat(pre + seq![cs[i]], suf);
    lemma_forest_concat(pre, seq![cs[i]]);
    lemma_forest_one(cs[i]);
}

proof fn lemma_forest_update(cs: Seq<Tree>, i: int, c: Tree)
    requires
        0 <= i < cs.len(),
    ensures
        forest_leaves(cs.update(i, c)) == forest_leaves(cs.subrange(0, i)) + c.leaves()
            + forest_leaves(cs.subrange(i + 1, cs.len() as int)),
{
    let u = cs.update(i, c);
    lemma_forest_cut(u, i);
    assert(u.subrange(0, i) =~= cs.subrange(0, i));
    assert(u.subrange(i + 1, u.len() as int) =~= cs.subrange(i + 1, cs.len() as int));
}

proof fn lemma_forest_contains(cs: Seq<Tree>, p: u32)
    ensures
        forest_leaves(cs).contains(p) <==> exists|i: int|
            0 <= i < cs.len() && (#[trigger] cs[i]).leaves().contains(p),
    decreases cs.len(),
{
    if cs.len() > 0 {
        let init = cs.subrange(0, cs.len() - 1);
        lemma_forest_contains(init, p);
        let l = cs[cs.len() - 1].leaves();
        let f = forest_leaves(init);
        assert((f + l).contains(p) <==> f.contains(p) || l.contains(p)) by {
            if f.contains(p) {
                let k = choose|k: int| 0 <= k < f.len() && f[k] == p;
                assert((f + l)[k] == p);
            }
            if l.contains(p) {
                let k = choose|k: int| 0 <= k < l.len() && l[k] == p;
                assert((f + l)[f.len() + k] == p);
            }
            if (f + l).contains(p) {
                let k = choose|k: int| 0 <= k < (f + l).len() && (f + l)[k] == p;
                if k < f.len() {
                    assert(f[k] == p);
                } else {
                    assert(l[k - f.len()] == p);
                }
            }
        }
        if forest_leaves(cs).contains(p) {
            if f.contains(p) {
                let i = choose|i: int|
                    0 <= i < init.len() && (#[trigger] init[i]).leaves().contains(p);
                assert(cs[i].leaves().contains(p));
            }
        }
        if exists|i: int| 0 <= i < cs.len() && (#[trigger] cs[i]).leaves().contains(p) {
            let i = choose|i: int| 0 <= i < cs.len() && (#[trigger] cs[i]).leaves().contains(p);
            if i < init.len() {
                assert(init[i].leaves().contains(p));
            }
        }
    }
}

proof fn lemma_split_forest_at(cs: Seq<Tree>, from: u32, new: u32, dir: SplitDir)
    ensures
        match split_forest(cs, from, new, dir) {
            Some((i, c)) => 0 <= i < cs.len() && split_tree(cs[i], from, new, dir) == Some(c),
            None => forall|i: int|
                0 <= i < cs.len() ==> split_tree(#[trigger] cs[i], from, new, dir) is None,
        },
    decreases cs.len(),
{
    if cs.len() > 0 {
        let init = cs.subrange(0, cs.len() - 1);
        lemma_split_forest_at(init, from, new, dir);
        if split_forest(cs, from, new, dir) is None {
            assert forall|i: int| 0 <= i < cs.len() implies split_tree(
                #[trigger] cs[i],
                from,
                new,
                dir,
            ) is None by {
                if i < init.len() {
                    assert(init[i] == cs[i]);
                }
            }
        }
    }
}

proof fn lemma_remove_forest_at(cs: Seq<Tree>, p: u32)
    ensures
        match remove_forest(cs, p) {
            Some((i, c)) => 0 <= i < cs.len() && remove_tree(cs[i], p) == Some(c),
            None => forall|i: int| 0 <= i < cs.len() ==> remove_tree(#[trigger] cs[i], p) is None,
        },
    decreases cs.len(),
{
    if cs.len() > 0 {
        let init = cs.subrange(0, cs.len() - 1);
        lemma_remove_forest_at(init, p);
        if remove_forest(cs, p) is None {
            assert forall|i: int| 0 <= i < cs.len() implies remove_tree(#[trigger] cs[i], p)
                is None by {
                if i < init.len() {
                    assert(init[i] == cs[i]);
                }
            }
        }
    }
}

proof fn lemma_focus_forest_at(cs: Seq<Tree>, p: u32)
    ensures
        match focus_forest(cs, p) {
            Some(f) => exists|i: int| 0 <= i < cs.len() && focus_tree(#[trigger] cs[i], p) == Some(f),
            None => forall|i: int| 0 <= i < cs.len() ==> focus_tree(#[trigger] cs[i], p) is None,
        },
    decreases cs.len(),
{
    if cs.len() > 0 {
        let init = cs.subrange(0, cs.len() - 1);
        lemma_focus_forest_at(init, p);
        match focus_forest(init, p) {
            Some(f) => {
                let i = choose|i: int|
                    0 <= i < init.len() && focus_tree(#[trigger] init[i], p) == Some(f);
                assert(focus_tree(cs[i], p) == Some(f));
            },
            None => {
                assert forall|i: int| 0 <= i < cs.len() - 1 implies focus_tree(#[trigger] cs[i], p)
                    is None by {
                    assert(init[i] == cs[i]);
                }
                match focus_tree(cs[cs.len() - 1], p) {
                    Some(f) => {
                        assert(focus_tree(cs[cs.len() - 1], p) == Some(f));
                    },
                    None => {},
                }
            },
        }
    }
}

/// Splitting keeps a tree well formed: every split still has as many weights as children, and
/// they sum to 1000.
pub proof fn law_split_keeps_well_formed(t: Tree, from: u32, new: u32, dir: SplitDir)
    requires
        t.well_formed(),
    ensures
        split_tree(t, from, new, dir) matches Some(u) ==> u.well_formed(),
    decreases t,
{
    lemma_pair_well_formed(dir, from, new);
    match t {
        Tree::Leaf(_) => {},
        Tree::Split(d, rs, cs) => {
            if has_leaf_child(cs, from) {
                lemma_leaf_child(cs, from);
                let i = leaf_child(cs, from);
                if d == dir {
                    let half = (rs[i] / 2) as u16;
                    law_normalized_sums_to_1000(
                        rs.update(i, (rs[i] - half) as u16).insert(i + 1, half),
                    );
                    let ncs = cs.insert(i + 1, Tree::Leaf(new));
                    assert forall|k: int| 0 <= k < ncs.len() implies (
                    #[trigger] ncs[k]).well_formed() by {
                        if k <= i {
                            assert(ncs[k] == cs[k]);
                        } else if k > i + 1 {
                            assert(ncs[k] == cs[k - 1]);
                        }
                    }
                } else {
                    let ncs = cs.update(i, pair(dir, from, new));
                    assert forall|k: int| 0 <= k < ncs.len() implies (
                    #[trigger] ncs[k]).well_formed() by {
                        if k != i {
                            assert(ncs[k] == cs[k]);
                        }
                    }
                }
            } else {
                lemma_split_forest_at(cs, from, new, dir);
                match split_forest(cs, from, new, dir) {
                    Some((i, c)) => {
                        assert(cs[i].well_formed());
                        law_split_keeps_well_formed(cs[i], from, new, dir);
                        let ncs = cs.update(i, c);
                        assert forall|k: int| 0 <= k < ncs.len() implies (
                        #[trigger] ncs[k]).well_formed() by {
                            if k != i {
                                assert(ncs[k] == cs[k]);
                            }
                        }
                    },
                    None => {},
                }
            }
        },
    }
}

proof fn lemma_pair_well_formed(dir: SplitDir, a: u32, b: u32)
    ensures
        pair(dir, a, b).well_formed(),
{
    let rs = seq![500u16, 500u16];
    let one = rs.drop_last();
    assert(one.len() == 1 && one.last() == 500);
    assert(sum(one.drop_last()) == 0);
    assert(sum(one) == 500);
    assert(sum(rs) == 1000);
    let cs = seq![Tree::Leaf(a), Tree::Leaf(b)];
    assert forall|k: int| 0 <= k < cs.len() implies (#[trigger] cs[k]).well_formed() by {}
}

/// Removing a pane keeps a tree well formed.
pub proof fn law_remove_keeps_well_formed(t: Tree, p: u32)
    requires
        t.well_formed(),
    ensures
        remove_tree(t, p) matches Some(u) ==> u.well_formed(),
    decreases t,
{
    match t {
        Tree::Leaf(_) => {},
        Tree::Split(d, rs, cs) => {
            if has_leaf_child(cs, p) {
                lemma_leaf_child(cs, p);
                let i = leaf_child(cs, p);
                let rest = cs.remove(i);
                law_normalized_sums_to_1000(rs.remove(i));
                assert forall|k: int| 0 <= k < rest.len() implies (
                #[trigger] rest[k]).well_formed() by {
                    if k < i {
                        assert(rest[k] == cs[k]);
                    } else {
                        assert(rest[k] == cs[k + 1]);
                    }
                }
            } else {
                lemma_remove_forest_at(cs, p);
                match remove_forest(cs, p) {
                    Some((i, c)) => {
                        assert(cs[i].well_formed());
                        law_remove_keeps_well_formed(cs[i], p);
                        let ncs = cs.update(i, c);
                        assert forall|k: int| 0 <= k < ncs.len() implies (
                        #[trigger] ncs[k]).well_formed() by {
                            if k != i {
                                assert(ncs[k] == cs[k]);
                            }
                        }
                    },
                    None => {},
                }
            }
        },
    }
}

/// Removing a leaf keeps one weight per child.
pub proof fn lemma_remove_keeps_sized(t: Tree, p: u32)
    requires
        t.sized(),
    ensures
        remove_tree(t, p) matches Some(u) ==> u.sized(),
    decreases t,
{
    match t {
        Tree::Leaf(_) => {},
        Tree::Split(d, rs, cs) => {
            if has_leaf_child(cs, p) {
                lemma_leaf_child(cs, p);
                let i = leaf_child(cs, p);
                let rest = cs.remove(i);
                let few = rs.remove(i);
                if few.len() > 0 {
                    law_normalized_sums_to_1000(few);
                }
                assert forall|k: int| 0 <= k < rest.len() implies (#[trigger] rest[k]).sized() by {
                    if k < i {
                        assert(rest[k] == cs[k]);
                    } else {
                        assert(rest[k] == cs[k + 1]);
                    }
                }
            } else {
                lemma_remove_forest_at(cs, p);
                match remove_forest(cs, p) {
                    Some((i, c)) => {
                        assert(cs[i].sized());
                        lemma_remove_keeps_sized(cs[i], p);
                        let ncs = cs.update(i, c);
                        assert forall|k: int| 0 <= k < ncs.len() implies (
                        #[trigger] ncs[k]).sized() by {
                            if k != i {
                                assert(ncs[k] == cs[k]);
                            }
                        }
                    },
                    None => {},
                }
            }
        },
    }
}

/// Setting weights keeps a tree well formed and its leaves where they are.
pub proof fn law_ratios_keep_well_formed(t: Tree, path: Seq<u32>, new: Seq<u16>)
    requires
        t.well_formed(),
    ensures
        ratios_tree(t, path, new) matches Some(u) ==> u.well_formed() && u.leaves() == t.leaves(),
    decreases path.len(),
{
    match t {
        Tree::Leaf(_) => {},
        Tree::Split(d, rs, cs) => {
            if path.len() == 0 {
                law_normalized_sums_to_1000(clamped(new));
                law_normalized_sums_to_1000(clamped(normalized(clamped(new))));
            } else if path[0] < cs.len() {
                let i = path[0] as int;
                assert(cs[i].well_formed());
                law_ratios_keep_well_formed(cs[i], path.drop_first(), new);
                match ratios_tree(cs[i], path.drop_first(), new) {
                    Some(c) => {
                        let ncs = cs.update(i, c);
                        assert forall|k: int| 0 <= k < ncs.len() implies (
                        #[trigger] ncs[k]).well_formed() by {
                            if k != i {
                                assert(ncs[k] == cs[k]);
                            }
                        }
                        lemma_forest_cut(cs, i);
                        lemma_forest_update(cs, i, c);
                    },
                    None => {},
                }
            }
        },
    }
}

/// `after` is `before` with `new` put right behind the occurrence of `from` at `k`.
pub open spec fn inserted_behind(
    before: Seq<u32>,
    after: Seq<u32>,
    from: u32,
    new: u32,
    k: int,
) -> bool {
    &&& 0 <= k < before.len()
    &&& before[k] == from
    &&& after == before.insert(k + 1, new)
}

/// `after` is `before` without the occurrence of `p` at `k`.
pub open spec fn removed_at(before: Seq<u32>, after: Seq<u32>, p: u32, k: int) -> bool {
    &&& 0 <= k < before.len()
    &&& before[k] == p
    &&& after == before.remove(k)
}

/// A split succeeds exactly when the target is a leaf, and puts the new pane right after it,
/// moving no other leaf.
pub proof fn law_split_leaves(t: Tree, from: u32, new: u32, dir: SplitDir)
    ensures
        split_tree(t, from, new, dir) is Some <==> t.leaves().contains(from),
        split_tree(t, from, new, dir) matches Some(u) ==> exists|k: int|
            inserted_behind(t.leaves(), u.leaves(), from, new, k),
    decreases t,
{
    match t {
        Tree::Leaf(p) => {
            lemma_pair_leaves(dir, from, new);
            let l = t.leaves();
            assert(l =~= seq![p]);
            if p == from {
                assert(l[0] == from);
                assert(seq![from, new] =~= l.insert(1, new));
                assert(inserted_behind(l, seq![from, new], from, new, 0));
            } else if l.contains(from) {
                let k = choose|k: int| 0 <= k < l.len() && l[k] == from;
                assert(k == 0);
            }
        },
        Tree::Split(d, rs, cs) => {
            lemma_forest_contains(cs, from);
            if has_leaf_child(cs, from) {
                lemma_split_leaves_here(d, rs, cs, from, new, dir);
            } else {
                lemma_split_forest_at(cs, from, new, dir);
                match split_forest(cs, from, new, dir) {
                    Some((i, c)) => {
                        law_split_leaves(cs[i], from, new, dir);
                        let l = cs[i].leaves();
                        let j = choose|k: int| inserted_behind(l, c.leaves(), from, new, k);
                        lemma_forest_cut(cs, i);
                        lemma_forest_update(cs, i, c);
                        let pre = forest_leaves(cs.subrange(0, i));
                        let suf = forest_leaves(cs.subrange(i + 1, cs.len() as int));
                        lemma_insert_inside(pre, l, suf, c.leaves(), from, new, j);
                        let u = Tree::Split(d, rs, cs.update(i, c));
                        assert(u.leaves() == forest_leaves(cs.update(i, c)));
                        assert(inserted_behind(t.leaves(), u.leaves(), from, new, pre.len() + j));
                        assert(cs[i].leaves().contains(from));
                    },
                    None => {
                        assert forall|i: int| 0 <= i < cs.len() implies !(
                        #[trigger] cs[i]).leaves().contains(from) by {
                            law_split_leaves(cs[i], from, new, dir);
                        }
                    },
                }
            }
        },
    }
}

proof fn lemma_insert_inside(
    pre: Seq<u32>,
    l: Seq<u32>,
    suf: Seq<u32>,
    after: Seq<u32>,
    from: u32,
    new: u32,
    j: int,
)
    requires
        inserted_behind(l, after, from, new, j),
    ensures
        inserted_behind(pre + l + suf, pre + after + suf, from, new, pre.len() + j),
{
    let k = pre.len() + j;
    assert((pre + l + suf)[k] == from);
    assert(pre + after + suf =~= (pre + l + suf).insert(k + 1, new));
}

proof fn lemma_remove_inside(
    pre: Seq<u32>,
    l: Seq<u32>,
    suf: Seq<u32>,
    after: Seq<u32>,
    p: u32,
    j: int,
)
    requires
        removed_at(l, after, p, j),
    ensures
        removed_at(pre + l + suf, pre + after + suf, p, pre.len() + j),
{
    let k = pre.len() + j;
    assert((pre + l + suf)[k] == p);
    assert(pre + after + suf =~= (pre + l + suf).remove(k));
}

proof fn lemma_split_leaves_here(
    d: SplitDir,
    rs: Seq<u16>,
    cs: Seq<Tree>,
    from: u32,
    new: u32,
    dir: SplitDir,
)
    requires
        has_leaf_child(cs, from),
    ensures
        forest_leaves(cs).contains(from),
        split_tree(Tree::Split(d, rs, cs), from, new, dir) matches Some(u) && exists|k: int|
            inserted_behind(forest_leaves(cs), u.leaves(), from, new, k),
{
    lemma_leaf_child(cs, from);
    let i = leaf_child(cs, from);
    lemma_forest_cut(cs, i);
    let pre = forest_leaves(cs.subrange(0, i));
    let suf = forest_leaves(cs.subrange(i + 1, cs.len() as int));
    let l = cs[i].leaves();
    assert(l =~= seq![from]);
    assert(l[0] == from);
    assert(seq![from, new] =~= l.insert(1, new));
    assert(inserted_behind(l, seq![from, new], from, new, 0));
    lemma_insert_inside(pre, l, suf, seq![from, new], from, new, 0);
    assert(forest_leaves(cs)[pre.len() as int] == from);
    let u = split_tree(Tree::Split(d, rs, cs), from, new, dir)->0;
    if d == dir {
        let ncs = cs.insert(i + 1, Tree::Leaf(new));
        lemma_forest_cut(ncs, i + 1);
        let upto = cs.subrange(0, i + 1);
        assert(ncs.subrange(0, i + 1) =~= upto);
        assert(ncs.subrange(i + 2, ncs.len() as int) =~= cs.subrange(i + 1, cs.len() as int));
        assert(upto.subrange(0, upto.len() - 1) =~= cs.subrange(0, i));
        assert(forest_leaves(upto) =~= pre + seq![from]);
        assert(Tree::Leaf(new).leaves() =~= seq![new]);
        assert(u.leaves() =~= pre + seq![from, new] + suf);
    } else {
        lemma_forest_update(cs, i, pair(dir, from, new));
        lemma_pair_leaves(dir, from, new);
        assert(u.leaves() =~= pre + seq![from, new] + suf);
    }
    assert(inserted_behind(forest_leaves(cs), u.leaves(), from, new, pre.len() as int));
}

proof fn lemma_pair_leaves(dir: SplitDir, a: u32, b: u32)
    ensures
        pair(dir, a, b).leaves() == seq![a, b],
{
    let cs = seq![Tree::Leaf(a), Tree::Leaf(b)];
    lemma_forest_cut(cs, 0);
    assert(cs.subrange(0, 0) =~= Seq::<Tree>::empty());
    assert(cs.subrange(1, 2) =~= seq![Tree::Leaf(b)]);
    lemma_forest_one(Tree::Leaf(b));
    assert(forest_leaves(cs) =~= seq![a, b]);
}

/// A removal succeeds exactly when the pane is one leaf among several, and takes just that leaf
/// away, moving no other.
pub proof fn law_remove_leaves(t: Tree, p: u32)
    requires
        t.well_formed(),
    ensures
        remove_tree(t, p) is Some <==> t is Split && t.leaves().contains(p),
        remove_tree(t, p) matches Some(u) ==> exists|k: int|
            removed_at(t.leaves(), u.leaves(), p, k),
    decreases t,
{
    match t {
        Tree::Leaf(_) => {},
        Tree::Split(d, rs, cs) => {
            lemma_forest_contains(cs, p);
            if has_leaf_child(cs, p) {
                lemma_remove_leaves_here(d, rs, cs, p);
            } else {
                lemma_remove_forest_at(cs, p);
                match remove_forest(cs, p) {
                    Some((i, c)) => {
                        assert(cs[i].well_formed());
                        law_remove_leaves(cs[i], p);
                        let l = cs[i].leaves();
                        let j = choose|k: int| removed_at(l, c.leaves(), p, k);
                        lemma_forest_cut(cs, i);
                        lemma_forest_update(cs, i, c);
                        let pre = forest_leaves(cs.subrange(0, i));
                        let suf = forest_leaves(cs.subrange(i + 1, cs.len() as int));
                        lemma_remove_inside(pre, l, suf, c.leaves(), p, j);
                        let u = Tree::Split(d, rs, cs.update(i, c));
                        assert(u.leaves() == forest_leaves(cs.update(i, c)));
                        assert(removed_at(t.leaves(), u.leaves(), p, pre.len() + j));
                        assert(cs[i].leaves().contains(p));
                    },
                    None => {
                        assert forall|i: int| 0 <= i < cs.len() implies !(
                        #[trigger] cs[i]).leaves().contains(p) by {
                            assert(cs[i].well_formed());
                            law_remove_leaves(cs[i], p);
                            match cs[i] {
                                Tree::Leaf(q) => {
                                    if cs[i].leaves().contains(p) {
                                        let l = cs[i].leaves();
                                        let k = choose|k: int| 0 <= k < l.len() && l[k] == p;
                                        assert(q == p);
                                    }
                                },
                                Tree::Split(_, _, _) => {},
                            }
                        }
                    },
                }
            }
        },
    }
}

proof fn lemma_remove_leaves_here(d: SplitDir, rs: Seq<u16>, cs: Seq<Tree>, p: u32)
    requires
        has_leaf_child(cs, p),
    ensures
        forest_leaves(cs).contains(p),
        remove_tree(Tree::Split(d, rs, cs), p) matches Some(u) && exists|k: int|
            removed_at(forest_leaves(cs), u.leaves(), p, k),
{
    lemma_leaf_child(cs, p);
    let i = leaf_child(cs, p);
    lemma_forest_cut(cs, i);
    let pre = forest_leaves(cs.subrange(0, i));
    let suf = forest_leaves(cs.subrange(i + 1, cs.len() as int));
    let l = cs[i].leaves();
    assert(l =~= seq![p]);
    assert(l[0] == p);
    assert(Seq::<u32>::empty() =~= l.remove(0));
    assert(removed_at(l, Seq::empty(), p, 0));
    lemma_remove_inside(pre, l, suf, Seq::empty(), p, 0);
    assert(forest_leaves(cs)[pre.len() as int] == p);
    let rest = cs.remove(i);
    assert(rest =~= cs.subrange(0, i) + cs.subrange(i + 1, cs.len() as int));
    lemma_forest_concat(cs.subrange(0, i), cs.subrange(i + 1, cs.len() as int));
    assert(forest_leaves(rest) =~= pre + Seq::<u32>::empty() + suf);
    if rest.len() == 1 {
        assert(rest =~= seq![rest[0]]);
        lemma_forest_one(rest[0]);
    }
    let u = remove_tree(Tree::Split(d, rs, cs), p)->0;
    assert(removed_at(forest_leaves(cs), u.leaves(), p, pre.len() as int));
}

/// Whether a split along `dir` has the leaf `p` as a child of its own.
pub open spec fn parent_splits(t: Tree, p: u32, dir: SplitDir) -> bool
    decreases t,
{
    match t {
        Tree::Leaf(_) => false,
        Tree::Split(d, _, cs) => {
            ||| d == dir && has_leaf_child(cs, p)
            ||| exists|i: int| 0 <= i < cs.len() && parent_splits(#[trigger] cs[i], p, dir)
        },
    }
}

/// Closing a pane right after it was split off gives back the leaves there were before, and the
/// very same tree unless the pane was put beside the other one in a split along the same axis,
/// where both shared their weight anew.
pub proof fn law_remove_undoes_split(t: Tree, from: u32, new: u32, dir: SplitDir)
    requires
        t.well_formed(),
        t.leaves().contains(from),
        !t.leaves().contains(new),
    ensures
        split_tree(t, from, new, dir) is Some,
        remove_tree(split_tree(t, from, new, dir)->0, new) is Some,
        remove_tree(split_tree(t, from, new, dir)->0, new)->0.leaves() == t.leaves(),
        !parent_splits(t, from, dir) ==> remove_tree(split_tree(t, from, new, dir)->0, new) == Some(
            t,
        ),
{
    if !parent_splits(t, from, dir) {
        lemma_remove_undoes_nesting(t, from, new, dir);
    }
    law_split_leaves(t, from, new, dir);
    law_split_keeps_well_formed(t, from, new, dir);
    let u = split_tree(t, from, new, dir)->0;
    let l = t.leaves();
    let k = choose|k: int| inserted_behind(l, u.leaves(), from, new, k);
    assert(u.leaves()[k + 1] == new);
    assert(u.leaves().contains(new));
    assert(u is Split);
    law_remove_leaves(u, new);
    let v = remove_tree(u, new)->0;
    let m = choose|m: int| removed_at(u.leaves(), v.leaves(), new, m);
    if m <= k {
        assert(u.leaves()[m] == l[m]);
    } else if m > k + 1 {
        assert(u.leaves()[m] == l[m - 1]);
    }
    assert(m == k + 1);
    assert(v.leaves() =~= l);
}

/// Splitting across the parent's axis nests a pair, and removing the new pane dissolves it.
proof fn lemma_remove_undoes_nesting(t: Tree, from: u32, new: u32, dir: SplitDir)
    requires
        t.well_formed(),
        !t.leaves().contains(new),
        !parent_splits(t, from, dir),
    ensures
        split_tree(t, from, new, dir) matches Some(u) ==> u is Split && remove_tree(u, new) == Some(
            t,
        ),
    decreases t,
{
    match t {
        Tree::Leaf(p) => {
            if p == from {
                assert(t.leaves()[0] == p);
                lemma_pair_dissolves(dir, from, new);
            }
        },
        Tree::Split(d, rs, cs) => {
            if has_leaf_child(cs, from) {
                lemma_leaf_child(cs, from);
                let i = leaf_child(cs, from);
                assert(cs[i].leaves()[0] == from);
                assert(cs[i].leaves().contains(from));
                lemma_forest_contains(cs, from);
                lemma_pair_dissolves(dir, from, new);
                lemma_remove_from_updated(d, rs, cs, i, pair(dir, from, new), new);
            } else {
                lemma_split_forest_at(cs, from, new, dir);
                if let Some((i, c)) = split_forest(cs, from, new, dir) {
                    lemma_forest_contains(cs, new);
                    assert(!cs[i].leaves().contains(new));
                    assert(!parent_splits(cs[i], from, dir));
                    assert(cs[i].well_formed());
                    lemma_remove_undoes_nesting(cs[i], from, new, dir);
                    lemma_remove_from_updated(d, rs, cs, i, c, new);
                }
            }
        },
    }
}

proof fn lemma_pair_dissolves(dir: SplitDir, from: u32, new: u32)
    requires
        from != new,
    ensures
        remove_tree(pair(dir, from, new), new) == Some(Tree::Leaf(from)),
{
    let cs = seq![Tree::Leaf(from), Tree::Leaf(new)];
    assert(cs[0] == Tree::Leaf(from));
    assert(cs[1] == Tree::Leaf(new));
    lemma_leaf_child(cs, new);
    assert(leaf_child(cs, new) == 1);
    assert(cs.remove(1) =~= seq![Tree::Leaf(from)]);
}

/// A pane that is in one child only is removed from that child.
proof fn lemma_remove_from_updated(
    d: SplitDir,
    rs: Seq<u16>,
    cs: Seq<Tree>,
    i: int,
    c: Tree,
    p: u32,
)
    requires
        0 <= i < cs.len(),
        forall|k: int| 0 <= k < cs.len() ==> (#[trigger] cs[k]).well_formed(),
        !forest_leaves(cs).contains(p),
        c is Split,
        remove_tree(c, p) == Some(cs[i]),
    ensures
        remove_tree(Tree::Split(d, rs, cs.update(i, c)), p) == Some(Tree::Split(d, rs, cs)),
{
    let ncs = cs.update(i, c);
    lemma_forest_contains(cs, p);
    assert forall|k: int| 0 <= k < ncs.len() && k != i implies #[trigger] ncs[k] != Tree::Leaf(p)
        && remove_tree(ncs[k], p) is None by {
        assert(ncs[k] == cs[k]);
        assert(!cs[k].leaves().contains(p));
        law_remove_leaves(cs[k], p);
        if cs[k] == Tree::Leaf(p) {
            assert(cs[k].leaves()[0] == p);
        }
    }
    assert(!has_leaf_child(ncs, p));
    lemma_remove_forest_at(ncs, p);
    assert(ncs[i] == c);
    assert(remove_forest(ncs, p) == Some((i, cs[i])));
    assert(ncs.update(i, cs[i]) =~= cs);
}

/// Exchanging two panes twice gives the tree back, and exchanges them at every leaf.
pub proof fn law_swap_twice(t: Tree, a: u32, b: u32)
    ensures
        swap_tree(swap_tree(t, a, b), a, b) == t,
        swap_tree(t, a, b).leaves() == t.leaves().map_values(|p: u32| traded(p, a, b)),
        t.well_formed() ==> swap_tree(t, a, b).well_formed(),
    decreases t,
{
    let f = |p: u32| traded(p, a, b);
    match t {
        Tree::Leaf(p) => {
            assert(swap_tree(t, a, b).leaves() =~= t.leaves().map_values(f));
        },
        Tree::Split(d, rs, cs) => {
            match swap_tree(t, a, b) {
                Tree::Split(_, _, us) => {
                    match swap_tree(swap_tree(t, a, b), a, b) {
                        Tree::Split(_, _, vs) => {
                            assert forall|i: int| 0 <= i < cs.len() implies vs[i] == cs[i] by {
                                law_swap_twice(cs[i], a, b);
                            }
                            assert(vs =~= cs);
                        },
                        Tree::Leaf(_) => {},
                    }
                    assert forall|i: int| 0 <= i < cs.len() implies #[trigger] us[i] == swap_tree(
                        cs[i],
                        a,
                        b,
                    ) && us[i].leaves() == cs[i].leaves().map_values(f) && (cs[i].well_formed()
                        ==> us[i].well_formed()) by {
                        law_swap_twice(cs[i], a, b);
                    }
                    lemma_forest_map(cs, us, a, b);
                },
                Tree::Leaf(_) => {},
            }
        },
    }
}

proof fn lemma_forest_map(cs: Seq<Tree>, us: Seq<Tree>, a: u32, b: u32)
    requires
        cs.len() == us.len(),
        forall|i: int|
            0 <= i < cs.len() ==> (#[trigger] us[i]).leaves() == cs[i].leaves().map_values(
                |p: u32| traded(p, a, b),
            ),
    ensures
        forest_leaves(us) == forest_leaves(cs).map_values(|p: u32| traded(p, a, b)),
    decreases cs.len(),
{
    let f = |p: u32| traded(p, a, b);
    if cs.len() > 0 {
        let c0 = cs.subrange(0, cs.len() - 1);
        let u0 = us.subrange(0, us.len() - 1);
        assert forall|i: int| 0 <= i < c0.len() implies (#[trigger] u0[i]).leaves()
            == c0[i].leaves().map_values(f) by {
            assert(us[i].leaves() == cs[i].leaves().map_values(f));
        }
        lemma_forest_map(c0, u0, a, b);
        let n = cs.len() - 1;
        assert(us[n].leaves() == cs[n].leaves().map_values(f));
        assert(forest_leaves(us) =~= forest_leaves(cs).map_values(f));
    } else {
        assert(forest_leaves(us) =~= forest_leaves(cs).map_values(f));
    }
}

/// A well-formed tree has at least one leaf.
pub proof fn lemma_has_leaf(t: Tree)
    requires
        t.well_formed(),
    ensures
        t.leaves().len() > 0,
    decreases t,
{
    match t {
        Tree::Leaf(_) => {},
        Tree::Split(_, _, cs) => {
            assert(cs[0].well_formed());
            lemma_has_leaf(cs[0]);
            lemma_forest_cut(cs, 0);
        },
    }
}

/// As long as another pane is left, the pane that receives focus after a removal exists before
/// the removal; where no pane index occurs twice, it is another pane and is still there after.
pub proof fn law_focus_survives_removal(t: Tree, p: u32)
    requires
        t.well_formed(),
        t.leaves().contains(p),
        t is Split,
    ensures
        focus_tree(t, p) matches Some(f) && t.leaves().contains(f),
        t.leaves().no_duplicates() ==> focus_tree(t, p)->0 != p && remove_tree(t, p) is Some
            && remove_tree(t, p)->0.leaves().contains(focus_tree(t, p)->0),
{
    lemma_focus_is_other_leaf(t, p);
    law_remove_leaves(t, p);
    if t.leaves().no_duplicates() {
        let f = focus_tree(t, p)->0;
        let l = t.leaves();
        let u = remove_tree(t, p)->0;
        let k = choose|k: int| removed_at(l, u.leaves(), p, k);
        let m = choose|m: int| 0 <= m < l.len() && l[m] == f;
        assert(m != k);
        if m < k {
            assert(u.leaves()[m] == f);
        } else {
            assert(u.leaves()[m - 1] == f);
        }
    }
}

proof fn lemma_focus_is_other_leaf(t: Tree, p: u32)
    requires
        t.well_formed(),
        t.leaves().contains(p),
        t is Split,
    ensures
        focus_tree(t, p) matches Some(f) && t.leaves().contains(f),
        t.leaves().no_duplicates() ==> focus_tree(t, p)->0 != p,
    decreases t,
{
    match t {
        Tree::Leaf(_) => {},
        Tree::Split(_, _, cs) => {
            let l = forest_leaves(cs);
            if has_leaf_child(cs, p) {
                lemma_leaf_child(cs, p);
                let i = leaf_child(cs, p);
                let s = if i > 0 {
                    i - 1
                } else {
                    1
                };
                assert(cs[s].well_formed());
                lemma_has_leaf(cs[s]);
                let f = cs[s].leaves()[0];
                lemma_forest_cut(cs, s);
                let at = forest_leaves(cs.subrange(0, s)).len() as int;
                assert(l[at] == f);
                if t.leaves().no_duplicates() && f == p {
                    lemma_forest_cut(cs, i);
                    let at_p = forest_leaves(cs.subrange(0, i)).len() as int;
                    assert(cs[i].leaves() =~= seq![p]);
                    assert(l[at_p] == p);
                    assert(at != at_p) by {
                        if i > 0 {
                            let upto = cs.subrange(0, i);
                            assert(upto.subrange(0, upto.len() - 1) =~= cs.subrange(0, s));
                            assert(upto[upto.len() - 1] == cs[s]);
                        } else {
                            let upto = cs.subrange(0, 1);
                            assert(upto.subrange(0, upto.len() - 1) =~= cs.subrange(0, 0));
                            assert(upto[upto.len() - 1] == cs[0]);
                        }
                    }
                }
            } else {
                lemma_forest_contains(cs, p);
                let w = choose|i: int| 0 <= i < cs.len() && (#[trigger] cs[i]).leaves().contains(p);
                assert(cs[w].well_formed());
                match cs[w] {
                    Tree::Leaf(q) => {
                        let k = choose|k: int|
                            0 <= k < cs[w].leaves().len() && cs[w].leaves()[k] == p;
                        assert(q == p);
                        assert(cs[w] == Tree::Leaf(p));
                    },
                    Tree::Split(_, _, _) => {},
                }
                lemma_focus_is_other_leaf(cs[w], p);
                lemma_focus_forest_at(cs, p);
                let f = focus_forest(cs, p)->0;
                let i = choose|i: int|
                    0 <= i < cs.len() && focus_tree(#[trigger] cs[i], p) == Some(f);
                lemma_focus_needs_pane(cs[i], p);
                assert(cs[i].well_formed());
                lemma_focus_is_other_leaf(cs[i], p);
                lemma_forest_cut(cs, i);
                let li = cs[i].leaves();
                let pre = forest_leaves(cs.subrange(0, i));
                let k = choose|k: int| 0 <= k < li.len() && li[k] == f;
                assert(l[pre.len() + k] == f);
                if t.leaves().no_duplicates() {
                    assert(li.no_duplicates()) by {
                        assert forall|x: int, y: int|
                            0 <= x < li.len() && 0 <= y < li.len() && x != y implies li[x]
                            != li[y] by {
                            assert(l[pre.len() + x] == li[x]);
                            assert(l[pre.len() + y] == li[y]);
                        }
                    }
                }
            }
        },
    }
}

/// A tree without the pane yields no pane to focus.
proof fn lemma_focus_needs_pane(t: Tree, p: u32)
    ensures
        focus_tree(t, p) is Some ==> t.leaves().contains(p) && t is Split,
    decreases t,
{
    match t {
        Tree::Leaf(_) => {},
        Tree::Split(_, _, cs) => {
            if has_leaf_child(cs, p) {
                lemma_leaf_child(cs, p);
                let i = leaf_child(cs, p);
                assert(cs[i].leaves()[0] == p);
                assert(cs[i].leaves().contains(p));
                lemma_forest_contains(cs, p);
            } else {
                lemma_focus_forest_at(cs, p);
                if focus_forest(cs, p) is Some {
                    let f = focus_forest(cs, p)->0;
                    let i = choose|i: int|
                        0 <= i < cs.len() && focus_tree(#[trigger] cs[i], p) == Some(f);
                    lemma_focus_needs_pane(cs[i], p);
                    lemma_forest_contains(cs, p);
                }
            }
        },
    }
}

/// A resize never collapses a child to nothing: whatever weights are asked for, each of up to 950
/// children keeps at least one unit of the 1000 that there are.
pub proof fn law_resize_keeps_children_visible(new: Seq<u16>, i: int)
    requires
        0 <= i < new.len() <= 950,
    ensures
        resized(new).len() == new.len(),
        sum(resized(new)) == 1000,
        resized(new)[i] >= 1,
{
    let n = normalized(clamped(new));
    law_normalized_sums_to_1000(clamped(new));
    if n.contains(0) {
        let c = clamped(n);
        law_normalized_sums_to_1000(c);
        lemma_sum_clamped(n);
        lemma_sum_element(c, i);
        assert(c[i] >= MIN_RATIO);
        law_normalized_keeps_quotas(c);
        let r = c[i];
        let total = sum(c);
        assert((r * 1000) / total >= 1) by (nonlinear_arith)
            requires
                20 <= r <= total,
                0 < total <= 20000,
        ;
        assert(quota(c[i], sum(c)) <= normalized(c)[i]);
    } else if n[i] == 0 {
        assert(n.contains(n[i]));
    }
}

/// Raising weights to the minimum adds at most the minimum to each.
proof fn lemma_sum_clamped(rs: Seq<u16>)
    ensures
        sum(clamped(rs)) <= sum(rs) + MIN_RATIO * rs.len(),
    decreases rs.len(),
{
    if rs.len() > 0 {
        lemma_sum_clamped(rs.drop_last());
        assert(clamped(rs).drop_last() =~= clamped(rs.drop_last()));
    }
}

// ─── Where a change happens, and what it leaves alone ────────────────────────

proof fn lemma_sum_insert(s: Seq<u16>, i: int, x: u16)
    requires
        0 <= i <= s.len(),
    ensures
        sum(s.insert(i, x)) == sum(s) + x,
    decreases s.len(),
{
    let r = s.insert(i, x);
    if i == s.len() {
        assert(r.drop_last() =~= s);
    } else {
        assert(r.drop_last() =~= s.drop_last().insert(i, x));
        assert(r.last() == s.last());
        lemma_sum_insert(s.drop_last(), i, x);
    }
}

/// Where no pane occurs twice, a pane is in one child only.
proof fn lemma_only_holder(cs: Seq<Tree>, p: u32, k: int, j: int)
    requires
        forest_leaves(cs).no_duplicates(),
        0 <= k < cs.len(),
        0 <= j < cs.len(),
        cs[k].leaves().contains(p),
        cs[j].leaves().contains(p),
    ensures
        j == k,
{
    if j < k {
        lemma_two_holders(cs, p, j, k);
    } else if k < j {
        lemma_two_holders(cs, p, k, j);
    }
}

proof fn lemma_two_holders(cs: Seq<Tree>, p: u32, j: int, k: int)
    requires
        0 <= j < k < cs.len(),
        cs[j].leaves().contains(p),
        cs[k].leaves().contains(p),
    ensures
        !forest_leaves(cs).no_duplicates(),
{
    lemma_forest_cut(cs, k);
    let front = cs.subrange(0, k);
    assert(front[j] == cs[j]);
    lemma_forest_contains(front, p);
    let f = forest_leaves(front);
    let l = forest_leaves(cs);
    let a = choose|a: int| 0 <= a < f.len() && f[a] == p;
    let b = choose|b: int| 0 <= b < cs[k].leaves().len() && cs[k].leaves()[b] == p;
    assert(l[a] == p);
    assert(l[f.len() + b] == p);
}

/// In a tree without repeated panes, a pane that is a child is the first child of its kind.
proof fn lemma_child_at(cs: Seq<Tree>, p: u32, i: int)
    requires
        forest_leaves(cs).no_duplicates(),
        0 <= i < cs.len(),
        cs[i] == Tree::Leaf(p),
    ensures
        has_leaf_child(cs, p),
        leaf_child(cs, p) == i,
{
    lemma_leaf_child(cs, p);
    let j = leaf_child(cs, p);
    assert(cs[i].leaves()[0] == p);
    assert(cs[j].leaves()[0] == p);
    lemma_only_holder(cs, p, i, j);
}

/// In a tree without repeated panes, a pane inside a nested split is no child itself.
proof fn lemma_not_a_child(cs: Seq<Tree>, p: u32, k: int)
    requires
        forest_leaves(cs).no_duplicates(),
        0 <= k < cs.len(),
        cs[k] is Split,
        cs[k].leaves().contains(p),
    ensures
        !has_leaf_child(cs, p),
{
    if has_leaf_child(cs, p) {
        let j = choose|j: int| 0 <= j < cs.len() && #[trigger] cs[j] == Tree::Leaf(p);
        assert(cs[j].leaves()[0] == p);
        lemma_only_holder(cs, p, k, j);
    }
}

/// Splitting a pane that is the whole layout puts the two side by side, or one below the other,
/// the new pane second, with half of the room each.
pub proof fn law_split_of_a_single_pane(from: u32, new: u32, dir: SplitDir)
    ensures
        split_tree(Tree::Leaf(from), from, new, dir) matches Some(Tree::Split(d, rs, cs)) && d
            == dir && rs == seq![500u16, 500u16] && cs == seq![Tree::Leaf(from), Tree::Leaf(new)],
{
}

/// Splitting a child along the axis of its split: the new pane stands right behind it, and the
/// two share the room that the child had, as evenly as whole units go. Every other child keeps
/// its place and its weight.
pub proof fn law_split_along_shares_the_room(
    d: SplitDir,
    rs: Seq<u16>,
    cs: Seq<Tree>,
    i: int,
    from: u32,
    new: u32,
)
    requires
        Tree::Split(d, rs, cs).well_formed(),
        Tree::Split(d, rs, cs).leaves().no_duplicates(),
        0 <= i < cs.len(),
        cs[i] == Tree::Leaf(from),
    ensures
        split_tree(Tree::Split(d, rs, cs), from, new, d) matches Some(Tree::Split(e, us, ds)) && {
            &&& e == d
            &&& us.len() == rs.len() + 1 && ds.len() == cs.len() + 1
            &&& ds[i] == Tree::Leaf(from) && ds[i + 1] == Tree::Leaf(new)
            &&& us[i] + us[i + 1] == rs[i]
            &&& us[i + 1] <= us[i] <= us[i + 1] + 1
            &&& forall|k: int| 0 <= k < i ==> #[trigger] us[k] == rs[k]
            &&& forall|k: int| 0 <= k < i ==> #[trigger] ds[k] == cs[k]
            &&& forall|k: int| i < k < rs.len() ==> us[k + 1] == #[trigger] rs[k]
            &&& forall|k: int| i < k < cs.len() ==> ds[k + 1] == #[trigger] cs[k]
        },
{
    lemma_child_at(cs, from, i);
    let half = (rs[i] / 2) as u16;
    let most = (rs[i] - half) as u16;
    let halved = rs.update(i, most);
    lemma_sum_update(rs, i, most);
    lemma_sum_insert(halved, i + 1, half);
    law_normalized_fixpoint(halved.insert(i + 1, half));
}

/// Splitting a child across the axis of its split: the child and the new pane share the place
/// and the room that the child had, half each. Every other child keeps its place, and every
/// child its weight.
pub proof fn law_split_across_nests(
    d: SplitDir,
    rs: Seq<u16>,
    cs: Seq<Tree>,
    i: int,
    from: u32,
    new: u32,
    dir: SplitDir,
)
    requires
        Tree::Split(d, rs, cs).leaves().no_duplicates(),
        0 <= i < cs.len(),
        cs[i] == Tree::Leaf(from),
        dir != d,
    ensures
        split_tree(Tree::Split(d, rs, cs), from, new, dir) matches Some(Tree::Split(e, us, ds)) && {
            &&& e == d && us == rs && ds.len() == cs.len()
            &&& ds[i] == Tree::Split(
                dir,
                seq![500u16, 500u16],
                seq![Tree::Leaf(from), Tree::Leaf(new)],
            )
            &&& forall|k: int| 0 <= k < cs.len() && k != i ==> #[trigger] ds[k] == cs[k]
        },
{
    lemma_child_at(cs, from, i);
}

/// Splitting a pane deeper in the tree changes the child that holds it, as if that were the whole
/// tree, and nothing else.
pub proof fn law_split_stays_in_its_branch(
    d: SplitDir,
    rs: Seq<u16>,
    cs: Seq<Tree>,
    k: int,
    from: u32,
    new: u32,
    dir: SplitDir,
)
    requires
        Tree::Split(d, rs, cs).leaves().no_duplicates(),
        0 <= k < cs.len(),
        cs[k] is Split,
        cs[k].leaves().contains(from),
    ensures
        split_tree(cs[k], from, new, dir) is Some,
        split_tree(Tree::Split(d, rs, cs), from, new, dir) matches Some(Tree::Split(e, us, ds)) && {
            &&& e == d && us == rs && ds.len() == cs.len()
            &&& Some(ds[k]) == split_tree(cs[k], from, new, dir)
            &&& forall|j: int| 0 <= j < cs.len() && j != k ==> #[trigger] ds[j] == cs[j]
        },
{
    lemma_not_a_child(cs, from, k);
    law_split_leaves(cs[k], from, new, dir);
    lemma_split_forest_at(cs, from, new, dir);
    match split_forest(cs, from, new, dir) {
        Some((i, c)) => {
            law_split_leaves(cs[i], from, new, dir);
            lemma_only_holder(cs, from, k, i);
        },
        None => {},
    }
}

/// Removing one of two children leaves the other in their place.
pub proof fn law_last_child_takes_the_place(d: SplitDir, rs: Seq<u16>, cs: Seq<Tree>, i: int, p: u32)
    requires
        Tree::Split(d, rs, cs).leaves().no_duplicates(),
        cs.len() == 2,
        0 <= i < 2,
        cs[i] == Tree::Leaf(p),
    ensures
        remove_tree(Tree::Split(d, rs, cs), p) == Some(cs[1 - i]),
{
    lemma_child_at(cs, p, i);
}

/// Removing one of more children: the others keep their order, and the room of the one that is
/// gone is shared among them in proportion to what they had, up to a unit.
pub proof fn law_removed_room_is_shared(d: SplitDir, rs: Seq<u16>, cs: Seq<Tree>, i: int, p: u32)
    requires
        Tree::Split(d, rs, cs).well_formed(),
        Tree::Split(d, rs, cs).leaves().no_duplicates(),
        cs.len() > 2,
        0 <= i < cs.len(),
        cs[i] == Tree::Leaf(p),
    ensures
        remove_tree(Tree::Split(d, rs, cs), p) matches Some(Tree::Split(e, us, ds)) && {
            let left = 1000 - rs[i];
            &&& e == d
            &&& us.len() == rs.len() - 1 && ds.len() == cs.len() - 1
            &&& sum(us) == 1000
            &&& forall|k: int| 0 <= k < i ==> #[trigger] ds[k] == cs[k]
            &&& forall|k: int| i < k < cs.len() ==> ds[k - 1] == #[trigger] cs[k]
            &&& left > 0 ==> forall|k: int|
                0 <= k < i ==> (rs[k] * 1000) / left <= #[trigger] us[k] <= (rs[k] * 1000) / left
                    + 1
            &&& left > 0 ==> forall|k: int|
                i < k < rs.len() ==> (#[trigger] rs[k] * 1000) / left <= us[k - 1] <= (rs[k]
                    * 1000) / left + 1
            &&& left == 0 ==> forall|j: int, k: int|
                0 <= j < k < us.len() ==> (#[trigger] us[k]) <= (#[trigger] us[j]) <= us[k] + 1
        },
{
    lemma_child_at(cs, p, i);
    let rest = rs.remove(i);
    assert(rest.insert(i, rs[i]) =~= rs);
    lemma_sum_insert(rest, i, rs[i]);
    law_normalized_sums_to_1000(rest);
    let us = normalized(rest);
    if sum(rest) > 0 {
        law_normalized_by_largest_remainder(rest);
        assert forall|k: int| i < k < rs.len() implies (#[trigger] rs[k] * 1000) / (1000 - rs[i])
            <= us[k - 1] <= (rs[k] * 1000) / (1000 - rs[i]) + 1 by {
            assert(rest[k - 1] == rs[k]);
            assert((rest[k - 1] * 1000) / sum(rest) <= us[k - 1] <= (rest[k - 1] * 1000) / sum(rest)
                + 1);
        }
        assert forall|k: int| 0 <= k < i implies (rs[k] * 1000) / (1000 - rs[i])
            <= #[trigger] us[k] <= (rs[k] * 1000) / (1000 - rs[i]) + 1 by {
            assert(rest[k] == rs[k]);
        }
    } else {
        lemma_sum_nonneg(rest);
        law_no_weights_share_equally(rest);
    }
}

/// Removing a pane deeper in the tree changes the child that holds it, as if that were the whole
/// tree, and nothing else.
pub proof fn law_remove_stays_in_its_branch(
    d: SplitDir,
    rs: Seq<u16>,
    cs: Seq<Tree>,
    k: int,
    p: u32,
)
    requires
        Tree::Split(d, rs, cs).well_formed(),
        Tree::Split(d, rs, cs).leaves().no_duplicates(),
        0 <= k < cs.len(),
        cs[k] is Split,
        cs[k].leaves().contains(p),
    ensures
        remove_tree(cs[k], p) is Some,
        remove_tree(Tree::Split(d, rs, cs), p) matches Some(Tree::Split(e, us, ds)) && {
            &&& e == d && us == rs && ds.len() == cs.len()
            &&& Some(ds[k]) == remove_tree(cs[k], p)
            &&& forall|j: int| 0 <= j < cs.len() && j != k ==> #[trigger] ds[j] == cs[j]
        },
{
    lemma_not_a_child(cs, p, k);
    assert(cs[k].well_formed());
    law_remove_leaves(cs[k], p);
    lemma_remove_forest_at(cs, p);
    match remove_forest(cs, p) {
        Some((i, c)) => {
            assert(cs[i].well_formed());
            law_remove_leaves(cs[i], p);
            lemma_only_holder(cs, p, k, i);
        },
        None => {},
    }
}

/// The focus of a removed pane goes to the first pane of the sibling in front of it, or, where
/// there is none in front, behind it.
pub proof fn law_focus_goes_to_the_sibling(d: SplitDir, rs: Seq<u16>, cs: Seq<Tree>, i: int, p: u32)
    requires
        Tree::Split(d, rs, cs).well_formed(),
        Tree::Split(d, rs, cs).leaves().no_duplicates(),
        0 <= i < cs.len(),
        cs[i] == Tree::Leaf(p),
    ensures
        i > 0 ==> focus_tree(Tree::Split(d, rs, cs), p) == Some(cs[i - 1].leaves()[0]),
        i == 0 ==> focus_tree(Tree::Split(d, rs, cs), p) == Some(cs[1].leaves()[0]),
{
    lemma_child_at(cs, p, i);
    if i > 0 {
        assert(cs[i - 1].well_formed());
        lemma_has_leaf(cs[i - 1]);
    } else {
        assert(cs[1].well_formed());
        lemma_has_leaf(cs[1]);
    }
}

/// The focus of a pane deeper in the tree stays in the child that holds the pane.
pub proof fn law_focus_stays_in_its_branch(
    d: SplitDir,
    rs: Seq<u16>,
    cs: Seq<Tree>,
    k: int,
    p: u32,
)
    requires
        Tree::Split(d, rs, cs).well_formed(),
        Tree::Split(d, rs, cs).leaves().no_duplicates(),
        0 <= k < cs.len(),
        cs[k] is Split,
        cs[k].leaves().contains(p),
    ensures
        focus_tree(Tree::Split(d, rs, cs), p) == focus_tree(cs[k], p),
        focus_tree(cs[k], p) matches Some(f) && cs[k].leaves().contains(f),
{
    lemma_not_a_child(cs, p, k);
    assert(cs[k].well_formed());
    lemma_focus_is_other_leaf(cs[k], p);
    lemma_focus_forest_at(cs, p);
    match focus_forest(cs, p) {
        Some(f) => {
            let i = choose|i: int| 0 <= i < cs.len() && focus_tree(#[trigger] cs[i], p) == Some(f);
            lemma_focus_needs_pane(cs[i], p);
            lemma_only_holder(cs, p, k, i);
        },
        None => {},
    }
}

/// Exchanging two panes moves the panes only: every split keeps its axis, its weights and its
/// shape.
pub proof fn law_swap_moves_only_panes(d: SplitDir, rs: Seq<u16>, cs: Seq<Tree>, p: u32, a: u32, b: u32)
    ensures
        swap_tree(Tree::Split(d, rs, cs), a, b) matches Tree::Split(e, us, ds) && {
            &&& e == d && us == rs && ds.len() == cs.len()
            &&& forall|k: int| 0 <= k < cs.len() ==> #[trigger] ds[k] == swap_tree(cs[k], a, b)
        },
        swap_tree(Tree::Leaf(a), a, b) == Tree::Leaf(b),
        swap_tree(Tree::Leaf(b), a, b) == Tree::Leaf(a),
        p != a && p != b ==> swap_tree(Tree::Leaf(p), a, b) == Tree::Leaf(p),
{
}

/// New weights are given to the split that the path leads to, and to no other: a path that is
/// empty means the split itself, any other means the child that it begins with.
pub proof fn law_weights_reach_their_split(
    d: SplitDir,
    rs: Seq<u16>,
    cs: Seq<Tree>,
    path: Seq<u32>,
    new: Seq<u16>,
)
    ensures
        path.len() == 0 ==> match ratios_tree(Tree::Split(d, rs, cs), path, new) {
            Some(t) => new.len() == cs.len() && (t matches Tree::Split(e, us, ds) && e == d && ds
                == cs && us.len() == new.len() && us == resized(new)),
            None => new.len() != cs.len(),
        },
        path.len() > 0 && path[0] >= cs.len() ==> ratios_tree(Tree::Split(d, rs, cs), path, new)
            is None,
        path.len() > 0 && path[0] < cs.len() ==> match ratios_tree(
            Tree::Split(d, rs, cs),
            path,
            new,
        ) {
            Some(t) => t matches Tree::Split(e, us, ds) && {
                &&& e == d && us == rs && ds.len() == cs.len()
                &&& Some(ds[path[0] as int]) == ratios_tree(
                    cs[path[0] as int],
                    path.drop_first(),
                    new,
                )
                &&& forall|k: int| 0 <= k < cs.len() && k != path[0] ==> #[trigger] ds[k] == cs[k]
            },
            None => ratios_tree(cs[path[0] as int], path.drop_first(), new) is None,
        },
        ratios_tree(Tree::Leaf(0), path, new) is None,
{
    law_normalized_sums_to_1000(clamped(new));
    law_normalized_sums_to_1000(clamped(normalized(clamped(new))));
}

/// Weights that are large enough and sum to 1000 are taken as they are asked for.
pub proof fn law_fitting_weights_are_taken(new: Seq<u16>)
    requires
        sum(new) == 1000,
        forall|i: int| 0 <= i < new.len() ==> #[trigger] new[i] >= 20,
    ensures
        resized(new) == new,
{
    assert(clamped(new) =~= new);
    law_normalized_fixpoint(new);
    if new.contains(0) {
        let i = choose|i: int| 0 <= i < new.len() && new[i] == 0;
        assert(new[i] >= 20);
    }
}

/// Weights that are large enough are scaled: each gets its share of 1000, up to a unit.
pub proof fn law_weights_are_scaled(new: Seq<u16>, i: int)
    requires
        0 <= i < new.len(),
        sum(new) <= 20_000,
        forall|k: int| 0 <= k < new.len() ==> #[trigger] new[k] >= 20,
    ensures
        (new[i] * 1000) / sum(new) <= resized(new)[i] <= (new[i] * 1000) / sum(new) + 1,
{
    assert(clamped(new) =~= new);
    lemma_sum_element(new, i);
    law_normalized_by_largest_remainder(new);
    let n = normalized(new);
    if n.contains(0) {
        let k = choose|k: int| 0 <= k < n.len() && n[k] == 0;
        assert((new[k] * 1000) / sum(new) <= n[k]);
        let x = new[k] as int;
        let total = sum(new);
        assert((x * 1000) / total >= 1) by (nonlinear_arith)
            requires
                x >= 20,
                0 < total <= 20_000,
        ;
    }
}

/// A weight below 20 counts as 20.
pub proof fn law_small_weights_are_raised(new: Seq<u16>, raised: Seq<u16>)
    requires
        raised.len() == new.len(),
        forall|i: int|
            0 <= i < new.len() ==> #[trigger] raised[i] == (if new[i] < 20 {
                20u16
            } else {
                new[i]
            }),
    ensures
        resized(new) == resized(raised),
{
    assert(clamped(new) =~= raised);
    assert(clamped(raised) =~= raised);
}

} // verus!
