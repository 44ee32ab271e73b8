//! Pure mutations of a tab's [`LayoutNode`] tree.
//!
//! Every client layout intent (split, close, swap, resize, focus) is applied here. The functions
//! operate purely on the tree, whose leaves name panes by index. Ratios are permille weights;
//! every mutation keeps them summing to 1000.

use crate::ratios::{normalize, normalized, sum};
use vstd::prelude::*;

verus! {

/// Lowest permille weight a child may hold, so a resize can never collapse a pane to nothing.
pub const MIN_RATIO: u16 = 20;

/// The axis along which a split lays out its children.
#[derive(Clone, Copy, Debug, PartialEq, Eq, Structural)]
pub enum SplitDir {
    Horizontal,
    Vertical,
}

/// A tab's layout: a pane, or a row or column of nested layouts with their weights.
#[derive(Debug, PartialEq, Eq)]
pub enum LayoutNode {
    Leaf { pane_index: u32 },
    Split { dir: SplitDir, ratios: Vec<u16>, children: Vec<LayoutNode> },
}

/// The mathematical value of a [`LayoutNode`].
pub enum Tree {
    Leaf(u32),
    Split(SplitDir, Seq<u16>, Seq<Tree>),
}

impl LayoutNode {
    pub open spec fn tree(self) -> Tree
        decreases self,
    {
        match self {
            LayoutNode::Leaf { pane_index } => Tree::Leaf(pane_index),
            LayoutNode::Split { dir, ratios, children } => Tree::Split(
                dir,
                ratios@,
                Seq::new(
                    children@.len(),
                    |i: int|
                        if 0 <= i < children@.len() {
                            children@[i].tree()
                        } else {
                            Tree::Leaf(0)
                        },
                ),
            ),
        }
    }
}

impl View for LayoutNode {
    type V = Tree;

    open spec fn view(&self) -> Tree {
        self.tree()
    }
}

pub open spec fn trees(s: Seq<LayoutNode>) -> Seq<Tree> {
    Seq::new(s.len(), |i: int| s[i]@)
}

/// Unfolds the view of a split.
pub proof fn lemma_split_view(n: LayoutNode)
    requires
        n is Split,
    ensures
        n@ == Tree::Split(n->dir, n->ratios@, trees(n->children@)),
{
    match n.tree() {
        Tree::Split(_, _, cs) => {
            assert(cs =~= trees(n->children@));
        },
        Tree::Leaf(_) => {},
    }
}

proof fn lemma_sized_children(n: LayoutNode)
    requires
        n is Split,
        n@.sized(),
    ensures
        forall|i: int| 0 <= i < n->children@.len() ==> (#[trigger] n->children@[i])@.sized(),
        n->ratios@.len() == n->children@.len(),
{
    lemma_split_view(n);
    assert forall|i: int| 0 <= i < n->children@.len() implies (
    #[trigger] n->children@[i])@.sized() by {
        assert(trees(n->children@)[i].sized());
    }
}

impl Tree {
    /// Pane indices of the leaves, left to right.
    pub open spec fn leaves(self) -> Seq<u32>
        decreases self,
    {
        match self {
            Tree::Leaf(p) => seq![p],
            Tree::Split(_, _, cs) => forest_leaves(cs),
        }
    }

    /// Every split holds one weight per child.
    pub open spec fn sized(self) -> bool
        decreases self,
    {
        match self {
            Tree::Leaf(_) => true,
            Tree::Split(_, rs, cs) => {
                &&& rs.len() == cs.len()
                &&& forall|i: int| 0 <= i < cs.len() ==> (#[trigger] cs[i]).sized()
            },
        }
    }

    /// Every split holds one weight per child, the weights sum to 1000, and no split has fewer
    /// than two children.
    pub open spec fn well_formed(self) -> bool
        decreases self,
    {
        match self {
            Tree::Leaf(_) => true,
            Tree::Split(_, rs, cs) => {
                &&& cs.len() >= 2
                &&& rs.len() == cs.len()
                &&& sum(rs) == 1000
                &&& forall|i: int| 0 <= i < cs.len() ==> (#[trigger] cs[i]).well_formed()
            },
        }
    }
}

/// Pane indices of the leaves of a row of trees, left to right.
pub open spec fn forest_leaves(cs: Seq<Tree>) -> Seq<u32>
    decreases cs,
{
    if cs.len() == 0 {
        Seq::empty()
    } else {
        forest_leaves(cs.subrange(0, cs.len() - 1)) + cs[cs.len() - 1].leaves()
    }
}

/// Position `i` is the first child that is exactly the leaf `p`.
pub open spec fn is_first_leaf(cs: Seq<Tree>, p: u32, i: int) -> bool {
    &&& 0 <= i < cs.len()
    &&& cs[i] == Tree::Leaf(p)
    &&& forall|j: int| 0 <= j < i ==> #[trigger] cs[j] != Tree::Leaf(p)
}

pub open spec fn has_leaf_child(cs: Seq<Tree>, p: u32) -> bool {
    exists|i: int| 0 <= i < cs.len() && #[trigger] cs[i] == Tree::Leaf(p)
}

/// The position of the first child that is exactly the leaf `p`.
pub open spec fn leaf_child(cs: Seq<Tree>, p: u32) -> int {
    choose|i: int| is_first_leaf(cs, p, i)
}

/// Two leaves side by side, half the room each.
pub open spec fn pair(dir: SplitDir, first: u32, second: u32) -> Tree {
    Tree::Split(dir, seq![500u16, 500u16], seq![Tree::Leaf(first), Tree::Leaf(second)])
}

/// The tree after splitting the leaf `from`, or `None` when `from` is not in it.
///
/// A split looks for `from` among its own children before descending, and descends into its
/// children left to right. Splitting along the parent's axis adds a sibling that takes half of
/// the weight of `from`; splitting across it nests a fresh pair.
pub open spec fn split_tree(t: Tree, from: u32, new: u32, dir: SplitDir) -> Option<Tree>
    decreases t,
{
    match t {
        Tree::Leaf(p) => if p == from {
            Some(pair(dir, from, new))
        } else {
            None
        },
        Tree::Split(d, rs, cs) => if has_leaf_child(cs, from) {
            let i = leaf_child(cs, from);
            if d == dir {
                let half = (rs[i] / 2) as u16;
                Some(
                    Tree::Split(
                        d,
                        normalized(rs.update(i, (rs[i] - half) as u16).insert(i + 1, half)),
                        cs.insert(i + 1, Tree::Leaf(new)),
                    ),
                )
            } else {
                Some(Tree::Split(d, rs, cs.update(i, pair(dir, from, new))))
            }
        } else {
            match split_forest(cs, from, new, dir) {
                Some((i, c)) => Some(Tree::Split(d, rs, cs.update(i, c))),
                None => None,
            }
        },
    }
}

/// The first tree of the row that holds the leaf `from`, with its split form.
pub open spec fn split_forest(cs: Seq<Tree>, from: u32, new: u32, dir: SplitDir) -> Option<
    (int, Tree),
>
    decreases cs,
{
    if cs.len() == 0 {
        None
    } else {
        match split_forest(cs.subrange(0, cs.len() - 1), from, new, dir) {
            Some(r) => Some(r),
            None => match split_tree(cs[cs.len() - 1], from, new, dir) {
                Some(c) => Some((cs.len() - 1, c)),
                None => None,
            },
        }
    }
}

/// The tree after removing the leaf `p`, or `None` when `p` is the whole tree or not in it.
///
/// A split left with a single child is replaced by that child.
pub open spec fn remove_tree(t: Tree, p: u32) -> Option<Tree>
    decreases t,
{
    match t {
        Tree::Leaf(_) => None,
        Tree::Split(d, rs, cs) => if has_leaf_child(cs, p) {
            let i = leaf_child(cs, p);
            let rest = cs.remove(i);
            if rest.len() == 1 {
                Some(rest[0])
            } else {
                Some(Tree::Split(d, normalized(rs.remove(i)), rest))
            }
        } else {
            match remove_forest(cs, p) {
                Some((i, c)) => Some(Tree::Split(d, rs, cs.update(i, c))),
                None => None,
            }
        },
    }
}

/// The first tree of the row that the leaf `p` can be removed from, with what is left of it.
pub open spec fn remove_forest(cs: Seq<Tree>, p: u32) -> Option<(int, Tree)>
    decreases cs,
{
    if cs.len() == 0 {
        None
    } else {
        match remove_forest(cs.subrange(0, cs.len() - 1), p) {
            Some(r) => Some(r),
            None => match remove_tree(cs[cs.len() - 1], p) {
                Some(c) => Some((cs.len() - 1, c)),
                None => None,
            },
        }
    }
}

/// Weights none of which is below [`MIN_RATIO`].
pub open spec fn clamped(rs: Seq<u16>) -> Seq<u16> {
    Seq::new(
        rs.len(),
        |i: int|
            if rs[i] < MIN_RATIO {
                MIN_RATIO
            } else {
                rs[i]
            },
    )
}

/// The weights that a resize to `new` gives: no weight is below [`MIN_RATIO`] before they are
/// rescaled. Where a small weight rounds away beside much larger ones, the rescaled weights are
/// raised to the minimum in their turn.
pub open spec fn resized(new: Seq<u16>) -> Seq<u16> {
    let n = normalized(clamped(new));
    if n.contains(0) {
        normalized(clamped(n))
    } else {
        n
    }
}

/// The tree after giving the split at `path` the weights `new`, or `None` when `path` does not
/// lead to a split with that many children.
pub open spec fn ratios_tree(t: Tree, path: Seq<u32>, new: Seq<u16>) -> Option<Tree>
    decreases path.len(),
{
    match t {
        Tree::Leaf(_) => None,
        Tree::Split(d, rs, cs) => if path.len() == 0 {
            if new.len() == cs.len() {
                Some(Tree::Split(d, resized(new), cs))
            } else {
                None
            }
        } else if path[0] < cs.len() {
            match ratios_tree(cs[path[0] as int], path.drop_first(), new) {
                Some(c) => Some(Tree::Split(d, rs, cs.update(path[0] as int, c))),
                None => None,
            }
        } else {
            None
        },
    }
}

/// The pane that stands where `p` stood once `a` and `b` trade places.
pub open spec fn traded(p: u32, a: u32, b: u32) -> u32 {
    if p == a {
        b
    } else if p == b {
        a
    } else {
        p
    }
}

/// The tree with the leaves `a` and `b` exchanged.
pub open spec fn swap_tree(t: Tree, a: u32, b: u32) -> Tree
    decreases t,
{
    match t {
        Tree::Leaf(p) => Tree::Leaf(traded(p, a, b)),
        Tree::Split(d, rs, cs) => Tree::Split(
            d,
            rs,
            Seq::new(
                cs.len(),
                |i: int|
                    if 0 <= i < cs.len() {
                        swap_tree(cs[i], a, b)
                    } else {
                        Tree::Leaf(0)
                    },
            ),
        ),
    }
}

pub open spec fn first_of(s: Seq<u32>) -> Option<u32> {
    if s.len() == 0 {
        None
    } else {
        Some(s[0])
    }
}

/// The pane to focus once `removed` is gone, read off the tree before the removal: the first
/// leaf of its previous sibling, else of its next.
pub open spec fn focus_tree(t: Tree, removed: u32) -> Option<u32>
    decreases t,
{
    match t {
        Tree::Leaf(_) => None,
        Tree::Split(_, _, cs) => if has_leaf_child(cs, removed) {
            let i = leaf_child(cs, removed);
            if i > 0 {
                first_of(cs[i - 1].leaves())
            } else if cs.len() > 1 {
                first_of(cs[1].leaves())
            } else {
                None
            }
        } else {
            focus_forest(cs, removed)
        },
    }
}

/// The first pane to focus that a tree of the row yields.
pub open spec fn focus_forest(cs: Seq<Tree>, removed: u32) -> Option<u32>
    decreases cs,
{
    if cs.len() == 0 {
        None
    } else {
        match focus_forest(cs.subrange(0, cs.len() - 1), removed) {
            Some(f) => Some(f),
            None => focus_tree(cs[cs.len() - 1], removed),
        }
    }
}

// ─── Executable operations ───────────────────────────────────────────────────

impl LayoutNode {
    /// A layout of one pane.
    pub fn single(pane_index: u32) -> (n: LayoutNode)
        ensures
            n@ == Tree::Leaf(pane_index),
    {
        LayoutNode::Leaf { pane_index }
    }

    /// Pane indices of the leaves, left to right.
    pub fn leaves(&self) -> (r: Vec<u32>)
        ensures
            r@ == self@.leaves(),
    {
        let mut out: Vec<u32> = Vec::new();
        self.collect_leaves(&mut out);
        out
    }

    fn collect_leaves(&self, out: &mut Vec<u32>)
        ensures
            final(out)@ == old(out)@ + self@.leaves(),
        decreases self,
    {
        match self {
            LayoutNode::Leaf { pane_index } => {
                out.push(*pane_index);
                assert(out@ =~= old(out)@ + seq![*pane_index]);
            },
            LayoutNode::Split { dir: _, ratios: _, children } => {
                proof {
                    lemma_split_view(*self);
                }
                let ghost cs = trees(children@);
                let mut i: usize = 0;
                assert(out@ =~= old(out)@ + forest_leaves(cs.subrange(0, 0)));
                while i < children.len()
                    invariant
                        0 <= i <= children@.len(),
                        self is Split,
                        *children == self->children,
                        cs == trees(children@),
                        out@ == old(out)@ + forest_leaves(cs.subrange(0, i as int)),
                    decreases children@.len() - i,
                {
                    let ghost before = out@;
                    children[i].collect_leaves(out);
                    proof {
                        let next = cs.subrange(0, i as int + 1);
                        assert(next.subrange(0, next.len() - 1) =~= cs.subrange(0, i as int));
                        assert(next[next.len() - 1] == children@[i as int]@);
                        assert(out@ =~= old(out)@ + forest_leaves(next));
                    }
                    i = i + 1;
                }
                assert(cs.subrange(0, cs.len() as int) =~= cs);
            },
        }
    }

    /// A copy of the tree.
    pub fn duplicate(&self) -> (r: LayoutNode)
        ensures
            r@ == self@,
        decreases self,
    {
        match self {
            LayoutNode::Leaf { pane_index } => LayoutNode::Leaf { pane_index: *pane_index },
            LayoutNode::Split { dir, ratios, children } => {
                proof {
                    lemma_split_view(*self);
                }
                let mut copied: Vec<LayoutNode> = Vec::new();
                let mut i: usize = 0;
                while i < children.len()
                    invariant
                        0 <= i <= children@.len(),
                        self is Split,
                        *children == self->children,
                        copied@.len() == i,
                        forall|j: int| 0 <= j < i ==> (#[trigger] copied@[j])@ == children@[j]@,
                    decreases children@.len() - i,
                {
                    let c = children[i].duplicate();
                    copied.push(c);
                    i = i + 1;
                }
                let mut weights: Vec<u16> = Vec::new();
                let mut k: usize = 0;
                while k < ratios.len()
                    invariant
                        0 <= k <= ratios@.len(),
                        weights@ =~= ratios@.subrange(0, k as int),
                    decreases ratios@.len() - k,
                {
                    weights.push(ratios[k]);
                    k = k + 1;
                }
                assert(weights@ =~= ratios@);
                let r = LayoutNode::Split { dir: *dir, ratios: weights, children: copied };
                proof {
                    lemma_split_view(r);
                    assert(trees(copied@) =~= trees(children@));
                }
                r
            },
        }
    }
}

impl Clone for LayoutNode {
    fn clone(&self) -> (r: Self)
        ensures
            r@ == self@,
    {
        self.duplicate()
    }
}

/// The position of the first child that is exactly the leaf `pane`.
fn leaf_position(children: &Vec<LayoutNode>, pane: u32) -> (r: Option<usize>)
    ensures
        match r {
            Some(i) => {
                &&& i < children@.len()
                &&& has_leaf_child(trees(children@), pane)
                &&& leaf_child(trees(children@), pane) == i
                &&& children@[i as int]@ == Tree::Leaf(pane)
            },
            None => !has_leaf_child(trees(children@), pane),
        },
{
    let ghost cs = trees(children@);
    let mut i: usize = 0;
    while i < children.len()
        invariant
            0 <= i <= children@.len(),
            cs == trees(children@),
            forall|j: int| 0 <= j < i ==> #[trigger] cs[j] != Tree::Leaf(pane),
        decreases children@.len() - i,
    {
        let hit = match &children[i] {
            LayoutNode::Leaf { pane_index } => *pane_index == pane,
            LayoutNode::Split { .. } => false,
        };
        assert(cs[i as int] == children@[i as int]@);
        if hit {
            proof {
                assert(is_first_leaf(cs, pane, i as int));
                let w = leaf_child(cs, pane);
                assert(is_first_leaf(cs, pane, w));
                assert(w == i);
            }
            return Some(i);
        }
        i = i + 1;
    }
    None
}

fn pair_node(dir: SplitDir, first: u32, second: u32) -> (n: LayoutNode)
    ensures
        n@ == pair(dir, first, second),
{
    let n = LayoutNode::Split {
        dir,
        ratios: vec![500, 500],
        children: vec![
            LayoutNode::Leaf { pane_index: first },
            LayoutNode::Leaf { pane_index: second },
        ],
    };
    proof {
        lemma_split_view(n);
        assert(n->ratios@ =~= seq![500u16, 500u16]);
        assert(trees(n->children@) =~= seq![Tree::Leaf(first), Tree::Leaf(second)]);
    }
    n
}

/// Split the leaf `from_pane`, inserting `new_pane` adjacent to it in `dir`.
///
/// If `from_pane`'s parent already splits in the same `dir`, the new pane becomes a sibling
/// rather than nesting. Returns `false`, leaving the tree alone, if `from_pane` is not a leaf
/// of it.
pub fn split(root: &mut LayoutNode, from_pane: u32, new_pane: u32, dir: SplitDir) -> (ok: bool)
    requires
        old(root)@.sized(),
    ensures
        match split_tree(old(root)@, from_pane, new_pane, dir) {
            Some(t) => ok && final(root)@ == t,
            None => !ok && final(root)@ == old(root)@,
        },
    decreases *old(root),
{
    let ghost start = *root;
    match root {
        LayoutNode::Leaf { pane_index } => {
            if *pane_index == from_pane {
                *root = pair_node(dir, from_pane, new_pane);
                true
            } else {
                false
            }
        },
        LayoutNode::Split { dir: my_dir, ratios, children } => {
            proof {
                lemma_split_view(start);
            }
            let ghost cs = trees(children@);
            match leaf_position(children, from_pane) {
                Some(pos) => {
                    if *my_dir == dir {
                        let _count: usize = children.len();
                        let share: u16 = ratios[pos];
                        let new_share: u16 = share / 2;
                        ratios.set(pos, share - new_share);
                        ratios.insert(pos + 1, new_share);
                        children.insert(pos + 1, LayoutNode::Leaf { pane_index: new_pane });
                        normalize(ratios.as_mut_slice());
                        proof {
                            assert(trees(children@) =~= cs.insert(pos + 1, Tree::Leaf(new_pane)));
                        }
                    } else {
                        children.set(pos, pair_node(dir, from_pane, new_pane));
                        proof {
                            assert(trees(children@) =~= cs.update(
                                pos as int,
                                pair(dir, from_pane, new_pane),
                            ));
                        }
                    }
                    proof {
                        lemma_split_view(*root);
                    }
                    true
                },
                None => {
                    proof {
                        lemma_sized_children(start);
                    }
                    let done = split_children(children, from_pane, new_pane, dir);
                    proof {
                        lemma_split_view(*root);
                    }
                    done
                },
            }
        },
    }
}

/// Split `from_pane` in the first of `children` that holds it.
fn split_children(
    children: &mut Vec<LayoutNode>,
    from_pane: u32,
    new_pane: u32,
    dir: SplitDir,
) -> (ok: bool)
    requires
        forall|i: int| 0 <= i < old(children)@.len() ==> (#[trigger] old(children)@[i])@.sized(),
    ensures
        match split_forest(trees(old(children)@), from_pane, new_pane, dir) {
            Some((i, c)) => ok && trees(final(children)@) == trees(old(children)@).update(i, c),
            None => !ok && trees(final(children)@) == trees(old(children)@),
        },
    decreases *old(children),
{
    let ghost cs = trees(children@);
    let ghost start = *children;
    let mut i: usize = 0;
    assert(cs.subrange(0, 0) =~= Seq::empty());
    while i < children.len()
        invariant
            0 <= i <= children@.len(),
            start == *old(children),
            children@.len() == start@.len(),
            forall|j: int| i <= j < start@.len() ==> children@[j] == start@[j],
            trees(children@) == cs,
            cs == trees(start@),
            forall|j: int| 0 <= j < start@.len() ==> (#[trigger] start@[j])@.sized(),
            split_forest(cs.subrange(0, i as int), from_pane, new_pane, dir) is None,
        decreases children@.len() - i,
    {
        proof {
            let next = cs.subrange(0, i as int + 1);
            assert(next.subrange(0, next.len() - 1) =~= cs.subrange(0, i as int));
            assert(next[next.len() - 1] == start@[i as int]@);
        }
        let ghost before = children@;
        let done = split(&mut children[i], from_pane, new_pane, dir);
        proof {
            assert(forall|j: int|
                0 <= j < before.len() && j != i ==> children@[j] == before[j]);
            assert(forall|j: int| 0 <= j < before.len() ==> before[j]@ == cs[j]) by {
                assert(forall|j: int| 0 <= j < before.len() ==> trees(before)[j] == before[j]@);
            }
        }
        if done {
            proof {
                lemma_split_forest_prefix(cs, i as int + 1, from_pane, new_pane, dir);
                assert(trees(children@) =~= cs.update(i as int, children@[i as int]@));
            }
            return true;
        }
        assert(trees(children@) =~= cs);
        i = i + 1;
    }
    assert(cs.subrange(0, cs.len() as int) =~= cs);
    false
}

proof fn lemma_split_forest_prefix(cs: Seq<Tree>, k: int, from: u32, new: u32, dir: SplitDir)
    requires
        0 <= k <= cs.len(),
        split_forest(cs.subrange(0, k), from, new, dir) is Some,
    ensures
        split_forest(cs, from, new, dir) == split_forest(cs.subrange(0, k), from, new, dir),
    decreases cs.len() - k,
{
    if k < cs.len() {
        let next = cs.subrange(0, k + 1);
        assert(next.subrange(0, next.len() - 1) =~= cs.subrange(0, k));
        lemma_split_forest_prefix(cs, k + 1, from, new, dir);
    } else {
        assert(cs.subrange(0, k) =~= cs);
    }
}

/// Remove the leaf `pane` from the tree, collapsing the parent split when it drops to a single
/// child and redistributing weights. Returns `false`, leaving the tree alone, if `pane` is the
/// sole leaf (the caller closes the whole tab instead) or is absent.
pub fn remove_pane(root: &mut LayoutNode, pane: u32) -> (ok: bool)
    requires
        old(root)@.sized(),
    ensures
        match remove_tree(old(root)@, pane) {
            Some(t) => ok && final(root)@ == t,
            None => !ok && final(root)@ == old(root)@,
        },
    decreases *old(root),
{
    let ghost start = *root;
    match root {
        LayoutNode::Leaf { .. } => false,
        LayoutNode::Split { dir: _, ratios, children } => {
            proof {
                lemma_split_view(start);
                lemma_sized_children(start);
            }
            let ghost cs = trees(children@);
            match leaf_position(children, pane) {
                Some(pos) => {
                    let _gone = children.remove(pos);
                    let _weight: u16 = ratios.remove(pos);
                    assert(trees(children@) =~= cs.remove(pos as int));
                    if children.len() == 1 {
                        let only = children.remove(0);
                        assert(only@ == cs.remove(pos as int)[0]);
                        *root = only;
                    } else {
                        normalize(ratios.as_mut_slice());
                        proof {
                            lemma_split_view(*root);
                        }
                    }
                    true
                },
                None => {
                    let done = remove_in_children(children, pane);
                    proof {
                        lemma_split_view(*root);
                    }
                    done
                },
            }
        },
    }
}

/// Remove `pane` from the first of `children` that it can be removed from.
fn remove_in_children(children: &mut Vec<LayoutNode>, pane: u32) -> (ok: bool)
    requires
        forall|i: int| 0 <= i < old(children)@.len() ==> (#[trigger] old(children)@[i])@.sized(),
    ensures
        match remove_forest(trees(old(children)@), pane) {
            Some((i, c)) => ok && trees(final(children)@) == trees(old(children)@).update(i, c),
            None => !ok && trees(final(children)@) == trees(old(children)@),
        },
    decreases *old(children),
{
    let ghost cs = trees(children@);
    let ghost start = *children;
    let mut i: usize = 0;
    assert(cs.subrange(0, 0) =~= Seq::empty());
    while i < children.len()
        invariant
            0 <= i <= children@.len(),
            start == *old(children),
            children@.len() == start@.len(),
            forall|j: int| i <= j < start@.len() ==> children@[j] == start@[j],
            trees(children@) == cs,
            cs == trees(start@),
            forall|j: int| 0 <= j < start@.len() ==> (#[trigger] start@[j])@.sized(),
            remove_forest(cs.subrange(0, i as int), pane) is None,
        decreases children@.len() - i,
    {
        proof {
            let next = cs.subrange(0, i as int + 1);
            assert(next.subrange(0, next.len() - 1) =~= cs.subrange(0, i as int));
            assert(next[next.len() - 1] == start@[i as int]@);
        }
        let ghost before = children@;
        let done = remove_pane(&mut children[i], pane);
        proof {
            assert(forall|j: int|
                0 <= j < before.len() && j != i ==> children@[j] == before[j]);
            assert(forall|j: int| 0 <= j < before.len() ==> before[j]@ == cs[j]) by {
                assert(forall|j: int| 0 <= j < before.len() ==> trees(before)[j] == before[j]@);
            }
        }
        if done {
            proof {
                lemma_remove_forest_prefix(cs, i as int + 1, pane);
                assert(trees(children@) =~= cs.update(i as int, children@[i as int]@));
            }
            return true;
        }
        assert(trees(children@) =~= cs);
        i = i + 1;
    }
    assert(cs.subrange(0, cs.len() as int) =~= cs);
    false
}

proof fn lemma_remove_forest_prefix(cs: Seq<Tree>, k: int, p: u32)
    requires
        0 <= k <= cs.len(),
        remove_forest(cs.subrange(0, k), p) is Some,
    ensures
        remove_forest(cs, p) == remove_forest(cs.subrange(0, k), p),
    decreases cs.len() - k,
{
    if k < cs.len() {
        let next = cs.subrange(0, k + 1);
        assert(next.subrange(0, next.len() - 1) =~= cs.subrange(0, k));
        lemma_remove_forest_prefix(cs, k + 1, p);
    } else {
        assert(cs.subrange(0, k) =~= cs);
    }
}

/// Set the child weights of the split addressed by `path` (child-index descent from the root).
/// Clamps each to [`MIN_RATIO`], renormalizes to 1000 so that no child is left without weight, and
/// returns `false`, leaving the tree alone, if the path does not point at a split or the arity
/// mismatches.
pub fn set_ratios(root: &mut LayoutNode, path: &[u32], new_ratios: &[u16]) -> (ok: bool)
    ensures
        match ratios_tree(old(root)@, path@, new_ratios@) {
            Some(t) => ok && final(root)@ == t,
            None => !ok && final(root)@ == old(root)@,
        },
{
    assert(path@.subrange(0, path@.len() as int) =~= path@);
    set_ratios_from(root, path, 0, new_ratios)
}

/// [`set_ratios`] for the part of `path` that starts at index `at`.
fn set_ratios_from(root: &mut LayoutNode, path: &[u32], at: usize, new_ratios: &[u16]) -> (ok: bool)
    requires
        at <= path@.len(),
    ensures
        match ratios_tree(
            old(root)@,
            path@.subrange(at as int, path@.len() as int),
            new_ratios@,
        ) {
            Some(t) => ok && final(root)@ == t,
            None => !ok && final(root)@ == old(root)@,
        },
    decreases path@.len() - at,
{
    let ghost start = *root;
    let ghost rest = path@.subrange(at as int, path@.len() as int);
    match root {
        LayoutNode::Leaf { .. } => false,
        LayoutNode::Split { dir: _, ratios, children } => {
            proof {
                lemma_split_view(start);
            }
            let ghost cs = trees(children@);
            if at == path.len() {
                if new_ratios.len() != children.len() {
                    return false;
                }
                *ratios = resize_ratios(new_ratios);
                proof {
                    lemma_split_view(*root);
                }
                true
            } else {
                let index: usize = path[at] as usize;
                if index >= children.len() {
                    return false;
                }
                proof {
                    assert(rest.drop_first() =~= path@.subrange(at + 1, path@.len() as int));
                }
                let ok = set_ratios_from(&mut children[index], path, at + 1, new_ratios);
                proof {
                    if ok {
                        assert(trees(children@) =~= cs.update(
                            index as int,
                            children@[index as int]@,
                        ));
                    } else {
                        assert(trees(children@) =~= cs);
                    }
                    lemma_split_view(*root);
                }
                ok
            }
        },
    }
}

/// The weights that a resize gives.
fn resize_ratios(new_ratios: &[u16]) -> (r: Vec<u16>)
    ensures
        r@ == resized(new_ratios@),
{
    let mut weights = clamp_ratios(new_ratios);
    normalize(weights.as_mut_slice());
    let mut i: usize = 0;
    while i < weights.len()
        invariant
            0 <= i <= weights@.len(),
            weights@ == normalized(clamped(new_ratios@)),
            forall|j: int| 0 <= j < i ==> weights@[j] != 0,
        decreases weights@.len() - i,
    {
        if weights[i] == 0 {
            assert(weights@.contains(0));
            let mut raised = clamp_ratios(weights.as_slice());
            normalize(raised.as_mut_slice());
            return raised;
        }
        i = i + 1;
    }
    weights
}

fn clamp_ratios(new_ratios: &[u16]) -> (r: Vec<u16>)
    ensures
        r@ == clamped(new_ratios@),
{
    let mut out: Vec<u16> = Vec::new();
    let mut i: usize = 0;
    while i < new_ratios.len()
        invariant
            0 <= i <= new_ratios@.len(),
            out@.len() == i,
            forall|j: int| 0 <= j < i ==> out@[j] == clamped(new_ratios@)[j],
        decreases new_ratios@.len() - i,
    {
        let r: u16 = new_ratios[i];
        out.push(
            if r < MIN_RATIO {
                MIN_RATIO
            } else {
                r
            },
        );
        i = i + 1;
    }
    assert(out@ =~= clamped(new_ratios@));
    out
}

/// Swap the positions of two panes by exchanging their `pane_index` at the leaves (split ratios
/// untouched). Returns `false`, leaving the tree alone, unless both are distinct leaves.
pub fn swap(root: &mut LayoutNode, a: u32, b: u32) -> (ok: bool)
    ensures
        ok == (a != b && old(root)@.leaves().contains(a) && old(root)@.leaves().contains(b)),
        final(root)@ == if ok {
            swap_tree(old(root)@, a, b)
        } else {
            old(root)@
        },
{
    if a == b {
        return false;
    }
    let leaves = root.leaves();
    if !contains(&leaves, a) || !contains(&leaves, b) {
        return false;
    }
    rename_leaf(root, a, b);
    true
}

/// Whether `v` holds `x`.
pub fn contains(v: &Vec<u32>, x: u32) -> (r: bool)
    ensures
        r == v@.contains(x),
{
    let mut i: usize = 0;
    while i < v.len()
        invariant
            0 <= i <= v@.len(),
            forall|j: int| 0 <= j < i ==> v@[j] != x,
        decreases v@.len() - i,
    {
        if v[i] == x {
            return true;
        }
        i = i + 1;
    }
    false
}

fn rename_leaf(node: &mut LayoutNode, a: u32, b: u32)
    ensures
        final(node)@ == swap_tree(old(node)@, a, b),
    decreases *old(node),
{
    let ghost start = *node;
    match node {
        LayoutNode::Leaf { pane_index } => {
            if *pane_index == a {
                *pane_index = b;
            } else if *pane_index == b {
                *pane_index = a;
            }
        },
        LayoutNode::Split { dir: _, ratios: _, children } => {
            proof {
                lemma_split_view(start);
            }
            rename_leaves(children, a, b);
            proof {
                lemma_split_view(*node);
                match swap_tree(start@, a, b) {
                    Tree::Split(_, _, cs) => {
                        assert(cs =~= trees(node->children@));
                    },
                    Tree::Leaf(_) => {},
                }
            }
        },
    }
}

fn rename_leaves(children: &mut Vec<LayoutNode>, a: u32, b: u32)
    ensures
        final(children)@.len() == old(children)@.len(),
        forall|i: int|
            0 <= i < old(children)@.len() ==> (#[trigger] final(children)@[i])@ == swap_tree(
                old(children)@[i]@,
                a,
                b,
            ),
    decreases *old(children),
{
    let ghost start = *children;
    let mut i: usize = 0;
    while i < children.len()
        invariant
            0 <= i <= children@.len(),
            start == *old(children),
            children@.len() == start@.len(),
            forall|j: int| i <= j < start@.len() ==> children@[j] == start@[j],
            forall|j: int|
                0 <= j < i ==> (#[trigger] children@[j])@ == swap_tree(start@[j]@, a, b),
        decreases children@.len() - i,
    {
        rename_leaf(&mut children[i], a, b);
        i = i + 1;
    }
}

/// Choose which pane should receive focus after `removed` is closed, computed from the tree
/// before the removal: prefer the previous sibling, else the next. Returns `None` when
/// `removed` is the root leaf (no sibling).
pub fn next_focus_after_removal(root: &LayoutNode, removed: u32) -> (r: Option<u32>)
    ensures
        r == focus_tree(root@, removed),
    decreases root,
{
    match root {
        LayoutNode::Leaf { .. } => None,
        LayoutNode::Split { dir: _, ratios: _, children } => {
            proof {
                lemma_split_view(*root);
            }
            let ghost cs = trees(children@);
            match leaf_position(children, removed) {
                Some(pos) => {
                    if pos > 0 {
                        assert(cs[pos - 1] == children@[pos - 1]@);
                        first_leaf(&children[pos - 1])
                    } else if children.len() > 1 {
                        assert(cs[1] == children@[1]@);
                        first_leaf(&children[1])
                    } else {
                        None
                    }
                },
                None => {
                    let mut i: usize = 0;
                    assert(cs.subrange(0, 0) =~= Seq::empty());
                    while i < children.len()
                        invariant
                            0 <= i <= children@.len(),
                            root is Split,
                            *children == root->children,
                            cs == trees(children@),
                            root@ == Tree::Split(root->dir, root->ratios@, cs),
                            !has_leaf_child(cs, removed),
                            focus_forest(cs.subrange(0, i as int), removed) is None,
                        decreases children@.len() - i,
                    {
                        proof {
                            let next = cs.subrange(0, i as int + 1);
                            assert(next.subrange(0, next.len() - 1) =~= cs.subrange(0, i as int));
                            assert(next[next.len() - 1] == children@[i as int]@);
                        }
                        let f = next_focus_after_removal(&children[i], removed);
                        if f.is_some() {
                            proof {
                                lemma_focus_forest_prefix(cs, i as int + 1, removed);
                            }
                            return f;
                        }
                        i = i + 1;
                    }
                    assert(cs.subrange(0, cs.len() as int) =~= cs);
                    None
                },
            }
        },
    }
}

fn first_leaf(node: &LayoutNode) -> (r: Option<u32>)
    ensures
        r == first_of(node@.leaves()),
{
    let leaves = node.leaves();
    if leaves.len() == 0 {
        None
    } else {
        Some(leaves[0])
    }
}

proof fn lemma_focus_forest_prefix(cs: Seq<Tree>, k: int, p: u32)
    requires
        0 <= k <= cs.len(),
        focus_forest(cs.subrange(0, k), p) is Some,
    ensures
        focus_forest(cs, p) == focus_forest(cs.subrange(0, k), p),
    decreases cs.len() - k,
{
    if k < cs.len() {
        let next = cs.subrange(0, k + 1);
        assert(next.subrange(0, next.len() - 1) =~= cs.subrange(0, k));
        lemma_focus_forest_prefix(cs, k + 1, p);
    } else {
        assert(cs.subrange(0, k) =~= cs);
    }
}

} // verus!
