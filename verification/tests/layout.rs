use kmuxd::layout::{
    next_focus_after_removal, remove_pane, set_ratios, split, swap, LayoutNode, SplitDir,
};
use kmuxd::ratios::normalize;

fn leaf(i: u32) -> LayoutNode {
    LayoutNode::Leaf { pane_index: i }
}

fn sum(node: &LayoutNode) -> u32 {
    match node {
        LayoutNode::Leaf { .. } => 0,
        LayoutNode::Split { ratios, children, .. } => {
            let s: u32 = ratios.iter().map(|&r| r as u32).sum();
            s.max(children.iter().map(sum).max().unwrap_or(0))
        }
    }
}

fn assert_well_formed(node: &LayoutNode) {
    if let LayoutNode::Split { ratios, children, .. } = node {
        assert_eq!(ratios.len(), children.len(), "arity mismatch");
        let s: u32 = ratios.iter().map(|&r| r as u32).sum();
        assert_eq!(s, 1000, "ratios must sum to 1000");
        for c in children {
            assert_well_formed(c);
        }
    }
}

#[test]
fn normalize_sums_to_1000() {
    let mut r = vec![1, 1, 1];
    normalize(&mut r);
    assert_eq!(r.iter().map(|&x| x as u32).sum::<u32>(), 1000);
    // Largest-remainder gives the leftover unit to the first index on ties.
    assert_eq!(r, vec![334, 333, 333]);
}

#[test]
fn normalize_all_zero_is_equal_split() {
    let mut r = vec![0, 0, 0, 0];
    normalize(&mut r);
    assert_eq!(r, vec![250, 250, 250, 250]);
}

#[test]
fn normalize_edge_cases() {
    let mut none: Vec<u16> = vec![];
    normalize(&mut none);
    assert!(none.is_empty());

    let mut thirds = vec![0, 0, 0];
    normalize(&mut thirds);
    assert_eq!(thirds, vec![334, 333, 333]);

    // The largest remainders win the leftover units, not the largest weights.
    let mut r = vec![3, 3, 1];
    normalize(&mut r);
    assert_eq!(r, vec![429, 428, 143]);

    // More weights than units: the first thousand get one each.
    let mut many = vec![0u16; 1500];
    normalize(&mut many);
    assert_eq!(many.iter().map(|&x| x as u32).sum::<u32>(), 1000);
    assert_eq!(many[999], 1);
    assert_eq!(many[1000], 0);
}

#[test]
fn normalize_leaves_normal_weights_alone() {
    let mut r = vec![700, 299, 1];
    normalize(&mut r);
    assert_eq!(r, vec![700, 299, 1]);
}

#[test]
fn split_root_leaf_creates_split() {
    let mut tree = leaf(0);
    assert!(split(&mut tree, 0, 1, SplitDir::Horizontal));
    assert_eq!(tree.leaves(), vec![0, 1]);
    assert_well_formed(&tree);
    assert_eq!(sum(&tree), 1000);
}

#[test]
fn split_same_dir_appends_sibling_flat() {
    let mut tree = leaf(0);
    split(&mut tree, 0, 1, SplitDir::Horizontal);
    // Splitting pane 1 horizontally again appends a third sibling (no nesting).
    split(&mut tree, 1, 2, SplitDir::Horizontal);
    match &tree {
        LayoutNode::Split { children, dir, ratios } => {
            assert_eq!(*dir, SplitDir::Horizontal);
            assert_eq!(children.len(), 3, "should be a flat 3-way split");
            assert_eq!(*ratios, vec![500, 250, 250]);
        }
        _ => panic!("expected split"),
    }
    assert_eq!(tree.leaves(), vec![0, 1, 2]);
    assert_well_formed(&tree);
}

#[test]
fn split_orthogonal_dir_nests() {
    let mut tree = leaf(0);
    split(&mut tree, 0, 1, SplitDir::Horizontal);
    // Splitting pane 1 vertically nests it.
    split(&mut tree, 1, 2, SplitDir::Vertical);
    match &tree {
        LayoutNode::Split { children, .. } => {
            assert_eq!(children.len(), 2);
            assert!(matches!(children[1], LayoutNode::Split { .. }));
        }
        _ => panic!("expected split"),
    }
    assert_eq!(tree.leaves(), vec![0, 1, 2]);
    assert_well_formed(&tree);
}

#[test]
fn split_of_an_absent_pane_changes_nothing() {
    let mut tree = leaf(0);
    assert!(!split(&mut tree, 7, 1, SplitDir::Horizontal));
    assert_eq!(tree, leaf(0));
    split(&mut tree, 0, 1, SplitDir::Vertical);
    let before = tree.clone();
    assert!(!split(&mut tree, 7, 2, SplitDir::Horizontal));
    assert_eq!(tree, before);
}

#[test]
fn remove_collapses_parent_to_single_child() {
    let mut tree = leaf(0);
    split(&mut tree, 0, 1, SplitDir::Horizontal);
    // Remove pane 1: the split collapses back to a bare leaf 0.
    assert!(remove_pane(&mut tree, 1));
    assert_eq!(tree, leaf(0));
}

#[test]
fn remove_from_three_way_redistributes() {
    let mut tree = leaf(0);
    split(&mut tree, 0, 1, SplitDir::Horizontal);
    split(&mut tree, 1, 2, SplitDir::Horizontal);
    assert!(remove_pane(&mut tree, 1));
    assert_eq!(tree.leaves(), vec![0, 2]);
    assert_well_formed(&tree);
}

#[test]
fn remove_sole_leaf_returns_false() {
    let mut tree = leaf(0);
    assert!(!remove_pane(&mut tree, 0));
    assert_eq!(tree, leaf(0));
}

#[test]
fn remove_undoes_split_at_the_leaves() {
    let mut tree = leaf(0);
    split(&mut tree, 0, 1, SplitDir::Horizontal);
    split(&mut tree, 1, 2, SplitDir::Vertical);
    let before = tree.leaves();
    assert!(split(&mut tree, 2, 3, SplitDir::Vertical));
    assert_eq!(tree.leaves(), vec![0, 1, 2, 3]);
    assert!(remove_pane(&mut tree, 3));
    assert_eq!(tree.leaves(), before);
}

#[test]
fn set_ratios_clamps_and_normalizes() {
    let mut tree = leaf(0);
    split(&mut tree, 0, 1, SplitDir::Horizontal);
    // Path [] points at the root split.
    assert!(set_ratios(&mut tree, &[], &[900, 100]));
    match &tree {
        LayoutNode::Split { ratios, .. } => {
            assert_eq!(ratios.iter().map(|&x| x as u32).sum::<u32>(), 1000);
            assert_eq!(ratios[0], 900);
        }
        _ => panic!("expected split"),
    }
    // A zero is clamped to the minimum.
    assert!(set_ratios(&mut tree, &[], &[1000, 0]));
    match &tree {
        LayoutNode::Split { ratios, .. } => {
            assert!(ratios[1] >= 1);
            assert_eq!(*ratios, vec![980, 20]);
        }
        _ => panic!(),
    }
}

#[test]
fn a_resize_never_collapses_a_pane() {
    let mut tree = leaf(0);
    split(&mut tree, 0, 1, SplitDir::Horizontal);
    assert!(set_ratios(&mut tree, &[], &[65_535, 0]));
    match &tree {
        LayoutNode::Split { ratios, .. } => assert_eq!(*ratios, vec![980, 20]),
        _ => panic!("expected split"),
    }
}

#[test]
fn closing_a_nested_pane_gives_the_tree_back() {
    let mut tree = leaf(0);
    split(&mut tree, 0, 1, SplitDir::Horizontal);
    set_ratios(&mut tree, &[], &[700, 300]);
    let before = tree.clone();
    assert!(split(&mut tree, 1, 2, SplitDir::Vertical));
    assert!(remove_pane(&mut tree, 2));
    assert_eq!(tree, before);
    let mut alone = leaf(4);
    assert!(split(&mut alone, 4, 5, SplitDir::Vertical));
    assert!(remove_pane(&mut alone, 5));
    assert_eq!(alone, leaf(4));
}

#[test]
fn set_ratios_rejects_bad_path_or_arity() {
    let mut tree = leaf(0);
    split(&mut tree, 0, 1, SplitDir::Horizontal);
    // Path into a leaf is invalid.
    assert!(!set_ratios(&mut tree, &[0], &[500, 500]));
    // Wrong arity.
    assert!(!set_ratios(&mut tree, &[], &[1000]));
}

#[test]
fn set_ratios_reaches_a_nested_split() {
    let mut tree = leaf(0);
    split(&mut tree, 0, 1, SplitDir::Horizontal);
    split(&mut tree, 1, 2, SplitDir::Vertical);
    assert!(set_ratios(&mut tree, &[1], &[100, 300]));
    match &tree {
        LayoutNode::Split { children, ratios, .. } => {
            assert_eq!(*ratios, vec![500, 500]);
            match &children[1] {
                LayoutNode::Split { ratios, .. } => assert_eq!(*ratios, vec![250, 750]),
                _ => panic!("expected a nested split"),
            }
        }
        _ => panic!("expected split"),
    }
    assert!(!set_ratios(&mut tree, &[2], &[100, 300]));
}

#[test]
fn swap_exchanges_leaves() {
    let mut tree = leaf(0);
    split(&mut tree, 0, 1, SplitDir::Horizontal);
    split(&mut tree, 1, 2, SplitDir::Vertical);
    assert!(swap(&mut tree, 0, 2));
    assert_eq!(tree.leaves(), vec![2, 1, 0]);
    // Swapping a non-existent pane fails.
    assert!(!swap(&mut tree, 0, 99));
}

#[test]
fn swap_twice_gives_the_tree_back() {
    let mut tree = leaf(0);
    split(&mut tree, 0, 1, SplitDir::Horizontal);
    let before = tree.clone();
    assert!(swap(&mut tree, 0, 1));
    assert!(swap(&mut tree, 0, 1));
    assert_eq!(tree, before);
    assert!(!swap(&mut tree, 1, 1));
}

#[test]
fn focus_after_removal_prefers_previous_sibling() {
    let mut tree = leaf(0);
    split(&mut tree, 0, 1, SplitDir::Horizontal);
    split(&mut tree, 1, 2, SplitDir::Horizontal);
    // Removing the middle pane focuses the previous sibling (0).
    assert_eq!(next_focus_after_removal(&tree, 1), Some(0));
    // Removing the first pane focuses the next sibling (1).
    assert_eq!(next_focus_after_removal(&tree, 0), Some(1));
    // Sole-leaf tree has no sibling.
    assert_eq!(next_focus_after_removal(&leaf(5), 5), None);
}
