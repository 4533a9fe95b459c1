use dup_subtrees::TreeNode;
use dup_subtrees::find_duplicate_subtrees;
use dup_subtrees::find_duplicate_subtrees_opt;

#[test]
fn test_trivial_tree_not_duplicate() {
    let t = TreeNode::new(42);
    assert_eq!(find_duplicate_subtrees(&t), vec![]);
}

#[test]
fn test_duplicate_leaves() {
    let mut t = TreeNode::new(2);
    let leaf = TreeNode::new(15);
    t.set_left(Some(leaf.clone()));
    t.set_right(Some(leaf.clone()));

    let expected = vec![leaf];

    assert_eq!(find_duplicate_subtrees(&t), expected);
}

/// Make sure subtrees that differ only in which side a child hangs on do
/// not collide. Test payload:
///       42
///      5  5
///     1    1
#[test]
fn test_branch_position_matters() {
    let mut root = TreeNode::new(42);
    let mut l_chld = TreeNode::new(5);
    let mut r_chld = l_chld.clone();
    let leaf = TreeNode::new(1);
    l_chld.set_left(Some(leaf.clone()));
    r_chld.set_right(Some(leaf.clone()));

    root.set_left(Some(l_chld.clone()));
    root.set_right(Some(r_chld.clone()));

    let expected = vec![leaf];

    assert_eq!(find_duplicate_subtrees(&root), expected);
}

///     42
///    5  3
///   1 2  5
///       1 2
#[test]
fn test_bigger_subtree() {
    let mut root = TreeNode::new(42);
    let mut l_chld = TreeNode::new(5);
    let mut r_chld = TreeNode::new(3);
    let l_leaf = TreeNode::new(1);
    let r_leaf = TreeNode::new(2);
    l_chld.set_left(Some(l_leaf.clone()));
    l_chld.set_right(Some(r_leaf.clone()));
    r_chld.set_right(Some(l_chld.clone()));

    root.set_left(Some(l_chld.clone()));
    root.set_right(Some(r_chld.clone()));

    let expected = vec![l_leaf, r_leaf, l_chld];

    assert_eq!(find_duplicate_subtrees(&root), expected);
}

#[test]
fn test_absent_root_reports_nothing() {
    assert_eq!(find_duplicate_subtrees_opt(None), vec![]);
}

#[test]
fn test_present_root_same_as_direct_call() {
    let mut t = TreeNode::new(2);
    let leaf = TreeNode::new(15);
    t.set_left(Some(leaf.clone()));
    t.set_right(Some(leaf.clone()));
    assert_eq!(find_duplicate_subtrees_opt(Some(&t)), find_duplicate_subtrees(&t));
}

/// A subtree occurring three times is still reported exactly once.
///      7
///     5  1
///    1 1
#[test]
fn test_triple_occurrence_reported_once() {
    let mut root = TreeNode::new(7);
    let mut l_chld = TreeNode::new(5);
    let leaf = TreeNode::new(1);
    l_chld.set_left(Some(leaf.clone()));
    l_chld.set_right(Some(leaf.clone()));
    root.set_left(Some(l_chld));
    root.set_right(Some(leaf.clone()));

    assert_eq!(find_duplicate_subtrees(&root), vec![leaf]);
}

/// Swapping the children of one of two identical subtrees removes that
/// pair from the report; duplicates below them remain.
#[test]
fn test_swap_removes_pair_from_report() {
    let mut before = TreeNode::new(9);
    let mut inner = TreeNode::new(4);
    let leaf1 = TreeNode::new(1);
    let leaf2 = TreeNode::new(2);
    inner.set_left(Some(leaf1.clone()));
    inner.set_right(Some(leaf2.clone()));
    before.set_left(Some(inner.clone()));
    before.set_right(Some(inner.clone()));

    assert_eq!(
        find_duplicate_subtrees(&before),
        vec![leaf1.clone(), leaf2.clone(), inner.clone()]
    );

    let mut swapped = TreeNode::new(4);
    swapped.set_left(Some(leaf2.clone()));
    swapped.set_right(Some(leaf1.clone()));
    let mut after = TreeNode::new(9);
    after.set_left(Some(inner));
    after.set_right(Some(swapped));

    // the two 4-subtrees no longer match; the leaves still do, and the
    // right subtree meets leaf 2 before leaf 1
    assert_eq!(find_duplicate_subtrees(&after), vec![leaf2, leaf1]);
}

/// Equal values alone are not duplicates when the shapes below differ.
#[test]
fn test_same_value_different_shape_not_duplicate() {
    let mut root = TreeNode::new(5);
    let mut l_chld = TreeNode::new(5);
    l_chld.set_left(Some(TreeNode::new(1)));
    root.set_left(Some(l_chld));
    root.set_right(Some(TreeNode::new(5)));

    assert_eq!(find_duplicate_subtrees(&root), vec![]);
}
