use dup_subtrees::DupIndex;
use dup_subtrees::TreeNode;
use dup_subtrees::serialize_subtree;

#[test]
fn test_to_string() {
    let mut t = TreeNode::new(2);
    t.set_left(Some(TreeNode::new(1)));
    t.set_right(Some(TreeNode::new(3)));

    assert_eq!(serialize_subtree(&t), String::from("((1)2(3))"));
}

#[test]
fn test_serialize_leaf() {
    let t = TreeNode::new(42);
    assert_eq!(serialize_subtree(&t), String::from("(42)"));
}

#[test]
fn test_serialize_one_sided_children() {
    let mut left_only = TreeNode::new(5);
    left_only.set_left(Some(TreeNode::new(1)));
    assert_eq!(serialize_subtree(&left_only), String::from("((1)5)"));

    let mut right_only = TreeNode::new(5);
    right_only.set_right(Some(TreeNode::new(1)));
    assert_eq!(serialize_subtree(&right_only), String::from("(5(1))"));
}

#[test]
fn test_serialize_large_value() {
    let t = TreeNode::new(18446744073709551615);
    assert_eq!(serialize_subtree(&t), String::from("(18446744073709551615)"));
}

#[test]
fn test_serialize_deterministic() {
    let mut t = TreeNode::new(7);
    t.set_left(Some(TreeNode::new(10)));
    assert_eq!(serialize_subtree(&t), serialize_subtree(&t));
}

#[test]
fn test_setters_replace_children() {
    let mut t = TreeNode::new(2);
    t.set_left(Some(TreeNode::new(1)));
    t.set_right(Some(TreeNode::new(3)));
    t.set_left(None);
    assert_eq!(serialize_subtree(&t), String::from("(2(3))"));
    t.set_right(None);
    assert_eq!(serialize_subtree(&t), String::from("(2)"));
}

#[test]
fn test_index_counts_occurrences() {
    let mut index = DupIndex::new();
    let a = String::from("((1)2)");
    let b = String::from("(2(1))");
    assert_eq!(index.bump(&a), 0);
    assert_eq!(index.bump(&a), 1);
    assert_eq!(index.bump(&b), 0);
    assert_eq!(index.bump(&a), 2);
    assert_eq!(index.bump(&b), 1);
}
