use rustcoding::invert_tree::Solution as InvertSolution;
use rustcoding::same_tree::Solution as SameSolution;
use rustcoding::treenode_lib::{to_tree, TreeNode, TreeWrapper};
use rustcoding::zigzag_level_order::Solution as ZigzagSolution;
use rustcoding::zigzag_level_order_001::Solution as Zigzag001Solution;
use rustcoding::zigzag_level_order_001::TreeNode as Node001;

fn new_node(val: i32, left: Option<Box<TreeNode>>, right: Option<Box<TreeNode>>) -> Option<Box<TreeNode>> {
    Some(Box::new(TreeNode { val, left, right }))
}

fn new_leaf(val: i32) -> Option<Box<TreeNode>> {
    Some(Box::new(TreeNode::new(val)))
}

#[test]
fn lib_test_tree_visualization() {
    let tree = to_tree(vec![Some(4), Some(2), Some(7), Some(1), Some(3), Some(6), Some(9)]);
    println!("\nTree visualization:\n{}", TreeWrapper(&tree).render());
}

#[test]
fn tree_rendering_draws_right_above_left() {
    let tree = to_tree(vec![Some(4), Some(2), Some(7), Some(1), Some(3), Some(6), Some(9)]);
    let expected = "    ┌── 9\n┌── 7\n│   └── 6\n4\n│   ┌── 3\n└── 2\n    └── 1\n";
    assert_eq!(TreeWrapper(&tree).render(), expected);
    assert_eq!(TreeWrapper(&None).render(), "(empty)\n");
    assert_eq!(TreeWrapper(&to_tree(vec![Some(1)])).render(), "1\n");
}

#[test]
fn to_tree_builds_level_order_with_gaps() {
    let tree = to_tree(vec![Some(1), None, Some(2), None, Some(3)]);
    assert_eq!(tree, new_node(1, None, new_node(2, None, new_leaf(3))));
    assert_eq!(to_tree(vec![]), None);
    assert_eq!(to_tree(vec![None, Some(1)]), None);
}

#[test]
fn invert_test_empty_tree() {
    let inverted = InvertSolution::invert_tree(None);
    assert_eq!(inverted, None);
}

#[test]
fn test_single_node_tree() {
    let inverted = InvertSolution::invert_tree(new_leaf(1));
    assert_eq!(inverted, new_leaf(1));
}

#[test]
fn test_simple_tree() {
    let root = new_node(4, new_leaf(2), new_node(7, new_leaf(6), new_leaf(9)));
    let expected = new_node(4, new_node(7, new_leaf(9), new_leaf(6)), new_leaf(2));
    let inverted = InvertSolution::invert_tree(root);
    assert_eq!(inverted, expected);
}

#[test]
fn test_another_tree() {
    let root = new_node(2, new_leaf(1), new_leaf(3));
    let expected = new_node(2, new_leaf(3), new_leaf(1));
    let inverted = InvertSolution::invert_tree(root);
    assert_eq!(inverted, expected);
}

#[test]
fn test_full_tree() {
    let root = new_node(4, new_node(2, new_leaf(1), new_leaf(3)), new_node(7, new_leaf(6), new_leaf(9)));
    let expected = new_node(4, new_node(7, new_leaf(9), new_leaf(6)), new_node(2, new_leaf(3), new_leaf(1)));
    let inverted = InvertSolution::invert_tree(root);
    assert_eq!(inverted, expected);
}

#[test]
fn inverting_twice_gives_the_tree_back() {
    let tree = to_tree(vec![Some(5), Some(3), Some(8), None, Some(4), Some(7)]);
    let twice = InvertSolution::invert_tree(InvertSolution::invert_tree(tree.clone()));
    assert_eq!(twice, tree);
}

#[test]
fn test_same_trees() {
    let p = new_node(1, new_leaf(2), new_leaf(3));
    let q = new_node(1, new_leaf(2), new_leaf(3));
    assert!(SameSolution::is_same_tree(p, q));
}

#[test]
fn test_different_structure() {
    let p = new_node(1, new_leaf(2), None);
    let q = new_node(1, None, new_leaf(2));
    assert!(!SameSolution::is_same_tree(p, q));
}

#[test]
fn test_different_values() {
    let p = new_node(1, new_leaf(2), new_leaf(3));
    let q = new_node(1, new_leaf(2), new_leaf(4));
    assert!(!SameSolution::is_same_tree(p, q));
}

#[test]
fn test_one_empty() {
    let p = new_node(1, None, None);
    assert!(!SameSolution::is_same_tree(p, None));
}

#[test]
fn test_other_one_empty() {
    let q = new_node(1, None, None);
    assert!(!SameSolution::is_same_tree(None, q));
}

#[test]
fn test_both_empty() {
    assert!(SameSolution::is_same_tree(None, None));
}

#[test]
fn test_complex_same_trees() {
    let p = new_node(5, new_node(3, new_leaf(1), new_leaf(4)), new_node(8, new_leaf(7), new_leaf(9)));
    let q = new_node(5, new_node(3, new_leaf(1), new_leaf(4)), new_node(8, new_leaf(7), new_leaf(9)));
    assert!(SameSolution::is_same_tree(p, q));
}

#[test]
fn test_complex_different_trees() {
    let p = new_node(5, new_node(3, new_leaf(1), new_leaf(4)), new_node(8, new_leaf(7), new_leaf(9)));
    let q = new_node(5, new_node(3, new_leaf(1), new_leaf(4)), new_node(8, new_leaf(7), new_leaf(10)));
    assert!(!SameSolution::is_same_tree(p, q));
}

#[test]
fn the_three_same_tree_checks_agree() {
    let p = new_node(5, new_leaf(3), None);
    let q = new_node(5, new_leaf(3), None);
    let r = new_node(5, None, new_leaf(3));
    assert!(SameSolution::is_same_tree_r1(p.clone(), q.clone()));
    assert!(SameSolution::is_same_tree_r2(p.clone(), q.clone()));
    assert!(!SameSolution::is_same_tree_r1(p.clone(), r.clone()));
    assert!(!SameSolution::is_same_tree_r2(p, r));
}

#[test]
fn main_test_zigzag_level_order() {
    let root = to_tree(vec![Some(3), Some(9), Some(20), None, None, Some(15), Some(7)]);
    let result = ZigzagSolution::zigzag_level_order(root);
    let expected = vec![vec![3], vec![20, 9], vec![15, 7]];
    assert_eq!(result, expected);
}

#[test]
fn main_test_empty_tree() {
    let result = ZigzagSolution::zigzag_level_order(None);
    let expected: Vec<Vec<i32>> = vec![];
    assert_eq!(result, expected);
}

#[test]
fn lib_test_zigzag_level_order() {
    let mut root = Node001::new(3);
    let left = Node001::new(9);
    let mut right = Node001::new(20);
    let right_left = Node001::new(15);
    let right_right = Node001::new(7);
    right.left = Some(Box::new(right_left));
    right.right = Some(Box::new(right_right));
    root.left = Some(Box::new(left));
    root.right = Some(Box::new(right));
    let result = Zigzag001Solution::zigzag_level_order(Some(Box::new(root)));
    let expected = vec![vec![3], vec![20, 9], vec![15, 7]];
    assert_eq!(result, expected);
}

#[test]
fn lib_test_empty_tree() {
    let result = Zigzag001Solution::zigzag_level_order(None);
    let expected: Vec<Vec<i32>> = vec![];
    assert_eq!(result, expected);
}

#[test]
fn zigzag_reverses_every_second_level() {
    let root = to_tree(vec![Some(1), Some(2), Some(3), Some(4), Some(5), Some(6), Some(7)]);
    assert_eq!(ZigzagSolution::zigzag_level_order(root), vec![vec![1], vec![3, 2], vec![4, 5, 6, 7]]);
}
