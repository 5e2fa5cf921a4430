use vstd::prelude::*;
use crate::text::{push_char, push_decimal_i64, push_str, decimal};

verus! {

/// A node of a binary tree of `i32` values.
#[derive(PartialEq, Eq, Debug)]
pub struct TreeNode {
    pub val: i32,
    pub left: Option<Box<TreeNode>>,
    pub right: Option<Box<TreeNode>>,
}

impl Clone for TreeNode {
    fn clone(&self) -> (res: Self)
        ensures
            res == *self,
        decreases self,
    {
        let left = match &self.left {
            None => None,
            Some(node) => Some(Box::new((&**node).clone())),
        };
        let right = match &self.right {
            None => None,
            Some(node) => Some(Box::new((&**node).clone())),
        };
        TreeNode { val: self.val, left, right }
    }
}

impl TreeNode {
    /// A leaf holding `val`.
    pub fn new(val: i32) -> (node: Self)
        ensures
            node.val == val,
            node.left is None,
            node.right is None,
    {
        TreeNode { val, left: None, right: None }
    }
}

/// The number of present entries among `s`.
pub open spec fn count_present(s: Seq<Option<i32>>) -> nat
    decreases s.len(),
{
    if s.len() == 0 {
        0
    } else {
        count_present(s.drop_last()) + if s.last() is Some { 1nat } else { 0nat }
    }
}

/// The subtree rooted at entry `p` of a level-order description: the `k`-th present entry
/// (counting from zero) takes entries `2k + 1` and `2k + 2` as its left and right children;
/// absent entries stand for missing nodes.
pub open spec fn level_order_subtree(nodes: Seq<Option<i32>>, p: int) -> Option<Box<TreeNode>>
    decreases nodes.len() - p,
{
    if p < 0 || p >= nodes.len() || nodes[p] is None {
        None
    } else {
        let l: int = 2 * (count_present(nodes.take(p)) as int) + 1;
        let r: int = l + 1;
        Some(Box::new(TreeNode {
            val: nodes[p]->0,
            left: if p < l < nodes.len() { level_order_subtree(nodes, l) } else { None },
            right: if p < r < nodes.len() { level_order_subtree(nodes, r) } else { None },
        }))
    }
}

proof fn lemma_count_present_step(s: Seq<Option<i32>>, p: int)
    requires
        0 <= p < s.len(),
    ensures
        count_present(s.take(p + 1)) == count_present(s.take(p)) + if s[p] is Some { 1nat } else { 0nat },
        count_present(s.take(p)) <= p,
    decreases p,
{
    assert(s.take(p + 1).drop_last() =~= s.take(p));
    if p > 0 {
        lemma_count_present_step(s, p - 1);
    } else {
        assert(s.take(0) =~= Seq::<Option<i32>>::empty());
    }
}

fn build_subtree(nodes: &Vec<Option<i32>>, ranks: &Vec<usize>, p: usize) -> (tree: Option<Box<TreeNode>>)
    requires
        p < nodes.len(),
        ranks.len() == nodes.len(),
        forall|i: int| 0 <= i < nodes.len() ==> #[trigger] ranks[i] == count_present(nodes@.take(i)),
    ensures
        tree == level_order_subtree(nodes@, p as int),
    decreases nodes.len() - p,
{
    match nodes[p] {
        None => None,
        Some(val) => {
            let r = ranks[p];
            let n = nodes.len();
            let mut left: Option<Box<TreeNode>> = None;
            let mut right: Option<Box<TreeNode>> = None;
            if r < n / 2 {
                let l = 2 * r + 1;
                if p < l {
                    left = build_subtree(nodes, ranks, l);
                }
                if l + 1 < n && p < l + 1 {
                    right = build_subtree(nodes, ranks, l + 1);
                }
            }
            Some(Box::new(TreeNode { val, left, right }))
        },
    }
}

/// Builds a binary tree from its level-order description, as LeetCode writes trees: the root
/// first, then the children of each present node in turn, `None` for a missing child.
/// Entries that no present node reaches are ignored; an empty description or an absent first
/// entry gives the empty tree.
pub fn to_tree(nodes: Vec<Option<i32>>) -> (tree: Option<Box<TreeNode>>)
    ensures
        tree == level_order_subtree(nodes@, 0),
{
    if nodes.len() == 0 {
        return None;
    }
    let mut ranks: Vec<usize> = Vec::new();
    let mut count: usize = 0;
    for i in 0..nodes.len()
        invariant
            ranks.len() == i,
            count == count_present(nodes@.take(i as int)),
            count <= i,
            forall|j: int| 0 <= j < i ==> #[trigger] ranks[j] == count_present(nodes@.take(j)),
    {
        proof {
            lemma_count_present_step(nodes@, i as int);
        }
        ranks.push(count);
        if nodes[i].is_some() {
            count = count + 1;
        }
    }
    build_subtree(&nodes, &ranks, 0)
}

/// The tree with every left and right child swapped, at every level.
pub open spec fn mirror(tree: Option<Box<TreeNode>>) -> Option<Box<TreeNode>>
    decreases tree,
{
    match tree {
        None => None,
        Some(node) => Some(Box::new(TreeNode { val: node.val, left: mirror(node.right), right: mirror(node.left) })),
    }
}

/// Mirroring twice gives back the tree.
pub proof fn lemma_mirror_involution(tree: Option<Box<TreeNode>>)
    ensures
        mirror(mirror(tree)) == tree,
    decreases tree,
{
    if let Some(node) = tree {
        lemma_mirror_involution(node.left);
        lemma_mirror_involution(node.right);
    }
}

/// The nodes of a tree in pre-order (node, left subtree, right subtree), with `None` for
/// every missing child, so that the listing fixes the tree's shape.
pub open spec fn preorder(tree: Option<Box<TreeNode>>) -> Seq<Option<i32>>
    decreases tree,
{
    match tree {
        None => seq![None],
        Some(node) => seq![Some(node.val)] + preorder(node.left) + preorder(node.right),
    }
}

/// The nodes of a tree in post-order (left subtree, right subtree, node), with `None` for
/// every missing child.
pub open spec fn postorder(tree: Option<Box<TreeNode>>) -> Seq<Option<i32>>
    decreases tree,
{
    match tree {
        None => seq![None],
        Some(node) => postorder(node.left) + postorder(node.right) + seq![Some(node.val)],
    }
}

/// Reversing a concatenation reverses each part and swaps them.
pub proof fn lemma_reverse_concat<A>(a: Seq<A>, b: Seq<A>)
    ensures
        (a + b).reverse() == b.reverse() + a.reverse(),
{
    let l = a + b;
    let r = b.reverse() + a.reverse();
    assert(l.reverse().len() == r.len());
    assert forall|i: int| 0 <= i < r.len() implies #[trigger] l.reverse()[i] == r[i] by {
        if i < b.len() {
            assert(l[l.len() - 1 - i] == b[b.len() - 1 - i]);
        } else {
            assert(l[l.len() - 1 - i] == a[a.len() - 1 - (i - b.len())]);
        }
    }
    assert(l.reverse() =~= r);
}

/// Mirroring a tree reverses it: listing the mirrored tree in post-order gives the
/// pre-order listing of the tree backwards, missing children included. As these listings
/// fix a tree, this says that every node, whatever its value, has its children swapped.
pub proof fn law_mirror_reverses_traversal(tree: Option<Box<TreeNode>>)
    ensures
        postorder(mirror(tree)) == preorder(tree).reverse(),
    decreases tree,
{
    match tree {
        None => {
            assert(seq![None::<i32>].reverse() =~= seq![None::<i32>]);
        },
        Some(node) => {
            law_mirror_reverses_traversal(node.left);
            law_mirror_reverses_traversal(node.right);
            let v = seq![Some(node.val)];
            let pl = preorder(node.left);
            let pr = preorder(node.right);
            lemma_reverse_concat(v + pl, pr);
            lemma_reverse_concat(v, pl);
            assert(v.reverse() =~= v);
            assert(preorder(tree) == v + pl + pr);
            assert(postorder(mirror(tree)) == postorder(mirror(node.right)) + postorder(mirror(node.left)) + v);
        },
    }
}

/// The text that draws a subtree below `prefix`: the right subtree above the node, the left
/// subtree below it, each line led by the branches that join it to its parent.
pub open spec fn drawn_subtree(node: TreeNode, prefix: Seq<char>, is_left: bool) -> Seq<char>
    decreases node,
{
    let above = match node.right {
        Some(right) => drawn_subtree(*right, prefix + if is_left { "│   "@ } else { "    "@ }, false),
        None => Seq::empty(),
    };
    let below = match node.left {
        Some(left) => drawn_subtree(*left, prefix + if is_left { "    "@ } else { "│   "@ }, true),
        None => Seq::empty(),
    };
    above + prefix + (if is_left { "└── "@ } else { "┌── "@ }) + decimal(node.val as int) + seq!['\n'] + below
}

/// The text that draws a whole tree: `(empty)` for the empty tree, otherwise the right
/// subtree, the root's value and the left subtree, one node per line.
pub open spec fn drawn_tree(tree: Option<Box<TreeNode>>) -> Seq<char> {
    match tree {
        None => "(empty)"@ + seq!['\n'],
        Some(root) => {
            let above = match root.right {
                Some(right) => drawn_subtree(*right, Seq::empty(), false),
                None => Seq::empty(),
            };
            let below = match root.left {
                Some(left) => drawn_subtree(*left, Seq::empty(), true),
                None => Seq::empty(),
            };
            above + decimal(root.val as int) + seq!['\n'] + below
        },
    }
}

/// A view of a tree that draws it as text.
pub struct TreeWrapper<'a>(pub &'a Option<Box<TreeNode>>);

fn branch_mark(is_left: bool) -> (mark: &'static str)
    ensures
        mark@ == if is_left { "└── "@ } else { "┌── "@ },
{
    if is_left { "└── " } else { "┌── " }
}

fn extend_prefix(prefix: &String, bar: bool) -> (extended: String)
    ensures
        extended@ == prefix@ + if bar { "│   "@ } else { "    "@ },
{
    let mut p = prefix.clone();
    if bar { push_str(&mut p, "│   "); } else { push_str(&mut p, "    "); }
    p
}

fn draw_subtree(node: &TreeNode, prefix: &String, is_left: bool) -> (text: String)
    ensures
        text@ == drawn_subtree(*node, prefix@, is_left),
    decreases node,
{
    let mut out = match &node.right {
        Some(right) => {
            let p = extend_prefix(prefix, is_left);
            draw_subtree(right, &p, false)
        },
        None => String::new(),
    };
    let ghost above = out@;
    push_str(&mut out, prefix.as_str());
    push_str(&mut out, branch_mark(is_left));
    push_decimal_i64(&mut out, node.val as i64);
    push_char(&mut out, '\n');
    let ghost line = out@;
    let below = match &node.left {
        Some(left) => {
            let p = extend_prefix(prefix, !is_left);
            draw_subtree(left, &p, true)
        },
        None => String::new(),
    };
    out.append(below.as_str());
    proof {
        assert(line =~= above + prefix@ + (if is_left { "└── "@ } else { "┌── "@ }) + decimal(node.val as int) + seq!['\n']);
    }
    out
}

impl<'a> TreeWrapper<'a> {
    /// Draws the tree as text, one node per line, the right subtree above its parent.
    pub fn render(&self) -> (text: String)
        ensures
            text@ == drawn_tree(*self.0),
    {
        proof {
            reveal_strlit("(empty)");
        }
        let mut out = String::new();
        match self.0 {
            None => {
                push_str(&mut out, "(empty)");
                push_char(&mut out, '\n');
            },
            Some(root) => {
                let empty = String::new();
                match &root.right {
                    Some(right) => out = draw_subtree(right, &empty, false),
                    None => {},
                }
                let ghost above = out@;
                push_decimal_i64(&mut out, root.val as i64);
                push_char(&mut out, '\n');
                let ghost line = out@;
                let below = match &root.left {
                    Some(left) => draw_subtree(left, &empty, true),
                    None => String::new(),
                };
                out.append(below.as_str());
                proof {
                    assert(line =~= above + decimal(root.val as int) + seq!['\n']);
                }
            },
        }
        out
    }
}

} // verus!
