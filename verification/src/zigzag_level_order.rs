use vstd::prelude::*;
use std::collections::VecDeque;
use crate::treenode_lib::TreeNode;

verus! {

/// Level `i` of `a`, or nothing past its end.
pub open spec fn level_at(a: Seq<Seq<i32>>, i: int) -> Seq<i32> {
    if 0 <= i < a.len() { a[i] } else { Seq::empty() }
}

/// Two lists of levels side by side: level `i` of the result is level `i` of `a` followed by
/// level `i` of `b`.
pub open spec fn side_by_side(a: Seq<Seq<i32>>, b: Seq<Seq<i32>>) -> Seq<Seq<i32>> {
    Seq::new(if a.len() >= b.len() { a.len() } else { b.len() }, |i: int| level_at(a, i) + level_at(b, i))
}

/// The values of a tree level by level, each level from left to right.
pub open spec fn tree_levels(tree: Option<Box<TreeNode>>) -> Seq<Seq<i32>>
    decreases tree,
{
    match tree {
        None => Seq::empty(),
        Some(node) => seq![seq![node.val]] + side_by_side(tree_levels(node.left), tree_levels(node.right)),
    }
}

/// The levels of the trees of a forest placed side by side, in order.
pub open spec fn forest_levels(forest: Seq<Box<TreeNode>>) -> Seq<Seq<i32>>
    decreases forest.len(),
{
    if forest.len() == 0 {
        Seq::empty()
    } else {
        side_by_side(forest_levels(forest.drop_last()), tree_levels(Some(forest.last())))
    }
}

/// The root values of a forest, in order.
pub open spec fn root_values(forest: Seq<Box<TreeNode>>) -> Seq<i32> {
    forest.map_values(|n: Box<TreeNode>| n.val)
}

/// The children of the nodes of a forest, in order, each left child before its right.
pub open spec fn children(forest: Seq<Box<TreeNode>>) -> Seq<Box<TreeNode>>
    decreases forest.len(),
{
    if forest.len() == 0 {
        Seq::empty()
    } else {
        children(forest.drop_last()) + present(forest.last().left) + present(forest.last().right)
    }
}

/// The tree as a forest of at most one tree.
pub open spec fn present(tree: Option<Box<TreeNode>>) -> Seq<Box<TreeNode>> {
    match tree {
        None => Seq::empty(),
        Some(node) => seq![node],
    }
}

/// Level `i` of the zigzag order: left to right on even levels, right to left on odd ones.
pub open spec fn zigzag(levels: Seq<Seq<i32>>) -> Seq<Seq<i32>> {
    Seq::new(levels.len(), |i: int| if i % 2 == 0 { levels[i] } else { levels[i].reverse() })
}

/// The values of the nodes at depth `d` (the root at depth `0`), from left to right.
pub open spec fn values_at_depth(tree: Option<Box<TreeNode>>, d: nat) -> Seq<i32>
    decreases tree,
{
    match tree {
        None => Seq::empty(),
        Some(node) => if d == 0 {
            seq![node.val]
        } else {
            values_at_depth(node.left, (d - 1) as nat) + values_at_depth(node.right, (d - 1) as nat)
        },
    }
}

/// The levels of a tree are its depths: level `d` lists, from left to right, the values of
/// the nodes at depth `d`, and past the deepest level there is nothing.
pub proof fn law_levels_are_depths(tree: Option<Box<TreeNode>>, d: nat)
    ensures
        level_at(tree_levels(tree), d as int) == values_at_depth(tree, d),
    decreases tree,
{
    if let Some(node) = tree {
        if d > 0 {
            law_levels_are_depths(node.left, (d - 1) as nat);
            law_levels_are_depths(node.right, (d - 1) as nat);
            let a = tree_levels(node.left);
            let b = tree_levels(node.right);
            let t = tree_levels(tree);
            assert(t == seq![seq![node.val]] + side_by_side(a, b));
            if d < t.len() {
                assert(t[d as int] == side_by_side(a, b)[d - 1]);
            } else {
                assert(level_at(a, d - 1) == Seq::<i32>::empty());
                assert(level_at(b, d - 1) == Seq::<i32>::empty());
                assert(Seq::<i32>::empty() + Seq::<i32>::empty() =~= Seq::<i32>::empty());
            }
        }
    }
}

proof fn lemma_side_by_side_empty_left(b: Seq<Seq<i32>>)
    ensures
        side_by_side(Seq::empty(), b) == b,
{
    assert(side_by_side(Seq::empty(), b) =~= b);
}

proof fn lemma_side_by_side_empty_right(a: Seq<Seq<i32>>)
    ensures
        side_by_side(a, Seq::empty()) == a,
{
    assert(side_by_side(a, Seq::empty()) =~= a);
}

proof fn lemma_side_by_side_assoc(a: Seq<Seq<i32>>, b: Seq<Seq<i32>>, c: Seq<Seq<i32>>)
    ensures
        side_by_side(side_by_side(a, b), c) == side_by_side(a, side_by_side(b, c)),
{
    let l = side_by_side(side_by_side(a, b), c);
    let r = side_by_side(a, side_by_side(b, c));
    assert forall|i: int| 0 <= i < l.len() implies l[i] == r[i] by {
        assert(level_at(side_by_side(a, b), i) == level_at(a, i) + level_at(b, i));
        assert(level_at(side_by_side(b, c), i) == level_at(b, i) + level_at(c, i));
        assert(l[i] =~= r[i]);
    }
    assert(l =~= r);
}

proof fn lemma_side_by_side_cons(x: Seq<i32>, a: Seq<Seq<i32>>, y: Seq<i32>, b: Seq<Seq<i32>>)
    ensures
        side_by_side(seq![x] + a, seq![y] + b) == seq![x + y] + side_by_side(a, b),
{
    let l = side_by_side(seq![x] + a, seq![y] + b);
    let r = seq![x + y] + side_by_side(a, b);
    assert forall|i: int| 0 <= i < l.len() implies l[i] == r[i] by {
        if i > 0 {
            assert(level_at(seq![x] + a, i) == level_at(a, i - 1));
            assert(level_at(seq![y] + b, i) == level_at(b, i - 1));
        }
    }
    assert(l =~= r);
}

/// The levels of a forest of present trees are its root values followed by the levels of
/// the forest of their children.
proof fn lemma_forest_levels_step(forest: Seq<Box<TreeNode>>)
    requires
        forest.len() > 0,
    ensures
        forest_levels(forest) == seq![root_values(forest)] + forest_levels(children(forest)),
    decreases forest.len(),
{
    let init = forest.drop_last();
    let last = forest.last();
    let own = side_by_side(tree_levels(last.left), tree_levels(last.right));
    assert(forest_levels(Seq::<Box<TreeNode>>::empty()) == Seq::<Seq<i32>>::empty());
    assert(tree_levels(Some(last)) == seq![seq![last.val]] + own);
    assert(forest_levels(forest) == side_by_side(forest_levels(init), tree_levels(Some(last))));
    assert(children(forest) == children(init) + present(last.left) + present(last.right));
    lemma_forest_levels_of_concat(children(init), present(last.left), present(last.right));
    assert(forest_levels(present(last.left)) == tree_levels(last.left)) by {
        lemma_forest_levels_present(last.left);
    }
    assert(forest_levels(present(last.right)) == tree_levels(last.right)) by {
        lemma_forest_levels_present(last.right);
    }
    if init.len() == 0 {
        assert(children(init) =~= Seq::<Box<TreeNode>>::empty());
        lemma_side_by_side_empty_left(tree_levels(Some(last)));
        lemma_side_by_side_empty_left(tree_levels(last.left));
        assert(root_values(forest) =~= seq![last.val]);
    } else {
        lemma_forest_levels_step(init);
        lemma_side_by_side_cons(root_values(init), forest_levels(children(init)), seq![last.val], own);
        lemma_side_by_side_assoc(forest_levels(children(init)), tree_levels(last.left), tree_levels(last.right));
        assert(root_values(forest) =~= root_values(init) + seq![last.val]);
    }
}

proof fn lemma_forest_levels_present(tree: Option<Box<TreeNode>>)
    ensures
        forest_levels(present(tree)) == tree_levels(tree),
{
    assert(forest_levels(Seq::<Box<TreeNode>>::empty()) == Seq::<Seq<i32>>::empty());
    if let Some(node) = tree {
        assert(present(tree).drop_last() =~= Seq::<Box<TreeNode>>::empty());
        assert(present(tree).last() == node);
        lemma_side_by_side_empty_left(tree_levels(tree));
    } else {
        assert(present(tree) =~= Seq::<Box<TreeNode>>::empty());
    }
}

proof fn lemma_forest_levels_of_concat(f: Seq<Box<TreeNode>>, g: Seq<Box<TreeNode>>, h: Seq<Box<TreeNode>>)
    requires
        g.len() <= 1,
        h.len() <= 1,
    ensures
        forest_levels(f + g + h) == side_by_side(side_by_side(forest_levels(f), forest_levels(g)), forest_levels(h)),
{
    lemma_forest_levels_append(f, g);
    lemma_forest_levels_append(f + g, h);
}

proof fn lemma_forest_levels_append(f: Seq<Box<TreeNode>>, g: Seq<Box<TreeNode>>)
    requires
        g.len() <= 1,
    ensures
        forest_levels(f + g) == side_by_side(forest_levels(f), forest_levels(g)),
{
    if g.len() == 0 {
        assert(f + g =~= f);
        assert(forest_levels(g) == Seq::<Seq<i32>>::empty());
        lemma_side_by_side_empty_right(forest_levels(f));
    } else {
        assert((f + g).drop_last() =~= f);
        assert((f + g).last() == g.last());
        assert(g.drop_last() =~= Seq::<Box<TreeNode>>::empty());
        assert(forest_levels(Seq::<Box<TreeNode>>::empty()) == Seq::<Seq<i32>>::empty());
        lemma_side_by_side_empty_left(tree_levels(Some(g.last())));
    }
}

/// The values of `v` in reverse order.
pub fn reversed(v: &Vec<i32>) -> (r: Vec<i32>)
    ensures
        r@ == v@.reverse(),
{
    let mut r: Vec<i32> = Vec::new();
    let mut i: usize = v.len();
    while i > 0
        invariant
            i <= v.len(),
            r@ == v@.subrange(i as int, v.len() as int).reverse(),
        decreases i,
    {
        i = i - 1;
        r.push(v[i]);
        assert(r@ =~= v@.subrange(i as int, v.len() as int).reverse());
    }
    assert(v@.subrange(0, v.len() as int) =~= v@);
    r
}

/// Lists the values of a binary tree level by level, alternating direction.
pub struct Solution;

impl Solution {
    /// The values of the tree level by level: the first level left to right, the next right
    /// to left, and so on, alternating.
    pub fn zigzag_level_order(root: Option<Box<TreeNode>>) -> (levels: Vec<Vec<i32>>)
        ensures
            levels@.len() == tree_levels(root).len(),
            forall|i: int| 0 <= i < levels@.len() ==> #[trigger] levels@[i]@ == zigzag(tree_levels(root))[i],
            forall|i: int| 0 <= i < levels@.len() ==> #[trigger] levels@[i]@ == if i % 2 == 0 {
                values_at_depth(root, i as nat)
            } else {
                values_at_depth(root, i as nat).reverse()
            },
    {
        proof {
            assert forall|i: int| 0 <= i < tree_levels(root).len() implies #[trigger] tree_levels(root)[i]
                == values_at_depth(root, i as nat) by {
                law_levels_are_depths(root, i as nat);
            }
        }
        let mut res: Vec<Vec<i32>> = Vec::new();
        let ghost all = tree_levels(root);
        if root.is_none() {
            return res;
        }
        let mut q: VecDeque<Box<TreeNode>> = VecDeque::new();
        q.push_back(root.unwrap());
        let mut lr_flag = true;
        proof {
            lemma_forest_levels_present(root);
            assert(q@ =~= present(root));
            assert(all.skip(0) =~= all);
        }
        while q.len() > 0
            invariant
                forest_levels(q@) == all.skip(res@.len() as int),
                res@.len() <= all.len(),
                lr_flag == (res@.len() % 2 == 0),
                forall|i: int| 0 <= i < res@.len() ==> #[trigger] res@[i]@ == zigzag(all)[i],
            decreases all.len() - res@.len(),
        {
            let ghost forest = q@;
            proof {
                lemma_forest_levels_step(forest);
                assert(all.skip(res@.len() as int).len() > 0);
            }
            let lq = q.len();
            let mut level: Vec<i32> = Vec::new();
            for t in 0..lq
                invariant
                    lq == forest.len(),
                    q@ == forest.skip(t as int) + children(forest.take(t as int)),
                    level@ == root_values(forest.take(t as int)),
            {
                proof {
                    assert(forest.take(t + 1).drop_last() =~= forest.take(t as int));
                    assert(q@[0] == forest[t as int]);
                }
                let node = q.pop_front().unwrap();
                let TreeNode { val, left, right } = *node;
                level.push(val);
                let ghost before = q@;
                if let Some(l) = left {
                    q.push_back(l);
                }
                if let Some(r) = right {
                    q.push_back(r);
                }
                proof {
                    assert(q@ =~= before + present(left) + present(right));
                    assert(forest.skip(t as int).subrange(1, forest.skip(t as int).len() as int) =~= forest.skip(t + 1));
                    assert(q@ =~= forest.skip(t + 1) + children(forest.take(t + 1)));
                    assert(level@ =~= root_values(forest.take(t + 1)));
                }
            }
            proof {
                assert(forest.take(lq as int) =~= forest);
                assert(forest.skip(lq as int) =~= Seq::<Box<TreeNode>>::empty());
                assert(q@ =~= children(forest));
                let d = res@.len() as int;
                assert(all.skip(d)[0] == all[d]);
                assert(all.skip(d + 1) =~= all.skip(d).drop_first());
            }
            let row = if lr_flag { level } else { reversed(&level) };
            res.push(row);
            lr_flag = !lr_flag;
        }
        proof {
            assert(forest_levels(q@) =~= Seq::<Seq<i32>>::empty());
        }
        res
    }
}

} // verus!
