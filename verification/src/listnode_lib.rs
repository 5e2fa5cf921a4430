use vstd::prelude::*;

verus! {

/// A node of a singly linked list of `i32` values.
#[derive(PartialEq, Eq, Debug)]
pub struct ListNode {
    pub val: i32,
    pub next: Option<Box<ListNode>>,
}

/// The values of a list, from its head to its end.
pub open spec fn list_seq(list: Option<Box<ListNode>>) -> Seq<i32>
    decreases list,
{
    match list {
        None => Seq::empty(),
        Some(node) => seq![node.val] + list_seq(node.next),
    }
}

impl Clone for ListNode {
    fn clone(&self) -> (res: Self)
        ensures
            res == *self,
        decreases self,
    {
        let next = match &self.next {
            None => None,
            Some(node) => Some(Box::new((&**node).clone())),
        };
        ListNode { val: self.val, next }
    }
}

impl ListNode {
    /// A single node holding `val`, with no successor.
    pub fn new(val: i32) -> (node: Self)
        ensures
            node.val == val,
            node.next is None,
    {
        ListNode { next: None, val }
    }
}

/// Builds a linked list that holds the values of `vec` in the same order.
pub fn to_list(vec: Vec<i32>) -> (list: Option<Box<ListNode>>)
    ensures
        list_seq(list) == vec@,
{
    let mut current: Option<Box<ListNode>> = None;
    let mut i: usize = vec.len();
    while i > 0
        invariant
            i <= vec.len(),
            list_seq(current) == vec@.subrange(i as int, vec.len() as int),
        decreases i,
    {
        i = i - 1;
        let mut new_node = ListNode::new(vec[i]);
        new_node.next = current;
        current = Some(Box::new(new_node));
        assert(list_seq(current) =~= vec@.subrange(i as int, vec.len() as int));
    }
    assert(vec@.subrange(0, vec.len() as int) =~= vec@);
    current
}

} // verus!

verus! {

/// Takes the list apart and returns its values, from head to end.
pub fn into_values(list: Option<Box<ListNode>>) -> (values: Vec<i32>)
    ensures
        values@ == list_seq(list),
{
    let mut values: Vec<i32> = Vec::new();
    let mut rest = list;
    while rest.is_some()
        invariant
            values@ + list_seq(rest) == list_seq(list),
        decreases list_seq(rest).len(),
    {
        let node = rest.unwrap();
        let ListNode { val, next } = *node;
        values.push(val);
        rest = next;
        assert(values@ + list_seq(rest) =~= list_seq(list));
    }
    assert(values@ =~= values@ + list_seq(rest));
    values
}

} // verus!

verus! {

/// The values held by a sequence of nodes, in order.
pub open spec fn node_vals(nodes: Seq<Box<ListNode>>) -> Seq<i32> {
    nodes.map_values(|n: Box<ListNode>| n.val)
}

/// Detaches the nodes of the list one by one and returns them in list order.
pub fn into_nodes(list: Option<Box<ListNode>>) -> (nodes: Vec<Box<ListNode>>)
    ensures
        node_vals(nodes@) == list_seq(list),
{
    let mut nodes: Vec<Box<ListNode>> = Vec::new();
    let mut rest = list;
    while rest.is_some()
        invariant
            node_vals(nodes@) + list_seq(rest) == list_seq(list),
        decreases list_seq(rest).len(),
    {
        let ghost before = nodes@;
        let mut node = rest.unwrap();
        let ghost tail = list_seq(node.next);
        let ghost v = node.val;
        rest = node.next.take();
        nodes.push(node);
        assert(node_vals(nodes@) =~= node_vals(before).push(v));
        assert(node_vals(nodes@) + list_seq(rest) =~= node_vals(before) + (seq![v] + tail));
    }
    assert(node_vals(nodes@) =~= node_vals(nodes@) + list_seq(rest));
    nodes
}

} // verus!

verus! {

/// Links the nodes, in order, into one list.
pub fn link_nodes(nodes: Vec<Box<ListNode>>) -> (list: Option<Box<ListNode>>)
    ensures
        list_seq(list) == node_vals(nodes@),
{
    let list = link_nodes_onto(nodes, None);
    assert(node_vals(nodes@) + Seq::<i32>::empty() =~= node_vals(nodes@));
    list
}

/// Links the nodes, in order, in front of the list `tail`.
pub fn link_nodes_onto(nodes: Vec<Box<ListNode>>, tail: Option<Box<ListNode>>) -> (list: Option<Box<ListNode>>)
    ensures
        list_seq(list) == node_vals(nodes@) + list_seq(tail),
{
    let mut nodes = nodes;
    let ghost all = node_vals(nodes@) + list_seq(tail);
    let mut head: Option<Box<ListNode>> = tail;
    while nodes.len() > 0
        invariant
            node_vals(nodes@) + list_seq(head) == all,
        decreases nodes.len(),
    {
        let ghost before = nodes@;
        let ghost old_tail = list_seq(head);
        let mut node = nodes.pop().unwrap();
        let ghost v = node.val;
        node.next = head;
        head = Some(node);
        assert(before =~= nodes@.push(before.last()));
        assert(node_vals(before) =~= node_vals(nodes@).push(v));
        assert(list_seq(head) =~= seq![v] + old_tail);
        assert(node_vals(nodes@) + list_seq(head) =~= node_vals(before) + old_tail);
    }
    assert(node_vals(nodes@) =~= Seq::<i32>::empty());
    assert(list_seq(head) =~= node_vals(nodes@) + list_seq(head));
    head
}

} // verus!
