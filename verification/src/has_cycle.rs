use vstd::prelude::*;
use vstd::set_lib::{lemma_int_range, lemma_len_subset, set_int_range};

verus! {

/// A singly linked list whose last node may point back into the list, held as an arena:
/// node `i` holds `values[i]` and links to node `next[i]`; the list starts at `head`.
pub struct CycleList {
    pub values: Vec<i32>,
    pub next: Vec<Option<usize>>,
    pub head: Option<usize>,
}

/// The nodes are the value entries, and every link and the head name a node.
pub open spec fn list_wf(l: CycleList) -> bool {
    &&& l.next@.len() == l.values@.len()
    &&& forall|i: int| 0 <= i < l.next@.len() ==> (#[trigger] l.next@[i] matches Some(j) ==> j < l.values@.len())
    &&& (l.head matches Some(h) ==> h < l.values@.len())
}

/// One step along the list from `node`, or nowhere from nowhere.
pub open spec fn step(l: CycleList, node: Option<usize>) -> Option<usize> {
    match node {
        Some(i) => l.next@[i as int],
        None => None,
    }
}

/// The node `k` steps after `start`, or `None` once the list has ended.
pub open spec fn walk(l: CycleList, start: Option<usize>, k: nat) -> Option<usize>
    decreases k,
{
    if k == 0 {
        start
    } else {
        match start {
            Some(i) => walk(l, l.next@[i as int], (k - 1) as nat),
            None => None,
        }
    }
}

/// Following the links from the head never reaches the end: the list has a cycle.
pub open spec fn never_ends(l: CycleList) -> bool {
    forall|k: nat| #[trigger] walk(l, l.head, k) is Some
}

proof fn lemma_walk_step(l: CycleList, start: Option<usize>, k: nat)
    ensures
        walk(l, start, k + 1) == step(l, walk(l, start, k)),
    decreases k,
{
    match start {
        Some(i) => {
            if k > 0 {
                lemma_walk_step(l, l.next@[i as int], (k - 1) as nat);
                assert(walk(l, start, k) == walk(l, l.next@[i as int], (k - 1) as nat));
            } else {
                assert(walk(l, l.next@[i as int], 0) == l.next@[i as int]);
            }
            assert(walk(l, start, k + 1) == walk(l, l.next@[i as int], k));
        },
        None => {
            if k > 0 {
                assert(walk(l, start, k) is None);
            }
        },
    }
}

proof fn lemma_walk_ended(l: CycleList, start: Option<usize>, k: nat, m: nat)
    requires
        walk(l, start, k) is None,
    ensures
        walk(l, start, k + m) is None,
    decreases m,
{
    if m > 0 {
        lemma_walk_ended(l, start, k, (m - 1) as nat);
        lemma_walk_step(l, start, (k + m - 1) as nat);
    }
}

proof fn lemma_walk_shift(l: CycleList, start: Option<usize>, a: nat, b: nat, m: nat)
    requires
        walk(l, start, a) == walk(l, start, b),
    ensures
        walk(l, start, a + m) == walk(l, start, b + m),
    decreases m,
{
    if m > 0 {
        lemma_walk_shift(l, start, a, b, (m - 1) as nat);
        lemma_walk_step(l, start, (a + m - 1) as nat);
        lemma_walk_step(l, start, (b + m - 1) as nat);
    }
}

/// After the first repeat, the walk repeats with period `p`.
proof fn lemma_walk_period(l: CycleList, start: Option<usize>, a: nat, p: nat, x: nat, c: nat)
    requires
        p > 0,
        walk(l, start, a) == walk(l, start, a + p),
        x >= a,
    ensures
        walk(l, start, x + c * p) == walk(l, start, x),
    decreases c,
{
    if c > 0 {
        let c1 = (c - 1) as nat;
        lemma_walk_period(l, start, a, p, x, c1);
        let m = (x - a + c1 * p) as nat;
        lemma_walk_shift(l, start, a, a + p, m);
        assert(x + c * p == a + p + m) by (nonlinear_arith)
            requires
                x >= a,
                c == c1 + 1,
                m == x - a + c1 * p,
        ;
        assert(x + c1 * p == a + m);
        assert(walk(l, start, a + m) == walk(l, start, a + p + m));
        assert(walk(l, start, x + c * p) == walk(l, start, a + p + m));
    } else {
        assert(c * p == 0) by (nonlinear_arith)
            requires
                c == 0,
        ;
    }
}

/// A walk that visits nodes for `n + 1` steps, with `n` nodes, repeats one.
proof fn lemma_pigeonhole(l: CycleList, n: nat)
    requires
        list_wf(l),
        n == l.values@.len(),
        forall|k: nat| k <= n ==> #[trigger] walk(l, l.head, k) is Some,
    ensures
        exists|a: nat, b: nat| a < b <= n && walk(l, l.head, a) == walk(l, l.head, b),
{
    let q = Seq::new(n + 1, |i: int| walk(l, l.head, i as nat)->0 as int);
    assert forall|i: int| 0 <= i < q.len() implies 0 <= #[trigger] q[i] < n by {
        lemma_walk_in_range(l, i as nat);
    }
    if q.no_duplicates() {
        q.unique_seq_to_set();
        lemma_int_range(0, n as int);
        assert(q.to_set().subset_of(set_int_range(0, n as int))) by {
            assert forall|x: int| q.to_set().contains(x) implies set_int_range(0, n as int).contains(x) by {
                let i = choose|i: int| 0 <= i < q.len() && q[i] == x;
            }
        }
        lemma_len_subset(q.to_set(), set_int_range(0, n as int));
        assert(false);
    }
    let (a, b) = choose|a: int, b: int| 0 <= a < q.len() && 0 <= b < q.len() && a != b && q[a] == q[b];
    if a < b {
        assert(walk(l, l.head, a as nat) == walk(l, l.head, b as nat));
    } else {
        assert(walk(l, l.head, b as nat) == walk(l, l.head, a as nat));
    }
}

proof fn lemma_walk_in_range(l: CycleList, k: nat)
    requires
        list_wf(l),
    ensures
        walk(l, l.head, k) matches Some(i) ==> i < l.values@.len(),
    decreases k,
{
    if k > 0 {
        lemma_walk_in_range(l, (k - 1) as nat);
        lemma_walk_step(l, l.head, (k - 1) as nat);
        match walk(l, l.head, (k - 1) as nat) {
            Some(i) => {
                assert(l.next@[i as int] matches Some(j) ==> j < l.values@.len());
            },
            None => {},
        }
    }
}

/// A list with a cycle has a time `t`, at most its length, at which the walk `t` steps on
/// and the walk `2t` steps on stand at the same node.
proof fn lemma_meeting_time(l: CycleList)
    requires
        list_wf(l),
        never_ends(l),
    ensures
        exists|t: nat| 1 <= t <= l.values@.len() && #[trigger] walk(l, l.head, t) == walk(l, l.head, 2 * t),
{
    let n = l.values@.len();
    assert forall|k: nat| k <= n implies #[trigger] walk(l, l.head, k) is Some by {}
    lemma_pigeonhole(l, n);
    let (a, b) = choose|a: nat, b: nat| a < b <= n && walk(l, l.head, a) == walk(l, l.head, b);
    let p = (b - a) as nat;
    let c = (a / p + 1) as nat;
    let t = c * p;
    assert(t > a && t <= a + p && t >= 1) by (nonlinear_arith)
        requires
            p > 0,
            c == a / p + 1,
            t == c * p,
    ;
    assert(walk(l, l.head, a) == walk(l, l.head, a + p));
    lemma_walk_period(l, l.head, a, p, t, c);
    assert(t + c * p == 2 * t);
}

/// A time `k` past `a` is a whole number of periods `p` after a time in `[a, a + p)`.
proof fn lemma_split_time(k: nat, a: nat, p: nat) -> (r: (nat, nat))
    requires
        p > 0,
        k >= a,
    ensures
        a <= r.1 < a + p,
        r.1 + r.0 * p == k,
{
    let d = (k - a) as nat;
    let c = d / p;
    let rem = d % p;
    assert(d == c * p + rem && rem < p) by (nonlinear_arith)
        requires
            p > 0,
            c == d / p,
            rem == d % p,
    ;
    (c, a + rem)
}

/// No time from the first to `t` has the two walks meet at a node.
pub open spec fn no_meeting_up_to(l: CycleList, t: nat) -> bool {
    forall|u: nat| 1 <= u <= t ==> !(#[trigger] walk(l, l.head, u) is Some && walk(l, l.head, u) == walk(l, l.head, 2 * u))
}

/// Two walks that meet at a node mean a cycle.
proof fn lemma_meeting_means_cycle(l: CycleList, t: nat)
    requires
        t >= 1,
        walk(l, l.head, t) is Some,
        walk(l, l.head, t) == walk(l, l.head, 2 * t),
    ensures
        never_ends(l),
{
    assert forall|k: nat| #[trigger] walk(l, l.head, k) is Some by {
        if k <= 2 * t {
            if walk(l, l.head, k) is None {
                lemma_walk_ended(l, l.head, k, (2 * t - k) as nat);
            }
        } else {
            let (c, x) = lemma_split_time(k, t, t);
            assert(walk(l, l.head, t) == walk(l, l.head, t + t));
            lemma_walk_period(l, l.head, t, t, x, c);
            if walk(l, l.head, x) is None {
                lemma_walk_ended(l, l.head, x, (2 * t - x) as nat);
            }
        }
    }
}

/// Without a cycle, the list ends within its length.
proof fn lemma_ends_early(l: CycleList)
    requires
        list_wf(l),
        !never_ends(l),
    ensures
        walk(l, l.head, l.values@.len()) is None,
{
    let n = l.values@.len();
    if walk(l, l.head, n) is Some {
        assert forall|k: nat| k <= n implies #[trigger] walk(l, l.head, k) is Some by {
            if walk(l, l.head, k) is None {
                lemma_walk_ended(l, l.head, k, (n - k) as nat);
            }
        }
        lemma_pigeonhole(l, n);
        let (a, b) = choose|a: nat, b: nat| a < b <= n && walk(l, l.head, a) == walk(l, l.head, b);
        let p = (b - a) as nat;
        assert forall|k: nat| #[trigger] walk(l, l.head, k) is Some by {
            if k > n {
                let (c, x) = lemma_split_time(k, a, p);
                assert(walk(l, l.head, a) == walk(l, l.head, a + p));
                lemma_walk_period(l, l.head, a, p, x, c);
                assert(x <= n);
            }
        }
        assert(never_ends(l));
    }
}

fn advance(l: &CycleList, node: Option<usize>) -> (r: Option<usize>)
    requires
        list_wf(*l),
        node matches Some(i) ==> i < l.values@.len(),
    ensures
        r == step(*l, node),
        r matches Some(j) ==> j < l.values@.len(),
{
    match node {
        Some(i) => l.next[i],
        None => None,
    }
}

proof fn lemma_no_meeting_extend(l: CycleList, t: nat)
    requires
        no_meeting_up_to(l, t),
        !(walk(l, l.head, t + 1) is Some && walk(l, l.head, t + 1) == walk(l, l.head, 2 * (t + 1))),
    ensures
        no_meeting_up_to(l, t + 1),
{
}

/// While no meeting has happened and the faster walk still goes on, fewer steps than the
/// length have passed.
proof fn lemma_no_meeting_bound(l: CycleList, t: nat)
    requires
        t >= 1,
        no_meeting_up_to(l, t),
        walk(l, l.head, (2 * (t - 1)) as nat) is Some,
        never_ends(l) ==> exists|m: nat| 1 <= m <= l.values@.len() && #[trigger] walk(l, l.head, m) == walk(l, l.head, 2 * m),
        !never_ends(l) ==> walk(l, l.head, l.values@.len()) is None,
    ensures
        t <= l.values@.len(),
{
    let n = l.values@.len();
    if never_ends(l) {
        let m = choose|m: nat| 1 <= m <= n && #[trigger] walk(l, l.head, m) == walk(l, l.head, 2 * m);
        assert(walk(l, l.head, m) is Some);
        if m <= t {
            assert(!(walk(l, l.head, m) is Some && walk(l, l.head, m) == walk(l, l.head, 2 * m)));
        }
    } else {
        if t > n {
            lemma_walk_ended(l, l.head, n, (2 * (t - 1) - n) as nat);
        }
    }
}

/// Detects cycles in linked lists.
pub struct Solutions;

impl Solutions {
    /// Whether the list has a cycle, found by walking it at one and at two steps at a time
    /// until the two walks meet or the faster one ends.
    pub fn has_cycle(head: CycleList) -> (r: bool)
        requires
            list_wf(head),
        ensures
            r == never_ends(head),
    {
        let ghost l = head;
        let ghost n = head.values@.len();
        let mut slow = head.head;
        let mut fast = head.head;
        let ghost mut t: nat = 0;
        proof {
            if never_ends(l) {
                lemma_meeting_time(l);
            } else {
                lemma_ends_early(l);
            }
        }
        while fast.is_some()
            invariant
                l == head,
                list_wf(l),
                n == l.values@.len(),
                slow == walk(l, l.head, t),
                fast == walk(l, l.head, 2 * t),
                t <= n,
                no_meeting_up_to(l, t),
                never_ends(l) ==> exists|m: nat| 1 <= m <= n && #[trigger] walk(l, l.head, m) == walk(l, l.head, 2 * m),
                !never_ends(l) ==> walk(l, l.head, n) is None,
            decreases n - t,
        {
            proof {
                lemma_walk_in_range(l, t);
                lemma_walk_in_range(l, 2 * t);
                lemma_walk_in_range(l, 2 * t + 1);
                lemma_walk_step(l, l.head, t);
                lemma_walk_step(l, l.head, 2 * t);
                lemma_walk_step(l, l.head, 2 * t + 1);
            }
            slow = advance(&head, slow);
            let mid = advance(&head, fast);
            fast = advance(&head, mid);
            let ghost before = t;
            proof {
                t = t + 1;
                assert(2 * t == 2 * before + 2);
            }
            if slow.is_some() && fast.is_some() && slow == fast {
                proof {
                    lemma_meeting_means_cycle(l, t);
                }
                return true;
            }
            proof {
                lemma_no_meeting_extend(l, before);
                lemma_no_meeting_bound(l, t);
            }
        }
        proof {
            if never_ends(l) {
                assert(walk(l, l.head, 2 * t) is Some);
            }
        }
        false
    }
}

/// The list of `values`, linked in order, whose last node links back to node `pos` when
/// one is given; the empty list for no values.
pub fn list_with_cycle(values: Vec<i32>, pos: Option<usize>) -> (l: CycleList)
    requires
        values.len() > 0 && pos is Some ==> pos->0 < values.len(),
    ensures
        list_wf(l),
        l.values@ == values@,
        values@.len() == 0 ==> l.head is None,
        values@.len() > 0 ==> l.head == Some(0usize),
        forall|i: int| 0 <= i < values@.len() - 1 ==> #[trigger] l.next@[i] == Some((i + 1) as usize),
        values@.len() > 0 ==> l.next@[values@.len() - 1] == pos,
        values@.len() > 0 ==> is_chain_to(l, pos),
{
    let n = values.len();
    if n == 0 {
        return CycleList { values, next: Vec::new(), head: None };
    }
    let mut next: Vec<Option<usize>> = Vec::new();
    let mut i: usize = 0;
    while i + 1 < n
        invariant
            0 <= i < n,
            next@.len() == i,
            forall|k: int| 0 <= k < i ==> #[trigger] next@[k] == Some((k + 1) as usize),
        decreases n - i,
    {
        next.push(Some(i + 1));
        i = i + 1;
    }
    next.push(pos);
    CycleList { values, next, head: Some(0) }
}


/// The shape `list_with_cycle` builds: nodes linked in order from the first, the last
/// linking to `pos`.
pub open spec fn is_chain_to(l: CycleList, pos: Option<usize>) -> bool {
    &&& list_wf(l)
    &&& 0 < l.values@.len() <= usize::MAX
    &&& l.head == Some(0usize)
    &&& forall|i: int| 0 <= i < l.values@.len() - 1 ==> #[trigger] l.next@[i] == Some((i + 1) as usize)
    &&& l.next@[l.values@.len() - 1] == pos
}

proof fn lemma_chain_walk(l: CycleList, pos: Option<usize>, k: nat)
    requires
        is_chain_to(l, pos),
        k < l.values@.len(),
    ensures
        walk(l, l.head, k) matches Some(j) && j == k,
    decreases k,
{
    if k > 0 {
        lemma_chain_walk(l, pos, (k - 1) as nat);
        lemma_walk_step(l, l.head, (k - 1) as nat);
        let j = walk(l, l.head, (k - 1) as nat)->0;
        assert(j == k - 1);
        assert(l.next@[j as int] == Some((j + 1) as usize));
    }
}

proof fn lemma_chain_loops(l: CycleList, p: usize, k: nat)
    requires
        is_chain_to(l, Some(p)),
    ensures
        walk(l, l.head, k) matches Some(j) && j < l.values@.len(),
    decreases k,
{
    if k > 0 {
        lemma_chain_loops(l, p, (k - 1) as nat);
        lemma_walk_step(l, l.head, (k - 1) as nat);
        let j = walk(l, l.head, (k - 1) as nat)->0;
        if j < l.values@.len() - 1 {
            assert(l.next@[j as int] == Some((j + 1) as usize));
        }
    }
}

/// A list built by `list_with_cycle` has a cycle exactly when a position to link back to
/// was given: with none, the walk ends after the last node; with one, it never ends.
pub proof fn law_chain_has_cycle_iff_linked_back(l: CycleList, pos: Option<usize>)
    requires
        is_chain_to(l, pos),
    ensures
        never_ends(l) <==> pos is Some,
{
    let n = l.values@.len();
    match pos {
        Some(p) => {
            assert forall|k: nat| #[trigger] walk(l, l.head, k) is Some by {
                lemma_chain_loops(l, p, k);
            }
        },
        None => {
            lemma_chain_walk(l, pos, (n - 1) as nat);
            lemma_walk_step(l, l.head, (n - 1) as nat);
            let j = walk(l, l.head, (n - 1) as nat)->0;
            assert(j == n - 1);
            assert(walk(l, l.head, n) == l.next@[j as int]);
            assert(walk(l, l.head, n) is None);
        },
    }
}

/// A list without nodes has no cycle.
pub proof fn law_empty_list_has_no_cycle(l: CycleList)
    requires
        l.head is None,
    ensures
        !never_ends(l),
{
    assert(walk(l, l.head, 0) is None);
}

} // verus!
