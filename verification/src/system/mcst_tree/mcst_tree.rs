use vstd::prelude::*;
use crate::npcs::npc_action::NpcAction;
use crate::system::mcst_tree::mcst_node::{Node, NodeType, NodeView};

verus! {

/// The nodes of an arena as plain values.
pub open spec fn arena_view(nodes: Seq<Node>) -> Seq<NodeView> {
    nodes.map_values(|n: Node| n@)
}

/// Every parent comes before its child in the arena, and every child index
/// lies in the arena.
pub open spec fn arena_wf(a: Seq<NodeView>) -> bool {
    &&& forall|i: int|
        0 <= i < a.len() ==> match (#[trigger] a[i]).parent {
            Some(p) => p < i,
            None => true,
        }
    &&& forall|i: int, j: int|
        0 <= i < a.len() && 0 <= j < a[i].children.len() ==> (#[trigger] a[i].children[j]) < a.len()
}

/// One of the children of node `i` has the node type `t`.
pub open spec fn has_child_spec(a: Seq<NodeView>, i: int, t: NodeType) -> bool {
    exists|j: int| 0 <= j < a[i].children.len() && #[trigger] a[a[i].children[j] as int].node_type == t
}

/// The height of the subtree under node `i`: 1 for a leaf, otherwise one more
/// than its highest child; the count stops at `fuel` levels.
pub open spec fn height(a: Seq<NodeView>, i: int, fuel: nat) -> nat
    decreases fuel, 0int,
{
    if fuel == 0 {
        0
    } else if a[i].children.len() == 0 {
        1
    } else {
        1 + max_child_height(a, a[i].children, a[i].children.len() as int, (fuel - 1) as nat)
    }
}

/// The largest height among the first `k` children in `cs`.
pub open spec fn max_child_height(a: Seq<NodeView>, cs: Seq<usize>, k: int, fuel: nat) -> nat
    decreases fuel, k,
{
    if k <= 0 {
        0
    } else {
        let m = max_child_height(a, cs, k - 1, fuel);
        let h = height(a, cs[k - 1] as int, fuel);
        if h > m {
            h
        } else {
            m
        }
    }
}

/// The arena after node `i` is expanded with `action`: a copy of the node is
/// added, then a new action node for `action` one level deeper whose parent
/// is that copy, and the new node joins the children of node `i`.
pub open spec fn expanded(a: Seq<NodeView>, i: int, action: NpcAction) -> Seq<NodeView> {
    let n = a[i];
    a.push(n).push(
        NodeView {
            node_type: NodeType::ActionNode { action },
            visits: 0,
            total_reward: 0,
            depth: (n.depth + 1) as u32,
            parent: Some(a.len() as usize),
            children: Seq::empty(),
        },
    ).update(i, NodeView { children: n.children.push((a.len() + 1) as usize), ..n })
}

/// The arena after a reward is propagated up from node `i`: the node counts a
/// visit and adds the reward, and its parent receives the reward divided by
/// the node's new visit count, and so on up to the root.
pub open spec fn backprop(a: Seq<NodeView>, i: int, reward: int) -> Seq<NodeView>
    decreases i,
{
    let n = a[i];
    let v = n.visits + 1;
    let a1 = a.update(i, NodeView { visits: v as usize, total_reward: (n.total_reward + reward) as u32, ..n });
    match n.parent {
        Some(p) => if 0 <= p < i {
            backprop(a1, p as int, reward / v)
        } else {
            a1
        },
        None => a1,
    }
}

/// No count overflows while a reward is propagated up from node `i`.
pub open spec fn backprop_fits(a: Seq<NodeView>, i: int, reward: int) -> bool
    decreases i,
{
    let n = a[i];
    let v = n.visits + 1;
    &&& v <= u32::MAX
    &&& n.total_reward + reward <= u32::MAX
    &&& match n.parent {
        Some(p) => 0 <= p < i ==> backprop_fits(a, p as int, reward / v),
        None => true,
    }
}

/// The arena after the depths under node `i` are set from its parent's depth
/// `pd`: an action node lies one level below its parent, any other node on its
/// parent's level; the children follow in order, at most `fuel` levels down.
pub open spec fn depth_update(a: Seq<NodeView>, i: int, pd: int, fuel: nat) -> Seq<NodeView>
    decreases fuel, 0int,
{
    if fuel == 0 {
        a
    } else {
        let d = if a[i].node_type is ActionNode { pd + 1 } else { pd };
        let a1 = a.update(i, NodeView { depth: d as u32, ..a[i] });
        children_depth_update(a1, a[i].children, a[i].children.len() as int, d, (fuel - 1) as nat)
    }
}

/// The arena after the depths under the first `k` children in `cs` are set
/// from the depth `d`, one child after the other.
pub open spec fn children_depth_update(a: Seq<NodeView>, cs: Seq<usize>, k: int, d: int, fuel: nat) -> Seq<
    NodeView,
>
    decreases fuel, k,
{
    if k <= 0 {
        a
    } else {
        depth_update(children_depth_update(a, cs, k - 1, d, fuel), cs[k - 1] as int, d, fuel)
    }
}

/// `b` is `a` with only depths changed.
pub open spec fn depths_only(a: Seq<NodeView>, b: Seq<NodeView>) -> bool {
    &&& b.len() == a.len()
    &&& forall|k: int| 0 <= k < a.len() ==> #[trigger] b[k] == NodeView { depth: b[k].depth, ..a[k] }
}

/// The nodes before `lo` are the same in `a` and `b`.
pub open spec fn same_before(a: Seq<NodeView>, b: Seq<NodeView>, lo: int) -> bool {
    forall|k: int| 0 <= k < lo && k < a.len() ==> #[trigger] b[k] == a[k]
}

/// From node `lo` on, every node lists only later nodes as children.
pub open spec fn forward_from(a: Seq<NodeView>, lo: int) -> bool {
    forall|p: int, j: int| lo <= p < a.len() && 0 <= j < a[p].children.len() ==> (#[trigger] a[p].children[j]) > p
}

proof fn lemma_depths_only_keeps_links(a: Seq<NodeView>, b: Seq<NodeView>, lo: int)
    requires
        depths_only(a, b),
        arena_wf(a),
        0 <= lo,
        forward_from(a, lo),
    ensures
        arena_wf(b),
        forward_from(b, lo),
        listed_once_from(a, lo) ==> listed_once_from(b, lo),
{
    assert forall|p1: int, j1: int, p2: int, j2: int|
        lo <= p1 < b.len() && lo <= p2 < b.len() && 0 <= j1 < b[p1].children.len() && 0 <= j2 < b[p2].children.len()
            && listed_once_from(a, lo) && #[trigger] b[p1].children[j1] == #[trigger] b[p2].children[j2] implies p1 == p2
        && j1 == j2 by {
        assert(b[p1].children == a[p1].children);
        assert(b[p2].children == a[p2].children);
    }
    assert forall|i: int| 0 <= i < b.len() implies match (#[trigger] b[i]).parent {
        Some(p) => p < i,
        None => true,
    } by {
        assert(b[i].parent == a[i].parent);
    }
    assert forall|i: int, j: int| 0 <= i < b.len() && 0 <= j < b[i].children.len() implies (
    #[trigger] b[i].children[j]) < b.len() by {
        assert(b[i].children == a[i].children);
    }
    assert forall|p: int, j: int| lo <= p < b.len() && 0 <= j < b[p].children.len() implies (
    #[trigger] b[p].children[j]) > p by {
        assert(b[p].children == a[p].children);
    }
}

proof fn lemma_depths_only_trans(a: Seq<NodeView>, b: Seq<NodeView>, c: Seq<NodeView>)
    requires
        depths_only(a, b),
        depths_only(b, c),
    ensures
        depths_only(a, c),
{
    assert forall|k: int| 0 <= k < a.len() implies #[trigger] c[k] == NodeView { depth: c[k].depth, ..a[k] } by {
        assert(b[k] == NodeView { depth: b[k].depth, ..a[k] });
    }
}

/// Updating the depths under node `i` changes only depths, leaves the nodes
/// before `i` alone, and (with fuel left) gives node `i` its new depth.
pub proof fn lemma_depth_update_frame(a: Seq<NodeView>, i: int, pd: int, fuel: nat)
    requires
        arena_wf(a),
        0 <= i < a.len(),
        forward_from(a, i),
    ensures
        depths_only(a, depth_update(a, i, pd, fuel)),
        same_before(a, depth_update(a, i, pd, fuel), i),
        fuel > 0 ==> depth_update(a, i, pd, fuel)[i].depth == (if a[i].node_type is ActionNode {
            pd + 1
        } else {
            pd
        }) as u32,
    decreases fuel, 0int,
{
    if fuel > 0 {
        let d = if a[i].node_type is ActionNode { pd + 1 } else { pd };
        let a1 = a.update(i, NodeView { depth: d as u32, ..a[i] });
        assert(depths_only(a, a1));
        lemma_depths_only_keeps_links(a, a1, i);
        assert(forward_from(a1, i + 1));
        assert(a1[i].children == a[i].children);
        assert forall|m: int| 0 <= m < a[i].children.len() implies i + 1 <= #[trigger] a[i].children[m] < a.len() by {
            assert(a[i].children[m] > i);
        }
        lemma_children_depth_frame(a1, a[i].children, a[i].children.len() as int, d, (fuel - 1) as nat, i + 1);
        let r = children_depth_update(a1, a[i].children, a[i].children.len() as int, d, (fuel - 1) as nat);
        lemma_depths_only_trans(a, a1, r);
        assert(r[i] == a1[i]);
    } else {
        assert(depths_only(a, a));
    }
}

proof fn lemma_children_depth_frame(a: Seq<NodeView>, cs: Seq<usize>, k: int, d: int, fuel: nat, lo: int)
    requires
        arena_wf(a),
        0 <= lo,
        forward_from(a, lo),
        0 <= k <= cs.len(),
        forall|m: int| 0 <= m < cs.len() ==> lo <= #[trigger] cs[m] < a.len(),
    ensures
        depths_only(a, children_depth_update(a, cs, k, d, fuel)),
        same_before(a, children_depth_update(a, cs, k, d, fuel), lo),
    decreases fuel, k,
{
    if k <= 0 {
        assert(depths_only(a, a));
    } else {
        lemma_children_depth_frame(a, cs, k - 1, d, fuel, lo);
        let b = children_depth_update(a, cs, k - 1, d, fuel);
        lemma_depths_only_keeps_links(a, b, lo);
        let c = cs[k - 1] as int;
        assert(lo <= c < a.len());
        lemma_depth_update_frame(b, c, d, fuel);
        let r = depth_update(b, c, d, fuel);
        lemma_depths_only_trans(a, b, r);
        assert forall|q: int| 0 <= q < lo && q < a.len() implies #[trigger] r[q] == a[q] by {
            assert(r[q] == b[q]);
        }
    }
}

/// Node `k` is reached from node `i` in at most `n` steps from a node to one
/// of its children.
pub open spec fn reaches_within(a: Seq<NodeView>, i: int, k: int, n: nat) -> bool
    decreases n, 0int,
{
    k == i || (n > 0 && some_child_reaches(a, a[i].children, a[i].children.len() as int, k, (n - 1) as nat))
}

/// One of the first `m` nodes in `cs` reaches `k` in at most `n` steps.
pub open spec fn some_child_reaches(a: Seq<NodeView>, cs: Seq<usize>, m: int, k: int, n: nat) -> bool
    decreases n, m,
{
    m > 0 && (reaches_within(a, cs[m - 1] as int, k, n) || some_child_reaches(a, cs, m - 1, k, n))
}

proof fn lemma_some_child(a: Seq<NodeView>, cs: Seq<usize>, m: int, k: int, n: nat)
    requires
        0 <= m <= cs.len(),
    ensures
        some_child_reaches(a, cs, m, k, n) <==> exists|j: int| 0 <= j < m && #[trigger] reaches_within(a, cs[j] as int, k, n),
    decreases m,
{
    if m > 0 {
        lemma_some_child(a, cs, m - 1, k, n);
        if reaches_within(a, cs[m - 1] as int, k, n) {
            assert(0 <= m - 1 < m && reaches_within(a, cs[m - 1] as int, k, n));
        }
        if exists|j: int| 0 <= j < m && #[trigger] reaches_within(a, cs[j] as int, k, n) {
            let j = choose|j: int| 0 <= j < m && #[trigger] reaches_within(a, cs[j] as int, k, n);
            if j < m - 1 {
                assert(0 <= j < m - 1 && reaches_within(a, cs[j] as int, k, n));
            }
        }
    }
}

/// A node other than `i` reached from `i` is reached from one of its children
/// in one step less.
proof fn lemma_reach_step(a: Seq<NodeView>, i: int, k: int, n: nat)
    requires
        reaches_within(a, i, k, n),
        k != i,
    ensures
        n > 0,
        exists|j: int|
            0 <= j < a[i].children.len() && #[trigger] reaches_within(a, a[i].children[j] as int, k, (n - 1) as nat),
{
    lemma_some_child(a, a[i].children, a[i].children.len() as int, k, (n - 1) as nat);
}

/// What a child reaches, its parent reaches in one step more.
proof fn lemma_reach_intro(a: Seq<NodeView>, i: int, j: int, k: int, n: nat)
    requires
        0 <= j < a[i].children.len(),
        n > 0,
        reaches_within(a, a[i].children[j] as int, k, (n - 1) as nat),
    ensures
        reaches_within(a, i, k, n),
{
    lemma_some_child(a, a[i].children, a[i].children.len() as int, k, (n - 1) as nat);
}

/// From node `lo` on, no node is listed twice as a child.
pub open spec fn listed_once_from(a: Seq<NodeView>, lo: int) -> bool {
    forall|p1: int, j1: int, p2: int, j2: int|
        lo <= p1 < a.len() && lo <= p2 < a.len() && 0 <= j1 < a[p1].children.len() && 0 <= j2
            < a[p2].children.len() && #[trigger] a[p1].children[j1] == #[trigger] a[p2].children[j2] ==> p1 == p2 && j1
            == j2
}

/// How much deeper an action node lies than its parent.
pub open spec fn depth_step(n: NodeView) -> int {
    if n.node_type is ActionNode {
        1
    } else {
        0
    }
}

proof fn lemma_reach_same_links(a: Seq<NodeView>, b: Seq<NodeView>, i: int, k: int, n: nat)
    requires
        depths_only(a, b),
        0 <= i < a.len(),
        arena_wf(a),
    ensures
        reaches_within(a, i, k, n) == reaches_within(b, i, k, n),
    decreases n,
{
    assert(b[i].children == a[i].children);
    if reaches_within(a, i, k, n) && k != i {
        lemma_reach_step(a, i, k, n);
        let j = choose|j: int|
            0 <= j < a[i].children.len() && #[trigger] reaches_within(a, a[i].children[j] as int, k, (n - 1) as nat);
        lemma_reach_same_links(a, b, a[i].children[j] as int, k, (n - 1) as nat);
        lemma_reach_intro(b, i, j, k, n);
    }
    if reaches_within(b, i, k, n) && k != i {
        lemma_reach_step(b, i, k, n);
        let j = choose|j: int|
            0 <= j < b[i].children.len() && #[trigger] reaches_within(b, b[i].children[j] as int, k, (n - 1) as nat);
        lemma_reach_same_links(a, b, a[i].children[j] as int, k, (n - 1) as nat);
        lemma_reach_intro(a, i, j, k, n);
    }
}

proof fn lemma_reach_forward(a: Seq<NodeView>, lo: int, c: int, x: int, n: nat)
    requires
        arena_wf(a),
        0 <= lo,
        forward_from(a, lo),
        lo <= c < a.len(),
        reaches_within(a, c, x, n),
    ensures
        c <= x < a.len(),
    decreases n,
{
    if x != c {
        lemma_reach_step(a, c, x, n);
        let j = choose|j: int|
            0 <= j < a[c].children.len() && #[trigger] reaches_within(a, a[c].children[j] as int, x, (n - 1) as nat);
        assert(a[c].children[j] > c);
        lemma_reach_forward(a, lo, a[c].children[j] as int, x, (n - 1) as nat);
    }
}

proof fn lemma_reach_owner(a: Seq<NodeView>, lo: int, c: int, x: int, n: nat)
    requires
        arena_wf(a),
        0 <= lo,
        forward_from(a, lo),
        lo <= c < a.len(),
        reaches_within(a, c, x, n),
        x != c,
    ensures
        n > 0,
        exists|o: int, j: int|
            #![trigger a[o].children[j]]
            reaches_within(a, c, o, (n - 1) as nat) && c <= o < a.len() && 0 <= j < a[o].children.len()
                && a[o].children[j] == x,
    decreases n,
{
    lemma_reach_step(a, c, x, n);
    let j0 = choose|j: int|
        0 <= j < a[c].children.len() && #[trigger] reaches_within(a, a[c].children[j] as int, x, (n - 1) as nat);
    let c1 = a[c].children[j0] as int;
    assert(c1 > c);
    if x == c1 {
        assert(reaches_within(a, c, c, (n - 1) as nat));
        assert(a[c].children[j0] == x);
    } else {
        lemma_reach_owner(a, lo, c1, x, (n - 1) as nat);
        let (o, j) = choose|o: int, j: int|
            #![trigger a[o].children[j]]
            reaches_within(a, c1, o, (n - 2) as nat) && c1 <= o < a.len() && 0 <= j < a[o].children.len()
                && a[o].children[j] == x;
        lemma_reach_intro(a, c, j0, o, (n - 1) as nat);
    }
}

/// Under a node whose descendants list every node at most once, the
/// subtrees of two different children share no node.
proof fn lemma_subtrees_disjoint(a: Seq<NodeView>, i: int, j1: int, j2: int, x: int, n1: nat, n2: nat)
    requires
        arena_wf(a),
        0 <= i < a.len(),
        forward_from(a, i),
        listed_once_from(a, i),
        0 <= j1 < a[i].children.len(),
        0 <= j2 < a[i].children.len(),
        j1 != j2,
    ensures
        !(reaches_within(a, a[i].children[j1] as int, x, n1) && reaches_within(a, a[i].children[j2] as int, x, n2)),
    decreases n1 + n2,
{
    let c1 = a[i].children[j1] as int;
    let c2 = a[i].children[j2] as int;
    if reaches_within(a, c1, x, n1) && reaches_within(a, c2, x, n2) {
        assert(c1 > i && c2 > i);
        assert(c1 != c2);
        if x == c1 {
            lemma_reach_owner(a, i, c2, x, n2);
            let (o, j) = choose|o: int, j: int|
                #![trigger a[o].children[j]]
                reaches_within(a, c2, o, (n2 - 1) as nat) && c2 <= o < a.len() && 0 <= j < a[o].children.len()
                    && a[o].children[j] == x;
            assert(a[o].children[j] == a[i].children[j1]);
        } else if x == c2 {
            lemma_reach_owner(a, i, c1, x, n1);
            let (o, j) = choose|o: int, j: int|
                #![trigger a[o].children[j]]
                reaches_within(a, c1, o, (n1 - 1) as nat) && c1 <= o < a.len() && 0 <= j < a[o].children.len()
                    && a[o].children[j] == x;
            assert(a[o].children[j] == a[i].children[j2]);
        } else {
            lemma_reach_owner(a, i, c1, x, n1);
            lemma_reach_owner(a, i, c2, x, n2);
            let (o1, k1) = choose|o: int, j: int|
                #![trigger a[o].children[j]]
                reaches_within(a, c1, o, (n1 - 1) as nat) && c1 <= o < a.len() && 0 <= j < a[o].children.len()
                    && a[o].children[j] == x;
            let (o2, k2) = choose|o: int, j: int|
                #![trigger a[o].children[j]]
                reaches_within(a, c2, o, (n2 - 1) as nat) && c2 <= o < a.len() && 0 <= j < a[o].children.len()
                    && a[o].children[j] == x;
            assert(a[o1].children[k1] == a[o2].children[k2]);
            assert(o1 == o2);
            lemma_subtrees_disjoint(a, i, j1, j2, o1, (n1 - 1) as nat, (n2 - 1) as nat);
        }
    }
}

/// Updating the depths under node `i` with `fuel` levels to go changes only
/// the nodes reached from `i` within `fuel` steps, and puts every child of a
/// node reached within `fuel - 2` steps at its parent's depth plus its own
/// step.
pub proof fn lemma_depth_update_tree(a: Seq<NodeView>, i: int, pd: int, fuel: nat)
    requires
        arena_wf(a),
        0 <= i < a.len(),
        forward_from(a, i),
        listed_once_from(a, i),
        0 <= pd,
        pd + fuel <= u32::MAX,
    ensures
        forall|x: int|
            0 <= x < a.len() && !reaches_within(a, i, x, fuel) ==> #[trigger] depth_update(a, i, pd, fuel)[x] == a[x],
        fuel >= 2 ==> forall|p: int, j: int|
            0 <= p < a.len() && reaches_within(a, i, p, (fuel - 2) as nat) && 0 <= j < a[p].children.len() ==> (
            #[trigger] depth_update(a, i, pd, fuel)[a[p].children[j] as int]).depth as int == depth_update(
                a,
                i,
                pd,
                fuel,
            )[p].depth as int + depth_step(a[a[p].children[j] as int]),
    decreases fuel, 0int,
{
    if fuel > 0 {
        let d = pd + depth_step(a[i]);
        let a1 = a.update(i, NodeView { depth: d as u32, ..a[i] });
        let cs = a[i].children;
        let f = (fuel - 1) as nat;
        assert(depths_only(a, a1));
        lemma_depths_only_keeps_links(a, a1, i);
        assert forall|m: int| 0 <= m < cs.len() implies i + 1 <= #[trigger] cs[m] < a.len() by {
            assert(a[i].children[m] > i);
        }
        lemma_children_depth_frame(a1, cs, cs.len() as int, d, f, i + 1);
        lemma_children_tree(a1, i, cs.len() as int, d, f);
        let r = depth_update(a, i, pd, fuel);
        assert(r == children_depth_update(a1, cs, cs.len() as int, d, f));
        assert forall|x: int| 0 <= x < a.len() && !reaches_within(a, i, x, fuel) implies #[trigger] r[x] == a[x] by {
            assert forall|m: int| 0 <= m < cs.len() implies !reaches_within(a1, cs[m] as int, x, f) by {
                lemma_reach_same_links(a, a1, cs[m] as int, x, f);
                if reaches_within(a, cs[m] as int, x, f) {
                    lemma_reach_intro(a, i, m, x, fuel);
                }
            }
        }
        if fuel >= 2 {
            assert(r[i] == a1[i]);
            assert forall|p: int, j: int|
                0 <= p < a.len() && reaches_within(a, i, p, (fuel - 2) as nat) && 0 <= j < a[p].children.len() implies (
            #[trigger] r[a[p].children[j] as int]).depth as int == r[p].depth as int + depth_step(
                a[a[p].children[j] as int],
            ) by {
                let c = a[p].children[j] as int;
                assert(a1[p].children == a[p].children);
                if p == i {
                    assert(c > i);
                    assert(a1[c] == a[c]);
                    assert(cs[j] == a[p].children[j]);
                    assert(r[cs[j] as int].depth as int == d + depth_step(a1[cs[j] as int]));
                    assert(a1[i].depth == d as u32);
                    assert(r[i].depth as int == d);
                } else {
                    lemma_reach_step(a, i, p, (fuel - 2) as nat);
                    let m = choose|m: int|
                        0 <= m < a[i].children.len() && #[trigger] reaches_within(
                            a,
                            a[i].children[m] as int,
                            p,
                            (fuel - 3) as nat,
                        );
                    lemma_reach_same_links(a, a1, cs[m] as int, p, (fuel - 3) as nat);
                    assert(p > i) by {
                        lemma_reach_forward(a, i, cs[m] as int, p, (fuel - 3) as nat);
                    }
                    assert(c > p);
                    assert(a1[c] == a[c]);
                    assert(a1[p] == a[p]);
                    assert(((f - 2) as nat) == ((fuel - 3) as nat));
                    assert(reaches_within(a1, a1[i].children[m] as int, p, (f - 2) as nat));
                    assert(a1[p].children[j] == a[p].children[j]);
                }
            }
        }
    }
}

proof fn lemma_children_tree(a1: Seq<NodeView>, i: int, k: int, d: int, f: nat)
    requires
        arena_wf(a1),
        0 <= i < a1.len(),
        forward_from(a1, i),
        listed_once_from(a1, i),
        0 <= k <= a1[i].children.len(),
        0 <= d,
        d + f <= u32::MAX,
    ensures
        forall|x: int|
            0 <= x < a1.len() && (forall|m: int| 0 <= m < k ==> !#[trigger] reaches_within(a1, a1[i].children[m] as int, x, f))
                ==> #[trigger] children_depth_update(a1, a1[i].children, k, d, f)[x] == a1[x],
        f >= 1 ==> forall|m: int|
            0 <= m < k ==> (#[trigger] children_depth_update(a1, a1[i].children, k, d, f)[a1[i].children[m] as int]).depth
                as int == d + depth_step(a1[a1[i].children[m] as int]),
        f >= 2 ==> forall|m: int, p: int, j: int|
            0 <= m < k && 0 <= p < a1.len() && #[trigger] reaches_within(a1, a1[i].children[m] as int, p, (f - 2) as nat)
                && 0 <= j < a1[p].children.len() ==> (#[trigger] children_depth_update(a1, a1[i].children, k, d, f)[a1[p].children[j] as int]).depth as int
                == children_depth_update(a1, a1[i].children, k, d, f)[p].depth as int + depth_step(a1[a1[p].children[j] as int]),
    decreases f, k,
{
    let cs = a1[i].children;
    if k > 0 {
        lemma_children_tree(a1, i, k - 1, d, f);
        assert forall|m: int| 0 <= m < cs.len() implies i + 1 <= #[trigger] cs[m] < a1.len() by {
            assert(a1[i].children[m] > i);
        }
        lemma_children_depth_frame(a1, cs, k - 1, d, f, i + 1);
        let b = children_depth_update(a1, cs, k - 1, d, f);
        lemma_depths_only_keeps_links(a1, b, i);
        let c = cs[k - 1] as int;
        assert(i < c < a1.len());
        assert(forward_from(b, c));
        assert(listed_once_from(b, c));
        lemma_depth_update_tree(b, c, d, f);
        let r = depth_update(b, c, d, f);
        assert(r == children_depth_update(a1, cs, k, d, f));
        assert(b[c].node_type == a1[c].node_type);
        // nodes outside every subtree so far stay
        assert forall|x: int|
            0 <= x < a1.len() && (forall|m: int| 0 <= m < k ==> !#[trigger] reaches_within(a1, cs[m] as int, x, f))
                implies #[trigger] r[x] == a1[x] by {
            lemma_reach_same_links(a1, b, c, x, f);
            assert(!reaches_within(a1, cs[k - 1] as int, x, f));
        }
        if f >= 1 {
            lemma_depth_update_frame(b, c, d, f);
            assert forall|m: int| 0 <= m < k implies (#[trigger] r[cs[m] as int]).depth as int == d + depth_step(
                a1[cs[m] as int],
            ) by {
                if m < k - 1 {
                    let cm = cs[m] as int;
                    assert(reaches_within(a1, cm, cm, 0));
                    lemma_subtrees_disjoint(a1, i, m, k - 1, cm, 0, f);
                    lemma_reach_same_links(a1, b, c, cm, f);
                    assert(r[cm] == b[cm]);
                }
            }
        }
        if f >= 2 {
            assert forall|m: int, p: int, j: int|
                0 <= m < k && 0 <= p < a1.len() && #[trigger] reaches_within(a1, cs[m] as int, p, (f - 2) as nat) && 0
                    <= j < a1[p].children.len() implies (#[trigger] r[a1[p].children[j] as int]).depth as int
                == r[p].depth as int + depth_step(a1[a1[p].children[j] as int]) by {
                let q = a1[p].children[j] as int;
                assert(b[p].children == a1[p].children);
                assert(b[q].node_type == a1[q].node_type);
                if m < k - 1 {
                    lemma_reach_monotone(a1, cs[m] as int, p, (f - 2) as nat, f);
                    lemma_reach_intro(a1, p, j, q, 1);
                    lemma_reach_concat(a1, cs[m] as int, p, q, (f - 2) as nat, 1);
                    lemma_subtrees_disjoint(a1, i, m, k - 1, p, f, f);
                    lemma_subtrees_disjoint(a1, i, m, k - 1, q, (f - 1) as nat, f);
                    lemma_reach_same_links(a1, b, c, p, f);
                    lemma_reach_same_links(a1, b, c, q, f);
                    assert(r[p] == b[p]);
                    assert(r[q] == b[q]);
                } else {
                    lemma_reach_same_links(a1, b, c, p, (f - 2) as nat);
                }
            }
        }
    }
}

/// In an arena where children come after their parents, a node reached from
/// `c` at all is reached within as many steps as their indices differ.
pub proof fn lemma_reach_bounded(a: Seq<NodeView>, lo: int, c: int, x: int, n: nat)
    requires
        arena_wf(a),
        0 <= lo,
        forward_from(a, lo),
        lo <= c < a.len(),
        reaches_within(a, c, x, n),
    ensures
        c <= x,
        reaches_within(a, c, x, (x - c) as nat),
    decreases n,
{
    lemma_reach_forward(a, lo, c, x, n);
    if x != c {
        lemma_reach_step(a, c, x, n);
        let j = choose|j: int|
            0 <= j < a[c].children.len() && #[trigger] reaches_within(a, a[c].children[j] as int, x, (n - 1) as nat);
        let c1 = a[c].children[j] as int;
        assert(c1 > c);
        lemma_reach_bounded(a, lo, c1, x, (n - 1) as nat);
        lemma_reach_monotone(a, c1, x, (x - c1) as nat, (x - c - 1) as nat);
        lemma_reach_intro(a, c, j, x, (x - c) as nat);
    }
}

/// Reaching within `n` steps is reaching within any more.
pub proof fn lemma_reach_monotone(a: Seq<NodeView>, i: int, k: int, n: nat, m: nat)
    requires
        reaches_within(a, i, k, n),
        n <= m,
    ensures
        reaches_within(a, i, k, m),
    decreases n,
{
    if k != i {
        lemma_reach_step(a, i, k, n);
        let j = choose|j: int|
            0 <= j < a[i].children.len() && #[trigger] reaches_within(a, a[i].children[j] as int, k, (n - 1) as nat);
        lemma_reach_monotone(a, a[i].children[j] as int, k, (n - 1) as nat, (m - 1) as nat);
        lemma_reach_intro(a, i, j, k, m);
    }
}

/// Reaching `p` from `i` and then `q` from `p` is reaching `q` from `i`.
proof fn lemma_reach_concat(a: Seq<NodeView>, i: int, p: int, q: int, n1: nat, n2: nat)
    requires
        reaches_within(a, i, p, n1),
        reaches_within(a, p, q, n2),
    ensures
        reaches_within(a, i, q, n1 + n2),
    decreases n1,
{
    if p == i {
        lemma_reach_monotone(a, i, q, n2, n1 + n2);
    } else {
        lemma_reach_step(a, i, p, n1);
        let j = choose|j: int|
            0 <= j < a[i].children.len() && #[trigger] reaches_within(a, a[i].children[j] as int, p, (n1 - 1) as nat);
        lemma_reach_concat(a, a[i].children[j] as int, p, q, (n1 - 1) as nat, n2);
        lemma_reach_intro(a, i, j, q, n1 + n2);
    }
}

/// `j` is the position among the children of node `i` of the first action
/// node for `action`.
pub open spec fn is_first_action_child(a: Seq<NodeView>, i: int, action: NpcAction, j: int) -> bool {
    &&& 0 <= j < a[i].children.len()
    &&& a[a[i].children[j] as int].node_type == (NodeType::ActionNode { action })
    &&& forall|k: int|
        0 <= k < j ==> (#[trigger] a[a[i].children[k] as int]).node_type != (NodeType::ActionNode { action })
}

/// The first child of node `i` that is an action node for `action`, if any.
pub open spec fn action_child(a: Seq<NodeView>, i: int, action: NpcAction) -> Option<usize> {
    if exists|j: int| is_first_action_child(a, i, action, j) {
        Some(a[i].children[choose|j: int| is_first_action_child(a, i, action, j)])
    } else {
        None
    }
}

proof fn lemma_action_child(a: Seq<NodeView>, i: int, action: NpcAction, j: int)
    requires
        is_first_action_child(a, i, action, j),
    ensures
        action_child(a, i, action) == Some(a[i].children[j]),
{
    let c = choose|c: int| is_first_action_child(a, i, action, c);
    assert(is_first_action_child(a, i, action, c));
    if c < j {
        assert(a[a[i].children[c] as int].node_type != (NodeType::ActionNode { action }));
    } else if j < c {
        assert(a[a[i].children[j] as int].node_type != (NodeType::ActionNode { action }));
    }
}

/// The action a node stands for, if it is an action node.
pub open spec fn node_action(n: NodeView) -> Option<NpcAction> {
    match n.node_type {
        NodeType::ActionNode { action } => Some(action),
        _ => None,
    }
}

/// The actions of the action nodes among `cs`, each once, in the order in
/// which they first appear.
pub open spec fn child_actions(a: Seq<NodeView>, cs: Seq<usize>) -> Seq<NpcAction>
    decreases cs.len(),
{
    if cs.len() == 0 {
        Seq::empty()
    } else {
        let prev = child_actions(a, cs.drop_last());
        match node_action(a[cs.last() as int]) {
            Some(x) => if prev.contains(x) {
                prev
            } else {
                prev.push(x)
            },
            None => prev,
        }
    }
}

/// The total reward of the action nodes for `x` among `cs`.
pub open spec fn action_reward(a: Seq<NodeView>, cs: Seq<usize>, x: NpcAction) -> int
    decreases cs.len(),
{
    if cs.len() == 0 {
        0
    } else {
        action_reward(a, cs.drop_last(), x) + if node_action(a[cs.last() as int]) == Some(x) {
            a[cs.last() as int].total_reward as int
        } else {
            0
        }
    }
}

/// The total visits of the action nodes for `x` among `cs`.
pub open spec fn action_visits(a: Seq<NodeView>, cs: Seq<usize>, x: NpcAction) -> int
    decreases cs.len(),
{
    if cs.len() == 0 {
        0
    } else {
        action_visits(a, cs.drop_last(), x) + if node_action(a[cs.last() as int]) == Some(x) {
            a[cs.last() as int].visits as int
        } else {
            0
        }
    }
}

/// The totals over a prefix of the children are at most those over all of them.
proof fn lemma_action_totals_prefix(a: Seq<NodeView>, cs: Seq<usize>, m: int, x: NpcAction)
    requires
        0 <= m <= cs.len(),
    ensures
        0 <= action_reward(a, cs.take(m), x) <= action_reward(a, cs, x),
        0 <= action_visits(a, cs.take(m), x) <= action_visits(a, cs, x),
    decreases cs.len(),
{
    if cs.len() == 0 {
        assert(cs.take(m) =~= cs);
    } else if m == cs.len() {
        assert(cs.take(m) =~= cs);
        lemma_action_totals_prefix(a, cs.drop_last(), 0, x);
    } else {
        assert(cs.drop_last().take(m) =~= cs.take(m));
        lemma_action_totals_prefix(a, cs.drop_last(), m, x);
    }
}

/// The index of the entry for `action`, if there is one.
fn find_entry(r: &Vec<(NpcAction, u32, usize)>, action: NpcAction) -> (found: Option<usize>)
    ensures
        match found {
            Some(j) => j < r@.len() && r@[j as int].0 == action,
            None => forall|m: int| 0 <= m < r@.len() ==> r@[m].0 != action,
        },
{
    let mut j: usize = 0;
    while j < r.len()
        invariant
            0 <= j <= r@.len(),
            forall|m: int| 0 <= m < j ==> r@[m].0 != action,
        decreases r@.len() - j,
    {
        if r[j].0 == action {
            return Some(j);
        }
        j = j + 1;
    }
    None
}

/// An action that does not appear among the children has no reward or visits.
proof fn lemma_absent_action_totals(a: Seq<NodeView>, cs: Seq<usize>, x: NpcAction)
    requires
        !child_actions(a, cs).contains(x),
    ensures
        action_reward(a, cs, x) == 0,
        action_visits(a, cs, x) == 0,
    decreases cs.len(),
{
    if cs.len() > 0 {
        let prev = child_actions(a, cs.drop_last());
        if prev.contains(x) {
            let m = choose|m: int| 0 <= m < prev.len() && prev[m] == x;
            match node_action(a[cs.last() as int]) {
                Some(y) => if !prev.contains(y) {
                    assert(prev.push(y)[m] == x);
                },
                None => {},
            }
        }
        match node_action(a[cs.last() as int]) {
            Some(y) => if !prev.contains(y) {
                assert(prev.push(y)[prev.len() as int] == y);
            },
            None => {},
        }
        lemma_absent_action_totals(a, cs.drop_last(), x);
    }
}

/// Whether the counts fit depends only on the node and the nodes before it.
pub proof fn lemma_fits_frame(a: Seq<NodeView>, b: Seq<NodeView>, i: int, reward: int)
    requires
        0 <= i < a.len(),
        a.len() == b.len(),
        forall|k: int| 0 <= k <= i ==> a[k] == b[k],
        backprop_fits(a, i, reward),
    ensures
        backprop_fits(b, i, reward),
    decreases i,
{
    let n = a[i];
    match n.parent {
        Some(p) => if 0 <= p < i {
            lemma_fits_frame(a, b, p as int, reward / (n.visits + 1));
        },
        None => {},
    }
}

/// The search tree of one agent, its nodes kept in an arena; the root and the
/// current node are indices into it.
#[derive(Debug)]
pub struct MCTSTree {
    pub nodes: Vec<Node>,
    pub root: Option<usize>,
    pub current_node: Option<usize>,
    pub in_selection_phase: bool,
    pub ready_for_expansion: bool,
}

/// A copy of a list of indices.
fn copy_indices(v: &Vec<usize>) -> (r: Vec<usize>)
    ensures
        r@ == v@,
{
    let mut r: Vec<usize> = Vec::new();
    let mut i: usize = 0;
    while i < v.len()
        invariant
            0 <= i <= v@.len(),
            r@ == v@.take(i as int),
        decreases v@.len() - i,
    {
        r.push(v[i]);
        i = i + 1;
        assert(r@ =~= v@.take(i as int));
    }
    assert(r@ =~= v@);
    r
}

impl MCTSTree {
    /// The nodes as plain values.
    pub open spec fn arena(&self) -> Seq<NodeView> {
        arena_view(self.nodes@)
    }

    /// The arena is well formed and the root and current node lie in it.
    pub open spec fn wf(&self) -> bool {
        &&& arena_wf(self.arena())
        &&& match self.root {
            Some(r) => r < self.nodes@.len(),
            None => true,
        }
        &&& match self.current_node {
            Some(c) => c < self.nodes@.len(),
            None => true,
        }
    }

    /// A tree whose root and current node is a new null node of depth 0, in the
    /// selection phase and not ready for expansion.
    pub fn new() -> (t: MCTSTree)
        ensures
            t.wf(),
            t.nodes@.len() == 1,
            t.arena() == seq![
                NodeView {
                    node_type: NodeType::NullNode,
                    visits: 0,
                    total_reward: 0,
                    depth: 0,
                    parent: None,
                    children: Seq::empty(),
                },
            ],
            t.root == Some(0usize),
            t.current_node == Some(0usize),
            t.in_selection_phase,
            !t.ready_for_expansion,
    {
        let mut nodes: Vec<Node> = Vec::new();
        nodes.push(Node::new(NodeType::NullNode, 0, None));
        let t = MCTSTree {
            nodes,
            root: Some(0),
            current_node: Some(0),
            in_selection_phase: true,
            ready_for_expansion: false,
        };
        assert(t.arena() =~= seq![
            NodeView {
                node_type: NodeType::NullNode,
                visits: 0,
                total_reward: 0,
                depth: 0,
                parent: None,
                children: Seq::empty(),
            },
        ]);
        t
    }

    /// Adds a new node without visits, reward or children to the arena and
    /// returns its index.
    pub fn add_node(&mut self, node_type: NodeType, depth: u32, parent: Option<usize>) -> (i: usize)
        requires
            old(self).wf(),
            match parent {
                Some(p) => p < old(self).nodes@.len(),
                None => true,
            },
            old(self).nodes@.len() < usize::MAX,
        ensures
            final(self).wf(),
            i == old(self).nodes@.len(),
            final(self).nodes@.len() == old(self).nodes@.len() + 1,
            final(self).arena() == old(self).arena().push(
                NodeView { node_type, visits: 0, total_reward: 0, depth, parent, children: Seq::empty() },
            ),
            final(self).root == old(self).root,
            final(self).current_node == old(self).current_node,
            final(self).in_selection_phase == old(self).in_selection_phase,
            final(self).ready_for_expansion == old(self).ready_for_expansion,
    {
        let i = self.nodes.len();
        self.nodes.push(Node::new(node_type, depth, parent));
        assert(self.arena() =~= old(self).arena().push(
            NodeView { node_type, visits: 0, total_reward: 0, depth, parent, children: Seq::empty() },
        ));
        i
    }

    /// The node at index `i`.
    pub fn get_node(&self, i: usize) -> (n: &Node)
        requires
            i < self.nodes@.len(),
        ensures
            n@ == self.arena()[i as int],
    {
        &self.nodes[i]
    }

    /// Node `node` has a child with the node type `node_type`.
    pub fn has_child(&self, node: usize, node_type: &NodeType) -> (b: bool)
        requires
            self.wf(),
            node < self.nodes@.len(),
        ensures
            b == has_child_spec(self.arena(), node as int, *node_type),
    {
        let ghost a = self.arena();
        let children = &self.nodes[node].children;
        let mut j: usize = 0;
        while j < children.len()
            invariant
                a == self.arena(),
                arena_wf(a),
                node < a.len(),
                children@ == a[node as int].children,
                0 <= j <= children@.len(),
                forall|k: int| 0 <= k < j ==> #[trigger] a[a[node as int].children[k] as int].node_type != *node_type,
            decreases children@.len() - j,
        {
            let c = children[j];
            assert(a[node as int].children[j as int] < a.len());
            if self.nodes[c].node_type == *node_type {
                assert(a[a[node as int].children[j as int] as int].node_type == *node_type);
                return true;
            }
            j = j + 1;
        }
        false
    }

    /// Makes `child` a child of `node`, with the depth of `node` for an
    /// information node and one more for an action node. A node that already
    /// has a child of the same node type refuses it.
    pub fn add_child(&mut self, node: usize, child: usize) -> (r: Result<(), &'static str>)
        requires
            old(self).wf(),
            node < old(self).nodes@.len(),
            child < old(self).nodes@.len(),
            node != child,
            !has_child_spec(old(self).arena(), node as int, old(self).arena()[child as int].node_type)
                && old(self).arena()[child as int].node_type is ActionNode ==> old(self).arena()[node as int].depth
                < u32::MAX,
        ensures
            final(self).wf(),
            final(self).root == old(self).root,
            final(self).current_node == old(self).current_node,
            final(self).in_selection_phase == old(self).in_selection_phase,
            final(self).ready_for_expansion == old(self).ready_for_expansion,
            has_child_spec(old(self).arena(), node as int, old(self).arena()[child as int].node_type) ==> {
                &&& r matches Err(e) && e@ == "A similar node type already exists as a child."@
                &&& final(self).arena() == old(self).arena()
            },
            !has_child_spec(old(self).arena(), node as int, old(self).arena()[child as int].node_type) ==> {
                let a = old(self).arena();
                let d = if a[child as int].node_type is ActionNode {
                    (a[node as int].depth + 1) as u32
                } else {
                    a[node as int].depth
                };
                let a1 = a.update(child as int, NodeView { depth: d, ..a[child as int] });
                &&& r is Ok
                &&& final(self).arena() == a1.update(
                    node as int,
                    NodeView { children: a[node as int].children.push(child), ..a1[node as int] },
                )
            },
    {
        let child_type = self.nodes[child].node_type;
        if self.has_child(node, &child_type) {
            return Err("A similar node type already exists as a child.");
        }
        let ghost a = self.arena();
        let d = match child_type {
            NodeType::ActionNode { .. } => self.nodes[node].depth + 1,
            _ => self.nodes[node].depth,
        };
        self.nodes[child].depth = d;
        let ghost a1 = self.arena();
        assert(a1 =~= a.update(child as int, NodeView { depth: d, ..a[child as int] }));
        self.nodes[node].children.push(child);
        assert(self.arena() =~= a1.update(
            node as int,
            NodeView { children: a[node as int].children.push(child), ..a1[node as int] },
        ));
        Ok(())
    }

    fn height_rec(&self, i: usize, fuel: usize) -> (h: u32)
        requires
            self.wf(),
            i < self.nodes@.len(),
            fuel <= u32::MAX,
        ensures
            h == height(self.arena(), i as int, fuel as nat),
            h <= fuel,
        decreases fuel, 0int,
    {
        if fuel == 0 {
            return 0;
        }
        let ghost a = self.arena();
        let children = &self.nodes[i].children;
        let n = children.len();
        if n == 0 {
            return 1;
        }
        let mut m: u32 = 0;
        let mut k: usize = 0;
        while k < n
            invariant
                a == self.arena(),
                self.wf(),
                i < a.len(),
                children@ == a[i as int].children,
                n == children@.len(),
                0 < fuel <= u32::MAX,
                0 <= k <= n,
                m == max_child_height(a, a[i as int].children, k as int, (fuel - 1) as nat),
                m <= fuel - 1,
            decreases n - k,
        {
            let c = children[k];
            assert(a[i as int].children[k as int] < a.len());
            let h = self.height_rec(c, fuel - 1);
            if h > m {
                m = h;
            }
            k = k + 1;
        }
        1 + m
    }

    /// The height of the subtree under `node`, counting at most as many levels
    /// as the arena has nodes (which is every level of a tree).
    pub fn calculate_height(&self, node: usize) -> (h: u32)
        requires
            self.wf(),
            node < self.nodes@.len(),
            self.nodes@.len() <= u32::MAX,
        ensures
            h == height(self.arena(), node as int, self.nodes@.len()),
    {
        self.height_rec(node, self.nodes.len())
    }

    /// Propagates a reward up from `node` (see `backprop`).
    pub fn backpropagate(&mut self, node: usize, reward: u32)
        requires
            old(self).wf(),
            node < old(self).nodes@.len(),
            backprop_fits(old(self).arena(), node as int, reward as int),
        ensures
            final(self).wf(),
            final(self).arena() == backprop(old(self).arena(), node as int, reward as int),
            final(self).root == old(self).root,
            final(self).current_node == old(self).current_node,
            final(self).in_selection_phase == old(self).in_selection_phase,
            final(self).ready_for_expansion == old(self).ready_for_expansion,
    {
        let ghost goal = backprop(old(self).arena(), node as int, reward as int);
        let mut cur: usize = node;
        let mut r: u32 = reward;
        loop
            invariant_except_break
                cur < self.nodes@.len(),
                backprop(self.arena(), cur as int, r as int) == goal,
                backprop_fits(self.arena(), cur as int, r as int),
            invariant
                self.wf(),
                self.nodes@.len() == old(self).nodes@.len(),
                self.root == old(self).root,
                self.current_node == old(self).current_node,
                self.in_selection_phase == old(self).in_selection_phase,
                self.ready_for_expansion == old(self).ready_for_expansion,
            ensures
                self.wf(),
                self.arena() == goal,
                self.root == old(self).root,
                self.current_node == old(self).current_node,
                self.in_selection_phase == old(self).in_selection_phase,
                self.ready_for_expansion == old(self).ready_for_expansion,
            decreases cur,
        {
            let ghost a = self.arena();
            let v = self.nodes[cur].visits + 1;
            let total = self.nodes[cur].total_reward + r;
            self.nodes[cur].visits = v;
            self.nodes[cur].total_reward = total;
            let ghost a1 = self.arena();
            assert(a1 =~= a.update(
                cur as int,
                NodeView { visits: v, total_reward: total, ..a[cur as int] },
            ));
            match self.nodes[cur].parent {
                Some(p) => {
                    assert(p < cur);
                    assert(a1[p as int] == a[p as int]);
                    proof {
                        lemma_fits_frame(a, a1, p as int, (r / (v as u32)) as int);
                    }
                    r = r / (v as u32);
                    cur = p;
                },
                None => {
                    break;
                },
            }
        }
    }

    fn update_depth_rec(&mut self, i: usize, pd: u32, fuel: usize)
        requires
            old(self).wf(),
            i < old(self).nodes@.len(),
            pd + fuel <= u32::MAX,
        ensures
            final(self).wf(),
            final(self).nodes@.len() == old(self).nodes@.len(),
            final(self).arena() == depth_update(old(self).arena(), i as int, pd as int, fuel as nat),
            final(self).root == old(self).root,
            final(self).current_node == old(self).current_node,
            final(self).in_selection_phase == old(self).in_selection_phase,
            final(self).ready_for_expansion == old(self).ready_for_expansion,
        decreases fuel, 0int,
    {
        if fuel == 0 {
            return;
        }
        let ghost a = self.arena();
        let d = match self.nodes[i].node_type {
            NodeType::ActionNode { .. } => pd + 1,
            _ => pd,
        };
        self.nodes[i].depth = d;
        let ghost a1 = self.arena();
        assert(a1 =~= a.update(i as int, NodeView { depth: d, ..a[i as int] }));
        let cs = copy_indices(&self.nodes[i].children);
        let mut k: usize = 0;
        while k < cs.len()
            invariant
                self.wf(),
                self.nodes@.len() == a.len(),
                arena_wf(a),
                i < a.len(),
                cs@ == a[i as int].children,
                0 < fuel,
                d + (fuel - 1) <= u32::MAX,
                d == (if a[i as int].node_type is ActionNode { pd + 1 } else { pd as int }),
                0 <= k <= cs@.len(),
                self.arena() == children_depth_update(a1, cs@, k as int, d as int, (fuel - 1) as nat),
                self.root == old(self).root,
                self.current_node == old(self).current_node,
                self.in_selection_phase == old(self).in_selection_phase,
                self.ready_for_expansion == old(self).ready_for_expansion,
            decreases cs@.len() - k,
        {
            assert(a[i as int].children[k as int] < a.len());
            self.update_depth_rec(cs[k], d, fuel - 1);
            k = k + 1;
        }
    }

    /// Sets the depths under `node` from the depth of its parent (see
    /// `depth_update`), going at most as many levels down as the arena has
    /// nodes (which is every level of a tree).
    pub fn update_depth(&mut self, node: usize, parent_depth: u32)
        requires
            old(self).wf(),
            node < old(self).nodes@.len(),
            parent_depth + old(self).nodes@.len() <= u32::MAX,
        ensures
            final(self).wf(),
            final(self).nodes@.len() == old(self).nodes@.len(),
            final(self).arena() == depth_update(
                old(self).arena(),
                node as int,
                parent_depth as int,
                old(self).nodes@.len(),
            ),
            forward_from(old(self).arena(), node as int) && listed_once_from(old(self).arena(), node as int) ==> {
                &&& depths_only(old(self).arena(), final(self).arena())
                &&& final(self).arena()[node as int].depth == parent_depth + depth_step(old(self).arena()[node as int])
                &&& forall|x: int|
                    0 <= x < old(self).nodes@.len() && !reaches_within(old(self).arena(), node as int, x, old(self).nodes@.len())
                        ==> #[trigger] final(self).arena()[x] == old(self).arena()[x]
                &&& forall|p: int, n: nat, j: int|
                    #![trigger reaches_within(old(self).arena(), node as int, p, n), old(self).arena()[p].children[j]]
                    0 <= p < old(self).nodes@.len() && reaches_within(old(self).arena(), node as int, p, n) && 0 <= j
                        < old(self).arena()[p].children.len() ==> final(self).arena()[old(self).arena()[p].children[j] as int].depth
                        == final(self).arena()[p].depth + depth_step(old(self).arena()[old(self).arena()[p].children[j] as int])
            },
            final(self).root == old(self).root,
            final(self).current_node == old(self).current_node,
            final(self).in_selection_phase == old(self).in_selection_phase,
            final(self).ready_for_expansion == old(self).ready_for_expansion,
    {
        let ghost a = self.arena();
        let n = self.nodes.len();
        self.update_depth_rec(node, parent_depth, n);
        proof {
            if forward_from(a, node as int) && listed_once_from(a, node as int) {
                lemma_depth_update_frame(a, node as int, parent_depth as int, a.len());
                lemma_depth_update_tree(a, node as int, parent_depth as int, a.len());
                assert forall|p: int, n: nat, j: int|
                    #![trigger reaches_within(a, node as int, p, n), a[p].children[j]]
                    0 <= p < a.len() && reaches_within(a, node as int, p, n) && 0 <= j < a[p].children.len() implies self.arena()[a[p].children[j] as int].depth
                    == self.arena()[p].depth + depth_step(a[a[p].children[j] as int]) by {
                    lemma_reach_bounded(a, node as int, node as int, p, n);
                    assert(a[p].children[j] > p && a[p].children[j] < a.len());
                    lemma_reach_monotone(a, node as int, p, (p - node) as nat, (a.len() - 2) as nat);
                }
            }
        }
    }

    /// The first child of `node` that is an action node for `best_action`, the
    /// action that the scores picked (none when no action was picked).
    pub fn select_action(&self, node: usize, best_action: Option<NpcAction>) -> (r: Option<usize>)
        requires
            self.wf(),
            node < self.nodes@.len(),
        ensures
            match best_action {
                Some(b) => r == action_child(self.arena(), node as int, b),
                None => r is None,
            },
            r matches Some(c) ==> c < self.nodes@.len(),
    {
        let ghost a = self.arena();
        match best_action {
            None => None,
            Some(b) => {
                let children = &self.nodes[node].children;
                let mut j: usize = 0;
                while j < children.len()
                    invariant
                        a == self.arena(),
                        arena_wf(a),
                        node < a.len(),
                        best_action == Some(b),
                        children@ == a[node as int].children,
                        0 <= j <= children@.len(),
                        forall|k: int|
                            0 <= k < j ==> (#[trigger] a[a[node as int].children[k] as int]).node_type
                                != (NodeType::ActionNode { action: b }),
                    decreases children@.len() - j,
                {
                    let c = children[j];
                    assert(a[node as int].children[j as int] < a.len());
                    if self.nodes[c].node_type == (NodeType::ActionNode { action: b }) {
                        proof {
                            lemma_action_child(a, node as int, b, j as int);
                        }
                        assert(action_child(self.arena(), node as int, b) == Some(c));
                        return Some(c);
                    }
                    j = j + 1;
                }
                assert(!exists|j: int| is_first_action_child(a, node as int, b, j));
                None
            },
        }
    }

    /// For each action among the action-node children of `node`, in the order
    /// in which the actions first appear, the total reward and total visits of
    /// its nodes: what the scores of the actions are computed from.
    pub fn action_statistics(&self, node: usize) -> (r: Vec<(NpcAction, u32, usize)>)
        requires
            self.wf(),
            node < self.nodes@.len(),
            forall|x: NpcAction|
                #[trigger] action_reward(self.arena(), self.arena()[node as int].children, x) <= u32::MAX
                    && action_visits(self.arena(), self.arena()[node as int].children, x) <= usize::MAX,
        ensures
            ({
                let a = self.arena();
                let cs = a[node as int].children;
                let xs = child_actions(a, cs);
                &&& r@.len() == xs.len()
                &&& forall|j: int|
                    0 <= j < r@.len() ==> #[trigger] r@[j] == (
                        xs[j],
                        action_reward(a, cs, xs[j]) as u32,
                        action_visits(a, cs, xs[j]) as usize,
                    )
            }),
    {
        let ghost a = self.arena();
        let ghost cs = a[node as int].children;
        let children = &self.nodes[node].children;
        let mut r: Vec<(NpcAction, u32, usize)> = Vec::new();
        let mut k: usize = 0;
        while k < children.len()
            invariant
                a == self.arena(),
                arena_wf(a),
                node < a.len(),
                children@ == cs,
                cs == a[node as int].children,
                forall|x: NpcAction|
                    #[trigger] action_reward(a, cs, x) <= u32::MAX && action_visits(a, cs, x) <= usize::MAX,
                0 <= k <= cs.len(),
                r@.len() == child_actions(a, cs.take(k as int)).len(),
                forall|j: int|
                    0 <= j < r@.len() ==> #[trigger] r@[j] == (
                        child_actions(a, cs.take(k as int))[j],
                        action_reward(a, cs.take(k as int), child_actions(a, cs.take(k as int))[j]) as u32,
                        action_visits(a, cs.take(k as int), child_actions(a, cs.take(k as int))[j]) as usize,
                    ),
                forall|j1: int, j2: int|
                    0 <= j1 < r@.len() && 0 <= j2 < r@.len() && j1 != j2 ==> r@[j1].0 != r@[j2].0,
            decreases cs.len() - k,
        {
            let ghost pre = cs.take(k as int);
            let ghost post = cs.take(k as int + 1);
            assert(post.drop_last() =~= pre);
            assert(post.last() == cs[k as int]);
            let c = children[k];
            assert(c < a.len());
            let child = &self.nodes[c];
            if let NodeType::ActionNode { action } = child.node_type {
                let reward = child.total_reward;
                let visits = child.visits;
                proof {
                    lemma_action_totals_prefix(a, cs, k as int + 1, action);
                    lemma_action_totals_prefix(a, cs, k as int, action);
                }
                assert(action_reward(a, post, action) == action_reward(a, pre, action) + reward);
                assert(action_visits(a, post, action) == action_visits(a, pre, action) + visits);
                let found = find_entry(&r, action);
                match found {
                    Some(j) => {
                        let entry = r[j];
                        assert(entry.0 == action);
                        assert(child_actions(a, pre).contains(action));
                        assert(child_actions(a, post) == child_actions(a, pre));
                        r.set(j, (action, entry.1 + reward, entry.2 + visits));
                    },
                    None => {
                        assert(!child_actions(a, pre).contains(action)) by {
                            if child_actions(a, pre).contains(action) {
                                let m = choose|m: int| 0 <= m < child_actions(a, pre).len() && child_actions(a, pre)[m] == action;
                                assert(r@[m].0 == action);
                            }
                        }
                        proof {
                            lemma_absent_action_totals(a, pre, action);
                        }
                        r.push((action, reward, visits));
                    },
                }
                assert forall|j2: int| 0 <= j2 < r@.len() implies #[trigger] r@[j2] == (
                    child_actions(a, post)[j2],
                    action_reward(a, post, child_actions(a, post)[j2]) as u32,
                    action_visits(a, post, child_actions(a, post)[j2]) as usize,
                ) by {
                    let y = child_actions(a, post)[j2];
                    lemma_action_totals_prefix(a, cs, k as int + 1, y);
                }
            } else {
                assert(child_actions(a, post) == child_actions(a, pre));
                assert forall|x: NpcAction|
                    action_reward(a, post, x) == action_reward(a, pre, x) && action_visits(a, post, x) == action_visits(a, pre, x) by {}
            }
            k = k + 1;
        }
        assert(cs.take(cs.len() as int) =~= cs);
        r
    }

    /// Adds an action node for `action` under `node` and returns its index.
    /// Its parent is a copy of `node` taken before the child is added: the
    /// copy keeps the node's parent, so rewards propagated from the new child
    /// skip `node` itself and reach its parent.
    pub fn expand(&mut self, node: usize, action: NpcAction) -> (c: usize)
        requires
            old(self).wf(),
            node < old(self).nodes@.len(),
            old(self).arena()[node as int].depth < u32::MAX,
            old(self).nodes@.len() + 2 <= usize::MAX,
        ensures
            final(self).wf(),
            c == old(self).nodes@.len() + 1,
            final(self).nodes@.len() == old(self).nodes@.len() + 2,
            final(self).arena() == expanded(old(self).arena(), node as int, action),
            final(self).root == old(self).root,
            final(self).current_node == old(self).current_node,
            final(self).in_selection_phase == old(self).in_selection_phase,
            final(self).ready_for_expansion == old(self).ready_for_expansion,
    {
        let ghost a = self.arena();
        let s = self.nodes.len();
        let snapshot = Node {
            node_type: self.nodes[node].node_type,
            visits: self.nodes[node].visits,
            total_reward: self.nodes[node].total_reward,
            depth: self.nodes[node].depth,
            parent: self.nodes[node].parent,
            children: copy_indices(&self.nodes[node].children),
        };
        self.nodes.push(snapshot);
        let depth = self.nodes[node].depth + 1;
        let child = Node::new(NodeType::ActionNode { action }, depth, Some(s));
        self.nodes.push(child);
        let c = s + 1;
        let ghost a2 = self.arena();
        assert(a2 =~= a.push(a[node as int]).push(child@));
        self.nodes[node].children.push(c);
        assert(self.arena() =~= a2.update(
            node as int,
            NodeView { children: a[node as int].children.push(c), ..a[node as int] },
        ));
        c
    }

    /// Makes `node` the root and the current node: it loses its parent, and
    /// the depths under it are set from the root depth 1. An information node
    /// cannot be the root.
    pub fn set_root(&mut self, node: usize)
        requires
            old(self).wf(),
            node < old(self).nodes@.len(),
            !(old(self).arena()[node as int].node_type is InformationNode),
            1 + old(self).nodes@.len() <= u32::MAX,
        ensures
            final(self).wf(),
            final(self).arena() == depth_update(
                old(self).arena().update(node as int, NodeView { parent: None, ..old(self).arena()[node as int] }),
                node as int,
                1,
                old(self).nodes@.len(),
            ),
            final(self).root == Some(node),
            final(self).current_node == Some(node),
            final(self).in_selection_phase == old(self).in_selection_phase,
            final(self).ready_for_expansion == old(self).ready_for_expansion,
    {
        let ghost a = self.arena();
        self.nodes[node].remove_parent();
        assert(self.arena() =~= a.update(node as int, NodeView { parent: None, ..a[node as int] }));
        self.update_depth(node, 1);
        self.root = Some(node);
        self.current_node = Some(node);
    }

    /// The index of the root, if any.
    pub fn get_root(&self) -> (r: Option<usize>)
        ensures
            r == self.root,
    {
        self.root
    }

    /// The index of the current node, if any.
    pub fn get_current_node(&self) -> (r: Option<usize>)
        ensures
            r == self.current_node,
    {
        self.current_node
    }

    /// Makes `node` the current node.
    pub fn set_current_node(&mut self, node: usize)
        requires
            old(self).wf(),
            node < old(self).nodes@.len(),
        ensures
            final(self).wf(),
            *final(self) == (MCTSTree { current_node: Some(node), ..*old(self) }),
    {
        self.current_node = Some(node);
    }

    /// Makes the root the current node, when there is a root.
    pub fn reset_current_node_to_root(&mut self)
        requires
            old(self).wf(),
        ensures
            final(self).wf(),
            *final(self) == (if old(self).root is Some {
                MCTSTree { current_node: old(self).root, ..*old(self) }
            } else {
                *old(self)
            }),
    {
        if let Some(root) = self.root {
            self.current_node = Some(root);
        }
    }

    /// The tree has a root.
    pub fn has_root(&self) -> (b: bool)
        ensures
            b == self.root is Some,
    {
        self.root.is_some()
    }

    /// The height of the tree under the root (see `calculate_height`), or 0
    /// without a root.
    pub fn get_height(&self) -> (h: u32)
        requires
            self.wf(),
            self.nodes@.len() <= u32::MAX,
        ensures
            h == match self.root {
                Some(r) => height(self.arena(), r as int, self.nodes@.len()),
                None => 0,
            },
    {
        match self.root {
            Some(r) => self.calculate_height(r),
            None => 0,
        }
    }

    /// Makes a new null node the root and the current node.
    pub fn initialize_tree(&mut self)
        requires
            old(self).wf(),
            old(self).nodes@.len() + 2 <= u32::MAX,
        ensures
            final(self).wf(),
            final(self).arena() == old(self).arena().push(
                NodeView {
                    node_type: NodeType::NullNode,
                    visits: 0,
                    total_reward: 0,
                    depth: 1,
                    parent: None,
                    children: Seq::empty(),
                },
            ),
            final(self).root == Some(old(self).nodes@.len() as usize),
            final(self).current_node == Some(old(self).nodes@.len() as usize),
            final(self).in_selection_phase == old(self).in_selection_phase,
            final(self).ready_for_expansion == old(self).ready_for_expansion,
    {
        let null_node = self.add_node(NodeType::NullNode, 0, None);
        let ghost a = self.arena();
        self.set_root(null_node);
        assert(a.update(null_node as int, NodeView { parent: None, ..a[null_node as int] }) =~= a);
        reveal_with_fuel(depth_update, 2);
        reveal_with_fuel(children_depth_update, 1);
        assert(self.arena() =~= a.update(null_node as int, NodeView { depth: 1, ..a[null_node as int] }));
    }

    /// Forgets the current node.
    pub fn wipe_current_node(&mut self)
        requires
            old(self).wf(),
        ensures
            final(self).wf(),
            *final(self) == (MCTSTree { current_node: None, ..*old(self) }),
    {
        self.current_node = None;
    }

    /// Makes the root the current node, when there is a root.
    pub fn set_root_current_node(&mut self)
        requires
            old(self).wf(),
        ensures
            final(self).wf(),
            *final(self) == (if old(self).root is Some {
                MCTSTree { current_node: old(self).root, ..*old(self) }
            } else {
                *old(self)
            }),
    {
        if let Some(root) = self.root {
            self.current_node = Some(root);
        }
    }

    /// The tree is in the selection phase.
    pub fn is_in_selection_phase(&self) -> (b: bool)
        ensures
            b == self.in_selection_phase,
    {
        self.in_selection_phase
    }

    /// Sets whether the tree is in the selection phase.
    pub fn set_in_selection_phase(&mut self, in_selection_phase: bool)
        ensures
            *final(self) == (MCTSTree { in_selection_phase, ..*old(self) }),
    {
        self.in_selection_phase = in_selection_phase;
    }

    /// The tree is ready for expansion.
    pub fn is_ready_for_expansion(&self) -> (b: bool)
        ensures
            b == self.ready_for_expansion,
    {
        self.ready_for_expansion
    }

    /// Sets whether the tree is ready for expansion.
    pub fn set_ready_for_expansion(&mut self, ready: bool)
        ensures
            *final(self) == (MCTSTree { ready_for_expansion: ready, ..*old(self) }),
    {
        self.ready_for_expansion = ready;
    }

}

} // verus!
