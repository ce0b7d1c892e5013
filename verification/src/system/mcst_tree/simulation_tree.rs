use vstd::prelude::*;
use crate::system::mcst_tree::mcst_tree::MCTSTree;

verus! {

/// No two entries belong to the same agent.
pub open spec fn distinct_ids(s: Seq<(i32, MCTSTree)>) -> bool {
    forall|i: int, j: int| 0 <= i < s.len() && 0 <= j < s.len() && i != j ==> s[i].0 != s[j].0
}

/// The index of the entry of agent `id`, if any.
pub open spec fn tree_index(s: Seq<(i32, MCTSTree)>, id: i32) -> Option<int> {
    if exists|i: int| 0 <= i < s.len() && s[i].0 == id {
        Some(choose|i: int| 0 <= i < s.len() && s[i].0 == id)
    } else {
        None
    }
}

/// In a list without repeated agents, the entry of an agent is the one that
/// carries its id.
pub proof fn lemma_tree_index(s: Seq<(i32, MCTSTree)>, id: i32, i: int)
    requires
        distinct_ids(s),
        0 <= i < s.len(),
        s[i].0 == id,
    ensures
        tree_index(s, id) == Some(i),
{
    let k = choose|k: int| 0 <= k < s.len() && s[k].0 == id;
    assert(0 <= k < s.len() && s[k].0 == id);
}

/// The tree of agent `id`, if it has one.
pub open spec fn tree_of(s: Seq<(i32, MCTSTree)>, id: i32) -> Option<MCTSTree> {
    match tree_index(s, id) {
        Some(i) => Some(s[i].1),
        None => None,
    }
}

/// Every tree of the list is well formed.
pub open spec fn all_trees_wf(s: Seq<(i32, MCTSTree)>) -> bool {
    forall|i: int| 0 <= i < s.len() ==> (#[trigger] s[i]).1.wf()
}

/// Putting a well formed tree in place of the tree of one entry keeps the
/// agents distinct and the trees well formed.
pub proof fn lemma_replace_tree(before: Seq<(i32, MCTSTree)>, i: int, t: MCTSTree)
    requires
        0 <= i < before.len(),
        distinct_ids(before),
        all_trees_wf(before),
        t.wf(),
    ensures
        distinct_ids(before.update(i, (before[i].0, t))),
        all_trees_wf(before.update(i, (before[i].0, t))),
{
    let after = before.update(i, (before[i].0, t));
    assert forall|p: int, q: int| 0 <= p < after.len() && 0 <= q < after.len() && p != q implies after[p].0 != after[q].0 by {
        assert(after[p].0 == before[p].0);
        assert(after[q].0 == before[q].0);
    }
    assert forall|k: int| 0 <= k < after.len() implies (#[trigger] after[k]).1.wf() by {
        if k != i {
            assert(after[k] == before[k]);
        }
    }
}

/// The search trees of all agents, one per agent id.
#[derive(Debug)]
pub struct SimulationTree {
    pub trees: Vec<(i32, MCTSTree)>,
}

impl SimulationTree {
    /// No agent has two trees, and every tree is well formed.
    pub open spec fn wf(&self) -> bool {
        &&& distinct_ids(self.trees@)
        &&& all_trees_wf(self.trees@)
    }

    /// No trees.
    pub fn default() -> (s: SimulationTree)
        ensures
            s.wf(),
            s.trees@ == Seq::<(i32, MCTSTree)>::empty(),
    {
        SimulationTree { trees: Vec::new() }
    }

    /// The index of the entry of agent `agent_id`, if any.
    pub fn find_index(&self, agent_id: i32) -> (r: Option<usize>)
        requires
            self.wf(),
        ensures
            match r {
                Some(i) => i < self.trees@.len() && tree_index(self.trees@, agent_id) == Some(i as int)
                    && self.trees@[i as int].0 == agent_id && forall|k: int| 0 <= k < i ==> self.trees@[k].0 != agent_id,
                None => tree_index(self.trees@, agent_id) is None && forall|k: int|
                    0 <= k < self.trees@.len() ==> self.trees@[k].0 != agent_id,
            },
    {
        let mut i: usize = 0;
        while i < self.trees.len()
            invariant
                self.wf(),
                0 <= i <= self.trees@.len(),
                forall|k: int| 0 <= k < i ==> self.trees@[k].0 != agent_id,
            decreases self.trees@.len() - i,
        {
            if self.trees[i].0 == agent_id {
                proof {
                    lemma_tree_index(self.trees@, agent_id, i as int);
                }
                return Some(i);
            }
            i = i + 1;
        }
        None
    }

    /// Gives agent `agent_id` the tree `tree`, replacing the one it had.
    pub fn add_tree(&mut self, agent_id: i32, tree: MCTSTree)
        requires
            old(self).wf(),
            tree.wf(),
        ensures
            final(self).wf(),
            final(self).trees@ == match tree_index(old(self).trees@, agent_id) {
                Some(i) => old(self).trees@.update(i, (agent_id, tree)),
                None => old(self).trees@.push((agent_id, tree)),
            },
            tree_of(final(self).trees@, agent_id) == Some(tree),
            forall|other: i32| other != agent_id ==> #[trigger] tree_of(final(self).trees@, other) == tree_of(old(self).trees@, other),
    {
        let ghost s0 = self.trees@;
        match self.find_index(agent_id) {
            Some(i) => {
                self.trees.set(i, (agent_id, tree));
                proof {
                    let s1 = self.trees@;
                    lemma_tree_index(s1, agent_id, i as int);
                    assert forall|other: i32| other != agent_id implies #[trigger] tree_of(s1, other) == tree_of(s0, other) by {
                        match tree_index(s0, other) {
                            Some(j) => {
                                assert(s0[j].0 == other);
                                assert(j != i);
                                assert(s1[j] == s0[j]);
                                lemma_tree_index(s1, other, j);
                            },
                            None => {
                                assert(forall|k: int| 0 <= k < s1.len() ==> s1[k].0 != other) by {
                                    assert forall|k: int| 0 <= k < s1.len() implies s1[k].0 != other by {
                                        if k != i {
                                            assert(s1[k] == s0[k]);
                                        }
                                    }
                                }
                            },
                        }
                    }
                }
            },
            None => {
                self.trees.push((agent_id, tree));
                proof {
                    let s1 = self.trees@;
                    lemma_tree_index(s1, agent_id, s0.len() as int);
                    assert forall|other: i32| other != agent_id implies #[trigger] tree_of(s1, other) == tree_of(s0, other) by {
                        match tree_index(s0, other) {
                            Some(j) => {
                                assert(s0[j].0 == other);
                                assert(s1[j] == s0[j]);
                                lemma_tree_index(s1, other, j);
                            },
                            None => {
                                assert(forall|k: int| 0 <= k < s1.len() ==> s1[k].0 != other) by {
                                    assert forall|k: int| 0 <= k < s1.len() implies s1[k].0 != other by {
                                        if k < s0.len() {
                                            assert(s1[k] == s0[k]);
                                        }
                                    }
                                }
                            },
                        }
                    }
                }
            },
        }
    }

    /// The tree of agent `agent_id`, if it has one.
    pub fn get_tree(&self, agent_id: i32) -> (r: Option<&MCTSTree>)
        requires
            self.wf(),
        ensures
            match tree_index(self.trees@, agent_id) {
                Some(i) => r == Some(&self.trees@[i].1),
                None => r is None,
            },
    {
        match self.find_index(agent_id) {
            Some(i) => Some(&self.trees[i].1),
            None => None,
        }
    }

    /// Mutable access to the tree of agent `agent_id`, if it has one; the
    /// changes made through it land in that tree.
    pub fn get_tree_mut(&mut self, agent_id: i32) -> (r: Option<&mut MCTSTree>)
        requires
            old(self).wf(),
        ensures
            match tree_index(old(self).trees@, agent_id) {
                Some(i) => r matches Some(t) && *t == old(self).trees@[i].1 && final(self).trees@
                    == old(self).trees@.update(i, (agent_id, *final(t))),
                None => r is None && *final(self) == *old(self),
            },
    {
        match self.find_index(agent_id) {
            Some(i) => Some(&mut self.trees[i].1),
            None => None,
        }
    }

    /// The ids of the agents that have trees, in order.
    pub fn agent_ids(&self) -> (ids: Vec<i32>)
        ensures
            ids@ == self.trees@.map_values(|e: (i32, MCTSTree)| e.0),
    {
        let mut ids: Vec<i32> = Vec::new();
        let mut i: usize = 0;
        while i < self.trees.len()
            invariant
                0 <= i <= self.trees@.len(),
                ids@ == self.trees@.take(i as int).map_values(|e: (i32, MCTSTree)| e.0),
            decreases self.trees@.len() - i,
        {
            ids.push(self.trees[i].0);
            i = i + 1;
            assert(ids@ =~= self.trees@.take(i as int).map_values(|e: (i32, MCTSTree)| e.0));
        }
        assert(self.trees@.take(i as int) =~= self.trees@);
        ids
    }
}

/// No tree is still in the selection phase.
pub fn check_mcst_trees_done(simulation_tree: &SimulationTree) -> (b: bool)
    ensures
        b == forall|i: int|
            0 <= i < simulation_tree.trees@.len() ==> !(#[trigger] simulation_tree.trees@[i]).1.in_selection_phase,
{
    let mut i: usize = 0;
    while i < simulation_tree.trees.len()
        invariant
            0 <= i <= simulation_tree.trees@.len(),
            forall|k: int| 0 <= k < i ==> !(#[trigger] simulation_tree.trees@[k]).1.in_selection_phase,
        decreases simulation_tree.trees@.len() - i,
    {
        if simulation_tree.trees[i].1.is_in_selection_phase() {
            return false;
        }
        i = i + 1;
    }
    true
}

} // verus!
