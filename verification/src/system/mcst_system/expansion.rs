use vstd::prelude::*;
use crate::npcs::agent::{Agent, AgentView};
use crate::npcs::npc_action::{NpcAction, all_actions};
use crate::system::mcst_tree::mcst_node::{NodeType, NodeView};
use crate::system::mcst_tree::mcst_tree::{MCTSTree, expanded, has_child_spec};
use crate::system::mcst_tree::simulation_tree::{SimulationTree, distinct_ids, tree_index, lemma_tree_index, lemma_replace_tree};
use crate::system::mcst_system::selection::{
    agent_views, select_best_action_using_uct, selected_agent, selected_child,
};
use crate::system::simulation::handle_selected_action::index_of_first;

verus! {

/// The arena after node `n` is expanded with each of the first `k` actions of
/// `acts` for which it has no action node yet.
pub open spec fn expand_all(a: Seq<NodeView>, n: int, acts: Seq<NpcAction>, k: int) -> Seq<NodeView>
    decreases k,
{
    if k <= 0 {
        a
    } else {
        let a1 = expand_all(a, n, acts, k - 1);
        if has_child_spec(a1, n, NodeType::ActionNode { action: acts[k - 1] }) {
            a1
        } else {
            expanded(a1, n, acts[k - 1])
        }
    }
}

/// Gives the current node an action node for every action it has none for.
pub fn expand_current_node(tree: &mut MCTSTree)
    requires
        old(tree).wf(),
        old(tree).current_node is Some,
        old(tree).arena()[old(tree).current_node.unwrap() as int].depth < u32::MAX,
        old(tree).nodes@.len() + 14 <= usize::MAX,
    ensures
        final(tree).wf(),
        final(tree).arena() == expand_all(
            old(tree).arena(),
            old(tree).current_node.unwrap() as int,
            all_actions(),
            all_actions().len() as int,
        ),
        final(tree).root == old(tree).root,
        final(tree).current_node == old(tree).current_node,
        final(tree).in_selection_phase == old(tree).in_selection_phase,
        final(tree).ready_for_expansion == old(tree).ready_for_expansion,
{
    let ghost a0 = tree.arena();
    let current_node = tree.current_node.unwrap();
    let actions = NpcAction::iter();
    let mut k: usize = 0;
    while k < actions.len()
        invariant
            tree.wf(),
            actions@ == all_actions(),
            0 <= k <= actions@.len(),
            current_node < tree.nodes@.len(),
            tree.current_node == old(tree).current_node,
            old(tree).current_node == Some(current_node),
            tree.arena()[current_node as int].depth == a0[current_node as int].depth,
            a0[current_node as int].depth < u32::MAX,
            a0 == old(tree).arena(),
            tree.nodes@.len() <= a0.len() + 2 * k,
            a0.len() + 14 <= usize::MAX,
            tree.arena() == expand_all(a0, current_node as int, actions@, k as int),
            tree.root == old(tree).root,
            tree.in_selection_phase == old(tree).in_selection_phase,
            tree.ready_for_expansion == old(tree).ready_for_expansion,
        decreases actions@.len() - k,
    {
        let action = actions[k];
        if !tree.has_child(current_node, &NodeType::ActionNode { action }) {
            tree.expand(current_node, action);
        }
        k = k + 1;
    }
}

/// The tree of agent `id` takes part in expansion: some agent has that id,
/// and the tree is ready for expansion and has a current node.
pub open spec fn expands(t: MCTSTree, id: i32, agents: Seq<AgentView>) -> bool {
    &&& index_of_first(agents.map_values(|a: AgentView| a.id), id) is Some
    &&& t.ready_for_expansion
    &&& t.current_node is Some
}

/// The current node of a tree that takes part in expansion can take new
/// children without a count overflowing.
pub open spec fn expansion_fits(e: (i32, MCTSTree), agents: Seq<AgentView>) -> bool {
    expands(e.1, e.0, agents) ==> {
        &&& e.1.arena()[e.1.current_node.unwrap() as int].depth < u32::MAX
        &&& e.1.nodes@.len() + 14 <= usize::MAX
    }
}

/// What the first half of the expansion phase does to one entry: a tree that
/// takes part in expansion has its current node expanded with every action it
/// has no node for; any other tree stays as it is.
pub open spec fn expansion_rel(e: (i32, MCTSTree), e2: (i32, MCTSTree), agents: Seq<AgentView>) -> bool {
    &&& e2.0 == e.0
    &&& if expands(e.1, e.0, agents) {
        &&& e2.1.arena() == expand_all(
            e.1.arena(),
            e.1.current_node.unwrap() as int,
            all_actions(),
            all_actions().len() as int,
        )
        &&& e2.1.root == e.1.root
        &&& e2.1.current_node == e.1.current_node
        &&& e2.1.in_selection_phase == e.1.in_selection_phase
        &&& e2.1.ready_for_expansion == e.1.ready_for_expansion
    } else {
        e2.1 == e.1
    }
}

/// Expands the tree of entry `i` when it takes part in expansion.
fn expand_entry(simulation_tree: &mut SimulationTree, i: usize, agents: &[Agent])
    requires
        old(simulation_tree).wf(),
        i < old(simulation_tree).trees@.len(),
        expansion_fits(old(simulation_tree).trees@[i as int], agent_views(agents@)),
    ensures
        final(simulation_tree).wf(),
        final(simulation_tree).trees@ == old(simulation_tree).trees@.update(
            i as int,
            final(simulation_tree).trees@[i as int],
        ),
        expansion_rel(old(simulation_tree).trees@[i as int], final(simulation_tree).trees@[i as int], agent_views(agents@)),
{
    let ghost ts = simulation_tree.trees@;
    let ghost avs = agent_views(agents@);
    let agent_id = simulation_tree.trees[i].0;
    let has_agent = find_agent_index(agents, agent_id).is_some();
    let ready = simulation_tree.trees[i].1.ready_for_expansion && simulation_tree.trees[i].1.current_node.is_some();
    if has_agent && ready {
        assert(expands(ts[i as int].1, agent_id, avs));
        assert(ts[i as int].1.wf());
        let tree = &mut simulation_tree.trees[i].1;
        expand_current_node(tree);
        proof {
            assert(simulation_tree.trees@ =~= ts.update(i as int, (ts[i as int].0, simulation_tree.trees@[i as int].1)));
            lemma_replace_tree(ts, i as int, simulation_tree.trees@[i as int].1);
        }
    } else {
        assert(simulation_tree.trees@ =~= ts.update(i as int, simulation_tree.trees@[i as int]));
    }
}

/// The expansion phase, first half: when the search is on, every tree that
/// takes part in expansion (see `expands`) gets an action node under its
/// current node for every action it has none for.
pub fn expansion_system(mcst_flag: bool, simulation_tree: &mut SimulationTree, agents: &[Agent])
    requires
        old(simulation_tree).wf(),
        forall|i: int|
            0 <= i < old(simulation_tree).trees@.len() ==> expansion_fits(
                #[trigger] old(simulation_tree).trees@[i],
                agent_views(agents@),
            ),
    ensures
        final(simulation_tree).wf(),
        final(simulation_tree).trees@.len() == old(simulation_tree).trees@.len(),
        !mcst_flag ==> final(simulation_tree).trees@ == old(simulation_tree).trees@,
        mcst_flag ==> forall|i: int|
            0 <= i < old(simulation_tree).trees@.len() ==> expansion_rel(
                old(simulation_tree).trees@[i],
                #[trigger] final(simulation_tree).trees@[i],
                agent_views(agents@),
            ),
{
    if !mcst_flag {
        return;
    }
    let ghost trees0 = simulation_tree.trees@;
    let mut i: usize = 0;
    while i < simulation_tree.trees.len()
        invariant
            simulation_tree.wf(),
            simulation_tree.trees@.len() == trees0.len(),
            0 <= i <= trees0.len(),
            forall|k: int| 0 <= k < trees0.len() ==> expansion_fits(#[trigger] trees0[k], agent_views(agents@)),
            forall|k: int| i <= k < trees0.len() ==> #[trigger] simulation_tree.trees@[k] == trees0[k],
            forall|k: int|
                0 <= k < i ==> expansion_rel(trees0[k], #[trigger] simulation_tree.trees@[k], agent_views(agents@)),
        decreases trees0.len() - i,
    {
        assert(simulation_tree.trees@[i as int] == trees0[i as int]);
        expand_entry(simulation_tree, i, agents);
        i = i + 1;
    }
}

/// The ids of the agents, in order.
pub open spec fn view_ids(agents: Seq<AgentView>) -> Seq<i32> {
    agents.map_values(|a: AgentView| a.id)
}

/// What the second half of the expansion phase does to one entry: in a tree
/// that takes part in expansion, the child of the current node for the action
/// the scores picked (if there is one) becomes the current node, and the tree
/// is no longer ready for expansion; any other tree stays as it is.
pub open spec fn finish_rel(
    e: (i32, MCTSTree),
    e2: (i32, MCTSTree),
    agents: Seq<AgentView>,
    best: Option<NpcAction>,
) -> bool {
    &&& e2.0 == e.0
    &&& if expands(e.1, e.0, agents) {
        let sel = selected_child(e.1, e.1.current_node.unwrap(), best);
        e2.1 == (MCTSTree {
            current_node: if sel is Some { sel } else { e.1.current_node },
            ready_for_expansion: false,
            ..e.1
        })
    } else {
        e2.1 == e.1
    }
}

/// Agent `j` after the second half of the expansion phase: the first agent
/// with the id of a tree that takes part in expansion takes up the action of
/// the child selected there; every other agent stays as it is.
pub open spec fn finish_agent(
    trees: Seq<(i32, MCTSTree)>,
    agents: Seq<AgentView>,
    best: Seq<Option<NpcAction>>,
    j: int,
) -> AgentView {
    let a = agents[j];
    match tree_index(trees, a.id) {
        Some(i) => if index_of_first(view_ids(agents), a.id) == Some(j) && expands(trees[i].1, a.id, agents) {
            let t = trees[i].1;
            selected_agent(t, selected_child(t, t.current_node.unwrap(), best[i]), a)
        } else {
            a
        },
        None => a,
    }
}

/// Selects the picked child in the tree of entry `i`, when it takes part in
/// expansion, and makes the first agent with its id take up that action.
fn finish_entry(
    simulation_tree: &mut SimulationTree,
    i: usize,
    agents: &mut Vec<Agent>,
    best_action: Option<NpcAction>,
)
    requires
        old(simulation_tree).wf(),
        i < old(simulation_tree).trees@.len(),
    ensures
        final(simulation_tree).wf(),
        final(simulation_tree).trees@ == old(simulation_tree).trees@.update(
            i as int,
            final(simulation_tree).trees@[i as int],
        ),
        finish_rel(
            old(simulation_tree).trees@[i as int],
            final(simulation_tree).trees@[i as int],
            agent_views(old(agents)@),
            best_action,
        ),
        final(agents)@.len() == old(agents)@.len(),
        ({
            let e = old(simulation_tree).trees@[i as int];
            let avs = agent_views(old(agents)@);
            match index_of_first(view_ids(avs), e.0) {
                Some(j) => if expands(e.1, e.0, avs) {
                    agent_views(final(agents)@) == avs.update(
                        j,
                        selected_agent(e.1, selected_child(e.1, e.1.current_node.unwrap(), best_action), avs[j]),
                    )
                } else {
                    agent_views(final(agents)@) == avs
                },
                None => agent_views(final(agents)@) == avs,
            }
        }),
{
    let ghost ts = simulation_tree.trees@;
    let ghost avs = agent_views(agents@);
    let agent_id = simulation_tree.trees[i].0;
    assert(agent_views(agents@).map_values(|a: AgentView| a.id) =~= view_ids(avs));
    let found = find_agent_index(agents, agent_id);
    let ready = simulation_tree.trees[i].1.ready_for_expansion && simulation_tree.trees[i].1.current_node.is_some();
    match found {
        Some(j) => {
            if ready {
                let current_node = simulation_tree.trees[i].1.current_node.unwrap();
                assert(ts[i as int].1.wf());
                let selected = select_best_action_using_uct(
                    &mut agents[j],
                    &simulation_tree.trees[i].1,
                    current_node,
                    best_action,
                );
                assert(agent_views(agents@) =~= avs.update(
                    j as int,
                    selected_agent(ts[i as int].1, selected, avs[j as int]),
                ));
                let tree = &mut simulation_tree.trees[i].1;
                if let Some(best_action_node) = selected {
                    tree.set_current_node(best_action_node);
                }
                tree.set_ready_for_expansion(false);
                proof {
                    assert(simulation_tree.trees@ =~= ts.update(i as int, (ts[i as int].0, simulation_tree.trees@[i as int].1)));
                    lemma_replace_tree(ts, i as int, simulation_tree.trees@[i as int].1);
                }
            } else {
                assert(simulation_tree.trees@ =~= ts.update(i as int, simulation_tree.trees@[i as int]));
                assert(agent_views(agents@) =~= avs);
            }
        },
        None => {
            assert(simulation_tree.trees@ =~= ts.update(i as int, simulation_tree.trees@[i as int]));
            assert(agent_views(agents@) =~= avs);
        },
    }
}

/// The expansion phase, second half: when the search is on, in every tree
/// that takes part in expansion the child for the action the scores picked
/// becomes the current node (see `finish_rel`) and the agent takes up that
/// action (see `finish_agent`); `best_actions[i]` is the action the scores
/// picked at the current node of the tree of entry `i`.
pub fn finish_expansion_system(
    mcst_flag: bool,
    simulation_tree: &mut SimulationTree,
    agents: &mut Vec<Agent>,
    best_actions: &[Option<NpcAction>],
)
    requires
        old(simulation_tree).wf(),
        old(simulation_tree).trees@.len() == best_actions@.len(),
    ensures
        final(simulation_tree).wf(),
        final(simulation_tree).trees@.len() == old(simulation_tree).trees@.len(),
        final(agents)@.len() == old(agents)@.len(),
        !mcst_flag ==> final(simulation_tree).trees@ == old(simulation_tree).trees@ && agent_views(final(agents)@)
            == agent_views(old(agents)@),
        mcst_flag ==> forall|i: int|
            0 <= i < old(simulation_tree).trees@.len() ==> finish_rel(
                old(simulation_tree).trees@[i],
                #[trigger] final(simulation_tree).trees@[i],
                agent_views(old(agents)@),
                best_actions@[i],
            ),
        mcst_flag ==> forall|j: int|
            0 <= j < old(agents)@.len() ==> #[trigger] final(agents)@[j]@ == finish_agent(
                old(simulation_tree).trees@,
                agent_views(old(agents)@),
                best_actions@,
                j,
            ),
{
    if !mcst_flag {
        return;
    }
    let ghost trees0 = simulation_tree.trees@;
    let ghost avs0 = agent_views(agents@);
    let mut i: usize = 0;
    while i < simulation_tree.trees.len()
        invariant
            simulation_tree.wf(),
            simulation_tree.trees@.len() == trees0.len(),
            trees0.len() == best_actions@.len(),
            distinct_ids(trees0),
            agents@.len() == avs0.len(),
            view_ids(agent_views(agents@)) == view_ids(avs0),
            forall|k: int| 0 <= k < avs0.len() ==> (#[trigger] agents@[k])@.id == avs0[k].id,
            0 <= i <= trees0.len(),
            forall|k: int| i <= k < trees0.len() ==> #[trigger] simulation_tree.trees@[k] == trees0[k],
            forall|k: int|
                0 <= k < i ==> finish_rel(trees0[k], #[trigger] simulation_tree.trees@[k], avs0, best_actions@[k]),
            forall|j: int|
                0 <= j < avs0.len() ==> #[trigger] agents@[j]@ == (if tree_index(trees0, avs0[j].id) matches Some(t)
                    && t < i {
                    finish_agent(trees0, avs0, best_actions@, j)
                } else {
                    avs0[j]
                }),
        decreases trees0.len() - i,
    {
        let ghost avs = agent_views(agents@);
        let ghost ts = simulation_tree.trees@;
        assert(ts[i as int] == trees0[i as int]);
        proof {
            lemma_tree_index(trees0, trees0[i as int].0, i as int);
            assert(view_ids(avs) =~= view_ids(avs0));
            assert(avs.map_values(|a: AgentView| a.id) =~= avs0.map_values(|a: AgentView| a.id));
        }
        finish_entry(simulation_tree, i, agents, best_actions[i]);
        proof {
            let id = trees0[i as int].0;
            assert(view_ids(avs) == view_ids(avs0));
            assert(avs.map_values(|a: AgentView| a.id) == view_ids(avs0));
            assert forall|j: int|
                0 <= j < avs0.len() implies #[trigger] agents@[j]@ == (if tree_index(trees0, avs0[j].id) matches Some(t)
                    && t < i + 1 {
                    finish_agent(trees0, avs0, best_actions@, j)
                } else {
                    avs0[j]
                }) by {
                assert(agents@[j]@ == agent_views(agents@)[j]);
                if avs0[j].id == id {
                    assert(tree_index(trees0, avs0[j].id) == Some(i as int));
                } else {
                    match index_of_first(view_ids(avs), id) {
                        Some(j0) => {
                            assert(view_ids(avs)[j0] == id);
                            assert(j0 != j);
                        },
                        None => {},
                    }
                }
            }
            assert forall|k: int| 0 <= k < avs0.len() implies (#[trigger] agents@[k])@.id == avs0[k].id by {
                assert(agents@[k]@ == agent_views(agents@)[k]);
            }
            assert(view_ids(agent_views(agents@)) =~= view_ids(avs0));
        }
        i = i + 1;
    }
}

/// The index of the first agent with the given id.
fn find_agent_index(agents: &[Agent], id: i32) -> (r: Option<usize>)
    ensures
        match r {
            Some(j) => j < agents@.len() && index_of_first(agent_views(agents@).map_values(|a: AgentView| a.id), id)
                == Some(j as int),
            None => index_of_first(agent_views(agents@).map_values(|a: AgentView| a.id), id) is None,
        },
{
    let ghost ids = agent_views(agents@).map_values(|a: AgentView| a.id);
    let mut i: usize = 0;
    while i < agents.len()
        invariant
            0 <= i <= agents@.len(),
            ids == agent_views(agents@).map_values(|a: AgentView| a.id),
            forall|k: int| 0 <= k < i ==> ids[k] != id,
        decreases agents@.len() - i,
    {
        if agents[i].get_id() == id {
            proof {
                crate::system::simulation::handle_selected_action::lemma_index_of_first(ids, id, i as int);
            }
            return Some(i);
        }
        i = i + 1;
    }
    None
}

} // verus!
