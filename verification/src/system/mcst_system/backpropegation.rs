use vstd::prelude::*;
use crate::npcs::agent::{Agent, AgentView};
use crate::system::mcst_tree::mcst_node::NodeView;
use crate::system::mcst_tree::mcst_tree::{MCTSTree, backprop, backprop_fits};
use crate::system::mcst_tree::simulation_tree::{SimulationTree, lemma_replace_tree};
use crate::system::mcst_system::selection::agent_views;
use crate::system::simulation::handle_selected_action::{index_of_first, lemma_index_of_first};

verus! {

/// The agent ids of the entries, in order.
pub open spec fn entry_ids(trees: Seq<(i32, MCTSTree)>) -> Seq<i32> {
    trees.map_values(|e: (i32, MCTSTree)| e.0)
}

/// The arenas of the entries, in order.
pub open spec fn entry_arenas(trees: Seq<(i32, MCTSTree)>) -> Seq<Seq<NodeView>> {
    trees.map_values(|e: (i32, MCTSTree)| e.1.arena())
}

/// The current nodes of the entries, in order.
pub open spec fn entry_currents(trees: Seq<(i32, MCTSTree)>) -> Seq<Option<usize>> {
    trees.map_values(|e: (i32, MCTSTree)| e.1.current_node)
}

/// The arenas after the first `k` agents have propagated their rewards: each
/// agent with a tree that has a current node propagates its reward up from
/// that node.
pub open spec fn backprop_run(
    arenas: Seq<Seq<NodeView>>,
    ids: Seq<i32>,
    currents: Seq<Option<usize>>,
    agents: Seq<AgentView>,
    k: int,
) -> Seq<Seq<NodeView>>
    decreases k,
{
    if k <= 0 {
        arenas
    } else {
        let prev = backprop_run(arenas, ids, currents, agents, k - 1);
        let a = agents[k - 1];
        match index_of_first(ids, a.id) {
            Some(i) => match currents[i] {
                Some(n) => prev.update(i, backprop(prev[i], n as int, a.reward as int)),
                None => prev,
            },
            None => prev,
        }
    }
}

/// No count overflows while the first `k` agents propagate their rewards.
pub open spec fn backprop_run_fits(
    arenas: Seq<Seq<NodeView>>,
    ids: Seq<i32>,
    currents: Seq<Option<usize>>,
    agents: Seq<AgentView>,
    k: int,
) -> bool
    decreases k,
{
    if k <= 0 {
        true
    } else {
        let prev = backprop_run(arenas, ids, currents, agents, k - 1);
        let a = agents[k - 1];
        &&& backprop_run_fits(arenas, ids, currents, agents, k - 1)
        &&& match index_of_first(ids, a.id) {
            Some(i) => match currents[i] {
                Some(n) => backprop_fits(prev[i], n as int, a.reward as int),
                None => true,
            },
            None => true,
        }
    }
}

/// The backpropagation phase: when the search is on and rewards are due,
/// every agent with a tree propagates its reward up from the tree's current
/// node (see `backprop_run`), and both flags are cleared.
pub fn backpropegate_system(
    mcst_flag: &mut bool,
    backpropegation_flag: &mut bool,
    simulation_tree: &mut SimulationTree,
    agents: &[Agent],
)
    requires
        old(simulation_tree).wf(),
        *old(mcst_flag) && *old(backpropegation_flag) ==> backprop_run_fits(
            entry_arenas(old(simulation_tree).trees@),
            entry_ids(old(simulation_tree).trees@),
            entry_currents(old(simulation_tree).trees@),
            agent_views(agents@),
            agents@.len() as int,
        ),
    ensures
        final(simulation_tree).wf(),
        !(*old(mcst_flag) && *old(backpropegation_flag)) ==> {
            &&& *final(simulation_tree) == *old(simulation_tree)
            &&& *final(mcst_flag) == *old(mcst_flag)
            &&& *final(backpropegation_flag) == *old(backpropegation_flag)
        },
        *old(mcst_flag) && *old(backpropegation_flag) ==> {
            let ts = old(simulation_tree).trees@;
            let ts2 = final(simulation_tree).trees@;
            &&& !*final(mcst_flag)
            &&& !*final(backpropegation_flag)
            &&& ts2.len() == ts.len()
            &&& entry_ids(ts2) == entry_ids(ts)
            &&& entry_arenas(ts2) == backprop_run(
                entry_arenas(ts),
                entry_ids(ts),
                entry_currents(ts),
                agent_views(agents@),
                agents@.len() as int,
            )
            &&& forall|i: int|
                0 <= i < ts.len() ==> {
                    &&& (#[trigger] ts2[i]).1.root == ts[i].1.root
                    &&& ts2[i].1.current_node == ts[i].1.current_node
                    &&& ts2[i].1.in_selection_phase == ts[i].1.in_selection_phase
                    &&& ts2[i].1.ready_for_expansion == ts[i].1.ready_for_expansion
                }
        },
{
    if !*mcst_flag {
        return;
    }
    if !*backpropegation_flag {
        return;
    }
    let ghost ts0 = simulation_tree.trees@;
    let ghost avs = agent_views(agents@);
    let mut k: usize = 0;
    while k < agents.len()
        invariant
            simulation_tree.wf(),
            avs == agent_views(agents@),
            0 <= k <= agents@.len(),
            simulation_tree.trees@.len() == ts0.len(),
            entry_ids(simulation_tree.trees@) == entry_ids(ts0),
            entry_currents(simulation_tree.trees@) == entry_currents(ts0),
            entry_arenas(simulation_tree.trees@) == backprop_run(
                entry_arenas(ts0),
                entry_ids(ts0),
                entry_currents(ts0),
                avs,
                k as int,
            ),
            backprop_run_fits(entry_arenas(ts0), entry_ids(ts0), entry_currents(ts0), avs, agents@.len() as int),
            forall|i: int|
                0 <= i < ts0.len() ==> {
                    &&& (#[trigger] simulation_tree.trees@[i]).1.root == ts0[i].1.root
                    &&& simulation_tree.trees@[i].1.current_node == ts0[i].1.current_node
                    &&& simulation_tree.trees@[i].1.in_selection_phase == ts0[i].1.in_selection_phase
                    &&& simulation_tree.trees@[i].1.ready_for_expansion == ts0[i].1.ready_for_expansion
                },
        decreases agents@.len() - k,
    {
        let ghost ts = simulation_tree.trees@;
        let ghost prev = entry_arenas(ts);
        proof {
            lemma_run_fits_prefix(entry_arenas(ts0), entry_ids(ts0), entry_currents(ts0), avs, k as int + 1, agents@.len() as int);
        }
        let agent_id = agents[k].get_id();
        let reward = agents[k].get_reward();
        assert(avs[k as int].id == agent_id && avs[k as int].reward == reward);
        match simulation_tree.find_index(agent_id) {
            Some(i) => {
                proof {
                    lemma_index_of_first(entry_ids(ts), agent_id, i as int);
                }
                match simulation_tree.trees[i].1.current_node {
                    Some(current_node) => {
                        assert(ts[i as int].1.wf());
                        assert(prev[i as int] == ts[i as int].1.arena());
                        simulation_tree.trees[i].1.backpropagate(current_node, reward);
                        proof {
                            let ts2 = simulation_tree.trees@;
                            assert(ts2 =~= ts.update(i as int, (ts[i as int].0, ts2[i as int].1)));
                            lemma_replace_tree(ts, i as int, ts2[i as int].1);
                            assert(entry_ids(ts2) =~= entry_ids(ts));
                            assert(entry_currents(ts2) =~= entry_currents(ts));
                            assert(entry_arenas(ts2) =~= prev.update(
                                i as int,
                                backprop(prev[i as int], current_node as int, reward as int),
                            ));
                            assert forall|j: int| 0 <= j < ts0.len() implies {
                                &&& (#[trigger] ts2[j]).1.root == ts0[j].1.root
                                &&& ts2[j].1.current_node == ts0[j].1.current_node
                                &&& ts2[j].1.in_selection_phase == ts0[j].1.in_selection_phase
                                &&& ts2[j].1.ready_for_expansion == ts0[j].1.ready_for_expansion
                            } by {
                                assert(ts[j].1.root == ts0[j].1.root);
                                if j != i {
                                    assert(ts2[j] == ts[j]);
                                }
                            }
                        }
                    },
                    None => {},
                }
            },
            None => {},
        }
        k = k + 1;
    }
    *backpropegation_flag = false;
    *mcst_flag = false;
}

/// The counts fit for a prefix of the agents when they fit for all of them.
proof fn lemma_run_fits_prefix(
    arenas: Seq<Seq<NodeView>>,
    ids: Seq<i32>,
    currents: Seq<Option<usize>>,
    agents: Seq<AgentView>,
    k: int,
    m: int,
)
    requires
        0 <= k <= m,
        backprop_run_fits(arenas, ids, currents, agents, m),
    ensures
        backprop_run_fits(arenas, ids, currents, agents, k),
    decreases m - k,
{
    if k < m {
        lemma_run_fits_prefix(arenas, ids, currents, agents, k, m - 1);
    }
}

} // verus!
