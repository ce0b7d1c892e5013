use vstd::prelude::*;
use crate::npcs::agent::{Agent, AgentView};
use crate::npcs::npc_action::NpcAction;
use crate::npcs::npc_status::Status;
use crate::system::mcst_tree::mcst_tree::{MCTSTree, action_child};
use crate::system::mcst_tree::simulation_tree::{SimulationTree, tree_index, lemma_replace_tree};

verus! {

/// The depth from which the selection phase stops going down.
pub const MAX_SELECTION_DEPTH: u32 = 256;

/// The child of node `n` that the scores picked: the first action node for the
/// best action, when an action was picked.
pub open spec fn selected_child(t: MCTSTree, n: usize, best: Option<NpcAction>) -> Option<usize> {
    match best {
        Some(b) => action_child(t.arena(), n as int, b),
        None => None,
    }
}

/// The agent after the child `selected` of the current node is selected: it
/// takes up the action of that node.
pub open spec fn selected_agent(t: MCTSTree, selected: Option<usize>, a: AgentView) -> AgentView {
    match selected {
        Some(c) => match t.arena()[c as int].node_type {
            crate::system::mcst_tree::mcst_node::NodeType::ActionNode { action } => AgentView { action, ..a },
            _ => a,
        },
        None => a,
    }
}

/// Selects the child of `node` for the action the scores picked and makes
/// the agent take up that action; gives back the child, if there is one.
pub fn select_best_action_using_uct(
    agent: &mut Agent,
    tree: &MCTSTree,
    node: usize,
    best_action: Option<NpcAction>,
) -> (r: Option<usize>)
    requires
        tree.wf(),
        node < tree.nodes@.len(),
    ensures
        r == selected_child(*tree, node, best_action),
        r matches Some(c) ==> c < tree.nodes@.len(),
        final(agent)@ == selected_agent(*tree, r, old(agent)@),
{
    match tree.select_action(node, best_action) {
        Some(best_action_node) => {
            if let crate::system::mcst_tree::mcst_node::NodeType::ActionNode { action } =
                tree.nodes[best_action_node].node_type {
                agent.set_action(action);
            }
            Some(best_action_node)
        },
        None => None,
    }
}

/// A tree after an idle agent's selection step: from a current node at depth
/// 256 or more nothing is selected; a current node without children makes the
/// tree ready for expansion; otherwise the picked child becomes the current
/// node. Either way the selection phase ends.
pub open spec fn selection_tree(t: MCTSTree, best: Option<NpcAction>) -> MCTSTree {
    let t1 = match t.current_node {
        Some(n) => if t.arena()[n as int].depth >= 256 {
            t
        } else if t.arena()[n as int].children.len() == 0 {
            MCTSTree { ready_for_expansion: true, ..t }
        } else {
            match selected_child(t, n, best) {
                Some(c) => MCTSTree { current_node: Some(c), ..t },
                None => t,
            }
        },
        None => t,
    };
    MCTSTree { in_selection_phase: false, ..t1 }
}

/// The agent after its selection step on tree `t`.
pub open spec fn selection_agent(t: MCTSTree, a: AgentView, best: Option<NpcAction>) -> AgentView {
    match t.current_node {
        Some(n) => if t.arena()[n as int].depth >= 256 || t.arena()[n as int].children.len() == 0 {
            a
        } else {
            selected_agent(t, selected_child(t, n, best), a)
        },
        None => a,
    }
}

/// The selection step of one idle agent on its tree.
pub fn selection_step(tree: &mut MCTSTree, agent: &mut Agent, best_action: Option<NpcAction>)
    requires
        old(tree).wf(),
    ensures
        final(tree).wf(),
        *final(tree) == selection_tree(*old(tree), best_action),
        final(agent)@ == selection_agent(*old(tree), old(agent)@, best_action),
{
    let mut set_ready_for_expansion = false;
    let mut new_current_node: Option<usize> = None;
    if let Some(current_node) = tree.current_node {
        if tree.nodes[current_node].depth >= MAX_SELECTION_DEPTH {
        } else if tree.nodes[current_node].children.len() == 0 {
            set_ready_for_expansion = true;
        } else {
            new_current_node = select_best_action_using_uct(agent, tree, current_node, best_action);
        }
    }
    if set_ready_for_expansion {
        tree.set_ready_for_expansion(true);
    }
    tree.set_in_selection_phase(false);
    if let Some(new_node) = new_current_node {
        tree.set_current_node(new_node);
    }
}

/// The trees and agents after the selection steps of the first `k` agents:
/// each idle agent with a tree takes its step, with the action the scores
/// picked for it.
pub open spec fn selection_run(
    trees: Seq<(i32, MCTSTree)>,
    agents: Seq<AgentView>,
    best: Seq<Option<NpcAction>>,
    k: int,
) -> (Seq<(i32, MCTSTree)>, Seq<AgentView>)
    decreases k,
{
    if k <= 0 {
        (trees, agents)
    } else {
        let (ts, avs) = selection_run(trees, agents, best, k - 1);
        let a = avs[k - 1];
        if a.status != Status::Idle {
            (ts, avs)
        } else {
            match tree_index(ts, a.id) {
                Some(i) => (
                    ts.update(i, (a.id, selection_tree(ts[i].1, best[k - 1]))),
                    avs.update(k - 1, selection_agent(ts[i].1, a, best[k - 1])),
                ),
                None => (ts, avs),
            }
        }
    }
}

/// The agents as plain values.
pub open spec fn agent_views(agents: Seq<Agent>) -> Seq<AgentView> {
    agents.map_values(|a: Agent| a@)
}

/// The selection phase: when the search is on, every idle agent with a tree
/// takes its selection step (see `selection_run`); `best_actions[i]` is the
/// action the scores picked at the current node of the tree of `agents[i]`.
pub fn selection_system(
    mcst_flag: bool,
    simulation_tree: &mut SimulationTree,
    agents: &mut Vec<Agent>,
    best_actions: &[Option<NpcAction>],
)
    requires
        old(simulation_tree).wf(),
        old(agents)@.len() == best_actions@.len(),
    ensures
        final(simulation_tree).wf(),
        final(agents)@.len() == old(agents)@.len(),
        !mcst_flag ==> final(simulation_tree).trees@ == old(simulation_tree).trees@ && agent_views(final(agents)@)
            == agent_views(old(agents)@),
        mcst_flag ==> (final(simulation_tree).trees@, agent_views(final(agents)@)) == selection_run(
            old(simulation_tree).trees@,
            agent_views(old(agents)@),
            best_actions@,
            old(agents)@.len() as int,
        ),
{
    if !mcst_flag {
        return;
    }
    let ghost trees0 = simulation_tree.trees@;
    let ghost agents0 = agent_views(agents@);
    let mut i: usize = 0;
    while i < agents.len()
        invariant
            simulation_tree.wf(),
            agents@.len() == agents0.len(),
            agents0.len() == best_actions@.len(),
            0 <= i <= agents@.len(),
            (simulation_tree.trees@, agent_views(agents@)) == selection_run(trees0, agents0, best_actions@, i as int),
            forall|k: int| i <= k < agents@.len() ==> #[trigger] agents@[k]@ == agents0[k],
        decreases agents0.len() - i,
    {
        let ghost ts = simulation_tree.trees@;
        let ghost avs = agent_views(agents@);
        assert(avs[i as int] == agents0[i as int]);
        let agent_id = agents[i].get_id();
        if agents[i].get_status() == Status::Idle {
            match simulation_tree.get_tree_mut(agent_id) {
                Some(tree) => {
                    let ghost j = tree_index(ts, agent_id).unwrap();
                    assert(ts[j].1.wf());
                    selection_step(tree, &mut agents[i], best_actions[i]);
                    proof {
                        assert(agent_views(agents@) =~= avs.update(
                            i as int,
                            selection_agent(ts[j].1, avs[i as int], best_actions@[i as int]),
                        ));
                        lemma_replace_tree(ts, j, simulation_tree.trees@[j].1);
                    }
                },
                None => {
                    assert(agent_views(agents@) =~= avs);
                },
            }
        }
        i = i + 1;
    }
}

} // verus!
