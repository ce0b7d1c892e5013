use npc_sim::npcs::agent::Agent;
use npc_sim::npcs::npc_action::NpcAction;
use npc_sim::npcs::npc_status::Status;
use npc_sim::npcs::npc_type::NPCType;
use npc_sim::system::mcst_system::backpropegation::backpropegate_system;
use npc_sim::system::mcst_system::expansion::{expand_current_node, expansion_system, finish_expansion_system};
use npc_sim::system::mcst_system::selection::{select_best_action_using_uct, selection_step, selection_system};
use npc_sim::system::mcst_tree::mcst_node::{Node, NodeType};
use npc_sim::system::mcst_tree::mcst_tree::MCTSTree;
use npc_sim::system::mcst_tree::simulation_tree::{check_mcst_trees_done, SimulationTree};

fn action(a: NpcAction) -> NodeType {
    NodeType::ActionNode { action: a }
}

#[test]
fn new_tree_has_a_null_root() {
    let t = MCTSTree::new();
    assert_eq!(t.get_root(), Some(0));
    assert_eq!(t.get_current_node(), Some(0));
    assert!(t.is_in_selection_phase());
    assert!(!t.is_ready_for_expansion());
    assert!(t.has_root());
    assert_eq!(t.get_height(), 1);
    assert_eq!(*t.get_node(0).get_node_type(), NodeType::NullNode);
}

#[test]
fn node_type_descriptions() {
    assert_eq!(action(NpcAction::Rest).to_string(), "ActionNode: Rest");
    assert_eq!(
        NodeType::InformationNode { action_taken: NpcAction::Steal, npc_type: NPCType::Monster, npc_id: 42 }.to_string(),
        "InformationNode: Steal, NPC Type: Monster, NPC ID: 42"
    );
    assert_eq!(NodeType::NullNode.to_string(), "NullNode");
}

#[test]
fn node_parent_and_type() {
    let mut n = Node::new(NodeType::NullNode, 3, Some(1));
    assert!(n.has_parent());
    assert_eq!(n.get_parent(), Some(1));
    n.remove_parent();
    assert!(!n.has_parent());
    n.set_node_type(action(NpcAction::Talk));
    assert_eq!(*n.get_node_type(), action(NpcAction::Talk));
    assert!(n.get_children().is_empty());
}

#[test]
fn expand_adds_an_action_child_under_a_copy() {
    let mut t = MCTSTree::new();
    let c = t.expand(0, NpcAction::Rest);
    assert_eq!(c, 2);
    assert_eq!(t.nodes.len(), 3);
    assert_eq!(t.nodes[0].children, vec![2]);
    assert_eq!(t.nodes[2].node_type, action(NpcAction::Rest));
    assert_eq!(t.nodes[2].depth, 1);
    assert_eq!(t.nodes[2].parent, Some(1));
    assert_eq!(t.nodes[1].node_type, NodeType::NullNode);
    assert!(t.nodes[1].children.is_empty());
    assert!(t.has_child(0, &action(NpcAction::Rest)));
    assert!(!t.has_child(0, &action(NpcAction::Talk)));
    assert_eq!(t.calculate_height(0), 2);
}

#[test]
fn backpropagation_divides_the_reward_by_visits() {
    let mut t = MCTSTree::new();
    let c = t.expand(0, NpcAction::Rest);
    t.backpropagate(c, 10);
    assert_eq!(t.nodes[2].visits, 1);
    assert_eq!(t.nodes[2].total_reward, 10);
    assert_eq!(t.nodes[1].visits, 1);
    assert_eq!(t.nodes[1].total_reward, 10);
    // The root itself is not on the chain: the new child's parent is its copy.
    assert_eq!(t.nodes[0].visits, 0);
    t.backpropagate(c, 7);
    assert_eq!(t.nodes[2].visits, 2);
    assert_eq!(t.nodes[2].total_reward, 17);
    assert_eq!(t.nodes[1].total_reward, 13);
}

#[test]
fn selecting_and_scoring_actions() {
    let mut t = MCTSTree::new();
    let rest = t.expand(0, NpcAction::Rest);
    let talk = t.expand(0, NpcAction::Talk);
    t.backpropagate(rest, 10);
    assert_eq!(t.select_action(0, Some(NpcAction::Rest)), Some(rest));
    assert_eq!(t.select_action(0, Some(NpcAction::Talk)), Some(talk));
    assert_eq!(t.select_action(0, Some(NpcAction::Steal)), None);
    assert_eq!(t.select_action(0, None), None);
    assert_eq!(
        t.action_statistics(0),
        vec![(NpcAction::Rest, 10, 1), (NpcAction::Talk, 0, 0)]
    );
    let mut agent = Agent::new_agent(1);
    assert_eq!(select_best_action_using_uct(&mut agent, &t, 0, Some(NpcAction::Talk)), Some(talk));
    assert_eq!(agent.get_action(), NpcAction::Talk);
    assert_eq!(select_best_action_using_uct(&mut agent, &t, 0, None), None);
    assert_eq!(agent.get_action(), NpcAction::Talk);
}

#[test]
fn add_child_refuses_a_second_child_of_a_type() {
    let mut t = MCTSTree::new();
    t.expand(0, NpcAction::Rest);
    let dup = t.add_node(action(NpcAction::Rest), 0, None);
    assert_eq!(t.add_child(0, dup), Err("A similar node type already exists as a child."));
    let info = t.add_node(
        NodeType::InformationNode { action_taken: NpcAction::Steal, npc_type: NPCType::Agent, npc_id: 3 },
        9,
        None,
    );
    assert_eq!(t.add_child(0, info), Ok(()));
    assert_eq!(t.nodes[info].depth, 0);
    let act = t.add_node(action(NpcAction::Talk), 9, None);
    assert_eq!(t.add_child(0, act), Ok(()));
    assert_eq!(t.nodes[act].depth, 1);
}

#[test]
fn set_root_resets_depths() {
    let mut t = MCTSTree::new();
    let c = t.expand(0, NpcAction::Rest);
    let g = t.expand(c, NpcAction::Talk);
    t.set_root(c);
    assert_eq!(t.get_root(), Some(c));
    assert_eq!(t.get_current_node(), Some(c));
    assert_eq!(t.nodes[c].parent, None);
    assert_eq!(t.nodes[c].depth, 2);
    assert_eq!(t.nodes[g].depth, 3);
    t.update_depth(c, 10);
    assert_eq!(t.nodes[c].depth, 11);
    assert_eq!(t.nodes[g].depth, 12);
}

#[test]
fn initialize_tree_adds_a_null_root_of_depth_one() {
    let mut t = MCTSTree::new();
    t.initialize_tree();
    assert_eq!(t.nodes.len(), 2);
    assert_eq!(t.get_root(), Some(1));
    assert_eq!(t.nodes[1].depth, 1);
    t.wipe_current_node();
    assert_eq!(t.get_current_node(), None);
    t.set_root_current_node();
    assert_eq!(t.get_current_node(), Some(1));
    t.set_current_node(0);
    t.reset_current_node_to_root();
    assert_eq!(t.get_current_node(), Some(1));
}

#[test]
fn simulation_tree_keeps_one_tree_per_agent() {
    let mut s = SimulationTree::default();
    s.add_tree(5, MCTSTree::new());
    s.add_tree(6, MCTSTree::new());
    let mut replacement = MCTSTree::new();
    replacement.set_ready_for_expansion(true);
    s.add_tree(5, replacement);
    assert_eq!(s.agent_ids(), vec![5, 6]);
    assert!(s.get_tree(5).unwrap().is_ready_for_expansion());
    assert!(!s.get_tree(6).unwrap().is_ready_for_expansion());
    assert!(s.get_tree(7).is_none());
    s.get_tree_mut(6).unwrap().set_in_selection_phase(false);
    assert!(!s.get_tree(6).unwrap().is_in_selection_phase());
    assert!(!check_mcst_trees_done(&s));
    s.get_tree_mut(5).unwrap().set_in_selection_phase(false);
    assert!(check_mcst_trees_done(&s));
    assert!(s.get_tree_mut(8).is_none());
}

#[test]
fn expanding_the_current_node_covers_every_action() {
    let mut t = MCTSTree::new();
    expand_current_node(&mut t);
    assert_eq!(t.nodes[0].children.len(), 7);
    for a in NpcAction::iter() {
        assert!(t.has_child(0, &action(a)));
    }
    let before = t.nodes.len();
    expand_current_node(&mut t);
    assert_eq!(t.nodes.len(), before);
}

#[test]
fn selection_step_at_a_leaf_asks_for_expansion() {
    let mut t = MCTSTree::new();
    let mut agent = Agent::new_agent(1);
    selection_step(&mut t, &mut agent, Some(NpcAction::Rest));
    assert!(t.is_ready_for_expansion());
    assert!(!t.is_in_selection_phase());
    assert_eq!(t.get_current_node(), Some(0));
    assert_eq!(agent.get_action(), NpcAction::NoAction);
}

#[test]
fn selection_step_moves_to_the_picked_child() {
    let mut t = MCTSTree::new();
    t.expand(0, NpcAction::Rest);
    let talk = t.expand(0, NpcAction::Talk);
    let mut agent = Agent::new_agent(1);
    selection_step(&mut t, &mut agent, Some(NpcAction::Talk));
    assert_eq!(t.get_current_node(), Some(talk));
    assert_eq!(agent.get_action(), NpcAction::Talk);
    assert!(!t.is_ready_for_expansion());
}

#[test]
fn selection_stops_deep_in_the_tree() {
    let mut t = MCTSTree::new();
    t.expand(0, NpcAction::Rest);
    t.nodes[0].depth = 256;
    let mut agent = Agent::new_agent(1);
    selection_step(&mut t, &mut agent, Some(NpcAction::Rest));
    assert_eq!(t.get_current_node(), Some(0));
    assert!(!t.is_ready_for_expansion());
    assert!(!t.is_in_selection_phase());
}

#[test]
fn one_round_of_the_search() {
    let mut s = SimulationTree::default();
    s.add_tree(5, MCTSTree::new());
    let mut agents = vec![Agent::new_agent(5)];
    selection_system(true, &mut s, &mut agents, &[None]);
    assert!(s.get_tree(5).unwrap().is_ready_for_expansion());
    expansion_system(true, &mut s, &agents);
    assert_eq!(s.get_tree(5).unwrap().nodes[0].children.len(), 7);
    assert_eq!(s.get_tree(5).unwrap().nodes.len(), 15);
    finish_expansion_system(true, &mut s, &mut agents, &[Some(NpcAction::Steal)]);
    let t = s.get_tree(5).unwrap();
    assert_eq!(t.get_current_node(), Some(6));
    assert!(!t.is_ready_for_expansion());
    assert_eq!(agents[0].get_action(), NpcAction::Steal);
    agents[0].add_reward(12);
    let mut mcst = true;
    let mut due = true;
    backpropegate_system(&mut mcst, &mut due, &mut s, &agents);
    assert!(!mcst);
    assert!(!due);
    let t = s.get_tree(5).unwrap();
    assert_eq!(t.nodes[6].visits, 1);
    assert_eq!(t.nodes[6].total_reward, 12);
    assert_eq!(t.nodes[5].total_reward, 12);
    assert_eq!(t.nodes[0].visits, 0);
}

#[test]
fn the_search_does_nothing_when_it_is_off() {
    let mut s = SimulationTree::default();
    s.add_tree(5, MCTSTree::new());
    let mut agents = vec![Agent::new_agent(5)];
    selection_system(false, &mut s, &mut agents, &[None]);
    assert!(s.get_tree(5).unwrap().is_in_selection_phase());
    let mut mcst = true;
    let mut due = false;
    backpropegate_system(&mut mcst, &mut due, &mut s, &agents);
    assert!(mcst);
    assert!(!due);
    let mut busy = vec![Agent::new_agent(5)];
    busy[0].set_status(Status::Moving);
    selection_system(true, &mut s, &mut busy, &[None]);
    assert!(s.get_tree(5).unwrap().is_in_selection_phase());
}

#[test]
fn updating_depths_sets_the_node_and_keeps_the_rest() {
    let mut t = MCTSTree::new();
    let c = t.expand(0, NpcAction::Rest);
    let g = t.expand(c, NpcAction::Talk);
    let root_depth = t.nodes[0].depth;
    let visits: Vec<usize> = t.nodes.iter().map(|n| n.visits).collect();
    t.update_depth(c, 4);
    assert_eq!(t.nodes[c].depth, 5);
    assert_eq!(t.nodes[g].depth, 6);
    assert_eq!(t.nodes[0].depth, root_depth);
    assert_eq!(t.nodes.iter().map(|n| n.visits).collect::<Vec<usize>>(), visits);
}
