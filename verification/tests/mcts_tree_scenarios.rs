use npc_sim::npcs::npc_action::NpcAction;
use npc_sim::system::mcst_tree::mcst_node::NodeType;
use npc_sim::system::mcst_tree::mcst_tree::MCTSTree;

/// A tree whose action root has two children, the first of which has two
/// children of its own; gives the tree and the root's index.
fn create_sample_tree() -> (MCTSTree, usize) {
    let mut t = MCTSTree::new();
    let root = t.add_node(NodeType::ActionNode { action: NpcAction::NoAction }, 0, None);
    t.expand(root, NpcAction::AttackAgent);
    t.expand(root, NpcAction::AttackMonster);
    let first_child = t.select_action(root, Some(NpcAction::AttackAgent)).expect("First child should exist");
    t.expand(first_child, NpcAction::Rest);
    t.expand(first_child, NpcAction::Talk);
    (t, root)
}

#[test]
fn test_tree_creation() {
    let (t, root) = create_sample_tree();
    assert!(matches!(t.nodes[root].node_type, NodeType::ActionNode { .. }));
    assert_eq!(t.nodes[root].depth, 0);
    assert_eq!(t.nodes[root].children.len(), 2);
}

#[test]
fn test_monte_carlo_calculation() {
    let (mut t, root) = create_sample_tree();
    let first_child = t.nodes[root].children[0];
    t.nodes[first_child].visits = 10;
    t.nodes[first_child].total_reward = 50;
    let stats = t.action_statistics(root);
    let (action, total_reward, visits) = stats[0];
    assert_eq!(action, NpcAction::AttackAgent);
    assert_eq!(total_reward / visits as u32, 5); // 50 / 10 = 5
}

#[test]
fn test_tree_traversal_and_print() {
    let (t, root) = create_sample_tree();

    fn traverse_and_print(t: &MCTSTree, node: usize, depth: usize, lines: &mut Vec<String>) {
        lines.push(format!("{}{}", "  ".repeat(depth), t.nodes[node].node_type.to_string()));
        for child in &t.nodes[node].children {
            traverse_and_print(t, *child, depth + 1, lines);
        }
    }

    let mut lines = Vec::new();
    traverse_and_print(&t, root, 0, &mut lines);
    for line in &lines {
        println!("{}", line);
    }
    assert_eq!(
        lines,
        vec![
            "ActionNode: NoAction".to_string(),
            "  ActionNode: AttackAgent".to_string(),
            "    ActionNode: Rest".to_string(),
            "    ActionNode: Talk".to_string(),
            "  ActionNode: AttackMonster".to_string(),
        ]
    );
}
