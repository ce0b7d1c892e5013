use vstd::prelude::*;
use crate::gameworld::position::nat_text;
use crate::npcs::npc_action::NpcAction;
use crate::npcs::npc_type::NPCType;
use crate::text::{action_debug_text, debug_action, debug_npc_type, format_u32, npc_type_debug_text};

verus! {

/// What a node of a search tree stands for: an action of the agent, something
/// another NPC did to it, or nothing (a root).
#[derive(Clone, Copy, Debug, PartialEq, Eq, Structural)]
pub enum NodeType {
    ActionNode { action: NpcAction },
    InformationNode { action_taken: NpcAction, npc_type: NPCType, npc_id: u32 },
    NullNode,
}

/// The description of a node type.
pub open spec fn node_type_text(t: NodeType) -> Seq<char> {
    match t {
        NodeType::ActionNode { action } => "ActionNode: "@ + action_debug_text(action),
        NodeType::InformationNode { action_taken, npc_type, npc_id } => "InformationNode: "@
            + action_debug_text(action_taken) + ", NPC Type: "@ + npc_type_debug_text(npc_type)
            + ", NPC ID: "@ + nat_text(npc_id as nat),
        NodeType::NullNode => "NullNode"@,
    }
}

impl NodeType {
    /// The description of the node type.
    pub fn to_string(&self) -> (s: String)
        ensures
            s@ == node_type_text(*self),
    {
        match self {
            NodeType::ActionNode { action } => {
                let mut s = "ActionNode: ".to_owned();
                let a = debug_action(*action);
                s.append(a.as_str());
                s
            },
            NodeType::InformationNode { action_taken, npc_type, npc_id } => {
                let mut s = "InformationNode: ".to_owned();
                let a = debug_action(*action_taken);
                s.append(a.as_str());
                s.append(", NPC Type: ");
                let t = debug_npc_type(*npc_type);
                s.append(t.as_str());
                s.append(", NPC ID: ");
                let n = format_u32(*npc_id);
                s.append(n.as_str());
                s
            },
            NodeType::NullNode => "NullNode".to_owned(),
        }
    }
}

/// A node of a search tree. Nodes live in the arena of their tree and refer
/// to their parent and children by index.
#[derive(Clone, Debug)]
pub struct Node {
    pub node_type: NodeType,
    pub visits: usize,
    pub total_reward: u32,
    pub depth: u32,
    pub parent: Option<usize>,
    pub children: Vec<usize>,
}

/// A node as plain values.
pub ghost struct NodeView {
    pub node_type: NodeType,
    pub visits: usize,
    pub total_reward: u32,
    pub depth: u32,
    pub parent: Option<usize>,
    pub children: Seq<usize>,
}

impl View for Node {
    type V = NodeView;

    open spec fn view(&self) -> NodeView {
        NodeView {
            node_type: self.node_type,
            visits: self.visits,
            total_reward: self.total_reward,
            depth: self.depth,
            parent: self.parent,
            children: self.children@,
        }
    }
}

impl Node {
    /// A new node without visits, reward or children.
    pub fn new(node_type: NodeType, depth: u32, parent: Option<usize>) -> (n: Node)
        ensures
            n@ == (NodeView { node_type, visits: 0, total_reward: 0, depth, parent, children: Seq::empty() }),
    {
        let n = Node { node_type, visits: 0, total_reward: 0, depth, parent, children: Vec::new() };
        assert(n@.children =~= Seq::<usize>::empty());
        n
    }

    /// The indices of the children.
    pub fn get_children(&self) -> (c: &Vec<usize>)
        ensures
            c@ == self@.children,
    {
        &self.children
    }

    /// The node has a parent.
    pub fn has_parent(&self) -> (b: bool)
        ensures
            b == self@.parent is Some,
    {
        self.parent.is_some()
    }

    /// The index of the parent, if any.
    pub fn get_parent(&self) -> (p: Option<usize>)
        ensures
            p == self@.parent,
    {
        self.parent
    }

    /// Forgets the parent.
    pub fn remove_parent(&mut self)
        ensures
            final(self)@ == (NodeView { parent: None, ..old(self)@ }),
    {
        self.parent = None;
    }

    /// Sets the node type.
    pub fn set_node_type(&mut self, node_type: NodeType)
        ensures
            final(self)@ == (NodeView { node_type, ..old(self)@ }),
    {
        self.node_type = node_type;
    }

    /// The node type.
    pub fn get_node_type(&self) -> (t: &NodeType)
        ensures
            *t == self@.node_type,
    {
        &self.node_type
    }
}

} // verus!
