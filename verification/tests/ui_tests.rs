use npc_sim::gameworld::position::Position;
use npc_sim::npcs::agent::Agent;
use npc_sim::npcs::monster::Monster;
use npc_sim::npcs::npc_action::NpcAction;
use npc_sim::npcs::npc_base::NPCBase;
use npc_sim::npcs::npc_type::NPCType;
use npc_sim::npcs::treasure::Treasure;
use npc_sim::ui::npc_click::update_selected_npc_text;

#[test]
fn panel_text_for_each_kind_of_npc() {
    let mut agent = Agent::new_agent(7);
    agent.set_action(NpcAction::Rest);
    let base = NPCBase::new(1, 2, NPCType::Agent);
    assert_eq!(
        update_selected_npc_text(Some(&base), Some(&agent), None, None),
        "NPC Type: Agent\nPosition: Position { x: 1, y: 2 }\nEnergy: 100/100\nID: 7\nStatus: Idle\nAction: Rest"
    );
    assert_eq!(
        update_selected_npc_text(Some(&base), None, None, None),
        "Error: Unable to retrieve Agent information."
    );
    let mut monster = Monster::new_monster(Position::new(0, -3));
    monster.set_reward(12);
    let mut mbase = NPCBase::new(0, -3, NPCType::Monster);
    mbase.remove_energy(40);
    assert_eq!(
        update_selected_npc_text(Some(&mbase), None, Some(&monster), None),
        "NPC Type: Monster\nPosition: Position { x: 0, y: -3 }\nEnergy: 60/100\nReward: 12"
    );
    let treasure = Treasure::new_treasure(1);
    let tbase = NPCBase::new(4, 4, NPCType::Treasure);
    assert_eq!(
        update_selected_npc_text(Some(&tbase), None, None, Some(&treasure)),
        "NPC Type: Treasure\nPosition: Position { x: 4, y: 4 }\nReward: 100"
    );
    let pbase = NPCBase::new(5, 6, NPCType::Player);
    assert_eq!(
        update_selected_npc_text(Some(&pbase), None, None, None),
        "NPC Type: Player\nPosition: Position { x: 5, y: 6 }\nEnergy: 100/100"
    );
    assert_eq!(update_selected_npc_text(None, None, None, None), "No NPC Selected");
}
