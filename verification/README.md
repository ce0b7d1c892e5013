# npc_sim

A turn-based simulation of agents, monsters and treasures on a tile map,
with the game logic written in Verus and proved against its contracts.

- `src/gameworld`: positions, tile types and the tile map (`GameWorld`).
- `src/pathfinding.rs`: A* search on the tile map, path continuation and
  recalculation around areas to avoid; `src/movement.rs`: least-cost A* on a
  plain grid.
- `src/npcs`: agents, monsters, treasures and what every NPC shares.
- `src/system/simulation`: what each agent does in a turn for its status and
  action, how statuses move on while actions are picked and run
  (`agent_status.rs`), and movement along paths.
- `src/system/mcst_tree`, `src/system/mcst_system`: the per-agent search trees
  of actions (kept in an arena) and the selection, expansion and
  backpropagation phases.
- `src/system/messages.rs`, `src/system/agent_messages.rs`: the messages NPCs
  send each other (attacks, thefts, rewards, rests, talks), in the order they
  are handled, and what handling one does given the agents' own judgement.
- `src/system/setup.rs`: placing the player, agents, monsters and treasures.
- `src/world.rs`, `src/tile.rs`: the fixed grid world with its default map.
- `src/laws.rs`: properties that span several operations.
- `app/`: the command-line program, which reads the map, draws the agents'
  traits and makes the floating-point choices (scores of actions, opinions,
  flight or fight) that the library takes as plain values.
