use vstd::prelude::*;
use crate::gameworld::position::Position;
use crate::gameworld::tile_types::travel_weight;
use crate::gameworld::world::GameWorld;
use crate::pathfinding::safe_position;

verus! {

/// The eight positions around `p`: right, left, up, down, then top-right,
/// top-left, bottom-right and bottom-left.
pub open spec fn player_neighbours(p: Position) -> Seq<Position> {
    seq![
        Position { x: (p.x + 1) as i32, y: p.y },
        Position { x: (p.x - 1) as i32, y: p.y },
        Position { x: p.x, y: (p.y + 1) as i32 },
        Position { x: p.x, y: (p.y - 1) as i32 },
        Position { x: (p.x + 1) as i32, y: (p.y + 1) as i32 },
        Position { x: (p.x - 1) as i32, y: (p.y + 1) as i32 },
        Position { x: (p.x + 1) as i32, y: (p.y - 1) as i32 },
        Position { x: (p.x - 1) as i32, y: (p.y - 1) as i32 },
    ]
}

/// The player may move to `q`: the world has a tile there that can be
/// crossed, and no NPC stands on it.
pub open spec fn movable_to(world: &GameWorld, q: Position, npcs: Seq<Position>) -> bool {
    &&& world.tile_type_at(q) matches Some(t) && travel_weight(t) > 0
    &&& !npcs.contains(q)
}

/// The first `k` candidates to which the player may move, in order.
pub open spec fn movable_squares(world: &GameWorld, cands: Seq<Position>, npcs: Seq<Position>, k: int) -> Seq<Position>
    decreases k,
{
    if k <= 0 {
        Seq::empty()
    } else {
        let rest = movable_squares(world, cands, npcs, k - 1);
        if movable_to(world, cands[k - 1], npcs) {
            rest.push(cands[k - 1])
        } else {
            rest
        }
    }
}

fn occupied(npc_positions: &[Position], q: Position) -> (b: bool)
    ensures
        b == npc_positions@.contains(q),
{
    let mut i: usize = 0;
    while i < npc_positions.len()
        invariant
            0 <= i <= npc_positions@.len(),
            forall|k: int| 0 <= k < i ==> npc_positions@[k] != q,
        decreases npc_positions@.len() - i,
    {
        if npc_positions[i] == q {
            assert(npc_positions@[i as int] == q);
            return true;
        }
        i = i + 1;
    }
    false
}

/// The squares around the player to which it may move (see `movable_to`),
/// in the order of `player_neighbours`; `npc_positions` are where the NPCs
/// stand.
pub fn moveable_player_squares(world: &GameWorld, player_position: Position, npc_positions: &[Position]) -> (r: Vec<
    Position,
>)
    requires
        safe_position(player_position),
    ensures
        r@ == movable_squares(world, player_neighbours(player_position), npc_positions@, 8),
{
    let p = player_position;
    let cands: Vec<Position> = vec![
        Position::new(p.x + 1, p.y),
        Position::new(p.x - 1, p.y),
        Position::new(p.x, p.y + 1),
        Position::new(p.x, p.y - 1),
        Position::new(p.x + 1, p.y + 1),
        Position::new(p.x - 1, p.y + 1),
        Position::new(p.x + 1, p.y - 1),
        Position::new(p.x - 1, p.y - 1),
    ];
    assert(cands@ =~= player_neighbours(p));
    let mut r: Vec<Position> = Vec::new();
    let mut k: usize = 0;
    while k < cands.len()
        invariant
            cands@ == player_neighbours(p),
            0 <= k <= 8,
            r@ == movable_squares(world, cands@, npc_positions@, k as int),
        decreases 8 - k,
    {
        let q = cands[k];
        let traversable = match world.get_tile(q.x, q.y) {
            Some(tile) => tile.get_tile_type().get_travel_weight() > 0,
            None => false,
        };
        if traversable && !occupied(npc_positions, q) {
            r.push(q);
        }
        k = k + 1;
    }
    r
}

/// When highlighting is switched on: switches it off and gives the squares
/// to which the player (if there is one) may move, which replace any earlier
/// highlights. Gives nothing, and changes nothing, when it is off.
pub fn highlight_moveable_player_squares(
    highlight_movement: &mut bool,
    world: &GameWorld,
    player_position: Option<Position>,
    npc_positions: &[Position],
) -> (r: Option<Vec<Position>>)
    requires
        player_position matches Some(p) ==> safe_position(p),
    ensures
        !*old(highlight_movement) ==> r is None && *final(highlight_movement) == *old(highlight_movement),
        *old(highlight_movement) ==> !*final(highlight_movement) && (r matches Some(v) && v@ == match player_position {
            Some(p) => movable_squares(world, player_neighbours(p), npc_positions@, 8),
            None => Seq::empty(),
        }),
{
    if !*highlight_movement {
        return None;
    }
    let squares = match player_position {
        Some(p) => moveable_player_squares(world, p, npc_positions),
        None => Vec::new(),
    };
    *highlight_movement = false;
    Some(squares)
}

} // verus!
