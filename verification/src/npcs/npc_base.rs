use vstd::prelude::*;
use crate::gameworld::position::Position;
use crate::npcs::npc_type::NPCType;

verus! {

/// What every NPC has: its kind, where it stands and its energy.
#[derive(Clone, Copy, Debug)]
pub struct NPCBase {
    pub npc_type: NPCType,
    pub position: Position,
    pub energy: u32,
    pub max_energy: u32,
}

/// The NPC with `e` more energy, up to its maximum.
pub open spec fn energy_added(b: NPCBase, e: u32) -> NPCBase {
    NPCBase {
        energy: if b.energy + e <= b.max_energy { (b.energy + e) as u32 } else { b.max_energy },
        ..b
    }
}

/// The NPC with `e` less energy, stopping at zero.
pub open spec fn energy_removed(b: NPCBase, e: u32) -> NPCBase {
    NPCBase { energy: if b.energy >= e { (b.energy - e) as u32 } else { 0 }, ..b }
}

impl NPCBase {
    /// A new NPC of the given kind at `(x, y)` with full energy of 100.
    pub fn new(x: i32, y: i32, npc_type: NPCType) -> (b: NPCBase)
        ensures
            b.npc_type == npc_type,
            b.position == (Position { x, y }),
            b.energy == 100,
            b.max_energy == 100,
    {
        NPCBase { npc_type, position: Position::new(x, y), energy: 100, max_energy: 100 }
    }

    /// The current energy.
    pub fn get_energy(&self) -> (r: u32)
        ensures
            r == self.energy,
    {
        self.energy
    }

    /// Sets the energy.
    pub fn set_energy(&mut self, energy: u32)
        ensures
            *final(self) == (NPCBase { energy, ..*old(self) }),
    {
        self.energy = energy;
    }

    /// Adds energy, up to the maximum.
    pub fn add_energy(&mut self, energy: u32)
        requires
            old(self).energy + energy <= u32::MAX,
        ensures
            *final(self) == energy_added(*old(self), energy),
    {
        let sum = self.energy + energy;
        self.energy = if sum <= self.max_energy { sum } else { self.max_energy };
    }

    /// Takes energy, stopping at zero.
    pub fn remove_energy(&mut self, energy: u32)
        ensures
            *final(self) == energy_removed(*old(self), energy),
    {
        self.energy = self.energy.saturating_sub(energy);
    }

    /// The maximum energy.
    pub fn get_max_energy(&self) -> (r: u32)
        ensures
            r == self.max_energy,
    {
        self.max_energy
    }

    /// Sets the maximum energy.
    pub fn set_max_energy(&mut self, max_energy: u32)
        ensures
            *final(self) == (NPCBase { max_energy, ..*old(self) }),
    {
        self.max_energy = max_energy;
    }

    /// Moves the NPC to `(new_x, new_y)`.
    pub fn move_to(&mut self, new_x: i32, new_y: i32)
        ensures
            *final(self) == (NPCBase { position: Position { x: new_x, y: new_y }, ..*old(self) }),
    {
        self.position.x = new_x;
        self.position.y = new_y;
    }

    /// Where the NPC stands.
    pub fn get_position(&self) -> (p: Position)
        ensures
            p == self.position,
    {
        self.position
    }
}

} // verus!
