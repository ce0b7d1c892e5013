use vstd::prelude::*;
use crate::gameworld::world::GameWorld;

verus! {

/// The world that simulations run on, apart from the world that is shown.
pub struct WorldSim(pub GameWorld);

impl WorldSim {
    /// The simulation world.
    pub fn get_world(&self) -> (w: &GameWorld)
        ensures
            *w == self.0,
    {
        &self.0
    }

    /// A simulation world holding a copy of `world`.
    pub fn copy_world(&self, world: &GameWorld) -> (s: WorldSim)
        ensures
            s.0.tiles@ == world.tiles@,
            s.0.width_mind == world.width_mind,
            s.0.height_min == world.height_min,
            s.0.width_max == world.width_max,
            s.0.height_max == world.height_max,
    {
        WorldSim(world.copy())
    }
}

} // verus!
