use vstd::prelude::*;

use crate::world::{EntityId, Position, WorldMap};

use crate::simulation::movement::{holds_member, nearest_member, neighborhood, neighbors, scan_misses, MAX_SEEK_RADIUS};

verus! {

/// Some cell around `pos` (not `pos` itself) is free for an egg.
pub open spec fn room_to_lay(world: &WorldMap, pos: Position) -> bool {
    exists|i: int| 1 <= i < 9 && #[trigger] world.free(neighbors(pos)[i])
}

/// Whether a dino at `pos` has a free cell next to it to lay an egg on.
pub fn can_lay(world: &WorldMap, pos: Position) -> (room: bool)
    requires
        world.wf(),
    ensures
        room == room_to_lay(world, pos),
{
    let cells = neighborhood(pos);
    let mut i: usize = 1;
    while i < 9
        invariant
            world.wf(),
            cells@ == neighbors(pos),
            1 <= i <= 9,
            forall|j: int| 1 <= j < i ==> !#[trigger] world.free(neighbors(pos)[j]),
        decreases 9 - i,
    {
        if world.is_free(cells[i]) {
            return true;
        }
        i = i + 1;
    }
    false
}

/// Whether a herbivore at `pos` sees a plant within `MAX_SEEK_RADIUS`.
pub fn food_in_reach(world: &WorldMap, pos: Position, is_herbivore: bool, plants: &Vec<EntityId>) -> (reach: bool)
    requires
        world.wf(),
    ensures
        reach == (is_herbivore && !scan_misses(
            world,
            pos,
            MAX_SEEK_RADIUS as int,
            holds_member(world, plants@, Seq::empty()),
        )),
{
    if !is_herbivore {
        return false;
    }
    let none: Vec<EntityId> = Vec::new();
    let found = nearest_member(world, pos, MAX_SEEK_RADIUS, plants, &none);
    assert(none@ =~= Seq::<EntityId>::empty());
    found.is_some()
}

} // verus!
