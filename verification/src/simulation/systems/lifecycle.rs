use vstd::prelude::*;

use crate::world::{EntityId, Position, WorldMap};

use crate::simulation::components::{all_directions, Direction, Egg};
use crate::simulation::movement::{step, stepped, stayed, stepped_to, step_blocked, try_move};
use crate::simulation::spawn::shuffled_directions;

verus! {

/// Ticks an egg incubates before it can hatch.
pub const HATCH_AGE: u32 = 90;

/// What an egg did this tick.
#[derive(Clone, Copy, Debug, PartialEq, Eq, Structural)]
pub enum EggStep {
    /// It aged one tick.
    Incubating,
    /// It is old enough and its cell is free: a dinosaur hatches there.
    Hatching,
    /// It is old enough but its cell is taken: it waits.
    Waiting,
}

impl Egg {
    /// An egg younger than `HATCH_AGE` ages one tick; an older one hatches
    /// when its cell is free.
    pub fn incubate(&mut self, world: &WorldMap, pos: Position) -> (step: EggStep)
        requires
            world.wf(),
        ensures
            old(self).age < HATCH_AGE ==> step == EggStep::Incubating && final(self).age == old(self).age + 1,
            old(self).age >= HATCH_AGE ==> final(self).age == old(self).age && step == if world.free(pos) {
                EggStep::Hatching
            } else {
                EggStep::Waiting
            },
    {
        if self.age < HATCH_AGE {
            self.age = self.age.saturating_add(1);
            EggStep::Incubating
        } else if world.is_free(pos) {
            EggStep::Hatching
        } else {
            EggStep::Waiting
        }
    }
}

/// The first direction of `dirs` whose step from `pos` is free.
pub open spec fn first_free_dir(world: &WorldMap, pos: Position, dirs: Seq<Direction>) -> Option<Direction>
    decreases dirs.len(),
{
    if dirs.len() == 0 {
        None
    } else if world.free(stepped(pos, dirs[0])) {
        Some(dirs[0])
    } else {
        first_free_dir(world, pos, dirs.drop_first())
    }
}

/// `first_free_dir` finds a direction exactly when one of `dirs` steps onto a
/// free cell, and what it finds is the first of them that does.
#[verifier::rlimit(30)]
pub proof fn lemma_first_free_dir(world: &WorldMap, pos: Position, dirs: Seq<Direction>)
    ensures
        first_free_dir(world, pos, dirs) is None <==> forall|i: int|
            0 <= i < dirs.len() ==> !world.free(stepped(pos, #[trigger] dirs[i])),
        first_free_dir(world, pos, dirs) matches Some(d) ==> dirs.contains(d) && world.free(stepped(pos, d)),
        first_free_dir(world, pos, dirs) matches Some(d) ==> exists|k: int|
            0 <= k < dirs.len() && dirs[k] == d && forall|j: int| 0 <= j < k ==> !world.free(stepped(pos, #[trigger] dirs[j])),
    decreases dirs.len(),
{
    if dirs.len() > 0 {
        lemma_first_free_dir(world, pos, dirs.drop_first());
        if first_free_dir(world, pos, dirs) is None {
            assert forall|i: int| 0 <= i < dirs.len() implies !world.free(stepped(pos, #[trigger] dirs[i])) by {
                if i > 0 {
                    assert(dirs[i] == dirs.drop_first()[i - 1]);
                }
            }
        }
        if let Some(d) = first_free_dir(world, pos, dirs) {
            let rest = dirs.drop_first();
            if !world.free(stepped(pos, dirs[0])) {
                assert(first_free_dir(world, pos, dirs) == first_free_dir(world, pos, rest));
                let k = choose|k: int|
                    0 <= k < rest.len() && rest[k] == d && forall|j: int|
                        0 <= j < k ==> !world.free(stepped(pos, #[trigger] rest[j]));
                assert(dirs[k + 1] == d);
                assert forall|j: int| 0 <= j < k + 1 implies !world.free(stepped(pos, #[trigger] dirs[j])) by {
                    if j > 0 {
                        assert(dirs[j] == rest[j - 1]);
                    }
                }
                assert(dirs.contains(d));
            } else {
                assert(dirs[0] == d);
                assert(dirs.contains(d));
            }
        }
    }
}

/// Whether some step from `pos` reaches a free cell.
pub open spec fn has_free_neighbor(world: &WorldMap, pos: Position) -> bool {
    exists|d: Direction| #[trigger] world.free(stepped(pos, d))
}

proof fn lemma_shuffled_covers(world: &WorldMap, pos: Position, dirs: Seq<Direction>)
    requires
        dirs.to_multiset() == Direction::ALL@.to_multiset(),
    ensures
        first_free_dir(world, pos, dirs) is None <==> !has_free_neighbor(world, pos),
        first_free_dir(world, pos, dirs) matches Some(d) ==> world.free(stepped(pos, d)),
{
    broadcast use vstd::seq_lib::group_to_multiset_ensures;

    lemma_first_free_dir(world, pos, dirs);
    assert(Direction::ALL@ =~= all_directions());
    if has_free_neighbor(world, pos) {
        let d = choose|d: Direction| #[trigger] world.free(stepped(pos, d));
        let k: int = match d {
            Direction::North => 0,
            Direction::South => 1,
            Direction::East => 2,
            Direction::West => 3,
            Direction::NorthEast => 4,
            Direction::NorthWest => 5,
            Direction::SouthEast => 6,
            Direction::SouthWest => 7,
        };
        assert(Direction::ALL@[k] == d);
        assert(Direction::ALL@.contains(d));
        assert(Direction::ALL@.to_multiset().count(d) > 0);
        assert(dirs.to_multiset().count(d) > 0);
        assert(dirs.contains(d));
        let i = choose|i: int| 0 <= i < dirs.len() && dirs[i] == d;
        assert(world.free(stepped(pos, dirs[i])));
    }
}

fn first_free_direction(world: &WorldMap, pos: Position, dirs: &[Direction; 8]) -> (dir: Option<Direction>)
    requires
        world.wf(),
    ensures
        dir == first_free_dir(world, pos, dirs@),
{
    let ghost all = dirs@;
    let mut i: usize = 0;
    assert(all.subrange(0, 8) =~= all);
    while i < 8
        invariant
            world.wf(),
            dirs@ == all,
            all.len() == 8,
            i <= 8,
            first_free_dir(world, pos, all) == first_free_dir(world, pos, all.subrange(i as int, 8)),
        decreases 8 - i,
    {
        let d = dirs[i];
        let ghost rest = all.subrange(i as int, 8);
        assert(rest[0] == d);
        if world.is_free(step(pos, d)) {
            return Some(d);
        }
        assert(rest.drop_first() =~= all.subrange(i + 1, 8));
        i = i + 1;
    }
    None
}

/// Where a dino laying an egg at `pos` puts it, trying the directions in
/// the given order: the first free cell next to it.
pub fn egg_spot(world: &WorldMap, pos: Position, dirs: &[Direction; 8]) -> (spot: Option<Position>)
    requires
        world.wf(),
    ensures
        spot == match first_free_dir(world, pos, dirs@) {
            Some(d) => Some(stepped(pos, d)),
            None => None,
        },
{
    match first_free_direction(world, pos, dirs) {
        Some(d) => Some(step(pos, d)),
        None => None,
    }
}

/// A free cell next to `pos`, tried in a random order; `None` exactly when
/// every neighbour is taken or off the board.
pub fn lay_egg_spot(world: &WorldMap, pos: Position) -> (spot: Option<Position>)
    requires
        world.wf(),
    ensures
        spot is None <==> !has_free_neighbor(world, pos),
        spot matches Some(p) ==> world.free(p) && exists|d: Direction| p == stepped(pos, d),
{
    let dirs = shuffled_directions();
    proof {
        lemma_shuffled_covers(world, pos, dirs@);
    }
    let spot = egg_spot(world, pos, &dirs);
    proof {
        if let Some(d) = first_free_dir(world, pos, dirs@) {
            assert(spot == Some(stepped(pos, d)));
        }
    }
    spot
}

/// A wandering dino's move: the first direction of `dirs` whose cell is
/// free, then one step that way if its chance to step grants it.
pub fn wander_turn(
    world: &mut WorldMap,
    entity: EntityId,
    pos: &mut Position,
    dirs: &[Direction; 8],
    step_granted: impl FnOnce() -> bool,
) -> (went: Option<(Direction, bool)>)
    requires
        old(world).wf(),
        step_granted.requires(()),
    ensures
        final(world).wf(),
        final(world).width() == old(world).width(),
        final(world).height() == old(world).height(),
        match went {
            None => first_free_dir(old(world), *old(pos), dirs@) is None && stayed(
                old(world),
                final(world),
                *old(pos),
                *final(pos),
            ),
            Some((dir, moved)) => {
                &&& first_free_dir(old(world), *old(pos), dirs@) == Some(dir)
                &&& moved ==> stepped_to(old(world), final(world), entity, *old(pos), *final(pos), dir)
                    && step_granted.ensures((), true)
                &&& !moved ==> stayed(old(world), final(world), *old(pos), *final(pos)) && (step_blocked(
                    old(world),
                    *old(pos),
                    dir,
                ) || step_granted.ensures((), false))
            },
        },
{
    match first_free_direction(world, *pos, dirs) {
        None => None,
        Some(dir) => {
            let moved = try_move(world, entity, pos, dir, step_granted);
            Some((dir, moved))
        },
    }
}

/// `wander_turn` with the directions shuffled: a dino with no free
/// neighbour stays put; otherwise it tries a step onto a free neighbour.
pub fn wander(
    world: &mut WorldMap,
    entity: EntityId,
    pos: &mut Position,
    step_granted: impl FnOnce() -> bool,
) -> (went: Option<(Direction, bool)>)
    requires
        old(world).wf(),
        step_granted.requires(()),
    ensures
        final(world).wf(),
        final(world).width() == old(world).width(),
        final(world).height() == old(world).height(),
        went is None <==> !has_free_neighbor(old(world), *old(pos)),
        went is None ==> stayed(old(world), final(world), *old(pos), *final(pos)),
        went matches Some((dir, moved)) ==> {
            &&& old(world).free(stepped(*old(pos), dir))
            &&& moved ==> stepped_to(old(world), final(world), entity, *old(pos), *final(pos), dir)
                && step_granted.ensures((), true)
            &&& !moved ==> stayed(old(world), final(world), *old(pos), *final(pos)) && (step_blocked(
                old(world),
                *old(pos),
                dir,
            ) || step_granted.ensures((), false))
        },
{
    let dirs = shuffled_directions();
    proof {
        lemma_shuffled_covers(world, *pos, dirs@);
    }
    wander_turn(world, entity, pos, &dirs, step_granted)
}

} // verus!
