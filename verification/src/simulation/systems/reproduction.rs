use vstd::prelude::*;

use crate::world::{EntityId, Position, WorldMap};

use crate::simulation::components::Direction;
use crate::simulation::movement::{
    cheb, chebyshev, closest_tile, find_closest_tile, holds_member, nearest_member, scan_hit, scan_misses,
    stayed, step_blocked, stepped_to, try_move, MAX_SEEK_RADIUS,
};

verus! {

/// What a partner seeker did this turn.
#[derive(Clone, Copy, Debug)]
pub enum Mating {
    /// No partner within `MAX_SEEK_RADIUS`.
    NoPartner,
    /// The seeker is a female next to her partner: she conceives with
    /// `father`.
    Mate { father: EntityId },
    /// The seeker is a male next to his partner: he waits for her.
    Courting { partner: EntityId },
    /// The partner is farther away: one step towards it was tried.
    Approach { partner: EntityId, target: Position, dir: Direction, moved: bool },
}

/// The partner `origin` at `pos` goes for: the nearest (in scan order)
/// seeker of the other sex, never itself.
pub open spec fn partner_of(
    world: &WorldMap,
    pos: Position,
    origin: EntityId,
    candidates: Seq<EntityId>,
    found: Option<(EntityId, Position)>,
) -> bool {
    let accept = holds_member(world, candidates, seq![origin]);
    match found {
        Some((e, p)) => world.occ(p) == Some(e) && scan_hit(world, pos, MAX_SEEK_RADIUS as int, p, accept),
        None => scan_misses(world, pos, MAX_SEEK_RADIUS as int, accept),
    }
}

/// One partner seeker's turn. `candidates` are the dinosaurs of the other
/// sex that seek a partner too. Next to its partner a female mates (the
/// caller makes her pregnant with the blended traits and resets both
/// desires) and a male waits; a partner farther away is approached by one
/// step, if the seeker's chance to step grants it.
pub fn reproduction_turn(
    world: &mut WorldMap,
    origin: EntityId,
    pos: &mut Position,
    is_male: bool,
    candidates: &Vec<EntityId>,
    step_granted: impl FnOnce() -> bool,
) -> (outcome: Mating)
    requires
        old(world).wf(),
        step_granted.requires(()),
    ensures
        final(world).wf(),
        final(world).width() == old(world).width(),
        final(world).height() == old(world).height(),
        match outcome {
            Mating::NoPartner => partner_of(old(world), *old(pos), origin, candidates@, None) && stayed(
                old(world),
                final(world),
                *old(pos),
                *final(pos),
            ),
            Mating::Mate { father } => {
                &&& !is_male
                &&& exists|p: Position|
                    partner_of(old(world), *old(pos), origin, candidates@, Some((father, p))) && cheb(*old(pos), p)
                        <= 1
                &&& stayed(old(world), final(world), *old(pos), *final(pos))
            },
            Mating::Courting { partner } => {
                &&& is_male
                &&& exists|p: Position|
                    partner_of(old(world), *old(pos), origin, candidates@, Some((partner, p))) && cheb(*old(pos), p)
                        <= 1
                &&& stayed(old(world), final(world), *old(pos), *final(pos))
            },
            Mating::Approach { partner, target, dir, moved } => {
                &&& partner_of(old(world), *old(pos), origin, candidates@, Some((partner, target)))
                &&& cheb(*old(pos), target) > 1
                &&& dir == closest_tile(old(world), *old(pos), target)
                &&& moved ==> stepped_to(old(world), final(world), origin, *old(pos), *final(pos), dir)
                    && step_granted.ensures((), true)
                &&& !moved ==> stayed(old(world), final(world), *old(pos), *final(pos)) && (step_blocked(
                    old(world),
                    *old(pos),
                    dir,
                ) || step_granted.ensures((), false))
            },
        },
{
    let mut me: Vec<EntityId> = Vec::new();
    me.push(origin);
    assert(me@ =~= seq![origin]);
    let found = nearest_member(world, *pos, MAX_SEEK_RADIUS, candidates, &me);
    match found {
        None => Mating::NoPartner,
        Some((partner, target)) => {
            if chebyshev(pos, &target) <= 1 {
                if !is_male {
                    Mating::Mate { father: partner }
                } else {
                    Mating::Courting { partner }
                }
            } else {
                let dir = find_closest_tile(world, pos, &target);
                let moved = try_move(world, origin, pos, dir, step_granted);
                Mating::Approach { partner, target, dir, moved }
            }
        },
    }
}

} // verus!
