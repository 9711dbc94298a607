use vstd::prelude::*;

use crate::world::{contains_id, insert_id, EntityId, Position, WorldMap};

use crate::simulation::components::{all_directions, Direction};
use crate::simulation::spawn::PLANT_LAYER;
use crate::simulation::movement::{
    cheb, lemma_neighborhood_is_the_unit_ball, stepped,
    find_closest_tile, closest_tile, nearest_member, neighborhood, neighbors, scan_hit, scan_misses, holds_member,
    step_blocked, stayed, stepped_to, try_move, MAX_SEEK_RADIUS,
};

verus! {

/// The first entity of `ids` met on `cells`, in order.
pub open spec fn first_holder(world: &WorldMap, cells: Seq<Position>, ids: Seq<EntityId>) -> Option<EntityId>
    decreases cells.len(),
{
    if cells.len() == 0 {
        None
    } else if world.occ(cells[0]) is Some && ids.contains(world.occ(cells[0])->0) {
        world.occ(cells[0])
    } else {
        first_holder(world, cells.drop_first(), ids)
    }
}

/// The plant a dinosaur at `pos` is next to (it may stand on nothing but
/// itself): the first of its neighbourhood's cells that holds one.
pub fn adjacent_plant(world: &WorldMap, pos: Position, plants: &Vec<EntityId>) -> (plant: Option<EntityId>)
    requires
        world.wf(),
    ensures
        plant == first_holder(world, neighbors(pos), plants@),
{
    let cells = neighborhood(pos);
    let ghost all = neighbors(pos);
    let mut i: usize = 0;
    assert(all.subrange(0, 9) =~= all);
    while i < 9
        invariant
            world.wf(),
            cells@ == all,
            all == neighbors(pos),
            all.len() == 9,
            i <= 9,
            first_holder(world, all, plants@) == first_holder(world, all.subrange(i as int, 9), plants@),
        decreases 9 - i,
    {
        let cell = cells[i];
        let ghost rest = all.subrange(i as int, 9);
        assert(rest[0] == cell);
        match world.entity_at(cell) {
            Some(e) => {
                if contains_id(plants, e) {
                    return Some(e);
                }
            },
            None => {},
        }
        assert(rest.drop_first() =~= all.subrange(i + 1, 9));
        i = i + 1;
    }
    None
}

/// Whether `plant` already has an owner in `owners` (pairs plant, owner).
pub open spec fn claimed(owners: Seq<(EntityId, EntityId)>, plant: EntityId) -> bool {
    exists|k: int| 0 <= k < owners.len() && owners[k].0 == plant
}

/// First adjacent SeekingFood dino owns the plant: going through the seekers
/// in order, each claims the plant it is next to unless an earlier one did.
pub open spec fn claims(
    world: &WorldMap,
    seekers: Seq<(EntityId, Position)>,
    plants: Seq<EntityId>,
) -> Seq<(EntityId, EntityId)>
    decreases seekers.len(),
{
    if seekers.len() == 0 {
        seq![]
    } else {
        let before = claims(world, seekers.drop_last(), plants);
        let (dino, pos) = seekers.last();
        match first_holder(world, neighbors(pos), plants) {
            Some(plant) => if claimed(before, plant) {
                before
            } else {
                before.push((plant, dino))
            },
            None => before,
        }
    }
}

fn is_claimed(owners: &Vec<(EntityId, EntityId)>, plant: EntityId) -> (found: bool)
    ensures
        found == claimed(owners@, plant),
{
    let mut k: usize = 0;
    while k < owners.len()
        invariant
            k <= owners@.len(),
            forall|j: int| 0 <= j < k ==> owners@[j].0 != plant,
        decreases owners@.len() - k,
    {
        if owners[k].0 == plant {
            return true;
        }
        k = k + 1;
    }
    false
}

/// Who owns which plant this tick: pairs (plant, owner), one per claimed
/// plant, in the order the plants were claimed.
pub fn plant_owners(
    world: &WorldMap,
    seekers: &Vec<(EntityId, Position)>,
    plants: &Vec<EntityId>,
) -> (owners: Vec<(EntityId, EntityId)>)
    requires
        world.wf(),
    ensures
        owners@ == claims(world, seekers@, plants@),
{
    let mut owners: Vec<(EntityId, EntityId)> = Vec::new();
    let mut i: usize = 0;
    while i < seekers.len()
        invariant
            world.wf(),
            i <= seekers@.len(),
            owners@ == claims(world, seekers@.subrange(0, i as int), plants@),
        decreases seekers@.len() - i,
    {
        let (dino, pos) = seekers[i];
        assert(seekers@.subrange(0, i + 1).drop_last() =~= seekers@.subrange(0, i as int));
        match adjacent_plant(world, pos, plants) {
            Some(plant) => {
                if !is_claimed(&owners, plant) {
                    owners.push((plant, dino));
                }
            },
            None => {},
        }
        i = i + 1;
    }
    assert(seekers@.subrange(0, seekers@.len() as int) =~= seekers@);
    owners
}

/// The plants that have an owner.
pub open spec fn owned_plants(owners: Seq<(EntityId, EntityId)>) -> Seq<EntityId> {
    owners.map_values(|pair: (EntityId, EntityId)| pair.0)
}

/// The claimed plants, reserved at the start of the tick.
pub fn reserved_plants(owners: &Vec<(EntityId, EntityId)>) -> (reserved: Vec<EntityId>)
    ensures
        reserved@ == owned_plants(owners@),
{
    let mut reserved: Vec<EntityId> = Vec::new();
    let mut k: usize = 0;
    while k < owners.len()
        invariant
            k <= owners@.len(),
            reserved@ == owned_plants(owners@.subrange(0, k as int)),
        decreases owners@.len() - k,
    {
        reserved.push(owners[k].0);
        assert(owned_plants(owners@.subrange(0, k + 1)) =~= owned_plants(owners@.subrange(0, k as int)).push(
            owners@[k as int].0,
        ));
        k = k + 1;
    }
    assert(owners@.subrange(0, owners@.len() as int) =~= owners@);
    reserved
}

/// The dinosaur `dino` at `pos` stands next to a plant it owns.
pub open spec fn eats_own_plant(
    world: &WorldMap,
    pos: Position,
    dino: EntityId,
    owners: Seq<(EntityId, EntityId)>,
) -> bool {
    exists|i: int|
        0 <= i < 9 && #[trigger] world.occ(neighbors(pos)[i]) is Some && owners.contains(
            (world.occ(neighbors(pos)[i])->0, dino),
        )
}

fn owns(owners: &Vec<(EntityId, EntityId)>, plant: EntityId, dino: EntityId) -> (found: bool)
    ensures
        found == owners@.contains((plant, dino)),
{
    let mut k: usize = 0;
    while k < owners.len()
        invariant
            k <= owners@.len(),
            forall|j: int| 0 <= j < k ==> owners@[j] != (plant, dino),
        decreases owners@.len() - k,
    {
        if owners[k].0 == plant && owners[k].1 == dino {
            return true;
        }
        k = k + 1;
    }
    false
}

/// Whether the dinosaur is next to the plant it owns this tick (then it
/// stays to eat).
pub fn eating_own_plant(
    world: &WorldMap,
    pos: Position,
    dino: EntityId,
    owners: &Vec<(EntityId, EntityId)>,
) -> (eating: bool)
    requires
        world.wf(),
    ensures
        eating == eats_own_plant(world, pos, dino, owners@),
{
    let cells = neighborhood(pos);
    let mut i: usize = 0;
    while i < 9
        invariant
            world.wf(),
            cells@ == neighbors(pos),
            i <= 9,
            forall|j: int|
                0 <= j < i ==> !(#[trigger] world.occ(neighbors(pos)[j]) is Some && owners@.contains(
                    (world.occ(neighbors(pos)[j])->0, dino),
                )),
        decreases 9 - i,
    {
        match world.entity_at(cells[i]) {
            Some(e) => {
                if owns(owners, e, dino) {
                    return true;
                }
            },
            None => {},
        }
        i = i + 1;
    }
    false
}

/// The cells holding an entity listed in both `a` and `b`.
pub open spec fn holds_both(world: &WorldMap, a: Seq<EntityId>, b: Seq<EntityId>) -> spec_fn(Position) -> bool {
    |q: Position|
        match world.occ(q) {
            Some(e) => a.contains(e) && b.contains(e),
            None => false,
        }
}

/// The entities listed in both `a` and `b`.
fn common_ids(a: &Vec<EntityId>, b: &Vec<EntityId>) -> (both: Vec<EntityId>)
    ensures
        forall|e: EntityId| #[trigger] both@.contains(e) == (a@.contains(e) && b@.contains(e)),
{
    let mut both: Vec<EntityId> = Vec::new();
    let mut i: usize = 0;
    while i < a.len()
        invariant
            i <= a@.len(),
            forall|e: EntityId| #[trigger] both@.contains(e) == (a@.subrange(0, i as int).contains(e) && b@.contains(e)),
        decreases a@.len() - i,
    {
        let e = a[i];
        let ghost before = both@;
        if contains_id(b, e) {
            both.push(e);
        }
        let ghost sub = a@.subrange(0, i as int);
        let ghost sub1 = a@.subrange(0, i + 1);
        assert(sub1 =~= sub.push(e));
        assert forall|x: EntityId| #[trigger] both@.contains(x) == (sub1.contains(x) && b@.contains(x)) by {
            if sub1.contains(x) {
                let k = choose|k: int| 0 <= k < sub1.len() && sub1[k] == x;
                if k < sub.len() {
                    assert(sub[k] == x);
                }
            }
            if sub.contains(x) {
                let k = choose|k: int| 0 <= k < sub.len() && sub[k] == x;
                assert(sub1[k] == x);
            }
            assert(sub1[sub.len() as int] == e);
            if both@.contains(x) && x != e {
                let k = choose|k: int| 0 <= k < both@.len() && both@[k] == x;
                assert(before[k] == x);
            }
            if before.contains(x) {
                let k = choose|k: int| 0 <= k < before.len() && before[k] == x;
                assert(both@[k] == x);
            }
            if x == e && b@.contains(x) {
                assert(both@[both@.len() - 1] == x);
            }
        }
        i = i + 1;
    }
    assert(a@.subrange(0, a@.len() as int) =~= a@);
    both
}

/// Where a food seeker at `pos` heads: the nearest plant nobody reserved
/// yet, and failing that the nearest reserved one (`None`: no plant within
/// `MAX_SEEK_RADIUS`).
pub open spec fn food_target_of(
    world: &WorldMap,
    pos: Position,
    plants: Seq<EntityId>,
    reserved: Seq<EntityId>,
    found: Option<(EntityId, Position)>,
) -> bool {
    let free_plant = holds_member(world, plants, reserved);
    let taken_plant = holds_both(world, plants, reserved);
    let r = MAX_SEEK_RADIUS as int;
    match found {
        Some((e, p)) => world.occ(p) == Some(e) && (scan_hit(world, pos, r, p, free_plant) || (scan_misses(
            world,
            pos,
            r,
            free_plant,
        ) && scan_hit(world, pos, r, p, taken_plant))),
        None => scan_misses(world, pos, r, free_plant) && scan_misses(world, pos, r, taken_plant),
    }
}

/// The plant a food seeker heads for, and its cell.
pub fn food_target(
    world: &WorldMap,
    pos: Position,
    plants: &Vec<EntityId>,
    reserved: &Vec<EntityId>,
) -> (found: Option<(EntityId, Position)>)
    requires
        world.wf(),
    ensures
        food_target_of(world, pos, plants@, reserved@, found),
{
    let closest = nearest_member(world, pos, MAX_SEEK_RADIUS, plants, reserved);
    match closest {
        Some(hit) => Some(hit),
        None => {
            let taken = common_ids(plants, reserved);
            let none: Vec<EntityId> = Vec::new();
            let fallback = nearest_member(world, pos, MAX_SEEK_RADIUS, &taken, &none);
            assert(holds_member(world, taken@, none@) =~= holds_both(world, plants@, reserved@));
            fallback
        },
    }
}

/// What a food seeker did this turn.
#[derive(Clone, Copy, Debug)]
pub enum FoodSeek {
    /// It stands next to the plant it owns: it stays to eat.
    Eating,
    /// No plant within reach.
    NoFood,
    /// It reserved `plant` on `target` and tried a step in direction `dir`.
    Heading { plant: EntityId, target: Position, dir: Direction, moved: bool },
}

/// One food seeker's turn: a dino next to its own plant stays; otherwise it
/// reserves the plant it heads for and tries one step towards it.
pub fn seek_food_turn(
    world: &mut WorldMap,
    dino: EntityId,
    pos: &mut Position,
    plants: &Vec<EntityId>,
    owners: &Vec<(EntityId, EntityId)>,
    reserved: &mut Vec<EntityId>,
    step_granted: impl FnOnce() -> bool,
) -> (outcome: FoodSeek)
    requires
        old(world).wf(),
        step_granted.requires(()),
    ensures
        final(world).wf(),
        final(world).width() == old(world).width(),
        final(world).height() == old(world).height(),
        match outcome {
            FoodSeek::Eating => {
                &&& eats_own_plant(old(world), *old(pos), dino, owners@)
                &&& stayed(old(world), final(world), *old(pos), *final(pos))
                &&& final(reserved)@ == old(reserved)@
            },
            FoodSeek::NoFood => {
                &&& !eats_own_plant(old(world), *old(pos), dino, owners@)
                &&& food_target_of(old(world), *old(pos), plants@, old(reserved)@, None)
                &&& stayed(old(world), final(world), *old(pos), *final(pos))
                &&& final(reserved)@ == old(reserved)@
            },
            FoodSeek::Heading { plant, target, dir, moved } => {
                &&& !eats_own_plant(old(world), *old(pos), dino, owners@)
                &&& food_target_of(old(world), *old(pos), plants@, old(reserved)@, Some((plant, target)))
                &&& final(reserved)@.to_set() == old(reserved)@.to_set().insert(plant)
                &&& (old(reserved)@.no_duplicates() ==> final(reserved)@.no_duplicates())
                &&& dir == closest_tile(old(world), *old(pos), target)
                &&& moved ==> stepped_to(old(world), final(world), dino, *old(pos), *final(pos), dir)
                    && step_granted.ensures((), true)
                &&& !moved ==> stayed(old(world), final(world), *old(pos), *final(pos)) && (step_blocked(
                    old(world),
                    *old(pos),
                    dir,
                ) || step_granted.ensures((), false))
            },
        },
{
    if eating_own_plant(world, *pos, dino, owners) {
        return FoodSeek::Eating;
    }
    match food_target(world, *pos, plants, reserved) {
        None => FoodSeek::NoFood,
        Some((plant, target)) => {
            insert_id(reserved, plant);
            let dir = find_closest_tile(world, pos, &target);
            let moved = try_move(world, dino, pos, dir, step_granted);
            FoodSeek::Heading { plant, target, dir, moved }
        },
    }
}

/// The ids of a list of (plant, health) pairs.
pub open spec fn plant_ids(plants: Seq<(EntityId, u32)>) -> Seq<EntityId> {
    plants.map_values(|p: (EntityId, u32)| p.0)
}

/// The ids of a list of (plant, cell) pairs.
pub open spec fn met_ids(met: Seq<(EntityId, Position)>) -> Seq<EntityId> {
    met.map_values(|m: (EntityId, Position)| m.0)
}

/// The health `plants` lists for `e`.
pub open spec fn health_of(plants: Seq<(EntityId, u32)>, e: EntityId) -> u32
    decreases plants.len(),
{
    if plants.len() == 0 {
        0
    } else if plants.last().0 == e {
        plants.last().1
    } else {
        health_of(plants.drop_last(), e)
    }
}

/// The plants of `ids` met on `cells` in order, each once, leaving out those
/// already in `eaten`.
pub open spec fn fresh_plants(
    world: &WorldMap,
    cells: Seq<Position>,
    ids: Seq<EntityId>,
    eaten: Seq<EntityId>,
) -> Seq<(EntityId, Position)>
    decreases cells.len(),
{
    if cells.len() == 0 {
        seq![]
    } else {
        let who = world.occ(cells[0]);
        if who is Some && ids.contains(who->0) && !eaten.contains(who->0) {
            seq![(who->0, cells[0])] + fresh_plants(world, cells.drop_first(), ids, eaten.push(who->0))
        } else {
            fresh_plants(world, cells.drop_first(), ids, eaten)
        }
    }
}

/// The index in `met` of the first plant with no health left, or the length
/// of `met` if there is none.
pub open spec fn first_stump(met: Seq<(EntityId, Position)>, plants: Seq<(EntityId, u32)>) -> int
    decreases met.len(),
{
    if met.len() == 0 {
        0
    } else if health_of(plants, met[0].0) == 0 {
        0
    } else {
        1 + first_stump(met.drop_first(), plants)
    }
}

proof fn lemma_fresh_plants(world: &WorldMap, cells: Seq<Position>, ids: Seq<EntityId>, eaten: Seq<EntityId>)
    ensures
        met_ids(fresh_plants(world, cells, ids, eaten)).no_duplicates(),
        forall|i: int|
            0 <= i < fresh_plants(world, cells, ids, eaten).len() ==> {
                let m = #[trigger] fresh_plants(world, cells, ids, eaten)[i];
                &&& ids.contains(m.0)
                &&& !eaten.contains(m.0)
                &&& world.occ(m.1) == Some(m.0)
            },
    decreases cells.len(),
{
    if cells.len() > 0 {
        let who = world.occ(cells[0]);
        if who is Some && ids.contains(who->0) && !eaten.contains(who->0) {
            let e = who->0;
            let rest = fresh_plants(world, cells.drop_first(), ids, eaten.push(e));
            lemma_fresh_plants(world, cells.drop_first(), ids, eaten.push(e));
            let met = fresh_plants(world, cells, ids, eaten);
            assert(met == seq![(e, cells[0])] + rest);
            assert forall|i: int| 0 <= i < met.len() implies {
                let m = #[trigger] met[i];
                &&& ids.contains(m.0)
                &&& !eaten.contains(m.0)
                &&& world.occ(m.1) == Some(m.0)
            } by {
                if i > 0 {
                    assert(met[i] == rest[i - 1]);
                    if eaten.contains(rest[i - 1].0) {
                        let k = choose|k: int| 0 <= k < eaten.len() && eaten[k] == rest[i - 1].0;
                        assert(eaten.push(e)[k] == rest[i - 1].0);
                    }
                }
            }
            assert forall|a: int, b: int|
                0 <= a < met_ids(met).len() && 0 <= b < met_ids(met).len() && a != b implies met_ids(met)[a]
                != met_ids(met)[b] by {
                if a == 0 && b > 0 {
                    assert(met[b] == rest[b - 1]);
                    assert(eaten.push(e)[eaten.len() as int] == e);
                } else if b == 0 && a > 0 {
                    assert(met[a] == rest[a - 1]);
                    assert(eaten.push(e)[eaten.len() as int] == e);
                } else if a > 0 && b > 0 {
                    assert(met[a] == rest[a - 1]);
                    assert(met[b] == rest[b - 1]);
                    assert(met_ids(rest)[a - 1] != met_ids(rest)[b - 1]);
                }
            }
        } else {
            lemma_fresh_plants(world, cells.drop_first(), ids, eaten);
        }
    }
}

proof fn lemma_first_stump(met: Seq<(EntityId, Position)>, plants: Seq<(EntityId, u32)>, k: int)
    requires
        0 <= k <= met.len(),
        forall|i: int| 0 <= i < k ==> health_of(plants, #[trigger] met[i].0) > 0,
        k == met.len() || health_of(plants, met[k].0) == 0,
    ensures
        first_stump(met, plants) == k,
    decreases met.len(),
{
    if met.len() > 0 && k > 0 {
        assert(health_of(plants, met[0].0) > 0);
        assert forall|i: int| 0 <= i < k - 1 implies health_of(plants, #[trigger] met.drop_first()[i].0) > 0 by {
            assert(met.drop_first()[i] == met[i + 1]);
        }
        lemma_first_stump(met.drop_first(), plants, k - 1);
    }
}

proof fn lemma_health_at(plants: Seq<(EntityId, u32)>, idx: int)
    requires
        plant_ids(plants).no_duplicates(),
        0 <= idx < plants.len(),
    ensures
        health_of(plants, plants[idx].0) == plants[idx].1,
    decreases plants.len(),
{
    if idx < plants.len() - 1 {
        let last = plants.len() - 1;
        assert(plant_ids(plants)[last] != plant_ids(plants)[idx]);
        let shorter = plants.drop_last();
        assert(plant_ids(shorter) =~= plant_ids(plants).drop_last());
        assert(shorter[idx] == plants[idx]);
        lemma_health_at(shorter, idx);
    }
}

fn plant_index(plants: &Vec<(EntityId, u32)>, e: EntityId) -> (idx: Option<usize>)
    ensures
        match idx {
            Some(k) => k < plants@.len() && plants@[k as int].0 == e,
            None => !plant_ids(plants@).contains(e),
        },
{
    let mut k: usize = 0;
    while k < plants.len()
        invariant
            k <= plants@.len(),
            forall|j: int| 0 <= j < k ==> plants@[j].0 != e,
        decreases plants@.len() - k,
    {
        if plants[k].0 == e {
            return Some(k);
        }
        k = k + 1;
    }
    assert(!plant_ids(plants@).contains(e)) by {
        if plant_ids(plants@).contains(e) {
            let j = choose|j: int| 0 <= j < plant_ids(plants@).len() && plant_ids(plants@)[j] == e;
            assert(plants@[j].0 == e);
        }
    }
    None
}

/// The plants a hungry dino at `pos` meets around it this tick, in
/// neighbourhood order, each once and none it already ate from.
fn plants_around(
    world: &WorldMap,
    pos: Position,
    plants: &Vec<(EntityId, u32)>,
    eaten: &Vec<EntityId>,
) -> (met: Vec<(EntityId, Position)>)
    requires
        world.wf(),
    ensures
        met@ == fresh_plants(world, neighbors(pos), plant_ids(plants@), eaten@),
{
    let cells = neighborhood(pos);
    let ghost all = neighbors(pos);
    let ghost ids = plant_ids(plants@);
    let mut met: Vec<(EntityId, Position)> = Vec::new();
    let mut seen: Vec<EntityId> = eaten.clone();
    let mut i: usize = 0;
    assert(all.subrange(0, 9) =~= all);
    while i < 9
        invariant
            world.wf(),
            cells@ == all,
            all == neighbors(pos),
            all.len() == 9,
            ids == plant_ids(plants@),
            i <= 9,
            seen@ == eaten@ + met_ids(met@),
            fresh_plants(world, all, ids, eaten@) == met@ + fresh_plants(world, all.subrange(i as int, 9), ids, seen@),
        decreases 9 - i,
    {
        let cell = cells[i];
        let ghost rest = all.subrange(i as int, 9);
        assert(rest[0] == cell);
        assert(rest.drop_first() =~= all.subrange(i + 1, 9));
        match world.entity_at(cell) {
            Some(e) => {
                let known = plant_index(plants, e);
                if known.is_some() && !contains_id(&seen, e) {
                    assert(ids.contains(e)) by {
                        let k = known.unwrap() as int;
                        assert(ids[k] == e);
                    }
                    let ghost old_met = met@;
                    met.push((e, cell));
                    seen.push(e);
                    assert(met_ids(met@) =~= met_ids(old_met).push(e));
                    assert(seen@ =~= eaten@ + met_ids(met@));
                    assert(old_met + seq![(e, cell)] + fresh_plants(world, all.subrange(i + 1, 9), ids, seen@)
                        =~= met@ + fresh_plants(world, all.subrange(i + 1, 9), ids, seen@));
                } else {
                    if known.is_none() {
                        assert(!ids.contains(e));
                    }
                }
            },
            None => {},
        }
        i = i + 1;
    }
    assert(fresh_plants(world, all.subrange(9, 9), ids, seen@) =~= Seq::<(EntityId, Position)>::empty());
    assert(met@ + Seq::<(EntityId, Position)>::empty() =~= met@);
    met
}

/// The plants a hungry dino at `pos` bites, in order: every plant around it
/// that it has not eaten from this tick.
pub open spec fn bite_order(
    world: &WorldMap,
    pos: Position,
    plants: Seq<(EntityId, u32)>,
    eaten: Seq<EntityId>,
) -> Seq<(EntityId, Position)> {
    fresh_plants(world, neighbors(pos), plant_ids(plants), eaten)
}

/// How many plants the dino bites before it meets one with no health left
/// (all of them if there is none).
pub open spec fn bites_before_finish(
    world: &WorldMap,
    pos: Position,
    plants: Seq<(EntityId, u32)>,
    eaten: Seq<EntityId>,
) -> int {
    first_stump(bite_order(world, pos, plants, eaten), plants)
}

/// The plants the dino has dealt with this tick: those it bit, and the one it
/// finished, if any.
pub open spec fn bitten_and_finished(
    world: &WorldMap,
    pos: Position,
    plants: Seq<(EntityId, u32)>,
    eaten: Seq<EntityId>,
) -> Seq<EntityId> {
    let met = bite_order(world, pos, plants, eaten);
    let j = bites_before_finish(world, pos, plants, eaten);
    met_ids(met.take(if j < met.len() { j + 1 } else { j }))
}

/// A dino can only ever be adjacent to the 9 cells around it, so look those
/// up on the grid instead of scanning every plant. Each plant around it that
/// it has not eaten from this tick loses one health, in neighbourhood order,
/// until it meets one with no health left: that one is finished, its cell is
/// freed and it is returned. Every plant dealt with joins `eaten` (two dinos
/// must not finish the same plant in one tick). `plants` lists the trees and
/// their health; the caller removes a finished plant and lowers the dino's
/// hunger.
pub fn herbivore_bites(
    world: &mut WorldMap,
    dino_pos: Position,
    plants: &mut Vec<(EntityId, u32)>,
    eaten: &mut Vec<EntityId>,
) -> (finished: Option<(EntityId, Position)>)
    requires
        old(world).wf(),
        plant_ids(old(plants)@).no_duplicates(),
    ensures
        final(world).wf(),
        final(world).width() == old(world).width(),
        final(world).height() == old(world).height(),
        0 <= bites_before_finish(old(world), dino_pos, old(plants)@, old(eaten)@) <= bite_order(
            old(world),
            dino_pos,
            old(plants)@,
            old(eaten)@,
        ).len(),
        finished == if bites_before_finish(old(world), dino_pos, old(plants)@, old(eaten)@) < bite_order(
            old(world),
            dino_pos,
            old(plants)@,
            old(eaten)@,
        ).len() {
            Some(
                bite_order(old(world), dino_pos, old(plants)@, old(eaten)@)[bites_before_finish(
                    old(world),
                    dino_pos,
                    old(plants)@,
                    old(eaten)@,
                )],
            )
        } else {
            None
        },
        final(eaten)@ == old(eaten)@ + bitten_and_finished(old(world), dino_pos, old(plants)@, old(eaten)@),
        final(plants)@.len() == old(plants)@.len(),
        forall|k: int|
            0 <= k < old(plants)@.len() ==> {
                &&& (#[trigger] final(plants)@[k]).0 == old(plants)@[k].0
                &&& final(plants)@[k].1 == if met_ids(
                    bite_order(old(world), dino_pos, old(plants)@, old(eaten)@).take(
                        bites_before_finish(old(world), dino_pos, old(plants)@, old(eaten)@),
                    ),
                ).contains(old(plants)@[k].0) {
                    (old(plants)@[k].1 - 1) as u32
                } else {
                    old(plants)@[k].1
                }
            },
        finished matches Some((e, cell)) ==> cheb(dino_pos, cell) <= 1 && old(world).occ(cell) == Some(e)
            && plant_ids(old(plants)@).contains(e) && !old(eaten)@.contains(e),
        finished is None ==> forall|k: int|
            0 <= k < old(plants)@.len() && !old(eaten)@.contains(old(plants)@[k].0) && (exists|q: Position|
                cheb(dino_pos, q) <= 1 && #[trigger] old(world).occ(q) == Some(old(plants)@[k].0))
                ==> #[trigger] final(plants)@[k].1 + 1 == old(plants)@[k].1,
        forall|q: Position|
            #[trigger] final(world).occ(q) == match finished {
                Some((_, cell)) => if q.x == cell.x && q.y == cell.y {
                    None
                } else {
                    old(world).occ(q)
                },
                None => old(world).occ(q),
            },
{
    let met = plants_around(world, dino_pos, plants, eaten);
    let ghost old_plants = plants@;
    let ghost old_eaten = eaten@;
    let ghost old_world = *world;
    proof {
        lemma_fresh_plants(world, neighbors(dino_pos), plant_ids(plants@), eaten@);
    }
    let mut k: usize = 0;
    while k < met.len()
        invariant
            world.wf(),
            *world == old_world,
            old_world == *old(world),
            old_plants == old(plants)@,
            old_eaten == old(eaten)@,
            old_world.wf(),
            met@ == bite_order(&old_world, dino_pos, old_plants, old_eaten),
            met_ids(met@).no_duplicates(),
            forall|i: int|
                0 <= i < met@.len() ==> {
                    let m = #[trigger] met@[i];
                    &&& plant_ids(old_plants).contains(m.0)
                    &&& old_world.occ(m.1) == Some(m.0)
                },
            plant_ids(old_plants).no_duplicates(),
            k <= met@.len(),
            forall|i: int| 0 <= i < k ==> health_of(old_plants, #[trigger] met@[i].0) > 0,
            eaten@ == old_eaten + met_ids(met@.take(k as int)),
            plants@.len() == old_plants.len(),
            forall|x: int|
                0 <= x < old_plants.len() ==> {
                    &&& (#[trigger] plants@[x]).0 == old_plants[x].0
                    &&& plants@[x].1 == if met_ids(met@.take(k as int)).contains(old_plants[x].0) {
                        (old_plants[x].1 - 1) as u32
                    } else {
                        old_plants[x].1
                    }
                },
        decreases met@.len() - k,
    {
        let (e, cell) = met[k];
        assert(met_ids(met@.take(k + 1)) =~= met_ids(met@.take(k as int)).push(e));
        assert(!met_ids(met@.take(k as int)).contains(e)) by {
            if met_ids(met@.take(k as int)).contains(e) {
                let i = choose|i: int| 0 <= i < met_ids(met@.take(k as int)).len() && met_ids(met@.take(k as int))[i] == e;
                assert(met_ids(met@)[i] == met_ids(met@)[k as int]);
            }
        }
        assert(plant_ids(plants@) =~= plant_ids(old_plants));
        let found = plant_index(plants, e);
        let idx = match found {
            Some(idx) => idx,
            None => {
                assert(false);
                0
            },
        };
        let health = plants[idx].1;
        proof {
            lemma_health_at(old_plants, idx as int);
        }
        if health == 0 {
            world.set_free(cell);
            eaten.push(e);
            proof {
                lemma_first_stump(met@, old_plants, k as int);
                lemma_bites_reach_the_unit_ball(&old_world, dino_pos, old_plants, old_eaten);
                assert(met@[k as int] == (e, cell));
            }
            return Some((e, cell));
        }
        plants.set(idx, (e, health - 1));
        eaten.push(e);
        proof {
            assert forall|x: int|
                0 <= x < old_plants.len() implies {
                    &&& (#[trigger] plants@[x]).0 == old_plants[x].0
                    &&& plants@[x].1 == if met_ids(met@.take(k + 1)).contains(old_plants[x].0) {
                        (old_plants[x].1 - 1) as u32
                    } else {
                        old_plants[x].1
                    }
                } by {
                let before = met_ids(met@.take(k as int));
                let after = met_ids(met@.take(k + 1));
                assert(after == before.push(e));
                if x != idx {
                    assert(plant_ids(old_plants)[x] != plant_ids(old_plants)[idx as int]);
                    assert(old_plants[x].0 != e);
                    if after.contains(old_plants[x].0) {
                        let i = choose|i: int| 0 <= i < after.len() && after[i] == old_plants[x].0;
                        assert(before[i] == old_plants[x].0);
                    }
                    if before.contains(old_plants[x].0) {
                        let i = choose|i: int| 0 <= i < before.len() && before[i] == old_plants[x].0;
                        assert(after[i] == old_plants[x].0);
                    }
                } else {
                    assert(after[before.len() as int] == e);
                    assert(after.contains(e));
                }
            }
        }
        k = k + 1;
    }
    proof {
        lemma_first_stump(met@, old_plants, met@.len() as int);
        assert(met@.take(met@.len() as int) =~= met@);
        lemma_bites_reach_the_unit_ball(&old_world, dino_pos, old_plants, old_eaten);
        assert forall|x: int|
            0 <= x < old_plants.len() && !old_eaten.contains(old_plants[x].0) && (exists|q: Position|
                cheb(dino_pos, q) <= 1 && #[trigger] old_world.occ(q) == Some(old_plants[x].0))
                implies #[trigger] plants@[x].1 + 1 == old_plants[x].1 by {
            let id = old_plants[x].0;
            let q = choose|q: Position| cheb(dino_pos, q) <= 1 && #[trigger] old_world.occ(q) == Some(id);
            assert(plant_ids(old_plants)[x] == id);
            assert(met_ids(met@).contains(id));
            let i = choose|i: int| 0 <= i < met_ids(met@).len() && met_ids(met@)[i] == id;
            assert(met@[i].0 == id);
            assert(health_of(old_plants, met@[i].0) > 0);
            lemma_health_at(old_plants, x);
        }
    }
    None
}

/// No plant is bitten twice in one tick: whatever one dino dealt with (the
/// plants it bit and the one it finished, which is among them) joins
/// `eaten`, and a later dino, anywhere on any map, meets none of it.
pub proof fn lemma_no_plant_bitten_twice(
    w1: &WorldMap,
    p1: Position,
    plants1: Seq<(EntityId, u32)>,
    eaten: Seq<EntityId>,
    w2: &WorldMap,
    p2: Position,
    plants2: Seq<(EntityId, u32)>,
)
    ensures
        bites_before_finish(w1, p1, plants1, eaten) < bite_order(w1, p1, plants1, eaten).len()
            ==> bitten_and_finished(w1, p1, plants1, eaten).contains(
            bite_order(w1, p1, plants1, eaten)[bites_before_finish(w1, p1, plants1, eaten)].0,
        ),
        forall|e: EntityId|
            #[trigger] bitten_and_finished(w1, p1, plants1, eaten).contains(e) ==> !met_ids(
                bite_order(w2, p2, plants2, eaten + bitten_and_finished(w1, p1, plants1, eaten)),
            ).contains(e),
{
    let met = bite_order(w1, p1, plants1, eaten);
    let j = bites_before_finish(w1, p1, plants1, eaten);
    let dealt = bitten_and_finished(w1, p1, plants1, eaten);
    lemma_first_stump_bounds(met, plants1);
    if j < met.len() {
        assert(dealt == met_ids(met.take(j + 1)));
        assert(dealt[j] == met[j].0);
    }
    let later = eaten + dealt;
    lemma_fresh_plants(w2, neighbors(p2), plant_ids(plants2), later);
    let met2 = bite_order(w2, p2, plants2, later);
    assert forall|e: EntityId| #[trigger] dealt.contains(e) implies !met_ids(met2).contains(e) by {
        let k = choose|k: int| 0 <= k < dealt.len() && dealt[k] == e;
        assert(later[eaten.len() + k] == e);
        assert(later.contains(e));
        if met_ids(met2).contains(e) {
            let i = choose|i: int| 0 <= i < met_ids(met2).len() && met_ids(met2)[i] == e;
            assert(met2[i].0 == e);
        }
    }
}

proof fn lemma_first_stump_bounds(met: Seq<(EntityId, Position)>, plants: Seq<(EntityId, u32)>)
    ensures
        0 <= first_stump(met, plants) <= met.len(),
    decreases met.len(),
{
    if met.len() > 0 {
        lemma_first_stump_bounds(met.drop_first(), plants);
    }
}

/// First come, first served: each plant has at most one owner, and each
/// owner is a seeker whose neighbourhood holds that plant first.
pub proof fn lemma_one_owner_per_plant(world: &WorldMap, seekers: Seq<(EntityId, Position)>, plants: Seq<EntityId>)
    ensures
        owned_plants(claims(world, seekers, plants)).no_duplicates(),
        forall|k: int|
            0 <= k < claims(world, seekers, plants).len() ==> exists|i: int|
                0 <= i < seekers.len() && seekers[i].0 == (#[trigger] claims(world, seekers, plants)[k]).1
                    && first_holder(world, neighbors(seekers[i].1), plants) == Some(
                    claims(world, seekers, plants)[k].0,
                ),
    decreases seekers.len(),
{
    if seekers.len() > 0 {
        let shorter = seekers.drop_last();
        lemma_one_owner_per_plant(world, shorter, plants);
        let before = claims(world, shorter, plants);
        let now = claims(world, seekers, plants);
        let (dino, pos) = seekers.last();
        assert forall|k: int| 0 <= k < before.len() implies exists|i: int|
            0 <= i < seekers.len() && seekers[i].0 == (#[trigger] before[k]).1 && first_holder(
                world,
                neighbors(seekers[i].1),
                plants,
            ) == Some(before[k].0) by {
            let i = choose|i: int|
                0 <= i < shorter.len() && shorter[i].0 == before[k].1 && first_holder(
                    world,
                    neighbors(shorter[i].1),
                    plants,
                ) == Some(before[k].0);
            assert(seekers[i] == shorter[i]);
        }
        match first_holder(world, neighbors(pos), plants) {
            Some(plant) => {
                if !claimed(before, plant) {
                    assert(now == before.push((plant, dino)));
                    assert(owned_plants(now) =~= owned_plants(before).push(plant));
                    assert(!owned_plants(before).contains(plant)) by {
                        if owned_plants(before).contains(plant) {
                            let k = choose|k: int| 0 <= k < owned_plants(before).len() && owned_plants(before)[k] == plant;
                            assert(before[k].0 == plant);
                        }
                    }
                    assert forall|k: int| 0 <= k < now.len() implies exists|i: int|
                        0 <= i < seekers.len() && seekers[i].0 == (#[trigger] now[k]).1 && first_holder(
                            world,
                            neighbors(seekers[i].1),
                            plants,
                        ) == Some(now[k].0) by {
                        if k == before.len() {
                            assert(seekers[seekers.len() - 1] == (dino, pos));
                        } else {
                            assert(now[k] == before[k]);
                        }
                    }
                }
            },
            None => {},
        }
    }
}

/// At most this many trees grow back in one tick.
pub const MAX_NEW_PLANTS: usize = 6;

/// Random cells sampled per tick when trees grow back.
pub const PLANT_SAMPLES: usize = 80;

/// The cells where trees grow, from the sampled cells that passed the grove
/// test, in order: a free cell not already picked, until there are
/// `MAX_NEW_PLANTS`.
pub open spec fn chosen_spots(world: &WorldMap, candidates: Seq<(usize, usize)>) -> Seq<Position>
    decreases candidates.len(),
{
    if candidates.len() == 0 {
        seq![]
    } else {
        let before = chosen_spots(world, candidates.drop_last());
        let (x, y) = candidates.last();
        let p = Position { x, y, z: PLANT_LAYER };
        if before.len() < MAX_NEW_PLANTS && world.free(p) && !before.contains(p) {
            before.push(p)
        } else {
            before
        }
    }
}

fn contains_position(spots: &Vec<Position>, p: Position) -> (found: bool)
    ensures
        found == spots@.contains(p),
{
    let mut i: usize = 0;
    while i < spots.len()
        invariant
            i <= spots@.len(),
            forall|j: int| 0 <= j < i ==> spots@[j] != p,
        decreases spots@.len() - i,
    {
        if spots[i] == p {
            return true;
        }
        i = i + 1;
    }
    false
}

/// Where new trees go this tick; the caller plants one on each and marks its
/// cell taken.
pub fn plant_spots(world: &WorldMap, candidates: &Vec<(usize, usize)>) -> (spots: Vec<Position>)
    requires
        world.wf(),
    ensures
        spots@ == chosen_spots(world, candidates@),
        spots@.len() <= MAX_NEW_PLANTS,
        spots@.no_duplicates(),
        forall|i: int|
            0 <= i < spots@.len() ==> world.free(#[trigger] spots@[i]) && spots@[i].z == PLANT_LAYER && exists|j: int|
                0 <= j < candidates@.len() && spots@[i].x == candidates@[j].0 && spots@[i].y == candidates@[j].1,
        forall|j: int|
            0 <= j < candidates@.len() && world.free(
                Position { x: (#[trigger] candidates@[j]).0, y: candidates@[j].1, z: PLANT_LAYER },
            ) ==> spots@.contains(Position { x: candidates@[j].0, y: candidates@[j].1, z: PLANT_LAYER })
                || spots@.len() == MAX_NEW_PLANTS,
{
    let mut spots: Vec<Position> = Vec::new();
    let mut i: usize = 0;
    while i < candidates.len()
        invariant
            world.wf(),
            i <= candidates@.len(),
            spots@ == chosen_spots(world, candidates@.subrange(0, i as int)),
        decreases candidates@.len() - i,
    {
        let (x, y) = candidates[i];
        let p = Position { x, y, z: PLANT_LAYER };
        assert(candidates@.subrange(0, i + 1).drop_last() =~= candidates@.subrange(0, i as int));
        if spots.len() < MAX_NEW_PLANTS && world.is_free(p) && !contains_position(&spots, p) {
            spots.push(p);
        }
        i = i + 1;
    }
    assert(candidates@.subrange(0, candidates@.len() as int) =~= candidates@);
    proof {
        lemma_chosen_spots(world, candidates@);
        lemma_spots_come_from_candidates(world, candidates@);
    }
    spots
}

/// New trees: at most `MAX_NEW_PLANTS`, each on a free cell of the plant
/// layer, no two on one cell.
pub proof fn lemma_chosen_spots(world: &WorldMap, candidates: Seq<(usize, usize)>)
    ensures
        chosen_spots(world, candidates).len() <= MAX_NEW_PLANTS,
        chosen_spots(world, candidates).no_duplicates(),
        forall|i: int|
            0 <= i < chosen_spots(world, candidates).len() ==> world.free(#[trigger] chosen_spots(world, candidates)[i])
                && chosen_spots(world, candidates)[i].z == PLANT_LAYER,
    decreases candidates.len(),
{
    if candidates.len() > 0 {
        lemma_chosen_spots(world, candidates.drop_last());
    }
}


/// New trees grow only on sampled cells: every spot has the coordinates of
/// one of the candidates, on the plant layer. And no free candidate is passed
/// over while there is room: each candidate whose cell is free is planted,
/// unless `MAX_NEW_PLANTS` spots were already chosen.
pub proof fn lemma_spots_come_from_candidates(world: &WorldMap, candidates: Seq<(usize, usize)>)
    ensures
        forall|i: int|
            0 <= i < chosen_spots(world, candidates).len() ==> exists|j: int|
                0 <= j < candidates.len() && (#[trigger] chosen_spots(world, candidates)[i]).x == candidates[j].0
                    && chosen_spots(world, candidates)[i].y == candidates[j].1,
        forall|j: int|
            0 <= j < candidates.len() && world.free(
                Position { x: (#[trigger] candidates[j]).0, y: candidates[j].1, z: PLANT_LAYER },
            ) ==> chosen_spots(world, candidates).contains(
                Position { x: candidates[j].0, y: candidates[j].1, z: PLANT_LAYER },
            ) || chosen_spots(world, candidates).len() == MAX_NEW_PLANTS,
    decreases candidates.len(),
{
    lemma_chosen_spots(world, candidates);
    if candidates.len() > 0 {
        let shorter = candidates.drop_last();
        lemma_spots_come_from_candidates(world, shorter);
        lemma_chosen_spots(world, shorter);
        let before = chosen_spots(world, shorter);
        let now = chosen_spots(world, candidates);
        let (x, y) = candidates.last();
        let p = Position { x, y, z: PLANT_LAYER };
        let last = candidates.len() - 1;
        assert(candidates[last] == (x, y));
        assert forall|i: int| 0 <= i < now.len() implies exists|j: int|
            0 <= j < candidates.len() && (#[trigger] now[i]).x == candidates[j].0 && now[i].y == candidates[j].1 by {
            if i < before.len() {
                assert(now[i] == before[i]);
                let j = choose|j: int|
                    0 <= j < shorter.len() && (#[trigger] before[i]).x == shorter[j].0 && before[i].y == shorter[j].1;
                assert(candidates[j] == shorter[j]);
            } else {
                assert(now[i] == p);
            }
        }
        assert forall|j: int|
            0 <= j < candidates.len() && world.free(
                Position { x: (#[trigger] candidates[j]).0, y: candidates[j].1, z: PLANT_LAYER },
            ) implies now.contains(Position { x: candidates[j].0, y: candidates[j].1, z: PLANT_LAYER })
            || now.len() == MAX_NEW_PLANTS by {
            let q = Position { x: candidates[j].0, y: candidates[j].1, z: PLANT_LAYER };
            if j < last {
                assert(candidates[j] == shorter[j]);
                if before.contains(q) {
                    let k = choose|k: int| 0 <= k < before.len() && before[k] == q;
                    assert(now[k] == q);
                }
            } else {
                assert(q == p);
                if now.len() > before.len() {
                    assert(now[before.len() as int] == p);
                }
            }
        }
    }
}


proof fn lemma_fresh_plants_cover(world: &WorldMap, cells: Seq<Position>, ids: Seq<EntityId>, eaten: Seq<EntityId>)
    ensures
        forall|i: int, e: EntityId|
            0 <= i < cells.len() && #[trigger] world.occ(cells[i]) == Some(e) && ids.contains(e) && !eaten.contains(e)
                ==> #[trigger] met_ids(fresh_plants(world, cells, ids, eaten)).contains(e),
        forall|k: int|
            0 <= k < fresh_plants(world, cells, ids, eaten).len() ==> cells.contains(
                (#[trigger] fresh_plants(world, cells, ids, eaten)[k]).1,
            ),
    decreases cells.len(),
{
    if cells.len() > 0 {
        let who = world.occ(cells[0]);
        let rest_cells = cells.drop_first();
        let met = fresh_plants(world, cells, ids, eaten);
        if who is Some && ids.contains(who->0) && !eaten.contains(who->0) {
            let f = who->0;
            let eaten2 = eaten.push(f);
            lemma_fresh_plants_cover(world, rest_cells, ids, eaten2);
            let rest = fresh_plants(world, rest_cells, ids, eaten2);
            assert(met == seq![(f, cells[0])] + rest);
            assert(met_ids(met) =~= seq![f] + met_ids(rest));
            assert forall|i: int, e: EntityId|
                0 <= i < cells.len() && #[trigger] world.occ(cells[i]) == Some(e) && ids.contains(e) && !eaten.contains(e)
                    implies #[trigger] met_ids(met).contains(e) by {
                if e == f {
                    assert(met_ids(met)[0] == f);
                } else {
                    assert(i > 0);
                    assert(rest_cells[i - 1] == cells[i]);
                    assert(!eaten2.contains(e)) by {
                        if eaten2.contains(e) {
                            let k = choose|k: int| 0 <= k < eaten2.len() && eaten2[k] == e;
                            if k < eaten.len() {
                                assert(eaten[k] == e);
                            }
                        }
                    }
                    assert(world.occ(rest_cells[i - 1]) == Some(e));
                    assert(met_ids(rest).contains(e));
                    let k = choose|k: int| 0 <= k < met_ids(rest).len() && met_ids(rest)[k] == e;
                    assert(met_ids(met)[k + 1] == e);
                }
            }
            assert forall|k: int| 0 <= k < met.len() implies cells.contains((#[trigger] met[k]).1) by {
                if k == 0 {
                    assert(cells[0] == met[0].1);
                } else {
                    assert(met[k] == rest[k - 1]);
                    let c = choose|c: int| 0 <= c < rest_cells.len() && rest_cells[c] == rest[k - 1].1;
                    assert(cells[c + 1] == rest_cells[c]);
                }
            }
        } else {
            lemma_fresh_plants_cover(world, rest_cells, ids, eaten);
            assert(met == fresh_plants(world, rest_cells, ids, eaten));
            assert forall|i: int, e: EntityId|
                0 <= i < cells.len() && #[trigger] world.occ(cells[i]) == Some(e) && ids.contains(e) && !eaten.contains(e)
                    implies #[trigger] met_ids(met).contains(e) by {
                assert(i > 0);
                assert(rest_cells[i - 1] == cells[i]);
                assert(world.occ(rest_cells[i - 1]) == Some(e));
            }
            assert forall|k: int| 0 <= k < met.len() implies cells.contains((#[trigger] met[k]).1) by {
                let c = choose|c: int| 0 <= c < rest_cells.len() && rest_cells[c] == met[k].1;
                assert(cells[c + 1] == rest_cells[c]);
            }
        }
    }
}

/// A hungry dino bites around itself: every plant standing on one of the nine
/// cells within Chebyshev distance 1 of it (diagonals included) that it has
/// not eaten from this tick is met, and nothing else is: each plant met is a
/// listed plant, not eaten yet, standing on such a cell.
pub proof fn lemma_bites_reach_the_unit_ball(
    world: &WorldMap,
    pos: Position,
    plants: Seq<(EntityId, u32)>,
    eaten: Seq<EntityId>,
)
    ensures
        forall|q: Position, e: EntityId|
            cheb(pos, q) <= 1 && #[trigger] world.occ(q) == Some(e) && plant_ids(plants).contains(e)
                && !eaten.contains(e) ==> #[trigger] met_ids(bite_order(world, pos, plants, eaten)).contains(e),
        forall|k: int|
            0 <= k < bite_order(world, pos, plants, eaten).len() ==> {
                let m = #[trigger] bite_order(world, pos, plants, eaten)[k];
                &&& cheb(pos, m.1) <= 1
                &&& world.occ(m.1) == Some(m.0)
                &&& plant_ids(plants).contains(m.0)
                &&& !eaten.contains(m.0)
            },
{
    let cells = neighbors(pos);
    let ids = plant_ids(plants);
    let d = all_directions();
    assert(cells.len() == 9);
    assert forall|i: int| 1 <= i < 9 implies #[trigger] cells[i] == stepped(pos, d[i - 1]) by {
        assert(cells[i] == d.map_values(|dd: Direction| stepped(pos, dd))[i - 1]);
    }
    lemma_fresh_plants_cover(world, cells, ids, eaten);
    lemma_fresh_plants(world, cells, ids, eaten);
    assert forall|q: Position, e: EntityId|
        cheb(pos, q) <= 1 && #[trigger] world.occ(q) == Some(e) && ids.contains(e) && !eaten.contains(e)
            implies #[trigger] met_ids(bite_order(world, pos, plants, eaten)).contains(e) by {
        let q2 = Position { x: q.x, y: q.y, z: pos.z };
        world.lemma_layer_ignored(q, q2);
        lemma_neighborhood_is_the_unit_ball(pos, cells, q2);
        let i = choose|i: int| 0 <= i < 9 && cells[i] == q2;
        assert(world.occ(cells[i]) == Some(e));
    }
    assert forall|k: int| 0 <= k < bite_order(world, pos, plants, eaten).len() implies cheb(
        pos,
        (#[trigger] bite_order(world, pos, plants, eaten)[k]).1,
    ) <= 1 by {
        let m = bite_order(world, pos, plants, eaten)[k];
        lemma_neighborhood_is_the_unit_ball(pos, cells, m.1);
        let c = choose|c: int| 0 <= c < cells.len() && cells[c] == m.1;
        assert(0 <= c < 9 && cells[c] == m.1);
    }
}


proof fn lemma_first_holder_found(world: &WorldMap, cells: Seq<Position>, ids: Seq<EntityId>)
    ensures
        first_holder(world, cells, ids) matches Some(e) ==> ids.contains(e) && exists|i: int|
            0 <= i < cells.len() && #[trigger] world.occ(cells[i]) == Some(e),
        first_holder(world, cells, ids) is None ==> forall|i: int|
            0 <= i < cells.len() && #[trigger] world.occ(cells[i]) is Some ==> !ids.contains(world.occ(cells[i])->0),
    decreases cells.len(),
{
    if cells.len() > 0 {
        let rest = cells.drop_first();
        lemma_first_holder_found(world, rest, ids);
        if !(world.occ(cells[0]) is Some && ids.contains(world.occ(cells[0])->0)) {
            if let Some(e) = first_holder(world, rest, ids) {
                let i = choose|i: int| 0 <= i < rest.len() && #[trigger] world.occ(rest[i]) == Some(e);
                assert(cells[i + 1] == rest[i]);
            } else {
                assert forall|i: int|
                    0 <= i < cells.len() && #[trigger] world.occ(cells[i]) is Some implies !ids.contains(
                        world.occ(cells[i])->0,
                    ) by {
                    if i > 0 {
                        assert(cells[i] == rest[i - 1]);
                    }
                }
            }
        }
    }
}

/// The plant a dino is next to is a listed plant standing within Chebyshev
/// distance 1 of it; and when some listed plant stands that close, one is
/// found.
pub proof fn lemma_adjacent_plant_is_next_to_it(world: &WorldMap, pos: Position, plants: Seq<EntityId>)
    ensures
        first_holder(world, neighbors(pos), plants) matches Some(e) ==> plants.contains(e) && exists|q: Position|
            cheb(pos, q) <= 1 && #[trigger] world.occ(q) == Some(e),
        first_holder(world, neighbors(pos), plants) is None ==> forall|q: Position|
            cheb(pos, q) <= 1 && #[trigger] world.occ(q) is Some ==> !plants.contains(world.occ(q)->0),
{
    let cells = neighbors(pos);
    let d = all_directions();
    assert forall|i: int| 1 <= i < 9 implies #[trigger] cells[i] == stepped(pos, d[i - 1]) by {
        assert(cells[i] == d.map_values(|dd: Direction| stepped(pos, dd))[i - 1]);
    }
    lemma_first_holder_found(world, cells, plants);
    if let Some(e) = first_holder(world, cells, plants) {
        let i = choose|i: int| 0 <= i < cells.len() && #[trigger] world.occ(cells[i]) == Some(e);
        lemma_neighborhood_is_the_unit_ball(pos, cells, cells[i]);
    } else {
        assert forall|q: Position| cheb(pos, q) <= 1 && #[trigger] world.occ(q) is Some implies !plants.contains(
            world.occ(q)->0,
        ) by {
            let q2 = Position { x: q.x, y: q.y, z: pos.z };
            world.lemma_layer_ignored(q, q2);
            lemma_neighborhood_is_the_unit_ball(pos, cells, q2);
            let i = choose|i: int| 0 <= i < 9 && cells[i] == q2;
            assert(world.occ(cells[i]) is Some);
        }
    }
}


/// No plant next to a seeker goes unclaimed: for every seeker, the plant it
/// is next to (the first around it) has an owner.
pub proof fn lemma_every_adjacent_plant_claimed(
    world: &WorldMap,
    seekers: Seq<(EntityId, Position)>,
    plants: Seq<EntityId>,
)
    ensures
        forall|i: int|
            0 <= i < seekers.len() && (#[trigger] first_holder(world, neighbors(seekers[i].1), plants)) is Some
                ==> claimed(
                claims(world, seekers, plants),
                first_holder(world, neighbors(seekers[i].1), plants)->0,
            ),
    decreases seekers.len(),
{
    if seekers.len() > 0 {
        let shorter = seekers.drop_last();
        lemma_every_adjacent_plant_claimed(world, shorter, plants);
        let before = claims(world, shorter, plants);
        let now = claims(world, seekers, plants);
        let last = seekers.len() - 1;
        assert forall|k: int| 0 <= k < before.len() implies now[k] == #[trigger] before[k] by {
        }
        assert forall|i: int|
            0 <= i < seekers.len() && (#[trigger] first_holder(world, neighbors(seekers[i].1), plants)) is Some
                implies claimed(now, first_holder(world, neighbors(seekers[i].1), plants)->0) by {
            let p = first_holder(world, neighbors(seekers[i].1), plants)->0;
            if i < last {
                assert(seekers[i] == shorter[i]);
                assert(claimed(before, p));
                let k = choose|k: int| 0 <= k < before.len() && before[k].0 == p;
                assert(now[k] == before[k]);
            } else {
                if claimed(before, p) {
                    let k = choose|k: int| 0 <= k < before.len() && before[k].0 == p;
                    assert(now[k] == before[k]);
                } else {
                    assert(now[before.len() as int].0 == p);
                }
            }
        }
    }
}


/// A seeker eats its own plant exactly when a plant it owns stands within
/// Chebyshev distance 1 of it (its own cell or any of the eight around it).
pub proof fn lemma_eats_own_plant_nearby(world: &WorldMap, pos: Position, dino: EntityId, owners: Seq<(EntityId, EntityId)>)
    ensures
        eats_own_plant(world, pos, dino, owners) <==> exists|q: Position|
            cheb(pos, q) <= 1 && #[trigger] world.occ(q) is Some && owners.contains((world.occ(q)->0, dino)),
{
    let cells = neighbors(pos);
    let d = all_directions();
    assert forall|i: int| 1 <= i < 9 implies #[trigger] cells[i] == stepped(pos, d[i - 1]) by {
        assert(cells[i] == d.map_values(|dd: Direction| stepped(pos, dd))[i - 1]);
    }
    if eats_own_plant(world, pos, dino, owners) {
        let i = choose|i: int|
            0 <= i < 9 && #[trigger] world.occ(neighbors(pos)[i]) is Some && owners.contains(
                (world.occ(neighbors(pos)[i])->0, dino),
            );
        lemma_neighborhood_is_the_unit_ball(pos, cells, cells[i]);
    }
    if exists|q: Position| cheb(pos, q) <= 1 && #[trigger] world.occ(q) is Some && owners.contains((world.occ(q)->0, dino)) {
        let q = choose|q: Position| cheb(pos, q) <= 1 && #[trigger] world.occ(q) is Some && owners.contains((world.occ(q)->0, dino));
        let q2 = Position { x: q.x, y: q.y, z: pos.z };
        world.lemma_layer_ignored(q, q2);
        lemma_neighborhood_is_the_unit_ball(pos, cells, q2);
        let i = choose|i: int| 0 <= i < 9 && cells[i] == q2;
        assert(world.occ(neighbors(pos)[i]) is Some);
    }
}

} // verus!
