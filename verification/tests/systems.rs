use std::cell::Cell;

use jurassic_sandbox::simulation::components::{Direction, Egg};
use jurassic_sandbox::simulation::systems::ai::{can_lay, food_in_reach};
use jurassic_sandbox::simulation::systems::food::{
    adjacent_plant, eating_own_plant, food_target, herbivore_bites, plant_owners, plant_spots, reserved_plants,
    seek_food_turn, FoodSeek, MAX_NEW_PLANTS,
};
use jurassic_sandbox::simulation::systems::lifecycle::{egg_spot, lay_egg_spot, wander, wander_turn, EggStep};
use jurassic_sandbox::simulation::systems::reproduction::{reproduction_turn, Mating};
use jurassic_sandbox::world::{Board, EntityId, Position, WorldMap};

fn at(x: usize, y: usize) -> Position {
    Position { x, y, z: 0 }
}

fn world(width: usize, height: usize) -> WorldMap {
    WorldMap::new(Board { width, height })
}

#[test]
fn adjacent_plant_is_the_first_neighbour_holding_one() {
    let mut w = world(5, 5);
    w.set_occupied(EntityId(10), at(2, 3));
    w.set_occupied(EntityId(11), at(2, 1));
    w.set_occupied(EntityId(99), at(3, 2));
    let plants = vec![EntityId(10), EntityId(11)];
    assert_eq!(adjacent_plant(&w, at(2, 2), &plants), Some(EntityId(11)));
    assert_eq!(adjacent_plant(&w, at(0, 4), &plants), None);
}

#[test]
fn first_adjacent_seeker_owns_the_plant() {
    let mut w = world(6, 6);
    w.set_occupied(EntityId(100), at(2, 2));
    let plants = vec![EntityId(100)];
    let seekers = vec![(EntityId(1), at(3, 3)), (EntityId(2), at(1, 1)), (EntityId(3), at(5, 5))];
    let owners = plant_owners(&w, &seekers, &plants);
    assert_eq!(owners, vec![(EntityId(100), EntityId(1))]);
    assert_eq!(reserved_plants(&owners), vec![EntityId(100)]);
    assert!(eating_own_plant(&w, at(3, 3), EntityId(1), &owners));
    assert!(!eating_own_plant(&w, at(1, 1), EntityId(2), &owners));
}

#[test]
fn food_target_skips_reserved_plants() {
    let mut w = world(10, 10);
    w.set_occupied(EntityId(100), at(1, 0));
    w.set_occupied(EntityId(101), at(5, 5));
    let plants = vec![EntityId(100), EntityId(101)];
    assert_eq!(food_target(&w, at(0, 0), &plants, &vec![]), Some((EntityId(100), at(1, 0))));
    assert_eq!(food_target(&w, at(0, 0), &plants, &vec![EntityId(100)]), Some((EntityId(101), at(5, 5))));
    assert_eq!(
        food_target(&w, at(0, 0), &plants, &vec![EntityId(100), EntityId(101)]),
        Some((EntityId(100), at(1, 0)))
    );
    assert_eq!(food_target(&w, at(0, 0), &vec![], &vec![]), None);
}

#[test]
fn seek_food_turn_outcomes() {
    let mut w = world(10, 10);
    let plant = EntityId(100);
    w.set_occupied(plant, at(5, 5));
    let dino = EntityId(1);
    let mut pos = at(1, 1);
    w.set_occupied(dino, pos);
    let plants = vec![plant];
    let mut reserved = Vec::new();
    match seek_food_turn(&mut w, dino, &mut pos, &plants, &vec![], &mut reserved, || true) {
        FoodSeek::Heading { plant: p, target, dir, moved } => {
            assert_eq!(p, plant);
            assert_eq!(target, at(5, 5));
            assert_eq!(dir, Direction::SouthEast);
            assert!(moved);
        }
        other => panic!("unexpected {:?}", other),
    }
    assert_eq!(pos, at(2, 2));
    assert_eq!(reserved, vec![plant]);

    let owners = vec![(plant, dino)];
    let mut near = at(4, 4);
    let mut w2 = world(10, 10);
    w2.set_occupied(plant, at(5, 5));
    w2.set_occupied(dino, near);
    assert!(matches!(
        seek_food_turn(&mut w2, dino, &mut near, &plants, &owners, &mut reserved, || true),
        FoodSeek::Eating
    ));
    let mut far = at(0, 0);
    let empty = world(40, 40);
    let mut w3 = empty;
    assert!(matches!(
        seek_food_turn(&mut w3, dino, &mut far, &plants, &vec![], &mut reserved, || true),
        FoodSeek::NoFood
    ));
}

#[test]
fn bites_lower_health_until_a_stump_is_finished() {
    let mut w = world(5, 5);
    let (a, b, c) = (EntityId(1), EntityId(2), EntityId(3));
    w.set_occupied(a, at(2, 1));
    w.set_occupied(b, at(2, 3));
    w.set_occupied(c, at(3, 2));
    let mut plants = vec![(a, 2), (b, 0), (c, 5)];
    let mut eaten = Vec::new();
    let finished = herbivore_bites(&mut w, at(2, 2), &mut plants, &mut eaten);
    assert_eq!(finished, Some((b, at(2, 3))));
    assert_eq!(plants, vec![(a, 1), (b, 0), (c, 5)]);
    assert_eq!(eaten, vec![a, b]);
    assert!(w.is_free(at(2, 3)));
    assert_eq!(w.entity_at(at(2, 1)), Some(a));
}

#[test]
fn bites_skip_plants_already_eaten() {
    let mut w = world(5, 5);
    let (a, c) = (EntityId(1), EntityId(3));
    w.set_occupied(a, at(2, 1));
    w.set_occupied(c, at(3, 2));
    let mut plants = vec![(a, 0), (c, 5)];
    let mut eaten = vec![a];
    assert_eq!(herbivore_bites(&mut w, at(2, 2), &mut plants, &mut eaten), None);
    assert_eq!(plants, vec![(a, 0), (c, 4)]);
    assert_eq!(eaten, vec![a, c]);
    assert_eq!(w.entity_at(at(2, 1)), Some(a));
}

#[test]
fn two_dinos_never_bite_one_plant_twice_in_a_tick() {
    let mut w = world(5, 5);
    let plant = EntityId(7);
    w.set_occupied(plant, at(2, 2));
    let mut plants = vec![(plant, 3)];
    let mut eaten = Vec::new();
    assert_eq!(herbivore_bites(&mut w, at(1, 2), &mut plants, &mut eaten), None);
    assert_eq!(herbivore_bites(&mut w, at(3, 2), &mut plants, &mut eaten), None);
    assert_eq!(plants, vec![(plant, 2)]);
    assert_eq!(eaten, vec![plant]);

    let mut stump = vec![(plant, 0)];
    let mut eaten = Vec::new();
    assert_eq!(herbivore_bites(&mut w, at(1, 2), &mut stump, &mut eaten), Some((plant, at(2, 2))));
    assert_eq!(herbivore_bites(&mut w, at(3, 2), &mut stump, &mut eaten), None);
    assert_eq!(eaten, vec![plant]);
}

#[test]
fn each_plant_gets_one_owner() {
    let mut w = world(6, 6);
    w.set_occupied(EntityId(100), at(2, 2));
    w.set_occupied(EntityId(101), at(4, 4));
    let plants = vec![EntityId(100), EntityId(101)];
    let seekers = vec![(EntityId(1), at(3, 3)), (EntityId(2), at(2, 3)), (EntityId(3), at(5, 5))];
    let owners = plant_owners(&w, &seekers, &plants);
    assert_eq!(owners, vec![(EntityId(100), EntityId(1)), (EntityId(101), EntityId(3))]);
}

#[test]
fn eggs_incubate_then_hatch_on_a_free_cell() {
    let mut w = world(3, 3);
    let mut egg = Egg { age: 89 };
    assert_eq!(egg.incubate(&w, at(1, 1)), EggStep::Incubating);
    assert_eq!(egg.age, 90);
    w.set_occupied(EntityId(1), at(1, 1));
    assert_eq!(egg.incubate(&w, at(1, 1)), EggStep::Waiting);
    w.set_free(at(1, 1));
    assert_eq!(egg.incubate(&w, at(1, 1)), EggStep::Hatching);
    assert_eq!(egg.age, 90);
}

#[test]
fn egg_spot_takes_the_first_free_direction() {
    let mut w = world(3, 3);
    w.set_occupied(EntityId(1), at(1, 0));
    let order = Direction::ALL;
    assert_eq!(egg_spot(&w, at(1, 1), &order), Some(at(1, 2)));
}

#[test]
fn no_egg_spot_when_surrounded() {
    let mut w = world(3, 3);
    let mut id = 0;
    for y in 0..3 {
        for x in 0..3 {
            id += 1;
            w.set_occupied(EntityId(id), at(x, y));
        }
    }
    assert_eq!(lay_egg_spot(&w, at(1, 1)), None);
    assert!(!can_lay(&w, at(1, 1)));
    w.set_free(at(2, 2));
    assert_eq!(lay_egg_spot(&w, at(1, 1)), Some(at(2, 2)));
    assert!(can_lay(&w, at(1, 1)));
}

#[test]
fn wander_turn_takes_the_first_free_direction() {
    let mut w = world(3, 3);
    let dino = EntityId(1);
    let mut pos = at(0, 0);
    w.set_occupied(dino, pos);
    let order = Direction::ALL;
    assert_eq!(wander_turn(&mut w, dino, &mut pos, &order, || true), Some((Direction::South, true)));
    assert_eq!(pos, at(0, 1));
}

#[test]
fn wander_stays_when_boxed_in() {
    let mut w = world(1, 1);
    let dino = EntityId(1);
    let mut pos = at(0, 0);
    w.set_occupied(dino, pos);
    let asked = Cell::new(false);
    assert_eq!(
        wander(&mut w, dino, &mut pos, || {
            asked.set(true);
            true
        }),
        None
    );
    assert!(!asked.get());
}

#[test]
fn food_in_reach_needs_a_herbivore_and_a_plant() {
    let mut w = world(30, 30);
    w.set_occupied(EntityId(100), at(20, 20));
    let plants = vec![EntityId(100)];
    assert!(food_in_reach(&w, at(0, 0), true, &plants));
    assert!(!food_in_reach(&w, at(0, 0), false, &plants));
    assert!(!food_in_reach(&w, at(0, 0), true, &vec![]));
}

#[test]
fn reproduction_turn_outcomes() {
    let mut w = world(10, 10);
    let (female, male) = (EntityId(1), EntityId(2));
    let mut fpos = at(1, 1);
    let mut mpos = at(2, 2);
    w.set_occupied(female, fpos);
    w.set_occupied(male, mpos);
    assert!(matches!(
        reproduction_turn(&mut w, female, &mut fpos, false, &vec![male], || true),
        Mating::Mate { father } if father == male
    ));
    assert!(matches!(
        reproduction_turn(&mut w, male, &mut mpos, true, &vec![female], || true),
        Mating::Courting { partner } if partner == female
    ));
    assert!(matches!(
        reproduction_turn(&mut w, male, &mut mpos, true, &vec![], || true),
        Mating::NoPartner
    ));
    let mut w2 = world(10, 10);
    let mut far = at(6, 6);
    w2.set_occupied(female, at(1, 1));
    w2.set_occupied(male, far);
    match reproduction_turn(&mut w2, male, &mut far, true, &vec![female], || true) {
        Mating::Approach { partner, target, dir, moved } => {
            assert_eq!(partner, female);
            assert_eq!(target, at(1, 1));
            assert_eq!(dir, Direction::NorthWest);
            assert!(moved);
        }
        other => panic!("unexpected {:?}", other),
    }
    assert_eq!(far, at(5, 5));
}

#[test]
fn plant_spots_cap_and_skip_taken_cells() {
    let mut w = world(10, 10);
    w.set_occupied(EntityId(1), at(0, 0));
    let candidates = vec![(0, 0), (1, 1), (1, 1), (2, 2), (3, 3), (4, 4), (5, 5), (6, 6), (7, 7), (20, 1)];
    let spots = plant_spots(&w, &candidates);
    assert_eq!(spots.len(), MAX_NEW_PLANTS);
    assert_eq!(spots[0], Position { x: 1, y: 1, z: 2 });
    assert_eq!(spots[5], Position { x: 6, y: 6, z: 2 });
}
