use jurassic_sandbox::board::Occupancy;
use jurassic_sandbox::creatures::systems::{bite_plants, egg_site, find_closest_food, find_closest_tile, step_towards};
use jurassic_sandbox::creatures::{Decay, Direction, Egg, Health, Hungry};
use jurassic_sandbox::world::{Board, EntityId, Position};

fn at(x: usize, y: usize) -> Position {
    Position { x, y, z: 0 }
}

#[test]
fn hunger_grows_and_saturates() {
    let mut hungry = Hungry { hunger: 5, starvation_threshold: 6 };
    hungry.increase(1);
    assert_eq!(hungry.hunger, 6);
    assert!(!hungry.is_starving());
    hungry.increase(1);
    assert!(hungry.is_starving());
    hungry.increase(u32::MAX);
    assert_eq!(hungry.hunger, u32::MAX);
    assert_eq!(hungry.starvation_threshold, 6);
}

#[test]
fn health_decreases_to_zero() {
    let mut health = Health(3);
    health.decrease(1);
    assert_eq!(health.0, 2);
    assert!(!health.is_dead());
    health.decrease(10);
    assert_eq!(health.0, 0);
    assert!(health.is_dead());
}

#[test]
fn decay_rots_until_the_threshold() {
    let mut decay = Decay { degradation_threshold: 2, degradation: 0 };
    decay.increase();
    assert!(!decay.is_gone());
    decay.increase();
    assert!(decay.is_gone());
    let mut full = Decay { degradation_threshold: 1, degradation: u32::MAX };
    full.increase();
    assert_eq!(full.degradation, u32::MAX);
}

#[test]
fn legacy_eggs_hatch_after_ninety_ticks() {
    let mut egg = Egg { age: 89 };
    assert!(!egg.incubate());
    assert_eq!(egg.age, 90);
    assert!(egg.incubate());
    assert_eq!(egg.age, 90);
}

#[test]
fn closest_food_is_the_first_nearest_by_manhattan() {
    let plants = vec![(EntityId(1), at(4, 4)), (EntityId(2), at(1, 2)), (EntityId(3), at(2, 1))];
    assert_eq!(find_closest_food(&at(0, 0), &plants), Some((EntityId(2), at(1, 2))));
    assert_eq!(find_closest_food(&at(0, 0), &vec![]), None);
}

#[test]
fn four_way_tile_prefers_the_longer_axis() {
    let board = Board { width: 10, height: 10 };
    let mut grid = Occupancy::new(10, 10);
    assert_eq!(find_closest_tile(&at(2, 2), &at(8, 4), &board, &grid), Direction::East);
    assert_eq!(find_closest_tile(&at(2, 2), &at(3, 8), &board, &grid), Direction::South);
    assert_eq!(find_closest_tile(&at(2, 2), &at(2, 2), &board, &grid), Direction::North);
    grid.set(at(3, 2), Some(EntityId(1)));
    assert_eq!(find_closest_tile(&at(2, 2), &at(8, 4), &board, &grid), Direction::South);
    assert_eq!(find_closest_tile(&at(2, 2), &at(8, 2), &board, &grid), Direction::East);
}

#[test]
fn egg_site_tries_north_south_east_west() {
    let board = Board { width: 3, height: 3 };
    let mut grid = Occupancy::new(3, 3);
    assert_eq!(egg_site(&board, &grid, at(1, 1)), Some(at(1, 0)));
    grid.set(at(1, 0), Some(EntityId(1)));
    grid.set(at(1, 2), Some(EntityId(2)));
    assert_eq!(egg_site(&board, &grid, at(1, 1)), Some(at(2, 1)));
    assert_eq!(egg_site(&board, &grid, at(0, 0)), Some(at(0, 0)));
    grid.set(at(0, 0), Some(EntityId(3)));
    assert_eq!(egg_site(&board, &grid, at(0, 0)), Some(at(0, 1)));
}

#[test]
fn legacy_bites_finish_the_first_stump() {
    let mut grid = Occupancy::new(5, 5);
    grid.set(at(2, 1), Some(EntityId(1)));
    grid.set(at(3, 2), Some(EntityId(2)));
    let mut plants = vec![
        (EntityId(1), at(2, 1), 3),
        (EntityId(3), at(0, 0), 0),
        (EntityId(2), at(3, 2), 0),
        (EntityId(4), at(2, 3), 5),
    ];
    let mut eaten = Vec::new();
    assert_eq!(bite_plants(&mut grid, at(2, 2), &mut plants, &mut eaten), Some(2));
    assert_eq!(plants[0].2, 2);
    assert_eq!(plants[1].2, 0);
    assert_eq!(plants[3].2, 5);
    assert_eq!(eaten, vec![EntityId(2)]);
    assert!(!grid.is_occupied(at(3, 2)));
    assert!(grid.is_occupied(at(2, 1)));
}

#[test]
fn wanderer_steps_towards_its_target() {
    let board = Board { width: 5, height: 5 };
    let mut grid = Occupancy::new(5, 5);
    let mut pos = at(0, 0);
    grid.set(pos, Some(EntityId(7)));
    assert!(step_towards(&board, &mut grid, EntityId(7), &mut pos, &at(4, 1)));
    assert_eq!(pos, at(1, 0));
    assert_eq!(grid.get(at(1, 0)), Some(EntityId(7)));
    assert_eq!(grid.get(at(0, 0)), None);
    let mut stuck = at(1, 0);
    assert!(!step_towards(&board, &mut grid, EntityId(7), &mut stuck, &at(1, 0)));
}

#[test]
fn legacy_occupancy_wraps_rows() {
    let grid = Occupancy::new(3, 3);
    assert_eq!(grid.index(at(4, 0)), 4);
    assert_eq!(grid.index(at(1, 1)), 4);
}
