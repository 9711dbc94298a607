use std::cell::{Cell, RefCell};

use jurassic_sandbox::simulation::movement::{
    chebyshev, find_closest_tile, find_nearest_on_grid, neighborhood, step, try_move, visit_chebyshev_rings,
    MAX_SEEK_RADIUS,
};
use jurassic_sandbox::simulation::Direction;
use jurassic_sandbox::world::{Board, EntityId, Position, WorldMap};

fn at(x: usize, y: usize) -> Position {
    Position { x, y, z: 0 }
}

#[test]
fn step_moves_one_cell_and_saturates() {
    assert_eq!(step(at(1, 1), Direction::SouthEast), at(2, 2));
    assert_eq!(step(at(1, 1), Direction::NorthWest), at(0, 0));
    assert_eq!(step(at(0, 0), Direction::North), at(0, 0));
    assert_eq!(step(at(0, 3), Direction::West), at(0, 3));
    assert_eq!(step(at(usize::MAX, 3), Direction::East), at(usize::MAX, 3));
    assert_eq!(step(Position { x: 4, y: 4, z: 2 }, Direction::NorthEast), Position { x: 5, y: 3, z: 2 });
}

#[test]
fn chebyshev_counts_a_diagonal_as_one() {
    assert_eq!(chebyshev(&at(0, 0), &at(3, 1)), 3);
    assert_eq!(chebyshev(&at(5, 5), &at(4, 6)), 1);
    assert_eq!(chebyshev(&at(2, 7), &at(2, 7)), 0);
}

#[test]
fn chebyshev_is_symmetric() {
    assert_eq!(chebyshev(&at(9, 1), &at(3, 4)), chebyshev(&at(3, 4), &at(9, 1)));
}

#[test]
fn neighborhood_lists_self_then_all_directions() {
    let cells = neighborhood(at(1, 1));
    assert_eq!(
        cells,
        [at(1, 1), at(1, 0), at(1, 2), at(2, 1), at(0, 1), at(2, 0), at(0, 0), at(2, 2), at(0, 2)]
    );
}

#[test]
fn neighborhood_is_the_unit_ball() {
    let center = at(3, 3);
    let cells = neighborhood(center);
    for y in 2..=4 {
        for x in 2..=4 {
            assert!(cells.contains(&at(x, y)));
        }
    }
    for cell in cells {
        assert!(chebyshev(&center, &cell) <= 1);
    }
}

#[test]
fn rings_are_visited_nearest_first() {
    let seen = RefCell::new(Vec::new());
    let stop = visit_chebyshev_rings(at(1, 1), 1, 3, 3, |p| {
        seen.borrow_mut().push((p.x, p.y));
        false
    });
    assert_eq!(stop, None);
    assert_eq!(
        seen.into_inner(),
        vec![(1, 1), (0, 0), (0, 2), (1, 0), (1, 2), (2, 0), (2, 2), (0, 1), (2, 1)]
    );
}

#[test]
fn rings_skip_off_board_cells() {
    let count = Cell::new(0);
    visit_chebyshev_rings(at(0, 0), 2, 2, 2, |_| {
        count.set(count.get() + 1);
        false
    });
    assert_eq!(count.get(), 4);
}

#[test]
fn ring_visit_stops_where_asked() {
    let count = Cell::new(0);
    let stop = visit_chebyshev_rings(Position { x: 2, y: 2, z: 4 }, 3, 10, 10, |p| {
        count.set(count.get() + 1);
        p.x == 4 && p.y == 0
    });
    assert_eq!(stop, Some(Position { x: 4, y: 0, z: 4 }));
    assert_eq!(count.get(), 1 + 8 + 9);
}

#[test]
fn nearest_on_grid_prefers_the_closer_ring() {
    let mut world = WorldMap::new(Board { width: 6, height: 6 });
    world.set_occupied(EntityId(1), at(4, 4));
    world.set_occupied(EntityId(2), at(2, 2));
    let found = find_nearest_on_grid(&world, at(0, 0), MAX_SEEK_RADIUS, |_, _| true);
    assert_eq!(found, Some((EntityId(2), at(2, 2))));
}

#[test]
fn nearest_on_grid_breaks_ties_by_scan_order() {
    let mut world = WorldMap::new(Board { width: 6, height: 6 });
    world.set_occupied(EntityId(1), at(3, 1));
    world.set_occupied(EntityId(2), at(1, 3));
    let found = find_nearest_on_grid(&world, at(2, 2), 1, |_, _| true);
    assert_eq!(found, Some((EntityId(2), at(1, 3))));
}

#[test]
fn nearest_on_grid_respects_predicate_and_radius() {
    let mut world = WorldMap::new(Board { width: 40, height: 40 });
    world.set_occupied(EntityId(1), at(1, 1));
    world.set_occupied(EntityId(2), at(30, 30));
    let pred = |e: EntityId, _: Position| e == EntityId(2);
    assert_eq!(find_nearest_on_grid(&world, at(0, 0), MAX_SEEK_RADIUS, pred), None);
    assert_eq!(find_nearest_on_grid(&world, at(0, 0), 30, pred), Some((EntityId(2), at(30, 30))));
}

#[test]
fn closest_tile_prefers_the_diagonal() {
    let world = WorldMap::new(Board { width: 10, height: 10 });
    assert_eq!(find_closest_tile(&world, &at(2, 2), &at(5, 5)), Direction::SouthEast);
    assert_eq!(find_closest_tile(&world, &at(2, 2), &at(0, 0)), Direction::NorthWest);
    assert_eq!(find_closest_tile(&world, &at(2, 2), &at(2, 9)), Direction::South);
    assert_eq!(find_closest_tile(&world, &at(2, 2), &at(0, 2)), Direction::West);
}

#[test]
fn closest_tile_falls_back_to_cardinals() {
    let mut world = WorldMap::new(Board { width: 10, height: 10 });
    world.set_occupied(EntityId(1), at(3, 3));
    assert_eq!(find_closest_tile(&world, &at(2, 2), &at(5, 5)), Direction::East);
    world.set_occupied(EntityId(2), at(3, 2));
    assert_eq!(find_closest_tile(&world, &at(2, 2), &at(5, 5)), Direction::South);
    world.set_occupied(EntityId(3), at(2, 3));
    assert_eq!(find_closest_tile(&world, &at(2, 2), &at(5, 5)), Direction::SouthEast);
}

#[test]
fn closest_tile_to_itself_is_north() {
    let world = WorldMap::new(Board { width: 3, height: 3 });
    assert_eq!(find_closest_tile(&world, &at(1, 1), &at(1, 1)), Direction::North);
}

#[test]
fn try_move_steps_when_granted() {
    let mut world = WorldMap::new(Board { width: 4, height: 4 });
    let dino = EntityId(5);
    let mut pos = at(1, 1);
    world.set_occupied(dino, pos);
    assert!(try_move(&mut world, dino, &mut pos, Direction::East, || true));
    assert_eq!(pos, at(2, 1));
    assert_eq!(world.entity_at(at(2, 1)), Some(dino));
    assert_eq!(world.entity_at(at(1, 1)), None);
}

#[test]
fn try_move_stays_when_not_granted() {
    let mut world = WorldMap::new(Board { width: 4, height: 4 });
    let dino = EntityId(5);
    let mut pos = at(1, 1);
    world.set_occupied(dino, pos);
    assert!(!try_move(&mut world, dino, &mut pos, Direction::East, || false));
    assert_eq!(pos, at(1, 1));
    assert_eq!(world.entity_at(at(1, 1)), Some(dino));
}

#[test]
fn try_move_does_not_ask_when_blocked() {
    let mut world = WorldMap::new(Board { width: 4, height: 4 });
    let dino = EntityId(5);
    let mut pos = at(0, 0);
    world.set_occupied(dino, pos);
    world.set_occupied(EntityId(6), at(1, 0));
    let asked = Cell::new(false);
    assert!(!try_move(&mut world, dino, &mut pos, Direction::East, || {
        asked.set(true);
        true
    }));
    assert!(!try_move(&mut world, dino, &mut pos, Direction::North, || {
        asked.set(true);
        true
    }));
    assert!(!asked.get());
    assert_eq!(pos, at(0, 0));
}
