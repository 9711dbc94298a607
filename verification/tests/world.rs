use jurassic_sandbox::world::{Board, EntityId, Occupancy, Position, WorldMap};

fn at(x: usize, y: usize) -> Position {
    Position { x, y, z: 0 }
}

#[test]
fn board_is_inside() {
    let board = Board { width: 4, height: 3 };
    assert!(board.is_inside(at(3, 2)));
    assert!(!board.is_inside(at(4, 0)));
    assert!(!board.is_inside(at(0, 3)));
}

#[test]
fn new_occupancy_is_empty() {
    let grid = Occupancy::new(3, 2);
    assert_eq!(grid.cells.len(), 6);
    for y in 0..2 {
        for x in 0..3 {
            assert_eq!(grid.get(at(x, y)), None);
            assert!(!grid.is_occupied(at(x, y)));
        }
    }
}

#[test]
fn off_board_counts_as_occupied() {
    let grid = Occupancy::new(3, 2);
    assert!(grid.is_occupied(at(3, 0)));
    assert!(grid.is_occupied(at(0, 2)));
}

#[test]
fn occupancy_index_is_row_major() {
    let grid = Occupancy::new(3, 2);
    assert_eq!(grid.index(at(0, 0)), 0);
    assert_eq!(grid.index(at(2, 0)), 2);
    assert_eq!(grid.index(at(2, 1)), 5);
}

#[test]
fn read_after_write_and_frame() {
    let mut grid = Occupancy::new(3, 3);
    grid.set(at(1, 2), Some(EntityId(7)));
    assert_eq!(grid.get(at(1, 2)), Some(EntityId(7)));
    assert_eq!(grid.get(Position { x: 1, y: 2, z: 5 }), Some(EntityId(7)));
    assert_eq!(grid.get(at(2, 1)), None);
    grid.set(at(1, 2), Some(EntityId(8)));
    assert_eq!(grid.get(at(1, 2)), Some(EntityId(8)));
    grid.set(at(1, 2), None);
    assert!(!grid.is_occupied(at(1, 2)));
}

#[test]
fn write_off_board_is_ignored() {
    let mut grid = Occupancy::new(2, 2);
    grid.set(at(5, 5), Some(EntityId(1)));
    assert!(grid.cells.iter().all(|c| c.is_none()));
}

#[test]
fn world_map_move_entity() {
    let mut world = WorldMap::new(Board { width: 5, height: 5 });
    assert_eq!(world.dimensions(), (5, 5));
    world.set_occupied(EntityId(1), at(1, 1));
    assert!(!world.is_free(at(1, 1)));
    world.move_entity(EntityId(1), at(1, 1), at(2, 2));
    assert_eq!(world.entity_at(at(2, 2)), Some(EntityId(1)));
    assert_eq!(world.entity_at(at(1, 1)), None);
    assert!(world.is_free(at(1, 1)));
    assert!(!world.is_free(at(2, 2)));
}

#[test]
fn world_map_off_board() {
    let world = WorldMap::new(Board { width: 5, height: 5 });
    assert!(!world.is_free(at(5, 0)));
    assert_eq!(world.entity_at(at(0, 9)), None);
}

#[test]
fn move_and_back_restores_the_map() {
    let mut world = WorldMap::new(Board { width: 4, height: 4 });
    world.set_occupied(EntityId(3), at(0, 0));
    world.set_occupied(EntityId(4), at(3, 3));
    world.move_entity(EntityId(3), at(0, 0), at(1, 0));
    world.move_entity(EntityId(3), at(1, 0), at(0, 0));
    assert_eq!(world.entity_at(at(0, 0)), Some(EntityId(3)));
    assert_eq!(world.entity_at(at(1, 0)), None);
    assert_eq!(world.entity_at(at(3, 3)), Some(EntityId(4)));
}

#[test]
fn set_free_empties_a_cell() {
    let mut world = WorldMap::new(Board { width: 2, height: 2 });
    world.set_occupied(EntityId(9), at(1, 0));
    world.set_free(at(1, 0));
    assert!(world.is_free(at(1, 0)));
}

#[test]
fn board_returns_its_shape() {
    let world = WorldMap::new(Board { width: 7, height: 2 });
    assert_eq!(world.board(), Board { width: 7, height: 2 });
}
