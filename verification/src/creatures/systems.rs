use vstd::prelude::*;

use crate::board::Occupancy;
use crate::world::{Board, EntityId, Position};
use crate::world::occupancy::lemma_flat_index;
use crate::simulation::movement::{clamp_usize, dist};

use super::components::{Direction, Egg};

verus! {

/// The cell one step away in direction `dir`, saturating at the ends of
/// `usize`.
pub open spec fn stepped4(pos: Position, dir: Direction) -> Position {
    match dir {
        Direction::North => Position { y: clamp_usize(pos.y - 1) as usize, ..pos },
        Direction::South => Position { y: clamp_usize(pos.y + 1) as usize, ..pos },
        Direction::East => Position { x: clamp_usize(pos.x + 1) as usize, ..pos },
        Direction::West => Position { x: clamp_usize(pos.x - 1) as usize, ..pos },
    }
}

/// The grid matches the board's shape.
pub open spec fn fits(board: &Board, occupancy: &Occupancy) -> bool {
    &&& occupancy.wf()
    &&& occupancy.grid_width() == board.width
    &&& occupancy.grid_height() == board.height
}

/// `pos` is on the board and nobody stands there.
pub open spec fn free4(board: &Board, occupancy: &Occupancy, pos: Position) -> bool {
    board.contains(pos) && occupancy.contents()[occupancy.flat_index(pos)] is None
}

proof fn lemma_on_board_addressable(board: &Board, occupancy: &Occupancy, pos: Position)
    requires
        fits(board, occupancy),
        board.contains(pos),
    ensures
        occupancy.addressable(pos),
        occupancy.flat_index(pos) >= 0,
{
    lemma_flat_index(board.width as int, board.height as int, pos.x as int, pos.y as int, pos.x as int, pos.y as int);
}

fn step(pos: Position, dir: Direction) -> (next: Position)
    ensures
        next == stepped4(pos, dir),
{
    let mut next = pos;
    match dir {
        Direction::North => next.y = next.y.saturating_sub(1),
        Direction::South => next.y = next.y.saturating_add(1),
        Direction::East => next.x = next.x.saturating_add(1),
        Direction::West => next.x = next.x.saturating_sub(1),
    }
    next
}

fn neighbor_free(pos: &Position, dir: Direction, board: &Board, occupancy: &Occupancy) -> (free: bool)
    requires
        fits(board, occupancy),
    ensures
        free == free4(board, occupancy, stepped4(*pos, dir)),
{
    let next = step(*pos, dir);
    if board.is_inside(next) {
        proof {
            lemma_on_board_addressable(board, occupancy, next);
        }
        !occupancy.is_occupied(next)
    } else {
        false
    }
}

/// Manhattan distance between the cells of two positions.
pub open spec fn manhattan(a: Position, b: Position) -> int {
    dist(a.x as int, b.x as int) + dist(a.y as int, b.y as int)
}

/// The preferred direction towards `to`: along the axis with the larger gap,
/// else vertically (`North` when `to` is the current cell).
pub open spec fn primary_dir(from: Position, to: Position) -> Direction {
    if dist(from.x as int, to.x as int) > dist(from.y as int, to.y as int) {
        if to.x > from.x {
            Direction::East
        } else {
            Direction::West
        }
    } else if to.y > from.y {
        Direction::South
    } else {
        Direction::North
    }
}

/// The fallback direction: along the other axis, if it has a gap.
pub open spec fn secondary_dir(from: Position, to: Position) -> Direction {
    if dist(from.x as int, to.x as int) > dist(from.y as int, to.y as int) {
        if to.y > from.y {
            Direction::South
        } else if to.y < from.y {
            Direction::North
        } else {
            primary_dir(from, to)
        }
    } else if to.x > from.x {
        Direction::East
    } else if to.x < from.x {
        Direction::West
    } else {
        primary_dir(from, to)
    }
}

/// The primary direction if its cell is free, else the secondary one if it
/// differs and its cell is free, else the primary one anyway.
pub open spec fn four_way_tile(board: &Board, occupancy: &Occupancy, from: Position, to: Position) -> Direction {
    let p = primary_dir(from, to);
    let s = secondary_dir(from, to);
    if free4(board, occupancy, stepped4(from, p)) {
        p
    } else if s != p && free4(board, occupancy, stepped4(from, s)) {
        s
    } else {
        p
    }
}

/// Picks the direction of a four-way step towards `target_pos`; the caller
/// still checks the cell before moving.
pub fn find_closest_tile(
    wander_pos: &Position,
    target_pos: &Position,
    board: &Board,
    occupancy: &Occupancy,
) -> (dir: Direction)
    requires
        fits(board, occupancy),
    ensures
        dir == four_way_tile(board, occupancy, *wander_pos, *target_pos),
{
    let adx = if target_pos.x >= wander_pos.x {
        target_pos.x - wander_pos.x
    } else {
        wander_pos.x - target_pos.x
    };
    let ady = if target_pos.y >= wander_pos.y {
        target_pos.y - wander_pos.y
    } else {
        wander_pos.y - target_pos.y
    };
    let primary = if adx > ady {
        if target_pos.x > wander_pos.x {
            Direction::East
        } else {
            Direction::West
        }
    } else if target_pos.y > wander_pos.y {
        Direction::South
    } else {
        Direction::North
    };
    if neighbor_free(wander_pos, primary, board, occupancy) {
        return primary;
    }
    let secondary = if adx > ady {
        if target_pos.y > wander_pos.y {
            Direction::South
        } else if target_pos.y < wander_pos.y {
            Direction::North
        } else {
            primary
        }
    } else if target_pos.x > wander_pos.x {
        Direction::East
    } else if target_pos.x < wander_pos.x {
        Direction::West
    } else {
        primary
    };
    if secondary != primary && neighbor_free(wander_pos, secondary, board, occupancy) {
        secondary
    } else {
        primary
    }
}

/// `plants[i]` is the plant nearest to `from` (Manhattan distance), the
/// first one among equals.
pub open spec fn is_closest_food(from: Position, plants: Seq<(EntityId, Position)>, i: int) -> bool {
    &&& 0 <= i < plants.len()
    &&& forall|j: int| 0 <= j < plants.len() ==> manhattan(from, plants[i].1) <= manhattan(from, #[trigger] plants[j].1)
    &&& forall|j: int| 0 <= j < i ==> manhattan(from, plants[i].1) < manhattan(from, #[trigger] plants[j].1)
}

/// The plant nearest to the dinosaur, by Manhattan distance on the grid.
pub fn find_closest_food(dino_pos: &Position, plants: &Vec<(EntityId, Position)>) -> (closest: Option<
    (EntityId, Position),
>)
    requires
        forall|j: int| 0 <= j < plants@.len() ==> manhattan(*dino_pos, #[trigger] plants@[j].1) <= usize::MAX,
    ensures
        closest is None <==> plants@.len() == 0,
        closest matches Some(found) ==> exists|i: int| is_closest_food(*dino_pos, plants@, i) && plants@[i] == found,
{
    if plants.len() == 0 {
        return None;
    }
    let mut best: usize = 0;
    let mut best_d: usize = manhattan_exec(dino_pos, &plants[0].1);
    let mut k: usize = 1;
    while k < plants.len()
        invariant
            forall|j: int| 0 <= j < plants@.len() ==> manhattan(*dino_pos, #[trigger] plants@[j].1) <= usize::MAX,
            1 <= k <= plants@.len(),
            best < k,
            best_d == manhattan(*dino_pos, plants@[best as int].1),
            forall|j: int| 0 <= j < k ==> best_d <= manhattan(*dino_pos, #[trigger] plants@[j].1),
            forall|j: int| 0 <= j < best ==> best_d < manhattan(*dino_pos, #[trigger] plants@[j].1),
        decreases plants@.len() - k,
    {
        let d = manhattan_exec(dino_pos, &plants[k].1);
        if d < best_d {
            best = k;
            best_d = d;
        }
        k = k + 1;
    }
    assert(is_closest_food(*dino_pos, plants@, best as int));
    Some(plants[best])
}

fn manhattan_exec(a: &Position, b: &Position) -> (d: usize)
    requires
        manhattan(*a, *b) <= usize::MAX,
    ensures
        d == manhattan(*a, *b),
{
    let ddx = if a.x >= b.x {
        a.x - b.x
    } else {
        b.x - a.x
    };
    let ddy = if a.y >= b.y {
        a.y - b.y
    } else {
        b.y - a.y
    };
    ddx + ddy
}

/// The four directions in the order an egg's cell is looked for.
pub open spec fn egg_directions() -> Seq<Direction> {
    seq![Direction::North, Direction::South, Direction::East, Direction::West]
}

/// The first of `dirs` whose step from `pos` reaches a free cell.
pub open spec fn first_free4(board: &Board, occupancy: &Occupancy, pos: Position, dirs: Seq<Direction>) -> Option<
    Position,
>
    decreases dirs.len(),
{
    if dirs.len() == 0 {
        None
    } else if free4(board, occupancy, stepped4(pos, dirs[0])) {
        Some(stepped4(pos, dirs[0]))
    } else {
        first_free4(board, occupancy, pos, dirs.drop_first())
    }
}

/// Where a dinosaur at `pos` lays an egg: the first free cell to its north,
/// south, east or west (`None`: no room).
pub fn egg_site(board: &Board, occupancy: &Occupancy, pos: Position) -> (site: Option<Position>)
    requires
        fits(board, occupancy),
    ensures
        site == first_free4(board, occupancy, pos, egg_directions()),
{
    let directions: [Direction; 4] = [Direction::North, Direction::South, Direction::East, Direction::West];
    let ghost all = egg_directions();
    assert(directions@ =~= all);
    assert(all.subrange(0, 4) =~= all);
    let mut i: usize = 0;
    while i < 4
        invariant
            fits(board, occupancy),
            directions@ == all,
            all == egg_directions(),
            all.len() == 4,
            i <= 4,
            first_free4(board, occupancy, pos, all) == first_free4(board, occupancy, pos, all.subrange(i as int, 4)),
        decreases 4 - i,
    {
        let dir = directions[i];
        let ghost rest = all.subrange(i as int, 4);
        assert(rest[0] == dir);
        if neighbor_free(&pos, dir, board, occupancy) {
            assert(first_free4(board, occupancy, pos, rest) == Some(stepped4(pos, dir)));
            return Some(step(pos, dir));
        }
        assert(rest.drop_first() =~= all.subrange(i + 1, 4));
        i = i + 1;
    }
    None
}

/// Ticks an egg incubates before it hatches.
pub const HATCH_AGE: u32 = 90;

impl Egg {
    /// An egg younger than `HATCH_AGE` ages one tick; an older one hatches
    /// (the answer is `true`).
    pub fn incubate(&mut self) -> (hatch: bool)
        ensures
            hatch == (old(self).age >= HATCH_AGE),
            final(self).age == if hatch {
                old(self).age as int
            } else {
                old(self).age + 1
            },
    {
        if self.age < HATCH_AGE {
            self.age = self.age.saturating_add(1);
            false
        } else {
            true
        }
    }
}

/// The dinosaur at `dino_pos` can bite `plant` (at most one step away, up,
/// down, left or right, and not finished yet this tick).
pub open spec fn within_bite(dino_pos: Position, plant: (EntityId, Position, u32), eaten: Seq<EntityId>) -> bool {
    !eaten.contains(plant.0) && manhattan(dino_pos, plant.1) <= 1
}

/// `j` is where the dinosaur's bites stop: the first plant within bite with
/// no health left, or the end of the list.
pub open spec fn bites_stop_at(
    dino_pos: Position,
    plants: Seq<(EntityId, Position, u32)>,
    eaten: Seq<EntityId>,
    j: int,
) -> bool {
    &&& 0 <= j <= plants.len()
    &&& forall|i: int| 0 <= i < j ==> !(within_bite(dino_pos, #[trigger] plants[i], eaten) && plants[i].2 == 0)
    &&& j < plants.len() ==> within_bite(dino_pos, plants[j], eaten) && plants[j].2 == 0
}

/// The dinosaur bites every plant within reach, in list order, each losing a
/// health point (stopping at 0), until it meets one with none left: that one
/// is finished, its cell freed and its index returned; it joins `eaten` so
/// that nobody else finishes it this tick.
pub fn bite_plants(
    occupancy: &mut Occupancy,
    dino_pos: Position,
    plants: &mut Vec<(EntityId, Position, u32)>,
    eaten: &mut Vec<EntityId>,
) -> (finished: Option<usize>)
    requires
        forall|i: int|
            0 <= i < old(plants)@.len() ==> #[trigger] old(occupancy).addressable(old(plants)@[i].1) && manhattan(
                dino_pos,
                old(plants)@[i].1,
            ) <= usize::MAX,
    ensures
        bites_stop_at(
            dino_pos,
            old(plants)@,
            old(eaten)@,
            match finished {
                Some(j) => j as int,
                None => old(plants)@.len() as int,
            },
        ),
        final(plants)@.len() == old(plants)@.len(),
        forall|i: int|
            0 <= i < old(plants)@.len() ==> #[trigger] final(plants)@[i] == if within_bite(
                dino_pos,
                old(plants)@[i],
                old(eaten)@,
            ) && (finished is None || i < finished->0) {
                (old(plants)@[i].0, old(plants)@[i].1, (old(plants)@[i].2 - 1) as u32)
            } else {
                old(plants)@[i]
            },
        final(eaten)@ == match finished {
            Some(j) => old(eaten)@.push(old(plants)@[j as int].0),
            None => old(eaten)@,
        },
        final(occupancy).grid_width() == old(occupancy).grid_width(),
        final(occupancy).grid_height() == old(occupancy).grid_height(),
        final(occupancy).contents() == match finished {
            Some(j) => old(occupancy).contents().update(old(occupancy).flat_index(old(plants)@[j as int].1), None),
            None => old(occupancy).contents(),
        },
{
    let ghost old_plants = plants@;
    let mut i: usize = 0;
    while i < plants.len()
        invariant
            old_plants == old(plants)@,
            *eaten == *old(eaten),
            *occupancy == *old(occupancy),
            forall|k: int|
                0 <= k < old_plants.len() ==> #[trigger] old(occupancy).addressable(old_plants[k].1) && manhattan(
                    dino_pos,
                    old_plants[k].1,
                ) <= usize::MAX,
            i <= plants@.len(),
            plants@.len() == old_plants.len(),
            forall|k: int| 0 <= k < i ==> !(within_bite(dino_pos, #[trigger] old_plants[k], eaten@) && old_plants[k].2 == 0),
            forall|k: int|
                0 <= k < old_plants.len() ==> #[trigger] plants@[k] == if within_bite(dino_pos, old_plants[k], eaten@)
                    && k < i {
                    (old_plants[k].0, old_plants[k].1, (old_plants[k].2 - 1) as u32)
                } else {
                    old_plants[k]
                },
        decreases plants@.len() - i,
    {
        assert(plants@[i as int] == old_plants[i as int]);
        assert(old(occupancy).addressable(old_plants[i as int].1));
        let (e, p, health) = plants[i];
        if !contains_eaten(eaten, e) && manhattan_exec(&dino_pos, &p) <= 1 {
            if health == 0 {
                occupancy.set(p, None);
                eaten.push(e);
                return Some(i);
            }
            plants.set(i, (e, p, health - 1));
        }
        i = i + 1;
    }
    None
}

fn contains_eaten(eaten: &Vec<EntityId>, e: EntityId) -> (found: bool)
    ensures
        found == eaten@.contains(e),
{
    crate::world::contains_id(eaten, e)
}

/// A wanderer's step towards `target`: in the direction `find_closest_tile`
/// picks, if that cell is a different cell, on the board and free; the grid
/// then shows `entity` there instead of at `pos`.
pub fn step_towards(
    board: &Board,
    occupancy: &mut Occupancy,
    entity: EntityId,
    pos: &mut Position,
    target: &Position,
) -> (moved: bool)
    requires
        fits(board, old(occupancy)),
        board.contains(*old(pos)),
    ensures
        fits(board, final(occupancy)),
        ({
            let dir = four_way_tile(board, old(occupancy), *old(pos), *target);
            let next = stepped4(*old(pos), dir);
            &&& moved == (next != *old(pos) && free4(board, old(occupancy), next))
            &&& moved ==> *final(pos) == next && final(occupancy).contents() == old(occupancy).contents().update(
                old(occupancy).flat_index(*old(pos)),
                None,
            ).update(old(occupancy).flat_index(next), Some(entity))
            &&& !moved ==> *final(pos) == *old(pos) && final(occupancy).contents() == old(occupancy).contents()
        }),
{
    let dir = find_closest_tile(pos, target, board, occupancy);
    let next = step(*pos, dir);
    if next != *pos && board.is_inside(next) {
        proof {
            lemma_on_board_addressable(board, occupancy, next);
            lemma_on_board_addressable(board, occupancy, *pos);
        }
        if !occupancy.is_occupied(next) {
            occupancy.set(*pos, None);
            occupancy.set(next, Some(entity));
            *pos = next;
            return true;
        }
    }
    false
}


/// The four-way walker heads along the axis with the larger gap (East or
/// West towards the target), else vertically (South towards a target below,
/// else North); it takes that step whenever its cell is free, else the step
/// along the other axis when the target lies off that axis and its cell is
/// free.
pub proof fn lemma_four_way_heads_along_the_longer_gap(board: &Board, occupancy: &Occupancy, from: Position, to: Position)
    ensures
        dist(from.x as int, to.x as int) > dist(from.y as int, to.y as int) && to.x > from.x ==> primary_dir(from, to)
            == Direction::East,
        dist(from.x as int, to.x as int) > dist(from.y as int, to.y as int) && to.x < from.x ==> primary_dir(from, to)
            == Direction::West,
        dist(from.x as int, to.x as int) <= dist(from.y as int, to.y as int) && to.y > from.y ==> primary_dir(from, to)
            == Direction::South,
        dist(from.x as int, to.x as int) <= dist(from.y as int, to.y as int) && to.y <= from.y ==> primary_dir(from, to)
            == Direction::North,
        free4(board, occupancy, stepped4(from, primary_dir(from, to))) ==> four_way_tile(board, occupancy, from, to)
            == primary_dir(from, to),
        dist(from.x as int, to.x as int) > dist(from.y as int, to.y as int) && to.y > from.y && !free4(
            board,
            occupancy,
            stepped4(from, primary_dir(from, to)),
        ) && free4(board, occupancy, stepped4(from, Direction::South)) ==> four_way_tile(board, occupancy, from, to)
            == Direction::South,
        dist(from.x as int, to.x as int) > dist(from.y as int, to.y as int) && to.y < from.y && !free4(
            board,
            occupancy,
            stepped4(from, primary_dir(from, to)),
        ) && free4(board, occupancy, stepped4(from, Direction::North)) ==> four_way_tile(board, occupancy, from, to)
            == Direction::North,
        dist(from.x as int, to.x as int) <= dist(from.y as int, to.y as int) && to.x > from.x && !free4(
            board,
            occupancy,
            stepped4(from, primary_dir(from, to)),
        ) && free4(board, occupancy, stepped4(from, Direction::East)) ==> four_way_tile(board, occupancy, from, to)
            == Direction::East,
        dist(from.x as int, to.x as int) <= dist(from.y as int, to.y as int) && to.x < from.x && !free4(
            board,
            occupancy,
            stepped4(from, primary_dir(from, to)),
        ) && free4(board, occupancy, stepped4(from, Direction::West)) ==> four_way_tile(board, occupancy, from, to)
            == Direction::West,
{
}


/// A dinosaur bites a plant it has not finished this tick when the plant
/// stands on its own cell or on one of the four cells next to it (up, down,
/// left, right), and no farther: never diagonally.
pub proof fn lemma_bite_reach(dino: Position, plant: (EntityId, Position, u32), eaten: Seq<EntityId>)
    ensures
        within_bite(dino, plant, eaten) <==> !eaten.contains(plant.0) && ((plant.1.x == dino.x && (plant.1.y == dino.y
            || plant.1.y + 1 == dino.y || plant.1.y == dino.y + 1)) || (plant.1.y == dino.y && (plant.1.x + 1 == dino.x
            || plant.1.x == dino.x + 1))),
{
}

} // verus!
