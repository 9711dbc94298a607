use vstd::prelude::*;

use crate::world::{contains_id, EntityId, Position, WorldMap};
use crate::world::map::unique_occupants;

use super::components::{all_directions, Direction};

verus! {

/// `a - b` if that is not negative, else `b - a`.
pub open spec fn dist(a: int, b: int) -> int {
    if a >= b {
        a - b
    } else {
        b - a
    }
}

/// Chebyshev distance between the cells of two positions (layers ignored).
pub open spec fn cheb(a: Position, b: Position) -> int {
    let ddx = dist(a.x as int, b.x as int);
    let ddy = dist(a.y as int, b.y as int);
    if ddx >= ddy {
        ddx
    } else {
        ddy
    }
}

/// `v` kept inside `0 ..= usize::MAX`.
pub open spec fn clamp_usize(v: int) -> int {
    if v < 0 {
        0
    } else if v > usize::MAX {
        usize::MAX as int
    } else {
        v
    }
}

/// The cell one step away in direction `dir`, each coordinate saturating at the
/// ends of `usize`; the layer is kept.
pub open spec fn stepped(pos: Position, dir: Direction) -> Position {
    Position {
        x: clamp_usize(pos.x + dir.dx()) as usize,
        y: clamp_usize(pos.y + dir.dy()) as usize,
        z: pos.z,
    }
}

/// How far a dino looks for food or a mate. Chebyshev rings, not a full scan.
pub const MAX_SEEK_RADIUS: usize = 24;

fn sat_dec(v: usize) -> (r: usize)
    ensures
        r == clamp_usize(v - 1),
{
    if v == 0 {
        0
    } else {
        v - 1
    }
}

fn sat_inc(v: usize) -> (r: usize)
    ensures
        r == clamp_usize(v + 1),
{
    if v == usize::MAX {
        v
    } else {
        v + 1
    }
}

pub fn step(pos: Position, dir: Direction) -> (next: Position)
    ensures
        next == stepped(pos, dir),
{
    let mut next = pos;
    match dir {
        Direction::North => next.y = sat_dec(next.y),
        Direction::South => next.y = sat_inc(next.y),
        Direction::East => next.x = sat_inc(next.x),
        Direction::West => next.x = sat_dec(next.x),
        Direction::NorthEast => {
            next.x = sat_inc(next.x);
            next.y = sat_dec(next.y);
        },
        Direction::NorthWest => {
            next.x = sat_dec(next.x);
            next.y = sat_dec(next.y);
        },
        Direction::SouthEast => {
            next.x = sat_inc(next.x);
            next.y = sat_inc(next.y);
        },
        Direction::SouthWest => {
            next.x = sat_dec(next.x);
            next.y = sat_inc(next.y);
        },
    }
    next
}

/// Chebyshev distance: a diagonal step counts as 1, matching 8-way movement.
pub fn chebyshev(a: &Position, b: &Position) -> (d: usize)
    ensures
        d == cheb(*a, *b),
{
    let ddx = if a.x >= b.x {
        a.x - b.x
    } else {
        b.x - a.x
    };
    let ddy = if a.y >= b.y {
        a.y - b.y
    } else {
        b.y - a.y
    };
    if ddx >= ddy {
        ddx
    } else {
        ddy
    }
}

/// `pos` followed by its eight neighbours in the order of `Direction::ALL`.
pub open spec fn neighbors(pos: Position) -> Seq<Position> {
    seq![pos].add(all_directions().map_values(|d: Direction| stepped(pos, d)))
}

/// `pos` itself plus its 8 neighbors — every cell within Chebyshev distance 1.
pub fn neighborhood(pos: Position) -> (cells: [Position; 9])
    ensures
        cells@ == neighbors(pos),
        cells@.len() == 9,
        cells@[0] == pos,
        forall|i: int| 1 <= i < 9 ==> #[trigger] cells@[i] == stepped(pos, all_directions()[i - 1]),
{
    let cells = [
        pos,
        step(pos, Direction::North),
        step(pos, Direction::South),
        step(pos, Direction::East),
        step(pos, Direction::West),
        step(pos, Direction::NorthEast),
        step(pos, Direction::NorthWest),
        step(pos, Direction::SouthEast),
        step(pos, Direction::SouthWest),
    ];
    assert forall|i: int| 1 <= i < 9 implies #[trigger] cells@[i] == stepped(
        pos,
        all_directions()[i - 1],
    ) by {
        if i == 1 {
        } else if i == 2 {
        } else if i == 2 {
        } else if i == 3 {
        } else if i == 4 {
        } else if i == 5 {
        } else if i == 6 {
        } else if i == 7 {
        } else {
        }
    }
    assert(cells@ =~= neighbors(pos));
    cells
}

/// The neighbourhood is exactly the cells within Chebyshev distance 1 of
/// `pos`, on the same layer.
pub proof fn lemma_neighborhood_is_the_unit_ball(pos: Position, cells: Seq<Position>, q: Position)
    requires
        cells.len() == 9,
        cells[0] == pos,
        forall|i: int| 1 <= i < 9 ==> #[trigger] cells[i] == stepped(pos, all_directions()[i - 1]),
    ensures
        (exists|i: int| 0 <= i < 9 && cells[i] == q) <==> (q.z == pos.z && cheb(pos, q) <= 1),
{
    let d = all_directions();
    assert(cells[1] == stepped(pos, d[0]));
    assert(cells[2] == stepped(pos, d[1]));
    assert(cells[3] == stepped(pos, d[2]));
    assert(cells[4] == stepped(pos, d[3]));
    assert(cells[5] == stepped(pos, d[4]));
    assert(cells[6] == stepped(pos, d[5]));
    assert(cells[7] == stepped(pos, d[6]));
    assert(cells[8] == stepped(pos, d[7]));
    if q.z == pos.z && cheb(pos, q) <= 1 {
        let ddx = q.x - pos.x;
        let ddy = q.y - pos.y;
        if ddx == 0 && ddy == 0 {
            assert(cells[0] == q);
        } else if ddx == 0 && ddy == -1 {
            assert(cells[1] == q);
        } else if ddx == 0 && ddy == 1 {
            assert(cells[2] == q);
        } else if ddx == 1 && ddy == 0 {
            assert(cells[3] == q);
        } else if ddx == -1 && ddy == 0 {
            assert(cells[4] == q);
        } else if ddx == 1 && ddy == -1 {
            assert(cells[5] == q);
        } else if ddx == -1 && ddy == -1 {
            assert(cells[6] == q);
        } else if ddx == 1 && ddy == 1 {
            assert(cells[7] == q);
        } else {
            assert(cells[8] == q);
        }
    }
}

/// Where a cell comes in the ring of its distance `r` from `origin`: first the
/// top and bottom rows, left to right and top before bottom at each column,
/// then the left and right columns between them, top to bottom and left
/// before right at each row.
pub open spec fn ring_rank(origin: Position, p: Position) -> int {
    let r = cheb(origin, p);
    let ddx = p.x - origin.x;
    let ddy = p.y - origin.y;
    if ddy == -r {
        2 * (ddx + r)
    } else if ddy == r {
        2 * (ddx + r) + 1
    } else if ddx == -r {
        4 * r + 2 + 2 * (ddy + r - 1)
    } else {
        4 * r + 2 + 2 * (ddy + r - 1) + 1
    }
}

/// The ring scan around `origin` reaches `p` before `q`: nearer rings first,
/// and within a ring by `ring_rank`.
pub open spec fn scanned_before(origin: Position, p: Position, q: Position) -> bool {
    ||| cheb(origin, p) < cheb(origin, q)
    ||| cheb(origin, p) == cheb(origin, q) && ring_rank(origin, p) < ring_rank(origin, q)
}

/// The cells that a scan of radius `max_radius` around `origin` visits on a
/// `width` by `height` board: every on-board cell within that Chebyshev
/// distance, on the origin's layer.
pub open spec fn in_scan(origin: Position, max_radius: int, width: int, height: int, p: Position) -> bool {
    &&& p.x < width
    &&& p.y < height
    &&& p.z == origin.z
    &&& cheb(origin, p) <= max_radius
}

/// Visits the cell `(x, y)` on `z` if it is on the board; `Some(cell)` when the
/// visitor asks to stop there.
fn probe<F: Fn(Position) -> bool>(visit: &F, x: i128, y: i128, width: usize, height: usize, z: usize) -> (stop: Option<Position>)
    requires
        forall|p: Position| #[trigger] visit.requires((p,)),
    ensures
        match stop {
            Some(p) => p.x == x && p.y == y && p.z == z && p.x < width && p.y < height && visit.ensures((p,), true),
            None => forall|p: Position|
                p.x == x && p.y == y && p.z == z && p.x < width && p.y < height ==> #[trigger] visit.ensures((p,), false),
        },
{
    if x < 0 || y < 0 || x >= width as i128 || y >= height as i128 {
        return None;
    }
    let p = Position { x: x as usize, y: y as usize, z };
    if visit(p) {
        Some(p)
    } else {
        assert forall|q: Position|
            q.x == x && q.y == y && q.z == z && q.x < width && q.y < height implies #[trigger] visit.ensures((q,), false) by {
            assert(q == p);
        }
        None
    }
}

/// Visit cells in Chebyshev-distance order (closest first). `visit` returns
/// `true` to stop, and the cell where it stopped is returned. Off-board cells
/// are skipped.
pub fn visit_chebyshev_rings(
    origin: Position,
    max_radius: usize,
    width: usize,
    height: usize,
    visit: impl Fn(Position) -> bool,
) -> (stop: Option<Position>)
    requires
        forall|p: Position| #[trigger] visit.requires((p,)),
    ensures
        match stop {
            Some(p) => {
                &&& in_scan(origin, max_radius as int, width as int, height as int, p)
                &&& visit.ensures((p,), true)
                &&& forall|q: Position|
                    in_scan(origin, max_radius as int, width as int, height as int, q) && scanned_before(origin, q, p)
                        ==> #[trigger] visit.ensures((q,), false)
            },
            None => forall|q: Position|
                in_scan(origin, max_radius as int, width as int, height as int, q) ==> #[trigger] visit.ensures((q,), false),
        },
{
    let ghost mr = max_radius as int;
    let ghost w = width as int;
    let ghost h = height as int;
    let ox = origin.x as i128;
    let oy = origin.y as i128;
    let z = origin.z;

    match probe(&visit, ox, oy, width, height, z) {
        Some(p) => {
            return Some(p);
        },
        None => {},
    }

    let mut r: usize = 0;
    while r < max_radius
        invariant
            r <= max_radius,
            ox == origin.x,
            oy == origin.y,
            z == origin.z,
            mr == max_radius,
            w == width,
            h == height,
            forall|p: Position| #[trigger] visit.requires((p,)),
            forall|q: Position|
                in_scan(origin, mr, w, h, q) && cheb(origin, q) <= r ==> #[trigger] visit.ensures((q,), false),
        decreases max_radius - r,
    {
        r = r + 1;
        let ri = r as i128;
        let mut ddx: i128 = -ri;
        while ddx <= ri
            invariant
                1 <= r <= max_radius,
                ri == r,
                -ri <= ddx <= ri + 1,
                ox == origin.x,
                oy == origin.y,
                z == origin.z,
                mr == max_radius,
                w == width,
                h == height,
                forall|p: Position| #[trigger] visit.requires((p,)),
                forall|q: Position|
                    in_scan(origin, mr, w, h, q) && (cheb(origin, q) < r || (cheb(origin, q) == r
                        && ring_rank(origin, q) < 2 * (ddx + r))) ==> #[trigger] visit.ensures((q,), false),
            decreases ri + 1 - ddx,
        {
            match probe(&visit, ox + ddx, oy - ri, width, height, z) {
                Some(p) => {
                    assert(cheb(origin, p) == r);
                    assert(ring_rank(origin, p) == 2 * (ddx + r));
                    return Some(p);
                },
                None => {},
            }
            match probe(&visit, ox + ddx, oy + ri, width, height, z) {
                Some(p) => {
                    assert(cheb(origin, p) == r);
                    assert(ring_rank(origin, p) == 2 * (ddx + r) + 1);
                    assert forall|q: Position|
                        in_scan(origin, mr, w, h, q) && scanned_before(origin, q, p) implies #[trigger] visit.ensures(
                        (q,),
                        false,
                    ) by {
                        if cheb(origin, q) == r && ring_rank(origin, q) == 2 * (ddx + r) {
                            assert(q.y - origin.y == -r);
                        }
                    }
                    return Some(p);
                },
                None => {},
            }
            assert forall|q: Position|
                in_scan(origin, mr, w, h, q) && (cheb(origin, q) < r || (cheb(origin, q) == r
                    && ring_rank(origin, q) < 2 * (ddx + 1 + r))) implies #[trigger] visit.ensures((q,), false) by {
                if cheb(origin, q) == r && ring_rank(origin, q) >= 2 * (ddx + r) {
                    if ring_rank(origin, q) == 2 * (ddx + r) {
                        assert(q.y - origin.y == -r);
                        assert(q.x - origin.x == ddx);
                    } else {
                        assert(q.y - origin.y == r);
                        assert(q.x - origin.x == ddx);
                    }
                }
            }
            ddx = ddx + 1;
        }
        let mut ddy: i128 = -ri + 1;
        while ddy < ri
            invariant
                1 <= r <= max_radius,
                ri == r,
                -ri + 1 <= ddy <= ri,
                ox == origin.x,
                oy == origin.y,
                z == origin.z,
                mr == max_radius,
                w == width,
                h == height,
                forall|p: Position| #[trigger] visit.requires((p,)),
                forall|q: Position|
                    in_scan(origin, mr, w, h, q) && (cheb(origin, q) < r || (cheb(origin, q) == r
                        && ring_rank(origin, q) < 4 * r + 2 + 2 * (ddy + r - 1))) ==> #[trigger] visit.ensures(
                        (q,),
                        false,
                    ),
            decreases ri - ddy,
        {
            match probe(&visit, ox - ri, oy + ddy, width, height, z) {
                Some(p) => {
                    assert(cheb(origin, p) == r);
                    assert(ring_rank(origin, p) == 4 * r + 2 + 2 * (ddy + r - 1));
                    return Some(p);
                },
                None => {},
            }
            match probe(&visit, ox + ri, oy + ddy, width, height, z) {
                Some(p) => {
                    assert(cheb(origin, p) == r);
                    assert(ring_rank(origin, p) == 4 * r + 2 + 2 * (ddy + r - 1) + 1);
                    assert forall|q: Position|
                        in_scan(origin, mr, w, h, q) && scanned_before(origin, q, p) implies #[trigger] visit.ensures(
                        (q,),
                        false,
                    ) by {
                        if cheb(origin, q) == r && ring_rank(origin, q) == 4 * r + 2 + 2 * (ddy + r - 1) {
                            assert(q.x - origin.x == -r);
                        }
                    }
                    return Some(p);
                },
                None => {},
            }
            assert forall|q: Position|
                in_scan(origin, mr, w, h, q) && (cheb(origin, q) < r || (cheb(origin, q) == r
                    && ring_rank(origin, q) < 4 * r + 2 + 2 * (ddy + 1 + r - 1))) implies #[trigger] visit.ensures(
                (q,),
                false,
            ) by {
                if cheb(origin, q) == r && ring_rank(origin, q) >= 4 * r + 2 + 2 * (ddy + r - 1) {
                    if ring_rank(origin, q) == 4 * r + 2 + 2 * (ddy + r - 1) {
                        assert(q.x - origin.x == -r);
                        assert(q.y - origin.y == ddy);
                    } else {
                        assert(q.x - origin.x == r);
                        assert(q.y - origin.y == ddy);
                    }
                }
            }
            ddy = ddy + 1;
        }
        assert forall|q: Position|
            in_scan(origin, mr, w, h, q) && cheb(origin, q) <= r implies #[trigger] visit.ensures((q,), false) by {
            if cheb(origin, q) == r {
                assert(ring_rank(origin, q) < 8 * r);
            }
        }
    }
    None
}

/// What `pred` answers for the occupant of `pos`: an empty cell is never
/// accepted.
pub open spec fn accepted_by<F: Fn(EntityId, Position) -> bool>(
    world: &WorldMap,
    pred: &F,
    pos: Position,
    verdict: bool,
) -> bool {
    match world.occ(pos) {
        Some(e) => pred.ensures((e, pos), verdict),
        None => !verdict,
    }
}

/// First occupied cell in Chebyshev order that `pred` accepts.
pub fn find_nearest_on_grid(
    world: &WorldMap,
    origin: Position,
    max_radius: usize,
    pred: impl Fn(EntityId, Position) -> bool,
) -> (found: Option<(EntityId, Position)>)
    requires
        world.wf(),
        forall|e: EntityId, p: Position| #[trigger] pred.requires((e, p)),
    ensures
        match found {
            Some((e, p)) => {
                &&& in_scan(origin, max_radius as int, world.width() as int, world.height() as int, p)
                &&& world.occ(p) == Some(e)
                &&& pred.ensures((e, p), true)
                &&& forall|q: Position|
                    in_scan(origin, max_radius as int, world.width() as int, world.height() as int, q)
                        && scanned_before(origin, q, p) ==> #[trigger] accepted_by(world, &pred, q, false)
            },
            None => forall|q: Position|
                in_scan(origin, max_radius as int, world.width() as int, world.height() as int, q)
                    ==> #[trigger] accepted_by(world, &pred, q, false),
        },
{
    let (width, height) = world.dimensions();
    let pred_ref = &pred;
    let visit = |pos: Position| -> (accept: bool)
        requires
            world.wf(),
            forall|e: EntityId, p: Position| #[trigger] pred_ref.requires((e, p)),
        ensures
            accepted_by(world, pred_ref, pos, accept),
        {
            match world.entity_at(pos) {
                Some(e) => pred_ref(e, pos),
                None => false,
            }
        };
    let stop = visit_chebyshev_rings(origin, max_radius, width, height, visit);
    match stop {
        Some(p) => {
            let who = world.entity_at(p);
            match who {
                Some(e) => {
                    assert forall|q: Position|
                        in_scan(origin, max_radius as int, world.width() as int, world.height() as int, q)
                            && scanned_before(origin, q, p) implies #[trigger] accepted_by(world, &pred, q, false) by {
                        assert(visit.ensures((q,), false));
                    }
                    Some((e, p))
                },
                None => {
                    assert(visit.ensures((p,), true));
                    None
                },
            }
        },
        None => {
            assert forall|q: Position|
                in_scan(origin, max_radius as int, world.width() as int, world.height() as int, q)
                    implies #[trigger] accepted_by(world, &pred, q, false) by {
                assert(visit.ensures((q,), false));
            }
            None
        },
    }
}

/// The direction whose steps have the signs `(sx, sy)`; `(0, 0)` and any sign
/// out of range give `North`.
pub open spec fn dir_of_signs(sx: int, sy: int) -> Direction {
    if sx == 1 && sy == 0 {
        Direction::East
    } else if sx == -1 && sy == 0 {
        Direction::West
    } else if sx == 0 && sy == 1 {
        Direction::South
    } else if sx == 0 && (sy == -1 || sy == 0) {
        Direction::North
    } else if sx == 1 && sy == -1 {
        Direction::NorthEast
    } else if sx == -1 && sy == -1 {
        Direction::NorthWest
    } else if sx == 1 && sy == 1 {
        Direction::SouthEast
    } else if sx == -1 && sy == 1 {
        Direction::SouthWest
    } else {
        Direction::North
    }
}

fn dir_from_signs(sx: i8, sy: i8) -> (dir: Direction)
    ensures
        dir == dir_of_signs(sx as int, sy as int),
{
    match (sx, sy) {
        (1, 0) => Direction::East,
        (-1, 0) => Direction::West,
        (0, 1) => Direction::South,
        (0, -1) | (0, 0) => Direction::North,
        (1, -1) => Direction::NorthEast,
        (-1, -1) => Direction::NorthWest,
        (1, 1) => Direction::SouthEast,
        (-1, 1) => Direction::SouthWest,
        _ => Direction::North,
    }
}

/// `1`, `0` or `-1` as `to` lies above, at or below `from`.
pub open spec fn sign_towards(from: int, to: int) -> int {
    if to > from {
        1
    } else if to < from {
        -1
    } else {
        0
    }
}

/// The directions that bring `from` closer to `to`, best first: the diagonal
/// when both axes differ, then the horizontal, then the vertical step.
pub open spec fn approach_candidates(from: Position, to: Position) -> Seq<Direction> {
    let sx = sign_towards(from.x as int, to.x as int);
    let sy = sign_towards(from.y as int, to.y as int);
    (if sx != 0 && sy != 0 {
        seq![dir_of_signs(sx, sy)]
    } else {
        Seq::empty()
    }) + (if sx != 0 {
        seq![dir_of_signs(sx, 0)]
    } else {
        Seq::empty()
    }) + (if sy != 0 {
        seq![dir_of_signs(0, sy)]
    } else {
        Seq::empty()
    })
}

/// The first of `candidates` whose step from `pos` is free, else `fallback`.
pub open spec fn first_free_step(
    world: &WorldMap,
    pos: Position,
    candidates: Seq<Direction>,
    fallback: Direction,
) -> Direction
    decreases candidates.len(),
{
    if candidates.len() == 0 {
        fallback
    } else if world.free(stepped(pos, candidates[0])) {
        candidates[0]
    } else {
        first_free_step(world, pos, candidates.drop_first(), fallback)
    }
}

/// The direction `find_closest_tile` picks: the best free candidate, else the
/// best candidate, else `North` when the target is the current cell.
pub open spec fn closest_tile(world: &WorldMap, from: Position, to: Position) -> Direction {
    let c = approach_candidates(from, to);
    first_free_step(world, from, c, if c.len() > 0 { c[0] } else { Direction::North })
}

fn neighbor_free(pos: &Position, dir: Direction, world: &WorldMap) -> (free: bool)
    requires
        world.wf(),
    ensures
        free == world.free(stepped(*pos, dir)),
{
    world.is_free(step(*pos, dir))
}

/// Prefer a diagonal if both axes differ, then the cardinals. Always returns a
/// direction; the caller still has to check `is_free` before moving.
pub fn find_closest_tile(world: &WorldMap, dino_pos: &Position, target_pos: &Position) -> (dir: Direction)
    requires
        world.wf(),
    ensures
        dir == closest_tile(world, *dino_pos, *target_pos),
        (exists|i: int|
            0 <= i < approach_candidates(*dino_pos, *target_pos).len() && world.free(
                #[trigger] stepped(*dino_pos, approach_candidates(*dino_pos, *target_pos)[i]),
            )) ==> world.free(stepped(*dino_pos, dir)) && exists|k: int|
            0 <= k < approach_candidates(*dino_pos, *target_pos).len() && dir == approach_candidates(
                *dino_pos,
                *target_pos,
            )[k] && forall|j: int|
                0 <= j < k ==> !world.free(#[trigger] stepped(*dino_pos, approach_candidates(*dino_pos, *target_pos)[j])),
{
    let sx: i8 = if target_pos.x > dino_pos.x {
        1
    } else if target_pos.x < dino_pos.x {
        -1
    } else {
        0
    };
    let sy: i8 = if target_pos.y > dino_pos.y {
        1
    } else if target_pos.y < dino_pos.y {
        -1
    } else {
        0
    };
    let mut candidates: Vec<Direction> = Vec::new();
    if sx != 0 && sy != 0 {
        candidates.push(dir_from_signs(sx, sy));
    }
    if sx != 0 {
        candidates.push(dir_from_signs(sx, 0));
    }
    if sy != 0 {
        candidates.push(dir_from_signs(0, sy));
    }
    let ghost all = approach_candidates(*dino_pos, *target_pos);
    assert(candidates@ =~= all);
    let fallback = if candidates.len() > 0 {
        candidates[0]
    } else {
        Direction::North
    };
    let mut i: usize = 0;
    assert(all.subrange(0, all.len() as int) =~= all);
    while i < candidates.len()
        invariant
            world.wf(),
            all == approach_candidates(*dino_pos, *target_pos),
            candidates@ == all,
            i <= candidates@.len(),
            fallback == (if all.len() > 0 { all[0] } else { Direction::North }),
            first_free_step(world, *dino_pos, all, fallback) == first_free_step(
                world,
                *dino_pos,
                all.subrange(i as int, all.len() as int),
                fallback,
            ),
        decreases candidates@.len() - i,
    {
        let dir = candidates[i];
        if neighbor_free(dino_pos, dir, world) {
            let ghost rest = all.subrange(i as int, all.len() as int);
            assert(rest[0] == dir);
            assert(first_free_step(world, *dino_pos, rest, fallback) == dir);
            proof {
                lemma_closest_tile_first_free(world, *dino_pos, *target_pos);
            }
            return dir;
        }
        assert(all.subrange(i as int, all.len() as int).drop_first() =~= all.subrange(
            i + 1,
            all.len() as int,
        ));
        i = i + 1;
    }
    proof {
        lemma_closest_tile_first_free(world, *dino_pos, *target_pos);
    }
    fallback
}

/// `entity` went from `from` one step in direction `dir` to `to`: the target
/// was a different, free cell, and the map moved it there.
pub open spec fn stepped_to(
    before: &WorldMap,
    after: &WorldMap,
    entity: EntityId,
    from: Position,
    to: Position,
    dir: Direction,
) -> bool {
    &&& to == stepped(from, dir)
    &&& to != from
    &&& before.free(to)
    &&& forall|q: Position|
        #[trigger] after.occ(q) == if q.x == to.x && q.y == to.y {
            Some(entity)
        } else if before.on_board(from) && q.x == from.x && q.y == from.y {
            None
        } else {
            before.occ(q)
        }
}

/// Nothing moved: same position, same occupants.
pub open spec fn stayed(before: &WorldMap, after: &WorldMap, from: Position, to: Position) -> bool {
    &&& to == from
    &&& forall|q: Position| #[trigger] after.occ(q) == before.occ(q)
}

/// The step in direction `dir` from `from` is blocked: it goes nowhere (the
/// edge of `usize`) or onto a cell that is off the board or taken.
pub open spec fn step_blocked(world: &WorldMap, from: Position, dir: Direction) -> bool {
    stepped(from, dir) == from || !world.free(stepped(from, dir))
}

/// One Chebyshev step in direction `dir`, if the target cell is a different,
/// free cell and `step_granted` (the mover's chance to step this tick) says
/// yes; it is only asked when the cell is free. On a step the map moves
/// `entity` from `pos` to the target and `pos` follows; otherwise nothing
/// changes.
pub fn try_move(
    world: &mut WorldMap,
    entity: EntityId,
    pos: &mut Position,
    dir: Direction,
    step_granted: impl FnOnce() -> bool,
) -> (moved: bool)
    requires
        old(world).wf(),
        step_granted.requires(()),
    ensures
        final(world).wf(),
        final(world).width() == old(world).width(),
        final(world).height() == old(world).height(),
        moved ==> stepped_to(old(world), final(world), entity, *old(pos), *final(pos), dir) && step_granted.ensures(
            (),
            true,
        ),
        !moved ==> stayed(old(world), final(world), *old(pos), *final(pos)) && (step_blocked(
            old(world),
            *old(pos),
            dir,
        ) || step_granted.ensures((), false)),
{
    let target = step(*pos, dir);
    if target == *pos || !world.is_free(target) {
        return false;
    }
    if !step_granted() {
        return false;
    }
    world.move_entity(entity, *pos, target);
    *pos = target;
    true
}

/// A granted step keeps every entity on at most one cell: the mover, which
/// stood on `from`, now stands on the cell next to it and nowhere else.
pub proof fn lemma_step_keeps_occupants_unique(
    before: &WorldMap,
    after: &WorldMap,
    entity: EntityId,
    from: Position,
    to: Position,
    dir: Direction,
)
    requires
        before.wf(),
        stepped_to(before, after, entity, from, to, dir),
        unique_occupants(before),
        before.occ(from) == Some(entity),
    ensures
        unique_occupants(after),
        after.occ(to) == Some(entity),
        after.occ(from) is None,
        cheb(from, to) == 1,
        forall|q: Position| #[trigger] after.occ(q) == Some(entity) ==> q.x == to.x && q.y == to.y,
{
    assert(before.on_board(from)) by {
        if !before.on_board(from) {
            before.lemma_off_board_empty(from);
        }
    }
    assert(from.x != to.x || from.y != to.y);
    assert forall|q: Position| #[trigger] after.occ(q) == Some(entity) implies q.x == to.x && q.y == to.y by {
        if !(q.x == to.x && q.y == to.y) && !(q.x == from.x && q.y == from.y) {
            assert(before.occ(q) == before.occ(from));
        }
    }
    assert forall|p: Position, q: Position|
        #[trigger] after.occ(p) is Some && #[trigger] after.occ(q) == after.occ(p) implies p.x == q.x && p.y == q.y by {
        let at_to_p = p.x == to.x && p.y == to.y;
        let at_to_q = q.x == to.x && q.y == to.y;
        if !at_to_p && !at_to_q {
            assert(before.occ(p) is Some);
            assert(before.occ(q) == before.occ(p));
        } else if at_to_p && !at_to_q {
            assert(before.occ(q) == Some(entity));
            assert(q.x == from.x && q.y == from.y);
        } else if !at_to_p && at_to_q {
            assert(before.occ(p) == Some(entity));
            assert(p.x == from.x && p.y == from.y);
        }
    }
}

/// Two cells of one ring with the same rank are the same cell.
proof fn lemma_ring_rank_injective(origin: Position, p: Position, q: Position)
    requires
        cheb(origin, p) == cheb(origin, q),
        ring_rank(origin, p) == ring_rank(origin, q),
    ensures
        p.x == q.x && p.y == q.y,
{
    let r = cheb(origin, p);
    if r == 0 {
    } else {
        let pdx = p.x - origin.x;
        let pdy = p.y - origin.y;
        let qdx = q.x - origin.x;
        let qdy = q.y - origin.y;
        assert(-r <= pdx <= r && -r <= pdy <= r);
        assert(-r <= qdx <= r && -r <= qdy <= r);
        assert(pdx == -r || pdx == r || pdy == -r || pdy == r);
        assert(qdx == -r || qdx == r || qdy == -r || qdy == r);
    }
}

/// The scan order is total: of two different cells, one is reached first.
pub proof fn lemma_scan_order_total(origin: Position, p: Position, q: Position)
    requires
        p.x != q.x || p.y != q.y,
    ensures
        scanned_before(origin, p, q) || scanned_before(origin, q, p),
        !(scanned_before(origin, p, q) && scanned_before(origin, q, p)),
{
    if cheb(origin, p) == cheb(origin, q) && ring_rank(origin, p) == ring_rank(origin, q) {
        lemma_ring_rank_injective(origin, p, q);
    }
}

/// `p` is the first cell of the scan (radius `max_radius` around `origin`)
/// that `accept` takes.
pub open spec fn scan_hit(
    world: &WorldMap,
    origin: Position,
    max_radius: int,
    p: Position,
    accept: spec_fn(Position) -> bool,
) -> bool {
    &&& in_scan(origin, max_radius, world.width() as int, world.height() as int, p)
    &&& accept(p)
    &&& forall|q: Position|
        in_scan(origin, max_radius, world.width() as int, world.height() as int, q) && scanned_before(origin, q, p)
            ==> !#[trigger] accept(q)
}

/// The scan takes no cell at all.
pub open spec fn scan_misses(
    world: &WorldMap,
    origin: Position,
    max_radius: int,
    accept: spec_fn(Position) -> bool,
) -> bool {
    forall|q: Position|
        in_scan(origin, max_radius, world.width() as int, world.height() as int, q) ==> !#[trigger] accept(q)
}

/// The scan's first hit is unique.
pub proof fn lemma_scan_hit_unique(
    world: &WorldMap,
    origin: Position,
    max_radius: int,
    accept: spec_fn(Position) -> bool,
    p: Position,
    q: Position,
)
    requires
        scan_hit(world, origin, max_radius, p, accept),
        scan_hit(world, origin, max_radius, q, accept),
    ensures
        p == q,
{
    if p.x != q.x || p.y != q.y {
        lemma_scan_order_total(origin, p, q);
    }
}

/// Nothing the scan accepts is nearer to the origin than its first hit.
pub proof fn lemma_scan_hit_is_nearest(
    world: &WorldMap,
    origin: Position,
    max_radius: int,
    accept: spec_fn(Position) -> bool,
    p: Position,
    q: Position,
)
    requires
        scan_hit(world, origin, max_radius, p, accept),
        in_scan(origin, max_radius, world.width() as int, world.height() as int, q),
        accept(q),
    ensures
        cheb(origin, p) <= cheb(origin, q),
{
    if cheb(origin, q) < cheb(origin, p) {
        assert(scanned_before(origin, q, p));
    }
}

/// The cells holding one of `ids` that is not in `skip`.
pub open spec fn holds_member(world: &WorldMap, ids: Seq<EntityId>, skip: Seq<EntityId>) -> spec_fn(
    Position,
) -> bool {
    |q: Position|
        match world.occ(q) {
            Some(e) => ids.contains(e) && !skip.contains(e),
            None => false,
        }
}

/// The nearest cell (in scan order) holding one of `ids` but none of `skip`.
pub fn nearest_member(
    world: &WorldMap,
    origin: Position,
    max_radius: usize,
    ids: &Vec<EntityId>,
    skip: &Vec<EntityId>,
) -> (found: Option<(EntityId, Position)>)
    requires
        world.wf(),
    ensures
        match found {
            Some((e, p)) => world.occ(p) == Some(e) && scan_hit(
                world,
                origin,
                max_radius as int,
                p,
                holds_member(world, ids@, skip@),
            ),
            None => scan_misses(world, origin, max_radius as int, holds_member(world, ids@, skip@)),
        },
{
    let pred = |e: EntityId, p: Position| -> (b: bool)
        ensures
            b == (ids@.contains(e) && !skip@.contains(e)),
        { contains_id(ids, e) && !contains_id(skip, e) };
    let found = find_nearest_on_grid(world, origin, max_radius, pred);
    let ghost accept = holds_member(world, ids@, skip@);
    match found {
        Some((e, p)) => {
            assert forall|q: Position|
                in_scan(origin, max_radius as int, world.width() as int, world.height() as int, q)
                    && scanned_before(origin, q, p) implies !#[trigger] accept(q) by {
                assert(accepted_by(world, &pred, q, false));
            }
        },
        None => {
            assert forall|q: Position|
                in_scan(origin, max_radius as int, world.width() as int, world.height() as int, q) implies !#[trigger] accept(
                q,
            ) by {
                assert(accepted_by(world, &pred, q, false));
            }
        },
    }
    found
}

/// A step keeps the layer and lands within Chebyshev distance 1; away from
/// the ends of `usize` it lands at distance exactly 1.
pub proof fn lemma_step_is_adjacent(pos: Position, dir: Direction)
    ensures
        stepped(pos, dir).z == pos.z,
        cheb(pos, stepped(pos, dir)) <= 1,
        0 < pos.x < usize::MAX && 0 < pos.y < usize::MAX ==> cheb(pos, stepped(pos, dir)) == 1,
{
}

/// Towards a different cell there is always a candidate, the best one brings
/// the mover one step closer, and no candidate takes it farther away.
pub proof fn lemma_approach_candidates_close_in(from: Position, to: Position)
    requires
        from.x != to.x || from.y != to.y,
    ensures
        approach_candidates(from, to).len() > 0,
        cheb(stepped(from, approach_candidates(from, to)[0]), to) == cheb(from, to) - 1,
        forall|i: int|
            0 <= i < approach_candidates(from, to).len() ==> cheb(
                #[trigger] stepped(from, approach_candidates(from, to)[i]),
                to,
            ) <= cheb(from, to),
{
    let c = approach_candidates(from, to);
    let sx = sign_towards(from.x as int, to.x as int);
    let sy = sign_towards(from.y as int, to.y as int);
    if sx != 0 && sy != 0 {
        assert(c =~= seq![dir_of_signs(sx, sy), dir_of_signs(sx, 0), dir_of_signs(0, sy)]);
    } else if sx != 0 {
        assert(c =~= seq![dir_of_signs(sx, 0)]);
    } else {
        assert(c =~= seq![dir_of_signs(0, sy)]);
    }
}


proof fn lemma_first_free_step(world: &WorldMap, pos: Position, cands: Seq<Direction>, fallback: Direction)
    ensures
        (exists|i: int| 0 <= i < cands.len() && world.free(#[trigger] stepped(pos, cands[i]))) ==> exists|k: int|
            0 <= k < cands.len() && first_free_step(world, pos, cands, fallback) == cands[k] && world.free(
                stepped(pos, cands[k]),
            ) && forall|j: int| 0 <= j < k ==> !world.free(#[trigger] stepped(pos, cands[j])),
        (forall|i: int| 0 <= i < cands.len() ==> !world.free(#[trigger] stepped(pos, cands[i])))
            ==> first_free_step(world, pos, cands, fallback) == fallback,
    decreases cands.len(),
{
    if cands.len() > 0 {
        let rest = cands.drop_first();
        lemma_first_free_step(world, pos, rest, fallback);
        if !world.free(stepped(pos, cands[0])) {
            if exists|i: int| 0 <= i < cands.len() && world.free(#[trigger] stepped(pos, cands[i])) {
                let i = choose|i: int| 0 <= i < cands.len() && world.free(#[trigger] stepped(pos, cands[i]));
                assert(rest[i - 1] == cands[i]);
                let k = choose|k: int|
                    0 <= k < rest.len() && first_free_step(world, pos, rest, fallback) == rest[k] && world.free(
                        stepped(pos, rest[k]),
                    ) && forall|j: int| 0 <= j < k ==> !world.free(#[trigger] stepped(pos, rest[j]));
                assert(cands[k + 1] == rest[k]);
                assert forall|j: int| 0 <= j < k + 1 implies !world.free(#[trigger] stepped(pos, cands[j])) by {
                    if j > 0 {
                        assert(cands[j] == rest[j - 1]);
                    }
                }
            }
            assert forall|i: int| 0 <= i < rest.len() && (forall|i: int| 0 <= i < cands.len() ==> !world.free(#[trigger] stepped(pos, cands[i]))) implies !world.free(
                #[trigger] stepped(pos, rest[i]),
            ) by {
                assert(rest[i] == cands[i + 1]);
            }
        }
    }
}

/// The step `find_closest_tile` picks: when some direction that closes in on
/// the target leads onto a free cell, it is the first such direction (so a
/// blocked diagonal and a blocked horizontal step give way to a free vertical
/// one); only when none is free does it fall back to the best direction, and
/// towards the mover's own cell it is `North`.
pub proof fn lemma_closest_tile_first_free(world: &WorldMap, from: Position, to: Position)
    ensures
        (exists|i: int|
            0 <= i < approach_candidates(from, to).len() && world.free(
                #[trigger] stepped(from, approach_candidates(from, to)[i]),
            )) ==> exists|k: int|
            0 <= k < approach_candidates(from, to).len() && closest_tile(world, from, to) == approach_candidates(
                from,
                to,
            )[k] && world.free(stepped(from, closest_tile(world, from, to))) && forall|j: int|
                0 <= j < k ==> !world.free(#[trigger] stepped(from, approach_candidates(from, to)[j])),
        (forall|i: int|
            0 <= i < approach_candidates(from, to).len() ==> !world.free(
                #[trigger] stepped(from, approach_candidates(from, to)[i]),
            )) && approach_candidates(from, to).len() > 0 ==> closest_tile(world, from, to) == approach_candidates(
            from,
            to,
        )[0],
        from.x == to.x && from.y == to.y ==> closest_tile(world, from, to) == Direction::North,
{
    let c = approach_candidates(from, to);
    lemma_first_free_step(world, from, c, if c.len() > 0 { c[0] } else { Direction::North });
    if from.x == to.x && from.y == to.y {
        assert(c =~= Seq::<Direction>::empty());
    }
}

/// The directions that close in on the target, best first, by where the
/// target lies: the diagonal towards it, then the horizontal, then the
/// vertical step; a target in line gets only the one straight step.
pub proof fn lemma_approach_candidates_by_quadrant(from: Position, to: Position)
    ensures
        from.x < to.x && from.y < to.y ==> approach_candidates(from, to) == seq![
            Direction::SouthEast,
            Direction::East,
            Direction::South,
        ],
        from.x < to.x && from.y > to.y ==> approach_candidates(from, to) == seq![
            Direction::NorthEast,
            Direction::East,
            Direction::North,
        ],
        from.x > to.x && from.y < to.y ==> approach_candidates(from, to) == seq![
            Direction::SouthWest,
            Direction::West,
            Direction::South,
        ],
        from.x > to.x && from.y > to.y ==> approach_candidates(from, to) == seq![
            Direction::NorthWest,
            Direction::West,
            Direction::North,
        ],
        from.x < to.x && from.y == to.y ==> approach_candidates(from, to) == seq![Direction::East],
        from.x > to.x && from.y == to.y ==> approach_candidates(from, to) == seq![Direction::West],
        from.x == to.x && from.y < to.y ==> approach_candidates(from, to) == seq![Direction::South],
        from.x == to.x && from.y > to.y ==> approach_candidates(from, to) == seq![Direction::North],
        from.x == to.x && from.y == to.y ==> approach_candidates(from, to) == Seq::<Direction>::empty(),
{
    let c = approach_candidates(from, to);
    if from.x < to.x && from.y < to.y {
        assert(c =~= seq![Direction::SouthEast, Direction::East, Direction::South]);
    } else if from.x < to.x && from.y > to.y {
        assert(c =~= seq![Direction::NorthEast, Direction::East, Direction::North]);
    } else if from.x > to.x && from.y < to.y {
        assert(c =~= seq![Direction::SouthWest, Direction::West, Direction::South]);
    } else if from.x > to.x && from.y > to.y {
        assert(c =~= seq![Direction::NorthWest, Direction::West, Direction::North]);
    } else if from.x < to.x {
        assert(c =~= seq![Direction::East]);
    } else if from.x > to.x {
        assert(c =~= seq![Direction::West]);
    } else if from.y < to.y {
        assert(c =~= seq![Direction::South]);
    } else if from.y > to.y {
        assert(c =~= seq![Direction::North]);
    } else {
        assert(c =~= Seq::<Direction>::empty());
    }
}

/// Each direction moves one cell the way its name says (`North` towards
/// `y = 0`, `East` away from `x = 0`), away from the ends of `usize`; the
/// layer is kept.
pub proof fn lemma_step_directions(pos: Position)
    requires
        0 < pos.x < usize::MAX,
        0 < pos.y < usize::MAX,
    ensures
        stepped(pos, Direction::North) == (Position { y: (pos.y - 1) as usize, ..pos }),
        stepped(pos, Direction::South) == (Position { y: (pos.y + 1) as usize, ..pos }),
        stepped(pos, Direction::East) == (Position { x: (pos.x + 1) as usize, ..pos }),
        stepped(pos, Direction::West) == (Position { x: (pos.x - 1) as usize, ..pos }),
        stepped(pos, Direction::NorthEast) == (Position { x: (pos.x + 1) as usize, y: (pos.y - 1) as usize, ..pos }),
        stepped(pos, Direction::NorthWest) == (Position { x: (pos.x - 1) as usize, y: (pos.y - 1) as usize, ..pos }),
        stepped(pos, Direction::SouthEast) == (Position { x: (pos.x + 1) as usize, y: (pos.y + 1) as usize, ..pos }),
        stepped(pos, Direction::SouthWest) == (Position { x: (pos.x - 1) as usize, y: (pos.y + 1) as usize, ..pos }),
{
}


/// The Chebyshev distance is the larger of the two axis gaps: symmetric,
/// zero exactly between cells with the same coordinates, and never below
/// either gap.
pub proof fn lemma_chebyshev_is_the_larger_gap(a: Position, b: Position)
    ensures
        cheb(a, b) == cheb(b, a),
        cheb(a, b) >= a.x - b.x && cheb(a, b) >= b.x - a.x,
        cheb(a, b) >= a.y - b.y && cheb(a, b) >= b.y - a.y,
        cheb(a, b) == a.x - b.x || cheb(a, b) == b.x - a.x || cheb(a, b) == a.y - b.y || cheb(a, b) == b.y - a.y,
        cheb(a, b) == 0 <==> a.x == b.x && a.y == b.y,
{
}

} // verus!
