use vstd::prelude::*;

use super::board::{EntityId, Position};

verus! {

/// Flat 2D occupancy grid (`y * width + x`). `Position.z` is ignored.
pub struct Occupancy {
    pub cells: Vec<Option<EntityId>>,
    width: usize,
    height: usize,
}

/// `y * w + x` is a bijection between the cells of a `w` by `h` grid and the
/// indices `0 .. w * h`.
pub proof fn lemma_flat_index(w: int, h: int, x: int, y: int, x2: int, y2: int)
    requires
        0 <= x < w,
        0 <= y < h,
        0 <= x2 < w,
        0 <= y2 < h,
    ensures
        0 <= y * w + x < w * h,
        y * w + x == y2 * w + x2 ==> x == x2 && y == y2,
{
    assert(0 <= y * w + x < w * h) by (nonlinear_arith)
        requires
            0 <= x < w,
            0 <= y < h,
    ;
    assert(y * w + x == y2 * w + x2 ==> x == x2 && y == y2) by (nonlinear_arith)
        requires
            0 <= x < w,
            0 <= y < h,
            0 <= x2 < w,
            0 <= y2 < h,
    ;
}

impl Occupancy {
    pub closed spec fn grid_width(self) -> nat {
        self.width as nat
    }

    pub closed spec fn grid_height(self) -> nat {
        self.height as nat
    }

    /// The cells, row after row.
    pub closed spec fn contents(self) -> Seq<Option<EntityId>> {
        self.cells@
    }

    /// One cell per board square, and nothing else.
    pub open spec fn wf(self) -> bool {
        self.contents().len() == self.grid_width() * self.grid_height()
    }

    pub open spec fn in_bounds(self, pos: Position) -> bool {
        pos.x < self.grid_width() && pos.y < self.grid_height()
    }

    pub open spec fn flat_index(self, pos: Position) -> int {
        pos.y * self.grid_width() + pos.x
    }

    /// Who stands on `pos`: `None` for an empty cell and for every position off
    /// the grid.
    pub open spec fn occupant(self, pos: Position) -> Option<EntityId> {
        if self.in_bounds(pos) {
            self.contents()[self.flat_index(pos)]
        } else {
            None
        }
    }

    pub open spec fn same_cell(a: Position, b: Position) -> bool {
        a.x == b.x && a.y == b.y
    }

    pub proof fn lemma_index_in_range(self, pos: Position)
        requires
            self.wf(),
            self.in_bounds(pos),
        ensures
            0 <= self.flat_index(pos) < self.contents().len(),
    {
        lemma_flat_index(
            self.grid_width() as int,
            self.grid_height() as int,
            pos.x as int,
            pos.y as int,
            pos.x as int,
            pos.y as int,
        );
    }

    /// Two in-bounds positions share a flat index exactly when they name the
    /// same cell.
    pub proof fn lemma_index_injective(self, a: Position, b: Position)
        requires
            self.wf(),
            self.in_bounds(a),
            self.in_bounds(b),
        ensures
            (self.flat_index(a) == self.flat_index(b)) == Self::same_cell(a, b),
    {
        lemma_flat_index(
            self.grid_width() as int,
            self.grid_height() as int,
            a.x as int,
            a.y as int,
            b.x as int,
            b.y as int,
        );
    }

    /// An empty `width` by `height` grid.
    pub fn new(width: usize, height: usize) -> (grid: Self)
        requires
            width * height <= usize::MAX,
        ensures
            grid.wf(),
            grid.grid_width() == width,
            grid.grid_height() == height,
            forall|pos: Position| #[trigger] grid.occupant(pos) == None::<EntityId>,
    {
        let n: usize = width * height;
        let mut cells: Vec<Option<EntityId>> = Vec::new();
        let mut i: usize = 0;
        while i < n
            invariant
                i <= n,
                cells@.len() == i,
                forall|j: int| 0 <= j < i ==> cells@[j] == None::<EntityId>,
            decreases n - i,
        {
            cells.push(None);
            i = i + 1;
        }
        let grid = Occupancy { cells, width, height };
        assert forall|pos: Position| #[trigger] grid.occupant(pos) == None::<EntityId> by {
            if grid.in_bounds(pos) {
                grid.lemma_index_in_range(pos);
            }
        }
        grid
    }

    /// Who stands on `pos`; `pos` must be on the grid.
    pub fn get(&self, pos: Position) -> (who: Option<EntityId>)
        requires
            self.wf(),
            self.in_bounds(pos),
        ensures
            who == self.occupant(pos),
    {
        let index = self.index(pos);
        self.cells[index]
    }

    /// `after` is `before` with `entity` (or nothing) written on `pos`; a
    /// position off the grid changes nothing.
    pub open spec fn written(before: Self, after: Self, pos: Position, entity: Option<EntityId>) -> bool {
        &&& after.wf()
        &&& after.grid_width() == before.grid_width()
        &&& after.grid_height() == before.grid_height()
        &&& forall|q: Position|
            #[trigger] after.occupant(q) == if before.in_bounds(pos) && Self::same_cell(q, pos) {
                entity
            } else {
                before.occupant(q)
            }
    }

    /// Puts `entity` (or nothing) on `pos`; a position off the grid is ignored.
    pub fn set(&mut self, pos: Position, entity: Option<EntityId>)
        requires
            old(self).wf(),
        ensures
            Self::written(*old(self), *final(self), pos, entity),
    {
        let ghost before = *self;
        if let Some(index) = self.try_index(pos) {
            self.cells.set(index, entity);
            assert forall|q: Position|
                #[trigger] self.occupant(q) == if before.in_bounds(pos) && Self::same_cell(q, pos) {
                    entity
                } else {
                    before.occupant(q)
                } by {
                if before.in_bounds(q) {
                    before.lemma_index_injective(q, pos);
                    before.lemma_index_in_range(q);
                }
            }
        }
    }

    /// The flat index of `pos`, which must be on the grid.
    pub fn index(&self, pos: Position) -> (index: usize)
        requires
            self.wf(),
            self.in_bounds(pos),
        ensures
            index == self.flat_index(pos),
            index < self.contents().len(),
    {
        match self.try_index(pos) {
            Some(index) => index,
            None => {
                assert(false);
                0
            },
        }
    }

    fn try_index(&self, pos: Position) -> (index: Option<usize>)
        requires
            self.wf(),
        ensures
            match index {
                Some(i) => self.in_bounds(pos) && i == self.flat_index(pos) && i < self.contents().len(),
                None => !self.in_bounds(pos),
            },
    {
        if pos.x >= self.width || pos.y >= self.height {
            None
        } else {
            let len = self.cells.len();
            proof {
                self.lemma_index_in_range(pos);
                assert(pos.y * self.width + pos.x < len);
            }
            Some(pos.y * self.width + pos.x)
        }
    }

    /// Off-board cells count as occupied so movers never step outside.
    pub fn is_occupied(&self, pos: Position) -> (occupied: bool)
        requires
            self.wf(),
        ensures
            occupied == (!self.in_bounds(pos) || self.occupant(pos) is Some),
    {
        match self.try_index(pos) {
            Some(index) => self.cells[index].is_some(),
            None => true,
        }
    }
}

/// A read gives back what the last write on that cell wrote, and a write
/// leaves every other cell as it was.
pub proof fn lemma_read_after_write(
    before: Occupancy,
    after: Occupancy,
    pos: Position,
    entity: Option<EntityId>,
    q: Position,
)
    requires
        Occupancy::written(before, after, pos, entity),
    ensures
        before.in_bounds(pos) && Occupancy::same_cell(q, pos) ==> after.occupant(q) == entity,
        !Occupancy::same_cell(q, pos) ==> after.occupant(q) == before.occupant(q),
        !before.in_bounds(pos) ==> after.occupant(q) == before.occupant(q),
{
}

/// Of two writes on one cell the second wins: together they act as the
/// second alone.
pub proof fn lemma_last_write_wins(
    a: Occupancy,
    b: Occupancy,
    c: Occupancy,
    pos: Position,
    first: Option<EntityId>,
    second: Option<EntityId>,
)
    requires
        Occupancy::written(a, b, pos, first),
        Occupancy::written(b, c, pos, second),
    ensures
        Occupancy::written(a, c, pos, second),
{
}

/// Writing back what a cell held before undoes a write.
pub proof fn lemma_write_undone(a: Occupancy, b: Occupancy, c: Occupancy, pos: Position, entity: Option<EntityId>)
    requires
        Occupancy::written(a, b, pos, entity),
        Occupancy::written(b, c, pos, a.occupant(pos)),
    ensures
        forall|q: Position| #[trigger] c.occupant(q) == a.occupant(q),
{
    assert forall|q: Position| #[trigger] c.occupant(q) == a.occupant(q) by {
        if a.in_bounds(pos) && Occupancy::same_cell(q, pos) {
            assert(a.occupant(q) == a.occupant(pos));
        }
    }
}

} // verus!
