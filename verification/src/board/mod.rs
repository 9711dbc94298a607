//! The first version of the board: an occupancy grid that trusts its callers
//! to stay on the board.

use vstd::prelude::*;

pub use crate::world::{Board, EntityId, Position};

verus! {

/// What a cell shows.
pub struct Renderable {
    pub glyph: String,
}

/// Flat 2D occupancy grid (`y * width + x`); positions must lie in it.
pub struct Occupancy {
    pub cells: Vec<Option<EntityId>>,
    width: usize,
    height: usize,
}

impl Occupancy {
    pub closed spec fn grid_width(&self) -> nat {
        self.width as nat
    }

    pub closed spec fn grid_height(&self) -> nat {
        self.height as nat
    }

    pub closed spec fn contents(&self) -> Seq<Option<EntityId>> {
        self.cells@
    }

    pub open spec fn wf(&self) -> bool {
        self.contents().len() == self.grid_width() * self.grid_height()
    }

    /// The flat index of `pos`; positions past the end of a row wrap onto the
    /// next one.
    pub open spec fn flat_index(&self, pos: Position) -> int {
        pos.y * self.grid_width() + pos.x
    }

    /// `pos` names a cell of the grid's storage.
    pub open spec fn addressable(&self, pos: Position) -> bool {
        self.flat_index(pos) < self.contents().len()
    }

    pub fn new(width: usize, height: usize) -> (grid: Self)
        requires
            width * height <= usize::MAX,
        ensures
            grid.wf(),
            grid.grid_width() == width,
            grid.grid_height() == height,
            forall|i: int| 0 <= i < grid.contents().len() ==> #[trigger] grid.contents()[i] is None,
    {
        let n: usize = width * height;
        let mut cells: Vec<Option<EntityId>> = Vec::new();
        let mut i: usize = 0;
        while i < n
            invariant
                i <= n,
                cells@.len() == i,
                forall|j: int| 0 <= j < i ==> cells@[j] is None,
            decreases n - i,
        {
            cells.push(None);
            i = i + 1;
        }
        Occupancy { cells, width, height }
    }

    /// `y * width + x`.
    pub fn index(&self, pos: Position) -> (index: usize)
        requires
            self.addressable(pos),
        ensures
            index == self.flat_index(pos),
    {
        let len = self.cells.len();
        assert(pos.y * self.width + pos.x < len);
        pos.y * self.width + pos.x
    }

    pub fn get(&self, pos: Position) -> (who: Option<EntityId>)
        requires
            self.addressable(pos),
        ensures
            who == self.contents()[self.flat_index(pos)],
    {
        let index = self.index(pos);
        self.cells[index]
    }

    pub fn set(&mut self, pos: Position, entity: Option<EntityId>)
        requires
            old(self).addressable(pos),
        ensures
            final(self).grid_width() == old(self).grid_width(),
            final(self).grid_height() == old(self).grid_height(),
            final(self).contents() == old(self).contents().update(old(self).flat_index(pos), entity),
    {
        let index = self.index(pos);
        self.cells.set(index, entity);
    }

    pub fn is_occupied(&self, pos: Position) -> (occupied: bool)
        requires
            self.addressable(pos),
        ensures
            occupied == self.contents()[self.flat_index(pos)] is Some,
    {
        let index = self.index(pos);
        self.cells[index].is_some()
    }
}

} // verus!
