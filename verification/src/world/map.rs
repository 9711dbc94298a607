use vstd::prelude::*;

use super::board::{Board, EntityId, Position};
use super::occupancy::Occupancy;

verus! {

/// Bundles board bounds + occupancy so systems don't fight over those two
/// resources.
pub struct WorldMap {
    board: Board,
    occupancy: Occupancy,
}

impl WorldMap {
    /// The occupancy grid has exactly the board's shape.
    pub closed spec fn wf(&self) -> bool {
        &&& self.occupancy.wf()
        &&& self.occupancy.grid_width() == self.board.width
        &&& self.occupancy.grid_height() == self.board.height
    }

    pub closed spec fn width(&self) -> nat {
        self.board.width as nat
    }

    pub closed spec fn height(&self) -> nat {
        self.board.height as nat
    }

    pub open spec fn on_board(&self, pos: Position) -> bool {
        pos.x < self.width() && pos.y < self.height()
    }

    /// Who stands on `pos` (`None` off the board).
    pub closed spec fn occ(&self, pos: Position) -> Option<EntityId> {
        self.occupancy.occupant(pos)
    }

    /// A mover may enter `pos`: it is on the board and nobody stands there.
    pub open spec fn free(&self, pos: Position) -> bool {
        self.on_board(pos) && self.occ(pos) is None
    }

    /// Nobody stands off the board.
    pub proof fn lemma_off_board_empty(self, pos: Position)
        requires
            self.wf(),
            !self.on_board(pos),
        ensures
            self.occ(pos) is None,
    {
    }

    /// The occupant of a position depends on its `x` and `y` only.
    pub proof fn lemma_layer_ignored(self, a: Position, b: Position)
        requires
            a.x == b.x,
            a.y == b.y,
        ensures
            self.occ(a) == self.occ(b),
    {
    }

    /// An empty map of the board's shape.
    pub fn new(board: Board) -> (world: Self)
        requires
            board.width * board.height <= usize::MAX,
        ensures
            world.wf(),
            world.width() == board.width,
            world.height() == board.height,
            forall|pos: Position| #[trigger] world.occ(pos) is None,
    {
        let occupancy = Occupancy::new(board.width, board.height);
        WorldMap { board, occupancy }
    }

    pub fn board(&self) -> (board: Board)
        ensures
            board.width == self.width(),
            board.height == self.height(),
    {
        self.board
    }

    pub fn is_free(&self, pos: Position) -> (free: bool)
        requires
            self.wf(),
        ensures
            free == self.free(pos),
    {
        self.board.is_inside(pos) && !self.occupancy.is_occupied(pos)
    }

    /// `None` for both an empty tile and an out-of-bounds position.
    pub fn entity_at(&self, pos: Position) -> (who: Option<EntityId>)
        requires
            self.wf(),
        ensures
            who == self.occ(pos),
    {
        if self.board.is_inside(pos) {
            self.occupancy.get(pos)
        } else {
            None
        }
    }

    /// `after` is `before` with `from` emptied and then `entity` put on `to`
    /// (positions off the board are left alone).
    pub open spec fn moved(before: &Self, after: &Self, entity: EntityId, from: Position, to: Position) -> bool {
        &&& after.wf()
        &&& after.width() == before.width()
        &&& after.height() == before.height()
        &&& forall|q: Position|
            #[trigger] after.occ(q) == if before.on_board(to) && q.x == to.x && q.y == to.y {
                Some(entity)
            } else if before.on_board(from) && q.x == from.x && q.y == from.y {
                None
            } else {
                before.occ(q)
            }
    }

    /// Empties `from`, then puts `entity` on `to` (positions off the board are
    /// left alone).
    pub fn move_entity(&mut self, entity: EntityId, from: Position, to: Position)
        requires
            old(self).wf(),
        ensures
            Self::moved(old(self), final(self), entity, from, to),
    {
        self.occupancy.set(from, None);
        self.occupancy.set(to, Some(entity));
    }

    pub fn set_occupied(&mut self, entity: EntityId, pos: Position)
        requires
            old(self).wf(),
        ensures
            final(self).wf(),
            final(self).width() == old(self).width(),
            final(self).height() == old(self).height(),
            forall|q: Position|
                #[trigger] final(self).occ(q) == if old(self).on_board(pos) && q.x == pos.x && q.y == pos.y {
                    Some(entity)
                } else {
                    old(self).occ(q)
                },
    {
        self.occupancy.set(pos, Some(entity));
    }

    pub fn set_free(&mut self, pos: Position)
        requires
            old(self).wf(),
        ensures
            final(self).wf(),
            final(self).width() == old(self).width(),
            final(self).height() == old(self).height(),
            forall|q: Position|
                #[trigger] final(self).occ(q) == if q.x == pos.x && q.y == pos.y {
                    None
                } else {
                    old(self).occ(q)
                },
    {
        self.occupancy.set(pos, None);
    }

    pub fn dimensions(&self) -> (dims: (usize, usize))
        ensures
            dims.0 == self.width(),
            dims.1 == self.height(),
    {
        (self.board.width, self.board.height)
    }
}

/// Every entity stands on at most one cell.
pub open spec fn unique_occupants(world: &WorldMap) -> bool {
    forall|p: Position, q: Position|
        #[trigger] world.occ(p) is Some && #[trigger] world.occ(q) == world.occ(p) ==> p.x == q.x && p.y == q.y
}

/// Moving an entity onto a free cell and back restores the map.
pub proof fn lemma_move_and_back(
    w0: &WorldMap,
    w1: &WorldMap,
    w2: &WorldMap,
    entity: EntityId,
    from: Position,
    to: Position,
)
    requires
        WorldMap::moved(w0, w1, entity, from, to),
        WorldMap::moved(w1, w2, entity, to, from),
        w0.on_board(from),
        w0.on_board(to),
        w0.occ(from) == Some(entity),
        w0.occ(to) is None,
    ensures
        forall|q: Position| #[trigger] w2.occ(q) == w0.occ(q),
{
    assert forall|q: Position| #[trigger] w2.occ(q) == w0.occ(q) by {
        if q.x == from.x && q.y == from.y {
            w0.lemma_layer_ignored(q, from);
        } else if q.x == to.x && q.y == to.y {
            w0.lemma_layer_ignored(q, to);
        }
    }
}

/// A move keeps every entity on at most one cell, provided the mover stood
/// on `from` and `to` was free.
pub proof fn lemma_move_keeps_occupants_unique(
    before: &WorldMap,
    after: &WorldMap,
    entity: EntityId,
    from: Position,
    to: Position,
)
    requires
        WorldMap::moved(before, after, entity, from, to),
        unique_occupants(before),
        before.occ(from) == Some(entity),
        before.free(to),
    ensures
        unique_occupants(after),
        after.occ(to) == Some(entity),
{
    assert forall|p: Position, q: Position|
        #[trigger] after.occ(p) is Some && #[trigger] after.occ(q) == after.occ(p) implies p.x == q.x && p.y == q.y by {
        let at_to_p = p.x == to.x && p.y == to.y;
        let at_to_q = q.x == to.x && q.y == to.y;
        if !at_to_p && !at_to_q {
            assert(before.occ(p) is Some);
            assert(before.occ(q) == before.occ(p));
        } else if at_to_p && !at_to_q {
            assert(before.occ(q) == Some(entity));
            assert(q.x == from.x && q.y == from.y);
        } else if !at_to_p && at_to_q {
            assert(before.occ(p) == Some(entity));
            assert(p.x == from.x && p.y == from.y);
        }
    }
}

} // verus!
