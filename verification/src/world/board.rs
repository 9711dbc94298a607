use vstd::prelude::*;

verus! {

/// The identity of a simulated thing (a dinosaur, an egg, a plant...): the
/// bits of the entity that the host engine gave it.
#[derive(Clone, Copy, Debug, Hash, PartialEq, Eq, Structural)]
pub struct EntityId(pub u64);

/// The rectangular board: cells `(x, y)` with `x < width` and `y < height`.
#[derive(Clone, Copy, Debug, PartialEq, Eq, Structural)]
pub struct Board {
    pub width: usize,
    pub height: usize,
}

/// Grid cell. `z` is only a draw layer (who is on top), not occupancy.
#[derive(Clone, Copy, Debug, Hash, PartialEq, Eq, Structural)]
pub struct Position {
    pub x: usize,
    pub y: usize,
    pub z: usize,
}

/// What a cell shows: a glyph and its RGB colour.
#[derive(Clone, Copy, Debug)]
pub struct Renderable {
    pub glyph: &'static str,
    pub color: (u8, u8, u8),
}

impl Board {
    /// The position lies on the board (its layer `z` plays no part).
    pub open spec fn contains(self, position: Position) -> bool {
        position.x < self.width && position.y < self.height
    }

    pub fn is_inside(&self, position: Position) -> (inside: bool)
        ensures
            inside == self.contains(position),
    {
        position.x < self.width && position.y < self.height
    }
}

} // verus!
