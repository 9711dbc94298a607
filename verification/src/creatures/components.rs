use vstd::prelude::*;

verus! {

/// An egg and the ticks it has been incubating.
#[derive(Clone, Copy, Debug)]
pub struct Egg {
    pub age: u32,
}

/// Marks a dinosaur.
#[derive(Clone, Copy, Debug)]
pub struct Dinosaur {}

/// Health points; none left means dead.
#[derive(Clone, Copy, Debug)]
pub struct Health(pub u32);

impl Health {
    /// Loses `amount` points, stopping at 0.
    pub fn decrease(&mut self, amount: u32)
        ensures
            final(self).0 == if old(self).0 >= amount {
                old(self).0 - amount
            } else {
                0
            },
    {
        self.0 = self.0.saturating_sub(amount);
    }

    pub fn is_dead(&self) -> (dead: bool)
        ensures
            dead == (self.0 == 0),
    {
        self.0 == 0
    }
}

/// Marks what can die.
#[derive(Clone, Copy, Debug)]
pub struct Mortal {}

/// Marks a corpse.
#[derive(Clone, Copy, Debug)]
pub struct Corpse;

/// A tree: it takes `health + 1` bites to finish.
#[derive(Clone, Copy, Debug)]
pub struct Plant {
    pub health: u32,
}

/// The four grid directions (`North` is towards `y = 0`).
#[derive(Clone, Copy, Debug, PartialEq, Eq, Structural)]
pub enum Direction {
    North,
    South,
    East,
    West,
}

/// A family's inherited traits.
#[derive(Debug)]
pub struct Genes {
    pub starving_resistance: i32,
    pub glyph: String,
    /// RGB colour.
    pub color: (u8, u8, u8),
    pub family: u32,
}

impl Clone for Genes {
    fn clone(&self) -> (copy: Self)
        ensures
            copy.starving_resistance == self.starving_resistance,
            copy.glyph@ == self.glyph@,
            copy.color == self.color,
            copy.family == self.family,
    {
        Genes {
            starving_resistance: self.starving_resistance,
            glyph: self.glyph.clone(),
            color: self.color,
            family: self.family,
        }
    }
}

/// Hunger points and how many a dinosaur takes before it starves.
#[derive(Clone, Copy, Debug)]
pub struct Hungry {
    pub hunger: u32,
    pub starvation_threshold: u32,
}

impl Hungry {
    /// Grows hunger by `amount`, stopping at `u32::MAX`.
    pub fn increase(&mut self, amount: u32)
        ensures
            final(self).hunger == if old(self).hunger + amount > u32::MAX {
                u32::MAX as int
            } else {
                old(self).hunger + amount
            },
            final(self).starvation_threshold == old(self).starvation_threshold,
    {
        self.hunger = self.hunger.saturating_add(amount)
    }

    /// Hunger has passed the threshold.
    pub fn is_starving(&self) -> (starving: bool)
        ensures
            starving == (self.hunger > self.starvation_threshold),
    {
        self.hunger > self.starvation_threshold
    }
}

/// Marks a starving dinosaur.
#[derive(Clone, Copy, Debug)]
pub struct Starving;

/// Marks a wandering dinosaur.
#[derive(Clone, Copy, Debug)]
pub struct Wanderer;

/// Rot: it grows one point a tick until it reaches the threshold.
#[derive(Clone, Copy, Debug)]
pub struct Decay {
    pub degradation_threshold: u32,
    pub degradation: u32,
}

impl Decay {
    /// One more point of rot, stopping at `u32::MAX`.
    pub fn increase(&mut self)
        ensures
            final(self).degradation == if old(self).degradation == u32::MAX {
                u32::MAX as int
            } else {
                old(self).degradation + 1
            },
            final(self).degradation_threshold == old(self).degradation_threshold,
    {
        self.degradation = self.degradation.saturating_add(1);
    }

    /// The rot has reached its threshold: the remains disappear.
    pub fn is_gone(&self) -> (gone: bool)
        ensures
            gone == (self.degradation >= self.degradation_threshold),
    {
        self.degradation >= self.degradation_threshold
    }
}

} // verus!
