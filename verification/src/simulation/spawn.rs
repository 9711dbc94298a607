use vstd::prelude::*;

use rand::seq::{IndexedRandom, SliceRandom};
use rand::RngExt;

use super::components::{Direction, Egg, Plant};

verus! {

/// How many founding families the world starts with.
pub const STARTING_FAMILIES: u32 = 100;

/// Bites a fresh tree withstands before the last one finishes it.
pub const PLANT_HEALTH: u32 = 7;

/// Draw layers: a higher layer is drawn on top of a lower one in the same cell.
pub const CORPSE_LAYER: usize = 0;
pub const EGG_LAYER: usize = 1;
pub const GRASS_LAYER: usize = 1;
pub const PLANT_LAYER: usize = 2;
pub const DINO_LAYER: usize = 3;

/// rand's `RngExt::random_range` on an inclusive `u64` range, drawn from the
/// thread-local generator `rand::rng()`: the result lies in `lo ..= hi` (the
/// crate panics on an empty range, which `requires` rules out). Which value
/// comes out is chance.
#[verifier::external_body]
fn random_between(lo: u64, hi: u64) -> (r: u64)
    requires
        lo <= hi,
    ensures
        lo <= r <= hi,
{
    rand::rng().random_range(lo..=hi)
}

/// rand's `SliceRandom::shuffle` with the thread-local generator: the slice
/// is permuted in place by swaps, so it holds the same directions as before,
/// in an order left to chance.
#[verifier::external_body]
fn shuffle_directions(dirs: &mut [Direction; 8])
    ensures
        final(dirs)@.to_multiset() == old(dirs)@.to_multiset(),
{
    dirs.shuffle(&mut rand::rng());
}

/// The eight directions in a random order.
pub fn shuffled_directions() -> (dirs: [Direction; 8])
    ensures
        dirs@.to_multiset() == Direction::ALL@.to_multiset(),
{
    let mut dirs = Direction::ALL;
    shuffle_directions(&mut dirs);
    dirs
}

/// A random leafy green: red and blue in `20 .. 100`, green in `120 ..= 255`.
pub fn random_green() -> (color: (u8, u8, u8))
    ensures
        20 <= color.0 < 100,
        120 <= color.1,
        20 <= color.2 < 100,
{
    let r = random_between(20, 99);
    let g = random_between(120, 255);
    let b = random_between(20, 99);
    (r as u8, g as u8, b as u8)
}

/// The glyphs a grass tuft is drawn with (`,` twice as often).
pub open spec fn grass_glyphs() -> Seq<&'static str> {
    seq![".", ",", ",", "·", "'", "˙"]
}

/// The glyphs a tree is drawn with (`♣` twice as often).
pub open spec fn plant_glyphs() -> Seq<&'static str> {
    seq!["♣", "♠", "♧", "♤", "♣"]
}

/// rand's `IndexedRandom::choose` with the thread-local generator: on a
/// non-empty slice it returns one of the slice's elements, which one left to
/// chance (it is `None` only on an empty slice, which `requires` rules out).
#[verifier::external_body]
fn choose_glyph(glyphs: &[&'static str]) -> (glyph: &'static str)
    requires
        glyphs@.len() > 0,
    ensures
        glyphs@.contains(glyph),
{
    *glyphs.choose(&mut rand::rng()).unwrap()
}

pub fn random_grass_glyph() -> (glyph: &'static str)
    ensures
        grass_glyphs().contains(glyph),
{
    let glyphs: [&'static str; 6] = [".", ",", ",", "·", "'", "˙"];
    assert(glyphs@ =~= grass_glyphs());
    choose_glyph(glyphs.as_slice())
}

pub fn random_plant_glyph() -> (glyph: &'static str)
    ensures
        plant_glyphs().contains(glyph),
{
    let glyphs: [&'static str; 5] = ["♣", "♠", "♧", "♤", "♣"];
    assert(glyphs@ =~= plant_glyphs());
    choose_glyph(glyphs.as_slice())
}

impl Egg {
    /// A freshly laid egg.
    pub fn laid() -> (egg: Egg)
        ensures
            egg.age == 0,
    {
        Egg { age: 0 }
    }
}

impl Plant {
    /// A fresh tree of the given colour.
    pub fn grown(original_color: (u8, u8, u8)) -> (plant: Plant)
        ensures
            plant.health == PLANT_HEALTH,
            plant.original_color == original_color,
    {
        Plant { health: PLANT_HEALTH, original_color }
    }
}

} // verus!
