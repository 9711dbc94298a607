use vstd::prelude::*;

verus! {

/// The mean of two channels, rounded down.
pub open spec fn channel_midpoint(a: u8, b: u8) -> u8 {
    ((a as int + b as int) / 2) as u8
}

/// Each channel of the child's colour is the midpoint of the parents'.
pub open spec fn blended_color(father: (u8, u8, u8), mother: (u8, u8, u8)) -> (u8, u8, u8) {
    (
        channel_midpoint(mother.0, father.0),
        channel_midpoint(mother.1, father.1),
        channel_midpoint(mother.2, father.2),
    )
}

fn midpoint(a: u8, b: u8) -> (m: u8)
    ensures
        m == channel_midpoint(a, b),
{
    ((a as u16 + b as u16) / 2) as u8
}

/// The child's colour: channel by channel, the parents' mean rounded down.
pub fn blend_colors(father: (u8, u8, u8), mother: (u8, u8, u8)) -> (child: (u8, u8, u8))
    ensures
        child == blended_color(father, mother),
{
    (midpoint(mother.0, father.0), midpoint(mother.1, father.1), midpoint(mother.2, father.2))
}

/// The child is one generation after its father (saturating at `u32::MAX`).
pub fn next_generation(father_generation: u32) -> (generation: u32)
    ensures
        generation == if father_generation == u32::MAX {
            u32::MAX as int
        } else {
            father_generation + 1
        },
{
    father_generation.saturating_add(1)
}

/// Blending does not depend on which parent is which, a colour blended with
/// itself is unchanged, and every channel lies between the parents'.
pub proof fn lemma_blend_symmetric_idempotent_between(a: (u8, u8, u8), b: (u8, u8, u8))
    ensures
        blended_color(a, b) == blended_color(b, a),
        blended_color(a, a) == a,
        a.0 <= b.0 ==> a.0 <= blended_color(a, b).0 <= b.0,
        b.0 <= a.0 ==> b.0 <= blended_color(a, b).0 <= a.0,
        a.1 <= b.1 ==> a.1 <= blended_color(a, b).1 <= b.1,
        b.1 <= a.1 ==> b.1 <= blended_color(a, b).1 <= a.1,
        a.2 <= b.2 ==> a.2 <= blended_color(a, b).2 <= b.2,
        b.2 <= a.2 ==> b.2 <= blended_color(a, b).2 <= a.2,
{
}


/// Each channel of the child is the parents' mean rounded down: twice it is
/// at most their sum and less than their sum plus two.
pub proof fn lemma_blend_rounds_down(a: (u8, u8, u8), b: (u8, u8, u8))
    ensures
        2 * blended_color(a, b).0 <= a.0 + b.0 < 2 * blended_color(a, b).0 + 2,
        2 * blended_color(a, b).1 <= a.1 + b.1 < 2 * blended_color(a, b).1 + 2,
        2 * blended_color(a, b).2 <= a.2 + b.2 < 2 * blended_color(a, b).2 + 2,
{
}

} // verus!
