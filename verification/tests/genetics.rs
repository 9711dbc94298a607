use jurassic_sandbox::simulation::genetics::{blend_colors, next_generation};
use jurassic_sandbox::simulation::DinoState;

#[test]
fn colors_blend_to_the_midpoint_rounded_down() {
    assert_eq!(blend_colors((10, 20, 30), (21, 40, 61)), (15, 30, 45));
    assert_eq!(blend_colors((255, 255, 0), (255, 254, 1)), (255, 254, 0));
}

#[test]
fn blending_is_symmetric_and_idempotent() {
    let a = (3, 200, 17);
    let b = (90, 1, 18);
    assert_eq!(blend_colors(a, b), blend_colors(b, a));
    assert_eq!(blend_colors(a, a), a);
}

#[test]
fn generation_counts_up_and_saturates() {
    assert_eq!(next_generation(0), 1);
    assert_eq!(next_generation(41), 42);
    assert_eq!(next_generation(u32::MAX), u32::MAX);
}

#[test]
fn decide_follows_the_priorities() {
    assert_eq!(DinoState::decide(true, true, true, true, true), DinoState::Dieing);
    assert_eq!(DinoState::decide(true, false, true, true, true), DinoState::LayingEgg);
    assert_eq!(DinoState::decide(false, false, true, true, true), DinoState::SeekingFood);
    assert_eq!(DinoState::decide(false, false, false, true, true), DinoState::Healing);
    assert_eq!(DinoState::decide(false, false, false, false, true), DinoState::SeekingPartner);
    assert_eq!(DinoState::decide(false, false, false, false, false), DinoState::Wandering);
    assert_eq!(DinoState::default(), DinoState::Wandering);
}
