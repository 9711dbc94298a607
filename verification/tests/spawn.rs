use jurassic_sandbox::simulation::spawn::{
    random_grass_glyph, random_green, random_plant_glyph, shuffled_directions, PLANT_HEALTH,
};
use jurassic_sandbox::simulation::{Direction, Egg, Plant};

#[test]
fn greens_stay_in_range() {
    let mut varied = false;
    let first = random_green();
    for _ in 0..200 {
        let (r, g, b) = random_green();
        assert!((20..100).contains(&r));
        assert!(g >= 120);
        assert!((20..100).contains(&b));
        varied |= (r, g, b) != first;
    }
    assert!(varied);
}

#[test]
fn glyphs_come_from_their_sets() {
    let mut grass_seen: Vec<&str> = Vec::new();
    let mut plant_seen: Vec<&str> = Vec::new();
    for _ in 0..200 {
        let grass = random_grass_glyph();
        let plant = random_plant_glyph();
        assert!([".", ",", "·", "'", "˙"].contains(&grass));
        assert!(["♣", "♠", "♧", "♤"].contains(&plant));
        if !grass_seen.contains(&grass) {
            grass_seen.push(grass);
        }
        if !plant_seen.contains(&plant) {
            plant_seen.push(plant);
        }
    }
    assert!(grass_seen.len() > 1);
    assert!(plant_seen.len() > 1);
}

#[test]
fn shuffled_directions_are_a_permutation() {
    let mut moved = false;
    for _ in 0..50 {
        let dirs = shuffled_directions();
        for d in Direction::ALL {
            assert_eq!(dirs.iter().filter(|x| **x == d).count(), 1);
        }
        moved |= dirs != Direction::ALL;
    }
    assert!(moved);
}

#[test]
fn fresh_things() {
    assert_eq!(Egg::laid().age, 0);
    let plant = Plant::grown((1, 2, 3));
    assert_eq!(plant.health, PLANT_HEALTH);
    assert_eq!(plant.original_color, (1, 2, 3));
}
