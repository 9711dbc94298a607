use vstd::prelude::*;

verus! {

/// An egg and the ticks it has been incubating.
#[derive(Clone, Copy, Debug, PartialEq, Eq, Structural)]
pub struct Egg {
    pub age: u32,
}

/// What is left of a dinosaur; it remembers the colour it had alive.
#[derive(Clone, Copy, Debug)]
pub struct Corpse {
    pub original_color: (u8, u8, u8),
}

/// A tree: it takes `health + 1` bites to finish.
#[derive(Clone, Copy, Debug)]
pub struct Plant {
    pub health: u32,
    pub original_color: (u8, u8, u8),
}

/// The eight grid directions (`North` is towards `y = 0`).
#[derive(Clone, Copy, Debug, PartialEq, Eq, Structural)]
pub enum Direction {
    North,
    South,
    East,
    West,
    NorthEast,
    NorthWest,
    SouthEast,
    SouthWest,
}

impl Direction {
    /// The eight directions, cardinals first.
    pub const ALL: [Direction; 8] = [
        Direction::North,
        Direction::South,
        Direction::East,
        Direction::West,
        Direction::NorthEast,
        Direction::NorthWest,
        Direction::SouthEast,
        Direction::SouthWest,
    ];

    /// The step a direction makes along `x`.
    pub open spec fn dx(self) -> int {
        match self {
            Direction::East | Direction::NorthEast | Direction::SouthEast => 1,
            Direction::West | Direction::NorthWest | Direction::SouthWest => -1,
            _ => 0,
        }
    }

    /// The step a direction makes along `y`.
    pub open spec fn dy(self) -> int {
        match self {
            Direction::South | Direction::SouthEast | Direction::SouthWest => 1,
            Direction::North | Direction::NorthEast | Direction::NorthWest => -1,
            _ => 0,
        }
    }
}

/// The list of all directions, as a sequence.
pub open spec fn all_directions() -> Seq<Direction> {
    seq![
        Direction::North,
        Direction::South,
        Direction::East,
        Direction::West,
        Direction::NorthEast,
        Direction::NorthWest,
        Direction::SouthEast,
        Direction::SouthWest,
    ]
}

/// `true` = male, `false` = female. Females receive `Pregnant` on mating.
#[derive(Clone, Copy, Debug, PartialEq, Eq, Structural)]
pub struct Gender(pub bool);

/// Marks a plant eater.
#[derive(Clone, Copy, Debug)]
pub struct Herbivore {}

/// Marks a grass tuft (decoration: it occupies no cell).
#[derive(Clone, Copy, Debug)]
pub struct Grass;

/// What a dinosaur is busy with this tick.
#[derive(Clone, Copy, Debug, Default, PartialEq, Eq, Structural)]
pub enum DinoState {
    #[default]
    Wandering,
    Healing,
    SeekingPartner,
    SeekingFood,
    LayingEgg,
    Dieing,
}

impl DinoState {
    /// The state chosen from a dinosaur's condition, in priority order:
    /// dying (fully old, or no health left), laying (pregnant), seeking food
    /// (hunger above one half), healing (hurt), seeking a partner (full desire
    /// and past the youngest age), else wandering.
    pub open spec fn decided(
        is_pregnant: bool,
        worn_out: bool,
        hungry: bool,
        hurt: bool,
        ready_to_mate: bool,
    ) -> DinoState {
        if worn_out {
            DinoState::Dieing
        } else if is_pregnant {
            DinoState::LayingEgg
        } else if hungry {
            DinoState::SeekingFood
        } else if hurt {
            DinoState::Healing
        } else if ready_to_mate {
            DinoState::SeekingPartner
        } else {
            DinoState::Wandering
        }
    }

    /// Food always wins over mating; a pregnant dino only lays.
    ///
    /// The caller reads the dinosaur's gauges: `worn_out` is `maturity >= 1`
    /// or `health <= 0`, `hungry` is `hunger > 0.5`, `hurt` is `health < 1`
    /// and `ready_to_mate` is `desire >= 1 && maturity > 0.3`.
    pub fn decide(
        is_pregnant: bool,
        worn_out: bool,
        hungry: bool,
        hurt: bool,
        ready_to_mate: bool,
    ) -> (state: DinoState)
        ensures
            state == Self::decided(is_pregnant, worn_out, hungry, hurt, ready_to_mate),
            worn_out ==> state == DinoState::Dieing,
            !worn_out && is_pregnant ==> state == DinoState::LayingEgg,
            !worn_out && !is_pregnant && hungry ==> state == DinoState::SeekingFood,
            !worn_out && !is_pregnant && !hungry && hurt ==> state == DinoState::Healing,
            !worn_out && !is_pregnant && !hungry && !hurt && ready_to_mate ==> state == DinoState::SeekingPartner,
            !worn_out && !is_pregnant && !hungry && !hurt && !ready_to_mate ==> state == DinoState::Wandering,
    {
        if worn_out {
            DinoState::Dieing
        } else if is_pregnant {
            DinoState::LayingEgg
        } else if hungry {
            DinoState::SeekingFood
        } else if hurt {
            DinoState::Healing
        } else if ready_to_mate {
            DinoState::SeekingPartner
        } else {
            DinoState::Wandering
        }
    }
}

/// The priorities, in order: a worn-out dino dies; else a pregnant one lays;
/// else a hungry one seeks food (food always wins over mating); else a hurt
/// one heals; else one ready to mate seeks a partner; else it wanders.
pub proof fn lemma_decision_priorities(is_pregnant: bool, worn_out: bool, hungry: bool, hurt: bool, ready_to_mate: bool)
    ensures
        worn_out ==> DinoState::decided(is_pregnant, worn_out, hungry, hurt, ready_to_mate) == DinoState::Dieing,
        !worn_out && is_pregnant ==> DinoState::decided(is_pregnant, worn_out, hungry, hurt, ready_to_mate)
            == DinoState::LayingEgg,
        !worn_out && !is_pregnant && hungry ==> DinoState::decided(is_pregnant, worn_out, hungry, hurt, ready_to_mate)
            == DinoState::SeekingFood,
        !worn_out && !is_pregnant && !hungry && hurt ==> DinoState::decided(
            is_pregnant,
            worn_out,
            hungry,
            hurt,
            ready_to_mate,
        ) == DinoState::Healing,
        !worn_out && !is_pregnant && !hungry && !hurt && ready_to_mate ==> DinoState::decided(
            is_pregnant,
            worn_out,
            hungry,
            hurt,
            ready_to_mate,
        ) == DinoState::SeekingPartner,
        !worn_out && !is_pregnant && !hungry && !hurt && !ready_to_mate ==> DinoState::decided(
            is_pregnant,
            worn_out,
            hungry,
            hurt,
            ready_to_mate,
        ) == DinoState::Wandering,
        hungry ==> DinoState::decided(is_pregnant, worn_out, hungry, hurt, ready_to_mate)
            != DinoState::SeekingPartner,
{
}

} // verus!
