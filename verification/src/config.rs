use vstd::prelude::*;

verus! {

/// The `[dinosaurs]` table of the configuration file.
#[derive(Clone, Copy, Debug, PartialEq, Eq, Structural)]
pub struct DinosaurConfig {
    pub initial_population: usize,
}

} // verus!
