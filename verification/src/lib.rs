//! A simulation of how the pops of a space empire are employed and what they produce:
//! planets with jobs and species, the random generation of that structure, the greedy
//! assignment of unemployed pops to open job positions, and the day-by-day schedule
//! on which production and optimisation run.

use vstd::prelude::*;

pub mod sums;
pub mod empire_optimization_returns;
pub mod empire_optimization;
pub mod empire;
pub mod schedule;
pub mod elapsed;
pub mod game_data;

verus! {

/// Number of pop-producible resources.
pub const NUMBER_OF_RESOURCES: usize = 11;
/// Number of empires.
pub const NUMBER_OF_EMPIRES: usize = 10;
/// Minimum number of planets in an empire.
pub const PLANETS_MIN: usize = 1;
/// Maximum number of planets in an empire.
pub const PLANETS_MAX: usize = 15;
/// Minimum number of pops on a planet.
pub const POP_MIN: usize = 20;
/// Maximum number of pops on a planet.
pub const POP_MAX: usize = 200;
/// Minimum number of jobs on a planet.
pub const JOBS_MIN: usize = 1;
/// Maximum number of jobs on a planet.
pub const JOBS_MAX: usize = 40;
/// Minimum number of species on a planet.
pub const SPECIES_MIN: usize = 1;
/// Maximum number of species on a planet.
pub const SPECIES_MAX: usize = 20;
/// Every this many days every planet in every empire is optimised.
pub const OPTIMISATION_FREQUENCY: usize = 95;
/// Every this many days the production of every empire is calculated.
pub const PRODUCTION_FREQUENCY: usize = 30;
/// Number of job tiers (0 = rulers, 1 = specialists, 2 = workers).
pub const TIERS: usize = 3;

} // verus!
