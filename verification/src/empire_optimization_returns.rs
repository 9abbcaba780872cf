//! What an optimisation hands back: for each planet and each of its jobs, the pops of
//! each species that should work it.

use vstd::prelude::*;
use std::collections::HashMap;

verus! {

/// The result of optimising every planet of an empire, in the order of its planets.
pub struct EmpireOptimizationReturn {
    pub planets: Vec<PlanetOptimizationReturn>,
}

/// The result of optimising one planet: for each job id, who should work it.
pub struct PlanetOptimizationReturn {
    pub jobs: HashMap<usize, JobPositionOptimizationReturn>,
}

/// The pops assigned to one job, in the order in which they were assigned.
pub struct JobPositionOptimizationReturn {
    pub employees: Vec<SpeciesPositionOptimization>,
}

/// `count` pops of the species `species_id`.
#[derive(Clone, Copy, Debug, PartialEq, Eq)]
pub struct SpeciesPositionOptimization {
    pub count: usize,
    pub species_id: usize,
}

impl PlanetOptimizationReturn {
    /// For each job id, the sequence of assignments to it.
    pub open spec fn assignments(&self) -> Map<usize, Seq<SpeciesPositionOptimization>> {
        Map::new(|j: usize| self.jobs@.contains_key(j), |j: usize| self.jobs@[j].employees@)
    }
}

} // verus!
