//! Optimising the employment of pops: each planet walks a priority order of
//! (job, species) pairs and, greedily, gives each job as many unemployed pops of the
//! species as both the job's open positions and the species' unemployed pops allow.

use vstd::prelude::*;
use std::collections::HashMap;
use vstd::std_specs::iter::IteratorSpec;
use crate::sums::{
    is_walk, entry_keys, lemma_walk_start, lemma_walk_step, lemma_walk_done, sum_over, lemma_sum_over_update,
    lemma_sum_over_congruent, lemma_sum_over_zero, held, lemma_sum_over_le,
};
use crate::empire_optimization_returns::{
    PlanetOptimizationReturn, JobPositionOptimizationReturn, SpeciesPositionOptimization, EmpireOptimizationReturn,
};
use crate::empire::{
    Planet, JobPosition, Empire, EmpireSpecies, EmpireJob, Species, first_count, retained, applied_planet,
};

verus! {

broadcast use vstd::std_specs::hash::group_hash_axioms;

/// A (job, species) pair in a priority order.
#[derive(Clone, Copy, Debug, PartialEq, Eq)]
pub struct EOrd {
    pub job_id: usize,
    pub species_id: usize,
}

/// What the optimisation of one planet works on: the unemployed pops of each species
/// and the open positions of each job.
pub struct PlanetOptimization {
    /// Species id to number of unemployed pops of that species.
    pub unemployed_pops: HashMap<usize, usize>,
    /// Job id to number of open positions in that job.
    pub jobs: HashMap<usize, usize>,
}

/// The state of a greedy staffing run, as mathematical maps.
pub struct Staffing {
    /// Species id to unemployed pops; a species whose last pop was assigned is removed.
    pub unemployed: Map<usize, usize>,
    /// Job id to open positions.
    pub open: Map<usize, usize>,
    /// Job id to the assignments made to it, in order.
    pub assigned: Map<usize, Seq<SpeciesPositionOptimization>>,
}

/// The smaller of two counts.
pub open spec fn min_of(a: usize, b: usize) -> usize {
    if a < b { a } else { b }
}

/// How many pops the pair `a` can move in the state `st` (0 when either side is missing).
pub open spec fn movable(st: Staffing, a: EOrd) -> usize {
    if st.unemployed.contains_key(a.species_id) && st.open.contains_key(a.job_id) {
        min_of(st.unemployed[a.species_id], st.open[a.job_id])
    } else {
        0
    }
}

/// One greedy step: move as many pops of `a.species_id` into `a.job_id` as possible.
pub open spec fn assign_step(st: Staffing, a: EOrd) -> Staffing {
    let n = movable(st, a);
    if n > 0 {
        let pop = st.unemployed[a.species_id];
        Staffing {
            unemployed: if pop == n {
                st.unemployed.remove(a.species_id)
            } else {
                st.unemployed.insert(a.species_id, (pop - n) as usize)
            },
            open: st.open.insert(a.job_id, (st.open[a.job_id] - n) as usize),
            assigned: st.assigned.insert(
                a.job_id,
                st.assigned[a.job_id].push(SpeciesPositionOptimization { count: n, species_id: a.species_id }),
            ),
        }
    } else {
        st
    }
}

/// Before any step: every job has an empty list of assignments.
pub open spec fn staffing_start(unemployed: Map<usize, usize>, open: Map<usize, usize>) -> Staffing {
    Staffing {
        unemployed,
        open,
        assigned: Map::new(|j: usize| open.contains_key(j), |j: usize| Seq::empty()),
    }
}

/// The state after the greedy steps for every pair of `order`, in order.
pub open spec fn staff(unemployed: Map<usize, usize>, open: Map<usize, usize>, order: Seq<EOrd>) -> Staffing
    decreases order.len(),
{
    if order.len() == 0 {
        staffing_start(unemployed, open)
    } else {
        assign_step(staff(unemployed, open, order.drop_last()), order.last())
    }
}

/// A greedy run keeps the jobs it started with, and has a list of assignments for each.
pub proof fn lemma_staff_jobs(unemployed: Map<usize, usize>, open: Map<usize, usize>, order: Seq<EOrd>)
    ensures
        staff(unemployed, open, order).open.dom() == open.dom(),
        staff(unemployed, open, order).assigned.dom() == open.dom(),
    decreases order.len(),
{
    if order.len() > 0 {
        lemma_staff_jobs(unemployed, open, order.drop_last());
        let st = staff(unemployed, open, order.drop_last());
        let a = order.last();
        if movable(st, a) > 0 {
            assert(st.open.insert(a.job_id, (st.open[a.job_id] - movable(st, a)) as usize).dom() =~= open.dom());
            assert(assign_step(st, a).assigned.dom() =~= open.dom());
        }
    } else {
        assert(staffing_start(unemployed, open).assigned.dom() =~= open.dom());
    }
}

/// The number of pops in a sequence of assignments.
pub open spec fn assigned_total(s: Seq<SpeciesPositionOptimization>) -> int
    decreases s.len(),
{
    if s.len() == 0 {
        0
    } else {
        assigned_total(s.drop_last()) + s.last().count
    }
}

/// The number of pops of species `species` in a sequence of assignments.
pub open spec fn assigned_of(s: Seq<SpeciesPositionOptimization>, species: usize) -> int
    decreases s.len(),
{
    if s.len() == 0 {
        0
    } else {
        assigned_of(s.drop_last(), species) + if s.last().species_id == species { s.last().count as int } else { 0 }
    }
}

/// Over all jobs, the pops of `species` that a staffing state has assigned.
pub open spec fn assigned_of_species(st: Staffing, jobs: Set<usize>, species: usize) -> int {
    sum_over(jobs, |j: usize| assigned_of(st.assigned[j], species))
}

/// The greedy step never makes a pair able to move more than before, and leaves the
/// pair it was given unable to move any more.
pub proof fn lemma_step_exhausts(st: Staffing, a: EOrd, p: EOrd)
    ensures
        movable(assign_step(st, a), p) <= movable(st, p),
        movable(assign_step(st, a), a) == 0,
{
}

/// Laws of one greedy step, on which the laws of a whole run rest.
proof fn lemma_step_counts(st: Staffing, a: EOrd, jobs: Set<usize>)
    requires
        jobs.finite(),
        st.open.dom() == jobs,
        st.assigned.dom() == jobs,
    ensures
        forall|j: usize| jobs.contains(j) ==>
            assigned_total(#[trigger] assign_step(st, a).assigned[j]) + assign_step(st, a).open[j]
                == assigned_total(st.assigned[j]) + st.open[j],
        forall|s: usize|
            held(st.unemployed, s) + assigned_of_species(st, jobs, s)
                == #[trigger] held(assign_step(st, a).unemployed, s) + assigned_of_species(assign_step(st, a), jobs, s),
{
    let n = movable(st, a);
    let nx = assign_step(st, a);
    if n > 0 {
        let j0 = a.job_id;
        let s0 = a.species_id;
        assert(nx.assigned[j0].drop_last() == st.assigned[j0]);
        assert forall|s: usize|
            held(st.unemployed, s) + assigned_of_species(st, jobs, s)
                == #[trigger] held(nx.unemployed, s) + assigned_of_species(nx, jobs, s) by {
            let f = |j: usize| assigned_of(st.assigned[j], s);
            let g = |j: usize| assigned_of(nx.assigned[j], s);
            lemma_sum_over_update(jobs, f, g, j0);
            assert(g(j0) == f(j0) + if s == s0 { n as int } else { 0 });
        }
    }
}

/// Over a whole run, every job's assigned pops and remaining openings add up to the
/// openings it started with: no job receives more pops than it had open positions.
pub proof fn law_job_openings_conserved(unemployed: Map<usize, usize>, open: Map<usize, usize>, order: Seq<EOrd>)
    requires
        open.dom().finite(),
    ensures
        forall|j: usize| open.contains_key(j) ==>
            assigned_total(#[trigger] staff(unemployed, open, order).assigned[j])
                + staff(unemployed, open, order).open[j] == open[j],
    decreases order.len(),
{
    lemma_staff_jobs(unemployed, open, order);
    if order.len() > 0 {
        law_job_openings_conserved(unemployed, open, order.drop_last());
        lemma_staff_jobs(unemployed, open, order.drop_last());
        lemma_step_counts(staff(unemployed, open, order.drop_last()), order.last(), open.dom());
    }
}

/// Over a whole run, every species' unemployed pops plus the pops of it assigned to the
/// jobs add up to the unemployed pops it started with: no pop is assigned twice and none
/// is lost.
pub proof fn law_species_pops_conserved(unemployed: Map<usize, usize>, open: Map<usize, usize>, order: Seq<EOrd>)
    requires
        open.dom().finite(),
    ensures
        forall|s: usize|
            #[trigger] held(staff(unemployed, open, order).unemployed, s)
                + assigned_of_species(staff(unemployed, open, order), open.dom(), s) == held(unemployed, s),
    decreases order.len(),
{
    lemma_staff_jobs(unemployed, open, order);
    if order.len() > 0 {
        law_species_pops_conserved(unemployed, open, order.drop_last());
        lemma_staff_jobs(unemployed, open, order.drop_last());
        lemma_step_counts(staff(unemployed, open, order.drop_last()), order.last(), open.dom());
    } else {
        assert forall|s: usize| #[trigger] held(staff(unemployed, open, order).unemployed, s)
            + assigned_of_species(staff(unemployed, open, order), open.dom(), s) == held(unemployed, s) by {
            let st = staff(unemployed, open, order);
            lemma_sum_over_congruent(open.dom(), |j: usize| assigned_of(st.assigned[j], s), |j: usize| 0int);
            lemma_sum_over_zero(open.dom());
        }
    }
}

/// When a run ends, no pair of the order can move any pop: each pair's job is full or
/// its species has no unemployed pop left.
pub proof fn law_staffing_is_maximal(unemployed: Map<usize, usize>, open: Map<usize, usize>, order: Seq<EOrd>)
    ensures
        forall|k: int| 0 <= k < order.len() ==> movable(staff(unemployed, open, order), #[trigger] order[k]) == 0,
    decreases order.len(),
{
    if order.len() > 0 {
        law_staffing_is_maximal(unemployed, open, order.drop_last());
        let st = staff(unemployed, open, order.drop_last());
        assert forall|k: int| 0 <= k < order.len() implies movable(staff(unemployed, open, order), #[trigger] order[k]) == 0 by {
            lemma_step_exhausts(st, order.last(), order[k]);
            if k < order.len() - 1 {
                assert(order.drop_last()[k] == order[k]);
            }
        }
    }
}

/// Only pairs of the order are staffed: every assignment of a species to a job comes
/// from that (job, species) pair of `order`.
pub proof fn law_only_ordered_pairs_assigned(unemployed: Map<usize, usize>, open: Map<usize, usize>, order: Seq<EOrd>)
    ensures
        forall|j: usize, k: int|
            #![trigger staff(unemployed, open, order).assigned[j][k]]
            open.contains_key(j) && 0 <= k < staff(unemployed, open, order).assigned[j].len() ==>
                order.contains(EOrd { job_id: j, species_id: staff(unemployed, open, order).assigned[j][k].species_id }),
    decreases order.len(),
{
    lemma_staff_jobs(unemployed, open, order);
    if order.len() > 0 {
        law_only_ordered_pairs_assigned(unemployed, open, order.drop_last());
        lemma_staff_jobs(unemployed, open, order.drop_last());
        let st = staff(unemployed, open, order.drop_last());
        let a = order.last();
        let nx = staff(unemployed, open, order);
        assert(nx == assign_step(st, a));
        assert forall|j: usize, k: int|
            #![trigger nx.assigned[j][k]]
            open.contains_key(j) && 0 <= k < nx.assigned[j].len() implies
                order.contains(EOrd { job_id: j, species_id: nx.assigned[j][k].species_id }) by {
            if movable(st, a) > 0 && j == a.job_id && k == nx.assigned[j].len() - 1 {
                assert(EOrd { job_id: j, species_id: nx.assigned[j][k].species_id } == a);
                assert(order[order.len() - 1] == a);
            } else {
                assert(nx.assigned[j][k] == st.assigned[j][k]);
                let p = EOrd { job_id: j, species_id: st.assigned[j][k].species_id };
                assert(order.drop_last().contains(p));
                let w = choose|w: int| 0 <= w < order.drop_last().len() && order.drop_last()[w] == p;
                assert(order[w] == p);
            }
        }
    }
}

/// Every assignment of a run moves at least one pop of a species that had unemployed
/// pops, leaves its (job, species) pair unable to move more, and names a species that
/// no earlier assignment to the same job names.
pub proof fn law_assignments_well_formed(unemployed: Map<usize, usize>, open: Map<usize, usize>, order: Seq<EOrd>)
    ensures
        staff(unemployed, open, order).unemployed.dom().subset_of(unemployed.dom()),
        forall|j: usize, k: int|
            #![trigger staff(unemployed, open, order).assigned[j][k]]
            open.contains_key(j) && 0 <= k < staff(unemployed, open, order).assigned[j].len() ==> {
                let e = staff(unemployed, open, order).assigned[j][k];
                &&& e.count > 0
                &&& unemployed.contains_key(e.species_id)
                &&& movable(staff(unemployed, open, order), EOrd { job_id: j, species_id: e.species_id }) == 0
            },
        forall|j: usize, k1: int, k2: int|
            #![trigger staff(unemployed, open, order).assigned[j][k1], staff(unemployed, open, order).assigned[j][k2]]
            open.contains_key(j) && 0 <= k1 < k2 < staff(unemployed, open, order).assigned[j].len() ==>
                staff(unemployed, open, order).assigned[j][k1].species_id
                    != staff(unemployed, open, order).assigned[j][k2].species_id,
    decreases order.len(),
{
    lemma_staff_jobs(unemployed, open, order);
    if order.len() > 0 {
        law_assignments_well_formed(unemployed, open, order.drop_last());
        lemma_staff_jobs(unemployed, open, order.drop_last());
        let st = staff(unemployed, open, order.drop_last());
        let a = order.last();
        let nx = staff(unemployed, open, order);
        assert(nx == assign_step(st, a));
        assert forall|j: usize, k: int|
            #![trigger nx.assigned[j][k]]
            open.contains_key(j) && 0 <= k < nx.assigned[j].len() implies {
                let e = nx.assigned[j][k];
                &&& e.count > 0
                &&& unemployed.contains_key(e.species_id)
                &&& movable(nx, EOrd { job_id: j, species_id: e.species_id }) == 0
            } by {
            let e = nx.assigned[j][k];
            if movable(st, a) > 0 && j == a.job_id && k == nx.assigned[j].len() - 1 {
                assert(e.species_id == a.species_id);
                assert(EOrd { job_id: j, species_id: e.species_id } == a);
                lemma_step_exhausts(st, a, a);
            } else {
                assert(e == st.assigned[j][k]);
                lemma_step_exhausts(st, a, EOrd { job_id: j, species_id: e.species_id });
            }
        }
        assert forall|j: usize, k1: int, k2: int|
            #![trigger nx.assigned[j][k1], nx.assigned[j][k2]]
            open.contains_key(j) && 0 <= k1 < k2 < nx.assigned[j].len() implies
                nx.assigned[j][k1].species_id != nx.assigned[j][k2].species_id by {
            if movable(st, a) > 0 && j == a.job_id && k2 == nx.assigned[j].len() - 1 {
                assert(nx.assigned[j][k1] == st.assigned[j][k1]);
                let e = st.assigned[j][k1];
                assert(movable(st, EOrd { job_id: j, species_id: e.species_id }) == 0);
            } else {
                assert(nx.assigned[j][k1] == st.assigned[j][k1]);
                assert(nx.assigned[j][k2] == st.assigned[j][k2]);
            }
        }
    }
}

impl PlanetOptimization {
    /// Walks `order` (the planet's (job, species) pairs, highest priority first, pairs
    /// that cannot be employed already left out) and assigns pops greedily: for each pair
    /// whose species still has unemployed pops and whose job is on the planet, as many
    /// pops as both allow move into the job. A species with no unemployed pop left is
    /// removed. Returns, for every job of the planet, the assignments made to it.
    pub fn empire_intraplanetary_optimization(&mut self, order: &Vec<EOrd>) -> (r: PlanetOptimizationReturn)
        ensures
            ({
                let st = staff(old(self).unemployed_pops@, old(self).jobs@, order@);
                &&& final(self).unemployed_pops@ == st.unemployed
                &&& final(self).jobs@ == st.open
                &&& r.assignments() == st.assigned
            }),
    {
        let ghost u0 = self.unemployed_pops@;
        let ghost o0 = self.jobs@;
        let mut return_planet = PlanetOptimizationReturn { jobs: HashMap::new() };
        let ghost all = vstd::std_specs::hash::spec_hash_map_iter(&self.jobs).remaining();
        proof {
            lemma_walk_start(all);
        }
        for (key, _value) in it: self.jobs.iter()
            invariant
                it.seq() == all,
                is_walk(o0, all),
                o0 == self.jobs@,
                return_planet.jobs@.dom() == entry_keys(all.take(it.index() as int)),
                forall|j: usize| #[trigger] return_planet.jobs@.contains_key(j) ==> return_planet.jobs@[j].employees@.len() == 0,
        {
            proof {
                lemma_walk_step(o0, all, it.index() as int);
            }
            let empty: Vec<SpeciesPositionOptimization> = Vec::new();
            return_planet.jobs.insert(*key, JobPositionOptimizationReturn { employees: empty });
        }
        proof {
            lemma_walk_done(o0, all);
            assert forall|j: usize| #[trigger] return_planet.assignments().contains_key(j) implies
                return_planet.assignments()[j] == staffing_start(u0, o0).assigned[j] by {
                assert(return_planet.jobs@[j].employees@ =~= Seq::<SpeciesPositionOptimization>::empty());
            }
            assert(return_planet.assignments() =~= staffing_start(u0, o0).assigned);
        }
        let mut i: usize = 0;
        while i < order.len()
            invariant
                i <= order.len(),
                ({
                    let st = staff(u0, o0, order@.take(i as int));
                    &&& self.unemployed_pops@ == st.unemployed
                    &&& self.jobs@ == st.open
                    &&& return_planet.assignments() == st.assigned
                }),
            decreases order.len() - i,
        {
            let a = order[i];
            let ghost st = staff(u0, o0, order@.take(i as int));
            proof {
                assert(order@.take(i + 1).drop_last() =~= order@.take(i as int));
                assert(order@.take(i + 1).last() == a);
                lemma_staff_jobs(u0, o0, order@.take(i as int));
            }
            let pop_count: usize = match self.unemployed_pops.get(&a.species_id) {
                Some(c) => *c,
                None => 0,
            };
            let open_positions: usize = match self.jobs.get(&a.job_id) {
                Some(c) => *c,
                None => 0,
            };
            let assigned = if pop_count < open_positions { pop_count } else { open_positions };
            assert(assigned == movable(st, a));
            if assigned > 0 {
                if let Some(mut entry) = return_planet.jobs.remove(&a.job_id) {
                    entry.employees.push(SpeciesPositionOptimization { count: assigned, species_id: a.species_id });
                    return_planet.jobs.insert(a.job_id, entry);
                }
                self.jobs.insert(a.job_id, open_positions - assigned);
                let left = pop_count - assigned;
                if left == 0 {
                    self.unemployed_pops.remove(&a.species_id);
                } else {
                    self.unemployed_pops.insert(a.species_id, left);
                }
                assert(self.unemployed_pops@ =~= assign_step(st, a).unemployed);
                assert(self.jobs@ =~= assign_step(st, a).open);
                assert(return_planet.assignments() =~= assign_step(st, a).assigned);
            }
            i = i + 1;
        }
        proof {
            assert(order@.take(order.len() as int) =~= order@);
        }
        return_planet
    }
}

/// Job id to the positions of that job.
pub open spec fn positions_of(jobs: Map<usize, JobPosition>) -> Map<usize, usize> {
    Map::new(|j: usize| jobs.contains_key(j), |j: usize| jobs[j].positions)
}

/// The outcome of optimising one planet: the staffing run on `before` along `order`,
/// leaving `after` and handing back `result`.
pub open spec fn optimised(before: PlanetOptimization, order: Seq<EOrd>, after: PlanetOptimization, result: PlanetOptimizationReturn) -> bool {
    let st = staff(before.unemployed_pops@, before.jobs@, order);
    &&& after.unemployed_pops@ == st.unemployed
    &&& after.jobs@ == st.open
    &&& result.assignments() == st.assigned
}

impl PlanetOptimization {
    /// What the optimisation of `planet` starts from: all of the planet's pops are
    /// unemployed, and every position of every job is open.
    pub fn new(planet: &Planet) -> (r: PlanetOptimization)
        ensures
            r.unemployed_pops@ == planet.population_totals@,
            r.jobs@ == positions_of(planet.jobs@),
    {
        let mut jobs: HashMap<usize, usize> = HashMap::new();
        let ghost m = planet.jobs@;
        let ghost all = vstd::std_specs::hash::spec_hash_map_iter(&planet.jobs).remaining();
        proof {
            lemma_walk_start(all);
            assert(jobs@ =~= positions_of(m).restrict(entry_keys(all.take(0))));
        }
        for (key, val) in it: planet.jobs.iter()
            invariant
                it.seq() == all,
                is_walk(m, all),
                m == planet.jobs@,
                jobs@ == positions_of(m).restrict(entry_keys(all.take(it.index() as int))),
        {
            let ghost i = it.index() as int;
            proof {
                lemma_walk_step(m, all, i);
            }
            jobs.insert(*key, val.positions);
            assert(jobs@ =~= positions_of(m).restrict(entry_keys(all.take(i + 1))));
        }
        proof {
            lemma_walk_done(m, all);
            assert(jobs@ =~= positions_of(m));
        }
        PlanetOptimization { unemployed_pops: planet.population_totals.clone(), jobs }
    }

    /// `PlanetOptimization::new` of each planet, in order.
    pub fn news(planets: &[Planet]) -> (r: Vec<PlanetOptimization>)
        ensures
            r@.len() == planets@.len(),
            forall|p: int| 0 <= p < planets@.len() ==> {
                &&& (#[trigger] r@[p]).unemployed_pops@ == planets@[p].population_totals@
                &&& r@[p].jobs@ == positions_of(planets@[p].jobs@)
            },
    {
        let mut r: Vec<PlanetOptimization> = Vec::new();
        let mut p: usize = 0;
        while p < planets.len()
            invariant
                p <= planets@.len(),
                r@.len() == p,
                forall|q: int| 0 <= q < p ==> {
                    &&& (#[trigger] r@[q]).unemployed_pops@ == planets@[q].population_totals@
                    &&& r@[q].jobs@ == positions_of(planets@[q].jobs@)
                },
            decreases planets@.len() - p,
        {
            r.push(PlanetOptimization::new(&planets[p]));
            p = p + 1;
        }
        r
    }
}

/// A species as an optimisation sees it.
#[derive(Clone, Copy, Debug, PartialEq, Eq)]
pub struct EmpireSpeciesOptimization {
    pub species: Species,
}

impl EmpireSpeciesOptimization {
    pub fn new(empire_species: &EmpireSpecies) -> (r: EmpireSpeciesOptimization)
        ensures
            r.species == empire_species.species,
    {
        EmpireSpeciesOptimization { species: empire_species.species }
    }
}

/// What the optimisation of an empire works on.
pub struct EmpireOptimization {
    pub planets: Vec<PlanetOptimization>,
    pub empire_species: Vec<EmpireSpeciesOptimization>,
    pub empire_jobs: Vec<EmpireJob>,
}

impl EmpireOptimization {
    /// What the optimisation of `empire` starts from: each planet as
    /// `PlanetOptimization::new` has it, and the empire's species and jobs.
    pub fn new(empire: &Empire) -> (r: EmpireOptimization)
        ensures
            r.planets@.len() == empire.planets@.len(),
            forall|p: int| 0 <= p < empire.planets@.len() ==> {
                &&& (#[trigger] r.planets@[p]).unemployed_pops@ == empire.planets@[p].population_totals@
                &&& r.planets@[p].jobs@ == positions_of(empire.planets@[p].jobs@)
            },
            r.empire_jobs@ == empire.jobs@,
            r.empire_species@.len() == empire.species@.len(),
            forall|i: int| 0 <= i < empire.species@.len() ==> (#[trigger] r.empire_species@[i]).species == empire.species@[i].species,
    {
        let planets = PlanetOptimization::news(empire.planets.as_slice());
        let mut empire_species: Vec<EmpireSpeciesOptimization> = Vec::new();
        let mut i: usize = 0;
        while i < empire.species.len()
            invariant
                i <= empire.species@.len(),
                empire_species@.len() == i,
                forall|k: int| 0 <= k < i ==> (#[trigger] empire_species@[k]).species == empire.species@[k].species,
            decreases empire.species@.len() - i,
        {
            empire_species.push(EmpireSpeciesOptimization::new(&empire.species[i]));
            i = i + 1;
        }
        let mut empire_jobs: Vec<EmpireJob> = Vec::new();
        let mut k: usize = 0;
        while k < empire.jobs.len()
            invariant
                k <= empire.jobs@.len(),
                empire_jobs@ == empire.jobs@.take(k as int),
            decreases empire.jobs@.len() - k,
        {
            empire_jobs.push(empire.jobs[k]);
            proof {
                assert(empire.jobs@.take(k + 1) =~= empire.jobs@.take(k as int).push(empire.jobs@[k as int]));
            }
            k = k + 1;
        }
        proof {
            assert(empire.jobs@.take(empire.jobs@.len() as int) =~= empire.jobs@);
        }
        EmpireOptimization { planets, empire_species, empire_jobs }
    }

    /// `EmpireOptimization::new` of each empire, in order.
    pub fn news(empires: &[Empire]) -> (r: Vec<EmpireOptimization>)
        ensures
            r@.len() == empires@.len(),
            forall|e: int| 0 <= e < empires@.len() ==> {
                &&& (#[trigger] r@[e]).planets@.len() == empires@[e].planets@.len()
                &&& forall|p: int| 0 <= p < empires@[e].planets@.len() ==> {
                    &&& (#[trigger] r@[e].planets@[p]).unemployed_pops@ == empires@[e].planets@[p].population_totals@
                    &&& r@[e].planets@[p].jobs@ == positions_of(empires@[e].planets@[p].jobs@)
                }
                &&& r@[e].empire_jobs@ == empires@[e].jobs@
                &&& r@[e].empire_species@.len() == empires@[e].species@.len()
                &&& forall|i: int| 0 <= i < empires@[e].species@.len() ==>
                    (#[trigger] r@[e].empire_species@[i]).species == empires@[e].species@[i].species
            },
    {
        let mut r: Vec<EmpireOptimization> = Vec::new();
        let mut e: usize = 0;
        while e < empires.len()
            invariant
                e <= empires@.len(),
                r@.len() == e,
                forall|x: int| 0 <= x < e ==> {
                    &&& (#[trigger] r@[x]).planets@.len() == empires@[x].planets@.len()
                    &&& forall|p: int| 0 <= p < empires@[x].planets@.len() ==> {
                        &&& (#[trigger] r@[x].planets@[p]).unemployed_pops@ == empires@[x].planets@[p].population_totals@
                        &&& r@[x].planets@[p].jobs@ == positions_of(empires@[x].planets@[p].jobs@)
                    }
                    &&& r@[x].empire_jobs@ == empires@[x].jobs@
                    &&& r@[x].empire_species@.len() == empires@[x].species@.len()
                    &&& forall|i: int| 0 <= i < empires@[x].species@.len() ==>
                        (#[trigger] r@[x].empire_species@[i]).species == empires@[x].species@[i].species
                },
            decreases empires@.len() - e,
        {
            r.push(EmpireOptimization::new(&empires[e]));
            e = e + 1;
        }
        r
    }

    /// Every (job, species) pair of the empire, job-major within each species: entry
    /// `i` pairs job `i % jobs` with species `i / jobs`. The priorities of the pairs are
    /// computed in this order.
    pub fn job_species_pairs(&self) -> (r: Vec<EOrd>)
        requires
            self.empire_jobs@.len() * self.empire_species@.len() <= usize::MAX,
        ensures
            r@.len() == self.empire_jobs@.len() * self.empire_species@.len(),
            forall|i: int| 0 <= i < r@.len() ==> #[trigger] r@[i] == (EOrd {
                job_id: self.empire_jobs@[i % (self.empire_jobs@.len() as int)].job.id,
                species_id: self.empire_species@[i / (self.empire_jobs@.len() as int)].species.id,
            }),
    {
        let nj = self.empire_jobs.len();
        let ns = self.empire_species.len();
        let n = nj * ns;
        let mut r: Vec<EOrd> = Vec::new();
        let mut i: usize = 0;
        while i < n
            invariant
                nj == self.empire_jobs@.len(),
                ns == self.empire_species@.len(),
                n == nj * ns,
                i <= n,
                r@.len() == i,
                forall|k: int| 0 <= k < i ==> #[trigger] r@[k] == (EOrd {
                    job_id: self.empire_jobs@[k % (nj as int)].job.id,
                    species_id: self.empire_species@[k / (nj as int)].species.id,
                }),
            decreases n - i,
        {
            proof {
                assert(nj > 0 && i % nj < nj && i / nj < ns) by (nonlinear_arith)
                    requires i < nj * ns;
            }
            let pair = EOrd { job_id: self.empire_jobs[i % nj].job.id, species_id: self.empire_species[i / nj].species.id };
            r.push(pair);
            i = i + 1;
        }
        r
    }

    /// Optimises every planet: planet `p` is staffed greedily along `planet_orders[p]`
    /// (see `PlanetOptimization::empire_intraplanetary_optimization`). Returns the
    /// results in the order of the planets.
    pub fn intraplanetary_optimization(&mut self, planet_orders: &Vec<Vec<EOrd>>) -> (r: EmpireOptimizationReturn)
        requires
            planet_orders@.len() == old(self).planets@.len(),
        ensures
            final(self).empire_jobs@ == old(self).empire_jobs@,
            final(self).empire_species@ == old(self).empire_species@,
            final(self).planets@.len() == old(self).planets@.len(),
            r.planets@.len() == old(self).planets@.len(),
            forall|p: int| 0 <= p < old(self).planets@.len() ==>
                optimised(old(self).planets@[p], planet_orders@[p]@, #[trigger] final(self).planets@[p], r.planets@[p]),
    {
        let mut planets: Vec<PlanetOptimizationReturn> = Vec::new();
        let mut p: usize = 0;
        while p < self.planets.len()
            invariant
                planet_orders@.len() == old(self).planets@.len(),
                self.planets@.len() == old(self).planets@.len(),
                self.empire_jobs@ == old(self).empire_jobs@,
                self.empire_species@ == old(self).empire_species@,
                p <= self.planets@.len(),
                planets@.len() == p,
                forall|q: int| 0 <= q < old(self).planets@.len() ==>
                    if q < p {
                        optimised(old(self).planets@[q], planet_orders@[q]@, #[trigger] self.planets@[q], planets@[q])
                    } else {
                        self.planets@[q] == old(self).planets@[q]
                    },
            decreases self.planets@.len() - p,
        {
            let result = self.planets[p].empire_intraplanetary_optimization(&planet_orders[p]);
            planets.push(result);
            p = p + 1;
        }
        EmpireOptimizationReturn { planets }
    }
}

/// The pops of a species in a list of assignments, counted from the front.
proof fn lemma_assigned_of_front(l: Seq<SpeciesPositionOptimization>, s: usize)
    requires
        l.len() > 0,
    ensures
        assigned_of(l, s) == assigned_of(l.drop_first(), s) + if l[0].species_id == s { l[0].count as int } else { 0 },
    decreases l.len(),
{
    if l.len() > 1 {
        lemma_assigned_of_front(l.drop_last(), s);
        assert(l.drop_last().drop_first() =~= l.drop_first().drop_last());
        assert(l.drop_first().last() == l.last());
        assert(l.drop_last()[0] == l[0]);
        assert(assigned_of(l, s) == assigned_of(l.drop_last(), s) + if l.last().species_id == s { l.last().count as int } else { 0 });
        assert(assigned_of(l.drop_first(), s) == assigned_of(l.drop_first().drop_last(), s)
            + if l.drop_first().last().species_id == s { l.drop_first().last().count as int } else { 0 });
    } else {
        assert(l.drop_first().len() == 0);
        assert(l.drop_last().len() == 0);
        assert(l.last() == l[0]);
        assert(assigned_of(l.drop_first(), s) == 0);
        assert(assigned_of(l.drop_last(), s) == 0);
    }
}

/// The pops of a species in a list of assignments are never negative.
proof fn lemma_assigned_of_nonneg(l: Seq<SpeciesPositionOptimization>, s: usize)
    ensures
        assigned_of(l, s) >= 0,
    decreases l.len(),
{
    if l.len() > 0 {
        lemma_assigned_of_nonneg(l.drop_last(), s);
    }
}

/// The first assignment of a species moves no more pops than all its assignments.
proof fn lemma_first_count_bound(l: Seq<SpeciesPositionOptimization>, s: usize)
    ensures
        first_count(l, s) matches Some(c) ==> c <= assigned_of(l, s),
    decreases l.len(),
{
    if l.len() > 0 {
        lemma_assigned_of_front(l, s);
        lemma_assigned_of_nonneg(l.drop_first(), s);
        lemma_first_count_bound(l.drop_first(), s);
    }
}

/// The first assignment of a species is one of the assignments.
proof fn lemma_first_count_is_entry(l: Seq<SpeciesPositionOptimization>, s: usize)
    ensures
        first_count(l, s) matches Some(c) ==> exists|k: int| 0 <= k < l.len() && #[trigger] l[k].count == c && l[k].species_id == s,
    decreases l.len(),
{
    if l.len() > 0 && l[0].species_id != s {
        lemma_first_count_is_entry(l.drop_first(), s);
        if let Some(c) = first_count(l, s) {
            let k = choose|k: int| 0 <= k < l.drop_first().len() && #[trigger] l.drop_first()[k].count == c && l.drop_first()[k].species_id == s;
            assert(l[k + 1] == l.drop_first()[k]);
        }
    } else if l.len() > 0 {
        assert(l[0].count == l[0].count);
    }
}

/// Over any set of species, the pops assigned to them are at most all pops assigned.
proof fn lemma_assigned_of_species_bound(l: Seq<SpeciesPositionOptimization>, keys: Set<usize>)
    requires
        keys.finite(),
    ensures
        sum_over(keys, |s: usize| assigned_of(l, s)) <= assigned_total(l),
    decreases l.len(),
{
    if l.len() == 0 {
        lemma_sum_over_congruent(keys, |s: usize| assigned_of(l, s), |s: usize| 0int);
        lemma_sum_over_zero(keys);
    } else {
        let l2 = l.drop_last();
        lemma_assigned_of_species_bound(l2, keys);
        let f = |s: usize| assigned_of(l2, s);
        let g = |s: usize| assigned_of(l, s);
        let s0 = l.last().species_id;
        if keys.contains(s0) {
            lemma_sum_over_update(keys, f, g, s0);
        } else {
            lemma_sum_over_congruent(keys, f, g);
        }
    }
}

/// Applying the result of optimising a planet back to the planet leaves no job with
/// more employed pops than positions, and the planet well-formed: whatever the priority
/// order, and however often it is repeated, the optimisation never overfills a job.
pub proof fn law_optimised_jobs_within_positions(planet: Planet, order: Seq<EOrd>, after: Planet)
    requires
        planet.wf(),
        applied_planet(planet, after, staff(planet.population_totals@, positions_of(planet.jobs@), order).assigned),
    ensures
        after.wf(),
        forall|j: usize| #[trigger] after.jobs@.contains_key(j) ==> after.jobs@[j].within_capacity(),
        forall|j: usize, s: usize| after.jobs@.contains_key(j) && #[trigger] after.jobs@[j].employees@.contains_key(s) ==>
            after.jobs@[j].employees@[s].count > 0,
{
    let open = positions_of(planet.jobs@);
    let st = staff(planet.population_totals@, open, order);
    assert(open.dom() =~= planet.jobs@.dom());
    assert(planet.jobs@.dom().finite());
    lemma_staff_jobs(planet.population_totals@, open, order);
    law_job_openings_conserved(planet.population_totals@, open, order);
    law_assignments_well_formed(planet.population_totals@, open, order);
    assert forall|j: usize, s: usize| after.jobs@.contains_key(j) && #[trigger] after.jobs@[j].employees@.contains_key(s) implies
        after.jobs@[j].employees@[s].count > 0 by {
        let e = planet.jobs@[j].employees@;
        let l = st.assigned[j];
        let id = e[s].species.species.id;
        lemma_first_count_is_entry(l, id);
        let k = choose|k: int| 0 <= k < l.len() && #[trigger] l[k].count == first_count(l, id).unwrap() && l[k].species_id == id;
        assert(st.assigned[j][k].count > 0);
    }
    assert forall|j: usize| #[trigger] after.jobs@.contains_key(j) implies after.jobs@[j].within_capacity() by {
        let old_job = planet.jobs@[j];
        let e = old_job.employees@;
        let l = st.assigned[j];
        assert(st.assigned.contains_key(j));
        let kept = retained(e, l);
        assert(after.jobs@[j].employees@ == kept);
        assert(e.dom().finite()) by {
            assert(old_job.employees@.dom().finite());
        }
        let d = kept.dom();
        assert(d.subset_of(e.dom()));
        vstd::set_lib::lemma_len_subset(d, e.dom());
        let fc = |s: usize| kept[s].count as int;
        let ao = |s: usize| assigned_of(l, s);
        assert forall|s: usize| d.contains(s) implies fc(s) <= ao(s) by {
            assert(old_job.wf());
            assert(e[s].species.species.id == s);
            lemma_first_count_bound(l, s);
        }
        lemma_sum_over_le(d, fc, ao);
        lemma_assigned_of_species_bound(l, d);
        assert(assigned_total(l) + st.open[j] == open[j]);
    }
}

/// The same for a whole empire: when every planet of an empire is optimised along its
/// own priority order (as `EmpireOptimization::new` and `intraplanetary_optimization`
/// do) and the results are applied back (as `Empire::intraplanetary_optimize` does),
/// no job of any planet has more employed pops than positions.
pub proof fn law_optimised_empire_within_positions(before: Seq<Planet>, orders: Seq<Seq<EOrd>>, after: Seq<Planet>)
    requires
        orders.len() == before.len(),
        after.len() == before.len(),
        forall|p: int| 0 <= p < before.len() ==> (#[trigger] before[p]).wf(),
        forall|p: int| 0 <= p < before.len() ==> applied_planet(
            before[p],
            #[trigger] after[p],
            staff(before[p].population_totals@, positions_of(before[p].jobs@), orders[p]).assigned,
        ),
    ensures
        forall|p: int| 0 <= p < after.len() ==> (#[trigger] after[p]).wf(),
        forall|p: int, j: usize| 0 <= p < after.len() && #[trigger] after[p].jobs@.contains_key(j) ==>
            after[p].jobs@[j].within_capacity(),
{
    assert forall|p: int| 0 <= p < after.len() implies (#[trigger] after[p]).wf() by {
        law_optimised_jobs_within_positions(before[p], orders[p], after[p]);
    }
    assert forall|p: int, j: usize| 0 <= p < after.len() && #[trigger] after[p].jobs@.contains_key(j) implies
        after[p].jobs@[j].within_capacity() by {
        law_optimised_jobs_within_positions(before[p], orders[p], after[p]);
    }
}

} // verus!
