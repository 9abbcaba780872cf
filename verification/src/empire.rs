//! The structure of an empire: its planets, the jobs on each planet, and the pops of
//! each species that work them; how that structure is generated at random, how an
//! optimisation is applied to it, and how its pops are counted.

use vstd::prelude::*;
use std::collections::HashMap;
use rand::Rng;
use rand::rngs::ThreadRng;
use vstd::std_specs::iter::IteratorSpec;
use crate::sums::{
    is_walk, entry_keys, lemma_walk_start, lemma_walk_step, lemma_walk_done, sum_over,
    lemma_sum_over_insert, lemma_sum_over_update, lemma_sum_over_bound, held,
    lemma_sum_over_set_term, lemma_sum_over_term, lemma_sum_over_nonneg, value_sum, map_total,
    lemma_sum_over_exchange, lemma_sum_over_zero_outside, lemma_sum_over_congruent, lemma_sum_over_le, value_of,
    lemma_value_sum_insert,
};
use crate::{POP_MIN, POP_MAX, JOBS_MIN, JOBS_MAX, SPECIES_MIN, PLANETS_MIN, PLANETS_MAX, NUMBER_OF_EMPIRES};
use crate::empire_optimization_returns::{
    SpeciesPositionOptimization, JobPositionOptimizationReturn, PlanetOptimizationReturn, EmpireOptimizationReturn,
};

verus! {

broadcast use vstd::std_specs::hash::group_hash_axioms;

/// This thread's random number generator, from `rand`.
#[verifier::external_type_specification]
#[verifier::external_body]
pub struct ExThreadRng(rand::rngs::ThreadRng);

/// Calls `rand::thread_rng`, which hands out this thread's random number generator.
/// Nothing is claimed of it.
#[verifier::external_body]
pub(crate) fn new_thread_rng() -> (r: ThreadRng) {
    rand::thread_rng()
}

/// Calls `rand::Rng::gen_range` for `usize`. Its documentation (rand 0.7) promises a
/// value in `[low, high)` and a panic when `low >= high`, which `requires` rules out.
/// Which value comes back is chance: nothing more is claimed.
#[verifier::external_body]
fn gen_range(rng: &mut ThreadRng, low: usize, high: usize) -> (r: usize)
    requires
        low < high,
    ensures
        low <= r < high,
{
    rng.gen_range(low, high)
}

/// A job of the game, known by its id (its production lives with the caller).
#[derive(Clone, Copy, Debug, PartialEq, Eq)]
pub struct Job {
    pub id: usize,
}

impl Job {
    /// The job with the given id.
    pub fn new(id: usize) -> (r: Job)
        ensures
            r.id == id,
    {
        Job { id }
    }

    /// The default job: id 0.
    pub open spec fn default_spec() -> Job {
        Job { id: 0 }
    }
}

impl Default for Job {
    /// The job with id 0.
    fn default() -> (r: Job)
        ensures
            r == Job::default_spec(),
    {
        Job { id: 0 }
    }
}

/// A species of the game, known by its id (its modifiers live with the caller).
#[derive(Clone, Copy, Debug, PartialEq, Eq)]
pub struct Species {
    pub id: usize,
}

impl Species {
    /// The species with the given id.
    pub fn new(id: usize) -> (r: Species)
        ensures
            r.id == id,
    {
        Species { id }
    }
}

/// A job as an empire has it.
#[derive(Clone, Copy, Debug, PartialEq, Eq)]
pub struct EmpireJob {
    pub job: Job,
}

impl EmpireJob {
    pub fn new(job: Job) -> (r: EmpireJob)
        ensures
            r.job == job,
    {
        EmpireJob { job }
    }
}

/// A species as an empire has it.
#[derive(Clone, Copy, Debug, PartialEq, Eq)]
pub struct EmpireSpecies {
    pub species: Species,
}

impl EmpireSpecies {
    pub fn new(species: Species) -> (r: EmpireSpecies)
        ensures
            r.species == species,
    {
        EmpireSpecies { species }
    }
}

/// `count` pops of one species working one job.
#[derive(Clone, Copy, Debug, PartialEq, Eq)]
pub struct SpeciesPosition {
    pub count: usize,
    pub species: EmpireSpecies,
}

/// A job on a planet: how many positions it has and, by species id, who works it.
pub struct JobPosition {
    /// Number of positions to be worked.
    pub positions: usize,
    pub job: EmpireJob,
    /// Species id to the pops of that species working the job.
    pub employees: HashMap<usize, SpeciesPosition>,
}

/// The number of pops of species `s` that a map of employees holds (0 if none).
pub open spec fn employed_of(employees: Map<usize, SpeciesPosition>, s: usize) -> int {
    if employees.contains_key(s) { employees[s].count as int } else { 0 }
}

/// The number of pops a map of employees holds.
pub open spec fn employed_total(employees: Map<usize, SpeciesPosition>) -> int {
    sum_over(employees.dom(), |s: usize| employees[s].count as int)
}

/// Filing `v` under `k` changes the pops held by what `v` holds minus what was there.
pub proof fn lemma_employed_insert(m: Map<usize, SpeciesPosition>, k: usize, v: SpeciesPosition)
    requires
        m.dom().finite(),
    ensures
        employed_total(m.insert(k, v)) == employed_total(m) + v.count - employed_of(m, k),
{
    let f = |s: usize| m[s].count as int;
    let m2 = m.insert(k, v);
    let g = |s: usize| m2[s].count as int;
    if m.contains_key(k) {
        assert(m2.dom() =~= m.dom());
        lemma_sum_over_update(m.dom(), f, g, k);
    } else {
        lemma_sum_over_insert(m.dom(), g, k);
        assert(m2.dom() =~= m.dom().insert(k));
        crate::sums::lemma_sum_over_congruent(m.dom(), f, g);
    }
}

/// The ids of a list of species.
pub open spec fn species_ids(species: Seq<EmpireSpecies>) -> Set<usize> {
    Set::new(|id: usize| exists|i: int| 0 <= i < species.len() && #[trigger] species[i].species.id == id)
}

/// The ids of the species of `species` whose indices are no longer in `left`.
pub open spec fn picked_ids(species: Seq<EmpireSpecies>, left: Seq<usize>) -> Set<usize> {
    Set::new(|id: usize| exists|i: int|
        0 <= i < species.len() && !left.contains(i as usize) && #[trigger] species[i].species.id == id)
}

/// The list `0, 1, .., n - 1`.
fn index_list(n: usize) -> (r: Vec<usize>)
    ensures
        r@.len() == n,
        forall|i: int| 0 <= i < n ==> r@[i] == i,
{
    let mut r: Vec<usize> = Vec::new();
    let mut i: usize = 0;
    while i < n
        invariant
            i <= n,
            r@.len() == i,
            forall|k: int| 0 <= k < i ==> r@[k] == k,
        decreases n - i,
    {
        r.push(i);
        i = i + 1;
    }
    r
}

/// The indices `0..n` that are left after the first `t` picks of `picks`, each pick
/// taking out the index at that place of what is left.
pub open spec fn indices_left(n: nat, picks: Seq<usize>, t: nat) -> Seq<usize>
    decreases t,
{
    if t == 0 {
        Seq::new(n, |i: int| i as usize)
    } else {
        indices_left(n, picks, (t - 1) as nat).remove(picks[t - 1] as int)
    }
}

/// Draws that fill a job of `positions` positions from `n` species: the `t`-th pick is
/// below the `n - t` species left and the `t`-th count below the positions still open,
/// and the draws stop when no species or no position is left.
pub open spec fn valid_hiring(n: nat, positions: nat, picks: Seq<usize>, counts: Seq<usize>) -> bool {
    &&& picks.len() == counts.len()
    &&& forall|t: int| #![trigger picks[t]] 0 <= t < picks.len() ==>
        picks[t] < n - t && counts[t] < positions - seq_sum(counts.take(t))
    &&& (picks.len() == n || positions - seq_sum(counts) == 0)
}

/// The employees hired by the first `t` draws: the `t`-th takes the species at the
/// index the pick points at among those left, `counts[t]` pops of it.
pub open spec fn hired(species: Seq<EmpireSpecies>, picks: Seq<usize>, counts: Seq<usize>, t: nat) -> Map<usize, SpeciesPosition>
    decreases t,
{
    if t == 0 {
        Map::empty()
    } else {
        let sp = species[indices_left(species.len(), picks, (t - 1) as nat)[picks[t - 1] as int] as int];
        hired(species, picks, counts, (t - 1) as nat).insert(sp.species.id, SpeciesPosition { count: counts[t - 1], species: sp })
    }
}

/// Draws what fills a job of `positions` positions from `n` species, in the order in
/// which `JobPosition::new` draws it: for each species in turn, its place among those
/// left, then its count below the positions still open, until no species or no
/// position is left.
fn draw_hiring(rng: &mut ThreadRng, n: usize, positions: usize) -> (r: (Vec<usize>, Vec<usize>))
    ensures
        valid_hiring(n as nat, positions as nat, r.0@, r.1@),
{
    let mut picks: Vec<usize> = Vec::new();
    let mut counts: Vec<usize> = Vec::new();
    let mut left = n;
    let mut remaining = positions;
    while !(left == 0 || remaining == 0)
        invariant
            left <= n,
            picks@.len() == counts@.len() == n - left,
            remaining == positions - seq_sum(counts@),
            forall|t: int| #![trigger picks@[t]] 0 <= t < picks@.len() ==>
                picks@[t] < n - t && counts@[t] < positions - seq_sum(counts@.take(t)),
        decreases left,
    {
        let pick = gen_range(rng, 0, left);
        let employed = gen_range(rng, 0, remaining);
        let ghost old_counts = counts@;
        picks.push(pick);
        counts.push(employed);
        proof {
            assert(counts@.drop_last() =~= old_counts);
            assert(counts@.take(old_counts.len() as int) =~= old_counts);
            assert forall|t: int| 0 <= t < old_counts.len() implies #[trigger] counts@.take(t) =~= old_counts.take(t) by {}
        }
        left = left - 1;
        remaining = remaining - employed;
    }
    proof {
        assert(counts@.take(counts@.len() as int) =~= counts@);
    }
    (picks, counts)
}

impl JobPosition {
    /// Fills a job of `positions` positions at random: species of `species` are picked
    /// one by one in random order, each hired for a random number of the positions
    /// still open, smaller than that number, until every species was picked or no
    /// position is left. So a job with positions employs every species of the list
    /// (some of them with 0 pops) and leaves at least one position open; a job with
    /// none employs no one. The draws are handed to `from_draws`.
    pub fn new(rng: &mut ThreadRng, job_stats: &EmpireJob, species: &Vec<EmpireSpecies>, positions: usize) -> (r: JobPosition)
        ensures
            r.positions == positions,
            r.job == *job_stats,
            r.wf(),
            r.within_capacity(),
            positions > 0 ==> employed_total(r.employees@) < positions,
            r.employees@.dom() == (if positions == 0 { Set::<usize>::empty() } else { species_ids(species@) }),
            forall|s: usize| #[trigger] r.employees@.contains_key(s) ==> species@.contains(r.employees@[s].species),
            exists|picks: Seq<usize>, counts: Seq<usize>|
                #[trigger] valid_hiring(species@.len(), positions as nat, picks, counts)
                && r.employees@ == hired(species@, picks, counts, picks.len()),
    {
        let (picks, counts) = draw_hiring(rng, species.len(), positions);
        let r = JobPosition::from_draws(job_stats, species, positions, &picks, &counts);
        proof {
            assert(valid_hiring(species@.len(), positions as nat, picks@, counts@));
        }
        r
    }

    /// Fills a job of `positions` positions from given draws: the `t`-th draw takes the
    /// species at place `picks[t]` among those not yet taken (in the order of
    /// `species`) and hires `counts[t]` pops of it. The employees are exactly `hired`.
    pub fn from_draws(job_stats: &EmpireJob, species: &Vec<EmpireSpecies>, positions: usize, picks: &Vec<usize>, counts: &Vec<usize>) -> (r: JobPosition)
        requires
            valid_hiring(species.len() as nat, positions as nat, picks@, counts@),
        ensures
            r.positions == positions,
            r.job == *job_stats,
            r.employees@ == hired(species@, picks@, counts@, picks@.len()),
            r.wf(),
            r.within_capacity(),
            positions > 0 ==> employed_total(r.employees@) < positions,
            r.employees@.dom() == (if positions == 0 { Set::<usize>::empty() } else { species_ids(species@) }),
            forall|s: usize| #[trigger] r.employees@.contains_key(s) ==> species@.contains(r.employees@[s].species),
    {
        let mut employees: HashMap<usize, SpeciesPosition> = HashMap::new();
        let mut species_indxs: Vec<usize> = index_list(species.len());
        let mut remaining_positions = positions;
        let ghost n = species.len() as int;
        let mut t: usize = 0;
        proof {
            assert(species_indxs@ =~= indices_left(n as nat, picks@, 0));
            assert(counts@.take(0) =~= Seq::<usize>::empty());
            assert forall|id: usize| #[trigger] picked_ids(species@, species_indxs@).contains(id) implies false by {
                let i = choose|i: int| 0 <= i < n && !species_indxs@.contains(i as usize) && #[trigger] species@[i].species.id == id;
                assert(species_indxs@[i] == i as usize);
            }
            assert(employees@.dom() =~= picked_ids(species@, species_indxs@));
            assert(employed_total(employees@) == 0);
        }
        while t < picks.len()
            invariant
                n == species.len(),
                valid_hiring(n as nat, positions as nat, picks@, counts@),
                t <= picks@.len(),
                species_indxs@ == indices_left(n as nat, picks@, t as nat),
                species_indxs@.len() == n - t,
                employees@ == hired(species@, picks@, counts@, t as nat),
                remaining_positions == positions - seq_sum(counts@.take(t as int)),
                species_indxs@.no_duplicates(),
                forall|k: int| 0 <= k < species_indxs@.len() ==> species_indxs@[k] < n,
                employees@.dom() == picked_ids(species@, species_indxs@),
                forall|s: usize| #[trigger] employees@.contains_key(s) ==>
                    employees@[s].species.species.id == s && species@.contains(employees@[s].species),
                employed_total(employees@) + remaining_positions <= positions,
                positions > 0 ==> remaining_positions > 0,
                positions == 0 ==> employees@.dom() == Set::<usize>::empty(),
            decreases picks@.len() - t,
        {
            let pick = picks[t];
            let ghost before = species_indxs@;
            let species_indx = species_indxs.remove(pick);
            let employed = counts[t];
            let sp = species[species_indx];
            let ghost old_emp = employees@;
            employees.insert(sp.species.id, SpeciesPosition { count: employed, species: sp });
            proof {
                lemma_employed_insert(old_emp, sp.species.id, SpeciesPosition { count: employed, species: sp });
                assert(species@.contains(sp)) by {
                    assert(species@[species_indx as int] == sp);
                }
                assert forall|k: int| 0 <= k < species_indxs@.len() implies species_indxs@[k] < n by {
                    if k < pick { assert(species_indxs@[k] == before[k]); } else { assert(species_indxs@[k] == before[k + 1]); }
                }
                assert(species_indxs@.no_duplicates()) by {
                    assert forall|a: int, b: int| 0 <= a < b < species_indxs@.len() implies species_indxs@[a] != species_indxs@[b] by {
                        let a0 = if a < pick { a } else { a + 1 };
                        let b0 = if b < pick { b } else { b + 1 };
                        assert(species_indxs@[a] == before[a0]);
                        assert(species_indxs@[b] == before[b0]);
                    }
                }
                assert forall|i: int| 0 <= i < n implies
                    (!#[trigger] species_indxs@.contains(i as usize) <==> (!before.contains(i as usize) || i == species_indx)) by {
                    if species_indxs@.contains(i as usize) {
                        let k = choose|k: int| 0 <= k < species_indxs@.len() && species_indxs@[k] == i as usize;
                        let k0 = if k < pick { k } else { k + 1 };
                        assert(before[k0] == i as usize);
                        assert(k0 != pick as int);
                    }
                    if before.contains(i as usize) && i != species_indx {
                        let k0 = choose|k: int| 0 <= k < before.len() && before[k] == i as usize;
                        assert(k0 != pick as int);
                        let k = if k0 < pick { k0 } else { k0 - 1 };
                        assert(species_indxs@[k] == i as usize);
                    }
                    if i == species_indx {
                        if species_indxs@.contains(i as usize) {
                            let k = choose|k: int| 0 <= k < species_indxs@.len() && species_indxs@[k] == i as usize;
                            let k0 = if k < pick { k } else { k + 1 };
                            assert(before[k0] == before[pick as int]);
                        }
                    }
                }
                assert forall|id: usize| #[trigger] employees@.dom().contains(id) implies picked_ids(species@, species_indxs@).contains(id) by {
                    if id == sp.species.id {
                        assert(species@[species_indx as int].species.id == id);
                    } else {
                        assert(old_emp.dom().contains(id));
                        let i = choose|i: int| 0 <= i < n && !before.contains(i as usize) && #[trigger] species@[i].species.id == id;
                        assert(!species_indxs@.contains(i as usize));
                    }
                }
                assert forall|id: usize| #[trigger] picked_ids(species@, species_indxs@).contains(id) implies employees@.dom().contains(id) by {
                    let i = choose|i: int| 0 <= i < n && !species_indxs@.contains(i as usize) && #[trigger] species@[i].species.id == id;
                    if i != species_indx {
                        assert(!before.contains(i as usize));
                        assert(picked_ids(species@, before).contains(id));
                        assert(old_emp.dom().contains(id));
                    }
                }
                assert(employees@.dom() =~= picked_ids(species@, species_indxs@));
            }
            remaining_positions = remaining_positions - employed;
            proof {
                assert(counts@.take(t + 1).drop_last() =~= counts@.take(t as int));
            }
            t = t + 1;
        }
        proof {
            if positions > 0 {
                assert(species_indxs@.len() == 0);
                assert(employees@.dom() =~= species_ids(species@)) by {
                    assert forall|id: usize| species_ids(species@).contains(id) implies employees@.dom().contains(id) by {
                        let i = choose|i: int| 0 <= i < species@.len() && #[trigger] species@[i].species.id == id;
                        assert(!species_indxs@.contains(i as usize));
                    }
                }
            }
        }
        JobPosition { positions, job: *job_stats, employees }
    }
}

impl JobPosition {
    /// Each employee entry is filed under its own species' id.
    pub open spec fn wf(&self) -> bool {
        forall|s: usize| #[trigger] self.employees@.contains_key(s) ==> self.employees@[s].species.species.id == s
    }

    /// The job employs no more pops than it has positions.
    pub open spec fn within_capacity(&self) -> bool {
        employed_total(self.employees@) <= self.positions
    }
}

/// The count of the first assignment in `list` to species `id`, if there is one.
pub open spec fn first_count(list: Seq<SpeciesPositionOptimization>, id: usize) -> Option<usize>
    decreases list.len(),
{
    if list.len() == 0 {
        None
    } else if list[0].species_id == id {
        Some(list[0].count)
    } else {
        first_count(list.drop_first(), id)
    }
}

/// The employees that remain once `list` is applied: an employee stays only if its
/// species is assigned in `list`, and then with the count of its first assignment.
pub open spec fn retained(employees: Map<usize, SpeciesPosition>, list: Seq<SpeciesPositionOptimization>) -> Map<usize, SpeciesPosition> {
    Map::new(
        |s: usize| employees.contains_key(s) && first_count(list, employees[s].species.species.id) is Some,
        |s: usize| SpeciesPosition {
            count: first_count(list, employees[s].species.species.id).unwrap(),
            species: employees[s].species,
        },
    )
}

/// `new` is `old` with the assignments `list` applied.
pub open spec fn applied_job(old: JobPosition, new: JobPosition, list: Seq<SpeciesPositionOptimization>) -> bool {
    &&& new.positions == old.positions
    &&& new.job == old.job
    &&& new.employees@ == retained(old.employees@, list)
}

/// The count of the first assignment in `list` to species `id`.
fn find_count(list: &Vec<SpeciesPositionOptimization>, id: usize) -> (r: Option<usize>)
    ensures
        r == first_count(list@, id),
{
    let mut i: usize = 0;
    assert(list@.skip(0) =~= list@);
    while i < list.len()
        invariant
            i <= list.len(),
            first_count(list@, id) == first_count(list@.skip(i as int), id),
        decreases list.len() - i,
    {
        assert(list@.skip(i as int)[0] == list@[i as int]);
        if list[i].species_id == id {
            return Some(list[i].count);
        }
        assert(list@.skip(i as int).drop_first() =~= list@.skip(i + 1));
        i = i + 1;
    }
    None
}

impl JobPosition {
    /// The (species id, pop count) of each employee entry, in no particular order.
    pub fn species_counts(&self) -> (r: Vec<(usize, usize)>)
        ensures
            r@.len() == self.employees@.dom().len(),
            forall|i: int| #![trigger r@[i]] 0 <= i < r@.len() ==>
                self.employees@.contains_key(r@[i].0) && r@[i].1 == self.employees@[r@[i].0].count,
            forall|i: int, j: int| 0 <= i < j < r@.len() ==> #[trigger] r@[i].0 != #[trigger] r@[j].0,
            forall|s: usize| #[trigger] self.employees@.contains_key(s) ==>
                exists|i: int| 0 <= i < r@.len() && #[trigger] r@[i].0 == s,
    {
        let mut r: Vec<(usize, usize)> = Vec::new();
        let ghost m = self.employees@;
        let ghost all = vstd::std_specs::hash::spec_hash_map_iter(&self.employees).remaining();
        for (id, employee) in it: self.employees.iter()
            invariant
                it.seq() == all,
                is_walk(m, all),
                m == self.employees@,
                r@.len() == it.index(),
                forall|k: int| #![trigger r@[k]] 0 <= k < it.index() ==> r@[k] == (*all[k].0, all[k].1.count),
        {
            proof {
                lemma_walk_step(m, all, it.index() as int);
            }
            r.push((*id, employee.count));
        }
        proof {
            assert forall|i: int, j: int| 0 <= i < j < r@.len() implies #[trigger] r@[i].0 != #[trigger] r@[j].0 by {
                assert(r@[i] == (*all[i].0, all[i].1.count));
                assert(r@[j] == (*all[j].0, all[j].1.count));
                if *all[i].0 == *all[j].0 {
                    assert(all[i] == all[j]);
                }
            }
            assert forall|s: usize| #[trigger] m.contains_key(s) implies exists|i: int| 0 <= i < r@.len() && #[trigger] r@[i].0 == s by {
                assert(all.contains((&s, &m[s])));
                let k = choose|k: int| 0 <= k < all.len() && all[k] == (&s, &m[s]);
                assert(r@[k] == (*all[k].0, all[k].1.count));
                assert(r@[k].0 == s);
            }
        }
        r
    }

    /// Applies assignments: each employee whose species is assigned in `list` keeps
    /// working with the count of that species' first assignment; every other employee
    /// is dismissed. Species not employed before are not added.
    fn apply_assignments(&mut self, list: &Vec<SpeciesPositionOptimization>)
        ensures
            applied_job(*old(self), *final(self), list@),
    {
        let mut kept: HashMap<usize, SpeciesPosition> = HashMap::new();
        let ghost m = self.employees@;
        let ghost all = vstd::std_specs::hash::spec_hash_map_iter(&self.employees).remaining();
        proof {
            lemma_walk_start(all);
            assert(kept@ =~= retained(m, list@).restrict(entry_keys(all.take(0))));
        }
        for (id, employee) in it: self.employees.iter()
            invariant
                it.seq() == all,
                is_walk(m, all),
                m == self.employees@,
                kept@ == retained(m, list@).restrict(entry_keys(all.take(it.index() as int))),
        {
            let ghost i = it.index() as int;
            proof {
                lemma_walk_step(m, all, i);
            }
            match find_count(list, employee.species.species.id) {
                Some(count) => {
                    kept.insert(*id, SpeciesPosition { count, species: employee.species });
                },
                None => {},
            }
            assert(kept@ =~= retained(m, list@).restrict(entry_keys(all.take(i + 1))));
        }
        proof {
            lemma_walk_done(m, all);
            assert(kept@ =~= retained(m, list@));
        }
        self.employees = kept;
    }

    /// Applies the optimisation of this job: see `apply_assignments`.
    pub fn intraplanetary_optimize(&mut self, optimized_job: JobPositionOptimizationReturn)
        ensures
            applied_job(*old(self), *final(self), optimized_job.employees@),
    {
        self.apply_assignments(&optimized_job.employees);
    }
}

/// Over all jobs of a planet, the pops of species `s` employed.
pub open spec fn species_total(jobs: Map<usize, JobPosition>, s: usize) -> int {
    sum_over(jobs.dom(), |j: usize| employed_of(jobs[j].employees@, s))
}

/// Some job of the planet employs species `s`.
pub open spec fn employs(jobs: Map<usize, JobPosition>, s: usize) -> bool {
    exists|j: usize| jobs.contains_key(j) && #[trigger] jobs[j].employees@.contains_key(s)
}

/// `totals` holds, for each species that some job employs, the pops of it employed over
/// all jobs, and nothing else.
pub open spec fn totals_match(totals: Map<usize, usize>, jobs: Map<usize, JobPosition>) -> bool {
    forall|s: usize| {
        &&& #[trigger] totals.contains_key(s) <==> employs(jobs, s)
        &&& held(totals, s) == species_total(jobs, s)
    }
}

/// Totals that count the employees over all jobs add up to the pops the jobs employ.
pub proof fn lemma_totals_sum(totals: Map<usize, usize>, jobs: Map<usize, JobPosition>)
    requires
        totals_match(totals, jobs),
        totals.dom().finite(),
        jobs.dom().finite(),
        forall|j: usize| #[trigger] jobs.contains_key(j) ==> jobs[j].employees@.dom().finite(),
    ensures
        value_sum(totals) == sum_over(jobs.dom(), |j: usize| employed_total(jobs[j].employees@)),
{
    let t = totals.dom();
    let jd = jobs.dom();
    let g = |s: usize, j: usize| employed_of(jobs[j].employees@, s);
    let per_species = |s: usize| sum_over(jd, |j: usize| g(s, j));
    assert forall|s: usize| t.contains(s) implies value_of(totals)(s) == per_species(s) by {
        assert(held(totals, s) == species_total(jobs, s));
        lemma_sum_over_congruent(jd, |j: usize| employed_of(jobs[j].employees@, s), |j: usize| g(s, j));
    }
    lemma_sum_over_congruent(t, value_of(totals), per_species);
    lemma_sum_over_exchange(t, jd, g);
    let per_job = |j: usize| sum_over(t, |s: usize| g(s, j));
    assert forall|j: usize| jd.contains(j) implies per_job(j) == employed_total(jobs[j].employees@) by {
        let e = jobs[j].employees@;
        assert(e.dom().subset_of(t)) by {
            assert forall|s: usize| e.dom().contains(s) implies t.contains(s) by {
                assert(jobs.contains_key(j) && jobs[j].employees@.contains_key(s));
                assert(employs(jobs, s));
            }
        }
        lemma_sum_over_zero_outside(e.dom(), t, |s: usize| g(s, j));
        lemma_sum_over_congruent(e.dom(), |s: usize| g(s, j), |s: usize| e[s].count as int);
    }
    lemma_sum_over_congruent(jd, per_job, |j: usize| employed_total(jobs[j].employees@));
}

/// `totals` counts the employees of species `s` over all jobs, plus, for species `u`
/// alone, `unemployed` pops that no job employs.
pub open spec fn totals_with_unemployed(totals: Map<usize, usize>, jobs: Map<usize, JobPosition>, u: usize, unemployed: int) -> bool {
    forall|s: usize| {
        &&& #[trigger] totals.contains_key(s) <==> (employs(jobs, s) || s == u)
        &&& held(totals, s) == species_total(jobs, s) + if s == u { unemployed } else { 0 }
    }
}

/// The invariant of the walk over the jobs: the jobs in `seen` are counted.
spec fn totals_of_seen(totals: Map<usize, usize>, jobs: Map<usize, JobPosition>, seen: Set<usize>) -> bool {
    forall|s: usize| {
        &&& #[trigger] totals.contains_key(s) <==> exists|j: usize| seen.contains(j) && #[trigger] jobs[j].employees@.contains_key(s)
        &&& held(totals, s) == sum_over(seen, |j: usize| employed_of(jobs[j].employees@, s))
    }
}

/// Species `s` is among the first `k` entries of `counts`.
spec fn listed(counts: Seq<(usize, usize)>, k: int, s: usize) -> bool {
    exists|i: int| 0 <= i < k && #[trigger] counts[i].0 == s
}

/// For each species that the jobs employ, the pops of it employed over all jobs.
fn population_totals(jobs: &HashMap<usize, JobPosition>) -> (totals: HashMap<usize, usize>)
    requires
        jobs@.dom().len() <= JOBS_MAX,
        forall|j: usize, s: usize| jobs@.contains_key(j) ==> #[trigger] employed_of(jobs@[j].employees@, s) <= POP_MAX,
    ensures
        totals_match(totals@, jobs@),
{
    let mut totals: HashMap<usize, usize> = HashMap::new();
    let ghost m = jobs@;
    let ghost all = vstd::std_specs::hash::spec_hash_map_iter(jobs).remaining();
    proof {
        lemma_walk_start(all);
    }
    for (job_id, job) in it: jobs.iter()
        invariant
            it.seq() == all,
            is_walk(m, all),
            m == jobs@,
            m.dom().len() <= JOBS_MAX,
            forall|j: usize, s: usize| m.contains_key(j) ==> #[trigger] employed_of(m[j].employees@, s) <= POP_MAX,
            totals_of_seen(totals@, m, entry_keys(all.take(it.index() as int))),
    {
        let ghost i = it.index() as int;
        let ghost seen = entry_keys(all.take(i));
        proof {
            lemma_walk_step(m, all, i);
            vstd::set_lib::lemma_len_subset(seen, m.dom());
            assert(seen.len() < m.dom().len()) by {
                vstd::set_lib::lemma_len_subset(seen.insert(*job_id), m.dom());
            }
        }
        let ghost emps = job.employees@;
        let counts = job.species_counts();
        let mut k: usize = 0;
        while k < counts.len()
            invariant
                k <= counts.len(),
                seen.finite(),
                seen.subset_of(m.dom()),
                seen.len() < JOBS_MAX,
                !seen.contains(*job_id),
                m.contains_key(*job_id),
                emps == m[*job_id].employees@,
                forall|j: usize, s: usize| m.contains_key(j) ==> #[trigger] employed_of(m[j].employees@, s) <= POP_MAX,
                forall|a: int| #![trigger counts@[a]] 0 <= a < counts@.len() ==>
                    emps.contains_key(counts@[a].0) && counts@[a].1 == emps[counts@[a].0].count,
                forall|a: int, b: int| 0 <= a < b < counts@.len() ==> #[trigger] counts@[a].0 != #[trigger] counts@[b].0,
                forall|s: usize| {
                    &&& #[trigger] totals@.contains_key(s) <==> ((exists|j: usize| seen.contains(j) && #[trigger] m[j].employees@.contains_key(s)) || listed(counts@, k as int, s))
                    &&& held(totals@, s) == sum_over(seen, |j: usize| employed_of(m[j].employees@, s))
                        + if listed(counts@, k as int, s) { employed_of(emps, s) } else { 0 }
                },
            decreases counts.len() - k,
        {
            let (species_id, count) = counts[k];
            proof {
                assert(counts@[k as int].0 == species_id);
                assert(!listed(counts@, k as int, species_id)) by {
                    if listed(counts@, k as int, species_id) {
                        let a = choose|a: int| 0 <= a < k && #[trigger] counts@[a].0 == species_id;
                        assert(counts@[a].0 != counts@[k as int].0);
                    }
                }
                let f = |j: usize| employed_of(m[j].employees@, species_id);
                assert forall|j: usize| seen.contains(j) implies 0 <= #[trigger] f(j) <= POP_MAX by {
                    assert(m.contains_key(j));
                }
                lemma_sum_over_bound(seen, f, POP_MAX as int);
                assert(seen.len() * POP_MAX <= JOBS_MAX * POP_MAX) by (nonlinear_arith)
                    requires seen.len() < JOBS_MAX;
                assert(count as int == employed_of(emps, species_id));
                assert(employed_of(emps, species_id) <= POP_MAX);
            }
            let ghost before = totals@;
            let current: usize = match totals.get(&species_id) {
                Some(c) => *c,
                None => 0,
            };
            assert(current as int == held(before, species_id));
            totals.insert(species_id, current + count);
            proof {
                assert forall|s: usize| #![auto] listed(counts@, k + 1, s) <==> (listed(counts@, k as int, s) || s == species_id) by {
                    if listed(counts@, k + 1, s) && !listed(counts@, k as int, s) {
                        let a = choose|a: int| 0 <= a < k + 1 && #[trigger] counts@[a].0 == s;
                        if a < k { assert(listed(counts@, k as int, s)); }
                    }
                    if s == species_id {
                        assert(counts@[k as int].0 == s);
                    }
                    if listed(counts@, k as int, s) {
                        let a = choose|a: int| 0 <= a < k && #[trigger] counts@[a].0 == s;
                        assert(0 <= a < k + 1);
                    }
                }
            }
            k = k + 1;
        }
        proof {
            assert forall|s: usize| #![auto] emps.contains_key(s) ==> listed(counts@, counts@.len() as int, s) by {
                if emps.contains_key(s) {
                    let a = choose|a: int| 0 <= a < counts@.len() && #[trigger] counts@[a].0 == s;
                }
            }
            assert forall|s: usize| #![auto] listed(counts@, counts@.len() as int, s) ==> emps.contains_key(s) by {
                if listed(counts@, counts@.len() as int, s) {
                    let a = choose|a: int| 0 <= a < counts@.len() && #[trigger] counts@[a].0 == s;
                }
            }
            let seen2 = entry_keys(all.take(i + 1));
            assert(seen2 == seen.insert(*job_id));
            assert forall|s: usize| {
                &&& #[trigger] totals@.contains_key(s) <==> exists|j: usize| seen2.contains(j) && #[trigger] m[j].employees@.contains_key(s)
                &&& held(totals@, s) == sum_over(seen2, |j: usize| employed_of(m[j].employees@, s))
            } by {
                lemma_sum_over_insert(seen, |j: usize| employed_of(m[j].employees@, s), *job_id);
                if totals@.contains_key(s) && !(exists|j: usize| seen.contains(j) && #[trigger] m[j].employees@.contains_key(s)) {
                    assert(seen2.contains(*job_id) && m[*job_id].employees@.contains_key(s));
                }
                if exists|j: usize| seen2.contains(j) && #[trigger] m[j].employees@.contains_key(s) {
                    let j = choose|j: usize| seen2.contains(j) && #[trigger] m[j].employees@.contains_key(s);
                    if j != *job_id {
                        assert(seen.contains(j));
                    }
                }
            }
        }
    }
    proof {
        lemma_walk_done(m, all);
    }
    totals
}

/// The sum of a sequence of counts.
pub open spec fn seq_sum(s: Seq<usize>) -> int
    decreases s.len(),
{
    if s.len() == 0 { 0 } else { seq_sum(s.drop_last()) + s.last() }
}

/// A pop count is at most the total of the job's employees.
pub proof fn lemma_employed_of_le_total(employees: Map<usize, SpeciesPosition>, s: usize)
    requires
        employees.dom().finite(),
    ensures
        0 <= employed_of(employees, s) <= employed_total(employees),
{
    let f = |x: usize| employees[x].count as int;
    lemma_sum_over_nonneg(employees.dom(), f);
    if employees.contains_key(s) {
        lemma_sum_over_term(employees.dom(), f, s);
    }
}

/// A planet: the pops of each species on it, and its jobs by job id.
pub struct Planet {
    /// Species id to the number of pops of that species on the planet.
    pub population_totals: HashMap<usize, usize>,
    /// Job id to the job.
    pub jobs: HashMap<usize, JobPosition>,
}

/// The random draws that generate a planet, in the order in which `Planet::new` makes
/// them.
pub struct PlanetDraws {
    /// The planet's pops.
    pub pops: usize,
    /// The planet's number of jobs.
    pub max_jobs: usize,
    /// For each of the planet's species in turn, its place among the empire's species
    /// not yet taken.
    pub species_picks: Vec<usize>,
    /// For each job, its positions, below the pops not yet given a job.
    pub positions: Vec<usize>,
    /// For each job, its place among the empire's jobs not yet taken.
    pub job_picks: Vec<usize>,
    /// For each job, the species picks that fill it (see `JobPosition::from_draws`).
    pub hire_picks: Vec<Vec<usize>>,
    /// For each job, the counts that fill it (see `JobPosition::from_draws`).
    pub hire_counts: Vec<Vec<usize>>,
    /// The place, among the planet's species, of the one that holds the pops without a
    /// job.
    pub unemployed_pick: usize,
}

impl PlanetDraws {
    /// Draws that `Planet::new` can make from `nj` jobs and `ns` species: each in the
    /// range it is drawn from, and as many as are drawn.
    pub open spec fn valid_for(&self, nj: nat, ns: nat) -> bool {
        &&& POP_MIN <= self.pops <= POP_MAX
        &&& JOBS_MIN <= self.max_jobs <= JOBS_MAX
        &&& SPECIES_MIN <= self.species_picks@.len() <= ns
        &&& forall|t: int| 0 <= t < self.species_picks@.len() ==> #[trigger] self.species_picks@[t] < ns - t
        &&& self.positions@.len() == self.max_jobs
        &&& forall|i: int| #![trigger self.positions@[i]] 0 <= i < self.positions@.len() ==>
            self.positions@[i] < self.pops - seq_sum(self.positions@.take(i))
        &&& self.job_picks@.len() == self.max_jobs
        &&& forall|i: int| 0 <= i < self.job_picks@.len() ==> #[trigger] self.job_picks@[i] < nj - i
        &&& self.hire_picks@.len() == self.max_jobs
        &&& self.hire_counts@.len() == self.max_jobs
        &&& forall|i: int| #![trigger self.hire_picks@[i]] 0 <= i < self.max_jobs ==>
            valid_hiring(self.species_picks@.len(), self.positions@[i] as nat, self.hire_picks@[i]@, self.hire_counts@[i]@)
        &&& self.unemployed_pick < self.species_picks@.len()
    }

    /// The planet's species, in the order they are taken from `species`.
    pub open spec fn planetary(&self, species: Seq<EmpireSpecies>) -> Seq<EmpireSpecies> {
        Seq::new(self.species_picks@.len(), |t: int|
            species[indices_left(species.len(), self.species_picks@, t as nat)[self.species_picks@[t] as int] as int])
    }

    /// The first `i` jobs, by job id: positions, job and employees.
    pub open spec fn jobs_view(&self, jobs: Seq<EmpireJob>, species: Seq<EmpireSpecies>, i: nat)
        -> Map<usize, (usize, EmpireJob, Map<usize, SpeciesPosition>)>
        decreases i,
    {
        if i == 0 {
            Map::empty()
        } else {
            let k = (i - 1) as int;
            let ej = jobs[indices_left(jobs.len(), self.job_picks@, k as nat)[self.job_picks@[k] as int] as int];
            self.jobs_view(jobs, species, k as nat).insert(ej.job.id, (
                self.positions@[k],
                ej,
                hired(self.planetary(species), self.hire_picks@[k]@, self.hire_counts@[k]@, self.hire_picks@[k]@.len()),
            ))
        }
    }
}

/// The total number of positions over the jobs of a planet.
pub open spec fn positions_total(jobs: Map<usize, JobPosition>) -> int {
    sum_over(jobs.dom(), |j: usize| jobs[j].positions as int)
}

impl Planet {
    /// Each job is filed under its own job id and files its employees under their
    /// species' ids.
    pub open spec fn wf(&self) -> bool {
        forall|j: usize| #[trigger] self.jobs@.contains_key(j) ==>
            self.jobs@[j].job.job.id == j && self.jobs@[j].wf()
    }

    /// The planet is the one that `draws` generate from these jobs and species: its jobs
    /// are `jobs_view`, and its totals count the employees of each species plus, for the
    /// species at `unemployed_pick`, the pops that no job employs.
    pub open spec fn drawn_from(&self, empire_jobs: Seq<EmpireJob>, empire_species: Seq<EmpireSpecies>, draws: PlanetDraws) -> bool {
        let view = draws.jobs_view(empire_jobs, empire_species, draws.max_jobs as nat);
        &&& self.jobs@.dom() == view.dom()
        &&& forall|j: usize| #[trigger] self.jobs@.contains_key(j) ==>
            (self.jobs@[j].positions, self.jobs@[j].job, self.jobs@[j].employees@) == view[j]
        &&& totals_with_unemployed(
            self.population_totals@,
            self.jobs@,
            draws.planetary(empire_species)[draws.unemployed_pick as int].species.id,
            draws.pops - sum_over(self.jobs@.dom(), |j: usize| employed_total(self.jobs@[j].employees@)),
        )
    }

    /// The planet is the one that some draws `Planet::new` can make generate from these
    /// jobs and species.
    pub open spec fn drawn_from_some(&self, empire_jobs: Seq<EmpireJob>, empire_species: Seq<EmpireSpecies>) -> bool {
        exists|draws: PlanetDraws|
            draws.valid_for(empire_jobs.len(), empire_species.len()) && #[trigger] self.drawn_from(empire_jobs, empire_species, draws)
    }

    /// What holds of every planet that `Planet::new` can generate from these jobs and
    /// species.
    pub open spec fn generated_from(&self, empire_jobs: Seq<EmpireJob>, empire_species: Seq<EmpireSpecies>) -> bool {
        &&& self.wf()
        &&& JOBS_MIN <= self.jobs@.dom().len() <= JOBS_MAX
        &&& positions_total(self.jobs@) < POP_MAX
        &&& POP_MIN <= value_sum(self.population_totals@) <= POP_MAX
        &&& positions_total(self.jobs@) < value_sum(self.population_totals@)
        &&& forall|j: usize| #[trigger] self.jobs@.contains_key(j) ==> {
            &&& self.jobs@[j].within_capacity()
            &&& self.jobs@[j].positions > 0 ==> employed_total(self.jobs@[j].employees@) < self.jobs@[j].positions
            &&& empire_jobs.contains(self.jobs@[j].job)
            &&& forall|s: usize| #[trigger] self.jobs@[j].employees@.contains_key(s) ==>
                empire_species.contains(self.jobs@[j].employees@[s].species)
        }
        &&& exists|planetary: Set<usize>, unemployed_species: usize, unemployed: int| {
            &&& planetary.len() >= SPECIES_MIN
            &&& planetary.subset_of(species_ids(empire_species))
            &&& forall|j: usize| #[trigger] self.jobs@.contains_key(j) ==>
                self.jobs@[j].employees@.dom() == if self.jobs@[j].positions == 0 { Set::<usize>::empty() } else { planetary }
            &&& planetary.contains(unemployed_species)
            &&& unemployed > 0
            &&& totals_with_unemployed(self.population_totals@, self.jobs@, unemployed_species, unemployed)
        }
    }

    /// Generates a planet at random: between `POP_MIN` and `POP_MAX` pops, between
    /// `JOBS_MIN` and `JOBS_MAX` jobs, and between `SPECIES_MIN` and all of the empire's
    /// species. The pops are split over the jobs, each job taking a random share (smaller
    /// than what is left) of the pops not yet given a job; the jobs are distinct jobs of
    /// the empire, picked at random, each filled by `JobPosition::new` with the planet's
    /// species. The pops that no job employs (there is at least one) are unemployed pops
    /// of one of the planet's species, picked at random. The population totals count
    /// every pop of the planet: the employees of every job and the unemployed pops. So
    /// every job with positions leaves one open at least, and the positions of all jobs
    /// together are fewer than the planet's pops. The draws are handed to `from_draws`.
    pub fn new(rng: &mut ThreadRng, empire_jobs: &Vec<EmpireJob>, empire_species: &Vec<EmpireSpecies>) -> (r: Planet)
        requires
            SPECIES_MIN <= empire_species.len() < usize::MAX,
            empire_jobs.len() >= JOBS_MAX,
        ensures
            r.generated_from(empire_jobs@, empire_species@),
            r.drawn_from_some(empire_jobs@, empire_species@),
    {
        let nj = empire_jobs.len();
        let ns = empire_species.len();
        let pops = gen_range(rng, POP_MIN, POP_MAX + 1);
        let max_jobs = gen_range(rng, JOBS_MIN, JOBS_MAX + 1);

        // Species
        let number_of_species = gen_range(rng, SPECIES_MIN, ns + 1);
        let mut species_picks: Vec<usize> = Vec::new();
        while species_picks.len() < number_of_species
            invariant
                number_of_species <= ns,
                species_picks@.len() <= number_of_species,
                forall|t: int| 0 <= t < species_picks@.len() ==> #[trigger] species_picks@[t] < ns - t,
            decreases number_of_species - species_picks.len(),
        {
            let pick = gen_range(rng, 0, ns - species_picks.len());
            species_picks.push(pick);
        }

        // Pops per job
        let mut positions: Vec<usize> = Vec::new();
        let mut number_of_pops = pops;
        while !(positions.len() == max_jobs || number_of_pops == 0)
            invariant
                positions@.len() <= max_jobs,
                1 <= number_of_pops <= pops,
                seq_sum(positions@) + number_of_pops == pops,
                forall|i: int| #![trigger positions@[i]] 0 <= i < positions@.len() ==>
                    positions@[i] < pops - seq_sum(positions@.take(i)),
            decreases max_jobs - positions.len(),
        {
            let p = gen_range(rng, 0, number_of_pops);
            let ghost before = positions@;
            positions.push(p);
            proof {
                assert(positions@.drop_last() =~= before);
                assert(positions@.take(before.len() as int) =~= before);
                assert forall|i: int| 0 <= i < before.len() implies #[trigger] positions@.take(i) =~= before.take(i) by {}
            }
            number_of_pops = number_of_pops - p;
        }

        // Jobs, each with what fills it
        let mut job_picks: Vec<usize> = Vec::new();
        let mut hire_picks: Vec<Vec<usize>> = Vec::new();
        let mut hire_counts: Vec<Vec<usize>> = Vec::new();
        while job_picks.len() < positions.len()
            invariant
                positions@.len() == max_jobs <= JOBS_MAX <= nj,
                job_picks@.len() <= max_jobs,
                hire_picks@.len() == job_picks@.len(),
                hire_counts@.len() == job_picks@.len(),
                forall|i: int| 0 <= i < job_picks@.len() ==> #[trigger] job_picks@[i] < nj - i,
                forall|i: int| #![trigger hire_picks@[i]] 0 <= i < job_picks@.len() ==>
                    valid_hiring(number_of_species as nat, positions@[i] as nat, hire_picks@[i]@, hire_counts@[i]@),
            decreases max_jobs - job_picks.len(),
        {
            let pick = gen_range(rng, 0, nj - job_picks.len());
            let (hp, hc) = draw_hiring(rng, number_of_species, positions[job_picks.len()]);
            job_picks.push(pick);
            hire_picks.push(hp);
            hire_counts.push(hc);
        }
        let unemployed_pick = gen_range(rng, 0, number_of_species);
        let draws = PlanetDraws { pops, max_jobs, species_picks, positions, job_picks, hire_picks, hire_counts, unemployed_pick };
        proof {
            assert(draws.positions@.take(draws.positions@.len() as int) =~= draws.positions@);
        }
        let r = Planet::from_draws(empire_jobs, empire_species, &draws);
        proof {
            assert(r.drawn_from(empire_jobs@, empire_species@, draws));
        }
        r
    }

    /// The planet that given draws generate, made as `new` makes it: the planet's
    /// species are taken one by one, each at place `species_picks[t]` among the empire's
    /// species not yet taken; job `i` has `positions[i]` positions and is the empire's
    /// job at place `job_picks[i]` among those not yet taken, filled by
    /// `JobPosition::from_draws` with the planet's species and the `i`-th hiring draws;
    /// the pops without a job go to the planet's species at place `unemployed_pick`. The
    /// planet is exactly the one `drawn_from` describes.
    #[verifier::rlimit(60)]
    #[verifier::spinoff_prover]
    pub fn from_draws(empire_jobs: &Vec<EmpireJob>, empire_species: &Vec<EmpireSpecies>, draws: &PlanetDraws) -> (r: Planet)
        requires
            draws.valid_for(empire_jobs.len() as nat, empire_species.len() as nat),
        ensures
            r.drawn_from(empire_jobs@, empire_species@, *draws),
            r.generated_from(empire_jobs@, empire_species@),
    {
        let initial_pops = draws.pops;
        let mut number_of_pops = initial_pops;
        let max_jobs = draws.max_jobs;
        let ghost ns = empire_species.len() as nat;
        let ghost nj = empire_jobs.len() as nat;

        // Species
        let number_of_species = draws.species_picks.len();
        let mut planetary_species: Vec<EmpireSpecies> = Vec::new();
        let mut species_indxs: Vec<usize> = index_list(empire_species.len());
        let mut t: usize = 0;
        while t < number_of_species
            invariant
                t <= number_of_species <= empire_species.len(),
                species_indxs@.len() == empire_species.len() - t,
                forall|k: int| 0 <= k < species_indxs@.len() ==> species_indxs@[k] < empire_species.len(),
                planetary_species@.len() == t,
                forall|k: int| 0 <= k < t ==> empire_species@.contains(#[trigger] planetary_species@[k]),
                draws.valid_for(nj, ns),
                number_of_species == draws.species_picks@.len(),
                ns == empire_species.len(),
                species_indxs@ == indices_left(ns, draws.species_picks@, t as nat),
                forall|k: int| 0 <= k < t ==> #[trigger] planetary_species@[k] == draws.planetary(empire_species@)[k],
            decreases number_of_species - t,
        {
            let indx = draws.species_picks[t];
            let ghost before = species_indxs@;
            let species_indx = species_indxs.remove(indx);
            proof {
                assert forall|k: int| 0 <= k < species_indxs@.len() implies species_indxs@[k] < empire_species.len() by {
                    if k < indx { assert(species_indxs@[k] == before[k]); } else { assert(species_indxs@[k] == before[k + 1]); }
                }
                assert(empire_species@[species_indx as int] == empire_species[species_indx as int]);
            }
            planetary_species.push(empire_species[species_indx]);
            t = t + 1;
        }
        let ghost planetary = species_ids(planetary_species@);
        proof {
            assert(planetary_species@ =~= draws.planetary(empire_species@));
            assert(planetary.contains(planetary_species@[0].species.id));
            assert(planetary =~= planetary.insert(planetary_species@[0].species.id));
            assert(planetary.subset_of(species_ids(empire_species@))) by {
                assert forall|id: usize| planetary.contains(id) implies species_ids(empire_species@).contains(id) by {
                    let k = choose|k: int| 0 <= k < planetary_species@.len() && #[trigger] planetary_species@[k].species.id == id;
                    assert(empire_species@.contains(planetary_species@[k]));
                    let e = choose|e: int| 0 <= e < empire_species@.len() && empire_species@[e] == planetary_species@[k];
                    assert(empire_species@[e].species.id == id);
                }
            }
            assert(species_ids(empire_species@).finite()) by {
                assert(species_ids(empire_species@) =~= empire_species@.map_values(|e: EmpireSpecies| e.species.id).to_set()) by {
                    assert forall|id: usize| species_ids(empire_species@).contains(id) implies
                        empire_species@.map_values(|e: EmpireSpecies| e.species.id).to_set().contains(id) by {
                        let i = choose|i: int| 0 <= i < empire_species@.len() && #[trigger] empire_species@[i].species.id == id;
                        assert(empire_species@.map_values(|e: EmpireSpecies| e.species.id)[i] == id);
                    }
                }
            }
            vstd::set_lib::lemma_len_subset(planetary, species_ids(empire_species@));
            assert(planetary.remove(planetary_species@[0].species.id).len() + 1 == planetary.len());
        }

        // Pops per job
        let mut job_positions: Vec<usize> = Vec::new();
        while job_positions.len() < max_jobs
            invariant
                JOBS_MIN <= max_jobs <= JOBS_MAX,
                job_positions@.len() <= max_jobs,
                1 <= number_of_pops <= initial_pops <= POP_MAX,
                seq_sum(job_positions@) + number_of_pops == initial_pops,
                forall|k: int| 0 <= k < job_positions@.len() ==> #[trigger] job_positions@[k] < POP_MAX,
                draws.valid_for(nj, ns),
                initial_pops == draws.pops,
                max_jobs == draws.max_jobs,
                job_positions@ == draws.positions@.take(job_positions@.len() as int),
            decreases max_jobs - job_positions.len(),
        {
            let positions = draws.positions[job_positions.len()];
            proof {
                assert(job_positions@.push(positions).drop_last() =~= job_positions@);
                assert(draws.positions@.take((job_positions@.len() + 1) as int) =~= job_positions@.push(positions));
            }
            job_positions.push(positions);
            number_of_pops = number_of_pops - positions;
        }

        proof {
            assert(job_positions@ =~= draws.positions@);
            assert(draws.job_picks@[max_jobs - 1] < nj - (max_jobs - 1));
        }

        // Jobs
        let mut jobs: HashMap<usize, JobPosition> = HashMap::new();
        let mut job_indxs: Vec<usize> = index_list(empire_jobs.len());
        let mut i: usize = 0;
        while i < job_positions.len()
            invariant
                job_positions@.len() == max_jobs,
                JOBS_MIN <= max_jobs <= JOBS_MAX,
                max_jobs <= empire_jobs.len(),
                i <= job_positions@.len(),
                job_indxs@.len() == empire_jobs.len() - i,
                forall|k: int| 0 <= k < job_indxs@.len() ==> job_indxs@[k] < empire_jobs.len(),
                forall|k: int| 0 <= k < job_positions@.len() ==> #[trigger] job_positions@[k] < POP_MAX,
                seq_sum(job_positions@) < POP_MAX,
                seq_sum(job_positions@) + number_of_pops == initial_pops,
                1 <= number_of_pops,
                POP_MIN <= initial_pops <= POP_MAX,
                planetary_species@.len() >= SPECIES_MIN,
                jobs@.dom().finite(),
                jobs@.dom().len() <= i,
                i > 0 ==> jobs@.dom().len() >= 1,
                positions_total(jobs@) <= seq_sum(job_positions@.take(i as int)),
                forall|j: usize| #[trigger] jobs@.contains_key(j) ==> {
                    &&& jobs@[j].job.job.id == j
                    &&& jobs@[j].wf()
                    &&& jobs@[j].within_capacity()
                    &&& jobs@[j].positions > 0 ==> employed_total(jobs@[j].employees@) < jobs@[j].positions
                    &&& jobs@[j].positions < POP_MAX
                    &&& empire_jobs@.contains(jobs@[j].job)
                    &&& jobs@[j].employees@.dom() == if jobs@[j].positions == 0 { Set::<usize>::empty() } else { planetary }
                    &&& forall|s: usize| #[trigger] jobs@[j].employees@.contains_key(s) ==>
                        empire_species@.contains(jobs@[j].employees@[s].species)
                },
                planetary == species_ids(planetary_species@),
                forall|k: int| 0 <= k < planetary_species@.len() ==> empire_species@.contains(#[trigger] planetary_species@[k]),
                draws.valid_for(nj, ns),
                nj == empire_jobs.len(),
                ns == empire_species.len(),
                max_jobs == draws.max_jobs,
                job_positions@ == draws.positions@,
                planetary_species@ == draws.planetary(empire_species@),
                job_indxs@ == indices_left(nj, draws.job_picks@, i as nat),
                jobs@.dom() == draws.jobs_view(empire_jobs@, empire_species@, i as nat).dom(),
                forall|j: usize| #[trigger] jobs@.contains_key(j) ==>
                    (jobs@[j].positions, jobs@[j].job, jobs@[j].employees@) == draws.jobs_view(empire_jobs@, empire_species@, i as nat)[j],
            decreases job_positions.len() - i,
        {
            let indx = draws.job_picks[i];
            let ghost before = job_indxs@;
            let job_indx = job_indxs.remove(indx);
            proof {
                assert forall|k: int| 0 <= k < job_indxs@.len() implies job_indxs@[k] < empire_jobs.len() by {
                    if k < indx { assert(job_indxs@[k] == before[k]); } else { assert(job_indxs@[k] == before[k + 1]); }
                }
            }
            proof {
                assert(valid_hiring(draws.species_picks@.len(), draws.positions@[i as int] as nat,
                    draws.hire_picks@[i as int]@, draws.hire_counts@[i as int]@));
            }
            let job = JobPosition::from_draws(&empire_jobs[job_indx], &planetary_species, job_positions[i],
                &draws.hire_picks[i], &draws.hire_counts[i]);
            let id = empire_jobs[job_indx].job.id;
            let ghost old_jobs = jobs@;
            jobs.insert(id, job);
            proof {
                let jv = draws.jobs_view(empire_jobs@, empire_species@, i as nat);
                let jv2 = draws.jobs_view(empire_jobs@, empire_species@, (i + 1) as nat);
                assert(jv2 == jv.insert(id, (job.positions, job.job, job.employees@))) by {
                    assert(job_indx == before[indx as int]);
                    assert(empire_jobs@[job_indx as int] == empire_jobs[job_indx as int]);
                }
                assert(jobs@.dom() =~= jv2.dom());
                assert forall|j: usize| #[trigger] jobs@.contains_key(j) implies
                    (jobs@[j].positions, jobs@[j].job, jobs@[j].employees@) == jv2[j] by {
                    if j != id {
                        assert(old_jobs.contains_key(j));
                    }
                }
                assert(job_indxs@ =~= indices_left(nj, draws.job_picks@, (i + 1) as nat));
                assert(empire_jobs@[job_indx as int] == empire_jobs[job_indx as int]);
                assert(empire_jobs@.contains(job.job));
                assert forall|s: usize| #[trigger] job.employees@.contains_key(s) implies
                    empire_species@.contains(job.employees@[s].species) by {
                    let k = choose|k: int| 0 <= k < planetary_species@.len() && planetary_species@[k] == job.employees@[s].species;
                    assert(empire_species@.contains(planetary_species@[k]));
                }
                lemma_sum_over_set_term(old_jobs.dom(), |j: usize| old_jobs[j].positions as int, |j: usize| jobs@[j].positions as int, id);
                assert(jobs@.dom() =~= old_jobs.dom().insert(id));
                assert(job_positions@.take(i + 1).drop_last() =~= job_positions@.take(i as int));
                if old_jobs.dom().contains(id) {
                    assert(old_jobs.dom().insert(id) =~= old_jobs.dom());
                }
            }
            i = i + 1;
        }
        proof {
            assert(job_positions@.take(job_positions@.len() as int) =~= job_positions@);
            assert forall|j: usize, s: usize| jobs@.contains_key(j) implies #[trigger] employed_of(jobs@[j].employees@, s) <= POP_MAX by {
                lemma_employed_of_le_total(jobs@[j].employees@, s);
            }
        }

        // Species population totals
        let mut population_totals = population_totals(&jobs);
        proof {
            assert forall|j: usize| #[trigger] jobs@.contains_key(j) implies jobs@[j].employees@.dom().finite() by {
                assert(jobs@[j].employees@.dom().finite());
            }
            lemma_totals_sum(population_totals@, jobs@);
            lemma_sum_over_le(jobs@.dom(), |j: usize| employed_total(jobs@[j].employees@), |j: usize| jobs@[j].positions as int);
        }
        let employed = map_total(&population_totals);

        // The pops without a job are unemployed pops of one of the planet's species
        let unemployed = initial_pops - employed;
        let pick = draws.unemployed_pick;
        let unemployed_species = planetary_species[pick].species.id;
        let current: usize = match population_totals.get(&unemployed_species) {
            Some(c) => *c,
            None => 0,
        };
        let ghost counted = population_totals@;
        proof {
            lemma_sum_over_nonneg(counted.dom(), value_of(counted));
            if counted.contains_key(unemployed_species) {
                lemma_sum_over_term(counted.dom(), value_of(counted), unemployed_species);
            }
        }
        population_totals.insert(unemployed_species, current + unemployed);
        proof {
            lemma_value_sum_insert(counted, unemployed_species, (current + unemployed) as usize);
            assert(planetary.contains(unemployed_species)) by {
                assert(planetary_species@[pick as int].species.id == unemployed_species);
            }
            assert(totals_with_unemployed(population_totals@, jobs@, unemployed_species, unemployed as int));
            let r = Planet { population_totals, jobs };
            assert({
                &&& planetary.len() >= SPECIES_MIN
                &&& planetary.subset_of(species_ids(empire_species@))
                &&& forall|j: usize| #[trigger] r.jobs@.contains_key(j) ==>
                    r.jobs@[j].employees@.dom() == if r.jobs@[j].positions == 0 { Set::<usize>::empty() } else { planetary }
                &&& planetary.contains(unemployed_species)
                &&& unemployed > 0
                &&& totals_with_unemployed(r.population_totals@, r.jobs@, unemployed_species, unemployed as int)
            });
        }
        Planet { population_totals, jobs }
    }
}

/// `new` is the planet `old` with the optimisation `opt` applied: every job that `opt`
/// names has its employees replaced as `applied_job` says; all else is as it was.
pub open spec fn applied_planet(old: Planet, new: Planet, opt: Map<usize, Seq<SpeciesPositionOptimization>>) -> bool {
    &&& new.population_totals@ == old.population_totals@
    &&& new.jobs@.dom() == old.jobs@.dom()
    &&& forall|j: usize| #[trigger] new.jobs@.contains_key(j) ==>
        if opt.contains_key(j) { applied_job(old.jobs@[j], new.jobs@[j], opt[j]) } else { new.jobs@[j] == old.jobs@[j] }
}

impl Planet {
    /// The number of pops on the planet: the sum of its population totals.
    pub fn pops(&self) -> (r: usize)
        requires
            value_sum(self.population_totals@) <= usize::MAX,
        ensures
            r == value_sum(self.population_totals@),
    {
        map_total(&self.population_totals)
    }

    fn apply_optimization(&mut self, optimised_planet: &PlanetOptimizationReturn)
        requires
            optimised_planet.jobs@.dom().subset_of(old(self).jobs@.dom()),
        ensures
            applied_planet(*old(self), *final(self), optimised_planet.assignments()),
    {
        let ghost opt = optimised_planet.assignments();
        let ghost old_jobs = self.jobs@;
        let ghost m = optimised_planet.jobs@;
        let ghost all = vstd::std_specs::hash::spec_hash_map_iter(&optimised_planet.jobs).remaining();
        proof {
            lemma_walk_start(all);
        }
        for (id, job) in it: optimised_planet.jobs.iter()
            invariant
                it.seq() == all,
                is_walk(m, all),
                m == optimised_planet.jobs@,
                opt == optimised_planet.assignments(),
                m.dom().subset_of(old_jobs.dom()),
                self.jobs@.dom() == old_jobs.dom(),
                self.population_totals@ == old(self).population_totals@,
                old_jobs == old(self).jobs@,
                forall|j: usize| #[trigger] self.jobs@.contains_key(j) ==>
                    if entry_keys(all.take(it.index() as int)).contains(j) {
                        applied_job(old_jobs[j], self.jobs@[j], opt[j])
                    } else {
                        self.jobs@[j] == old_jobs[j]
                    },
        {
            let ghost i = it.index() as int;
            proof {
                lemma_walk_step(m, all, i);
            }
            if let Some(mut position) = self.jobs.remove(id) {
                position.apply_assignments(&job.employees);
                self.jobs.insert(*id, position);
            }
            proof {
                assert(self.jobs@.dom() =~= old_jobs.dom());
                assert(opt[*id] == job.employees@);
            }
        }
        proof {
            lemma_walk_done(m, all);
        }
    }

    /// Applies the optimisation of this planet: each job it names has its employees
    /// replaced as `JobPosition::intraplanetary_optimize` does. The optimisation must
    /// name only jobs of the planet.
    pub fn intraplanetary_optimize(&mut self, optimised_planet: PlanetOptimizationReturn)
        requires
            optimised_planet.jobs@.dom().subset_of(old(self).jobs@.dom()),
        ensures
            applied_planet(*old(self), *final(self), optimised_planet.assignments()),
    {
        self.apply_optimization(&optimised_planet);
    }
}

/// The number of pops over a sequence of planets.
pub open spec fn planets_pops(planets: Seq<Planet>) -> int
    decreases planets.len(),
{
    if planets.len() == 0 {
        0
    } else {
        planets_pops(planets.drop_last()) + value_sum(planets.last().population_totals@)
    }
}

/// An empire: its planets, and the species and jobs it has.
pub struct Empire {
    pub planets: Vec<Planet>,
    pub species: Vec<EmpireSpecies>,
    pub jobs: Vec<EmpireJob>,
}

impl Empire {
    /// An empire with no planet yet, with the given jobs and species.
    pub fn new(jobs: &Vec<Job>, species: &Vec<Species>) -> (r: Empire)
        ensures
            r.planets@.len() == 0,
            r.jobs@.len() == jobs@.len(),
            forall|i: int| 0 <= i < jobs@.len() ==> #[trigger] r.jobs@[i] == (EmpireJob { job: jobs@[i] }),
            r.species@.len() == species@.len(),
            forall|i: int| 0 <= i < species@.len() ==> #[trigger] r.species@[i] == (EmpireSpecies { species: species@[i] }),
    {
        let mut empire_jobs: Vec<EmpireJob> = Vec::new();
        let mut i: usize = 0;
        while i < jobs.len()
            invariant
                i <= jobs.len(),
                empire_jobs@.len() == i,
                forall|k: int| 0 <= k < i ==> #[trigger] empire_jobs@[k] == (EmpireJob { job: jobs@[k] }),
            decreases jobs.len() - i,
        {
            empire_jobs.push(EmpireJob::new(jobs[i]));
            i = i + 1;
        }
        let mut empire_species: Vec<EmpireSpecies> = Vec::new();
        let mut k: usize = 0;
        while k < species.len()
            invariant
                k <= species.len(),
                empire_species@.len() == k,
                forall|x: int| 0 <= x < k ==> #[trigger] empire_species@[x] == (EmpireSpecies { species: species@[x] }),
            decreases species.len() - k,
        {
            empire_species.push(EmpireSpecies::new(species[k]));
            k = k + 1;
        }
        Empire { planets: Vec::new(), species: empire_species, jobs: empire_jobs }
    }

    /// Gives the empire between `PLANETS_MIN` and `PLANETS_MAX` planets, each generated
    /// by `Planet::new` from the empire's jobs and species; the planets it had are dropped.
    pub fn gen_planets(&mut self)
        requires
            SPECIES_MIN <= old(self).species.len() < usize::MAX,
            old(self).jobs.len() >= JOBS_MAX,
        ensures
            final(self).jobs@ == old(self).jobs@,
            final(self).species@ == old(self).species@,
            PLANETS_MIN <= final(self).planets@.len() <= PLANETS_MAX,
            forall|p: int| 0 <= p < final(self).planets@.len() ==>
                #[trigger] final(self).planets@[p].generated_from(old(self).jobs@, old(self).species@),
            forall|p: int| 0 <= p < final(self).planets@.len() ==>
                #[trigger] final(self).planets@[p].drawn_from_some(old(self).jobs@, old(self).species@),
            planets_pops(final(self).planets@) <= PLANETS_MAX * POP_MAX,
    {
        let mut rng = new_thread_rng();
        let number_of_planets = gen_range(&mut rng, PLANETS_MIN, PLANETS_MAX + 1);
        let mut planets: Vec<Planet> = Vec::new();
        let mut n: usize = 0;
        while n < number_of_planets
            invariant
                n <= number_of_planets,
                planets@.len() == n,
                SPECIES_MIN <= self.species.len() < usize::MAX,
                self.jobs.len() >= JOBS_MAX,
                forall|p: int| 0 <= p < n ==> #[trigger] planets@[p].generated_from(self.jobs@, self.species@),
                forall|p: int| 0 <= p < n ==> #[trigger] planets@[p].drawn_from_some(self.jobs@, self.species@),
            decreases number_of_planets - n,
        {
            let planet = Planet::new(&mut rng, &self.jobs, &self.species);
            planets.push(planet);
            n = n + 1;
        }
        proof {
            assert forall|q: int| 0 <= q < planets@.len() implies value_sum(#[trigger] planets@[q].population_totals@) <= POP_MAX by {
                assert(planets@[q].generated_from(self.jobs@, self.species@));
            }
            lemma_planets_pops_bound(planets@);
            assert(planets@.len() * POP_MAX <= PLANETS_MAX * POP_MAX) by (nonlinear_arith)
                requires planets@.len() <= PLANETS_MAX;
        }
        self.planets = planets;
    }

    /// Applies an empire's optimisation planet by planet, pairing the planets with the
    /// results in order; planets or results beyond the shorter of the two are left alone.
    /// Each result must name only jobs of its planet.
    pub fn intraplanetary_optimize(&mut self, optimised_empire: EmpireOptimizationReturn)
        requires
            forall|p: int| 0 <= p < old(self).planets@.len() && 0 <= p < optimised_empire.planets@.len() ==>
                (#[trigger] optimised_empire.planets@[p]).jobs@.dom().subset_of(old(self).planets@[p].jobs@.dom()),
        ensures
            final(self).jobs@ == old(self).jobs@,
            final(self).species@ == old(self).species@,
            final(self).planets@.len() == old(self).planets@.len(),
            forall|p: int| 0 <= p < old(self).planets@.len() ==>
                if p < optimised_empire.planets@.len() {
                    applied_planet(old(self).planets@[p], #[trigger] final(self).planets@[p], optimised_empire.planets@[p].assignments())
                } else {
                    final(self).planets@[p] == old(self).planets@[p]
                },
    {
        let n = if self.planets.len() < optimised_empire.planets.len() { self.planets.len() } else { optimised_empire.planets.len() };
        let mut p: usize = 0;
        while p < n
            invariant
                n <= self.planets@.len(),
                n <= optimised_empire.planets@.len(),
                n == if old(self).planets@.len() < optimised_empire.planets@.len() { old(self).planets@.len() } else { optimised_empire.planets@.len() },
                p <= n,
                self.jobs@ == old(self).jobs@,
                self.species@ == old(self).species@,
                self.planets@.len() == old(self).planets@.len(),
                forall|q: int| 0 <= q < old(self).planets@.len() && 0 <= q < optimised_empire.planets@.len() ==>
                    (#[trigger] optimised_empire.planets@[q]).jobs@.dom().subset_of(old(self).planets@[q].jobs@.dom()),
                forall|q: int| 0 <= q < old(self).planets@.len() ==>
                    if q < p {
                        applied_planet(old(self).planets@[q], #[trigger] self.planets@[q], optimised_empire.planets@[q].assignments())
                    } else {
                        self.planets@[q] == old(self).planets@[q]
                    },
            decreases n - p,
        {
            self.planets[p].apply_optimization(&optimised_empire.planets[p]);
            p = p + 1;
        }
    }

    /// The number of pops over all planets of the empire.
    pub fn pops(&self) -> (r: usize)
        requires
            planets_pops(self.planets@) <= usize::MAX,
        ensures
            r == planets_pops(self.planets@),
    {
        let mut total: usize = 0;
        let mut p: usize = 0;
        proof {
            assert forall|q: int| 0 <= q < self.planets@.len() implies value_sum(#[trigger] self.planets@[q].population_totals@) >= 0 by {
                let m = self.planets@[q].population_totals@;
                lemma_sum_over_nonneg(m.dom(), crate::sums::value_of(m));
            }
        }
        while p < self.planets.len()
            invariant
                p <= self.planets@.len(),
                planets_pops(self.planets@) <= usize::MAX,
                forall|q: int| 0 <= q < self.planets@.len() ==> value_sum(#[trigger] self.planets@[q].population_totals@) >= 0,
                total == planets_pops(self.planets@.take(p as int)),
            decreases self.planets@.len() - p,
        {
            proof {
                assert(self.planets@.take(p + 1).drop_last() =~= self.planets@.take(p as int));
                lemma_planets_pops_prefix(self.planets@, p as int + 1);
            }
            total = total + self.planets[p].pops();
            p = p + 1;
        }
        proof {
            assert(self.planets@.take(self.planets@.len() as int) =~= self.planets@);
        }
        total
    }
}

/// Planets of at most `POP_MAX` pops each have at most `POP_MAX` pops per planet.
proof fn lemma_planets_pops_bound(planets: Seq<Planet>)
    requires
        forall|q: int| 0 <= q < planets.len() ==> value_sum(#[trigger] planets[q].population_totals@) <= POP_MAX,
    ensures
        planets_pops(planets) <= planets.len() * POP_MAX,
    decreases planets.len(),
{
    if planets.len() > 0 {
        assert forall|q: int| 0 <= q < planets.drop_last().len() implies
            value_sum(#[trigger] planets.drop_last()[q].population_totals@) <= POP_MAX by {
            assert(planets.drop_last()[q] == planets[q]);
        }
        lemma_planets_pops_bound(planets.drop_last());
        assert(value_sum(planets[planets.len() - 1].population_totals@) <= POP_MAX);
        assert((planets.len() - 1) * POP_MAX + POP_MAX == planets.len() * POP_MAX) by (nonlinear_arith)
            requires planets.len() >= 1;
    }
}

/// The pops of a prefix of the planets are at most those of all of them.
proof fn lemma_planets_pops_prefix(planets: Seq<Planet>, n: int)
    requires
        0 <= n <= planets.len(),
        forall|q: int| 0 <= q < planets.len() ==> value_sum(#[trigger] planets[q].population_totals@) >= 0,
    ensures
        planets_pops(planets.take(n)) <= planets_pops(planets),
    decreases planets.len(),
{
    if n < planets.len() {
        assert(planets.drop_last().take(n) =~= planets.take(n));
        assert forall|q: int| 0 <= q < planets.drop_last().len() implies
            value_sum(#[trigger] planets.drop_last()[q].population_totals@) >= 0 by {
            assert(planets.drop_last()[q] == planets[q]);
        }
        lemma_planets_pops_prefix(planets.drop_last(), n);
        assert(value_sum(planets[planets.len() - 1].population_totals@) >= 0);
    } else {
        assert(planets.take(n) =~= planets);
    }
}

/// `JOBS_MAX` jobs, each the default job.
pub fn gen_jobs() -> (r: Vec<Job>)
    ensures
        r@.len() == JOBS_MAX,
        forall|i: int| 0 <= i < JOBS_MAX ==> #[trigger] r@[i] == Job::default_spec(),
{
    let mut jobs: Vec<Job> = Vec::new();
    let mut i: usize = 0;
    while i < JOBS_MAX
        invariant
            i <= JOBS_MAX,
            jobs@.len() == i,
            forall|k: int| 0 <= k < i ==> #[trigger] jobs@[k] == Job::default_spec(),
        decreases JOBS_MAX - i,
    {
        jobs.push(Job::default());
        i = i + 1;
    }
    jobs
}

/// `NUMBER_OF_EMPIRES` empires with the given jobs and species, each given planets by
/// `Empire::gen_planets`.
pub fn gen_empires(jobs: &Vec<Job>, species: &Vec<Species>) -> (r: Vec<Empire>)
    requires
        SPECIES_MIN <= species.len() < usize::MAX,
        jobs.len() >= JOBS_MAX,
    ensures
        r@.len() == NUMBER_OF_EMPIRES,
        forall|e: int| 0 <= e < NUMBER_OF_EMPIRES ==> {
            &&& (#[trigger] r@[e]).jobs@.len() == jobs@.len()
            &&& forall|i: int| 0 <= i < jobs@.len() ==> #[trigger] r@[e].jobs@[i] == (EmpireJob { job: jobs@[i] })
            &&& r@[e].species@.len() == species@.len()
            &&& forall|i: int| 0 <= i < species@.len() ==> #[trigger] r@[e].species@[i] == (EmpireSpecies { species: species@[i] })
            &&& PLANETS_MIN <= r@[e].planets@.len() <= PLANETS_MAX
            &&& forall|p: int| 0 <= p < r@[e].planets@.len() ==>
                #[trigger] r@[e].planets@[p].generated_from(r@[e].jobs@, r@[e].species@)
            &&& forall|p: int| 0 <= p < r@[e].planets@.len() ==>
                #[trigger] r@[e].planets@[p].drawn_from_some(r@[e].jobs@, r@[e].species@)
            &&& planets_pops(r@[e].planets@) <= PLANETS_MAX * POP_MAX
        },
{
    let mut empires: Vec<Empire> = Vec::new();
    let mut n: usize = 0;
    while n < NUMBER_OF_EMPIRES
        invariant
            n <= NUMBER_OF_EMPIRES,
            empires@.len() == n,
            SPECIES_MIN <= species.len() < usize::MAX,
            jobs.len() >= JOBS_MAX,
            forall|e: int| 0 <= e < n ==> {
                &&& (#[trigger] empires@[e]).jobs@.len() == jobs@.len()
                &&& forall|i: int| 0 <= i < jobs@.len() ==> #[trigger] empires@[e].jobs@[i] == (EmpireJob { job: jobs@[i] })
                &&& empires@[e].species@.len() == species@.len()
                &&& forall|i: int| 0 <= i < species@.len() ==> #[trigger] empires@[e].species@[i] == (EmpireSpecies { species: species@[i] })
                &&& PLANETS_MIN <= empires@[e].planets@.len() <= PLANETS_MAX
                &&& forall|p: int| 0 <= p < empires@[e].planets@.len() ==>
                    #[trigger] empires@[e].planets@[p].generated_from(empires@[e].jobs@, empires@[e].species@)
                &&& forall|p: int| 0 <= p < empires@[e].planets@.len() ==>
                    #[trigger] empires@[e].planets@[p].drawn_from_some(empires@[e].jobs@, empires@[e].species@)
                &&& planets_pops(empires@[e].planets@) <= PLANETS_MAX * POP_MAX
            },
        decreases NUMBER_OF_EMPIRES - n,
    {
        let mut empire = Empire::new(jobs, species);
        empire.gen_planets();
        empires.push(empire);
        n = n + 1;
    }
    empires
}

} // verus!
