use std::collections::HashMap;
use stellaris_performance_test::empire::{
    gen_empires, gen_jobs, EmpireJob, EmpireSpecies, Job, JobPosition, Planet, PlanetDraws, Species,
    SpeciesPosition,
};
use stellaris_performance_test::empire_optimization_returns::{JobPositionOptimizationReturn, SpeciesPositionOptimization};
use stellaris_performance_test::{JOBS_MAX, POP_MAX, POP_MIN, PLANETS_MIN, PLANETS_MAX, NUMBER_OF_EMPIRES};

fn empire_jobs() -> Vec<EmpireJob> {
    (0..JOBS_MAX).map(|i| EmpireJob::new(Job::new(100 + i))).collect()
}

fn empire_species(n: usize) -> Vec<EmpireSpecies> {
    (0..n).map(|i| EmpireSpecies::new(Species::new(i))).collect()
}

fn check_planet(planet: &Planet, species: &[EmpireSpecies]) {
    assert!(!planet.jobs.is_empty() && planet.jobs.len() <= JOBS_MAX);
    let positions: usize = planet.jobs.values().map(|j| j.positions).sum();
    assert!(positions < POP_MAX);
    let mut totals: HashMap<usize, usize> = HashMap::new();
    for (id, job) in &planet.jobs {
        assert_eq!(job.job.job.id, *id);
        let employed: usize = job.employees.values().map(|e| e.count).sum();
        assert!(employed <= job.positions);
        if job.positions > 0 {
            assert!(employed < job.positions);
            assert!(!job.employees.is_empty());
        } else {
            assert!(job.employees.is_empty());
        }
        for (s, e) in &job.employees {
            assert_eq!(e.species.species.id, *s);
            assert!(species.contains(&e.species));
            *totals.entry(*s).or_insert(0) += e.count;
        }
    }
    // every species counts its employees, and exactly one species of the planet also
    // holds the pops without a job
    let mut extra = Vec::new();
    for (s, n) in &planet.population_totals {
        let employed = totals.get(s).cloned().unwrap_or(0);
        assert!(*n >= employed);
        if *n > employed {
            extra.push(*s);
        }
    }
    for s in totals.keys() {
        assert!(planet.population_totals.contains_key(s));
    }
    assert_eq!(extra.len(), 1);
    assert!(species.iter().any(|e| e.species.id == extra[0]));
    let pops = planet.pops();
    assert!(pops >= POP_MIN && pops <= POP_MAX);
    assert!(positions < pops);
}

#[test]
fn generated_planets_are_consistent() {
    let jobs = empire_jobs();
    let species = empire_species(5);
    let mut rng = rand::thread_rng();
    for _ in 0..50 {
        let planet = Planet::new(&mut rng, &jobs, &species);
        check_planet(&planet, &species);
    }
}

#[test]
fn generated_planet_with_one_species() {
    let jobs = empire_jobs();
    let species = empire_species(1);
    let mut rng = rand::thread_rng();
    let planet = Planet::new(&mut rng, &jobs, &species);
    check_planet(&planet, &species);
    for job in planet.jobs.values() {
        assert!(job.employees.len() <= 1);
    }
}

#[test]
fn generated_job_employs_every_species_when_it_has_positions() {
    let species = empire_species(4);
    let mut rng = rand::thread_rng();
    let job = JobPosition::new(&mut rng, &EmpireJob::new(Job::new(3)), &species, 50);
    assert_eq!(job.positions, 50);
    assert_eq!(job.employees.len(), 4);
    let employed: usize = job.employees.values().map(|e| e.count).sum();
    assert!(employed < 50);
    let none = JobPosition::new(&mut rng, &EmpireJob::new(Job::new(3)), &species, 0);
    assert!(none.employees.is_empty());
}

#[test]
fn species_counts_lists_every_employee_once() {
    let mut employees = HashMap::new();
    for (s, c) in [(4usize, 2usize), (9, 0), (1, 5)] {
        employees.insert(s, SpeciesPosition { count: c, species: EmpireSpecies::new(Species::new(s)) });
    }
    let job = JobPosition { positions: 10, job: EmpireJob::new(Job::new(1)), employees };
    let mut counts = job.species_counts();
    counts.sort();
    assert_eq!(counts, vec![(1, 5), (4, 2), (9, 0)]);
}

#[test]
fn job_optimisation_keeps_only_assigned_species() {
    let mut employees = HashMap::new();
    for (s, c) in [(1usize, 2usize), (2, 3), (3, 1)] {
        employees.insert(s, SpeciesPosition { count: c, species: EmpireSpecies::new(Species::new(s)) });
    }
    let mut job = JobPosition { positions: 10, job: EmpireJob::new(Job::new(1)), employees };
    job.intraplanetary_optimize(JobPositionOptimizationReturn {
        employees: vec![
            SpeciesPositionOptimization { count: 7, species_id: 2 },
            SpeciesPositionOptimization { count: 4, species_id: 5 },
            SpeciesPositionOptimization { count: 9, species_id: 2 },
            SpeciesPositionOptimization { count: 0, species_id: 3 },
        ],
    });
    assert_eq!(job.employees.len(), 2);
    assert_eq!(job.employees[&2].count, 7);
    assert_eq!(job.employees[&3].count, 0);
    assert!(!job.employees.contains_key(&1));
    assert!(!job.employees.contains_key(&5));
    assert_eq!(job.positions, 10);
}

#[test]
fn empires_get_planets() {
    let jobs = gen_jobs();
    assert_eq!(jobs.len(), JOBS_MAX);
    assert!(jobs.iter().all(|j| j.id == 0));
    let species: Vec<Species> = (0..3).map(Species::new).collect();
    let empires = gen_empires(&jobs, &species);
    assert_eq!(empires.len(), NUMBER_OF_EMPIRES);
    for empire in &empires {
        assert!(empire.planets.len() >= PLANETS_MIN && empire.planets.len() <= PLANETS_MAX);
        assert_eq!(empire.jobs.len(), JOBS_MAX);
        assert_eq!(empire.species.len(), 3);
        let mut pops = 0;
        for planet in &empire.planets {
            check_planet(planet, &empire.species);
            pops += planet.pops();
        }
        assert_eq!(empire.pops(), pops);
    }
}

#[test]
fn default_job_has_id_zero() {
    assert_eq!(Job::default(), Job::new(0));
}

#[test]
fn generated_planets_vary() {
    let jobs = empire_jobs();
    let species = empire_species(6);
    let mut rng = rand::thread_rng();
    let mut job_counts = std::collections::HashSet::new();
    let mut pop_counts = std::collections::HashSet::new();
    for _ in 0..60 {
        let planet = Planet::new(&mut rng, &jobs, &species);
        job_counts.insert(planet.jobs.len());
        pop_counts.insert(planet.pops());
    }
    assert!(job_counts.len() > 1);
    assert!(pop_counts.len() > 1);
}

#[test]
fn job_from_draws_hires_the_picked_species() {
    let species = vec![
        EmpireSpecies::new(Species::new(10)),
        EmpireSpecies::new(Species::new(11)),
        EmpireSpecies::new(Species::new(12)),
    ];
    let job = JobPosition::from_draws(&EmpireJob::new(Job::new(7)), &species, 10, &vec![1, 0, 0], &vec![4, 3, 1]);
    assert_eq!(job.positions, 10);
    assert_eq!(job.job, EmpireJob::new(Job::new(7)));
    assert_eq!(job.employees.len(), 3);
    assert_eq!(job.employees[&11], SpeciesPosition { count: 4, species: species[1] });
    assert_eq!(job.employees[&10], SpeciesPosition { count: 3, species: species[0] });
    assert_eq!(job.employees[&12], SpeciesPosition { count: 1, species: species[2] });
    let empty = JobPosition::from_draws(&EmpireJob::new(Job::new(7)), &species, 0, &vec![], &vec![]);
    assert!(empty.employees.is_empty());
}

#[test]
fn planet_from_draws_is_the_drawn_planet() {
    let jobs = empire_jobs();
    let species = empire_species(5);
    let draws = PlanetDraws {
        pops: 30,
        max_jobs: 2,
        species_picks: vec![3, 0],
        positions: vec![12, 10],
        job_picks: vec![5, 38],
        hire_picks: vec![vec![1, 0], vec![0, 0]],
        hire_counts: vec![vec![5, 4], vec![9, 0]],
        unemployed_pick: 1,
    };
    let planet = Planet::from_draws(&jobs, &species, &draws);
    assert_eq!(planet.jobs.len(), 2);
    let first = &planet.jobs[&105];
    assert_eq!(first.positions, 12);
    assert_eq!(first.employees.len(), 2);
    assert_eq!(first.employees[&0].count, 5);
    assert_eq!(first.employees[&3].count, 4);
    let second = &planet.jobs[&139];
    assert_eq!(second.positions, 10);
    assert_eq!(second.employees[&3].count, 9);
    assert_eq!(second.employees[&0].count, 0);
    assert_eq!(planet.population_totals.len(), 2);
    assert_eq!(planet.population_totals[&0], 17);
    assert_eq!(planet.population_totals[&3], 13);
    assert_eq!(planet.pops(), 30);
    check_planet(&planet, &species);
}
