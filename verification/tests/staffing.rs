use std::collections::HashMap;
use stellaris_performance_test::empire_optimization::{EOrd, PlanetOptimization, EmpireOptimization};
use stellaris_performance_test::empire_optimization_returns::SpeciesPositionOptimization;
use stellaris_performance_test::empire::{Planet, JobPosition, EmpireJob, EmpireSpecies, Job, Species, SpeciesPosition, Empire};

fn pair(job_id: usize, species_id: usize) -> EOrd {
    EOrd { job_id, species_id }
}

fn planet_optimization(unemployed: &[(usize, usize)], jobs: &[(usize, usize)]) -> PlanetOptimization {
    PlanetOptimization {
        unemployed_pops: unemployed.iter().cloned().collect(),
        jobs: jobs.iter().cloned().collect(),
    }
}

#[test]
fn greedy_fills_jobs_in_priority_order() {
    let mut opt = planet_optimization(&[(1, 5), (2, 3)], &[(10, 4), (20, 6)]);
    let order = vec![pair(10, 1), pair(20, 1), pair(10, 2), pair(20, 2)];
    let r = opt.empire_intraplanetary_optimization(&order);
    assert_eq!(r.jobs.len(), 2);
    assert_eq!(r.jobs[&10].employees, vec![SpeciesPositionOptimization { count: 4, species_id: 1 }]);
    assert_eq!(
        r.jobs[&20].employees,
        vec![
            SpeciesPositionOptimization { count: 1, species_id: 1 },
            SpeciesPositionOptimization { count: 3, species_id: 2 },
        ]
    );
    assert!(opt.unemployed_pops.is_empty());
    assert_eq!(opt.jobs[&10], 0);
    assert_eq!(opt.jobs[&20], 2);
}

#[test]
fn greedy_skips_unknown_jobs_and_species() {
    let mut opt = planet_optimization(&[(1, 2)], &[(10, 3)]);
    let order = vec![pair(99, 1), pair(10, 7), pair(10, 1)];
    let r = opt.empire_intraplanetary_optimization(&order);
    assert_eq!(r.jobs.len(), 1);
    assert_eq!(r.jobs[&10].employees, vec![SpeciesPositionOptimization { count: 2, species_id: 1 }]);
    assert!(!opt.unemployed_pops.contains_key(&1));
    assert_eq!(opt.jobs[&10], 1);
}

#[test]
fn greedy_keeps_species_with_pops_left() {
    let mut opt = planet_optimization(&[(1, 9)], &[(10, 3)]);
    let r = opt.empire_intraplanetary_optimization(&vec![pair(10, 1), pair(10, 1)]);
    assert_eq!(r.jobs[&10].employees, vec![SpeciesPositionOptimization { count: 3, species_id: 1 }]);
    assert_eq!(opt.unemployed_pops[&1], 6);
    assert_eq!(opt.jobs[&10], 0);
}

#[test]
fn greedy_ignores_species_with_no_pops() {
    let mut opt = planet_optimization(&[(1, 0), (2, 1)], &[(10, 3)]);
    let r = opt.empire_intraplanetary_optimization(&vec![pair(10, 1), pair(10, 2)]);
    assert_eq!(r.jobs[&10].employees, vec![SpeciesPositionOptimization { count: 1, species_id: 2 }]);
    assert_eq!(opt.unemployed_pops[&1], 0);
    assert_eq!(opt.jobs[&10], 2);
}

#[test]
fn only_pairs_of_the_order_are_staffed() {
    let mut opt = planet_optimization(&[(1, 5), (2, 5), (3, 5)], &[(10, 4), (20, 4), (30, 4)]);
    let order = vec![pair(20, 3), pair(10, 1), pair(30, 3), pair(20, 2)];
    let r = opt.empire_intraplanetary_optimization(&order);
    for (j, job) in &r.jobs {
        for e in job.employees.iter() {
            assert!(order.contains(&pair(*j, e.species_id)));
        }
    }
    assert!(r.jobs[&30].employees.iter().all(|e| e.species_id == 3));
    assert_eq!(r.jobs[&30].employees, vec![SpeciesPositionOptimization { count: 1, species_id: 3 }]);
}

#[test]
fn empty_order_assigns_nothing() {
    let mut opt = planet_optimization(&[(1, 4)], &[(10, 3), (11, 0)]);
    let r = opt.empire_intraplanetary_optimization(&Vec::new());
    assert_eq!(r.jobs.len(), 2);
    assert!(r.jobs[&10].employees.is_empty());
    assert!(r.jobs[&11].employees.is_empty());
    assert_eq!(opt.unemployed_pops[&1], 4);
}

#[test]
fn conservation_on_a_busy_planet() {
    let mut opt = planet_optimization(&[(1, 7), (2, 5), (3, 4)], &[(10, 6), (20, 2), (30, 9)]);
    let mut order = Vec::new();
    for s in [3, 1, 2] {
        for j in [20, 10, 30] {
            order.push(pair(j, s));
        }
    }
    let r = opt.empire_intraplanetary_optimization(&order);
    for (s, start) in [(1, 7), (2, 5), (3, 4)] {
        let assigned: usize = r.jobs.values().flat_map(|j| j.employees.iter()).filter(|e| e.species_id == s).map(|e| e.count).sum();
        assert_eq!(assigned + opt.unemployed_pops.get(&s).cloned().unwrap_or(0), start);
    }
    for (j, start) in [(10, 6), (20, 2), (30, 9)] {
        let assigned: usize = r.jobs[&j].employees.iter().map(|e| e.count).sum();
        assert_eq!(assigned + opt.jobs[&j], start);
    }
    // every assignment moves pops, and names a species once per job
    for job in r.jobs.values() {
        let mut seen = std::collections::HashSet::new();
        for e in job.employees.iter() {
            assert!(e.count > 0);
            assert!(seen.insert(e.species_id));
        }
    }
    // maximal: no pair can still move a pop
    for p in &order {
        let pops = opt.unemployed_pops.get(&p.species_id).cloned().unwrap_or(0);
        let open = opt.jobs.get(&p.job_id).cloned().unwrap_or(0);
        assert!(pops == 0 || open == 0);
    }
}

fn job_position(job_id: usize, positions: usize, employees: &[(usize, usize)]) -> JobPosition {
    let mut map = HashMap::new();
    for (s, c) in employees {
        map.insert(*s, SpeciesPosition { count: *c, species: EmpireSpecies { species: Species { id: *s } } });
    }
    JobPosition { positions, job: EmpireJob { job: Job { id: job_id } }, employees: map }
}

#[test]
fn optimisation_round_trip_stays_within_positions() {
    let mut jobs = HashMap::new();
    jobs.insert(10, job_position(10, 4, &[(1, 2), (2, 1)]));
    jobs.insert(20, job_position(20, 3, &[(1, 1), (2, 1)]));
    let totals: HashMap<usize, usize> = [(1, 3), (2, 2)].iter().cloned().collect();
    let mut planet = Planet { population_totals: totals, jobs };
    let mut opt = PlanetOptimization::new(&planet);
    assert_eq!(opt.jobs[&10], 4);
    assert_eq!(opt.jobs[&20], 3);
    assert_eq!(opt.unemployed_pops[&1], 3);
    let r = opt.empire_intraplanetary_optimization(&vec![pair(20, 2), pair(10, 1), pair(20, 1), pair(10, 2)]);
    planet.intraplanetary_optimize(r);
    // job 20: species 2 gets 2, species 1 gets 0 left after job 10 took 3 -> not assigned
    assert_eq!(planet.jobs[&20].employees.len(), 1);
    assert_eq!(planet.jobs[&20].employees[&2].count, 2);
    // job 10: species 1 gets 3; species 2 has none left
    assert_eq!(planet.jobs[&10].employees.len(), 1);
    assert_eq!(planet.jobs[&10].employees[&1].count, 3);
    for job in planet.jobs.values() {
        let employed: usize = job.employees.values().map(|e| e.count).sum();
        assert!(employed <= job.positions);
    }
    assert_eq!(planet.pops(), 5);
}

#[test]
fn job_species_pairs_are_job_major() {
    let jobs = vec![Job::new(7), Job::new(8)];
    let species = vec![Species::new(1), Species::new(2), Species::new(3)];
    let empire = Empire::new(&jobs, &species);
    let opt = EmpireOptimization::new(&empire);
    let pairs = opt.job_species_pairs();
    assert_eq!(pairs, vec![pair(7, 1), pair(8, 1), pair(7, 2), pair(8, 2), pair(7, 3), pair(8, 3)]);
}

#[test]
fn empire_optimisation_runs_every_planet() {
    let jobs = vec![Job::new(10)];
    let species = vec![Species::new(1)];
    let mut empire = Empire::new(&jobs, &species);
    let mut j = HashMap::new();
    j.insert(10, job_position(10, 5, &[(1, 1)]));
    let totals: HashMap<usize, usize> = [(1, 4)].iter().cloned().collect();
    empire.planets.push(Planet { population_totals: totals, jobs: j });
    let mut opt = EmpireOptimization::new(&empire);
    let r = opt.intraplanetary_optimization(&vec![vec![pair(10, 1)]]);
    assert_eq!(r.planets.len(), 1);
    assert_eq!(r.planets[0].jobs[&10].employees, vec![SpeciesPositionOptimization { count: 4, species_id: 1 }]);
    empire.intraplanetary_optimize(r);
    assert_eq!(empire.planets[0].jobs[&10].employees[&1].count, 4);
    let job = &empire.planets[0].jobs[&10];
    assert!(job.employees.values().map(|e| e.count).sum::<usize>() <= job.positions);
    assert_eq!(empire.pops(), 4);
}
