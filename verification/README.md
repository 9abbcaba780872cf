# stellaris_performance_test

A rough simulation of pop production and job optimisation in a space-empire game,
written in Verus.

- `src/` is the verified library:
  - `empire.rs`: empires, planets, jobs and the pops of each species working them; the
    random generation of planets and jobs (the draws come from `rand`, and
    `from_draws` turns given draws into exactly one planet or job), applying an optimisation,
    and counting pops.
  - `empire_optimization.rs`: the greedy staffing of each planet's jobs along a priority
    order, with its laws (openings and pops are conserved, the run is maximal, and
    applying its result never overfills a job).
  - `empire_optimization_returns.rs`: what an optimisation hands back.
  - `schedule.rs`: which day starts and collects production and optimisation.
  - `elapsed.rs`: formatting an elapsed time, its seconds rounded as single precision
    rounds them.
  - `game_data.rs`: checking the game's data tables.
  - `sums.rs`: sums over finite sets and walks over hash maps.
- `app/` is the program around it: the floating-point production and priorities
  (computed with `arrayfire` data), the data tables, and the day loop on `tokio`.
