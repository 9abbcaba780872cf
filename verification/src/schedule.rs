//! The day-by-day schedule of a simulation run: on which days the production of the
//! empires is started, on which days their pops are optimised, and on which days a
//! calculation that was started is collected.

use vstd::prelude::*;
use crate::{PRODUCTION_FREQUENCY, OPTIMISATION_FREQUENCY};

verus! {

/// The calculations under way, by the day on which each is to be collected.
#[derive(Clone, Copy, Debug, PartialEq, Eq)]
pub struct Pending {
    pub production: Option<usize>,
    pub optimisation: Option<usize>,
}

/// What a day starts.
#[derive(Clone, Copy, Debug, PartialEq, Eq)]
pub enum DayStart {
    /// Start calculating the production of every empire.
    Production,
    /// Start optimising the pops of every empire.
    Optimisation,
    /// Start nothing; wait out the day.
    Rest,
}

/// What to do on one day.
#[derive(Clone, Copy, Debug, PartialEq, Eq)]
pub struct DayPlan {
    pub start: DayStart,
    /// Collect the production calculation (and add it to the empires' resources).
    pub collect_production: bool,
    /// Collect the optimisation (and apply it to the empires).
    pub collect_optimisation: bool,
    /// What is under way after the day.
    pub pending: Pending,
}

/// Production starts every `PRODUCTION_FREQUENCY` days (day 0 included); on other days,
/// optimisation starts every `OPTIMISATION_FREQUENCY` days.
pub open spec fn day_start(day: nat) -> DayStart {
    if day % (PRODUCTION_FREQUENCY as nat) == 0 {
        DayStart::Production
    } else if day % (OPTIMISATION_FREQUENCY as nat) == 0 {
        DayStart::Optimisation
    } else {
        DayStart::Rest
    }
}

/// The plan of day `day`: what it starts (a started calculation is due `grace` days
/// later, replacing one of the same kind still under way), and which calculations are
/// due that day and so collected.
pub open spec fn day_plan(day: nat, pending: Pending, production_grace: nat, optimisation_grace: nat) -> DayPlan {
    let start = day_start(day);
    let production = if start == DayStart::Production { Some((day + production_grace) as usize) } else { pending.production };
    let optimisation = if start == DayStart::Optimisation { Some((day + optimisation_grace) as usize) } else { pending.optimisation };
    let collect_production = production == Some(day as usize);
    let collect_optimisation = optimisation == Some(day as usize);
    DayPlan {
        start,
        collect_production,
        collect_optimisation,
        pending: Pending {
            production: if collect_production { None } else { production },
            optimisation: if collect_optimisation { None } else { optimisation },
        },
    }
}

/// Plans day `day` of a run, given what is under way.
pub fn plan_day(day: usize, pending: Pending, production_grace: usize, optimisation_grace: usize) -> (r: DayPlan)
    requires
        day + production_grace <= usize::MAX,
        day + optimisation_grace <= usize::MAX,
    ensures
        r == day_plan(day as nat, pending, production_grace as nat, optimisation_grace as nat),
{
    let start = if day % PRODUCTION_FREQUENCY == 0 {
        DayStart::Production
    } else if day % OPTIMISATION_FREQUENCY == 0 {
        DayStart::Optimisation
    } else {
        DayStart::Rest
    };
    let production = match start {
        DayStart::Production => Some(day + production_grace),
        _ => pending.production,
    };
    let optimisation = match start {
        DayStart::Optimisation => Some(day + optimisation_grace),
        _ => pending.optimisation,
    };
    let collect_production = match production {
        Some(d) => d == day,
        None => false,
    };
    let collect_optimisation = match optimisation {
        Some(d) => d == day,
        None => false,
    };
    DayPlan {
        start,
        collect_production,
        collect_optimisation,
        pending: Pending {
            production: if collect_production { None } else { production },
            optimisation: if collect_optimisation { None } else { optimisation },
        },
    }
}

/// What is under way after days `0 .. days` of a run that began with nothing under way.
pub open spec fn pending_after(days: nat, production_grace: nat, optimisation_grace: nat) -> Pending
    decreases days,
{
    if days == 0 {
        Pending { production: None, optimisation: None }
    } else {
        day_plan((days - 1) as nat, pending_after((days - 1) as nat, production_grace, optimisation_grace), production_grace, optimisation_grace).pending
    }
}

/// A production calculation started on a day is collected exactly `production_grace`
/// days later, provided that this is before the next one starts.
pub proof fn law_production_collected_after_grace(start_day: nat, production_grace: nat, optimisation_grace: nat)
    requires
        start_day % (PRODUCTION_FREQUENCY as nat) == 0,
        production_grace < PRODUCTION_FREQUENCY,
        start_day + production_grace <= usize::MAX,
    ensures
        day_plan(
            start_day + production_grace,
            pending_after(start_day + production_grace, production_grace, optimisation_grace),
            production_grace,
            optimisation_grace,
        ).collect_production,
{
    if production_grace == 0 {
        assert(day_start(start_day) == DayStart::Production);
    } else {
        lemma_production_pending_at(start_day, production_grace, optimisation_grace, production_grace);
        assert((start_day + production_grace) % (PRODUCTION_FREQUENCY as nat) != 0) by (nonlinear_arith)
            requires
                start_day % 30 == 0,
                0 < production_grace < 30;
    }
}

/// After `k` days (0 < k <= grace) the production started on `start_day` is under way.
proof fn lemma_production_pending_at(start_day: nat, production_grace: nat, optimisation_grace: nat, k: nat)
    requires
        start_day % (PRODUCTION_FREQUENCY as nat) == 0,
        production_grace < PRODUCTION_FREQUENCY,
        start_day + production_grace <= usize::MAX,
        0 < k <= production_grace,
    ensures
        pending_after(start_day + k, production_grace, optimisation_grace).production
            == Some((start_day + production_grace) as usize),
    decreases k,
{
    if k == 1 {
        assert(day_start(start_day) == DayStart::Production);
    } else {
        lemma_production_pending_at(start_day, production_grace, optimisation_grace, (k - 1) as nat);
        let d = (start_day + k - 1) as nat;
        assert(d % (PRODUCTION_FREQUENCY as nat) != 0) by (nonlinear_arith)
            requires
                start_day % 30 == 0,
                d == start_day + k - 1,
                0 < k - 1 < 30;
        assert(d != start_day + production_grace);
    }
}

/// An optimisation started on a day is collected exactly `optimisation_grace` days
/// later, provided that this is before the next one can start.
pub proof fn law_optimisation_collected_after_grace(start_day: nat, production_grace: nat, optimisation_grace: nat)
    requires
        day_start(start_day) == DayStart::Optimisation,
        optimisation_grace < OPTIMISATION_FREQUENCY,
        start_day + optimisation_grace <= usize::MAX,
    ensures
        day_plan(
            start_day + optimisation_grace,
            pending_after(start_day + optimisation_grace, production_grace, optimisation_grace),
            production_grace,
            optimisation_grace,
        ).collect_optimisation,
{
    if optimisation_grace > 0 {
        lemma_optimisation_pending_at(start_day, production_grace, optimisation_grace, optimisation_grace);
        assert((start_day + optimisation_grace) % (OPTIMISATION_FREQUENCY as nat) != 0) by (nonlinear_arith)
            requires
                start_day % 95 == 0,
                0 < optimisation_grace < 95;
    }
}

/// After `k` days (0 < k <= grace) the optimisation started on `start_day` is under way.
proof fn lemma_optimisation_pending_at(start_day: nat, production_grace: nat, optimisation_grace: nat, k: nat)
    requires
        day_start(start_day) == DayStart::Optimisation,
        optimisation_grace < OPTIMISATION_FREQUENCY,
        start_day + optimisation_grace <= usize::MAX,
        0 < k <= optimisation_grace,
    ensures
        pending_after(start_day + k, production_grace, optimisation_grace).optimisation
            == Some((start_day + optimisation_grace) as usize),
    decreases k,
{
    if k > 1 {
        lemma_optimisation_pending_at(start_day, production_grace, optimisation_grace, (k - 1) as nat);
        let d = (start_day + k - 1) as nat;
        assert(start_day % (OPTIMISATION_FREQUENCY as nat) == 0);
        assert(d % (OPTIMISATION_FREQUENCY as nat) != 0) by (nonlinear_arith)
            requires
                start_day % 95 == 0,
                d == start_day + k - 1,
                0 < k - 1 < 95;
        assert(d != start_day + optimisation_grace);
    }
}

} // verus!
