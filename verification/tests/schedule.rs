use stellaris_performance_test::schedule::{plan_day, DayStart, Pending};

const NOTHING: Pending = Pending { production: None, optimisation: None };

#[test]
fn production_starts_on_day_zero_and_is_collected_after_grace() {
    let plan = plan_day(0, NOTHING, 10, 30);
    assert_eq!(plan.start, DayStart::Production);
    assert!(!plan.collect_production);
    assert_eq!(plan.pending.production, Some(10));
    let mut pending = plan.pending;
    for day in 1..10 {
        let p = plan_day(day, pending, 10, 30);
        assert_eq!(p.start, DayStart::Rest);
        assert!(!p.collect_production);
        pending = p.pending;
    }
    let p = plan_day(10, pending, 10, 30);
    assert!(p.collect_production);
    assert_eq!(p.pending.production, None);
}

#[test]
fn optimisation_starts_on_its_days_unless_production_does() {
    let p = plan_day(95, NOTHING, 10, 30);
    assert_eq!(p.start, DayStart::Optimisation);
    assert_eq!(p.pending.optimisation, Some(125));
    let q = plan_day(570, NOTHING, 10, 30);
    assert_eq!(q.start, DayStart::Production);
    assert_eq!(q.pending.optimisation, None);
    let r = plan_day(125, p.pending, 10, 30);
    assert!(r.collect_optimisation);
    assert_eq!(r.pending.optimisation, None);
}

#[test]
fn zero_grace_is_collected_the_same_day() {
    let p = plan_day(30, NOTHING, 0, 0);
    assert_eq!(p.start, DayStart::Production);
    assert!(p.collect_production);
    assert_eq!(p.pending, NOTHING);
}

#[test]
fn a_new_start_replaces_one_under_way() {
    let pending = Pending { production: Some(100), optimisation: None };
    let p = plan_day(60, pending, 10, 30);
    assert_eq!(p.pending.production, Some(70));
}

#[test]
fn full_simulation_schedule() {
    let mut pending = NOTHING;
    let mut productions = Vec::new();
    let mut optimisations = Vec::new();
    for day in 0..1000 {
        let p = plan_day(day, pending, 10, 30);
        if p.collect_production { productions.push(day); }
        if p.collect_optimisation { optimisations.push(day); }
        pending = p.pending;
    }
    assert_eq!(productions[0], 10);
    assert_eq!(productions.len(), 33);
    assert_eq!(optimisations, vec![125, 220, 315, 410, 505, 695, 790, 885, 980]);
}
