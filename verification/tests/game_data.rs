use stellaris_performance_test::game_data::{
    create_jobs, create_techs, create_traits, is_known, GameDataError, JobSpec, TechSpec, TechTarget, TraitSpec,
    TraitTarget,
};

fn names(list: &[&str]) -> Vec<String> {
    list.iter().map(|s| s.to_string()).collect()
}

fn job(name: &str, tier: usize, produces: &[&str]) -> JobSpec {
    JobSpec { name: name.to_string(), tier, produces: names(produces) }
}

#[test]
fn jobs_are_sorted_by_tier() {
    let resources = names(&["energy", "minerals", "unity"]);
    let jobs = vec![job("miner", 2, &["minerals"]), job("priest", 1, &["unity"]), job("technician", 2, &["energy"]), job("noble", 0, &[])];
    let tiers = create_jobs(&resources, &jobs).unwrap();
    assert_eq!(tiers.len(), 3);
    assert_eq!(tiers[0], names(&["noble"]));
    assert_eq!(tiers[1], names(&["priest"]));
    assert_eq!(tiers[2], names(&["miner", "technician"]));
}

#[test]
fn unknown_resource_or_tier_is_reported() {
    let resources = names(&["energye", "minerals"]);
    let jobs = vec![job("miner", 2, &["minerals"]), job("technician", 2, &["minerals", "energy"]), job("undesirable", 3, &[])];
    assert_eq!(create_jobs(&resources, &jobs), Err(GameDataError::JobResource { job: 1, resource: 1 }));
    let jobs = vec![job("miner", 2, &["minerals"]), job("unemployed", 3, &["nothing"])];
    assert_eq!(create_jobs(&resources, &jobs), Err(GameDataError::JobTier { job: 1 }));
}

#[test]
fn traits_are_checked() {
    let resources = names(&["food"]);
    let jobs = names(&["farmer"]);
    let ok = vec![TraitSpec {
        name: "agrarian".to_string(),
        disallowed_tiers: vec![0, 1, 3],
        effects: vec![TraitTarget::Resource("food".to_string()), TraitTarget::Tier(1), TraitTarget::All, TraitTarget::Job("farmer".to_string())],
    }];
    assert_eq!(create_traits(&resources, &jobs, &ok), Ok(()));
    let bad = vec![
        TraitSpec { name: "a".to_string(), disallowed_tiers: vec![], effects: vec![] },
        TraitSpec { name: "b".to_string(), disallowed_tiers: vec![4], effects: vec![TraitTarget::Job("x".to_string())] },
    ];
    assert_eq!(create_traits(&resources, &jobs, &bad), Err(GameDataError::TraitDisallowedTier { entry: 1, index: 0 }));
    let bad = vec![TraitSpec { name: "c".to_string(), disallowed_tiers: vec![], effects: vec![TraitTarget::All, TraitTarget::Tier(7)] }];
    assert_eq!(create_traits(&resources, &jobs, &bad), Err(GameDataError::TraitTier { entry: 0, effect: 1 }));
    let bad = vec![TraitSpec { name: "d".to_string(), disallowed_tiers: vec![], effects: vec![TraitTarget::Job("miner".to_string())] }];
    assert_eq!(create_traits(&resources, &jobs, &bad), Err(GameDataError::TraitJob { entry: 0, effect: 0 }));
    let bad = vec![TraitSpec { name: "e".to_string(), disallowed_tiers: vec![], effects: vec![TraitTarget::Resource("gold".to_string())] }];
    assert_eq!(create_traits(&resources, &jobs, &bad), Err(GameDataError::TraitResource { entry: 0, effect: 0 }));
}

#[test]
fn techs_are_checked() {
    let resources = names(&["alloys"]);
    let jobs = names(&["metallurgist"]);
    let ok = vec![
        TechSpec { name: "synthetic thought patterns".to_string(), effects: None },
        TechSpec {
            name: "ceramo-metal alloys".to_string(),
            effects: Some(vec![TechTarget::Specific { resource: "alloys".to_string(), job: "metallurgist".to_string() }]),
        },
    ];
    assert_eq!(create_techs(&resources, &jobs, &ok), Ok(()));
    let bad = vec![TechSpec {
        name: "t".to_string(),
        effects: Some(vec![TechTarget::Resource("alloys".to_string()), TechTarget::Specific { resource: "alloys".to_string(), job: "metallurgists".to_string() }]),
    }];
    assert_eq!(create_techs(&resources, &jobs, &bad), Err(GameDataError::TechJob { entry: 0, effect: 1 }));
    let bad = vec![TechSpec { name: "u".to_string(), effects: Some(vec![TechTarget::Job("metallurgist".to_string()), TechTarget::Resource("x".to_string())]) }];
    assert_eq!(create_techs(&resources, &jobs, &bad), Err(GameDataError::TechResource { entry: 0, effect: 1 }));
}

#[test]
fn names_are_looked_up() {
    let list = names(&["a", "b"]);
    assert!(is_known(&list, &"b".to_string()));
    assert!(!is_known(&list, &"c".to_string()));
}
