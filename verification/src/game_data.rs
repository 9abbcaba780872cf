//! Checking the game's data tables: every job has a tier that exists and produces only
//! known resources; every trait and tech affects only resources, jobs and tiers that
//! exist. The amounts in the tables play no part in the checks and stay with the caller.

use vstd::prelude::*;
use crate::TIERS;

verus! {

/// A job of the table: its name, its tier, and the names of the resources it produces.
pub struct JobSpec {
    pub name: String,
    pub tier: usize,
    pub produces: Vec<String>,
}

/// What a trait affects.
pub enum TraitTarget {
    /// One resource.
    Resource(String),
    /// One job.
    Job(String),
    /// One tier of jobs.
    Tier(usize),
    /// All resources.
    All,
}

/// A trait of the table: its name, the tiers it forbids, and what it affects.
pub struct TraitSpec {
    pub name: String,
    pub disallowed_tiers: Vec<usize>,
    pub effects: Vec<TraitTarget>,
}

/// What one effect of a tech affects.
pub enum TechTarget {
    /// One resource.
    Resource(String),
    /// One job.
    Job(String),
    /// One resource of one job.
    Specific { resource: String, job: String },
}

/// A tech of the table: its name, and either its effects or `None` when it affects all.
pub struct TechSpec {
    pub name: String,
    pub effects: Option<Vec<TechTarget>>,
}

/// The first entry of a table that fails its check, and why.
#[derive(Clone, Copy, Debug, PartialEq, Eq)]
pub enum GameDataError {
    /// Job `job` has a tier that does not exist.
    JobTier { job: usize },
    /// Resource `resource` of job `job` does not exist.
    JobResource { job: usize, resource: usize },
    /// Disallowed tier `index` of trait `entry` does not exist.
    TraitDisallowedTier { entry: usize, index: usize },
    /// Effect `effect` of trait `entry` affects a resource that does not exist.
    TraitResource { entry: usize, effect: usize },
    /// Effect `effect` of trait `entry` affects a job that does not exist.
    TraitJob { entry: usize, effect: usize },
    /// Effect `effect` of trait `entry` affects a tier that does not exist.
    TraitTier { entry: usize, effect: usize },
    /// Effect `effect` of tech `entry` affects a resource that does not exist.
    TechResource { entry: usize, effect: usize },
    /// Effect `effect` of tech `entry` affects a job that does not exist.
    TechJob { entry: usize, effect: usize },
}

/// `name` is one of `names`.
pub open spec fn known(names: Seq<String>, name: Seq<char>) -> bool {
    exists|i: int| 0 <= i < names.len() && #[trigger] names[i]@ == name
}

/// Whether `name` is one of `names`.
pub fn is_known(names: &Vec<String>, name: &String) -> (r: bool)
    ensures
        r == known(names@, name@),
{
    let mut i: usize = 0;
    while i < names.len()
        invariant
            i <= names@.len(),
            forall|k: int| 0 <= k < i ==> #[trigger] names@[k]@ != name@,
        decreases names@.len() - i,
    {
        if names[i] == *name {
            return true;
        }
        i = i + 1;
    }
    false
}

/// The index of the first name of `list`, from `k` on, that is not one of `names`
/// (the length of `list` if there is none).
pub open spec fn first_unknown(names: Seq<String>, list: Seq<String>, k: int) -> int
    decreases list.len() - k,
{
    if k >= list.len() {
        list.len() as int
    } else if !known(names, list[k]@) {
        k
    } else {
        first_unknown(names, list, k + 1)
    }
}

/// Why job `index` fails its check, if it does: its tier first, then its resources.
/// A tier equal to `TIERS` fails too, since no list of jobs exists for it.
pub open spec fn job_error(resources: Seq<String>, job: JobSpec, index: usize) -> Option<GameDataError> {
    if job.tier >= TIERS {
        Some(GameDataError::JobTier { job: index })
    } else if first_unknown(resources, job.produces@, 0) < job.produces@.len() {
        Some(GameDataError::JobResource { job: index, resource: first_unknown(resources, job.produces@, 0) as usize })
    } else {
        None
    }
}

/// The first failure among the jobs from `k` on.
pub open spec fn jobs_error(resources: Seq<String>, jobs: Seq<JobSpec>, k: int) -> Option<GameDataError>
    decreases jobs.len() - k,
{
    if k >= jobs.len() || k < 0 {
        None
    } else if job_error(resources, jobs[k], k as usize) is Some {
        job_error(resources, jobs[k], k as usize)
    } else {
        jobs_error(resources, jobs, k + 1)
    }
}

/// The names of the jobs of tier `tier`, in order.
pub open spec fn tier_names(jobs: Seq<JobSpec>, tier: usize) -> Seq<Seq<char>>
    decreases jobs.len(),
{
    if jobs.len() == 0 {
        Seq::empty()
    } else if jobs.last().tier == tier {
        tier_names(jobs.drop_last(), tier).push(jobs.last().name@)
    } else {
        tier_names(jobs.drop_last(), tier)
    }
}

/// The index of the first name of `list` that is not one of `names`.
fn find_unknown(names: &Vec<String>, list: &Vec<String>) -> (r: usize)
    ensures
        r == first_unknown(names@, list@, 0),
{
    let mut i: usize = 0;
    while i < list.len()
        invariant
            i <= list@.len(),
            first_unknown(names@, list@, 0) == first_unknown(names@, list@, i as int),
        decreases list@.len() - i,
    {
        if !is_known(names, &list[i]) {
            return i;
        }
        i = i + 1;
    }
    i
}

/// Why job `index` fails its check, if it does.
fn check_job(resources: &Vec<String>, job: &JobSpec, index: usize) -> (r: Option<GameDataError>)
    ensures
        r == job_error(resources@, *job, index),
{
    if job.tier >= TIERS {
        return Some(GameDataError::JobTier { job: index });
    }
    let k = find_unknown(resources, &job.produces);
    if k < job.produces.len() {
        Some(GameDataError::JobResource { job: index, resource: k })
    } else {
        None
    }
}

/// Checks the jobs in order and sorts their names by tier: `Ok` with, for each tier,
/// the names of its jobs in order when every job passes (`job_ok`: its tier exists and
/// every resource it produces, the first included, is a resource); otherwise the
/// failure of the first job that does not (`job_table_failure`).
pub fn create_jobs(resources: &Vec<String>, jobs: &Vec<JobSpec>) -> (r: Result<Vec<Vec<String>>, GameDataError>)
    ensures
        match r {
            Ok(tiers) => {
                &&& jobs_error(resources@, jobs@, 0) is None
                &&& tiers@.len() == TIERS
                &&& forall|t: int| 0 <= t < TIERS ==>
                    (#[trigger] tiers@[t])@.map_values(|n: String| n@) == tier_names(jobs@, t as usize)
            },
            Err(e) => jobs_error(resources@, jobs@, 0) == Some(e),
        },
        r is Ok <==> forall|j: int| 0 <= j < jobs@.len() ==> #[trigger] job_ok(resources@, jobs@[j]),
        r matches Err(e) ==> job_table_failure(resources@, jobs@, e),
{
    let r = check_job_table(resources, jobs);
    proof {
        assert(jobs.len() == jobs@.len());
        law_job_table_check(resources@, jobs@);
    }
    r
}

/// The table's check, entry by entry in order.
fn check_job_table(resources: &Vec<String>, jobs: &Vec<JobSpec>) -> (r: Result<Vec<Vec<String>>, GameDataError>)
    ensures
        match r {
            Ok(tiers) => {
                &&& jobs_error(resources@, jobs@, 0) is None
                &&& tiers@.len() == TIERS
                &&& forall|t: int| 0 <= t < TIERS ==>
                    (#[trigger] tiers@[t])@.map_values(|n: String| n@) == tier_names(jobs@, t as usize)
            },
            Err(e) => jobs_error(resources@, jobs@, 0) == Some(e),
        },
{
    let mut tiers: Vec<Vec<String>> = Vec::new();
    let mut t: usize = 0;
    while t < TIERS
        invariant
            t <= TIERS,
            tiers@.len() == t,
            forall|u: int| 0 <= u < t ==> (#[trigger] tiers@[u])@.len() == 0,
        decreases TIERS - t,
    {
        tiers.push(Vec::new());
        t = t + 1;
    }
    let mut i: usize = 0;
    while i < jobs.len()
        invariant
            i <= jobs@.len(),
            jobs_error(resources@, jobs@, 0) == jobs_error(resources@, jobs@, i as int),
            tiers@.len() == TIERS,
            forall|u: int| 0 <= u < TIERS ==>
                (#[trigger] tiers@[u])@.map_values(|n: String| n@) == tier_names(jobs@.take(i as int), u as usize),
        decreases jobs@.len() - i,
    {
        let job = &jobs[i];
        match check_job(resources, job, i) {
            Some(e) => {
                return Err(e);
            },
            None => {},
        }
        let ghost before = tiers@;
        let name = job.name.clone();
        let tier = job.tier;
        tiers[tier].push(name);
        proof {
            assert(jobs@.take(i + 1).drop_last() =~= jobs@.take(i as int));
            assert(jobs@.take(i + 1).last() == jobs@[i as int]);
            assert forall|u: int| 0 <= u < TIERS implies
                (#[trigger] tiers@[u])@.map_values(|n: String| n@) == tier_names(jobs@.take(i + 1), u as usize) by {
                if u == tier {
                    assert(tiers@[u]@ == before[u]@.push(name));
                    assert(tiers@[u]@.map_values(|n: String| n@) =~= before[u]@.map_values(|n: String| n@).push(name@));
                } else {
                    assert(tiers@[u] == before[u]);
                }
            }
        }
        i = i + 1;
    }
    proof {
        assert(jobs@.take(jobs@.len() as int) =~= jobs@);
    }
    Ok(tiers)
}

/// The index of the first tier of `list`, from `k` on, above `TIERS` (the length of
/// `list` if there is none). A tier equal to `TIERS` is let through.
pub open spec fn first_bad_tier(list: Seq<usize>, k: int) -> int
    decreases list.len() - k,
{
    if k >= list.len() {
        list.len() as int
    } else if list[k] > TIERS {
        k
    } else {
        first_bad_tier(list, k + 1)
    }
}

/// Why effect `effect` of trait `entry` fails its check, if it does.
pub open spec fn trait_effect_error(resources: Seq<String>, jobs: Seq<String>, target: TraitTarget, entry: usize, effect: usize) -> Option<GameDataError> {
    match target {
        TraitTarget::Resource(name) => if known(resources, name@) { None } else { Some(GameDataError::TraitResource { entry, effect }) },
        TraitTarget::Job(name) => if known(jobs, name@) { None } else { Some(GameDataError::TraitJob { entry, effect }) },
        TraitTarget::Tier(tier) => if tier > TIERS { Some(GameDataError::TraitTier { entry, effect }) } else { None },
        TraitTarget::All => None,
    }
}

/// The first failing effect of trait `entry`, from effect `k` on.
pub open spec fn trait_effects_error(resources: Seq<String>, jobs: Seq<String>, effects: Seq<TraitTarget>, entry: usize, k: int) -> Option<GameDataError>
    decreases effects.len() - k,
{
    if k >= effects.len() || k < 0 {
        None
    } else if trait_effect_error(resources, jobs, effects[k], entry, k as usize) is Some {
        trait_effect_error(resources, jobs, effects[k], entry, k as usize)
    } else {
        trait_effects_error(resources, jobs, effects, entry, k + 1)
    }
}

/// Why trait `entry` fails its check, if it does: its disallowed tiers first, then its
/// effects in order.
pub open spec fn trait_error(resources: Seq<String>, jobs: Seq<String>, t: TraitSpec, entry: usize) -> Option<GameDataError> {
    if first_bad_tier(t.disallowed_tiers@, 0) < t.disallowed_tiers@.len() {
        Some(GameDataError::TraitDisallowedTier { entry, index: first_bad_tier(t.disallowed_tiers@, 0) as usize })
    } else {
        trait_effects_error(resources, jobs, t.effects@, entry, 0)
    }
}

/// The first failure among the traits from `k` on.
pub open spec fn traits_error(resources: Seq<String>, jobs: Seq<String>, traits: Seq<TraitSpec>, k: int) -> Option<GameDataError>
    decreases traits.len() - k,
{
    if k >= traits.len() || k < 0 {
        None
    } else if trait_error(resources, jobs, traits[k], k as usize) is Some {
        trait_error(resources, jobs, traits[k], k as usize)
    } else {
        traits_error(resources, jobs, traits, k + 1)
    }
}

/// Checks the traits in order against the resources and the job names: `Ok` when every
/// trait passes (`trait_ok`: its disallowed tiers exist and all its effects name what
/// exists, whatever tiers it disallows), otherwise the failure of the first that does
/// not (`trait_table_failure`).
pub fn create_traits(resources: &Vec<String>, jobs: &Vec<String>, traits: &Vec<TraitSpec>) -> (r: Result<(), GameDataError>)
    ensures
        r == match traits_error(resources@, jobs@, traits@, 0) {
            None => Ok(()),
            Some(e) => Err(e),
        },
        r is Ok <==> forall|i: int| 0 <= i < traits@.len() ==> #[trigger] trait_ok(resources@, jobs@, traits@[i]),
        r matches Err(e) ==> trait_table_failure(resources@, jobs@, traits@, e),
{
    let r = check_trait_table(resources, jobs, traits);
    proof {
        assert(traits.len() == traits@.len());
        law_trait_table_check(resources@, jobs@, traits@);
    }
    r
}

/// The table's check, entry by entry in order.
fn check_trait_table(resources: &Vec<String>, jobs: &Vec<String>, traits: &Vec<TraitSpec>) -> (r: Result<(), GameDataError>)
    ensures
        r == match traits_error(resources@, jobs@, traits@, 0) {
            None => Ok(()),
            Some(e) => Err(e),
        },
{
    let mut i: usize = 0;
    while i < traits.len()
        invariant
            i <= traits@.len(),
            traits_error(resources@, jobs@, traits@, 0) == traits_error(resources@, jobs@, traits@, i as int),
        decreases traits@.len() - i,
    {
        let t = &traits[i];
        let mut d: usize = 0;
        while d < t.disallowed_tiers.len()
            invariant
                i < traits@.len(),
                *t == traits@[i as int],
                traits_error(resources@, jobs@, traits@, 0) == traits_error(resources@, jobs@, traits@, i as int),
                d <= t.disallowed_tiers@.len(),
                first_bad_tier(t.disallowed_tiers@, 0) == first_bad_tier(t.disallowed_tiers@, d as int),
            decreases t.disallowed_tiers@.len() - d,
        {
            if t.disallowed_tiers[d] > TIERS {
                return Err(GameDataError::TraitDisallowedTier { entry: i, index: d });
            }
            d = d + 1;
        }
        let mut k: usize = 0;
        while k < t.effects.len()
            invariant
                i < traits@.len(),
                *t == traits@[i as int],
                traits_error(resources@, jobs@, traits@, 0) == traits_error(resources@, jobs@, traits@, i as int),
                first_bad_tier(t.disallowed_tiers@, 0) == t.disallowed_tiers@.len(),
                k <= t.effects@.len(),
                trait_effects_error(resources@, jobs@, t.effects@, i, 0) == trait_effects_error(resources@, jobs@, t.effects@, i, k as int),
            decreases t.effects@.len() - k,
        {
            let failure = match &t.effects[k] {
                TraitTarget::Resource(name) => if is_known(resources, name) { None } else { Some(GameDataError::TraitResource { entry: i, effect: k }) },
                TraitTarget::Job(name) => if is_known(jobs, name) { None } else { Some(GameDataError::TraitJob { entry: i, effect: k }) },
                TraitTarget::Tier(tier) => if *tier > TIERS { Some(GameDataError::TraitTier { entry: i, effect: k }) } else { None },
                TraitTarget::All => None,
            };
            assert(failure == trait_effect_error(resources@, jobs@, t.effects@[k as int], i, k));
            if let Some(e) = failure {
                return Err(e);
            }
            k = k + 1;
        }
        i = i + 1;
    }
    Ok(())
}

/// Why effect `effect` of tech `entry` fails its check, if it does.
pub open spec fn tech_effect_error(resources: Seq<String>, jobs: Seq<String>, target: TechTarget, entry: usize, effect: usize) -> Option<GameDataError> {
    match target {
        TechTarget::Resource(name) => if known(resources, name@) { None } else { Some(GameDataError::TechResource { entry, effect }) },
        TechTarget::Job(name) => if known(jobs, name@) { None } else { Some(GameDataError::TechJob { entry, effect }) },
        TechTarget::Specific { resource, job } => if !known(resources, resource@) {
            Some(GameDataError::TechResource { entry, effect })
        } else if !known(jobs, job@) {
            Some(GameDataError::TechJob { entry, effect })
        } else {
            None
        },
    }
}

/// The first failing effect of tech `entry`, from effect `k` on.
pub open spec fn tech_effects_error(resources: Seq<String>, jobs: Seq<String>, effects: Seq<TechTarget>, entry: usize, k: int) -> Option<GameDataError>
    decreases effects.len() - k,
{
    if k >= effects.len() || k < 0 {
        None
    } else if tech_effect_error(resources, jobs, effects[k], entry, k as usize) is Some {
        tech_effect_error(resources, jobs, effects[k], entry, k as usize)
    } else {
        tech_effects_error(resources, jobs, effects, entry, k + 1)
    }
}

/// The first failure among the techs from `k` on; a tech that affects all passes.
pub open spec fn techs_error(resources: Seq<String>, jobs: Seq<String>, techs: Seq<TechSpec>, k: int) -> Option<GameDataError>
    decreases techs.len() - k,
{
    if k >= techs.len() || k < 0 {
        None
    } else {
        let here = match techs[k].effects {
            Some(effects) => tech_effects_error(resources, jobs, effects@, k as usize, 0),
            None => None,
        };
        if here is Some { here } else { techs_error(resources, jobs, techs, k + 1) }
    }
}

/// Checks the techs in order against the resources and the job names: `Ok` when every
/// tech passes (`tech_ok`: it affects all, or each of its effects names what exists; a
/// tech that affects all excuses no other), otherwise the failure of the first that does
/// not (`tech_table_failure`).
pub fn create_techs(resources: &Vec<String>, jobs: &Vec<String>, techs: &Vec<TechSpec>) -> (r: Result<(), GameDataError>)
    ensures
        r == match techs_error(resources@, jobs@, techs@, 0) {
            None => Ok(()),
            Some(e) => Err(e),
        },
        r is Ok <==> forall|i: int| 0 <= i < techs@.len() ==> #[trigger] tech_ok(resources@, jobs@, techs@[i]),
        r matches Err(e) ==> tech_table_failure(resources@, jobs@, techs@, e),
{
    let r = check_tech_table(resources, jobs, techs);
    proof {
        assert(techs.len() == techs@.len());
        law_tech_table_check(resources@, jobs@, techs@);
    }
    r
}

/// The table's check, entry by entry in order.
fn check_tech_table(resources: &Vec<String>, jobs: &Vec<String>, techs: &Vec<TechSpec>) -> (r: Result<(), GameDataError>)
    ensures
        r == match techs_error(resources@, jobs@, techs@, 0) {
            None => Ok(()),
            Some(e) => Err(e),
        },
{
    let mut i: usize = 0;
    while i < techs.len()
        invariant
            i <= techs@.len(),
            techs_error(resources@, jobs@, techs@, 0) == techs_error(resources@, jobs@, techs@, i as int),
        decreases techs@.len() - i,
    {
        match &techs[i].effects {
            Some(effects) => {
                let mut k: usize = 0;
                while k < effects.len()
                    invariant
                        i < techs@.len(),
                        techs@[i as int].effects == Some(*effects),
                        techs_error(resources@, jobs@, techs@, 0) == techs_error(resources@, jobs@, techs@, i as int),
                        k <= effects@.len(),
                        tech_effects_error(resources@, jobs@, effects@, i, 0) == tech_effects_error(resources@, jobs@, effects@, i, k as int),
                    decreases effects@.len() - k,
                {
                    let failure = match &effects[k] {
                        TechTarget::Resource(name) => if is_known(resources, name) { None } else { Some(GameDataError::TechResource { entry: i, effect: k }) },
                        TechTarget::Job(name) => if is_known(jobs, name) { None } else { Some(GameDataError::TechJob { entry: i, effect: k }) },
                        TechTarget::Specific { resource, job } => if !is_known(resources, resource) {
                            Some(GameDataError::TechResource { entry: i, effect: k })
                        } else if !is_known(jobs, job) {
                            Some(GameDataError::TechJob { entry: i, effect: k })
                        } else {
                            None
                        },
                    };
                    assert(failure == tech_effect_error(resources@, jobs@, effects@[k as int], i, k));
                    if let Some(e) = failure {
                        return Err(e);
                    }
                    k = k + 1;
                }
            },
            None => {},
        }
        i = i + 1;
    }
    Ok(())
}

// What the checks say, stated entry by entry: an entry passes when everything it names
// exists, and a failure names the first entry that does not pass and, in it, the first
// part that names something missing.

/// The entry a failure names.
pub open spec fn error_entry(e: GameDataError) -> usize {
    match e {
        GameDataError::JobTier { job } => job,
        GameDataError::JobResource { job, .. } => job,
        GameDataError::TraitDisallowedTier { entry, .. } => entry,
        GameDataError::TraitResource { entry, .. } => entry,
        GameDataError::TraitJob { entry, .. } => entry,
        GameDataError::TraitTier { entry, .. } => entry,
        GameDataError::TechResource { entry, .. } => entry,
        GameDataError::TechJob { entry, .. } => entry,
    }
}

/// A job passes: its tier exists and it produces only resources of `resources`.
pub open spec fn job_ok(resources: Seq<String>, job: JobSpec) -> bool {
    &&& job.tier < TIERS
    &&& forall|k: int| 0 <= k < job.produces@.len() ==> known(resources, #[trigger] job.produces@[k]@)
}

/// `e` is why job `job`, at index `entry`, fails: its tier does not exist, or its tier
/// exists and its resource `resource` is the first one that is not a resource.
pub open spec fn job_entry_failure(resources: Seq<String>, job: JobSpec, entry: usize, e: GameDataError) -> bool {
    match e {
        GameDataError::JobTier { job: j } => j == entry && job.tier >= TIERS,
        GameDataError::JobResource { job: j, resource } => {
            &&& j == entry
            &&& job.tier < TIERS
            &&& resource < job.produces@.len()
            &&& !known(resources, job.produces@[resource as int]@)
            &&& forall|k: int| 0 <= k < resource ==> known(resources, #[trigger] job.produces@[k]@)
        },
        _ => false,
    }
}

/// `e` names the first job of `jobs` that fails, and why.
pub open spec fn job_table_failure(resources: Seq<String>, jobs: Seq<JobSpec>, e: GameDataError) -> bool {
    &&& error_entry(e) < jobs.len()
    &&& job_entry_failure(resources, jobs[error_entry(e) as int], error_entry(e), e)
    &&& forall|j: int| 0 <= j < error_entry(e) ==> #[trigger] job_ok(resources, jobs[j])
}

/// An effect of a trait passes: the resource, job or tier it affects exists.
pub open spec fn trait_effect_ok(resources: Seq<String>, jobs: Seq<String>, target: TraitTarget) -> bool {
    match target {
        TraitTarget::Resource(name) => known(resources, name@),
        TraitTarget::Job(name) => known(jobs, name@),
        TraitTarget::Tier(tier) => tier <= TIERS,
        TraitTarget::All => true,
    }
}

/// A trait passes: every tier it forbids and every effect it has exists, whatever
/// tiers it forbids.
pub open spec fn trait_ok(resources: Seq<String>, jobs: Seq<String>, t: TraitSpec) -> bool {
    &&& forall|d: int| 0 <= d < t.disallowed_tiers@.len() ==> #[trigger] t.disallowed_tiers@[d] <= TIERS
    &&& forall|f: int| 0 <= f < t.effects@.len() ==> trait_effect_ok(resources, jobs, #[trigger] t.effects@[f])
}

/// `e` is why trait `t`, at index `entry`, fails: the first disallowed tier that does not
/// exist, or, when they all exist, the first effect that affects something missing.
pub open spec fn trait_entry_failure(resources: Seq<String>, jobs: Seq<String>, t: TraitSpec, entry: usize, e: GameDataError) -> bool {
    let tiers_ok = forall|d: int| 0 <= d < t.disallowed_tiers@.len() ==> #[trigger] t.disallowed_tiers@[d] <= TIERS;
    let effects_ok_before = |effect: usize|
        forall|f: int| 0 <= f < effect ==> trait_effect_ok(resources, jobs, #[trigger] t.effects@[f]);
    match e {
        GameDataError::TraitDisallowedTier { entry: en, index } => {
            &&& en == entry
            &&& index < t.disallowed_tiers@.len()
            &&& t.disallowed_tiers@[index as int] > TIERS
            &&& forall|d: int| 0 <= d < index ==> #[trigger] t.disallowed_tiers@[d] <= TIERS
        },
        GameDataError::TraitResource { entry: en, effect } => {
            &&& en == entry && tiers_ok && effect < t.effects@.len() && effects_ok_before(effect)
            &&& t.effects@[effect as int] matches TraitTarget::Resource(name) && !known(resources, name@)
        },
        GameDataError::TraitJob { entry: en, effect } => {
            &&& en == entry && tiers_ok && effect < t.effects@.len() && effects_ok_before(effect)
            &&& t.effects@[effect as int] matches TraitTarget::Job(name) && !known(jobs, name@)
        },
        GameDataError::TraitTier { entry: en, effect } => {
            &&& en == entry && tiers_ok && effect < t.effects@.len() && effects_ok_before(effect)
            &&& t.effects@[effect as int] matches TraitTarget::Tier(tier) && tier > TIERS
        },
        _ => false,
    }
}

/// `e` names the first trait of `traits` that fails, and why.
pub open spec fn trait_table_failure(resources: Seq<String>, jobs: Seq<String>, traits: Seq<TraitSpec>, e: GameDataError) -> bool {
    &&& error_entry(e) < traits.len()
    &&& trait_entry_failure(resources, jobs, traits[error_entry(e) as int], error_entry(e), e)
    &&& forall|i: int| 0 <= i < error_entry(e) ==> #[trigger] trait_ok(resources, jobs, traits[i])
}

/// An effect of a tech passes: the resource and the job it names exist.
pub open spec fn tech_effect_ok(resources: Seq<String>, jobs: Seq<String>, target: TechTarget) -> bool {
    match target {
        TechTarget::Resource(name) => known(resources, name@),
        TechTarget::Job(name) => known(jobs, name@),
        TechTarget::Specific { resource, job } => known(resources, resource@) && known(jobs, job@),
    }
}

/// A tech passes: it affects all, or every one of its effects passes.
pub open spec fn tech_ok(resources: Seq<String>, jobs: Seq<String>, t: TechSpec) -> bool {
    match t.effects {
        None => true,
        Some(effects) => forall|f: int| 0 <= f < effects@.len() ==> tech_effect_ok(resources, jobs, #[trigger] effects@[f]),
    }
}

/// `e` is why tech `t`, at index `entry`, fails: its first effect that names a resource
/// or a job that does not exist (the resource of a specific effect first).
pub open spec fn tech_entry_failure(resources: Seq<String>, jobs: Seq<String>, t: TechSpec, entry: usize, e: GameDataError) -> bool {
    match t.effects {
        None => false,
        Some(effects) => match e {
            GameDataError::TechResource { entry: en, effect } => {
                &&& en == entry && effect < effects@.len()
                &&& forall|f: int| 0 <= f < effect ==> tech_effect_ok(resources, jobs, #[trigger] effects@[f])
                &&& match effects@[effect as int] {
                    TechTarget::Resource(name) => !known(resources, name@),
                    TechTarget::Specific { resource, .. } => !known(resources, resource@),
                    TechTarget::Job(_) => false,
                }
            },
            GameDataError::TechJob { entry: en, effect } => {
                &&& en == entry && effect < effects@.len()
                &&& forall|f: int| 0 <= f < effect ==> tech_effect_ok(resources, jobs, #[trigger] effects@[f])
                &&& match effects@[effect as int] {
                    TechTarget::Job(name) => !known(jobs, name@),
                    TechTarget::Specific { resource, job } => known(resources, resource@) && !known(jobs, job@),
                    TechTarget::Resource(_) => false,
                }
            },
            _ => false,
        },
    }
}

/// `e` names the first tech of `techs` that fails, and why.
pub open spec fn tech_table_failure(resources: Seq<String>, jobs: Seq<String>, techs: Seq<TechSpec>, e: GameDataError) -> bool {
    &&& error_entry(e) < techs.len()
    &&& tech_entry_failure(resources, jobs, techs[error_entry(e) as int], error_entry(e), e)
    &&& forall|i: int| 0 <= i < error_entry(e) ==> #[trigger] tech_ok(resources, jobs, techs[i])
}

/// The first unknown name from `k` on is the first one at or after `k` that is not in
/// `names`.
proof fn lemma_first_unknown(names: Seq<String>, list: Seq<String>, k: int)
    requires
        0 <= k <= list.len(),
    ensures
        k <= first_unknown(names, list, k) <= list.len(),
        forall|i: int| k <= i < first_unknown(names, list, k) ==> known(names, #[trigger] list[i]@),
        first_unknown(names, list, k) < list.len() ==> !known(names, list[first_unknown(names, list, k)]@),
    decreases list.len() - k,
{
    if k < list.len() && known(names, list[k]@) {
        lemma_first_unknown(names, list, k + 1);
    }
}

/// One job's check, stated directly.
proof fn lemma_job_error(resources: Seq<String>, job: JobSpec, index: usize)
    ensures
        job_error(resources, job, index) is None <==> job_ok(resources, job),
        job_error(resources, job, index) matches Some(e) ==>
            error_entry(e) == index && job_entry_failure(resources, job, index, e),
{
    assert(job.produces.len() == job.produces@.len());
    lemma_first_unknown(resources, job.produces@, 0);
}

/// The jobs' check from job `k` on, stated directly.
proof fn lemma_jobs_error(resources: Seq<String>, jobs: Seq<JobSpec>, k: int)
    requires
        0 <= k <= jobs.len() <= usize::MAX,
    ensures
        jobs_error(resources, jobs, k) is None <==>
            forall|j: int| k <= j < jobs.len() ==> #[trigger] job_ok(resources, jobs[j]),
        jobs_error(resources, jobs, k) matches Some(e) ==> {
            &&& k <= error_entry(e) < jobs.len()
            &&& job_entry_failure(resources, jobs[error_entry(e) as int], error_entry(e), e)
            &&& forall|j: int| k <= j < error_entry(e) ==> #[trigger] job_ok(resources, jobs[j])
        },
    decreases jobs.len() - k,
{
    if k < jobs.len() {
        lemma_job_error(resources, jobs[k], k as usize);
        lemma_jobs_error(resources, jobs, k + 1);
    }
}

/// The job table's check: it passes exactly when every job passes, and a failure names
/// the first job that fails and why.
pub proof fn law_job_table_check(resources: Seq<String>, jobs: Seq<JobSpec>)
    requires
        jobs.len() <= usize::MAX,
    ensures
        jobs_error(resources, jobs, 0) is None <==>
            forall|j: int| 0 <= j < jobs.len() ==> #[trigger] job_ok(resources, jobs[j]),
        jobs_error(resources, jobs, 0) matches Some(e) ==> job_table_failure(resources, jobs, e),
{
    lemma_jobs_error(resources, jobs, 0);
}

/// The first disallowed tier from `k` on that does not exist.
proof fn lemma_first_bad_tier(list: Seq<usize>, k: int)
    requires
        0 <= k <= list.len(),
    ensures
        k <= first_bad_tier(list, k) <= list.len(),
        forall|i: int| k <= i < first_bad_tier(list, k) ==> #[trigger] list[i] <= TIERS,
        first_bad_tier(list, k) < list.len() ==> list[first_bad_tier(list, k)] > TIERS,
    decreases list.len() - k,
{
    if k < list.len() && list[k] <= TIERS {
        lemma_first_bad_tier(list, k + 1);
    }
}

/// A trait's effects from effect `k` on, stated directly.
proof fn lemma_trait_effects_error(resources: Seq<String>, jobs: Seq<String>, t: TraitSpec, entry: usize, k: int)
    requires
        0 <= k <= t.effects@.len(),
        forall|d: int| 0 <= d < t.disallowed_tiers@.len() ==> #[trigger] t.disallowed_tiers@[d] <= TIERS,
        forall|f: int| 0 <= f < k ==> trait_effect_ok(resources, jobs, #[trigger] t.effects@[f]),
    ensures
        trait_effects_error(resources, jobs, t.effects@, entry, k) is None <==>
            forall|f: int| 0 <= f < t.effects@.len() ==> trait_effect_ok(resources, jobs, #[trigger] t.effects@[f]),
        trait_effects_error(resources, jobs, t.effects@, entry, k) matches Some(e) ==>
            error_entry(e) == entry && trait_entry_failure(resources, jobs, t, entry, e),
    decreases t.effects@.len() - k,
{
    assert(t.effects.len() == t.effects@.len());
    if k < t.effects@.len() {
        if trait_effect_error(resources, jobs, t.effects@[k], entry, k as usize) is None {
            assert(trait_effect_ok(resources, jobs, t.effects@[k]));
            lemma_trait_effects_error(resources, jobs, t, entry, k + 1);
        }
    }
}

/// One trait's check, stated directly.
proof fn lemma_trait_error(resources: Seq<String>, jobs: Seq<String>, t: TraitSpec, entry: usize)
    ensures
        trait_error(resources, jobs, t, entry) is None <==> trait_ok(resources, jobs, t),
        trait_error(resources, jobs, t, entry) matches Some(e) ==>
            error_entry(e) == entry && trait_entry_failure(resources, jobs, t, entry, e),
{
    assert(t.disallowed_tiers.len() == t.disallowed_tiers@.len());
    lemma_first_bad_tier(t.disallowed_tiers@, 0);
    if first_bad_tier(t.disallowed_tiers@, 0) == t.disallowed_tiers@.len() {
        lemma_trait_effects_error(resources, jobs, t, entry, 0);
    }
}

/// The traits' check from trait `k` on, stated directly.
proof fn lemma_traits_error(resources: Seq<String>, jobs: Seq<String>, traits: Seq<TraitSpec>, k: int)
    requires
        0 <= k <= traits.len() <= usize::MAX,
    ensures
        traits_error(resources, jobs, traits, k) is None <==>
            forall|i: int| k <= i < traits.len() ==> #[trigger] trait_ok(resources, jobs, traits[i]),
        traits_error(resources, jobs, traits, k) matches Some(e) ==> {
            &&& k <= error_entry(e) < traits.len()
            &&& trait_entry_failure(resources, jobs, traits[error_entry(e) as int], error_entry(e), e)
            &&& forall|i: int| k <= i < error_entry(e) ==> #[trigger] trait_ok(resources, jobs, traits[i])
        },
    decreases traits.len() - k,
{
    if k < traits.len() {
        lemma_trait_error(resources, jobs, traits[k], k as usize);
        lemma_traits_error(resources, jobs, traits, k + 1);
    }
}

/// The trait table's check: it passes exactly when every trait passes, every effect of
/// every trait checked whatever tiers it forbids, and a failure names the first trait
/// that fails and why.
pub proof fn law_trait_table_check(resources: Seq<String>, jobs: Seq<String>, traits: Seq<TraitSpec>)
    requires
        traits.len() <= usize::MAX,
    ensures
        traits_error(resources, jobs, traits, 0) is None <==>
            forall|i: int| 0 <= i < traits.len() ==> #[trigger] trait_ok(resources, jobs, traits[i]),
        traits_error(resources, jobs, traits, 0) matches Some(e) ==> trait_table_failure(resources, jobs, traits, e),
{
    lemma_traits_error(resources, jobs, traits, 0);
}

/// A tech's effects from effect `k` on, stated directly.
proof fn lemma_tech_effects_error(resources: Seq<String>, jobs: Seq<String>, t: TechSpec, effects: Seq<TechTarget>, entry: usize, k: int)
    requires
        t.effects matches Some(es) && es@ == effects,
        0 <= k <= effects.len(),
        forall|f: int| 0 <= f < k ==> tech_effect_ok(resources, jobs, #[trigger] effects[f]),
    ensures
        tech_effects_error(resources, jobs, effects, entry, k) is None <==>
            forall|f: int| 0 <= f < effects.len() ==> tech_effect_ok(resources, jobs, #[trigger] effects[f]),
        tech_effects_error(resources, jobs, effects, entry, k) matches Some(e) ==>
            error_entry(e) == entry && tech_entry_failure(resources, jobs, t, entry, e),
    decreases effects.len() - k,
{
    if let Some(es) = t.effects {
        assert(es.len() == es@.len());
    }
    if k < effects.len() {
        if tech_effect_error(resources, jobs, effects[k], entry, k as usize) is None {
            assert(tech_effect_ok(resources, jobs, effects[k]));
            lemma_tech_effects_error(resources, jobs, t, effects, entry, k + 1);
        }
    }
}

/// The techs' check from tech `k` on, stated directly.
proof fn lemma_techs_error(resources: Seq<String>, jobs: Seq<String>, techs: Seq<TechSpec>, k: int)
    requires
        0 <= k <= techs.len() <= usize::MAX,
    ensures
        techs_error(resources, jobs, techs, k) is None <==>
            forall|i: int| k <= i < techs.len() ==> #[trigger] tech_ok(resources, jobs, techs[i]),
        techs_error(resources, jobs, techs, k) matches Some(e) ==> {
            &&& k <= error_entry(e) < techs.len()
            &&& tech_entry_failure(resources, jobs, techs[error_entry(e) as int], error_entry(e), e)
            &&& forall|i: int| k <= i < error_entry(e) ==> #[trigger] tech_ok(resources, jobs, techs[i])
        },
    decreases techs.len() - k,
{
    if k < techs.len() {
        match techs[k].effects {
            Some(es) => {
                lemma_tech_effects_error(resources, jobs, techs[k], es@, k as usize, 0);
                assert(tech_ok(resources, jobs, techs[k]) <==>
                    forall|f: int| 0 <= f < es@.len() ==> tech_effect_ok(resources, jobs, #[trigger] es@[f]));
            },
            None => {
                assert(tech_ok(resources, jobs, techs[k]));
            },
        }
        lemma_techs_error(resources, jobs, techs, k + 1);
    }
}

/// The tech table's check: it passes exactly when every tech passes, every effect of
/// every tech checked (a tech that affects all excuses none after it), and a failure
/// names the first tech that fails and why.
pub proof fn law_tech_table_check(resources: Seq<String>, jobs: Seq<String>, techs: Seq<TechSpec>)
    requires
        techs.len() <= usize::MAX,
    ensures
        techs_error(resources, jobs, techs, 0) is None <==>
            forall|i: int| 0 <= i < techs.len() ==> #[trigger] tech_ok(resources, jobs, techs[i]),
        techs_error(resources, jobs, techs, 0) matches Some(e) ==> tech_table_failure(resources, jobs, techs, e),
{
    lemma_techs_error(resources, jobs, techs, 0);
}

} // verus!
