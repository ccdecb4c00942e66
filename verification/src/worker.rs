//! The general-purpose worker: it harvests or picks up energy, then brings it
//! where the room needs it most (a controller close to downgrading, a structure
//! to fill, a construction site, else the controller), repairing worn roads on the
//! way. Each round is decided here from what the creep sees; carrying the decision
//! out (moving, harvesting, transferring) is the caller's part.
use vstd::prelude::*;
use crate::plan_diff::GameStructure;
use crate::position::{packed_valid, positions_near, range_between, spec_near, spec_range};

verus! {

/// Where a creep brings its energy, by the game object's id.
#[derive(PartialEq, Eq, Structural, Clone, Copy, Debug)]
pub enum DistributionTarget {
    Controller(u64),
    Spawn(u64),
    Extension(u64),
    Tower(u64),
    Storage(u64),
    Terminal(u64),
    ConstructionSite(u64),
}

/// The range from which a target is served: 3 for upgrading and building, 1 for
/// filling.
pub open spec fn spec_target_range(t: DistributionTarget) -> u32 {
    match t {
        DistributionTarget::Controller(_) | DistributionTarget::ConstructionSite(_) => 3,
        _ => 1,
    }
}

impl DistributionTarget {
    /// The range from which the target is served.
    pub fn range(&self) -> (r: u32)
        ensures
            r == spec_target_range(*self),
    {
        match self {
            DistributionTarget::Controller(_) | DistributionTarget::ConstructionSite(_) => 3,
            _ => 1,
        }
    }
}

/// Which creep's rules pick the target: the worker's or the harvester's.
#[derive(PartialEq, Eq, Structural, Clone, Copy, Debug)]
pub enum TargetRules {
    Worker,
    Harvester,
}

/// A structure of ours with an energy store, as a candidate to fill.
#[derive(PartialEq, Eq, Structural, Clone, Copy, Debug)]
pub struct FillSight {
    pub kind: GameStructure,
    pub id: u64,
    pub pos: u32,
    pub free_energy: u32,
    pub used_energy: u32,
}

/// A construction site in the room, with its id where it has one.
#[derive(PartialEq, Eq, Structural, Clone, Copy, Debug)]
pub struct SiteSight {
    pub kind: GameStructure,
    pub id: Option<u64>,
    pub pos: u32,
}

/// What the choice of a target reads of the creep's room, in the order the game
/// lists its objects: the controller (with its ticks to downgrade, where the game
/// gives them), our structures with a store, and the construction sites.
pub struct TargetSight {
    pub controller: Option<u64>,
    pub ticks_to_downgrade: Option<u32>,
    pub fills: Vec<FillSight>,
    pub sites: Vec<SiteSight>,
}

/// The ticks to downgrade below which the controller comes first.
pub open spec fn downgrade_limit(rules: TargetRules) -> u32 {
    match rules {
        TargetRules::Worker => 5000,
        TargetRules::Harvester => 1000,
    }
}

/// How urgent filling a kind of structure is (higher first); -1 for a kind not
/// listed.
pub open spec fn fill_priority(rules: TargetRules, kind: GameStructure) -> int {
    match rules {
        TargetRules::Worker => match kind {
            GameStructure::Spawn => 4,
            GameStructure::Extension => 3,
            GameStructure::Tower => 2,
            GameStructure::Terminal => 1,
            GameStructure::Storage => 0,
            _ => -1,
        },
        TargetRules::Harvester => match kind {
            GameStructure::Spawn => 3,
            GameStructure::Extension => 2,
            GameStructure::Tower => 1,
            GameStructure::Storage => 0,
            _ => -1,
        },
    }
}

/// How urgent building a kind of structure is (higher first); -1 for a kind not
/// listed.
pub open spec fn build_priority(rules: TargetRules, kind: GameStructure) -> int {
    match rules {
        TargetRules::Worker => match kind {
            GameStructure::Extension => 5,
            GameStructure::Container => 4,
            GameStructure::Tower => 3,
            GameStructure::Road => 2,
            GameStructure::Storage => 1,
            GameStructure::Terminal => 0,
            _ => -1,
        },
        TargetRules::Harvester => match kind {
            GameStructure::Extension => 1,
            GameStructure::Road => 0,
            _ => -1,
        },
    }
}

/// A structure may be filled: it has room for energy; for a worker it also holds
/// less than 50000 and is of a listed kind.
pub open spec fn fill_eligible(rules: TargetRules, f: FillSight) -> bool {
    match rules {
        TargetRules::Worker => f.free_energy > 0 && f.used_energy < 50000 && fill_priority(rules, f.kind) >= 0,
        TargetRules::Harvester => f.free_energy > 0,
    }
}

/// The target that filling the structure makes, where its kind is one the creep
/// fills.
pub open spec fn fill_target(rules: TargetRules, f: FillSight) -> Option<DistributionTarget> {
    match f.kind {
        GameStructure::Spawn => Some(DistributionTarget::Spawn(f.id)),
        GameStructure::Extension => Some(DistributionTarget::Extension(f.id)),
        GameStructure::Tower => Some(DistributionTarget::Tower(f.id)),
        GameStructure::Storage => if rules == TargetRules::Worker { Some(DistributionTarget::Storage(f.id)) } else { None },
        GameStructure::Terminal => if rules == TargetRules::Worker { Some(DistributionTarget::Terminal(f.id)) } else { None },
        _ => None,
    }
}

/// Candidate `(p1, r1)` comes before `(p2, r2)`: a higher priority, or the same
/// priority at a shorter range.
pub open spec fn beats(p1: int, r1: int, p2: int, r2: int) -> bool {
    p1 > p2 || (p1 == p2 && r1 < r2)
}

/// The `i`-th of the candidates (each: eligible, priority, range) is the one
/// picked: eligible, of the highest priority among the eligible and, among those,
/// at the least range, the first of equals.
pub open spec fn is_pick(keys: Seq<(bool, int, int)>, i: int) -> bool {
    &&& 0 <= i < keys.len()
    &&& keys[i].0
    &&& forall|j: int| 0 <= j < keys.len() && (#[trigger] keys[j]).0 ==> !beats(keys[j].1, keys[j].2, keys[i].1, keys[i].2)
    &&& forall|j: int| 0 <= j < i && (#[trigger] keys[j]).0 ==> beats(keys[i].1, keys[i].2, keys[j].1, keys[j].2)
}

/// The candidate picked, if any is eligible.
pub open spec fn spec_pick(keys: Seq<(bool, int, int)>) -> Option<int> {
    if exists|i: int| #[trigger] is_pick(keys, i) { Some(choose|i: int| #[trigger] is_pick(keys, i)) } else { None }
}

/// At most one candidate is picked.
proof fn lemma_pick_unique(keys: Seq<(bool, int, int)>, i: int, j: int)
    requires
        is_pick(keys, i),
        is_pick(keys, j),
    ensures
        i == j,
{
    if i < j {
        assert(!beats(keys[i].1, keys[i].2, keys[j].1, keys[j].2));
    } else if j < i {
        assert(!beats(keys[j].1, keys[j].2, keys[i].1, keys[i].2));
    }
}

/// Picks the candidate of the highest priority and, among those, the least range,
/// the first of equals, among the eligible.
pub(crate) fn pick_best(keys: &Vec<(bool, i64, u64)>) -> (r: Option<usize>)
    ensures
        match spec_pick(keys@.map_values(|k: (bool, i64, u64)| (k.0, k.1 as int, k.2 as int))) {
            Some(i) => r == Some(i as usize),
            None => r is None,
        },
{
    let ghost ks = keys@.map_values(|k: (bool, i64, u64)| (k.0, k.1 as int, k.2 as int));
    let mut best: Option<usize> = None;
    let mut i: usize = 0;
    while i < keys.len()
        invariant
            ks == keys@.map_values(|k: (bool, i64, u64)| (k.0, k.1 as int, k.2 as int)),
            i <= keys@.len(),
            best is None ==> forall|j: int| 0 <= j < i ==> !(#[trigger] ks[j]).0,
            best matches Some(b) ==> b < i && ks[b as int].0
                && (forall|j: int| 0 <= j < i && (#[trigger] ks[j]).0 ==> !beats(ks[j].1, ks[j].2, ks[b as int].1, ks[b as int].2))
                && (forall|j: int| 0 <= j < b && (#[trigger] ks[j]).0 ==> beats(ks[b as int].1, ks[b as int].2, ks[j].1, ks[j].2)),
        decreases keys@.len() - i,
    {
        let (ok, p, r) = keys[i];
        if ok {
            match best {
                None => {
                    best = Some(i);
                },
                Some(b) => {
                    let (_, bp, br) = keys[b];
                    if p > bp || (p == bp && r < br) {
                        best = Some(i);
                    }
                },
            }
        }
        i = i + 1;
    }
    proof {
        match best {
            Some(b) => {
                assert(is_pick(ks, b as int));
                let c = choose|c: int| #[trigger] is_pick(ks, c);
                lemma_pick_unique(ks, b as int, c);
            },
            None => {
                if exists|c: int| #[trigger] is_pick(ks, c) {
                    let c = choose|c: int| #[trigger] is_pick(ks, c);
                    assert(ks[c].0);
                }
            },
        }
    }
    best
}

/// The fill candidates as keys: eligible, priority, range from `pos`.
pub open spec fn fill_keys(rules: TargetRules, fills: Seq<FillSight>, pos: u32) -> Seq<(bool, int, int)> {
    fills.map_values(|f: FillSight| (fill_eligible(rules, f), fill_priority(rules, f.kind), spec_range(f.pos, pos)))
}

/// The construction sites as keys: all eligible, priority, range from `pos`.
pub open spec fn site_keys(rules: TargetRules, sites: Seq<SiteSight>, pos: u32) -> Seq<(bool, int, int)> {
    sites.map_values(|s: SiteSight| (true, build_priority(rules, s.kind), spec_range(s.pos, pos)))
}

/// Where a creep at `pos` brings its energy: the controller when it is close to
/// downgrading; else the structure picked to fill (none where its kind is not one
/// the creep fills); else the construction site picked, where it has an id; else
/// the controller. None without a controller or its ticks to downgrade.
pub open spec fn spec_distribution_target(rules: TargetRules, s: TargetSight, pos: u32) -> Option<DistributionTarget> {
    match (s.controller, s.ticks_to_downgrade) {
        (Some(c), Some(t)) => if t < downgrade_limit(rules) {
            Some(DistributionTarget::Controller(c))
        } else {
            match spec_pick(fill_keys(rules, s.fills@, pos)) {
                Some(i) => fill_target(rules, s.fills@[i]),
                None => match spec_pick(site_keys(rules, s.sites@, pos)) {
                    Some(j) => match s.sites@[j].id {
                        Some(id) => Some(DistributionTarget::ConstructionSite(id)),
                        None => Some(DistributionTarget::Controller(c)),
                    },
                    None => Some(DistributionTarget::Controller(c)),
                },
            }
        },
        _ => None,
    }
}

fn fill_priority_of(rules: TargetRules, kind: GameStructure) -> (p: i64)
    ensures
        p == fill_priority(rules, kind),
{
    match rules {
        TargetRules::Worker => match kind {
            GameStructure::Spawn => 4,
            GameStructure::Extension => 3,
            GameStructure::Tower => 2,
            GameStructure::Terminal => 1,
            GameStructure::Storage => 0,
            _ => -1,
        },
        TargetRules::Harvester => match kind {
            GameStructure::Spawn => 3,
            GameStructure::Extension => 2,
            GameStructure::Tower => 1,
            GameStructure::Storage => 0,
            _ => -1,
        },
    }
}

fn build_priority_of(rules: TargetRules, kind: GameStructure) -> (p: i64)
    ensures
        p == build_priority(rules, kind),
{
    match rules {
        TargetRules::Worker => match kind {
            GameStructure::Extension => 5,
            GameStructure::Container => 4,
            GameStructure::Tower => 3,
            GameStructure::Road => 2,
            GameStructure::Storage => 1,
            GameStructure::Terminal => 0,
            _ => -1,
        },
        TargetRules::Harvester => match kind {
            GameStructure::Extension => 1,
            GameStructure::Road => 0,
            _ => -1,
        },
    }
}

/// Where a creep at `pos` brings its energy (see `spec_distribution_target`).
pub fn distribution_target(rules: TargetRules, s: &TargetSight, pos: u32) -> (r: Option<DistributionTarget>)
    requires
        packed_valid(pos),
        forall|i: int| 0 <= i < s.fills@.len() ==> packed_valid(#[trigger] s.fills@[i].pos),
        forall|i: int| 0 <= i < s.sites@.len() ==> packed_valid(#[trigger] s.sites@[i].pos),
    ensures
        r == spec_distribution_target(rules, *s, pos),
{
    let (c, t) = match (s.controller, s.ticks_to_downgrade) {
        (Some(c), Some(t)) => (c, t),
        _ => {
            return None;
        },
    };
    let limit: u32 = match rules {
        TargetRules::Worker => 5000,
        TargetRules::Harvester => 1000,
    };
    if t < limit {
        return Some(DistributionTarget::Controller(c));
    }
    let mut fk: Vec<(bool, i64, u64)> = Vec::new();
    let mut i: usize = 0;
    while i < s.fills.len()
        invariant
            i <= s.fills@.len(),
            packed_valid(pos),
            forall|j: int| 0 <= j < s.fills@.len() ==> packed_valid(#[trigger] s.fills@[j].pos),
            fk@.len() == i,
            forall|k: int| 0 <= k < i ==> (#[trigger] fk@[k]).0 == fill_eligible(rules, s.fills@[k])
                && fk@[k].1 == fill_priority(rules, s.fills@[k].kind) && fk@[k].2 == spec_range(s.fills@[k].pos, pos),
        decreases s.fills@.len() - i,
    {
        let f = s.fills[i];
        let ok = match rules {
            TargetRules::Worker => f.free_energy > 0 && f.used_energy < 50000 && fill_priority_of(rules, f.kind) >= 0,
            TargetRules::Harvester => f.free_energy > 0,
        };
        fk.push((ok, fill_priority_of(rules, f.kind), range_between(f.pos, pos) as u64));
        i = i + 1;
    }
    proof {
        assert(fk@.map_values(|k: (bool, i64, u64)| (k.0, k.1 as int, k.2 as int)) =~= fill_keys(rules, s.fills@, pos));
    }
    match pick_best(&fk) {
        Some(b) => {
            let f = s.fills[b];
            return match f.kind {
                GameStructure::Spawn => Some(DistributionTarget::Spawn(f.id)),
                GameStructure::Extension => Some(DistributionTarget::Extension(f.id)),
                GameStructure::Tower => Some(DistributionTarget::Tower(f.id)),
                GameStructure::Storage => if rules == TargetRules::Worker { Some(DistributionTarget::Storage(f.id)) } else { None },
                GameStructure::Terminal => if rules == TargetRules::Worker { Some(DistributionTarget::Terminal(f.id)) } else { None },
                _ => None,
            };
        },
        None => {},
    }
    let mut sk: Vec<(bool, i64, u64)> = Vec::new();
    let mut j: usize = 0;
    while j < s.sites.len()
        invariant
            j <= s.sites@.len(),
            packed_valid(pos),
            forall|k: int| 0 <= k < s.sites@.len() ==> packed_valid(#[trigger] s.sites@[k].pos),
            sk@.len() == j,
            forall|k: int| 0 <= k < j ==> (#[trigger] sk@[k]).0
                && sk@[k].1 == build_priority(rules, s.sites@[k].kind) && sk@[k].2 == spec_range(s.sites@[k].pos, pos),
        decreases s.sites@.len() - j,
    {
        let site = s.sites[j];
        sk.push((true, build_priority_of(rules, site.kind), range_between(site.pos, pos) as u64));
        j = j + 1;
    }
    proof {
        assert(sk@.map_values(|k: (bool, i64, u64)| (k.0, k.1 as int, k.2 as int)) =~= site_keys(rules, s.sites@, pos));
    }
    match pick_best(&sk) {
        Some(b) => match s.sites[b].id {
            Some(id) => Some(DistributionTarget::ConstructionSite(id)),
            None => Some(DistributionTarget::Controller(c)),
        },
        None => Some(DistributionTarget::Controller(c)),
    }
}

/// The states of a worker.
#[derive(PartialEq, Eq, Structural, Clone, Copy, Debug)]
pub enum WorkerCreep {
    Idle,
    /// Harvesting the source with this id.
    Harvesting(u64),
    /// Picking up the dropped resource with this id.
    PickingUp(u64),
    /// Bringing energy to the target.
    Distributing(DistributionTarget),
}

impl Default for WorkerCreep {
    /// A worker starts idle.
    fn default() -> (s: Self)
        ensures
            s == WorkerCreep::Idle,
    {
        WorkerCreep::Idle
    }
}

/// What a worker reads of the game in a round.
pub struct WorkerObservation {
    /// Where the creep stands.
    pub pos: u32,
    /// It carries nothing.
    pub empty: bool,
    /// It has no free capacity.
    pub full: bool,
    /// What the creep's room offers as targets.
    pub targets: TargetSight,
    /// The active sources of its home colony's room; none where that colony or its
    /// room is not known.
    pub home_sources: Option<Vec<u64>>,
    /// The index drawn at random among the home's active sources.
    pub pick: usize,
    /// The resources dropped in the creep's room, with their amounts.
    pub dropped: Vec<(u64, u32)>,
    /// Where the source it harvests is, where that is seen.
    pub source_pos: Option<u32>,
    /// Where the resource it picks up is, where that still exists.
    pub pile_pos: Option<u32>,
    /// Its target can still take energy: a controller always, a structure while
    /// it has room for energy, a site while it exists.
    pub target_valid: bool,
    /// Where its target is, where that is seen.
    pub target_pos: Option<u32>,
    /// The home colony's controller is close to downgrading (under 5000 ticks).
    pub home_controller_low: bool,
    /// Its target, if a construction site, still exists.
    pub site_exists: bool,
}

/// What a worker does in a round.
#[derive(PartialEq, Eq, Structural, Clone, Copy, Debug)]
pub enum WorkerAct {
    Nothing,
    Harvest(u64),
    Pickup(u64),
    Distribute(DistributionTarget),
}

/// A round's decision: where to move, whether to repair worn roads in range, the
/// action, and the next state where the action succeeds or fails (an error where
/// the creep failed). For a harvest, failing means the creep was too tired; for a
/// distribution, that the target could not be served.
#[derive(PartialEq, Eq, Clone, Copy, Debug)]
pub struct WorkerPlan {
    pub move_to: Option<u32>,
    pub repair: bool,
    pub act: WorkerAct,
    pub on_success: Result<WorkerCreep, ()>,
    pub on_failure: Result<WorkerCreep, ()>,
}

/// A plan that does nothing and goes on to `next`.
pub open spec fn settled_plan(next: Result<WorkerCreep, ()>) -> WorkerPlan {
    WorkerPlan { move_to: None, repair: false, act: WorkerAct::Nothing, on_success: next, on_failure: next }
}

/// The first of the dropped resources with the least amount.
pub open spec fn least_pile(d: Seq<(u64, u32)>) -> Option<int> {
    if exists|i: int| 0 <= i < d.len() && forall|j: int| 0 <= j < d.len() ==> #[trigger] d[i].1 <= d[j].1
        && (forall|j: int| 0 <= j < i ==> d[i].1 < #[trigger] d[j].1) {
        Some(choose|i: int| 0 <= i < d.len() && forall|j: int| 0 <= j < d.len() ==> #[trigger] d[i].1 <= d[j].1
            && (forall|j: int| 0 <= j < i ==> d[i].1 < #[trigger] d[j].1))
    } else {
        None
    }
}

/// The state an idle worker moves on to: distributing where it carries energy and
/// has a target; else, where it has room, harvesting the drawn source of its home,
/// then picking up the least dropped resource, which wins. An error where it would
/// harvest but its home is not known.
pub open spec fn spec_idle_next(obs: WorkerObservation, target: Option<DistributionTarget>) -> Result<WorkerCreep, ()> {
    if !obs.empty && target is Some {
        Ok(WorkerCreep::Distributing(target.unwrap()))
    } else if obs.full {
        Ok(WorkerCreep::Idle)
    } else {
        match obs.home_sources {
            None => Err(()),
            Some(srcs) => match least_pile(obs.dropped@) {
                Some(i) => Ok(WorkerCreep::PickingUp(obs.dropped@[i].0)),
                None => if srcs@.len() > 0 {
                    Ok(WorkerCreep::Harvesting(srcs@[obs.pick as int]))
                } else {
                    Ok(WorkerCreep::Idle)
                },
            },
        }
    }
}

/// The plan of a round (see the cases of `WorkerCreep::update`).
pub open spec fn spec_worker_plan(s: WorkerCreep, obs: WorkerObservation) -> WorkerPlan {
    match s {
        WorkerCreep::Idle => settled_plan(spec_idle_next(obs, spec_distribution_target(TargetRules::Worker, obs.targets, obs.pos))),
        WorkerCreep::Harvesting(src) => match obs.source_pos {
            None => settled_plan(Err(())),
            Some(sp) => WorkerPlan {
                move_to: Some(sp),
                repair: false,
                act: if spec_near(obs.pos, sp) { WorkerAct::Harvest(src) } else { WorkerAct::Nothing },
                on_success: Ok(if obs.full { WorkerCreep::Idle } else { s }),
                on_failure: Ok(WorkerCreep::Idle),
            },
        },
        WorkerCreep::PickingUp(pile) => match obs.pile_pos {
            None => settled_plan(Ok(WorkerCreep::Idle)),
            Some(pp) => if spec_near(obs.pos, pp) {
                WorkerPlan { move_to: None, repair: false, act: WorkerAct::Pickup(pile),
                    on_success: Ok(WorkerCreep::Idle), on_failure: Ok(WorkerCreep::Idle) }
            } else {
                WorkerPlan { move_to: Some(pp), repair: false, act: WorkerAct::Nothing, on_success: Ok(s), on_failure: Ok(s) }
            },
        },
        WorkerCreep::Distributing(t) => {
            let repair = !(t is Controller && obs.home_controller_low);
            if !obs.target_valid {
                WorkerPlan { move_to: None, repair, act: WorkerAct::Nothing,
                    on_success: Ok(WorkerCreep::Idle), on_failure: Ok(WorkerCreep::Idle) }
            } else {
                match obs.target_pos {
                    None => WorkerPlan { move_to: None, repair, act: WorkerAct::Nothing, on_success: Err(()), on_failure: Err(()) },
                    Some(tp) => {
                        let after = if (t is ConstructionSite && !obs.site_exists) || obs.empty { WorkerCreep::Idle } else { s };
                        WorkerPlan {
                            move_to: Some(tp),
                            repair,
                            act: if spec_range(obs.pos, tp) <= spec_target_range(t) { WorkerAct::Distribute(t) } else { WorkerAct::Nothing },
                            on_success: Ok(after),
                            on_failure: Ok(WorkerCreep::Idle),
                        }
                    },
                }
            }
        },
    }
}

/// The observation's positions are positions in a room, and the drawn source is
/// one of the home's.
pub open spec fn observation_valid(obs: WorkerObservation) -> bool {
    &&& packed_valid(obs.pos)
    &&& forall|i: int| 0 <= i < obs.targets.fills@.len() ==> packed_valid(#[trigger] obs.targets.fills@[i].pos)
    &&& forall|i: int| 0 <= i < obs.targets.sites@.len() ==> packed_valid(#[trigger] obs.targets.sites@[i].pos)
    &&& (obs.home_sources matches Some(v) ==> (v@.len() > 0 ==> obs.pick < v@.len()))
    &&& (obs.source_pos matches Some(p) ==> packed_valid(p))
    &&& (obs.pile_pos matches Some(p) ==> packed_valid(p))
    &&& (obs.target_pos matches Some(p) ==> packed_valid(p))
}

/// The first of the dropped resources with the least amount.
fn least_pile_of(d: &Vec<(u64, u32)>) -> (r: Option<usize>)
    ensures
        r matches Some(i) ==> i < d@.len() && least_pile(d@) == Some(i as int),
        r is None <==> least_pile(d@) is None,
{
    if d.len() == 0 {
        return None;
    }
    let mut best: usize = 0;
    let mut i: usize = 1;
    while i < d.len()
        invariant
            1 <= i <= d@.len(),
            best < i,
            forall|j: int| 0 <= j < i ==> d@[best as int].1 <= #[trigger] d@[j].1,
            forall|j: int| 0 <= j < best ==> d@[best as int].1 < #[trigger] d@[j].1,
        decreases d@.len() - i,
    {
        if d[i].1 < d[best].1 {
            best = i;
        }
        i = i + 1;
    }
    proof {
        let b = best as int;
        assert(0 <= b < d@.len() && forall|j: int| 0 <= j < d@.len() ==> #[trigger] d@[b].1 <= d@[j].1
            && (forall|j: int| 0 <= j < b ==> d@[b].1 < #[trigger] d@[j].1));
        let c = choose|c: int| 0 <= c < d@.len() && forall|j: int| 0 <= j < d@.len() ==> #[trigger] d@[c].1 <= d@[j].1
            && (forall|j: int| 0 <= j < c ==> d@[c].1 < #[trigger] d@[j].1);
        if c < b {
            assert(d@[b].1 < d@[c].1);
            assert(d@[c].1 <= d@[b].1);
        }
        if b < c {
            assert(d@[c].1 < d@[b].1);
        }
    }
    Some(best)
}

impl WorkerCreep {
    /// One round of the worker's decisions.
    ///
    /// - Idle: it moves on to distributing, harvesting or picking up (see
    ///   `spec_idle_next`), doing nothing this round.
    /// - Harvesting: it moves to the source and harvests it when next to it; too
    ///   tired to harvest, it turns idle, as it does once full. Without sight of
    ///   the source it fails.
    /// - Picking up: next to the resource it picks it up and turns idle, else it
    ///   moves there; it turns idle where the resource is gone.
    /// - Distributing: it repairs worn roads in range, unless it is upgrading a
    ///   home controller close to downgrading; it turns idle where the target
    ///   takes no more energy; else it moves to the target and serves it when in
    ///   range, turning idle where that fails, where a site is gone, or where it is
    ///   empty. Without sight of the target it fails.
    pub fn update(self, obs: &WorkerObservation) -> (r: WorkerPlan)
        requires
            observation_valid(*obs),
        ensures
            r == spec_worker_plan(self, *obs),
    {
        match self {
            WorkerCreep::Idle => {
                let target = distribution_target(TargetRules::Worker, &obs.targets, obs.pos);
                let next = if !obs.empty && target.is_some() {
                    Ok(WorkerCreep::Distributing(target.unwrap()))
                } else if obs.full {
                    Ok(WorkerCreep::Idle)
                } else {
                    match &obs.home_sources {
                        None => Err(()),
                        Some(srcs) => match least_pile_of(&obs.dropped) {
                            Some(i) => Ok(WorkerCreep::PickingUp(obs.dropped[i].0)),
                            None => if srcs.len() > 0 {
                                Ok(WorkerCreep::Harvesting(srcs[obs.pick]))
                            } else {
                                Ok(WorkerCreep::Idle)
                            },
                        },
                    }
                };
                WorkerPlan { move_to: None, repair: false, act: WorkerAct::Nothing, on_success: next, on_failure: next }
            },
            WorkerCreep::Harvesting(src) => match obs.source_pos {
                None => WorkerPlan { move_to: None, repair: false, act: WorkerAct::Nothing, on_success: Err(()), on_failure: Err(()) },
                Some(sp) => WorkerPlan {
                    move_to: Some(sp),
                    repair: false,
                    act: if positions_near(obs.pos, sp) { WorkerAct::Harvest(src) } else { WorkerAct::Nothing },
                    on_success: Ok(if obs.full { WorkerCreep::Idle } else { self }),
                    on_failure: Ok(WorkerCreep::Idle),
                },
            },
            WorkerCreep::PickingUp(pile) => match obs.pile_pos {
                None => WorkerPlan { move_to: None, repair: false, act: WorkerAct::Nothing,
                    on_success: Ok(WorkerCreep::Idle), on_failure: Ok(WorkerCreep::Idle) },
                Some(pp) => if positions_near(obs.pos, pp) {
                    WorkerPlan { move_to: None, repair: false, act: WorkerAct::Pickup(pile),
                        on_success: Ok(WorkerCreep::Idle), on_failure: Ok(WorkerCreep::Idle) }
                } else {
                    WorkerPlan { move_to: Some(pp), repair: false, act: WorkerAct::Nothing, on_success: Ok(self), on_failure: Ok(self) }
                },
            },
            WorkerCreep::Distributing(t) => {
                let is_controller = match t {
                    DistributionTarget::Controller(_) => true,
                    _ => false,
                };
                let repair = !(is_controller && obs.home_controller_low);
                if !obs.target_valid {
                    return WorkerPlan { move_to: None, repair, act: WorkerAct::Nothing,
                        on_success: Ok(WorkerCreep::Idle), on_failure: Ok(WorkerCreep::Idle) };
                }
                match obs.target_pos {
                    None => WorkerPlan { move_to: None, repair, act: WorkerAct::Nothing, on_success: Err(()), on_failure: Err(()) },
                    Some(tp) => {
                        let is_site = match t {
                            DistributionTarget::ConstructionSite(_) => true,
                            _ => false,
                        };
                        let after = if (is_site && !obs.site_exists) || obs.empty { WorkerCreep::Idle } else { self };
                        let act = if range_between(obs.pos, tp) <= t.range() { WorkerAct::Distribute(t) } else { WorkerAct::Nothing };
                        WorkerPlan { move_to: Some(tp), repair, act, on_success: Ok(after), on_failure: Ok(WorkerCreep::Idle) }
                    },
                }
            },
        }
    }
}

impl WorkerPlan {
    /// The next state, once the action succeeded or failed.
    pub fn settle(&self, failed: bool) -> (r: Result<WorkerCreep, ()>)
        ensures
            r == if failed { self.on_failure } else { self.on_success },
    {
        if failed { self.on_failure } else { self.on_success }
    }
}

} // verus!
