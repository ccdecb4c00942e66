use screeps_colony::harvester::{HarvesterAct, HarvesterNext, HarvesterObservation, HarvesterState, SourceDistribution};
use screeps_colony::keyed::KeyedMap;
use screeps_colony::plan_diff::GameStructure;
use screeps_colony::planner::{TerrainKind, ROOM_AREA};
use screeps_colony::worker::{
    distribution_target, DistributionTarget, FillSight, SiteSight, TargetRules, TargetSight, WorkerAct, WorkerCreep,
    WorkerObservation,
};

fn pos(x: u32, y: u32) -> u32 {
    (128 << 24) | (128 << 16) | (x << 8) | y
}

fn sight(ticks: u32) -> TargetSight {
    TargetSight { controller: Some(99), ticks_to_downgrade: Some(ticks), fills: vec![], sites: vec![] }
}

fn fill(kind: GameStructure, id: u64, x: u32, free: u32) -> FillSight {
    FillSight { kind, id, pos: pos(x, 10), free_energy: free, used_energy: 0 }
}

#[test]
fn the_controller_comes_first_when_close_to_downgrading() {
    let s = sight(4999);
    assert_eq!(distribution_target(TargetRules::Worker, &s, pos(10, 10)), Some(DistributionTarget::Controller(99)));
    let s = sight(4999);
    assert_eq!(distribution_target(TargetRules::Harvester, &s, pos(10, 10)), Some(DistributionTarget::Controller(99)));
    let none = TargetSight { controller: Some(99), ticks_to_downgrade: None, fills: vec![], sites: vec![] };
    assert_eq!(distribution_target(TargetRules::Worker, &none, pos(10, 10)), None);
}

#[test]
fn the_most_urgent_nearest_structure_is_filled() {
    let mut s = sight(10000);
    s.fills = vec![
        fill(GameStructure::Extension, 1, 30, 50),
        fill(GameStructure::Spawn, 2, 40, 0),
        fill(GameStructure::Extension, 3, 12, 50),
        fill(GameStructure::Extension, 4, 8, 50),
    ];
    // the spawn is full; of the extensions, 3 and 4 are both two away, and 3 comes first
    assert_eq!(distribution_target(TargetRules::Worker, &s, pos(10, 10)), Some(DistributionTarget::Extension(3)));
}

#[test]
fn sites_then_the_controller_follow() {
    let mut s = sight(10000);
    s.sites = vec![
        SiteSight { kind: GameStructure::Road, id: Some(5), pos: pos(11, 10) },
        SiteSight { kind: GameStructure::Extension, id: Some(6), pos: pos(30, 10) },
    ];
    assert_eq!(distribution_target(TargetRules::Worker, &s, pos(10, 10)), Some(DistributionTarget::ConstructionSite(6)));
    s.sites = vec![SiteSight { kind: GameStructure::Road, id: None, pos: pos(11, 10) }];
    assert_eq!(distribution_target(TargetRules::Worker, &s, pos(10, 10)), Some(DistributionTarget::Controller(99)));
}

#[test]
fn a_harvester_does_not_fill_a_storage() {
    let mut s = sight(10000);
    s.fills = vec![fill(GameStructure::Storage, 7, 12, 50)];
    assert_eq!(distribution_target(TargetRules::Harvester, &s, pos(10, 10)), None);
    assert_eq!(distribution_target(TargetRules::Worker, &s, pos(10, 10)), Some(DistributionTarget::Storage(7)));
}

fn worker_obs() -> WorkerObservation {
    WorkerObservation {
        pos: pos(10, 10),
        empty: true,
        full: false,
        targets: sight(10000),
        home_sources: Some(vec![21, 22]),
        pick: 1,
        dropped: vec![],
        source_pos: Some(pos(11, 11)),
        pile_pos: None,
        target_valid: true,
        target_pos: Some(pos(12, 10)),
        home_controller_low: false,
        site_exists: true,
    }
}

#[test]
fn an_idle_worker_harvests_or_picks_up() {
    let o = worker_obs();
    assert_eq!(WorkerCreep::Idle.update(&o).on_success, Ok(WorkerCreep::Harvesting(22)));
    let mut o = worker_obs();
    o.dropped = vec![(31, 40), (32, 10), (33, 10)];
    assert_eq!(WorkerCreep::Idle.update(&o).on_success, Ok(WorkerCreep::PickingUp(32)));
    let mut o = worker_obs();
    o.home_sources = None;
    assert_eq!(WorkerCreep::Idle.update(&o).on_success, Err(()));
    let mut o = worker_obs();
    o.empty = false;
    assert_eq!(WorkerCreep::Idle.update(&o).on_success, Ok(WorkerCreep::Distributing(DistributionTarget::Controller(99))));
}

#[test]
fn a_harvesting_worker_stops_when_tired_or_full() {
    let o = worker_obs();
    let plan = WorkerCreep::Harvesting(21).update(&o);
    assert_eq!(plan.act, WorkerAct::Harvest(21));
    assert_eq!(plan.move_to, Some(pos(11, 11)));
    assert_eq!(plan.settle(false), Ok(WorkerCreep::Harvesting(21)));
    assert_eq!(plan.settle(true), Ok(WorkerCreep::Idle));
    let mut o = worker_obs();
    o.full = true;
    assert_eq!(WorkerCreep::Harvesting(21).update(&o).settle(false), Ok(WorkerCreep::Idle));
    let mut o = worker_obs();
    o.source_pos = None;
    assert_eq!(WorkerCreep::Harvesting(21).update(&o).settle(false), Err(()));
}

#[test]
fn a_distributing_worker_serves_in_range() {
    let mut o = worker_obs();
    o.empty = false;
    let t = DistributionTarget::Extension(8);
    let plan = WorkerCreep::Distributing(t).update(&o);
    assert_eq!(plan.act, WorkerAct::Nothing);
    assert!(plan.repair);
    assert_eq!(plan.settle(false), Ok(WorkerCreep::Distributing(t)));
    o.target_pos = Some(pos(11, 10));
    let plan = WorkerCreep::Distributing(t).update(&o);
    assert_eq!(plan.act, WorkerAct::Distribute(t));
    assert_eq!(plan.settle(true), Ok(WorkerCreep::Idle));
    o.target_valid = false;
    assert_eq!(WorkerCreep::Distributing(t).update(&o).settle(false), Ok(WorkerCreep::Idle));
    let mut o = worker_obs();
    o.home_controller_low = true;
    assert!(!WorkerCreep::Distributing(DistributionTarget::Controller(99)).update(&o).repair);
}

fn plain() -> Vec<TerrainKind> {
    vec![TerrainKind::Plain; ROOM_AREA]
}

#[test]
fn sources_get_the_free_tiles_around_them() {
    let mut terrain = plain();
    // the tile left of the source at (10, 10) is a wall
    terrain[10 * 50 + 9] = TerrainKind::Wall;
    let d = SourceDistribution::new(&vec![(1, pos(10, 10))], &terrain);
    assert_eq!(d.sources[0].spots.len(), 8);
    assert_eq!(d.max_creeps(), 8);
}

#[test]
fn creeps_are_assigned_first_by_position_and_kept() {
    let mut terrain = plain();
    terrain[10 * 50 + 9] = TerrainKind::Wall;
    let mut d = SourceDistribution::new(&vec![(1, pos(10, 10))], &terrain);
    // the first free tile by y, then x: (9, 9)
    assert_eq!(d.get_assignment(100), Some((pos(9, 9), 1)));
    assert_eq!(d.get_assignment(100), Some((pos(9, 9), 1)));
    assert_eq!(d.get_assignment(101), Some((pos(10, 9), 1)));
    d.cleanup_dead_creep(100);
    assert_eq!(d.get_assignment(102), Some((pos(9, 9), 1)));
}

fn harvester_obs() -> HarvesterObservation {
    let mut positions = KeyedMap::new();
    positions.insert(1, pos(10, 10));
    positions.insert(99, pos(20, 20));
    HarvesterObservation { creep: 100, pos: pos(9, 9), empty: true, full: false, targets: sight(10000), positions }
}

#[test]
fn an_idle_harvester_takes_its_spot_and_starts_at_once() {
    let mut d = SourceDistribution::new(&vec![(1, pos(10, 10))], &plain());
    let o = harvester_obs();
    let turn = HarvesterState::Idle.turn(&o, &mut d);
    assert_eq!(turn.settle(false), HarvesterNext::Again(HarvesterState::Harvesting(pos(9, 9), 1)));
    let turn = HarvesterState::Harvesting(pos(9, 9), 1).turn(&o, &mut d);
    assert_eq!(turn.act, HarvesterAct::Harvest(1));
    assert_eq!(turn.settle(false), HarvesterNext::Done(Some(HarvesterState::Harvesting(pos(9, 9), 1))));
}

#[test]
fn a_full_harvester_turns_to_distributing() {
    let mut d = SourceDistribution::new(&vec![(1, pos(10, 10))], &plain());
    let mut o = harvester_obs();
    o.full = true;
    o.empty = false;
    let turn = HarvesterState::Harvesting(pos(9, 9), 1).turn(&o, &mut d);
    assert_eq!(turn.settle(false), HarvesterNext::Again(HarvesterState::Idle));
    let turn = HarvesterState::Idle.turn(&o, &mut d);
    let t = DistributionTarget::Controller(99);
    assert_eq!(turn.settle(false), HarvesterNext::Again(HarvesterState::Distributing(t)));
    let turn = HarvesterState::Distributing(t).turn(&o, &mut d);
    assert!(turn.repair);
    assert_eq!(turn.move_to, Some(pos(20, 20)));
    assert_eq!(turn.act, HarvesterAct::Nothing);
    assert_eq!(turn.settle(false), HarvesterNext::Done(Some(HarvesterState::Distributing(t))));
}
