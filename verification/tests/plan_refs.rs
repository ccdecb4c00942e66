use screeps_colony::center::plan_center_core;
use screeps_colony::plan_refs::{compile_center, compile_mineral, compile_sources};
use screeps_colony::planner::{ColonyPlanner, PlanError, PlannedStructure, RoomXY, TerrainKind, ROOM_AREA};
use screeps_colony::sources::plan_source;
use screeps_colony::steps::ColonyStep;

fn xy(x: u8, y: u8) -> RoomXY {
    RoomXY { x, y }
}

fn planner() -> ColonyPlanner {
    ColonyPlanner::new(vec![TerrainKind::Plain; ROOM_AREA])
}

#[test]
fn the_center_plan_needs_every_center_structure() {
    let mut p = planner();
    plan_center_core(&mut p, xy(25, 25)).ok().unwrap();
    assert_eq!(compile_center(&p).err(), Some(PlanError::NotFound(PlannedStructure::Observer)));
    p.plan_structure(xy(40, 40), ColonyStep::BuildLvl8, PlannedStructure::Observer).unwrap();
    let c = compile_center(&p).ok().unwrap();
    assert_eq!(c.pos, c.storage);
    assert_eq!(c.container_storage, xy(26, 25));
    assert_eq!(c.observer, xy(40, 40));
    assert_eq!(c.towers.len(), 1);
}

#[test]
fn the_mineral_plan_needs_its_container_first() {
    let mut p = planner();
    assert_eq!(compile_mineral(&p).err(), Some(PlanError::NotFound(PlannedStructure::MineralContainer)));
    p.plan_structure(xy(10, 10), ColonyStep::BuildLvl6, PlannedStructure::MineralContainer).unwrap();
    assert_eq!(compile_mineral(&p).err(), Some(PlanError::NotFound(PlannedStructure::Extractor)));
    p.plan_structure(xy(10, 11), ColonyStep::BuildLvl6, PlannedStructure::Extractor).unwrap();
    let m = compile_mineral(&p).ok().unwrap();
    assert_eq!((m.container, m.extractor), (xy(10, 10), xy(10, 11)));
}

#[test]
fn source_plans_come_in_the_order_given() {
    let mut p = planner();
    plan_source(&mut p, &vec![xy(20, 20), xy(21, 20)], 7).unwrap();
    let v = compile_sources(&p, &vec![7]).ok().unwrap();
    assert_eq!(v.len(), 1);
    assert_eq!(v[0].0, 7);
    assert_eq!(v[0].1.spawn, xy(21, 20));
    assert_eq!(v[0].1.container, xy(20, 20));
    assert_eq!(v[0].1.link, xy(20, 19));
    assert_eq!(compile_sources(&p, &vec![7, 8]).err(), Some(PlanError::NotFound(PlannedStructure::SourceSpawn(8))));
}
