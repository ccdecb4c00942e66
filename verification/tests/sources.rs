use screeps_colony::planner::{ColonyPlanner, PlanError, PlannedStructure, RoomXY, TerrainKind, ROOM_AREA};
use screeps_colony::sources::{plan_source, road_beside};
use screeps_colony::steps::ColonyStep;

fn xy(x: u8, y: u8) -> RoomXY {
    RoomXY { x, y }
}

fn planner() -> ColonyPlanner {
    ColonyPlanner::new(vec![TerrainKind::Plain; ROOM_AREA])
}

#[test]
fn a_source_gets_container_spawn_link_and_extensions() {
    let mut p = planner();
    let path = vec![xy(20, 20), xy(21, 20), xy(22, 20)];
    assert_eq!(plan_source(&mut p, &path, 7), Ok(xy(21, 20)));
    assert_eq!(p.structure_at(xy(20, 20)), Some((PlannedStructure::SourceContainer(7), ColonyStep::BuildBufferAndSourceContainers)));
    assert_eq!(p.structure_at(xy(21, 20)).map(|s| s.0), Some(PlannedStructure::SourceSpawn(7)));
    assert_eq!(p.road_at(xy(20, 20)), Some(ColonyStep::BuildArterialRoads));
    assert_eq!(p.road_at(xy(21, 20)), Some(ColonyStep::BuildArterialRoads));
    assert_eq!(p.structure_at(xy(20, 19)).map(|s| s.0), Some(PlannedStructure::SourceLink(7)));
    assert_eq!(p.structure_at(xy(21, 19)).map(|s| s.0), Some(PlannedStructure::SourceExtension(7)));
    assert_eq!(p.structure_at(xy(19, 19)).map(|s| s.0), Some(PlannedStructure::SourceExtension(7)));
}

#[test]
fn short_paths_fail() {
    let mut p = planner();
    assert_eq!(plan_source(&mut p, &vec![], 1), Err(PlanError::EmptyPath));
    assert_eq!(plan_source(&mut p, &vec![xy(5, 5)], 1), Err(PlanError::ShortPath));
}

#[test]
fn a_walled_in_source_has_no_link_slot() {
    let mut t = vec![TerrainKind::Wall; ROOM_AREA];
    t[20 * 50 + 20] = TerrainKind::Plain;
    t[20 * 50 + 21] = TerrainKind::Plain;
    let mut p = ColonyPlanner::new(t);
    assert_eq!(plan_source(&mut p, &vec![xy(20, 20), xy(21, 20)], 3), Err(PlanError::NoLinkSlot));
}

#[test]
fn a_mineral_container_goes_beside_it_on_the_first_road_clockwise() {
    let mut p = planner();
    assert_eq!(road_beside(&p, xy(10, 10)), None);
    p.plan_road(xy(9, 11), ColonyStep::BuildLvl6);
    p.plan_road(xy(11, 10), ColonyStep::BuildLvl6);
    assert_eq!(road_beside(&p, xy(10, 10)), Some(xy(11, 10)));
}
