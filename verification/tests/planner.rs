use screeps_colony::planner::{ColonyPlanner, PlanError, PlannedStructure, RoomXY, StructureKind, TerrainKind, TilePathing, ROOM_AREA};
use screeps_colony::steps::ColonyStep;

fn xy(x: u8, y: u8) -> RoomXY {
    RoomXY { x, y }
}

fn planner_with_wall_at(wall: RoomXY) -> ColonyPlanner {
    let mut terrain = vec![TerrainKind::Plain; ROOM_AREA];
    terrain[wall.y as usize * 50 + wall.x as usize] = TerrainKind::Wall;
    terrain[0] = TerrainKind::Swamp;
    ColonyPlanner::new(terrain)
}

#[test]
fn tile_costs() {
    assert_eq!(TilePathing::BuiltRoad.cost(), 5);
    assert_eq!(TilePathing::PlannedRoad.cost(), 6);
    assert_eq!(TilePathing::Plains.cost(), 8);
    assert_eq!(TilePathing::Swamp.cost(), 20);
    assert_eq!(TilePathing::Impassable.cost(), 255);
    assert_eq!(TilePathing::from_terrain(TerrainKind::Wall), TilePathing::Impassable);
}

#[test]
fn planned_structure_kinds() {
    assert_eq!(PlannedStructure::SourceSpawn(3).structure_type(), StructureKind::Spawn);
    assert_eq!(PlannedStructure::ContainerStorage.structure_type(), StructureKind::Container);
    assert_eq!(PlannedStructure::CentralLink.structure_type(), StructureKind::Link);
    assert!(PlannedStructure::MineralContainer.walkable());
    assert!(!PlannedStructure::Tower.walkable());
    assert!(PlannedStructure::Extractor.buildable_on_wall());
    assert!(!PlannedStructure::Storage.buildable_on_wall());
}

#[test]
fn new_planner_costs_follow_terrain() {
    let p = planner_with_wall_at(xy(5, 5));
    let costs = p.path_costs(ColonyStep::BuildSpawn);
    assert_eq!(costs.len(), ROOM_AREA);
    assert_eq!(costs[0], 20);
    assert_eq!(costs[5 * 50 + 5], 255);
    assert_eq!(costs[1], 8);
    assert!(p.is_free_at(xy(1, 1)));
    assert!(!p.is_free_at(xy(5, 5)));
}

#[test]
fn structures_respect_controller_limits() {
    let mut p = planner_with_wall_at(xy(5, 5));
    assert_eq!(p.plan_structure(xy(10, 10), ColonyStep::BuildSpawn, PlannedStructure::MainSpawn), Ok(()));
    assert_eq!(p.num_placed_by(StructureKind::Spawn, ColonyStep::BuildSpawn), 1);
    assert_eq!(p.plan_structure(xy(12, 10), ColonyStep::BuildSpawn, PlannedStructure::SourceSpawn(1)),
        Err(PlanError::NoneLeft(PlannedStructure::SourceSpawn(1), ColonyStep::BuildSpawn)));
    assert_eq!(p.count_left_for(PlannedStructure::SourceSpawn(1), ColonyStep::BuildSpawn), 0);
    assert_eq!(p.plan_structure(xy(12, 10), ColonyStep::BuildLvl7, PlannedStructure::SourceSpawn(1)), Ok(()));
    assert_eq!(p.num_placed_by(StructureKind::Spawn, ColonyStep::EndlesslyUpgrade), 2);
}

#[test]
fn structures_refuse_walls_and_overlap() {
    let mut p = planner_with_wall_at(xy(5, 5));
    assert_eq!(p.plan_structure(xy(5, 5), ColonyStep::BuildLvl4, PlannedStructure::Storage), Err(PlanError::OnWall(PlannedStructure::Storage)));
    assert_eq!(p.plan_structure(xy(5, 5), ColonyStep::BuildLvl6, PlannedStructure::Extractor), Ok(()));
    assert_eq!(p.plan_structure(xy(6, 6), ColonyStep::BuildLvl4, PlannedStructure::Storage), Ok(()));
    assert_eq!(p.plan_structure(xy(6, 6), ColonyStep::BuildLvl5, PlannedStructure::Tower), Err(PlanError::Overlap(PlannedStructure::Tower)));
    let costs = p.path_costs(ColonyStep::BuildLvl8);
    assert_eq!(costs[6 * 50 + 6], 255);
}

#[test]
fn extensions_planned_earliest() {
    let mut p = planner_with_wall_at(xy(5, 5));
    for i in 0..5 {
        assert_eq!(p.plan_structure_earliest(xy(20 + i, 20), PlannedStructure::Extension), Ok(ColonyStep::BuildLvl2));
    }
    assert_eq!(p.plan_structure_earliest(xy(30, 20), PlannedStructure::Extension), Ok(ColonyStep::BuildLvl3));
    assert_eq!(p.count_left_for(PlannedStructure::Extension, ColonyStep::BuildLvl2), 0);
    assert_eq!(p.count_left_for(PlannedStructure::Extension, ColonyStep::BuildLvl3), 4);
}

#[test]
fn observer_earliest_at_level_8_then_none() {
    let mut p = planner_with_wall_at(xy(5, 5));
    assert_eq!(p.plan_structure_earliest(xy(40, 40), PlannedStructure::Observer), Ok(ColonyStep::BuildLvl8));
    assert_eq!(p.plan_structure_earliest(xy(41, 40), PlannedStructure::Observer), Err(PlanError::NoneBuildable(PlannedStructure::Observer)));
}

#[test]
fn roads_keep_their_earliest_step() {
    let mut p = planner_with_wall_at(xy(5, 5));
    p.plan_road(xy(3, 3), ColonyStep::BuildLvl3);
    p.plan_road(xy(3, 3), ColonyStep::BuildLvl5);
    assert_eq!(p.path_costs(ColonyStep::BuildLvl2)[3 * 50 + 3], 6);
    assert_eq!(p.path_costs(ColonyStep::BuildLvl3)[3 * 50 + 3], 5);
    p.plan_road(xy(3, 3), ColonyStep::BuildSpawn);
    assert_eq!(p.path_costs(ColonyStep::BuildSpawn)[3 * 50 + 3], 5);
}

#[test]
fn roads_along_a_path_skip_walls_and_blocking_structures() {
    let mut p = planner_with_wall_at(xy(5, 5));
    p.plan_structure(xy(7, 5), ColonyStep::BuildLvl3, PlannedStructure::Tower).unwrap();
    p.plan_structure(xy(8, 5), ColonyStep::BuildSpawn, PlannedStructure::ContainerStorage).unwrap();
    p.plan_road_along(&vec![xy(4, 5), xy(5, 5), xy(6, 5), xy(7, 5), xy(8, 5)], ColonyStep::BuildSpawn);
    let plan = p.compile_steps();
    let mut roads = plan[0].new_roads.clone();
    roads.sort_by_key(|t| (t.x, t.y));
    assert_eq!(roads, vec![xy(4, 5), xy(6, 5), xy(8, 5)]);
    let costs = p.path_costs(ColonyStep::BuildSpawn);
    assert_eq!(costs[5 * 50 + 4], 5);
    assert_eq!(costs[5 * 50 + 8], 8);
}

#[test]
fn compile_groups_by_step() {
    let mut p = planner_with_wall_at(xy(5, 5));
    p.plan_structure(xy(10, 10), ColonyStep::BuildSpawn, PlannedStructure::MainSpawn).unwrap();
    p.plan_structure(xy(11, 10), ColonyStep::BuildLvl3, PlannedStructure::Tower).unwrap();
    p.plan_road(xy(12, 10), ColonyStep::BuildLvl3);
    let plan = p.compile_steps();
    assert_eq!(plan.len(), 18);
    assert_eq!(plan[0].new_structures, vec![(xy(10, 10), StructureKind::Spawn)]);
    assert_eq!(plan[6].new_structures, vec![(xy(11, 10), StructureKind::Tower)]);
    assert_eq!(plan[6].new_roads, vec![xy(12, 10)]);
    assert!(plan[1].new_roads.is_empty());
}

#[test]
fn structure_refs() {
    let mut p = planner_with_wall_at(xy(5, 5));
    assert_eq!(p.get_structure_ref(PlannedStructure::Storage), Err(PlanError::NotFound(PlannedStructure::Storage)));
    p.plan_structure(xy(20, 20), ColonyStep::BuildLvl4, PlannedStructure::Storage).unwrap();
    assert_eq!(p.get_structure_ref(PlannedStructure::Storage), Ok(xy(20, 20)));
    p.plan_structure(xy(21, 20), ColonyStep::BuildLvl3, PlannedStructure::Tower).unwrap();
    p.plan_structure(xy(22, 20), ColonyStep::BuildLvl5, PlannedStructure::Tower).unwrap();
    assert_eq!(p.get_structure_ref(PlannedStructure::Tower), Err(PlanError::NotUnique(PlannedStructure::Tower)));
    assert_eq!(p.get_structure_positions(PlannedStructure::Tower).len(), 2);
}
