use screeps_colony::center::{choose_tower, plan_center_core, plan_extensions_towers_observer, range_xy, CenterPlanner};
use screeps_colony::floodfill::{step_towards, FloodFill, Spread};
use screeps_colony::planner::{ColonyPlanner, PlanError, PlannedStructure, RoomXY, TerrainKind, ROOM_AREA};
use screeps_colony::steps::ColonyStep;

fn xy(x: u8, y: u8) -> RoomXY {
    RoomXY { x, y }
}

fn plain() -> Vec<TerrainKind> {
    vec![TerrainKind::Plain; ROOM_AREA]
}

#[test]
fn steps_stay_inside_the_room() {
    assert_eq!(step_towards(xy(0, 0), 0), None);
    assert_eq!(step_towards(xy(0, 0), 3), Some(xy(1, 1)));
    assert_eq!(step_towards(xy(49, 10), 2), None);
    assert_eq!(step_towards(xy(10, 10), 7), Some(xy(9, 9)));
}

#[test]
fn orthogonal_fill_goes_top_right_bottom_left() {
    let mut f = FloodFill::new(vec![xy(25, 25)], plain(), Spread::Orthogonal);
    assert_eq!(f.next(), Some((0, xy(25, 25))));
    assert_eq!(f.next(), Some((1, xy(25, 24))));
    assert_eq!(f.next(), Some((1, xy(26, 25))));
    assert_eq!(f.next(), Some((1, xy(25, 26))));
    assert_eq!(f.next(), Some((1, xy(24, 25))));
    assert_eq!(f.next(), Some((2, xy(25, 23))));
}

#[test]
fn fill_stops_at_walls() {
    let mut terrain = vec![TerrainKind::Wall; ROOM_AREA];
    for x in 10..13 {
        terrain[10 * 50 + x] = TerrainKind::Plain;
    }
    let mut f = FloodFill::new(vec![xy(10, 10)], terrain, Spread::Walkable);
    let mut seen = Vec::new();
    while let Some(e) = f.next() {
        seen.push(e);
    }
    assert_eq!(seen, vec![(0, xy(10, 10)), (1, xy(11, 10)), (2, xy(12, 10))]);
}

#[test]
fn star_fill_keeps_to_the_pattern() {
    let mut f = FloodFill::new(vec![xy(25, 25)], plain(), Spread::Star { center: xy(25, 25) });
    assert_eq!(f.next(), Some((0, xy(25, 25))));
    // distance 2 along the axes together, or 4 with odd x distance, around the center
    let mut count = 0;
    while let Some((d, p)) = f.next() {
        let dx = (p.x as i32 - 25).abs();
        let dy = (p.y as i32 - 25).abs();
        assert!((dx + dy) % 4 == 2 || ((dx + dy) % 4 == 0 && dx % 2 == 1));
        assert!(d >= 1);
        count += 1;
        if count > 20 {
            break;
        }
    }
    assert!(count > 0);
}

#[test]
fn center_tiles_come_diagonally() {
    let planner = ColonyPlanner::new(plain());
    let mut c = CenterPlanner::new(&planner, xy(25, 25));
    assert_eq!(c.next_structure_pos(&planner, ColonyStep::BuildSpawn), Ok(xy(25, 25)));
    assert_eq!(c.next_structure_pos(&planner, ColonyStep::BuildSpawn), Ok(xy(26, 24)));
    assert_eq!(c.next_structure_pos(&planner, ColonyStep::BuildSpawn), Ok(xy(26, 26)));
}

#[test]
fn center_skips_planned_tiles_and_runs_out() {
    let mut terrain = vec![TerrainKind::Wall; ROOM_AREA];
    terrain[25 * 50 + 25] = TerrainKind::Plain;
    terrain[24 * 50 + 26] = TerrainKind::Plain;
    let mut planner = ColonyPlanner::new(terrain);
    planner.plan_structure(xy(25, 25), ColonyStep::BuildLvl4, PlannedStructure::Storage).unwrap();
    let mut c = CenterPlanner::new(&planner, xy(25, 25));
    assert_eq!(c.next_structure_pos(&planner, ColonyStep::BuildSpawn), Ok(xy(26, 24)));
    assert_eq!(c.next_structure_pos(&planner, ColonyStep::BuildSpawn), Err(PlanError::NoCenterSpace));
}

#[test]
fn roads_wanted_three_times_are_planned_from_the_third_step() {
    let mut planner = ColonyPlanner::new(plain());
    let mut c = CenterPlanner::new(&planner, xy(25, 25));
    c.plan_structure(&mut planner, ColonyStep::BuildLvl4, PlannedStructure::Storage).unwrap();
    c.plan_structure(&mut planner, ColonyStep::BuildSpawn, PlannedStructure::MainSpawn).unwrap();
    c.plan_structure(&mut planner, ColonyStep::BuildLvl6, PlannedStructure::Terminal).unwrap();
    c.plan_structure(&mut planner, ColonyStep::BuildLvl5, PlannedStructure::CentralLink).unwrap();
    // (26,25) is wanted from the spawn, level 4 and level 6 steps; (25,26) from levels 4, 5 and 6;
    // every other tile by fewer than three structures
    c.plan_roads(&mut planner);
    let steps = planner.compile_steps();
    let lvl6: Vec<RoomXY> = steps[ColonyStep::BuildLvl6.index() as usize].new_roads.clone();
    assert!(lvl6.contains(&xy(26, 25)));
    assert!(lvl6.contains(&xy(25, 26)));
    let all_roads: usize = steps.iter().map(|s| s.new_roads.len()).sum();
    assert_eq!(all_roads, 2);
}

#[test]
fn towers_go_far_from_other_towers() {
    assert_eq!(range_xy(xy(1, 1), xy(4, 3)), 3);
    let available = vec![xy(10, 10), xy(20, 20), xy(30, 10), xy(10, 30)];
    assert_eq!(choose_tower(&available, &vec![xy(10, 30), xy(30, 10)]), 0);
    // ties go to the last tile by y, then by x
    assert_eq!(choose_tower(&available, &vec![xy(10, 10)]), 3);
    assert_eq!(choose_tower(&available, &vec![xy(10, 30)]), 2);
}

#[test]
fn every_level_gets_its_extensions_and_towers() {
    let mut planner = ColonyPlanner::new(plain());
    let mut c = CenterPlanner::new(&planner, xy(25, 25));
    plan_extensions_towers_observer(&mut planner, &mut c).unwrap();
    assert_eq!(planner.get_structure_positions(PlannedStructure::Extension).len(), 60);
    assert_eq!(planner.get_structure_positions(PlannedStructure::Tower).len(), 6);
    assert_eq!(planner.get_structure_positions(PlannedStructure::Observer).len(), 1);
    assert_eq!(planner.count_left_for(PlannedStructure::Extension, ColonyStep::BuildLvl2), 0);
    assert_eq!(planner.count_left_for(PlannedStructure::Tower, ColonyStep::BuildLvl8), 0);
}

#[test]
fn the_center_core_is_planned_around_the_center() {
    let mut p = ColonyPlanner::new(plain());
    let c = plan_center_core(&mut p, xy(25, 25));
    assert!(c.is_ok());
    assert_eq!(p.structure_at(xy(26, 25)), Some((PlannedStructure::ContainerStorage, ColonyStep::BuildBufferAndSourceContainers)));
    let mut kinds = Vec::new();
    for y in 20..31 {
        for x in 20..31 {
            if let Some((s, _)) = p.structure_at(xy(x, y)) {
                kinds.push(s);
            }
        }
    }
    for s in [PlannedStructure::Storage, PlannedStructure::MainSpawn, PlannedStructure::CentralLink, PlannedStructure::Terminal, PlannedStructure::Tower] {
        assert!(kinds.contains(&s));
    }
}

#[test]
fn a_wall_at_the_center_refuses_the_first_extension() {
    let mut terrain = plain();
    terrain[25 * 50 + 25] = TerrainKind::Wall;
    let mut planner = ColonyPlanner::new(terrain);
    let mut c = CenterPlanner::new(&planner, xy(25, 25));
    assert_eq!(
        plan_extensions_towers_observer(&mut planner, &mut c),
        Err(PlanError::OnWall(PlannedStructure::Extension))
    );
}

#[test]
fn a_center_without_room_runs_out_of_tiles() {
    let mut terrain = vec![TerrainKind::Wall; ROOM_AREA];
    terrain[25 * 50 + 25] = TerrainKind::Plain;
    terrain[24 * 50 + 24] = TerrainKind::Plain;
    let mut planner = ColonyPlanner::new(terrain);
    let mut c = CenterPlanner::new(&planner, xy(25, 25));
    assert_eq!(plan_extensions_towers_observer(&mut planner, &mut c), Err(PlanError::NoCenterSpace));
    assert!(planner.get_structure_positions(PlannedStructure::Extension).is_empty());
}

#[test]
fn a_second_observer_is_refused() {
    let mut planner = ColonyPlanner::new(plain());
    planner.plan_structure(xy(5, 5), ColonyStep::BuildLvl8, PlannedStructure::Observer).unwrap();
    let mut c = CenterPlanner::new(&planner, xy(25, 25));
    assert_eq!(
        plan_extensions_towers_observer(&mut planner, &mut c),
        Err(PlanError::NoneLeft(PlannedStructure::Observer, ColonyStep::BuildLvl8))
    );
    assert_eq!(planner.get_structure_positions(PlannedStructure::Extension).len(), 50);
}
