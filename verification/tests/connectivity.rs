use screeps_colony::connectivity::{connect_plan, connect_step, new_network};
use screeps_colony::planner::{ColonyPlanner, PlannedStructure, RoomXY, TerrainKind, ROOM_AREA};
use screeps_colony::steps::ColonyStep;

fn xy(x: u8, y: u8) -> RoomXY {
    RoomXY { x, y }
}

fn planner() -> ColonyPlanner {
    ColonyPlanner::new(vec![TerrainKind::Plain; ROOM_AREA])
}

#[test]
fn unjoined_roads_and_untouched_structures_ask_for_roads() {
    let mut p = planner();
    let center = xy(10, 10);
    p.plan_road(xy(20, 20), ColonyStep::BuildSpawn);
    p.plan_road(xy(11, 11), ColonyStep::BuildSpawn);
    p.plan_road(xy(40, 40), ColonyStep::BuildLvl2);
    p.plan_structure(xy(30, 30), ColonyStep::BuildSpawn, PlannedStructure::MainSpawn).unwrap();
    p.plan_structure(xy(21, 21), ColonyStep::BuildSpawn, PlannedStructure::ContainerStorage).unwrap();
    let mut n = new_network(center);
    let c = connect_step(&mut n, &p, center, ColonyStep::BuildSpawn).ok().unwrap();
    assert_eq!(c.roads, vec![xy(20, 20)]);
    assert_eq!(c.structures, vec![xy(30, 30)]);
    let c = connect_step(&mut n, &p, center, ColonyStep::BuildLvl2).ok().unwrap();
    assert_eq!(c.roads, vec![xy(40, 40)]);
    assert_eq!(c.structures, vec![]);
}

#[test]
fn a_road_already_in_the_network_fails() {
    let mut p = planner();
    let center = xy(10, 10);
    p.plan_road(center, ColonyStep::BuildSpawn);
    let mut n = new_network(center);
    assert_eq!(connect_step(&mut n, &p, center, ColonyStep::BuildSpawn).err(), Some(center));
}

#[test]
fn roads_joined_through_each_other_need_no_road() {
    let mut p = planner();
    let center = xy(10, 10);
    for x in 11..15 {
        p.plan_road(xy(x, 10), ColonyStep::BuildArterialRoads);
    }
    let mut n = new_network(center);
    let c = connect_step(&mut n, &p, center, ColonyStep::BuildArterialRoads).ok().unwrap();
    assert_eq!(c.roads, vec![]);
}

/// The tiles from `a` (left out) to `b` along the row of `a`, then the column of `b`.
fn l_path(_costs: Vec<u8>, a: RoomXY, b: RoomXY) -> Vec<RoomXY> {
    let mut path = Vec::new();
    let (mut x, mut y) = (a.x, a.y);
    while x != b.x {
        if x < b.x { x += 1 } else { x -= 1 }
        path.push(xy(x, y));
    }
    while y != b.y {
        if y < b.y { y += 1 } else { y -= 1 }
        path.push(xy(x, y));
    }
    path
}

#[test]
fn connecting_a_plan_lays_roads_from_the_center() {
    let mut p = planner();
    let center = xy(10, 10);
    p.plan_structure(xy(15, 10), ColonyStep::BuildSpawn, PlannedStructure::MainSpawn).unwrap();
    p.plan_road(xy(10, 20), ColonyStep::BuildLvl2);
    assert_eq!(connect_plan(&mut p, center, l_path), Ok(()));
    // the road to the spawn stops short of it
    assert_eq!(p.road_at(xy(14, 10)), Some(ColonyStep::BuildSpawn));
    assert_eq!(p.road_at(xy(11, 10)), Some(ColonyStep::BuildSpawn));
    assert_eq!(p.road_at(xy(15, 10)), None);
    // the lone road gets one from the center at its own step
    assert_eq!(p.road_at(xy(10, 15)), Some(ColonyStep::BuildLvl2));
}

#[test]
fn connecting_a_plan_with_the_center_as_a_road_fails() {
    let mut p = planner();
    let center = xy(10, 10);
    p.plan_road(center, ColonyStep::BuildSpawn);
    assert_eq!(connect_plan(&mut p, center, l_path), Err(center));
}
