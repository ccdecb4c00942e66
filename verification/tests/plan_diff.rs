use screeps_colony::keyed::KeyedMap;
use screeps_colony::plan_diff::{ColonyPlan, GameStructure, RoadDiff, StructureDiff};
use screeps_colony::planner::{RoomXY, StepPlan, StructureKind};
use screeps::StructureType as T;

fn xy(x: u8, y: u8) -> RoomXY {
    RoomXY { x, y }
}

fn key(x: u8, y: u8) -> u64 {
    x as u64 * 256 + y as u64
}

fn plan() -> ColonyPlan {
    ColonyPlan {
        steps: vec![
            StepPlan { new_roads: vec![xy(1, 1)], new_structures: vec![(xy(5, 5), StructureKind::Spawn)] },
            StepPlan { new_roads: vec![xy(2, 2)], new_structures: vec![(xy(6, 6), StructureKind::Extension)] },
        ],
    }
}

fn room() -> (KeyedMap<bool>, KeyedMap<(GameStructure, bool)>) {
    let mut roads = KeyedMap::new();
    roads.insert(key(2, 2), true);
    roads.insert(key(3, 3), false);
    let mut structures = KeyedMap::new();
    structures.insert(key(5, 5), (GameStructure::Spawn, true));
    structures.insert(key(6, 6), (GameStructure::Tower, false));
    structures.insert(key(7, 7), (GameStructure::Controller, true));
    structures.insert(key(8, 8), (GameStructure::Wall, true));
    (roads, structures)
}

#[test]
fn diff_finds_missing_extra_and_different() {
    let (roads, structures) = room();
    let d = plan().diff_with(&roads, &structures);
    assert_eq!(d.roads.len(), 2);
    assert_eq!(d.roads.get(key(1, 1)), Some(&RoadDiff::Missing));
    assert_eq!(d.roads.get(key(3, 3)), Some(&RoadDiff::Extra));
    assert_eq!(d.roads.get(key(2, 2)), None);
    assert_eq!(d.structures.len(), 2);
    assert_eq!(
        d.structures.get(key(6, 6)),
        Some(&StructureDiff::Different { expected: GameStructure::Extension, found: GameStructure::Tower })
    );
    assert_eq!(d.structures.get(key(8, 8)), Some(&StructureDiff::Extra(GameStructure::Wall)));
    assert_eq!(d.structures.get(key(7, 7)), None);
    assert_eq!(d.structures.get(key(5, 5)), None);
    assert!(!d.compatible());
}

#[test]
fn an_empty_room_only_misses_things() {
    let d = plan().diff_with(&KeyedMap::new(), &KeyedMap::new());
    assert_eq!(d.roads.len(), 2);
    assert_eq!(d.structures.get(key(5, 5)), Some(&StructureDiff::Missing(GameStructure::Spawn)));
    assert!(d.compatible());
    assert_eq!(d.get_removal_losses().len(), 0);
    assert_eq!(d.migrate(), vec![]);
}

#[test]
fn removal_losses_by_tile() {
    let (roads, structures) = room();
    let d = plan().diff_with(&roads, &structures);
    let losses = d.get_removal_losses();
    assert_eq!(losses.len(), 3);
    assert_eq!(losses.get(key(3, 3)), Some(&300));
    assert_eq!(losses.get(key(6, 6)), Some(&5_000));
    assert_eq!(losses.get(key(8, 8)), Some(&300_000_000));
}

#[test]
fn losses_on_one_tile_add_up() {
    let mut roads = KeyedMap::new();
    roads.insert(key(9, 9), true);
    let mut structures = KeyedMap::new();
    structures.insert(key(9, 9), (GameStructure::Lab, true));
    structures.insert(key(10, 10), (GameStructure::Portal, true));
    let d = ColonyPlan { steps: vec![] }.diff_with(&roads, &structures);
    let losses = d.get_removal_losses();
    assert_eq!(losses.get(key(9, 9)), Some(&50_300));
    assert_eq!(losses.get(key(10, 10)), Some(&0));
}

#[test]
fn migrate_tears_down_roads_then_structures() {
    let (roads, structures) = room();
    let d = plan().diff_with(&roads, &structures);
    assert_eq!(
        d.migrate(),
        vec![(xy(3, 3), GameStructure::Road), (xy(6, 6), GameStructure::Tower), (xy(8, 8), GameStructure::Wall)]
    );
}

#[test]
fn building_a_step_asks_for_what_is_missing() {
    let step = StepPlan {
        new_roads: vec![xy(1, 1), xy(2, 2)],
        new_structures: vec![(xy(5, 5), StructureKind::Spawn), (xy(6, 6), StructureKind::Extension), (xy(7, 7), StructureKind::Tower)],
    };
    let mut roads = KeyedMap::new();
    roads.insert(key(2, 2), false);
    let mut structures = KeyedMap::new();
    structures.insert(key(5, 5), (GameStructure::Spawn, true));
    structures.insert(key(6, 6), (GameStructure::Tower, true));
    let b = step.build(&roads, &structures);
    assert_eq!(b.roads, vec![xy(1, 1)]);
    assert_eq!(b.structures, vec![(xy(6, 6), StructureKind::Extension), (xy(7, 7), StructureKind::Tower)]);
    assert!(b.overlap);
    assert!(!b.finished);
}

#[test]
fn a_built_step_is_finished() {
    let step = StepPlan { new_roads: vec![xy(2, 2)], new_structures: vec![(xy(5, 5), StructureKind::Spawn)] };
    let mut roads = KeyedMap::new();
    roads.insert(key(2, 2), true);
    let mut structures = KeyedMap::new();
    structures.insert(key(5, 5), (GameStructure::Spawn, true));
    let b = step.build(&roads, &structures);
    assert_eq!(b.roads, vec![]);
    assert_eq!(b.structures, vec![]);
    assert!(!b.overlap);
    assert!(b.finished);
}

fn game_type(s: GameStructure) -> screeps::StructureType {
    match s {
        GameStructure::Spawn => T::Spawn,
        GameStructure::Extension => T::Extension,
        GameStructure::Road => T::Road,
        GameStructure::Wall => T::Wall,
        GameStructure::Rampart => T::Rampart,
        GameStructure::KeeperLair => T::KeeperLair,
        GameStructure::Portal => T::Portal,
        GameStructure::Controller => T::Controller,
        GameStructure::Link => T::Link,
        GameStructure::Storage => T::Storage,
        GameStructure::Tower => T::Tower,
        GameStructure::Observer => T::Observer,
        GameStructure::PowerBank => T::PowerBank,
        GameStructure::PowerSpawn => T::PowerSpawn,
        GameStructure::Extractor => T::Extractor,
        GameStructure::Lab => T::Lab,
        GameStructure::Terminal => T::Terminal,
        GameStructure::Container => T::Container,
        GameStructure::Nuker => T::Nuker,
        GameStructure::Factory => T::Factory,
        GameStructure::InvaderCore => T::InvaderCore,
    }
}

#[test]
fn construction_costs_agree_with_the_game_constants() {
    let all = [
        GameStructure::Spawn, GameStructure::Extension, GameStructure::Road, GameStructure::Wall,
        GameStructure::Rampart, GameStructure::KeeperLair, GameStructure::Portal, GameStructure::Controller,
        GameStructure::Link, GameStructure::Storage, GameStructure::Tower, GameStructure::Observer,
        GameStructure::PowerBank, GameStructure::PowerSpawn, GameStructure::Extractor, GameStructure::Lab,
        GameStructure::Terminal, GameStructure::Container, GameStructure::Nuker, GameStructure::Factory,
        GameStructure::InvaderCore,
    ];
    for s in all {
        assert_eq!(s.construction_cost(), game_type(s).construction_cost());
    }
}
