use screeps_colony::colony::ColonyState;
use screeps_colony::colony_data::{choose_center, fallback_buffer, find_buffer, name_less, room_changes, ColonyData, ColonyRoomSight, SpawnSight};
use screeps_colony::plan_diff::GameStructure;
use screeps_colony::planner::{TerrainKind, ROOM_AREA};

fn pos(room_x: u32, room_y: u32, x: u32, y: u32) -> u32 {
    (room_x << 24) | (room_y << 16) | (x << 8) | y
}

fn room(room_x: u16, room_y: u16) -> u16 {
    (room_x << 8) | room_y
}

fn spawn(name: &str, p: u32) -> SpawnSight {
    SpawnSight { name: name.to_string(), pos: p }
}

fn plain() -> Vec<TerrainKind> {
    vec![TerrainKind::Plain; ROOM_AREA]
}

#[test]
fn names_compare_byte_by_byte() {
    assert!(name_less(&"Center10".to_string(), &"Center2".to_string()));
    assert!(!name_less(&"Center2".to_string(), &"Center10".to_string()));
    assert!(name_less(&"Cen".to_string(), &"Center".to_string()));
    assert!(!name_less(&"Center".to_string(), &"Center".to_string()));
}

#[test]
fn the_first_center_spawn_by_name_marks_the_center() {
    let sight = ColonyRoomSight {
        spawns: vec![spawn("Alpha", pos(130, 130, 1, 1)), spawn("Center2", pos(130, 130, 2, 2)), spawn("Center1", pos(130, 130, 3, 3))],
        buildings: vec![],
    };
    assert_eq!(choose_center(room(130, 130), &Some(sight), &vec![]), Some(pos(130, 130, 3, 3)));
}

#[test]
fn without_center_spawns_the_first_name_wins() {
    let sight = ColonyRoomSight {
        spawns: vec![spawn("b", pos(130, 130, 1, 1)), spawn("a", pos(130, 130, 2, 2))],
        buildings: vec![],
    };
    assert_eq!(choose_center(room(130, 130), &Some(sight), &vec![]), Some(pos(130, 130, 2, 2)));
}

#[test]
fn without_spawns_a_claim_flag_in_the_room_marks_the_center() {
    let flags = vec![pos(131, 130, 5, 5), pos(130, 130, 7, 8)];
    assert_eq!(choose_center(room(130, 130), &None, &flags), Some(pos(130, 130, 7, 8)));
    let empty = ColonyRoomSight { spawns: vec![], buildings: vec![] };
    assert_eq!(choose_center(room(130, 130), &Some(empty), &flags), Some(pos(130, 130, 7, 8)));
    assert_eq!(choose_center(room(129, 130), &None, &flags), None);
}

#[test]
fn a_storage_or_a_container_beside_the_center_is_the_buffer() {
    let center = pos(130, 130, 10, 10);
    let far_container = (pos(130, 130, 12, 10), GameStructure::Container);
    let near_container = (pos(130, 130, 11, 9), GameStructure::Container);
    let storage = (pos(130, 130, 20, 20), GameStructure::Storage);
    assert_eq!(find_buffer(&vec![far_container, near_container, storage], center), Some(pos(130, 130, 11, 9)));
    assert_eq!(find_buffer(&vec![far_container, storage], center), Some(pos(130, 130, 20, 20)));
    assert_eq!(find_buffer(&vec![far_container], center), None);
}

#[test]
fn the_fallback_buffer_turns_past_walls() {
    let center = pos(130, 130, 10, 10);
    assert_eq!(fallback_buffer(center, &plain()), Some(pos(130, 130, 11, 11)));
    let mut t = plain();
    t[11 * 50 + 11] = TerrainKind::Wall;
    t[11 * 50 + 9] = TerrainKind::Wall;
    assert_eq!(fallback_buffer(center, &t), Some(pos(130, 130, 9, 9)));
    t[9 * 50 + 9] = TerrainKind::Wall;
    t[9 * 50 + 11] = TerrainKind::Wall;
    assert_eq!(fallback_buffer(center, &t), None);
}

#[test]
fn the_fallback_buffer_may_cross_into_the_next_room() {
    let center = pos(130, 130, 49, 49);
    assert_eq!(fallback_buffer(center, &plain()), Some(pos(131, 131, 0, 0)));
}

#[test]
fn a_colony_is_built_from_its_room() {
    let center = pos(130, 130, 10, 10);
    let sight = ColonyRoomSight {
        spawns: vec![spawn("Center", center)],
        buildings: vec![(pos(130, 130, 9, 11), GameStructure::Container)],
    };
    let data = ColonyData::try_construct_from(room(130, 130), &Some(sight), &vec![], &plain()).unwrap();
    assert_eq!(data.room_name, room(130, 130));
    assert_eq!(data.center, center);
    assert_eq!(data.buffer_pos, pos(130, 130, 9, 11));
    assert_eq!(data.state, ColonyState::Unclaimed);
    assert!(ColonyData::try_construct_from(room(130, 130), &None, &vec![], &plain()).is_none());
}

#[test]
fn an_unseen_colony_takes_its_flag_and_a_free_diagonal() {
    let flag = pos(130, 130, 30, 30);
    let data = ColonyData::try_construct_from(room(130, 130), &None, &vec![flag], &plain()).unwrap();
    assert_eq!(data.center, flag);
    assert_eq!(data.buffer_pos, pos(130, 130, 31, 31));
}

#[test]
fn rooms_no_longer_owned_or_flagged_are_lost() {
    let c = room_changes(&vec![1, 2, 3], &vec![2, 4], &vec![4, 5]);
    let mut current = c.current.clone();
    current.sort();
    assert_eq!(current, vec![2, 4, 5]);
    assert_eq!(c.lost, vec![1, 3]);
}
