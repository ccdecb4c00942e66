use screeps_colony::creep_roles::{choose_home, creeps_to_recover, keep_recovered, recover_creep_data, recover_role, role_word, CreepData, CreepRole, HomeSight, RoleWord};
use screeps_colony::keyed::KeyedMap;
use screeps_colony::excavator::ExcavatorCreep;
use screeps_colony::truck::import::ImportTruckState;

fn pos(room_x: u32, room_y: u32, x: u32, y: u32) -> u32 {
    (room_x << 24) | (room_y << 16) | (x << 8) | y
}

#[test]
fn the_first_word_of_a_name_gives_the_role() {
    assert_eq!(role_word(&"Truck 12".to_string()), Some(RoleWord::Truck));
    assert_eq!(role_word(&"  ImportTruck\\t3".to_string()), Some(RoleWord::Other));
    assert_eq!(role_word(&"  ImportTruck\t3".to_string()), Some(RoleWord::ImportTruck));
    assert_eq!(role_word(&"Excavator".to_string()), Some(RoleWord::Excavator));
    assert_eq!(role_word(&"Trucker 1".to_string()), Some(RoleWord::Other));
    assert_eq!(role_word(&"   ".to_string()), None);
    assert_eq!(role_word(&"".to_string()), None);
}

#[test]
fn recovered_roles_start_over() {
    match recover_role(RoleWord::ImportTruck, true, None, 5) {
        Some(CreepRole::ImportTruck(s)) => assert_eq!(s, ImportTruckState::GoingHome),
        _ => panic!("an import truck"),
    }
    match recover_role(RoleWord::Excavator, false, Some(9), 5) {
        Some(CreepRole::Excavator(s, source)) => {
            assert_eq!(s, ExcavatorCreep::Going);
            assert_eq!(source, 9);
        }
        _ => panic!("an excavator"),
    }
    assert!(recover_role(RoleWord::Excavator, false, None, 5).is_none());
    assert!(matches!(recover_role(RoleWord::Other, false, None, 5), Some(CreepRole::Scrap(5))));
    assert_eq!(CreepRole::Scrap(5).prefix(), "Scrap");
}

#[test]
fn a_creep_goes_home_to_its_room_or_the_nearest_colony() {
    let colonies = vec![
        HomeSight { room: (130 << 8) | 130, center: pos(130, 130, 25, 25), spawn_complete: true },
        HomeSight { room: (131 << 8) | 130, center: pos(131, 130, 25, 25), spawn_complete: false },
        HomeSight { room: (132 << 8) | 130, center: pos(132, 130, 25, 25), spawn_complete: true },
    ];
    assert_eq!(choose_home(&colonies, pos(132, 130, 1, 1)), Some(2));
    assert_eq!(choose_home(&colonies, pos(131, 130, 40, 25)), Some(2));
    assert_eq!(choose_home(&colonies, pos(131, 130, 5, 25)), Some(0));
    let none = vec![HomeSight { room: 1, center: pos(0, 1, 5, 5), spawn_complete: false }];
    assert_eq!(choose_home(&none, pos(0, 1, 6, 6)), None);
}

fn home_pos(room: u16, x: u32, y: u32) -> u32 {
    ((room as u32) << 16) | (x << 8) | y
}

#[test]
fn lost_creep_data_is_recovered_from_home_and_name() {
    let colonies = vec![
        HomeSight { room: 0x8080, center: home_pos(0x8080, 25, 25), spawn_complete: true },
        HomeSight { room: 0x8180, center: home_pos(0x8180, 25, 25), spawn_complete: false },
    ];
    let recycle = vec![41, 42];
    // a truck standing in the second colony's room, whose spawn is not built, goes home to the first
    let d = recover_creep_data(&colonies, home_pos(0x8180, 10, 10), Some(RoleWord::Truck), false, None, &recycle).unwrap();
    assert_eq!(d.home, 0x8080);
    assert!(matches!(d.role, CreepRole::Truck(_)));
    let d = recover_creep_data(&colonies, home_pos(0x8080, 10, 10), Some(RoleWord::Other), false, None, &recycle).unwrap();
    assert!(matches!(d.role, CreepRole::Scrap(41)));
    assert!(recover_creep_data(&colonies, home_pos(0x8080, 10, 10), None, false, None, &recycle).is_none());
    assert!(recover_creep_data(&colonies, home_pos(0x8080, 10, 10), Some(RoleWord::Excavator), false, None, &recycle).is_none());
}

#[test]
fn creep_data_is_kept_and_only_missing_data_is_recovered() {
    let mut known: KeyedMap<CreepData> = KeyedMap::new();
    known.insert(1, CreepData { role: CreepRole::Scrap(5), home: 7 });
    let live = vec![(1, false), (2, false), (3, true), (4, false)];
    assert_eq!(creeps_to_recover(&known, &live), vec![2, 4]);
    keep_recovered(
        &mut known,
        vec![
            (1, Some(CreepData { role: CreepRole::Scrap(6), home: 8 })),
            (2, Some(CreepData { role: CreepRole::Scrap(9), home: 7 })),
            (4, None),
        ],
    );
    assert_eq!(known.len(), 2);
    assert_eq!(known.get(1).unwrap().home, 7);
    assert!(matches!(known.get(2).unwrap().role, CreepRole::Scrap(9)));
    assert!(known.get(4).is_none());
}
