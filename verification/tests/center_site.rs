use screeps_colony::center_site::{center_candidates, is_center_flag, pick_center};
use screeps_colony::planner::{RoomXY, TerrainKind, ROOM_AREA};

fn xy(x: u8, y: u8) -> RoomXY {
    RoomXY { x, y }
}

#[test]
fn center_flags_are_named_so_in_any_case() {
    assert!(is_center_flag(&"MyCenter".to_string()));
    assert!(is_center_flag(&"CENTER1".to_string()));
    assert!(is_center_flag(&"center".to_string()));
    assert!(!is_center_flag(&"cent".to_string()));
    assert!(!is_center_flag(&"Centre".to_string()));
}

#[test]
fn the_cheapest_candidate_wins_and_the_first_among_equals() {
    let c = vec![xy(1, 1), xy(2, 2), xy(3, 3)];
    assert_eq!(pick_center(&c, &vec![5, 3, 3]), Some(xy(2, 2)));
    assert_eq!(pick_center(&c, &vec![1, 3, 3]), Some(xy(1, 1)));
    assert_eq!(pick_center(&vec![], &vec![]), None);
}

#[test]
fn candidates_are_far_from_walls_and_spread_out() {
    let mut t = vec![TerrainKind::Wall; ROOM_AREA];
    for y in 10..13 {
        for x in 10..13 {
            t[y * 50 + x] = TerrainKind::Plain;
        }
    }
    let c = center_candidates(&t, vec![]);
    assert_eq!(c, vec![xy(11, 11), xy(10, 10), xy(0, 0), xy(5, 0), xy(10, 0)]);
}

#[test]
fn tiles_near_exits_count_as_walls() {
    let mut t = vec![TerrainKind::Plain; ROOM_AREA];
    for i in 0..50 {
        t[i] = TerrainKind::Wall;
        t[49 * 50 + i] = TerrainKind::Wall;
        t[i * 50] = TerrainKind::Wall;
        t[i * 50 + 49] = TerrainKind::Wall;
    }
    let c = center_candidates(&t, vec![]);
    assert_eq!(c.len(), 5);
    assert_eq!(c[0], xy(24, 24));
    t[25 * 50] = TerrainKind::Plain;
    let c2 = center_candidates(&t, vec![xy(0, 25)]);
    assert!(c2[0].x > 24);
}
