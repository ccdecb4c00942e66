use screeps_colony::claimer::{ClaimResult, ClaimerAction, ClaimerCreep};
use screeps_colony::commands::{Command, CommandQueue};
use screeps_colony::excavator::{EnergyDestination, ExcavatorCreep, ExcavatorError, PlannedSpot, PlannedState,
    SourcePlanView, SourceView};
use screeps_colony::flagship::{room_center, room_name, FlagshipCoordinator, FlagshipCreep, FlagshipError, RoomSight};
use screeps_colony::keyed::KeyedMap;
use screeps_colony::remote_builder::{BuildRequestView, RemoteBuilderCreep};
use screeps_colony::steps::Transition;
use screeps_colony::tug::{find_request, get_recycle_spawn, QuickCreepMessage, TugboatAction, TugboatCreep, TuggedCreep};
use screeps_colony::virtual_creep::{CreepSnapshot, IntentType, VirtualCreep, ENERGY};

fn pos(x: u32, y: u32) -> u32 {
    (128 << 24) | (128 << 16) | (x << 8) | y
}

fn creep(work_parts: u8, energy: u32, capacity: u32) -> VirtualCreep {
    let mut stored = KeyedMap::new();
    if energy > 0 {
        stored.insert(ENERGY as u64, energy);
    }
    VirtualCreep::new(CreepSnapshot { capacity, free_capacity: capacity - energy, stored, work_parts })
}

fn spot(x: u32, state: PlannedState) -> Option<PlannedSpot> {
    Some(PlannedSpot { pos: pos(x, 5), state })
}

fn plan(container: PlannedState, spawn: PlannedState, extensions: Vec<PlannedState>) -> SourcePlanView {
    SourcePlanView {
        spawn: spot(1, spawn),
        container: spot(2, container),
        link: None,
        extensions: extensions.into_iter().map(|s| PlannedSpot { pos: pos(3, 5), state: s }).collect(),
    }
}

#[test]
fn construction_sites_come_before_filling() {
    let p = plan(
        PlannedState::Built { id: 10, used: 0, free: 2000 },
        PlannedState::Built { id: 11, used: 0, free: 300 },
        vec![PlannedState::Nothing, PlannedState::Site { id: 12, progress: 0, progress_total: 3000 }],
    );
    assert_eq!(p.get_construction_site(), Some(EnergyDestination::ConstructionSite { id: 12, progress: 0, progress_total: 3000 }));
    assert_eq!(p.get_fill_target(), Some(EnergyDestination::Spawn { id: 11, free: 300 }));
    assert_eq!(p.get_energy_destination(), Some(EnergyDestination::ConstructionSite { id: 12, progress: 0, progress_total: 3000 }));
}

#[test]
fn full_structures_leave_the_container() {
    let p = plan(
        PlannedState::Built { id: 10, used: 0, free: 2000 },
        PlannedState::Built { id: 11, used: 300, free: 0 },
        vec![PlannedState::Built { id: 13, used: 50, free: 0 }],
    );
    assert_eq!(p.get_fill_target(), None);
    assert_eq!(p.get_energy_destination(), Some(EnergyDestination::Container { id: 10, free: 2000 }));
    assert!(EnergyDestination::Container { id: 10, free: 1 }.can_also_harvest());
    assert!(!EnergyDestination::ConstructionSite { id: 1, progress: 0, progress_total: 1 }.can_also_harvest());
}

#[test]
fn excavator_is_towed_onto_the_container() {
    let p = plan(PlannedState::Nothing, PlannedState::Nothing, vec![]);
    let mut c = creep(5, 0, 50);
    let step = ExcavatorCreep::Going.update(&mut c, pos(10, 10), SourceView { id: 1, energy: 3000 }, Some(&p)).unwrap();
    assert_eq!(step.transition, Transition::Break(ExcavatorCreep::Going));
    assert_eq!(step.tug_to, Some(pos(2, 5)));
    let step = ExcavatorCreep::Going.update(&mut c, pos(2, 5), SourceView { id: 1, energy: 3000 }, Some(&p)).unwrap();
    assert_eq!(step.transition, Transition::Continue(ExcavatorCreep::Mining));
    assert_eq!(ExcavatorCreep::Going.update(&mut c, pos(2, 5), SourceView { id: 1, energy: 3000 }, None), Err(ExcavatorError::NoPlan));
    let no_container = SourcePlanView { spawn: None, container: None, link: None, extensions: vec![] };
    assert_eq!(ExcavatorCreep::Going.update(&mut c, pos(2, 5), SourceView { id: 1, energy: 3000 }, Some(&no_container)),
        Err(ExcavatorError::NoContainer));
}

#[test]
fn excavator_tops_up_from_the_container() {
    let p = plan(PlannedState::Built { id: 10, used: 500, free: 1500 }, PlannedState::Nothing, vec![]);
    let mut c = creep(5, 0, 50);
    let step = ExcavatorCreep::Mining.update(&mut c, pos(2, 5), SourceView { id: 1, energy: 3000 }, Some(&p)).unwrap();
    assert_eq!(step.transition, Transition::Break(ExcavatorCreep::Mining));
    assert!(c.has_intent(IntentType::Harvest));
    assert!(c.has_intent(IntentType::Withdraw));
    // 10 harvested, topped up to the target of 50 - 10
    assert_eq!(c.next_used_energy_capacity(), 40);
}

#[test]
fn full_excavator_builds_and_stops_harvesting() {
    let p = plan(PlannedState::Site { id: 10, progress: 0, progress_total: 5000 }, PlannedState::Nothing, vec![]);
    let mut c = creep(5, 45, 50);
    let step = ExcavatorCreep::Mining.update(&mut c, pos(2, 5), SourceView { id: 1, energy: 3000 }, Some(&p)).unwrap();
    assert_eq!(step.transition, Transition::Break(ExcavatorCreep::Mining));
    assert!(!c.has_intent(IntentType::Harvest));
    assert!(c.has_intent(IntentType::Build));
}

#[test]
fn full_excavator_fills_the_spawn_while_harvesting() {
    let p = plan(PlannedState::Built { id: 10, used: 0, free: 2000 }, PlannedState::Built { id: 11, used: 0, free: 300 }, vec![]);
    let mut c = creep(5, 45, 50);
    ExcavatorCreep::Mining.update(&mut c, pos(2, 5), SourceView { id: 1, energy: 3000 }, Some(&p)).unwrap();
    assert!(c.has_intent(IntentType::Harvest));
    assert!(c.has_intent(IntentType::Transfer));
}

#[test]
fn excavator_with_nowhere_to_put_energy_stops_harvesting() {
    let p = plan(PlannedState::Built { id: 10, used: 2000, free: 0 }, PlannedState::Nothing, vec![]);
    let mut c = creep(5, 45, 50);
    let step = ExcavatorCreep::Mining.update(&mut c, pos(2, 5), SourceView { id: 1, energy: 3000 }, Some(&p)).unwrap();
    assert_eq!(step.transition, Transition::Break(ExcavatorCreep::Mining));
    assert!(!c.has_intent(IntentType::Harvest));
}

#[test]
fn claim_commands_add_rooms() {
    let mut q = CommandQueue::new();
    q.insert(Command::Claim { room: "W1N1".to_string() });
    q.insert(Command::DebugSpawn);
    q.insert(Command::Claim { room: "not a room".to_string() });
    let mut c = FlagshipCoordinator::new();
    c.update(&mut q, &KeyedMap::new());
    assert_eq!(c.rooms.len(), 1);
    assert!(q.pop_command(&Command::DebugSpawn));
    assert!(!q.pop_command(&Command::Claim { room: "W1N1".to_string() }));
}

#[test]
fn claimed_rooms_are_dropped() {
    let mut c = FlagshipCoordinator::new();
    c.claim_room(Some(7));
    c.claim_room(Some(8));
    let mut sights = KeyedMap::new();
    sights.insert(7, RoomSight::Controller { id: 1, pos: room_center(7), my: true, reserved: false });
    sights.insert(8, RoomSight::Controller { id: 2, pos: room_center(8), my: false, reserved: false });
    c.update(&mut CommandQueue::new(), &sights);
    assert_eq!(c.rooms.len(), 1);
    assert!(c.rooms.contains_key(8));
}

#[test]
fn flagship_goes_to_the_room_and_claims() {
    let mut c = FlagshipCoordinator::new();
    c.claim_room(Some(7));
    let mut f = creep(0, 0, 0);
    let step = FlagshipCreep::Idle.update(&mut f, pos(10, 10), &mut c, RoomSight::Unseen).unwrap();
    let claiming = FlagshipCreep::Claiming { room: 7, controller_pos: None };
    assert_eq!(step.transition, Transition::Continue(claiming));
    let step = claiming.update(&mut f, pos(10, 10), &mut c, RoomSight::Unseen).unwrap();
    assert_eq!(step.move_to, Some(room_center(7)));
    let controller = 7 * 65536 + 30 * 256 + 30;
    let sight = RoomSight::Controller { id: 99, pos: controller, my: false, reserved: false };
    let mut g = creep(0, 0, 0);
    let step = claiming.update(&mut g, controller + 1, &mut c, sight).unwrap();
    assert_eq!(step.transition, Transition::Continue(FlagshipCreep::Idle));
    assert!(g.has_intent(IntentType::ClaimController));
    assert_eq!(c.rooms.len(), 0);
}

#[test]
fn flagship_drops_rooms_without_controller() {
    let mut c = FlagshipCoordinator::new();
    c.claim_room(Some(7));
    let mut f = creep(0, 0, 0);
    let claiming = FlagshipCreep::Claiming { room: 7, controller_pos: None };
    assert_eq!(claiming.update(&mut f, pos(10, 10), &mut c, RoomSight::NoController), Err(FlagshipError::NoController(7)));
    assert_eq!(c.rooms.len(), 0);
}

#[test]
fn first_tow_request_counts() {
    let msgs = vec![QuickCreepMessage::TugMove, QuickCreepMessage::TuggedRequestMove { target: pos(5, 5), range: 1 },
        QuickCreepMessage::TuggedRequestMove { target: pos(9, 9), range: 0 }];
    assert_eq!(find_request(&msgs), Some((pos(5, 5), 1)));
}

#[test]
fn tugboat_pulls_towards_the_target() {
    let msgs = vec![QuickCreepMessage::TuggedRequestMove { target: pos(20, 20), range: 1 }];
    let d = TugboatCreep::Tugging { last_tug_tick: 0 }.update(pos(10, 10), pos(10, 11), &msgs, 7, 55, pos(1, 1));
    assert_eq!(d.action, TugboatAction::MoveAndPull { target: pos(20, 20) });
    assert_eq!(d.next, Transition::Break(TugboatCreep::Tugging { last_tug_tick: 7 }));
    let d = TugboatCreep::Tugging { last_tug_tick: 0 }.update(pos(20, 19), pos(20, 18), &msgs, 7, 55, pos(1, 1));
    assert_eq!(d.action, TugboatAction::StepAndPull { towards: pos(20, 18) });
    assert_eq!(d.next, Transition::Continue(TugboatCreep::Recycling(55)));
}

#[test]
fn idle_tugboat_recycles_after_five_ticks() {
    let d = TugboatCreep::Tugging { last_tug_tick: 10 }.update(pos(10, 10), pos(10, 11), &vec![], 14, 55, pos(1, 1));
    assert_eq!(d.next, Transition::Break(TugboatCreep::Tugging { last_tug_tick: 10 }));
    let d = TugboatCreep::Tugging { last_tug_tick: 10 }.update(pos(10, 10), pos(10, 11), &vec![], 15, 55, pos(1, 1));
    assert_eq!(d.next, Transition::Continue(TugboatCreep::Recycling(55)));
    let d = TugboatCreep::Recycling(55).update(pos(1, 2), pos(10, 11), &vec![], 15, 55, pos(1, 1));
    assert_eq!(d.action, TugboatAction::Recycle(55));
}

#[test]
fn recycle_spawn_prefers_the_path_then_the_center() {
    let spawns = vec![(1, pos(40, 40)), (2, pos(12, 12)), (3, pos(11, 11))];
    assert_eq!(get_recycle_spawn(true, Some(9), Some(8), &spawns, pos(10, 10)), 9);
    assert_eq!(get_recycle_spawn(false, Some(9), Some(8), &spawns, pos(10, 10)), 8);
    assert_eq!(get_recycle_spawn(false, None, None, &spawns, pos(10, 10)), 3);
}

#[test]
fn towed_creep_waits_for_its_tugboat() {
    let mut creeps = KeyedMap::new();
    let s = TuggedCreep::Requesting.update(pos(10, 10), None, &creeps, false);
    assert!(s.request_tugboat);
    let s = TuggedCreep::Requesting.update(pos(10, 10), Some(4), &creeps, false);
    assert_eq!(s.transition, Transition::Continue(TuggedCreep::WaitingFor { tugboat: 4 }));
    let s = TuggedCreep::WaitingFor { tugboat: 4 }.update(pos(10, 10), None, &creeps, false);
    assert_eq!(s.transition, Transition::Continue(TuggedCreep::Requesting));
    creeps.insert(4, pos(11, 11));
    let s = TuggedCreep::WaitingFor { tugboat: 4 }.update(pos(10, 10), None, &creeps, false);
    assert_eq!(s.transition, Transition::Continue(TuggedCreep::GettingTugged(4)));
    let s = TuggedCreep::GettingTugged(4).update(pos(10, 10), None, &creeps, true);
    assert_eq!(s.follow, Some(4));
    assert!(!TuggedCreep::GettingTugged(4).is_finished());
}

#[test]
fn claimer_claims_once_next_to_the_controller() {
    let d = ClaimerCreep::Idle.update(pos(1, 1), &vec![pos(20, 20)], None, None).unwrap();
    assert_eq!(d.next, ClaimerCreep::GoingTo(pos(20, 20)));
    let d = ClaimerCreep::GoingTo(pos(20, 20)).update(pos(1, 1), &vec![], Some(5), None).unwrap();
    assert_eq!(d.next, ClaimerCreep::Claiming(pos(20, 20), 5));
    let d = ClaimerCreep::Claiming(pos(20, 20), 5).update(pos(21, 21), &vec![], None, Some(pos(22, 22))).unwrap();
    assert_eq!(d.action, ClaimerAction::Claim(5));
    assert_eq!(ClaimerCreep::Claiming(pos(20, 20), 5).update(pos(21, 21), &vec![], None, None), Err(()));
    let f = ClaimerCreep::Claiming(pos(20, 20), 5).after_claim(ClaimResult::InvalidTarget);
    assert!(f.attack && !f.drop_request);
    let f = ClaimerCreep::Claiming(pos(20, 20), 5).after_claim(ClaimResult::Claimed);
    assert_eq!(f.next, ClaimerCreep::Idle);
    assert!(f.drop_request);
}

#[test]
fn remote_builder_refills_then_builds() {
    let d = RemoteBuilderCreep::Idle.update(pos(1, 1), 0, Some(pos(30, 30)), None, None).unwrap();
    assert_eq!(d.transition, Transition::Continue(RemoteBuilderCreep::Refilling));
    assert_eq!(RemoteBuilderCreep::Refilling.update(pos(1, 1), 0, None, None, None), Err(()));
    let d = RemoteBuilderCreep::Refilling.update(pos(1, 1), 0, Some(pos(30, 30)), Some((8, pos(2, 2))), None).unwrap();
    assert_eq!(d.withdraw_from, Some(8));
    assert_eq!(d.transition, Transition::Continue(RemoteBuilderCreep::Building(pos(30, 30))));
    let req = BuildRequestView { pos: pos(30, 30), site: Some(77) };
    let d = RemoteBuilderCreep::Building(pos(30, 30)).update(pos(28, 28), 50, None, None, Some(req)).unwrap();
    assert_eq!(d.build, Some(77));
    assert_eq!(d.move_to, Some(pos(30, 30)));
    let gone = BuildRequestView { pos: pos(30, 30), site: None };
    let d = RemoteBuilderCreep::Building(pos(30, 30)).update(pos(29, 29), 50, None, None, Some(gone)).unwrap();
    assert_eq!(d.transition, Transition::Continue(RemoteBuilderCreep::Idle));
}

#[test]
fn room_names_are_read_without_signs() {
    assert_eq!(room_name(&"W1N1".to_string()), Some(126 * 256 + 126));
    assert_eq!(room_name(&"E0S0".to_string()), Some(128 * 256 + 128));
    assert_eq!(room_name(&"not a room".to_string()), None);
    assert_eq!(room_name(&"W-2147483648N0".to_string()), None);
    assert_eq!(room_name(&"E-1N0".to_string()), None);
}
