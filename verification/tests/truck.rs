use screeps_colony::coordination::collaboration::RemainingWork;
use screeps_colony::keyed::KeyedMap;
use screeps_colony::steps::Transition;
use screeps_colony::truck::builders::{ConsumerStop, ConsumerTaskPriority, ConsumerTasksBuilder, ConsumerTasksGroupConfig,
    ProviderStop, ProviderTaskData, ProviderTasksBuilder, ProviderTasksGroupConfig};
use screeps_colony::truck::coordinator::{unlinked_source_containers, SourceLinkState, TruckCoordinator, TruckTask};
use screeps_colony::truck::state::{BufferView, StopKind, StopView, TruckCreep};
use screeps_colony::virtual_creep::{CreepSnapshot, IntentType, VirtualCreep, ENERGY};

fn pos(x: u32, y: u32) -> u32 {
    (128 << 24) | (128 << 16) | (x << 8) | y
}

fn truck(free: u32, energy: u32) -> VirtualCreep {
    let mut stored = KeyedMap::new();
    if energy > 0 {
        stored.insert(ENERGY as u64, energy);
    }
    VirtualCreep::new(CreepSnapshot { capacity: free + energy, free_capacity: free, stored, work_parts: 0 })
}

fn pstop(id: u64, energy: u32) -> ProviderStop {
    ProviderStop { id, energy }
}

fn cstop(id: u64, used: u32, capacity: u32) -> ConsumerStop {
    ConsumerStop { id, used, free: capacity - used, capacity }
}

#[test]
fn provider_groups_get_falling_priorities() {
    let mut b = ProviderTasksBuilder::new();
    b.add_next_priority_group(vec![pstop(1, 100)], ProviderTasksGroupConfig::new().push_amount(0));
    b.add_next_priority_group(vec![pstop(2, 200), pstop(3, 300)], ProviderTasksGroupConfig::new());
    b.add_next_priority_group(vec![pstop(4, 15000)], ProviderTasksGroupConfig::new().min_leave(10000));
    let tasks = b.build();
    let flat: Vec<(u64, u32, Option<u32>, u32)> = tasks.iter().map(|(k, (d, w))| (*k, d.priority, d.push_amount, w.0)).collect();
    assert_eq!(flat, vec![(4, 0, None, 5000), (2, 1, None, 200), (3, 1, None, 300), (1, 2, Some(0), 100)]);
}

#[test]
fn min_leave_never_goes_below_zero() {
    let mut b = ProviderTasksBuilder::new();
    b.add_next_priority_group(vec![pstop(4, 500)], ProviderTasksGroupConfig::new().min_leave(10000));
    let tasks = b.build();
    assert_eq!(tasks[0].1 .1 .0, 0);
}

#[test]
fn consumer_groups_filter_by_fullness() {
    let mut b = ConsumerTasksBuilder::new();
    b.add_next_priority_group(vec![cstop(1, 800, 1000), cstop(2, 850, 1000)], ConsumerTasksGroupConfig::new().threshold(80));
    b.add_next_priority_group(vec![cstop(3, 900, 300_000)], ConsumerTasksGroupConfig::new().max_fill(2000).threshold(50));
    b.add_next_priority_group(vec![cstop(5, 1500, 300_000)], ConsumerTasksGroupConfig::new().max_fill(2000).threshold(50));
    b.add_next_priority_group(vec![cstop(6, 0, 0)], ConsumerTasksGroupConfig::new().threshold(50));
    let tasks = b.build();
    let flat: Vec<(u64, u32, u32)> = tasks.iter().map(|(k, (p, w))| (*k, p.0, w.0)).collect();
    assert_eq!(flat, vec![(3, 2, 1100), (1, 3, 200)]);
}

#[test]
fn unlinked_containers_are_those_without_both_links() {
    let sources = vec![
        SourceLinkState { link_exists: true, container: Some(10) },
        SourceLinkState { link_exists: false, container: Some(11) },
        SourceLinkState { link_exists: false, container: None },
    ];
    assert_eq!(unlinked_source_containers(true, &sources), vec![11]);
    assert_eq!(unlinked_source_containers(false, &sources), vec![10, 11]);
}

fn coordinator() -> (TruckCoordinator, KeyedMap<u32>) {
    let mut c = TruckCoordinator::new();
    c.update_providers(vec![pstop(1, 50)], vec![], vec![], vec![], None, vec![pstop(2, 800)], Some(pstop(3, 20000)));
    c.update_consumers(Some(cstop(10, 0, 300)), vec![cstop(11, 0, 50)], vec![], vec![], None);
    let mut positions = KeyedMap::new();
    positions.insert(1, pos(10, 10));
    positions.insert(2, pos(30, 30));
    positions.insert(3, pos(40, 40));
    positions.insert(10, pos(20, 20));
    positions.insert(11, pos(21, 21));
    (c, positions)
}

#[test]
fn coordinator_update_sets_priorities() {
    let (c, _) = coordinator();
    let (data, collab) = c.providers.get(1).unwrap();
    assert_eq!(*data, ProviderTaskData { priority: 6, push_amount: Some(0) });
    assert_eq!(collab.unassigned_work(), 50);
    let (data, _) = c.providers.get(2).unwrap();
    assert_eq!(*data, ProviderTaskData { priority: 1, push_amount: Some(500) });
    let (data, collab) = c.providers.get(3).unwrap();
    assert_eq!(data.priority, 0);
    assert_eq!(collab.unassigned_work(), 10000);
    let (p, collab) = c.consumers.get(10).unwrap();
    assert_eq!(*p, ConsumerTaskPriority(4));
    assert_eq!(collab.unassigned_work(), 300);
}

#[test]
fn push_provider_is_the_most_urgent_with_enough_waiting() {
    let (mut c, positions) = coordinator();
    let t = truck(100, 0);
    assert_eq!(c.assign_push_provider(&t, 77, pos(1, 1), &positions, 5), Some(1));
    assert_eq!(c.providers.get(1).unwrap().1.task_data.pending_work, 100);
    assert_eq!(c.providers.get(1).unwrap().1.unassigned_work(), 0);
    assert_eq!(c.assign_push_provider(&t, 78, pos(1, 1), &positions, 5), Some(1));
    let mut c = TruckCoordinator::new();
    c.update_providers(vec![], vec![], vec![pstop(5, 100)], vec![], None, vec![pstop(2, 400), pstop(6, 900)], None);
    let mut positions = KeyedMap::new();
    positions.insert(5, pos(10, 10));
    positions.insert(2, pos(30, 30));
    positions.insert(6, pos(40, 40));
    assert_eq!(c.assign_push_provider(&t, 77, pos(1, 1), &positions, 5), Some(6));
}

#[test]
fn provider_is_where_the_most_can_be_collected() {
    let (mut c, positions) = coordinator();
    let t = truck(100, 0);
    assert_eq!(c.assign_provider(&t, 77, pos(1, 1), &positions, 5), Some(2));
    let t = truck(40, 0);
    assert_eq!(c.assign_provider(&t, 78, pos(1, 1), &positions, 5), Some(1));
}

#[test]
fn consumer_is_the_most_urgent() {
    let (mut c, positions) = coordinator();
    let t = truck(0, 100);
    assert_eq!(c.assign_consumer(&t, 77, pos(1, 1), &positions, 5), Some(10));
    assert!(c.consumers_ready(77, 100));
    assert!(c.providers_ready(77, 100));
}

#[test]
fn heartbeat_knows_only_assigned_trucks() {
    let (mut c, positions) = coordinator();
    let t = truck(0, 100);
    c.assign_consumer(&t, 77, pos(1, 1), &positions, 5);
    assert!(c.heartbeat(77, TruckTask::ProvidingTo(10), 6).is_some());
    assert!(c.heartbeat(78, TruckTask::ProvidingTo(10), 6).is_none());
    assert!(c.heartbeat(77, TruckTask::CollectingFrom(10), 6).is_none());
}

fn stops() -> KeyedMap<StopView> {
    let mut s = KeyedMap::new();
    s.insert(1, StopView { kind: StopKind::Resource { energy: true }, energy: 50, free: 0 });
    s.insert(2, StopView { kind: StopKind::Structure, energy: 800, free: 1200 });
    s.insert(3, StopView { kind: StopKind::Structure, energy: 20000, free: 0 });
    s.insert(10, StopView { kind: StopKind::Structure, energy: 0, free: 300 });
    s.insert(11, StopView { kind: StopKind::Structure, energy: 0, free: 50 });
    s
}

#[test]
fn idle_truck_with_energy_takes_a_consumer() {
    let (mut c, positions) = coordinator();
    let mut t = truck(0, 100);
    let step = TruckCreep::Idle.update(&mut t, 77, pos(1, 1), None, &mut c, &positions, &stops(), 5).unwrap();
    assert_eq!(step.transition, Transition::Continue(TruckCreep::Performing(TruckTask::ProvidingTo(10))));
}

#[test]
fn idle_empty_truck_takes_a_push_provider() {
    let (mut c, positions) = coordinator();
    let mut t = truck(100, 0);
    let step = TruckCreep::Idle.update(&mut t, 77, pos(1, 1), None, &mut c, &positions, &stops(), 5).unwrap();
    assert_eq!(step.transition, Transition::Continue(TruckCreep::Performing(TruckTask::CollectingFrom(1))));
}

#[test]
fn idle_truck_without_tasks_goes_to_the_buffer() {
    let mut c = TruckCoordinator::new();
    let positions = KeyedMap::new();
    let mut t = truck(100, 0);
    let buffer = BufferView { id: 99, pos: pos(25, 25), used: 0, free: 1000 };
    let step = TruckCreep::Idle.update(&mut t, 77, pos(1, 1), Some(buffer), &mut c, &positions, &KeyedMap::new(), 5).unwrap();
    assert_eq!(step.transition, Transition::Break(TruckCreep::Idle));
    assert_eq!(step.move_to, Some(pos(25, 25)));
    assert!(t.has_intent(IntentType::Move));
}

#[test]
fn performing_truck_moves_then_collects() {
    let (mut c, positions) = coordinator();
    let mut t = truck(100, 0);
    let task = TruckTask::CollectingFrom(1);
    c.assign_push_provider(&t, 77, pos(1, 1), &positions, 5);
    let step = TruckCreep::Performing(task).update(&mut t, 77, pos(1, 1), None, &mut c, &positions, &stops(), 5).unwrap();
    assert_eq!(step.transition, Transition::Break(TruckCreep::Performing(task)));
    assert_eq!(step.move_to, Some(pos(10, 10)));
    let mut t = truck(100, 0);
    let step = TruckCreep::Performing(task).update(&mut t, 77, pos(10, 11), None, &mut c, &positions, &stops(), 6).unwrap();
    assert_eq!(step.transition, Transition::Continue(TruckCreep::Idle));
    assert!(t.has_intent(IntentType::Pickup));
    assert_eq!(t.incoming_energy(), 50);
    assert!(c.heartbeat(77, task, 6).is_none());
}

#[test]
fn performing_truck_without_its_task_goes_idle() {
    let (mut c, positions) = coordinator();
    let mut t = truck(100, 0);
    let step = TruckCreep::Performing(TruckTask::CollectingFrom(2)).update(&mut t, 77, pos(1, 1), None, &mut c, &positions, &stops(), 5).unwrap();
    assert_eq!(step.transition, Transition::Continue(TruckCreep::Idle));
}

#[test]
fn storing_truck_transfers_into_the_buffer() {
    let mut c = TruckCoordinator::new();
    let mut t = truck(0, 100);
    let buffer = BufferView { id: 99, pos: pos(25, 25), used: 0, free: 1000 };
    let step = TruckCreep::StoringAway.update(&mut t, 77, pos(25, 26), Some(buffer), &mut c, &KeyedMap::new(), &KeyedMap::new(), 5).unwrap();
    assert_eq!(step.transition, Transition::Continue(TruckCreep::Idle));
    assert_eq!(t.outgoing(), 100);
    let full = BufferView { id: 99, pos: pos(25, 25), used: 1000, free: 0 };
    let mut t = truck(0, 100);
    let step = TruckCreep::StoringAway.update(&mut t, 77, pos(25, 26), Some(full), &mut c, &KeyedMap::new(), &KeyedMap::new(), 5).unwrap();
    assert_eq!(step.transition, Transition::Continue(TruckCreep::Idle));
    assert_eq!(t.outgoing(), 0);
}

use screeps_colony::steps::ColonyStep;
use screeps_colony::truck::import::{ColonyInfo, ImportError, ImportTruckState, ENERGY_THRESHOLD};

fn colonies() -> KeyedMap<ColonyInfo> {
    let mut c = KeyedMap::new();
    c.insert(1, ColonyInfo { step: ColonyStep::BuildLvl6, buffer: Some(BufferView { id: 101, pos: pos(20, 20), used: 15000, free: 0 }) });
    c.insert(2, ColonyInfo { step: ColonyStep::BuildLvl7, buffer: Some(BufferView { id: 102, pos: pos(30, 30), used: 40000, free: 0 }) });
    c.insert(3, ColonyInfo { step: ColonyStep::BuildLvl3, buffer: Some(BufferView { id: 103, pos: pos(40, 40), used: 90000, free: 0 }) });
    c
}

#[test]
fn import_truck_picks_the_richest_exporting_colony() {
    let mut c = TruckCoordinator::new();
    let mut t = truck(100, 0);
    let step = ImportTruckState::Idle.update(&mut t, 77, pos(1, 1), pos(25, 25), None, &colonies(), &KeyedMap::new(),
        &mut c, &KeyedMap::new(), &KeyedMap::new(), 5).unwrap();
    assert_eq!(step.transition, Transition::Continue(ImportTruckState::CollectingFrom(2)));
    assert_eq!(ENERGY_THRESHOLD, 10_000);
}

#[test]
fn import_truck_waits_without_rich_colonies() {
    let mut c = TruckCoordinator::new();
    let mut t = truck(100, 0);
    let mut poor = KeyedMap::new();
    poor.insert(1, ColonyInfo { step: ColonyStep::BuildLvl6, buffer: Some(BufferView { id: 101, pos: pos(20, 20), used: 9000, free: 0 }) });
    let step = ImportTruckState::Idle.update(&mut t, 77, pos(1, 1), pos(25, 25), None, &poor, &KeyedMap::new(),
        &mut c, &KeyedMap::new(), &KeyedMap::new(), 5).unwrap();
    assert_eq!(step.transition, Transition::Break(ImportTruckState::Idle));
}

#[test]
fn import_truck_collects_then_goes_home() {
    let mut c = TruckCoordinator::new();
    let mut t = truck(100, 0);
    let s = ImportTruckState::CollectingFrom(2);
    let step = s.update(&mut t, 77, pos(30, 31), pos(25, 25), None, &colonies(), &KeyedMap::new(),
        &mut c, &KeyedMap::new(), &KeyedMap::new(), 5).unwrap();
    assert_eq!(step.transition, Transition::Continue(ImportTruckState::GoingHome));
    assert_eq!(t.incoming_energy(), 100);
    let err = ImportTruckState::CollectingFrom(9).update(&mut t, 77, pos(30, 31), pos(25, 25), None, &colonies(), &KeyedMap::new(),
        &mut c, &KeyedMap::new(), &KeyedMap::new(), 5);
    assert_eq!(err, Err(ImportError::NotAColony(9)));
}

#[test]
fn import_truck_going_home_stops_within_ten() {
    let mut c = TruckCoordinator::new();
    let mut t = truck(0, 100);
    let step = ImportTruckState::GoingHome.update(&mut t, 77, pos(30, 30), pos(25, 25), None, &colonies(), &KeyedMap::new(),
        &mut c, &KeyedMap::new(), &KeyedMap::new(), 5).unwrap();
    assert_eq!(step.transition, Transition::Continue(ImportTruckState::ProvidingIdle));
    let mut t = truck(0, 100);
    let step = ImportTruckState::GoingHome.update(&mut t, 77, pos(45, 45), pos(25, 25), None, &colonies(), &KeyedMap::new(),
        &mut c, &KeyedMap::new(), &KeyedMap::new(), 5).unwrap();
    assert_eq!(step.transition, Transition::Break(ImportTruckState::GoingHome));
    assert_eq!(step.move_to, Some(pos(25, 25)));
}

#[test]
fn import_truck_stores_in_the_home_buffer_without_consumers() {
    let mut c = TruckCoordinator::new();
    let mut t = truck(0, 100);
    let home = BufferView { id: 55, pos: pos(26, 26), used: 0, free: 500 };
    let step = ImportTruckState::ProvidingIdle.update(&mut t, 77, pos(25, 25), pos(25, 25), Some(home), &colonies(), &KeyedMap::new(),
        &mut c, &KeyedMap::new(), &KeyedMap::new(), 5).unwrap();
    assert_eq!(step.transition, Transition::Continue(ImportTruckState::StoringAway(55)));
    let mut buffers = KeyedMap::new();
    buffers.insert(55, home);
    let step = ImportTruckState::StoringAway(55).update(&mut t, 77, pos(25, 25), pos(25, 25), Some(home), &colonies(), &buffers,
        &mut c, &KeyedMap::new(), &KeyedMap::new(), 5).unwrap();
    assert_eq!(step.transition, Transition::Continue(ImportTruckState::Idle));
    assert_eq!(t.outgoing(), 100);
}
