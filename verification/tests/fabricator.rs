use screeps_colony::coordination::allocations::AllocationHandle;
use screeps_colony::fabricator::coordinator::{estimated_work_capacity, ConstructionSiteView, ControllerView,
    FabricatorCoordinator, FabricatorTask, RepairableView, StorageFill, StructureTask};
use screeps_colony::fabricator::state::{FabricatorCreep, FabricatorHome};
use screeps_colony::keyed::KeyedMap;
use screeps_colony::steps::Transition;
use screeps_colony::truck::state::BufferView;
use screeps_colony::virtual_creep::{CreepSnapshot, IntentError, IntentType, VirtualCreep, ENERGY};

fn pos(x: u32, y: u32) -> u32 {
    (128 << 24) | (128 << 16) | (x << 8) | y
}

fn fabricator(work_parts: u8, energy: u32, capacity: u32) -> VirtualCreep {
    let mut stored = KeyedMap::new();
    if energy > 0 {
        stored.insert(ENERGY as u64, energy);
    }
    VirtualCreep::new(CreepSnapshot { capacity, free_capacity: capacity - energy, stored, work_parts })
}

fn controller(level: u8, ticks_to_downgrade: Option<u32>) -> ControllerView {
    ControllerView { id: 900, pos: pos(25, 25), level, ticks_to_downgrade }
}

fn repairable(id: u64, x: u32, hits: u32, hits_max: u32) -> RepairableView {
    RepairableView { id, pos: pos(x, 10), hits, hits_max }
}

fn site(id: u64, x: u32, progress: u32, progress_total: u32) -> ConstructionSiteView {
    ConstructionSiteView { id, pos: pos(x, 20), progress, progress_total }
}

fn reserved_on_repair(c: &FabricatorCoordinator, task: u64, owner: u64) -> u32 {
    c.repairs.get(task).unwrap().1.reserved(&AllocationHandle { owner })
}

#[test]
fn update_turns_damage_and_progress_into_work() {
    let mut c = FabricatorCoordinator::new();
    c.update(&vec![repairable(1, 5, 300, 1000), repairable(2, 6, 1000, 1000)], &vec![site(3, 7, 100, 300)], Some(4));
    assert_eq!(c.repairs.get(1).unwrap().1.state.amount, 700);
    assert_eq!(c.repairs.get(2).unwrap().1.state.amount, 0);
    assert_eq!(c.builds.get(3).unwrap().1.state.amount, 200);
    assert_eq!(c.builds.get(3).unwrap().0.progress_total, 300);
    assert_eq!(c.upgrade.state.amount, u32::MAX);
    c.update(&vec![], &vec![], Some(8));
    assert_eq!(c.upgrade.state.amount, 15);
    assert!(c.repairs.get(1).is_none());
    assert!(c.builds.get(3).is_none());
}

#[test]
fn work_capacity_counts_ticks_after_reaching_the_task() {
    let f = fabricator(3, 0, 150);
    assert_eq!(estimated_work_capacity(&f, 1500), 300);
    assert_eq!(estimated_work_capacity(&f, 120), 210);
    assert_eq!(estimated_work_capacity(&f, 30), 0);
}

#[test]
fn emergency_upgrade_comes_first() {
    let mut c = FabricatorCoordinator::new();
    c.update(&vec![repairable(1, 5, 100, 1000)], &vec![], Some(2));
    let f = fabricator(3, 0, 150);
    let t = c.assign_task(&f, 7, pos(10, 10), 1500, &controller(2, Some(5000)), None, 10);
    assert_eq!(t, Some(FabricatorTask::Upgrading));
    assert_eq!(c.upgrade.reserved(&AllocationHandle { owner: 7 }), 3);
    assert_eq!(reserved_on_repair(&c, 1, 7), 0);
}

#[test]
fn least_healthy_emergency_repair_is_taken() {
    let mut c = FabricatorCoordinator::new();
    c.update(&vec![repairable(1, 11, 400, 1000), repairable(2, 40, 200, 1000), repairable(3, 10, 700, 1000)], &vec![], Some(2));
    let f = fabricator(2, 0, 100);
    let t = c.assign_task(&f, 7, pos(10, 10), 1500, &controller(2, Some(9000)), None, 10);
    assert_eq!(t, Some(FabricatorTask::Structure(StructureTask::Repairing(2))));
    assert_eq!(reserved_on_repair(&c, 2, 7), 20_000);
}

#[test]
fn nearest_due_repair_without_emergencies() {
    let mut c = FabricatorCoordinator::new();
    c.update(&vec![repairable(1, 30, 700, 1000), repairable(2, 12, 740, 1000), repairable(3, 11, 800, 1000)], &vec![], Some(2));
    let f = fabricator(2, 0, 100);
    let t = c.assign_task(&f, 7, pos(10, 10), 1500, &controller(2, Some(9000)), None, 10);
    assert_eq!(t, Some(FabricatorTask::Structure(StructureTask::Repairing(2))));
}

#[test]
fn nearest_site_is_built_when_nothing_needs_repair() {
    let mut c = FabricatorCoordinator::new();
    c.update(&vec![repairable(1, 30, 900, 1000)], &vec![site(5, 40, 0, 100), site(6, 12, 0, 100)], Some(2));
    let f = fabricator(2, 0, 100);
    let t = c.assign_task(&f, 7, pos(10, 20), 1500, &controller(2, Some(9000)), None, 10);
    assert_eq!(t, Some(FabricatorTask::Structure(StructureTask::Building(6))));
    assert_eq!(c.builds.get(6).unwrap().1.reserved(&AllocationHandle { owner: 7 }), 1000);
}

#[test]
fn upgrading_waits_for_a_tenth_full_storage() {
    let mut c = FabricatorCoordinator::new();
    c.update(&vec![], &vec![], Some(3));
    let f = fabricator(2, 0, 100);
    let low = Some(StorageFill { used: 99, capacity: 1000 });
    assert_eq!(c.assign_task(&f, 7, pos(10, 20), 1500, &controller(3, Some(19000)), low, 10), None);
    let enough = Some(StorageFill { used: 100, capacity: 1000 });
    assert_eq!(c.assign_task(&f, 7, pos(10, 20), 1500, &controller(3, Some(19000)), enough, 10), Some(FabricatorTask::Upgrading));
    assert_eq!(c.upgrade.reserved(&AllocationHandle { owner: 7 }), 2);
}

#[test]
fn idle_fabricator_takes_a_task() {
    let mut c = FabricatorCoordinator::new();
    c.update(&vec![], &vec![site(5, 12, 0, 100)], Some(2));
    let mut f = fabricator(2, 0, 100);
    let home = FabricatorHome { controller: controller(2, Some(9000)), buffer: None, storage: None };
    let step = FabricatorCreep::Idle.update(&mut f, 7, pos(10, 20), 1500, &home, &mut c, 10).unwrap();
    let task = FabricatorTask::Structure(StructureTask::Building(5));
    assert_eq!(step.transition, Transition::Continue(FabricatorCreep::Performing(task)));
    assert!(FabricatorCreep::Performing(task).is_consumer());
    assert!(FabricatorCreep::Idle.is_provider());
}

#[test]
fn empty_fabricator_collects_from_the_buffer() {
    let mut c = FabricatorCoordinator::new();
    c.update(&vec![], &vec![site(5, 12, 0, 100)], Some(2));
    let mut f = fabricator(2, 0, 100);
    let buffer = BufferView { id: 50, pos: pos(10, 21), used: 5000, free: 1000 };
    let home = FabricatorHome { controller: controller(2, Some(9000)), buffer: Some(buffer), storage: None };
    let task = c.assign_task(&f, 7, pos(10, 20), 1500, &home.controller, None, 10).unwrap();
    let step = FabricatorCreep::Performing(task).update(&mut f, 7, pos(10, 20), 1500, &home, &mut c, 10).unwrap();
    assert_eq!(step.transition, Transition::Continue(FabricatorCreep::CollectingFor(task)));
    let step = FabricatorCreep::CollectingFor(task).update(&mut f, 7, pos(10, 20), 1500, &home, &mut c, 10).unwrap();
    assert_eq!(step.transition, Transition::Continue(FabricatorCreep::Performing(task)));
    assert!(f.has_intent(IntentType::Withdraw));
    assert_eq!(f.next_used_energy_capacity(), 100);
}

#[test]
fn far_fabricator_moves_to_its_site() {
    let mut c = FabricatorCoordinator::new();
    c.update(&vec![], &vec![site(5, 30, 0, 100)], Some(2));
    let mut f = fabricator(2, 50, 100);
    let home = FabricatorHome { controller: controller(2, Some(9000)), buffer: None, storage: None };
    let task = c.assign_task(&f, 7, pos(10, 20), 1500, &home.controller, None, 10).unwrap();
    let step = FabricatorCreep::Performing(task).update(&mut f, 7, pos(10, 20), 1500, &home, &mut c, 10).unwrap();
    assert_eq!(step.transition, Transition::Break(FabricatorCreep::Performing(task)));
    assert_eq!(step.move_to, Some(pos(30, 20)));
    assert!(f.has_intent(IntentType::Move));
}

#[test]
fn building_uses_up_the_reservation_and_goes_idle() {
    let mut c = FabricatorCoordinator::new();
    c.update(&vec![], &vec![site(5, 11, 0, 100)], Some(2));
    let mut f = fabricator(2, 50, 100);
    let home = FabricatorHome { controller: controller(2, Some(9000)), buffer: None, storage: None };
    // a fabricator with 51 ticks left reserves a single tick of work: 2 parts, 10 progress
    let task = c.assign_task(&f, 7, pos(10, 20), 51, &home.controller, None, 10).unwrap();
    assert_eq!(c.builds.get(5).unwrap().1.reserved(&AllocationHandle { owner: 7 }), 10);
    let step = FabricatorCreep::Performing(task).update(&mut f, 7, pos(10, 20), 51, &home, &mut c, 10).unwrap();
    assert_eq!(step.transition, Transition::Continue(FabricatorCreep::Idle));
    assert!(f.has_intent(IntentType::Build));
    assert_eq!(c.builds.get(5).unwrap().1.state.amount, 90);
    assert_eq!(c.builds.get(5).unwrap().1.state.reserved, 0);
}

#[test]
fn repairing_keeps_the_task_while_reserved_work_is_left() {
    let mut c = FabricatorCoordinator::new();
    c.update(&vec![repairable(1, 11, 100, 1000)], &vec![], Some(2));
    let mut f = fabricator(2, 50, 100);
    let home = FabricatorHome { controller: controller(2, Some(9000)), buffer: None, storage: None };
    let task = c.assign_task(&f, 7, pos(10, 10), 1500, &home.controller, None, 10).unwrap();
    let step = FabricatorCreep::Performing(task).update(&mut f, 7, pos(10, 10), 1500, &home, &mut c, 10).unwrap();
    assert_eq!(step.transition, Transition::Break(FabricatorCreep::Performing(task)));
    assert!(f.has_intent(IntentType::Repair));
    assert_eq!(reserved_on_repair(&c, 1, 7), 20_000 - 2);
}

#[test]
fn upgrading_fabricator_stays_on_the_controller() {
    let mut c = FabricatorCoordinator::new();
    c.update(&vec![], &vec![], Some(2));
    let mut f = fabricator(2, 50, 100);
    let home = FabricatorHome { controller: controller(2, Some(9000)), buffer: None, storage: None };
    let task = c.assign_task(&f, 7, pos(24, 24), 1500, &home.controller, None, 10).unwrap();
    assert_eq!(task, FabricatorTask::Upgrading);
    let step = FabricatorCreep::Performing(task).update(&mut f, 7, pos(23, 22), 1500, &home, &mut c, 10).unwrap();
    assert_eq!(step.transition, Transition::Break(FabricatorCreep::Performing(task)));
    assert!(f.has_intent(IntentType::UpgradeController));
    let second = f.upgrade_controller(900);
    assert_eq!(second, Err(IntentError::AlreadyScheduled(IntentType::UpgradeController)));
}

#[test]
fn lost_reservation_makes_the_fabricator_idle() {
    let mut c = FabricatorCoordinator::new();
    c.update(&vec![], &vec![site(5, 11, 0, 100)], Some(2));
    let mut f = fabricator(2, 50, 100);
    let home = FabricatorHome { controller: controller(2, Some(9000)), buffer: None, storage: None };
    let task = FabricatorTask::Structure(StructureTask::Building(5));
    let step = FabricatorCreep::CollectingFor(task).update(&mut f, 7, pos(10, 20), 1500, &home, &mut c, 10).unwrap();
    assert_eq!(step.transition, Transition::Continue(FabricatorCreep::Idle));
}
