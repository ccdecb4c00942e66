use screeps_colony::keyed::KeyedMap;
use screeps_colony::virtual_creep::{CreepSnapshot, IntentAction, IntentError, IntentType, VirtualCreep, ENERGY};

const MINERAL: u32 = 7;

fn creep(free: u32, energy: u32, work: u8) -> VirtualCreep {
    let mut stored = KeyedMap::new();
    if energy > 0 {
        stored.insert(ENERGY as u64, energy);
    }
    VirtualCreep::new(CreepSnapshot { capacity: free + energy, free_capacity: free, stored, work_parts: work })
}

#[test]
fn creep_starts_without_intents() {
    let c = creep(50, 50, 2);
    assert_eq!(c.capacity(), 100);
    assert_eq!(c.curr_free_capacity(), 50);
    assert_eq!(c.curr_used_capacity(None), 50);
    assert_eq!(c.curr_used_energy_capacity(), 50);
    assert_eq!(c.curr_used_capacity(Some(MINERAL)), 0);
    assert_eq!(c.next_free_capacity(), 50);
    assert_eq!(c.incoming(None), 0);
    assert_eq!(c.outgoing(), 0);
    assert!(!c.has_intent(IntentType::Build));
    assert!(c.can_do(IntentType::Build));
}

#[test]
fn harvest_takes_two_per_work_part_and_fits_the_free_capacity() {
    let mut c = creep(50, 0, 5);
    assert_eq!(c.harvest_source(1, 3000), Ok(10));
    assert_eq!(c.curr_free_capacity(), 40);
    assert_eq!(c.incoming_energy(), 10);
    assert_eq!(c.next_used_energy_capacity(), 10);
    let mut c = creep(3, 0, 5);
    assert_eq!(c.harvest_source(1, 3000), Ok(3));
    let mut c = creep(50, 0, 5);
    assert_eq!(c.harvest_source(1, 4), Ok(4));
}

#[test]
fn build_spends_five_per_work_part() {
    let mut c = creep(0, 100, 3);
    assert_eq!(c.build(1, 0, 1000), Ok(15));
    assert_eq!(c.curr_used_energy_capacity(), 85);
    assert_eq!(c.outgoing(), 15);
    assert_eq!(c.next_free_capacity(), 15);
    let mut c = creep(0, 100, 3);
    assert_eq!(c.build(1, 995, 1000), Ok(5));
    let mut c = creep(0, 4, 3);
    assert_eq!(c.build(1, 0, 1000), Ok(4));
}

#[test]
fn repair_spends_one_per_hundred_missing_hits() {
    let mut c = creep(0, 100, 10);
    assert_eq!(c.repair(1, 750, 1000), Ok(3));
    let mut c = creep(0, 100, 10);
    assert_eq!(c.repair(1, 800, 1000), Ok(2));
    let mut c = creep(0, 100, 2);
    assert_eq!(c.repair(1, 0, 1000), Ok(2));
}

#[test]
fn one_intent_of_each_kind() {
    let mut c = creep(50, 50, 2);
    assert_eq!(c.drop(ENERGY, Some(5)), Ok(5));
    assert_eq!(c.drop(ENERGY, Some(5)), Err(IntentError::AlreadyScheduled(IntentType::Drop)));
    assert!(c.drop(ENERGY, Some(5)).unwrap_err().is_deferable());
}

#[test]
fn pipeline_collisions_are_refused() {
    let mut c = creep(50, 50, 2);
    assert_eq!(c.harvest_source(1, 100), Ok(4));
    assert_eq!(c.build(2, 0, 100), Err(IntentError::PipelineCollision { existing: IntentType::Harvest, new: IntentType::Build }));
    assert!(!c.can_do(IntentType::Repair));
    assert!(c.can_do(IntentType::Transfer));
    assert_eq!(c.curr_used_energy_capacity(), 50);
}

#[test]
fn not_enough_resource_or_capacity() {
    let mut c = creep(10, 20, 2);
    assert_eq!(c.transfer(3, 100, MINERAL, Some(1)), Err(IntentError::NotEnoughResource { resource: MINERAL, target: 1, curr: 0 }));
    assert!(!IntentError::NotEnoughResource { resource: MINERAL, target: 1, curr: 0 }.is_deferable());
    assert_eq!(c.withdraw(4, 100, ENERGY, Some(11)), Err(IntentError::NotEnoughCapacity { resource: ENERGY, target: 11, curr: 10 }));
    assert_eq!(c.curr_free_capacity(), 10);
    assert_eq!(c.incoming(None), 0);
}

#[test]
fn transfer_defaults_to_everything_held_up_to_the_target_space() {
    let mut c = creep(10, 20, 2);
    assert_eq!(c.transfer(3, 100, ENERGY, None), Ok(20));
    let mut c = creep(10, 20, 2);
    assert_eq!(c.transfer(3, 15, ENERGY, None), Ok(15));
}

#[test]
fn withdraw_and_pickup_default_to_the_free_capacity() {
    let mut c = creep(10, 20, 2);
    assert_eq!(c.withdraw(4, 100, ENERGY, None), Ok(10));
    assert_eq!(c.curr_free_capacity(), 0);
    let mut c = creep(10, 20, 2);
    assert_eq!(c.pickup(4, MINERAL, 6), Ok(6));
    assert_eq!(c.incoming(Some(MINERAL)), 6);
    assert_eq!(c.incoming(Some(ENERGY)), 0);
}

#[test]
fn transfer_from_another_creep_counts_as_incoming() {
    let mut c = creep(10, 0, 2);
    assert_eq!(c.transfer_from(30, ENERGY, None), Ok(10));
    assert_eq!(c.incoming_energy(), 10);
    assert!(!c.has_intent(IntentType::Transfer));
    let mut c = creep(10, 0, 2);
    assert_eq!(c.transfer_from(4, ENERGY, None), Ok(4));
    assert_eq!(c.transfer_from(4, ENERGY, Some(7)), Ok(4));
    assert_eq!(c.curr_free_capacity(), 2);
}

#[test]
fn cancel_gives_back_what_the_intent_took() {
    let mut c = creep(10, 20, 2);
    assert_eq!(c.transfer(3, 100, ENERGY, Some(8)), Ok(8));
    assert_eq!(c.withdraw(4, 100, ENERGY, Some(6)), Ok(6));
    assert!(c.cancel_intent(IntentType::Transfer));
    assert!(!c.cancel_intent(IntentType::Transfer));
    assert_eq!(c.curr_used_energy_capacity(), 20);
    assert_eq!(c.outgoing(), 0);
    assert!(c.cancel_intent(IntentType::Withdraw));
    assert_eq!(c.curr_free_capacity(), 10);
    assert_eq!(c.incoming(None), 0);
    assert_eq!(c.incoming_energy(), 0);
}

#[test]
fn moves_are_registered_once() {
    let mut c = creep(10, 20, 2);
    assert_eq!(c.register_move(), Ok(0));
    assert!(c.has_intent(IntentType::Move));
    assert_eq!(c.register_move(), Err(IntentError::AlreadyScheduled(IntentType::Move)));
}

#[test]
fn commit_gives_one_action_per_intent() {
    let mut c = creep(10, 20, 2);
    c.transfer(3, 100, ENERGY, Some(8)).unwrap();
    c.register_move().unwrap();
    let actions = c.commit();
    assert_eq!(actions.len(), 2);
    assert!(actions.contains(&IntentAction::Transfer { target: 3, resource: ENERGY, amount: 8 }));
    assert!(actions.contains(&IntentAction::Move));
}
