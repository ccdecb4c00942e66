use screeps_colony::check::{Expiration, Expiring, ExpirationCheckError};
use screeps_colony::coordination::allocations::{AllocationHandle, Allocations};
use screeps_colony::coordination::assignment::Assignment;
use screeps_colony::coordination::collaboration::{Collaboration, CollaborativeWorkerHandle, RemainingWork, TaskState};
use screeps_colony::coordination::expiring_map::{ExpiringEntryCheckError, ExpiringMap, TIMEOUT};
use screeps_colony::coordination::tasks::{Tasks, UpdateableTaskData};
use screeps_colony::coordination::workers::{WorkerEntryCheckError, Workers};
use screeps_colony::keyed::KeyedMap;

fn live(keys: &[u64]) -> KeyedMap<()> {
    let mut m = KeyedMap::new();
    for k in keys {
        m.insert(*k, ());
    }
    m
}

#[test]
fn keyed_map_insert_get_remove() {
    let mut m: KeyedMap<u32> = KeyedMap::new();
    assert_eq!(m.insert(3, 30), None);
    assert_eq!(m.insert(5, 50), None);
    assert_eq!(m.insert(3, 31), Some(30));
    assert_eq!(m.len(), 2);
    assert_eq!(m.get(3), Some(&31));
    assert!(m.contains_key(5));
    assert_eq!(m.remove(5), Some(50));
    assert_eq!(m.remove(5), None);
    assert_eq!(m.get(5), None);
    assert_eq!(m.key_at(0), 3);
    assert_eq!(m.index_of(3), Some(0));
}

#[test]
fn expiration_lives_for_its_lifetime() {
    let e: Expiration<2> = Expiration::new_at(10);
    assert_eq!(e.last_refresh(), 10);
    assert_eq!(e.time_left_at(10), 3);
    assert_eq!(e.time_left_at(12), 1);
    assert_eq!(e.time_left_at(13), 0);
    assert!(e.check_at(12).is_ok());
    assert!(e.check_at(13).is_err());
    let mut e = e;
    e.refresh_at(20);
    assert_eq!(e.time_left_at(21), 2);
}

#[test]
fn expiring_value_reports_its_value_when_expired() {
    let e: Expiring<u32, 1> = Expiring::new_at(7, 100);
    assert!(e.check_at(101).is_ok());
    match e.check_at(102) {
        Err(ExpirationCheckError::Expired(v)) => assert_eq!(v, 7),
        _ => panic!("expected an expiry"),
    }
}

#[test]
fn expiring_map_refresh_and_check() {
    let mut m: ExpiringMap<u32> = ExpiringMap::new();
    assert_eq!(m.add(1, 10, 100), None);
    assert_eq!(m.add(2, 20, 100), None);
    assert_eq!(m.add(3, 30, 100), None);
    assert!(m.refresh(1, 101).is_some());
    assert!(m.refresh(9, 101).is_none());
    let errs = m.filter_check_at(100 + TIMEOUT + 1, &live(&[1, 2]));
    assert_eq!(errs.len(), 2);
    assert_eq!(m.len(), 1);
    assert_eq!(m.get(1), Some(&10));
    let mut saw_key = false;
    let mut saw_expired = false;
    for e in errs {
        match e {
            ExpiringEntryCheckError::Key(k, v) => {
                assert_eq!((k, v), (3, 30));
                saw_key = true;
            }
            ExpiringEntryCheckError::Expired(k, v) => {
                assert_eq!((k, v), (2, 20));
                saw_expired = true;
            }
        }
    }
    assert!(saw_key && saw_expired);
}

#[test]
fn allocations_keep_the_total_reserved() {
    let mut a: Allocations<()> = Allocations::new(100);
    a.allocate(1, 30, (), 10);
    a.allocate(2, 50, (), 10);
    assert_eq!(a.state.reserved, 80);
    assert_eq!(a.unreserved_amount(), 20);
    a.allocate(1, 10, (), 11);
    assert_eq!(a.state.reserved, 60);
    let h = a.refresh(2, 11).unwrap();
    assert_eq!(a.reserved(&h), 50);
    a.consume(&h, 20);
    assert_eq!(a.reserved(&h), 30);
    assert_eq!(a.state.reserved, 40);
    assert_eq!(a.state.amount, 80);
    a.release(h);
    assert_eq!(a.state.reserved, 10);
    assert!(a.refresh(2, 12).is_none());
    a.set_amount(5);
    assert_eq!(a.unreserved_amount(), 0);
}

#[test]
fn allocations_drop_dead_owners() {
    let mut a: Allocations<u8> = Allocations::new(100);
    a.allocate(1, 30, 7, 10);
    a.allocate(2, 20, 8, 10);
    let errs = a.filter_check_at(11, &live(&[1]));
    assert_eq!(errs.len(), 1);
    assert_eq!(a.state.reserved, 30);
    assert!(a.get(&AllocationHandle { owner: 1 }).is_some());
    assert!(a.get(&AllocationHandle { owner: 2 }).is_none());
}

#[test]
fn collaboration_tracks_pending_work() {
    let mut c: Collaboration<()> = Collaboration::new(100);
    assert_eq!(c.unassigned_work(), 100);
    c.add(1, 40, (), 10);
    c.add(2, 30, (), 10);
    assert_eq!(c.unassigned_work(), 30);
    let h = c.heartbeat(1, 11).unwrap();
    assert_eq!(c.remaining(&h), 40);
    c.apply_work(&h, 25);
    assert_eq!(c.task_data, TaskState { remaining_work: 75, pending_work: 45 });
    assert_eq!(c.remaining(&h), 15);
    assert!(c.heartbeat(3, 11).is_none());
    c.set_remaining_work(50);
    assert_eq!(c.unassigned_work(), 5);
}

#[test]
fn collaboration_remove_adds_the_pending_work() {
    let mut c: Collaboration<()> = Collaboration::new(100);
    c.add(1, 40, (), 10);
    c.remove(CollaborativeWorkerHandle { worker: 1 });
    assert_eq!(c.task_data.pending_work, 80);
    assert!(c.get(&CollaborativeWorkerHandle { worker: 1 }).is_none());
}

#[test]
fn collaboration_drops_timed_out_workers() {
    let mut c: Collaboration<()> = Collaboration::new(100);
    c.add(1, 40, (), 10);
    c.add(2, 30, (), 12);
    let errs = c.filter_check_at(12, &live(&[1, 2]));
    assert_eq!(errs.len(), 1);
    match &errs[0] {
        WorkerEntryCheckError::Timeout(k, _) => assert_eq!(*k, 1),
        _ => panic!("expected a timeout"),
    }
    assert_eq!(c.task_data.pending_work, 30);
}

#[test]
fn workers_heartbeat_and_handles() {
    let mut w: Workers<u32> = Workers::new();
    assert_eq!(w.add(1, 5, 10), None);
    let h = w.heartbeat(1, 11).unwrap();
    assert_eq!(*h.get(&w), 5);
    h.set(&mut w, 6);
    assert_eq!(*h.get(&w), 6);
    assert_eq!(w.add(1, 7, 11), Some(6));
    h.remove(&mut w);
    assert!(w.heartbeat(1, 12).is_none());
}

#[test]
fn assignment_is_taken_until_released_or_expired() {
    let mut a: Assignment<u64, u32> = Assignment::new();
    assert!(a.is_free());
    a.assign_at(1, 9, 10);
    assert!(!a.is_free());
    let h = a.refresh_at(11).unwrap();
    assert_eq!(*h.get(&a), 9);
    h.release(&mut a);
    assert!(a.is_free());
    assert!(a.refresh_at(12).is_none());
    a.assign_at(2, 3, 20);
    let errs = a.filter_check_at(20 + TIMEOUT + 1);
    assert_eq!(errs.len(), 1);
    assert!(a.is_free());
}

#[test]
fn tasks_keep_data_of_persisting_tasks() {
    let mut t: Tasks<Collaboration<()>> = Tasks::new();
    t.set_tasks(vec![(1, RemainingWork(10)), (2, RemainingWork(20))]);
    assert_eq!(t.len(), 2);
    let mut c = t.take(1).unwrap();
    c.add(7, 5, (), 3);
    t.put_back(1, c);
    t.set_tasks(vec![(1, RemainingWork(12)), (3, RemainingWork(30))]);
    assert_eq!(t.len(), 2);
    assert!(t.get(2).is_none());
    let c = t.get(1).unwrap();
    assert_eq!(c.task_data, TaskState { remaining_work: 12, pending_work: 5 });
    assert_eq!(t.get(3).unwrap().task_data, TaskState { remaining_work: 30, pending_work: 0 });
    let created = <Collaboration<()> as UpdateableTaskData>::create(RemainingWork(4));
    assert_eq!(created.unassigned_work(), 4);
}

#[test]
fn a_heartbeat_gives_the_added_data_after_other_calls() {
    let mut w: Workers<u32> = Workers::new();
    w.add(1, 5, 10);
    w.add(2, 8, 10);
    let h2 = w.heartbeat(2, 11).unwrap();
    h2.set(&mut w, 9);
    w.filter_check_at(11, &live(&[1, 2]));
    h2.remove(&mut w);
    let h = w.heartbeat(1, 11).unwrap();
    assert_eq!(*h.get(&w), 5);
}
