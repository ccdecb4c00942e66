//! What a truck does, one decision at a time: take a task from the coordinator,
//! go to its stop, collect or deliver, and fall back on the colony's buffer.
use vstd::prelude::*;
use crate::coordination::collaboration::CollaborativeWorkerHandle;
use crate::coordination::expiring_map::TIMEOUT;
use crate::keyed::KeyedMap;
use crate::movement::{Approach, spec_approach, spec_approach_within, approach, approach_within, has_move,
    next_used_energy, approached, deferable};
use crate::position::{packed_valid, spec_range, range_between, spec_near, positions_near};
use crate::steps::Transition;
use crate::truck::coordinator::{TruckCoordinator, TruckTask, CollabView, positions_known, ready, next_free, heartbeat_view,
    left_view, worked_view, push_choice, provider_choice, consumer_choice, push_available};
use crate::virtual_creep::{ENERGY, Intent, IntentAction, IntentEffect, IntentError, IntentType, VirtualCreep, intent_code,
    register_outcome, register_result, registered, transfer_amount, transfer_from_amount};

verus! {

/// The states of a truck.
#[derive(PartialEq, Eq, Structural, Clone, Copy, Debug)]
pub enum TruckCreep {
    Idle,
    Performing(TruckTask),
    StoringAway,
    /// Collecting from the buffer for a consumer.
    FillingUpFor(u64),
}

/// The kinds of stops, as far as collecting from them goes.
#[derive(PartialEq, Eq, Structural, Clone, Copy, Debug)]
pub enum StopKind {
    Ruin,
    /// A dropped pile, with whether it is energy.
    Resource { energy: bool },
    Tombstone,
    Structure,
    Creep,
}

/// What a stop holds this tick: its kind, its energy and its free capacity for
/// energy.
#[derive(PartialEq, Eq, Structural, Clone, Copy, Debug)]
pub struct StopView {
    pub kind: StopKind,
    pub energy: u32,
    pub free: u32,
}

/// The colony's buffer this tick.
#[derive(PartialEq, Eq, Structural, Clone, Copy, Debug)]
pub struct BufferView {
    pub id: u64,
    pub pos: u32,
    pub used: u32,
    pub free: u32,
}

/// A transfer that another creep makes into the truck.
#[derive(PartialEq, Eq, Structural, Clone, Copy, Debug)]
pub struct CreepTransfer {
    pub from: u64,
    pub amount: u32,
}

/// What one round decided: the transition, where the truck is to move, and a
/// transfer that another creep makes into the truck.
#[derive(PartialEq, Eq, Structural, Clone, Copy, Debug)]
pub struct TruckStep {
    pub transition: Transition<TruckCreep>,
    pub move_to: Option<u32>,
    pub transfer_in: Option<CreepTransfer>,
}

/// The step that stops at `s`, with a move towards the target if one was registered.
pub open spec fn stop_at(s: TruckCreep, a: Approach) -> TruckStep {
    TruckStep {
        transition: Transition::Break(s),
        move_to: match a { Approach::Moving(t) => Some(t), _ => None },
        transfer_in: None,
    }
}

/// The step that goes on to `s` in the same tick.
pub open spec fn go_on(s: TruckCreep) -> TruckStep {
    TruckStep { transition: Transition::Continue(s), move_to: None, transfer_in: None }
}

/// The stops that the truck's state names are known.
pub open spec fn state_known(s: TruckCreep, stops: Map<u64, StopView>) -> bool {
    match s {
        TruckCreep::Performing(TruckTask::CollectingFrom(t)) => stops.contains_key(t),
        TruckCreep::Performing(TruckTask::ProvidingTo(t)) => stops.contains_key(t),
        _ => true,
    }
}

/// Every task that the coordinator holds is ready for the truck.
pub open spec fn coordinator_ready(c: TruckCoordinator, owner: u64, work: u32) -> bool {
    &&& forall|k: u64| #[trigger] c.provider_views().contains_key(k) ==> ready(c.provider_views()[k].1, owner, work)
    &&& forall|k: u64| #[trigger] c.consumer_views().contains_key(k) ==> ready(c.consumer_views()[k].1, owner, work)
}

/// The stops of the tasks are known.
pub open spec fn stops_known<TD>(tasks: Map<u64, TD>, stops: Map<u64, StopView>) -> bool {
    forall|k: u64| #[trigger] tasks.contains_key(k) ==> stops.contains_key(k)
}

/// The amount a perform moved, or its error.
pub open spec fn performed_amount(r: Result<(u32, Option<CreepTransfer>), IntentError>) -> Result<u32, IntentError> {
    match r {
        Ok(x) => Ok(x.0),
        Err(e) => Err(e),
    }
}

/// What performing a task at a stop registers, and gives.
pub open spec fn perform_outcome(task: TruckTask, stop: StopView, a: VirtualCreep, b: VirtualCreep,
    r: Result<(u32, Option<CreepTransfer>), IntentError>) -> bool {
    match task {
        TruckTask::CollectingFrom(id) => match stop.kind {
            StopKind::Creep => {
                let amt = crate::virtual_creep::transfer_from_amount(a, stop.energy, None);
                &&& b.intents() == a.intents()
                &&& r is Ok <==> amt <= a.spec_free_capacity()
                &&& r matches Ok(x) ==> x == (amt, Some(CreepTransfer { from: id, amount: amt }))
                    && crate::virtual_creep::accounts_shifted(a, b, Some(crate::virtual_creep::IntentEffect::Incoming(ENERGY, amt)))
                &&& r matches Err(e) ==> e == (IntentError::NotEnoughCapacity { resource: ENERGY, target: amt, curr: a.spec_free_capacity() })
                    && crate::virtual_creep::accounts_equal(a, b)
            },
            StopKind::Resource { energy } => if energy {
                &&& r matches Ok(x) ==> x.1 is None
                &&& crate::virtual_creep::register_outcome(a, b, IntentType::Pickup, crate::virtual_creep::Intent {
                    effect: Some(crate::virtual_creep::IntentEffect::Incoming(ENERGY,
                        crate::virtual_creep::min_u32(stop.energy, a.spec_free_capacity()))),
                    action: crate::virtual_creep::IntentAction::Pickup { pile: id },
                }, performed_amount(r))
            } else {
                &&& r == Err::<(u32, Option<CreepTransfer>), IntentError>(IntentError::WrongResource { resource: ENERGY })
                &&& b == a
            },
            _ => {
                let amt = crate::virtual_creep::transfer_from_amount(a, stop.energy, None);
                &&& r matches Ok(x) ==> x.1 is None
                &&& crate::virtual_creep::register_outcome(a, b, IntentType::Withdraw, crate::virtual_creep::Intent {
                    effect: Some(crate::virtual_creep::IntentEffect::Incoming(ENERGY, amt)),
                    action: crate::virtual_creep::IntentAction::Withdraw { target: id, resource: ENERGY, amount: amt },
                }, performed_amount(r))
            },
        },
        TruckTask::ProvidingTo(id) => {
            let amt = crate::virtual_creep::transfer_amount(a, ENERGY, None, stop.free);
            &&& r matches Ok(x) ==> x.1 is None
            &&& crate::virtual_creep::register_outcome(a, b, IntentType::Transfer, crate::virtual_creep::Intent {
                effect: Some(crate::virtual_creep::IntentEffect::Outgoing(ENERGY, amt)),
                action: crate::virtual_creep::IntentAction::Transfer { target: id, resource: ENERGY, amount: amt },
            }, performed_amount(r))
        },
    }
}

/// Collects from, or delivers to, the stop of the task.
fn perform(task: TruckTask, truck: &mut VirtualCreep, stop: StopView) -> (r: Result<(u32, Option<CreepTransfer>), IntentError>)
    requires
        old(truck).wf(),
    ensures
        final(truck).wf(),
        perform_outcome(task, stop, *old(truck), *final(truck), r),
{
    match task {
        TruckTask::CollectingFrom(id) => match stop.kind {
            StopKind::Creep => match truck.transfer_from(stop.energy, ENERGY, None) {
                Ok(a) => Ok((a, Some(CreepTransfer { from: id, amount: a }))),
                Err(e) => Err(e),
            },
            StopKind::Resource { energy } => {
                if energy {
                    match truck.pickup(id, ENERGY, stop.energy) {
                        Ok(a) => Ok((a, None)),
                        Err(e) => Err(e),
                    }
                } else {
                    Err(IntentError::WrongResource { resource: ENERGY })
                }
            },
            _ => match truck.withdraw(id, stop.energy, ENERGY, None) {
                Ok(a) => Ok((a, None)),
                Err(e) => Err(e),
            },
        },
        TruckTask::ProvidingTo(id) => match truck.transfer(id, stop.free, ENERGY, None) {
            Ok(a) => Ok((a, None)),
            Err(e) => Err(e),
        },
    }
}

/// The stop of a task.
pub open spec fn task_stop(t: TruckTask) -> u64 {
    match t {
        TruckTask::CollectingFrom(k) => k,
        TruckTask::ProvidingTo(k) => k,
    }
}

/// The inputs of a round are consistent: the truck and the coordinator are well
/// formed, the positions and views of all tasks' stops are known, and every task
/// is ready for the truck.
pub open spec fn round_ready(truck: VirtualCreep, truck_id: u64, truck_pos: u32, buffer: Option<BufferView>,
    coordinator: TruckCoordinator, positions: KeyedMap<u32>, stops: KeyedMap<StopView>, now: u32) -> bool {
    &&& truck.wf()
    &&& coordinator.wf()
    &&& positions.wf()
    &&& stops.wf()
    &&& packed_valid(truck_pos)
    &&& (buffer matches Some(b) ==> packed_valid(b.pos))
    &&& positions_known(coordinator.providers@, positions@)
    &&& positions_known(coordinator.consumers@, positions@)
    &&& stops_known(coordinator.providers@, stops@)
    &&& stops_known(coordinator.consumers@, stops@)
    &&& now as int + TIMEOUT + 1 <= u32::MAX
    &&& coordinator_ready(coordinator, truck_id, next_free(truck))
}

/// A failed intent waits (at `wait`) where its error may clear up, and is reported
/// otherwise.
pub open spec fn settle(e: IntentError, wait: TruckStep) -> Result<TruckStep, IntentError> {
    if deferable(e) { Ok(wait) } else { Err(e) }
}

/// The truck works on the task.
pub open spec fn task_present(c: TruckCoordinator, task: TruckTask, owner: u64) -> bool {
    match task {
        TruckTask::CollectingFrom(t) => c.provider_views().contains_key(t) && c.provider_views()[t].1.0.contains_key(owner),
        TruckTask::ProvidingTo(t) => c.consumer_views().contains_key(t) && c.consumer_views()[t].1.0.contains_key(owner),
    }
}

/// The workers and state of the task.
pub open spec fn task_collab(c: TruckCoordinator, task: TruckTask) -> CollabView {
    match task {
        TruckTask::CollectingFrom(t) => c.provider_views()[t].1,
        TruckTask::ProvidingTo(t) => c.consumer_views()[t].1,
    }
}

/// `b` is `a` with the workers and state of the task replaced by `x`.
pub open spec fn task_replaced(a: TruckCoordinator, b: TruckCoordinator, task: TruckTask, x: CollabView) -> bool {
    match task {
        TruckTask::CollectingFrom(t) => b.consumers == a.consumers
            && b.provider_views() == a.provider_views().insert(t, (a.provider_views()[t].0, x)),
        TruckTask::ProvidingTo(t) => b.providers == a.providers
            && b.consumer_views() == a.consumer_views().insert(t, (a.consumer_views()[t].0, x)),
    }
}

/// The two coordinators hold the same tasks.
pub open spec fn same_tasks(a: TruckCoordinator, b: TruckCoordinator) -> bool {
    a.provider_views() == b.provider_views() && a.consumer_views() == b.consumer_views()
}

/// An idle truck that found no task: it stays idle and goes next to the buffer.
pub open spec fn idle_rest(t0: VirtualCreep, t1: VirtualCreep, c0: TruckCoordinator, c1: TruckCoordinator,
    pos: u32, buffer: Option<BufferView>, r: Result<TruckStep, IntentError>) -> bool {
    let a = match buffer {
        Some(b) => if !spec_near(pos, b.pos) { spec_approach(has_move(t0), pos, b.pos) } else { Approach::Arrived },
        None => Approach::Arrived,
    };
    &&& c1 == c0
    &&& r == Ok::<TruckStep, IntentError>(stop_at(TruckCreep::Idle, a))
    &&& approached(t0, t1, a)
}

/// An idle truck with energy takes the best consumer, else stores its energy in
/// the buffer; an empty one takes a provider to push, else fills up from the
/// buffer for the best consumer, else takes the best provider. The truck takes on
/// its next free capacity at the task it takes.
pub open spec fn idle_outcome(t0: VirtualCreep, t1: VirtualCreep, id: u64, pos: u32, buffer: Option<BufferView>,
    c0: TruckCoordinator, c1: TruckCoordinator, positions: Map<u64, u32>, now: u32, r: Result<TruckStep, IntentError>) -> bool {
    let work = next_free(t0);
    if next_used_energy(t0) > 0 {
        if c0.consumer_views().dom() != Set::<u64>::empty() {
            &&& t1 == t0
            &&& exists|k: u64| #[trigger] consumer_choice(c0, c1, k, id, pos, positions, work, now)
                && r == Ok::<TruckStep, IntentError>(go_on(TruckCreep::Performing(TruckTask::ProvidingTo(k))))
        } else if buffer matches Some(b) && b.free > 0 {
            r == Ok::<TruckStep, IntentError>(go_on(TruckCreep::StoringAway)) && t1 == t0 && c1 == c0
        } else {
            idle_rest(t0, t1, c0, c1, pos, buffer, r)
        }
    } else if push_available(c0) {
        &&& t1 == t0
        &&& exists|k: u64| #[trigger] push_choice(c0, c1, k, id, pos, positions, work, now)
            && r == Ok::<TruckStep, IntentError>(go_on(TruckCreep::Performing(TruckTask::CollectingFrom(k))))
    } else if (buffer matches Some(b) && b.used > 0) && c0.consumer_views().dom() != Set::<u64>::empty() {
        &&& t1 == t0
        &&& exists|k: u64| #[trigger] consumer_choice(c0, c1, k, id, pos, positions, work, now)
            && r == Ok::<TruckStep, IntentError>(go_on(TruckCreep::FillingUpFor(k)))
    } else if c0.provider_views().dom() != Set::<u64>::empty() {
        &&& t1 == t0
        &&& exists|k: u64| #[trigger] provider_choice(c0, c1, k, id, pos, positions, work, now)
            && r == Ok::<TruckStep, IntentError>(go_on(TruckCreep::Performing(TruckTask::CollectingFrom(k))))
    } else {
        idle_rest(t0, t1, c0, c1, pos, buffer, r)
    }
}

/// A truck storing its energy goes to the buffer and transfers all its energy
/// there; it becomes idle once the buffer is full or the truck is empty.
pub open spec fn storing_outcome(t0: VirtualCreep, t1: VirtualCreep, pos: u32, buffer: Option<BufferView>,
    r: Result<TruckStep, IntentError>) -> bool {
    let this = TruckCreep::StoringAway;
    match buffer {
        None => r == Ok::<TruckStep, IntentError>(go_on(TruckCreep::Idle)) && t1 == t0,
        Some(b) => if b.free == 0 || next_used_energy(t0) == 0 {
            r == Ok::<TruckStep, IntentError>(go_on(TruckCreep::Idle)) && t1 == t0
        } else {
            let a = spec_approach(has_move(t0), pos, b.pos);
            if a != Approach::Arrived {
                r == Ok::<TruckStep, IntentError>(stop_at(this, a)) && approached(t0, t1, a)
            } else if t0.spec_incoming(ENERGY) > 0 {
                r == Ok::<TruckStep, IntentError>(stop_at(this, Approach::Arrived)) && t1 == t0
            } else {
                let amt = transfer_amount(t0, ENERGY, None, b.free);
                let i = Intent {
                    effect: Some(IntentEffect::Outgoing(ENERGY, amt)),
                    action: IntentAction::Transfer { target: b.id, resource: ENERGY, amount: amt },
                };
                let res = register_result(t0, IntentType::Transfer, i.effect);
                &&& register_outcome(t0, t1, IntentType::Transfer, i, res)
                &&& r == match res {
                    Ok(_) => Ok::<TruckStep, IntentError>(go_on(TruckCreep::Idle)),
                    Err(e) => settle(e, stop_at(this, Approach::Arrived)),
                }
            }
        },
    }
}

/// A truck filling up for a consumer collects from the buffer, then delivers; it
/// leaves the task where the buffer is empty.
pub open spec fn filling_outcome(consumer: u64, t0: VirtualCreep, t1: VirtualCreep, id: u64, pos: u32, buffer: Option<BufferView>,
    c0: TruckCoordinator, c1: TruckCoordinator, now: u32, r: Result<TruckStep, IntentError>) -> bool {
    let task = TruckTask::ProvidingTo(consumer);
    let this = TruckCreep::FillingUpFor(consumer);
    if !task_present(c0, task, id) {
        r == Ok::<TruckStep, IntentError>(go_on(TruckCreep::Idle)) && t1 == t0 && same_tasks(c0, c1)
    } else {
        let hv = heartbeat_view(task_collab(c0, task), id, now);
        match buffer {
            None => r == Ok::<TruckStep, IntentError>(go_on(TruckCreep::Idle)) && t1 == t0
                && task_replaced(c0, c1, task, left_view(hv, id)),
            Some(b) => if b.used == 0 {
                r == Ok::<TruckStep, IntentError>(go_on(TruckCreep::Idle)) && t1 == t0
                    && task_replaced(c0, c1, task, left_view(hv, id))
            } else if next_used_energy(t0) > 0 {
                r == Ok::<TruckStep, IntentError>(go_on(TruckCreep::Performing(task))) && t1 == t0
                    && task_replaced(c0, c1, task, hv)
            } else {
                let a = spec_approach(has_move(t0), pos, b.pos);
                if a != Approach::Arrived {
                    r == Ok::<TruckStep, IntentError>(stop_at(this, a)) && approached(t0, t1, a) && task_replaced(c0, c1, task, hv)
                } else if t0.spec_total_outgoing() > 0 {
                    r == Ok::<TruckStep, IntentError>(stop_at(this, Approach::Arrived)) && t1 == t0 && task_replaced(c0, c1, task, hv)
                } else {
                    let amt = transfer_from_amount(t0, b.used, None);
                    let i = Intent {
                        effect: Some(IntentEffect::Incoming(ENERGY, amt)),
                        action: IntentAction::Withdraw { target: b.id, resource: ENERGY, amount: amt },
                    };
                    let res = register_result(t0, IntentType::Withdraw, i.effect);
                    &&& register_outcome(t0, t1, IntentType::Withdraw, i, res)
                    &&& match res {
                        Ok(x) => r == Ok::<TruckStep, IntentError>(go_on(TruckCreep::Performing(task)))
                            && task_replaced(c0, c1, task, worked_view(hv, id, x)),
                        Err(e) => r == settle(e, stop_at(this, Approach::Arrived)) && task_replaced(c0, c1, task, hv),
                    }
                }
            },
        }
    }
}

/// A truck performing a task goes to its stop and collects or delivers there, then
/// leaves the task; a collecting truck that is full leaves it at once, and a
/// delivering truck that is empty fills up from the buffer first.
pub open spec fn performing_outcome(task: TruckTask, t0: VirtualCreep, t1: VirtualCreep, id: u64, pos: u32,
    c0: TruckCoordinator, c1: TruckCoordinator, positions: Map<u64, u32>, stops: Map<u64, StopView>, now: u32,
    r: Result<TruckStep, IntentError>) -> bool {
    let this = TruckCreep::Performing(task);
    if !task_present(c0, task, id) {
        r == Ok::<TruckStep, IntentError>(go_on(TruckCreep::Idle)) && t1 == t0 && same_tasks(c0, c1)
    } else {
        let hv = heartbeat_view(task_collab(c0, task), id, now);
        if task is CollectingFrom && next_free(t0) == 0 {
            r == Ok::<TruckStep, IntentError>(go_on(TruckCreep::Idle)) && t1 == t0
                && task_replaced(c0, c1, task, left_view(hv, id))
        } else if task is ProvidingTo && next_used_energy(t0) == 0 {
            r == Ok::<TruckStep, IntentError>(go_on(TruckCreep::FillingUpFor(task_stop(task)))) && t1 == t0
                && task_replaced(c0, c1, task, hv)
        } else {
            let a = spec_approach(has_move(t0), pos, positions[task_stop(task)]);
            if a != Approach::Arrived {
                r == Ok::<TruckStep, IntentError>(stop_at(this, a)) && approached(t0, t1, a) && task_replaced(c0, c1, task, hv)
            } else if t0.spec_incoming(ENERGY) > 0 {
                r == Ok::<TruckStep, IntentError>(stop_at(this, Approach::Arrived)) && t1 == t0 && task_replaced(c0, c1, task, hv)
            } else {
                exists|pr: Result<(u32, Option<CreepTransfer>), IntentError>| #[trigger] perform_outcome(task, stops[task_stop(task)], t0, t1, pr)
                    && match pr {
                        Ok(x) => r == Ok::<TruckStep, IntentError>(TruckStep {
                            transition: Transition::Continue(TruckCreep::Idle),
                            move_to: None,
                            transfer_in: x.1,
                        }) && task_replaced(c0, c1, task, left_view(worked_view(hv, id, x.0), id)),
                        Err(e) => r == settle(e, stop_at(this, Approach::Arrived)) && task_replaced(c0, c1, task, hv),
                    }
            }
        }
    }
}

/// Replacing a task's workers and state twice is replacing them once.
pub(crate) proof fn lemma_replaced_twice(c0: TruckCoordinator, c1: TruckCoordinator, c2: TruckCoordinator, task: TruckTask, x: CollabView, y: CollabView)
    requires
        task_replaced(c0, c1, task, x),
        task_replaced(c1, c2, task, y),
    ensures
        task_replaced(c0, c2, task, y),
{
    match task {
        TruckTask::CollectingFrom(t) => {
            assert(c2.provider_views() =~= c0.provider_views().insert(t, (c0.provider_views()[t].0, y)));
        },
        TruckTask::ProvidingTo(t) => {
            assert(c2.consumer_views() =~= c0.consumer_views().insert(t, (c0.consumer_views()[t].0, y)));
        },
    }
}

impl TruckCreep {
    /// One round of the truck's decisions.
    pub fn update(self, truck: &mut VirtualCreep, truck_id: u64, truck_pos: u32, buffer: Option<BufferView>,
        coordinator: &mut TruckCoordinator, positions: &KeyedMap<u32>, stops: &KeyedMap<StopView>, now: u32)
        -> (r: Result<TruckStep, IntentError>)
        requires
            round_ready(*old(truck), truck_id, truck_pos, buffer, *old(coordinator), *positions, *stops, now),
        ensures
            final(truck).wf(),
            final(coordinator).wf(),
            match self {
                TruckCreep::Idle => idle_outcome(*old(truck), *final(truck), truck_id, truck_pos, buffer,
                    *old(coordinator), *final(coordinator), positions@, now, r),
                TruckCreep::Performing(task) => performing_outcome(task, *old(truck), *final(truck), truck_id, truck_pos,
                    *old(coordinator), *final(coordinator), positions@, stops@, now, r),
                TruckCreep::FillingUpFor(c) => filling_outcome(c, *old(truck), *final(truck), truck_id, truck_pos, buffer,
                    *old(coordinator), *final(coordinator), now, r),
                TruckCreep::StoringAway => storing_outcome(*old(truck), *final(truck), truck_pos, buffer, r)
                    && *final(coordinator) == *old(coordinator),
            },
    {
        match self {
            TruckCreep::Idle => Self::update_idle(truck, truck_id, truck_pos, buffer, coordinator, positions, now),
            TruckCreep::Performing(task) => Self::update_performing(task, truck, truck_id, truck_pos, coordinator, positions, stops, now),
            TruckCreep::FillingUpFor(c) => Self::update_filling(c, truck, truck_id, truck_pos, buffer, coordinator, now),
            TruckCreep::StoringAway => Self::update_storing(truck, truck_pos, buffer),
        }
    }

    fn update_idle(truck: &mut VirtualCreep, truck_id: u64, truck_pos: u32, buffer: Option<BufferView>,
        coordinator: &mut TruckCoordinator, positions: &KeyedMap<u32>, now: u32) -> (r: Result<TruckStep, IntentError>)
        requires
            old(truck).wf(),
            old(coordinator).wf(),
            positions.wf(),
            packed_valid(truck_pos),
            buffer matches Some(b) ==> packed_valid(b.pos),
            positions_known(old(coordinator).providers@, positions@),
            positions_known(old(coordinator).consumers@, positions@),
            now as int + TIMEOUT + 1 <= u32::MAX,
            coordinator_ready(*old(coordinator), truck_id, next_free(*old(truck))),
        ensures
            final(truck).wf(),
            final(coordinator).wf(),
            idle_outcome(*old(truck), *final(truck), truck_id, truck_pos, buffer, *old(coordinator), *final(coordinator),
                positions@, now, r),
    {
        if truck.next_used_energy_capacity() > 0 {
            if let Some(c) = coordinator.assign_consumer(truck, truck_id, truck_pos, positions, now) {
                return Ok(TruckStep { transition: Transition::Continue(TruckCreep::Performing(TruckTask::ProvidingTo(c))), move_to: None, transfer_in: None });
            }
            if let Some(b) = buffer {
                if b.free > 0 {
                    return Ok(TruckStep { transition: Transition::Continue(TruckCreep::StoringAway), move_to: None, transfer_in: None });
                }
            }
        } else {
            if let Some(p) = coordinator.assign_push_provider(truck, truck_id, truck_pos, positions, now) {
                return Ok(TruckStep { transition: Transition::Continue(TruckCreep::Performing(TruckTask::CollectingFrom(p))), move_to: None, transfer_in: None });
            }
            if let Some(b) = buffer {
                if b.used > 0 {
                    if let Some(c) = coordinator.assign_consumer(truck, truck_id, truck_pos, positions, now) {
                        return Ok(TruckStep { transition: Transition::Continue(TruckCreep::FillingUpFor(c)), move_to: None, transfer_in: None });
                    }
                }
            }
            if let Some(p) = coordinator.assign_provider(truck, truck_id, truck_pos, positions, now) {
                return Ok(TruckStep { transition: Transition::Continue(TruckCreep::Performing(TruckTask::CollectingFrom(p))), move_to: None, transfer_in: None });
            }
        }
        let mut a = Approach::Arrived;
        if let Some(b) = buffer {
            if !positions_near(truck_pos, b.pos) {
                a = approach(truck, truck_pos, b.pos);
            }
        }
        Ok(TruckStep {
            transition: Transition::Break(TruckCreep::Idle),
            move_to: match a { Approach::Moving(t) => Some(t), _ => None },
            transfer_in: None,
        })
    }

    fn update_performing(task: TruckTask, truck: &mut VirtualCreep, truck_id: u64, truck_pos: u32,
        coordinator: &mut TruckCoordinator, positions: &KeyedMap<u32>, stops: &KeyedMap<StopView>, now: u32)
        -> (r: Result<TruckStep, IntentError>)
        requires
            old(truck).wf(),
            old(coordinator).wf(),
            positions.wf(),
            stops.wf(),
            packed_valid(truck_pos),
            positions_known(old(coordinator).providers@, positions@),
            positions_known(old(coordinator).consumers@, positions@),
            stops_known(old(coordinator).providers@, stops@),
            stops_known(old(coordinator).consumers@, stops@),
            now as int + TIMEOUT + 1 <= u32::MAX,
            coordinator_ready(*old(coordinator), truck_id, next_free(*old(truck))),
        ensures
            final(truck).wf(),
            final(coordinator).wf(),
            performing_outcome(task, *old(truck), *final(truck), truck_id, truck_pos, *old(coordinator), *final(coordinator),
                positions@, stops@, now, r),
    {
        let this = TruckCreep::Performing(task);
        let handle = match coordinator.heartbeat(truck_id, task, now) {
            None => {
                proof {
                    assert(coordinator.provider_views() =~= old(coordinator).provider_views());
                    assert(coordinator.consumer_views() =~= old(coordinator).consumer_views());
                }
                return Ok(TruckStep { transition: Transition::Continue(TruckCreep::Idle), move_to: None, transfer_in: None });
            },
            Some(h) => h,
        };
        let ghost ch = *coordinator;
        let ghost hv = heartbeat_view(task_collab(*old(coordinator), task), truck_id, now);
        proof {
            assert(task_replaced(*old(coordinator), ch, task, hv));
            assert(task_collab(ch, task) == hv);
        }
        match task {
            TruckTask::CollectingFrom(_) => {
                if truck.next_free_capacity() == 0 {
                    coordinator.release(task, handle);
                    proof {
                        lemma_replaced_twice(*old(coordinator), ch, *coordinator, task, hv, left_view(hv, truck_id));
                    }
                    return Ok(TruckStep { transition: Transition::Continue(TruckCreep::Idle), move_to: None, transfer_in: None });
                }
            },
            TruckTask::ProvidingTo(t) => {
                if truck.next_used_energy_capacity() == 0 {
                    return Ok(TruckStep { transition: Transition::Continue(TruckCreep::FillingUpFor(t)), move_to: None, transfer_in: None });
                }
            },
        }
        let stop_id = match task {
            TruckTask::CollectingFrom(k) => k,
            TruckTask::ProvidingTo(k) => k,
        };
        let target = *positions.get(stop_id).unwrap();
        let a = approach(truck, truck_pos, target);
        if a != Approach::Arrived {
            return Ok(TruckStep {
                transition: Transition::Break(this),
                move_to: match a { Approach::Moving(t) => Some(t), _ => None },
                transfer_in: None,
            });
        }
        if truck.incoming_energy() > 0 {
            return Ok(TruckStep { transition: Transition::Break(this), move_to: None, transfer_in: None });
        }
        let stop = *stops.get(stop_id).unwrap();
        let ghost t_before = *truck;
        let pr = perform(task, truck, stop);
        proof {
            assert(perform_outcome(task, stops@[task_stop(task)], t_before, *truck, pr));
        }
        match pr {
            Err(e) => {
                if e.is_deferable() {
                    Ok(TruckStep { transition: Transition::Break(this), move_to: None, transfer_in: None })
                } else {
                    Err(e)
                }
            },
            Ok((amount, transfer)) => {
                coordinator.consume(task, &handle, amount);
                let ghost cw = *coordinator;
                proof {
                    lemma_replaced_twice(*old(coordinator), ch, cw, task, hv, worked_view(hv, truck_id, amount));
                    assert(task_collab(cw, task) == worked_view(hv, truck_id, amount));
                }
                coordinator.release(task, handle);
                proof {
                    lemma_replaced_twice(*old(coordinator), cw, *coordinator, task, worked_view(hv, truck_id, amount),
                        left_view(worked_view(hv, truck_id, amount), truck_id));
                }
                Ok(TruckStep { transition: Transition::Continue(TruckCreep::Idle), move_to: None, transfer_in: transfer })
            },
        }
    }

    fn update_filling(consumer: u64, truck: &mut VirtualCreep, truck_id: u64, truck_pos: u32, buffer: Option<BufferView>,
        coordinator: &mut TruckCoordinator, now: u32) -> (r: Result<TruckStep, IntentError>)
        requires
            old(truck).wf(),
            old(coordinator).wf(),
            packed_valid(truck_pos),
            buffer matches Some(b) ==> packed_valid(b.pos),
            now as int + TIMEOUT + 1 <= u32::MAX,
            coordinator_ready(*old(coordinator), truck_id, next_free(*old(truck))),
        ensures
            final(truck).wf(),
            final(coordinator).wf(),
            filling_outcome(consumer, *old(truck), *final(truck), truck_id, truck_pos, buffer, *old(coordinator),
                *final(coordinator), now, r),
    {
        let this = TruckCreep::FillingUpFor(consumer);
        let task = TruckTask::ProvidingTo(consumer);
        let handle = match coordinator.heartbeat_consumer(truck_id, consumer, now) {
            None => {
                proof {
                    assert(coordinator.consumer_views() =~= old(coordinator).consumer_views());
                }
                return Ok(TruckStep { transition: Transition::Continue(TruckCreep::Idle), move_to: None, transfer_in: None });
            },
            Some(h) => h,
        };
        let ghost ch = *coordinator;
        let ghost hv = heartbeat_view(task_collab(*old(coordinator), task), truck_id, now);
        proof {
            assert(task_replaced(*old(coordinator), ch, task, hv));
            assert(task_collab(ch, task) == hv);
        }
        let has_energy = match buffer {
            Some(b) => b.used > 0,
            None => false,
        };
        if !has_energy {
            coordinator.release(task, handle);
            proof {
                let v = old(coordinator).consumer_views();
                assert(coordinator.consumer_views() =~= v.insert(consumer,
                    (v[consumer].0, left_view(heartbeat_view(v[consumer].1, truck_id, now), truck_id))));
            }
            return Ok(TruckStep { transition: Transition::Continue(TruckCreep::Idle), move_to: None, transfer_in: None });
        }
        let b = buffer.unwrap();
        if truck.next_used_energy_capacity() > 0 {
            return Ok(TruckStep { transition: Transition::Continue(TruckCreep::Performing(task)), move_to: None, transfer_in: None });
        }
        let a = approach(truck, truck_pos, b.pos);
        if a != Approach::Arrived {
            return Ok(TruckStep {
                transition: Transition::Break(this),
                move_to: match a { Approach::Moving(t) => Some(t), _ => None },
                transfer_in: None,
            });
        }
        if truck.outgoing() > 0 {
            return Ok(TruckStep { transition: Transition::Break(this), move_to: None, transfer_in: None });
        }
        match truck.withdraw(b.id, b.used, ENERGY, None) {
            Err(e) => {
                if e.is_deferable() {
                    Ok(TruckStep { transition: Transition::Break(this), move_to: None, transfer_in: None })
                } else {
                    Err(e)
                }
            },
            Ok(amount) => {
                coordinator.consume(task, &handle, amount);
                proof {
                    lemma_replaced_twice(*old(coordinator), ch, *coordinator, task, hv, worked_view(hv, truck_id, amount));
                }
                Ok(TruckStep { transition: Transition::Continue(TruckCreep::Performing(task)), move_to: None, transfer_in: None })
            },
        }
    }

    fn update_storing(truck: &mut VirtualCreep, truck_pos: u32, buffer: Option<BufferView>) -> (r: Result<TruckStep, IntentError>)
        requires
            old(truck).wf(),
            packed_valid(truck_pos),
            buffer matches Some(b) ==> packed_valid(b.pos),
        ensures
            final(truck).wf(),
            storing_outcome(*old(truck), *final(truck), truck_pos, buffer, r),
    {
        let this = TruckCreep::StoringAway;
        let has_room = match buffer {
            Some(b) => b.free > 0,
            None => false,
        };
        if !has_room {
            return Ok(TruckStep { transition: Transition::Continue(TruckCreep::Idle), move_to: None, transfer_in: None });
        }
        let b = buffer.unwrap();
        if truck.next_used_energy_capacity() == 0 {
            return Ok(TruckStep { transition: Transition::Continue(TruckCreep::Idle), move_to: None, transfer_in: None });
        }
        let a = approach(truck, truck_pos, b.pos);
        if a != Approach::Arrived {
            return Ok(TruckStep {
                transition: Transition::Break(this),
                move_to: match a { Approach::Moving(t) => Some(t), _ => None },
                transfer_in: None,
            });
        }
        if truck.incoming_energy() > 0 {
            return Ok(TruckStep { transition: Transition::Break(this), move_to: None, transfer_in: None });
        }
        match truck.transfer(b.id, b.free, ENERGY, None) {
            Err(e) => {
                if e.is_deferable() {
                    Ok(TruckStep { transition: Transition::Break(this), move_to: None, transfer_in: None })
                } else {
                    Err(e)
                }
            },
            Ok(_) => Ok(TruckStep { transition: Transition::Continue(TruckCreep::Idle), move_to: None, transfer_in: None }),
        }
    }
}

} // verus!
