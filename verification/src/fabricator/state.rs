//! What a fabricator does, one decision at a time: take a task from the
//! coordinator, fill up at the colony's buffer, go to the task and work on it.
use vstd::prelude::*;
use crate::coordination::expiring_map::TIMEOUT;
use crate::fabricator::coordinator::{ControllerView, FabricatorCoordinator, FabricatorTask, PoolView, StorageFill,
    StructureTask, assign_outcome, consumed, downgrade_in_range, holds_reservation, own_amount, pool_changed, refreshed,
    released, tasks_open_to, work_capacity};
use crate::movement::{Approach, approach_within, approached, deferable, has_move, next_used_energy, spec_approach_within};
use crate::position::packed_valid;
use crate::steps::Transition;
use crate::truck::state::BufferView;
use crate::virtual_creep::{ENERGY, Intent, IntentAction, IntentEffect, IntentError, IntentType, VirtualCreep,
    build_amount, register_outcome, register_result, repair_amount, transfer_from_amount, upgrade_controller_amount};
use crate::coordination::tasks::lemma_task_views;

verus! {

/// The states of a fabricator.
#[derive(PartialEq, Eq, Structural, Clone, Copy, Debug)]
pub enum FabricatorCreep {
    Idle,
    /// Filling up at the buffer for a task.
    CollectingFor(FabricatorTask),
    Performing(FabricatorTask),
}

/// What the colony offers a fabricator this tick: its controller, its buffer, and
/// the fill of its storage where the buffer is one.
#[derive(PartialEq, Eq, Structural, Clone, Copy, Debug)]
pub struct FabricatorHome {
    pub controller: ControllerView,
    pub buffer: Option<BufferView>,
    pub storage: Option<StorageFill>,
}

/// What one round decided: the transition, and where the fabricator is to move.
#[derive(PartialEq, Eq, Structural, Clone, Copy, Debug)]
pub struct FabricatorStep {
    pub transition: Transition<FabricatorCreep>,
    pub move_to: Option<u32>,
}

/// The step that stops at `s`, with a move towards the target if one was registered.
pub open spec fn stay(s: FabricatorCreep, a: Approach) -> FabricatorStep {
    FabricatorStep {
        transition: Transition::Break(s),
        move_to: match a { Approach::Moving(t) => Some(t), _ => None },
    }
}

/// The step that goes on to `s` in the same tick.
pub open spec fn go_on(s: FabricatorCreep) -> FabricatorStep {
    FabricatorStep { transition: Transition::Continue(s), move_to: None }
}

/// A failed intent waits in state `s` where its error may clear up, and is
/// reported otherwise.
pub open spec fn settle_work(e: IntentError, s: FabricatorCreep) -> Result<FabricatorStep, IntentError> {
    if deferable(e) { Ok(stay(s, Approach::Arrived)) } else { Err(e) }
}

/// The repair work a fabricator reserves.
pub open spec fn repair_contribution(ticks_to_live: u32, work: u8) -> u32 {
    (work_capacity(ticks_to_live, work) * 100) as u32
}

/// The build work a fabricator reserves.
pub open spec fn build_contribution(ticks_to_live: u32, work: u8) -> u32 {
    (work_capacity(ticks_to_live, work) * 5) as u32
}

/// Every structure has no more hits than its maximum, and every site no more
/// progress than its total.
pub open spec fn sites_sound(c: FabricatorCoordinator) -> bool {
    &&& forall|k: u64| #[trigger] c.repair_views().contains_key(k) ==> c.repair_views()[k].0.hits <= c.repair_views()[k].0.hits_max
    &&& forall|k: u64| #[trigger] c.build_views().contains_key(k) ==> c.build_views()[k].0.progress <= c.build_views()[k].0.progress_total
}

/// The coordinator holds the structure task.
pub open spec fn structure_task_open(c: FabricatorCoordinator, task: StructureTask) -> bool {
    match task {
        StructureTask::Building(k) => c.build_views().contains_key(k),
        StructureTask::Repairing(k) => c.repair_views().contains_key(k),
    }
}

/// Where the structure or site of the task is.
pub open spec fn structure_pos(c: FabricatorCoordinator, task: StructureTask) -> u32 {
    match task {
        StructureTask::Building(k) => c.build_views()[k].0.pos,
        StructureTask::Repairing(k) => c.repair_views()[k].0.pos,
    }
}

/// The kind of intent that working on the task registers.
pub open spec fn structure_work_type(task: StructureTask) -> IntentType {
    match task {
        StructureTask::Building(_) => IntentType::Build,
        StructureTask::Repairing(_) => IntentType::Repair,
    }
}

/// The intent that working on the task registers for fabricator `t`: building
/// the site, or repairing the structure, as far as its energy goes.
pub open spec fn structure_work_intent(c: FabricatorCoordinator, task: StructureTask, t: VirtualCreep) -> Intent {
    match task {
        StructureTask::Building(k) => {
            let s = c.build_views()[k].0;
            Intent {
                effect: Some(IntentEffect::Outgoing(ENERGY, build_amount(t, s.progress, s.progress_total))),
                action: IntentAction::Build { site: k },
            }
        },
        StructureTask::Repairing(k) => {
            let s = c.repair_views()[k].0;
            Intent {
                effect: Some(IntentEffect::Outgoing(ENERGY, repair_amount(t, s.hits, s.hits_max))),
                action: IntentAction::Repair { target: k },
            }
        },
    }
}

/// The pool that the task draws on, where the coordinator has it.
pub open spec fn pool_of(c: FabricatorCoordinator, task: FabricatorTask) -> PoolView {
    match task {
        FabricatorTask::Structure(StructureTask::Repairing(k)) => c.repair_views()[k].1,
        FabricatorTask::Structure(StructureTask::Building(k)) => c.build_views()[k].1,
        FabricatorTask::Upgrading => c.upgrade_view(),
    }
}

/// `b` is `a` with the pool of the task replaced by `x`.
pub open spec fn pool_replaced(a: FabricatorCoordinator, b: FabricatorCoordinator, task: FabricatorTask, x: PoolView) -> bool {
    match task {
        FabricatorTask::Structure(StructureTask::Repairing(k)) => {
            &&& b.builds == a.builds
            &&& b.upgrade == a.upgrade
            &&& b.repair_views() == a.repair_views().insert(k, (a.repair_views()[k].0, x))
        },
        FabricatorTask::Structure(StructureTask::Building(k)) => {
            &&& b.repairs == a.repairs
            &&& b.upgrade == a.upgrade
            &&& b.build_views() == a.build_views().insert(k, (a.build_views()[k].0, x))
        },
        FabricatorTask::Upgrading => {
            &&& b.repairs == a.repairs
            &&& b.builds == a.builds
            &&& b.upgrade_view() == x
        },
    }
}

/// A change to a pool that is held is a replacement of it.
proof fn lemma_changed_is_replaced(a: FabricatorCoordinator, b: FabricatorCoordinator, task: FabricatorTask, owner: u64,
    f: spec_fn(PoolView) -> PoolView)
    requires
        holds_reservation(a, task, owner),
        pool_changed(a, b, task, f),
    ensures
        pool_replaced(a, b, task, f(pool_of(a, task))),
{
}

/// A replacement of a pool followed by a change to it is a replacement.
proof fn lemma_replaced_then_changed(a: FabricatorCoordinator, b: FabricatorCoordinator, c: FabricatorCoordinator,
    task: FabricatorTask, x: PoolView, f: spec_fn(PoolView) -> PoolView)
    requires
        pool_replaced(a, b, task, x),
        pool_changed(b, c, task, f),
    ensures
        pool_replaced(a, c, task, f(x)),
{
    match task {
        FabricatorTask::Structure(StructureTask::Repairing(k)) => {
            assert(b.repair_views().contains_key(k));
            assert(c.repair_views() =~= a.repair_views().insert(k, (a.repair_views()[k].0, f(x))));
        },
        FabricatorTask::Structure(StructureTask::Building(k)) => {
            assert(b.build_views().contains_key(k));
            assert(c.build_views() =~= a.build_views().insert(k, (a.build_views()[k].0, f(x))));
        },
        FabricatorTask::Upgrading => {},
    }
}

/// The inputs of a round are consistent: the fabricator and the coordinator are
/// well formed, all positions are valid, the controller's timer is within its
/// level's, the sites are sound, and the fabricator can reserve its work on
/// every task.
pub open spec fn round_ready(creep: VirtualCreep, owner: u64, pos: u32, ticks_to_live: u32, home: FabricatorHome,
    c: FabricatorCoordinator, now: u32) -> bool {
    &&& creep.wf()
    &&& c.wf()
    &&& packed_valid(pos)
    &&& packed_valid(home.controller.pos)
    &&& (home.buffer matches Some(b) ==> packed_valid(b.pos))
    &&& downgrade_in_range(home.controller)
    &&& sites_sound(c)
    &&& tasks_open_to(c, owner, repair_contribution(ticks_to_live, creep.spec_work_parts()),
        build_contribution(ticks_to_live, creep.spec_work_parts()), creep.spec_work_parts() as u32)
    &&& now as int + TIMEOUT + 1 <= u32::MAX
}

/// An idle fabricator takes the task that the coordinator assigns it and goes on
/// to perform it; without one it stays idle.
pub open spec fn idle_outcome(t0: VirtualCreep, t1: VirtualCreep, c0: FabricatorCoordinator, c1: FabricatorCoordinator,
    owner: u64, pos: u32, ticks_to_live: u32, home: FabricatorHome, now: u32, r: Result<FabricatorStep, IntentError>) -> bool {
    &&& t1 == t0
    &&& exists|task: Option<FabricatorTask>| #[trigger] assign_outcome(c0, c1, task, owner, pos, ticks_to_live,
        t0.spec_work_parts(), home.controller, home.storage, now)
        && r == Ok::<FabricatorStep, IntentError>(match task {
            Some(t) => go_on(FabricatorCreep::Performing(t)),
            None => stay(FabricatorCreep::Idle, Approach::Arrived),
        })
}

/// A fabricator collecting for a task refreshes its reservation, going idle
/// without one; with energy on hand or coming it goes on to perform the task;
/// otherwise it goes next to the buffer and withdraws what it can carry there,
/// waiting while the buffer is empty or energy is leaving it this tick.
pub open spec fn collecting_outcome(task: FabricatorTask, t0: VirtualCreep, t1: VirtualCreep, c0: FabricatorCoordinator,
    c1: FabricatorCoordinator, owner: u64, pos: u32, home: FabricatorHome, now: u32, r: Result<FabricatorStep, IntentError>) -> bool {
    let this = FabricatorCreep::CollectingFor(task);
    &&& pool_changed(c0, c1, task, |v: PoolView| refreshed(v, owner, now))
    &&& if !holds_reservation(c0, task, owner) {
        r == Ok::<FabricatorStep, IntentError>(go_on(FabricatorCreep::Idle)) && t1 == t0
    } else if next_used_energy(t0) > 0 {
        r == Ok::<FabricatorStep, IntentError>(go_on(FabricatorCreep::Performing(task))) && t1 == t0
    } else {
        match home.buffer {
            None => r == Ok::<FabricatorStep, IntentError>(stay(this, Approach::Arrived)) && t1 == t0,
            Some(b) => {
                let a = spec_approach_within(has_move(t0), pos, b.pos, 1);
                if a != Approach::Arrived {
                    r == Ok::<FabricatorStep, IntentError>(stay(this, a)) && approached(t0, t1, a)
                } else if b.used == 0 || t0.spec_total_outgoing() > 0 {
                    r == Ok::<FabricatorStep, IntentError>(stay(this, Approach::Arrived)) && t1 == t0
                } else {
                    let amt = transfer_from_amount(t0, b.used, None);
                    let i = Intent {
                        effect: Some(IntentEffect::Incoming(ENERGY, amt)),
                        action: IntentAction::Withdraw { target: b.id, resource: ENERGY, amount: amt },
                    };
                    let res = register_result(t0, IntentType::Withdraw, i.effect);
                    &&& register_outcome(t0, t1, IntentType::Withdraw, i, res)
                    &&& r == match res {
                        Ok(_) => Ok::<FabricatorStep, IntentError>(go_on(FabricatorCreep::Performing(task))),
                        Err(e) => settle_work(e, this),
                    }
                }
            },
        }
    }
}

/// A fabricator performing a task collects first where it has no energy on hand
/// or coming; otherwise it refreshes its reservation, going idle without one, goes
/// within range of the task (1 of a structure or site, 3 of the controller), and
/// works on it with the energy it holds. Work on a structure is taken off the
/// reservation, and the fabricator leaves the task, idle, once nothing of its
/// reservation is left; an upgrading fabricator stays on.
pub open spec fn performing_outcome(task: FabricatorTask, t0: VirtualCreep, t1: VirtualCreep, c0: FabricatorCoordinator,
    c1: FabricatorCoordinator, owner: u64, pos: u32, home: FabricatorHome, now: u32, r: Result<FabricatorStep, IntentError>) -> bool {
    let this = FabricatorCreep::Performing(task);
    if next_used_energy(t0) == 0 {
        r == Ok::<FabricatorStep, IntentError>(go_on(FabricatorCreep::CollectingFor(task))) && t1 == t0 && c1 == c0
    } else if !holds_reservation(c0, task, owner) {
        &&& r == Ok::<FabricatorStep, IntentError>(go_on(FabricatorCreep::Idle))
        &&& t1 == t0
        &&& pool_changed(c0, c1, task, |v: PoolView| refreshed(v, owner, now))
    } else {
        let held = refreshed(pool_of(c0, task), owner, now);
        let a = match task {
            FabricatorTask::Structure(st) => spec_approach_within(has_move(t0), pos, structure_pos(c0, st), 1),
            FabricatorTask::Upgrading => spec_approach_within(has_move(t0), pos, home.controller.pos, 3),
        };
        if a != Approach::Arrived {
            r == Ok::<FabricatorStep, IntentError>(stay(this, a)) && approached(t0, t1, a) && pool_replaced(c0, c1, task, held)
        } else if t0.spec_resource(ENERGY) == 0 {
            r == Ok::<FabricatorStep, IntentError>(stay(this, Approach::Arrived)) && t1 == t0 && pool_replaced(c0, c1, task, held)
        } else {
            match task {
                FabricatorTask::Structure(st) => {
                    let ty = structure_work_type(st);
                    let i = structure_work_intent(c0, st, t0);
                    let res = register_result(t0, ty, i.effect);
                    &&& register_outcome(t0, t1, ty, i, res)
                    &&& match res {
                        Ok(x) => {
                            let worked = consumed(held, owner, x);
                            if own_amount(worked, owner) > 0 {
                                r == Ok::<FabricatorStep, IntentError>(stay(this, Approach::Arrived)) && pool_replaced(c0, c1, task, worked)
                            } else {
                                r == Ok::<FabricatorStep, IntentError>(go_on(FabricatorCreep::Idle))
                                    && pool_replaced(c0, c1, task, released(worked, owner))
                            }
                        },
                        Err(e) => r == settle_work(e, this) && pool_replaced(c0, c1, task, held),
                    }
                },
                FabricatorTask::Upgrading => {
                    let i = Intent {
                        effect: Some(IntentEffect::Outgoing(ENERGY, upgrade_controller_amount(t0))),
                        action: IntentAction::UpgradeController { controller: home.controller.id },
                    };
                    let res = register_result(t0, IntentType::UpgradeController, i.effect);
                    &&& register_outcome(t0, t1, IntentType::UpgradeController, i, res)
                    &&& pool_replaced(c0, c1, task, held)
                    &&& r == match res {
                        Ok(_) => Ok::<FabricatorStep, IntentError>(stay(this, Approach::Arrived)),
                        Err(e) => settle_work(e, this),
                    }
                },
            }
        }
    }
}

impl StructureTask {
    /// Where the task's structure or site is.
    pub fn pos(&self, coordinator: &FabricatorCoordinator) -> (p: u32)
        requires
            coordinator.wf(),
            structure_task_open(*coordinator, *self),
        ensures
            p == structure_pos(*coordinator, *self),
    {
        match self {
            StructureTask::Building(k) => {
                proof {
                    lemma_task_views(coordinator.builds@);
                }
                coordinator.builds.get(*k).unwrap().0.pos
            },
            StructureTask::Repairing(k) => {
                proof {
                    lemma_task_views(coordinator.repairs@);
                }
                coordinator.repairs.get(*k).unwrap().0.pos
            },
        }
    }

    /// Registers the fabricator's work on the task: building the site, or
    /// repairing the structure. Gives the energy it spends.
    pub fn creep_work(&self, creep: &mut VirtualCreep, coordinator: &FabricatorCoordinator) -> (r: Result<u32, IntentError>)
        requires
            old(creep).wf(),
            coordinator.wf(),
            sites_sound(*coordinator),
            structure_task_open(*coordinator, *self),
        ensures
            final(creep).wf(),
            register_outcome(*old(creep), *final(creep), structure_work_type(*self),
                structure_work_intent(*coordinator, *self, *old(creep)), r),
    {
        match self {
            StructureTask::Building(k) => {
                proof {
                    lemma_task_views(coordinator.builds@);
                }
                let site = coordinator.builds.get(*k).unwrap().0;
                creep.build(*k, site.progress, site.progress_total)
            },
            StructureTask::Repairing(k) => {
                proof {
                    lemma_task_views(coordinator.repairs@);
                }
                let site = coordinator.repairs.get(*k).unwrap().0;
                creep.repair(*k, site.hits, site.hits_max)
            },
        }
    }
}

impl FabricatorCreep {
    /// The fabricator takes energy: it has a task.
    pub fn is_consumer(&self) -> (b: bool)
        ensures
            b == !(*self is Idle),
    {
        match self {
            FabricatorCreep::Idle => false,
            _ => true,
        }
    }

    /// The fabricator can give energy away: it is idle.
    pub fn is_provider(&self) -> (b: bool)
        ensures
            b == (*self is Idle),
    {
        match self {
            FabricatorCreep::Idle => true,
            _ => false,
        }
    }

    /// One round of the fabricator's decisions.
    pub fn update(self, creep: &mut VirtualCreep, owner: u64, pos: u32, ticks_to_live: u32, home: &FabricatorHome,
        coordinator: &mut FabricatorCoordinator, now: u32) -> (r: Result<FabricatorStep, IntentError>)
        requires
            round_ready(*old(creep), owner, pos, ticks_to_live, *home, *old(coordinator), now),
        ensures
            final(creep).wf(),
            final(coordinator).wf(),
            match self {
                FabricatorCreep::Idle => idle_outcome(*old(creep), *final(creep), *old(coordinator), *final(coordinator),
                    owner, pos, ticks_to_live, *home, now, r),
                FabricatorCreep::CollectingFor(task) => collecting_outcome(task, *old(creep), *final(creep),
                    *old(coordinator), *final(coordinator), owner, pos, *home, now, r),
                FabricatorCreep::Performing(task) => performing_outcome(task, *old(creep), *final(creep),
                    *old(coordinator), *final(coordinator), owner, pos, *home, now, r),
            },
    {
        match self {
            FabricatorCreep::Idle => {
                let t = coordinator.assign_task(creep, owner, pos, ticks_to_live, &home.controller, home.storage, now);
                match t {
                    Some(task) => Ok(FabricatorStep { transition: Transition::Continue(FabricatorCreep::Performing(task)), move_to: None }),
                    None => Ok(FabricatorStep { transition: Transition::Break(FabricatorCreep::Idle), move_to: None }),
                }
            },
            FabricatorCreep::CollectingFor(task) => Self::update_collecting(task, creep, owner, pos, home, coordinator, now),
            FabricatorCreep::Performing(task) => Self::update_performing(task, creep, owner, pos, home, coordinator, now),
        }
    }

    fn update_collecting(task: FabricatorTask, creep: &mut VirtualCreep, owner: u64, pos: u32, home: &FabricatorHome,
        coordinator: &mut FabricatorCoordinator, now: u32) -> (r: Result<FabricatorStep, IntentError>)
        requires
            old(creep).wf(),
            old(coordinator).wf(),
            packed_valid(pos),
            home.buffer matches Some(b) ==> packed_valid(b.pos),
            now as int + TIMEOUT + 1 <= u32::MAX,
        ensures
            final(creep).wf(),
            final(coordinator).wf(),
            collecting_outcome(task, *old(creep), *final(creep), *old(coordinator), *final(coordinator), owner, pos, *home, now, r),
    {
        let this = FabricatorCreep::CollectingFor(task);
        if coordinator.refresh(owner, task, now).is_none() {
            return Ok(FabricatorStep { transition: Transition::Continue(FabricatorCreep::Idle), move_to: None });
        }
        if creep.next_used_energy_capacity() > 0 {
            return Ok(FabricatorStep { transition: Transition::Continue(FabricatorCreep::Performing(task)), move_to: None });
        }
        let b = match home.buffer {
            None => {
                return Ok(FabricatorStep { transition: Transition::Break(this), move_to: None });
            },
            Some(b) => b,
        };
        let a = approach_within(creep, pos, b.pos, 1);
        if a != Approach::Arrived {
            return Ok(FabricatorStep {
                transition: Transition::Break(this),
                move_to: match a { Approach::Moving(t) => Some(t), _ => None },
            });
        }
        if b.used == 0 || creep.outgoing() > 0 {
            return Ok(FabricatorStep { transition: Transition::Break(this), move_to: None });
        }
        match creep.withdraw(b.id, b.used, ENERGY, None) {
            Ok(_) => Ok(FabricatorStep { transition: Transition::Continue(FabricatorCreep::Performing(task)), move_to: None }),
            Err(e) => {
                if e.is_deferable() {
                    Ok(FabricatorStep { transition: Transition::Break(this), move_to: None })
                } else {
                    Err(e)
                }
            },
        }
    }

    fn update_performing(task: FabricatorTask, creep: &mut VirtualCreep, owner: u64, pos: u32, home: &FabricatorHome,
        coordinator: &mut FabricatorCoordinator, now: u32) -> (r: Result<FabricatorStep, IntentError>)
        requires
            old(creep).wf(),
            old(coordinator).wf(),
            packed_valid(pos),
            packed_valid(home.controller.pos),
            sites_sound(*old(coordinator)),
            forall|k: u64| #[trigger] old(coordinator).repair_views().contains_key(k)
                ==> packed_valid(old(coordinator).repair_views()[k].0.pos)
                    && old(coordinator).repair_views()[k].1.1.reserved >= own_amount(old(coordinator).repair_views()[k].1, owner),
            forall|k: u64| #[trigger] old(coordinator).build_views().contains_key(k)
                ==> packed_valid(old(coordinator).build_views()[k].0.pos)
                    && old(coordinator).build_views()[k].1.1.reserved >= own_amount(old(coordinator).build_views()[k].1, owner),
            now as int + TIMEOUT + 1 <= u32::MAX,
        ensures
            final(creep).wf(),
            final(coordinator).wf(),
            performing_outcome(task, *old(creep), *final(creep), *old(coordinator), *final(coordinator), owner, pos, *home, now, r),
    {
        let this = FabricatorCreep::Performing(task);
        if creep.next_used_energy_capacity() == 0 {
            return Ok(FabricatorStep { transition: Transition::Continue(FabricatorCreep::CollectingFor(task)), move_to: None });
        }
        let ghost c0 = *coordinator;
        let handle = match coordinator.refresh(owner, task, now) {
            None => {
                return Ok(FabricatorStep { transition: Transition::Continue(FabricatorCreep::Idle), move_to: None });
            },
            Some(h) => h,
        };
        let ghost c1 = *coordinator;
        let ghost held = refreshed(pool_of(c0, task), owner, now);
        proof {
            lemma_changed_is_replaced(c0, c1, task, owner, |v: PoolView| refreshed(v, owner, now));
            lemma_task_views(c0.repairs@);
            lemma_task_views(c0.builds@);
        }
        match task {
            FabricatorTask::Structure(st) => {
                let target = st.pos(coordinator);
                let a = approach_within(creep, pos, target, 1);
                if a != Approach::Arrived {
                    return Ok(FabricatorStep {
                        transition: Transition::Break(this),
                        move_to: match a { Approach::Moving(t) => Some(t), _ => None },
                    });
                }
                if creep.curr_used_energy_capacity() == 0 {
                    return Ok(FabricatorStep { transition: Transition::Break(this), move_to: None });
                }
                proof {
                    assert(structure_work_intent(c1, st, *creep) == structure_work_intent(c0, st, *creep));
                }
                match st.creep_work(creep, coordinator) {
                    Err(e) => {
                        if e.is_deferable() {
                            Ok(FabricatorStep { transition: Transition::Break(this), move_to: None })
                        } else {
                            Err(e)
                        }
                    },
                    Ok(x) => {
                        coordinator.consume(task, &handle, x);
                        let ghost c2 = *coordinator;
                        proof {
                            lemma_replaced_then_changed(c0, c1, c2, task, held, |v: PoolView| consumed(v, owner, x));
                        }
                        if coordinator.reserved(task, &handle) > 0 {
                            Ok(FabricatorStep { transition: Transition::Break(this), move_to: None })
                        } else {
                            coordinator.release(task, handle);
                            proof {
                                lemma_replaced_then_changed(c0, c2, *coordinator, task, consumed(held, owner, x),
                                    |v: PoolView| released(v, owner));
                            }
                            Ok(FabricatorStep { transition: Transition::Continue(FabricatorCreep::Idle), move_to: None })
                        }
                    },
                }
            },
            FabricatorTask::Upgrading => {
                let a = approach_within(creep, pos, home.controller.pos, 3);
                if a != Approach::Arrived {
                    return Ok(FabricatorStep {
                        transition: Transition::Break(this),
                        move_to: match a { Approach::Moving(t) => Some(t), _ => None },
                    });
                }
                if creep.curr_used_energy_capacity() == 0 {
                    return Ok(FabricatorStep { transition: Transition::Break(this), move_to: None });
                }
                match creep.upgrade_controller(home.controller.id) {
                    Ok(_) => Ok(FabricatorStep { transition: Transition::Break(this), move_to: None }),
                    Err(e) => {
                        if e.is_deferable() {
                            Ok(FabricatorStep { transition: Transition::Break(this), move_to: None })
                        } else {
                            Err(e)
                        }
                    },
                }
            },
        }
    }
}

} // verus!
