//! Trucks that bring energy home from colonies that have plenty: they collect from
//! such a colony's buffer, bring it home and hand it to consumers, or to the home
//! buffer.
use vstd::prelude::*;
use crate::coordination::collaboration::CollaborativeWorkerHandle;
use crate::coordination::expiring_map::TIMEOUT;
use crate::keyed::KeyedMap;
use crate::position::{packed_valid, spec_range};
use crate::steps::{ColonyStep, Transition, step_index};
use crate::truck::coordinator::{TruckCoordinator, TruckTask, positions_known, next_free, heartbeat_view, left_view,
    worked_view, consumer_choice};
use crate::movement::{Approach, approach_within, spec_approach_within, approached, deferable, has_move, next_used_energy};
use crate::truck::state::{BufferView, StopView, task_replaced, task_present, task_collab, same_tasks, stops_known, coordinator_ready,
    lemma_replaced_twice};
use crate::virtual_creep::{ENERGY, Intent, IntentAction, IntentEffect, IntentError, IntentType, VirtualCreep,
    register_outcome, register_result, transfer_amount, transfer_from_amount};

verus! {

/// The step from which colonies stop importing energy.
pub const STOP_IMPORT_STEP: ColonyStep = ColonyStep::UpgradeToLevel5;
/// The step from which colonies give energy away.
pub const START_EXPORT_STEP: ColonyStep = ColonyStep::UpgradeToLevel6;
/// A colony gives energy away while its buffer holds more than this.
pub const ENERGY_THRESHOLD: u32 = 10_000;

/// The states of an importing truck.
#[derive(PartialEq, Eq, Structural, Clone, Copy, Debug)]
pub enum ImportTruckState {
    Idle,
    /// Collecting from the buffer of the colony in this room.
    CollectingFrom(u64),
    GoingHome,
    ProvidingIdle,
    ProvidingTo(u64),
    /// Storing away in this buffer.
    StoringAway(u64),
}

/// What an importing truck reads of a colony: its step, and its buffer.
#[derive(PartialEq, Eq, Structural, Clone, Copy, Debug)]
pub struct ColonyInfo {
    pub step: ColonyStep,
    pub buffer: Option<BufferView>,
}

/// Why a round failed.
#[derive(PartialEq, Eq, Structural, Clone, Copy, Debug)]
pub enum ImportError {
    /// The room is not a colony.
    NotAColony(u64),
    /// The colony has no buffer.
    NoBuffer(u64),
    Intent(IntentError),
}

/// What one round decided: the transition, and where the truck is to move.
#[derive(PartialEq, Eq, Structural, Clone, Copy, Debug)]
pub struct ImportStep {
    pub transition: Transition<ImportTruckState>,
    pub move_to: Option<u32>,
}

/// The energy in a colony's buffer (0 without one).
pub open spec fn stored_energy(c: ColonyInfo) -> u32 {
    match c.buffer {
        Some(b) => b.used,
        None => 0,
    }
}

/// The colony is far enough along to give energy away.
pub open spec fn exports(c: ColonyInfo) -> bool {
    step_index(c.step) >= step_index(START_EXPORT_STEP)
}

/// Some exporting colony holds more than the threshold.
pub open spec fn export_available(colonies: Map<u64, ColonyInfo>) -> bool {
    exists|k: u64| #[trigger] colonies.contains_key(k) && exports(colonies[k]) && stored_energy(colonies[k]) > ENERGY_THRESHOLD
}

/// `k` is an exporting colony that holds the most energy.
pub open spec fn export_choice(colonies: Map<u64, ColonyInfo>, k: u64) -> bool {
    &&& colonies.contains_key(k)
    &&& exports(colonies[k])
    &&& stored_energy(colonies[k]) > ENERGY_THRESHOLD
    &&& forall|j: u64| #[trigger] colonies.contains_key(j) && exports(colonies[j])
        ==> stored_energy(colonies[j]) <= stored_energy(colonies[k])
}

/// The step that goes on to `s` in the same tick.
pub open spec fn next(s: ImportTruckState) -> Result<ImportStep, ImportError> {
    Ok(ImportStep { transition: Transition::Continue(s), move_to: None })
}

/// The step that stops at `s`, with a move towards the target if one was registered.
pub open spec fn wait(s: ImportTruckState, a: Approach) -> Result<ImportStep, ImportError> {
    Ok(ImportStep {
        transition: Transition::Break(s),
        move_to: match a { Approach::Moving(t) => Some(t), _ => None },
    })
}

/// A failed intent waits where its error may clear up, and is reported otherwise.
pub open spec fn settle_import(e: IntentError, s: ImportTruckState) -> Result<ImportStep, ImportError> {
    if deferable(e) { wait(s, Approach::Arrived) } else { Err(ImportError::Intent(e)) }
}

/// One round of an importing truck, over the state of its creep and coordinator
/// before (`t0`, `c0`) and after (`t1`, `c1`).
pub open spec fn import_outcome(s: ImportTruckState, t0: VirtualCreep, t1: VirtualCreep, id: u64, pos: u32,
    home_center: u32, home_buffer: Option<BufferView>, colonies: Map<u64, ColonyInfo>, buffers: Map<u64, BufferView>,
    c0: TruckCoordinator, c1: TruckCoordinator, positions: Map<u64, u32>, stops: Map<u64, StopView>, now: u32,
    r: Result<ImportStep, ImportError>) -> bool {
    match s {
        ImportTruckState::Idle => {
            &&& t1 == t0
            &&& c1 == c0
            &&& if export_available(colonies) {
                exists|k: u64| #[trigger] export_choice(colonies, k) && r == next(ImportTruckState::CollectingFrom(k))
            } else {
                r == wait(s, Approach::Arrived)
            }
        },
        ImportTruckState::CollectingFrom(room) => {
            &&& c1 == c0
            &&& if !colonies.contains_key(room) {
                r == Err::<ImportStep, ImportError>(ImportError::NotAColony(room)) && t1 == t0
            } else {
                match colonies[room].buffer {
                    None => r == Err::<ImportStep, ImportError>(ImportError::NoBuffer(room)) && t1 == t0,
                    Some(b) => if b.used < ENERGY_THRESHOLD {
                        r == next(ImportTruckState::Idle) && t1 == t0
                    } else {
                        let a = spec_approach_within(has_move(t0), pos, b.pos, 1);
                        if a != Approach::Arrived {
                            r == wait(s, a) && approached(t0, t1, a)
                        } else {
                            let amt = transfer_from_amount(t0, b.used, None);
                            let i = Intent {
                                effect: Some(IntentEffect::Incoming(ENERGY, amt)),
                                action: IntentAction::Withdraw { target: b.id, resource: ENERGY, amount: amt },
                            };
                            let res = register_result(t0, IntentType::Withdraw, i.effect);
                            &&& register_outcome(t0, t1, IntentType::Withdraw, i, res)
                            &&& r == match res {
                                Ok(_) => next(ImportTruckState::GoingHome),
                                Err(e) => settle_import(e, s),
                            }
                        }
                    },
                }
            }
        },
        ImportTruckState::GoingHome => {
            let a = spec_approach_within(has_move(t0), pos, home_center, 10);
            &&& c1 == c0
            &&& approached(t0, t1, a)
            &&& r == if a != Approach::Arrived { wait(s, a) } else { next(ImportTruckState::ProvidingIdle) }
        },
        ImportTruckState::ProvidingIdle => {
            if next_used_energy(t0) == 0 {
                r == next(ImportTruckState::Idle) && t1 == t0 && c1 == c0
            } else if c0.consumer_views().dom() != Set::<u64>::empty() {
                &&& t1 == t0
                &&& exists|k: u64| #[trigger] consumer_choice(c0, c1, k, id, pos, positions, next_free(t0), now)
                    && r == next(ImportTruckState::ProvidingTo(k))
            } else {
                &&& c1 == c0
                &&& match home_buffer {
                    Some(b) => r == next(ImportTruckState::StoringAway(b.id)) && t1 == t0,
                    None => {
                        let a = spec_approach_within(has_move(t0), pos, home_center, 3);
                        approached(t0, t1, a) && r == wait(s, a)
                    },
                }
            }
        },
        ImportTruckState::ProvidingTo(consumer) => {
            let task = TruckTask::ProvidingTo(consumer);
            if !task_present(c0, task, id) {
                r == next(ImportTruckState::ProvidingIdle) && t1 == t0 && same_tasks(c0, c1)
            } else {
                let hv = heartbeat_view(task_collab(c0, task), id, now);
                if next_used_energy(t0) == 0 {
                    r == next(ImportTruckState::ProvidingIdle) && t1 == t0 && task_replaced(c0, c1, task, left_view(hv, id))
                } else {
                    let a = spec_approach_within(has_move(t0), pos, positions[consumer], 1);
                    if a != Approach::Arrived {
                        r == wait(s, a) && approached(t0, t1, a) && task_replaced(c0, c1, task, hv)
                    } else {
                        let amt = transfer_amount(t0, ENERGY, None, stops[consumer].free);
                        let i = Intent {
                            effect: Some(IntentEffect::Outgoing(ENERGY, amt)),
                            action: IntentAction::Transfer { target: consumer, resource: ENERGY, amount: amt },
                        };
                        let res = register_result(t0, IntentType::Transfer, i.effect);
                        &&& register_outcome(t0, t1, IntentType::Transfer, i, res)
                        &&& match res {
                            Ok(x) => r == next(ImportTruckState::ProvidingIdle)
                                && task_replaced(c0, c1, task, left_view(worked_view(hv, id, x), id)),
                            Err(e) => r == settle_import(e, s) && task_replaced(c0, c1, task, hv),
                        }
                    }
                }
            }
        },
        ImportTruckState::StoringAway(buffer) => {
            &&& c1 == c0
            &&& if next_used_energy(t0) == 0 {
                r == next(ImportTruckState::Idle) && t1 == t0
            } else {
                let b = buffers[buffer];
                let a = spec_approach_within(has_move(t0), pos, b.pos, 1);
                if a != Approach::Arrived {
                    r == wait(s, a) && approached(t0, t1, a)
                } else {
                    let amt = transfer_amount(t0, ENERGY, None, b.free);
                    let i = Intent {
                        effect: Some(IntentEffect::Outgoing(ENERGY, amt)),
                        action: IntentAction::Transfer { target: b.id, resource: ENERGY, amount: amt },
                    };
                    let res = register_result(t0, IntentType::Transfer, i.effect);
                    &&& register_outcome(t0, t1, IntentType::Transfer, i, res)
                    &&& r == match res {
                        Ok(_) => next(ImportTruckState::Idle),
                        Err(e) => settle_import(e, s),
                    }
                }
            }
        },
    }
}

/// The buffers that the state and the colonies name are known, at valid positions.
pub open spec fn buffers_known(s: ImportTruckState, home_buffer: Option<BufferView>, colonies: Map<u64, ColonyInfo>,
    buffers: Map<u64, BufferView>) -> bool {
    &&& (home_buffer matches Some(b) ==> packed_valid(b.pos))
    &&& forall|k: u64| #[trigger] colonies.contains_key(k) ==> (colonies[k].buffer matches Some(b) ==> packed_valid(b.pos))
    &&& (s matches ImportTruckState::StoringAway(b) ==> buffers.contains_key(b) && packed_valid(buffers[b].pos))
}

impl ImportTruckState {
    /// One round of the importing truck's decisions.
    pub fn update(self, creep: &mut VirtualCreep, id: u64, pos: u32, home_center: u32, home_buffer: Option<BufferView>,
        colonies: &KeyedMap<ColonyInfo>, buffers: &KeyedMap<BufferView>, coordinator: &mut TruckCoordinator,
        positions: &KeyedMap<u32>, stops: &KeyedMap<StopView>, now: u32) -> (r: Result<ImportStep, ImportError>)
        requires
            old(creep).wf(),
            old(coordinator).wf(),
            colonies.wf(),
            buffers.wf(),
            positions.wf(),
            stops.wf(),
            packed_valid(pos),
            packed_valid(home_center),
            buffers_known(self, home_buffer, colonies@, buffers@),
            positions_known(old(coordinator).consumers@, positions@),
            stops_known(old(coordinator).consumers@, stops@),
            now as int + TIMEOUT + 1 <= u32::MAX,
            coordinator_ready(*old(coordinator), id, next_free(*old(creep))),
        ensures
            final(creep).wf(),
            final(coordinator).wf(),
            import_outcome(self, *old(creep), *final(creep), id, pos, home_center, home_buffer, colonies@, buffers@,
                *old(coordinator), *final(coordinator), positions@, stops@, now, r),
    {
        match self {
            ImportTruckState::Idle => {
                proof {
                    colonies.lemma_wf();
                }
                let mut best: Option<(u64, u32)> = None;
                let mut i: usize = 0;
                while i < colonies.len()
                    invariant
                        colonies.wf(),
                        i <= colonies.entries().len(),
                        best is None ==> forall|j: int| 0 <= j < i ==> !exports(#[trigger] colonies.entries()[j].1),
                        best matches Some(b) ==> {
                            &&& colonies@.contains_key(b.0)
                            &&& exports(colonies@[b.0])
                            &&& b.1 == stored_energy(colonies@[b.0])
                            &&& forall|j: int| 0 <= j < i && exports(#[trigger] colonies.entries()[j].1)
                                ==> stored_energy(colonies.entries()[j].1) <= b.1
                        },
                    decreases colonies.entries().len() - i,
                {
                    let k = colonies.key_at(i);
                    let c = *colonies.value_at(i);
                    proof {
                        colonies.lemma_wf();
                        assert(colonies@.contains_key(colonies.entries()[i as int].0));
                        assert(colonies@[k] == c);
                    }
                    if c.step.index() >= START_EXPORT_STEP.index() {
                        let stored = match c.buffer {
                            Some(b) => b.used,
                            None => 0,
                        };
                        let better = match best {
                            None => true,
                            Some((_, bs)) => stored >= bs,
                        };
                        if better {
                            best = Some((k, stored));
                        }
                    }
                    i = i + 1;
                }
                proof {
                    colonies.lemma_wf();
                }
                match best {
                    Some((k, stored)) => {
                        if stored > ENERGY_THRESHOLD {
                            proof {
                                assert forall|j: u64| #[trigger] colonies@.contains_key(j) && exports(colonies@[j])
                                    implies stored_energy(colonies@[j]) <= stored_energy(colonies@[k]) by {
                                    let a = choose|a: int| 0 <= a < colonies.entries().len() && colonies.entries()[a].0 == j;
                                    assert(exports(colonies.entries()[a].1));
                                }
                                assert(export_choice(colonies@, k));
                            }
                            return Ok(ImportStep {
                                transition: Transition::Continue(ImportTruckState::CollectingFrom(k)),
                                move_to: None,
                            });
                        }
                        proof {
                            if export_available(colonies@) {
                                let j = choose|j: u64| #[trigger] colonies@.contains_key(j) && exports(colonies@[j])
                                    && stored_energy(colonies@[j]) > ENERGY_THRESHOLD;
                                let a = choose|a: int| 0 <= a < colonies.entries().len() && colonies.entries()[a].0 == j;
                                assert(exports(colonies.entries()[a].1));
                            }
                        }
                    },
                    None => {
                        proof {
                            if export_available(colonies@) {
                                let j = choose|j: u64| #[trigger] colonies@.contains_key(j) && exports(colonies@[j])
                                    && stored_energy(colonies@[j]) > ENERGY_THRESHOLD;
                                let a = choose|a: int| 0 <= a < colonies.entries().len() && colonies.entries()[a].0 == j;
                                assert(!exports(colonies.entries()[a].1));
                            }
                        }
                    },
                }
                Ok(ImportStep { transition: Transition::Break(ImportTruckState::Idle), move_to: None })
            },
            ImportTruckState::CollectingFrom(room) => {
                let colony = match colonies.get(room) {
                    None => {
                        return Err(ImportError::NotAColony(room));
                    },
                    Some(c) => *c,
                };
                let b = match colony.buffer {
                    None => {
                        return Err(ImportError::NoBuffer(room));
                    },
                    Some(b) => b,
                };
                if b.used < ENERGY_THRESHOLD {
                    return Ok(ImportStep { transition: Transition::Continue(ImportTruckState::Idle), move_to: None });
                }
                let a = approach_within(creep, pos, b.pos, 1);
                if a != Approach::Arrived {
                    return Ok(ImportStep {
                        transition: Transition::Break(self),
                        move_to: match a { Approach::Moving(t) => Some(t), _ => None },
                    });
                }
                match creep.withdraw(b.id, b.used, ENERGY, None) {
                    Ok(_) => Ok(ImportStep { transition: Transition::Continue(ImportTruckState::GoingHome), move_to: None }),
                    Err(e) => {
                        if e.is_deferable() {
                            Ok(ImportStep { transition: Transition::Break(self), move_to: None })
                        } else {
                            Err(ImportError::Intent(e))
                        }
                    },
                }
            },
            ImportTruckState::GoingHome => {
                let a = approach_within(creep, pos, home_center, 10);
                if a != Approach::Arrived {
                    return Ok(ImportStep {
                        transition: Transition::Break(self),
                        move_to: match a { Approach::Moving(t) => Some(t), _ => None },
                    });
                }
                Ok(ImportStep { transition: Transition::Continue(ImportTruckState::ProvidingIdle), move_to: None })
            },
            ImportTruckState::ProvidingIdle => {
                if creep.next_used_energy_capacity() == 0 {
                    return Ok(ImportStep { transition: Transition::Continue(ImportTruckState::Idle), move_to: None });
                }
                if let Some(c) = coordinator.assign_consumer(creep, id, pos, positions, now) {
                    return Ok(ImportStep { transition: Transition::Continue(ImportTruckState::ProvidingTo(c)), move_to: None });
                }
                if let Some(b) = home_buffer {
                    return Ok(ImportStep { transition: Transition::Continue(ImportTruckState::StoringAway(b.id)), move_to: None });
                }
                let a = approach_within(creep, pos, home_center, 3);
                Ok(ImportStep {
                    transition: Transition::Break(self),
                    move_to: match a { Approach::Moving(t) => Some(t), _ => None },
                })
            },
            ImportTruckState::ProvidingTo(consumer) => {
                let task = TruckTask::ProvidingTo(consumer);
                let handle = match coordinator.heartbeat_consumer(id, consumer, now) {
                    None => {
                        proof {
                            assert(coordinator.consumer_views() =~= old(coordinator).consumer_views());
                        }
                        return Ok(ImportStep { transition: Transition::Continue(ImportTruckState::ProvidingIdle), move_to: None });
                    },
                    Some(h) => h,
                };
                let ghost ch = *coordinator;
                let ghost hv = heartbeat_view(task_collab(*old(coordinator), task), id, now);
                proof {
                    assert(task_replaced(*old(coordinator), ch, task, hv));
                    assert(task_collab(ch, task) == hv);
                }
                if creep.next_used_energy_capacity() == 0 {
                    coordinator.release(task, handle);
                    proof {
                        lemma_replaced_twice(*old(coordinator), ch, *coordinator, task, hv, left_view(hv, id));
                    }
                    return Ok(ImportStep { transition: Transition::Continue(ImportTruckState::ProvidingIdle), move_to: None });
                }
                proof {
                    lemma_task_views_known(*old(coordinator), consumer, positions@, stops@);
                }
                let target = *positions.get(consumer).unwrap();
                let a = approach_within(creep, pos, target, 1);
                if a != Approach::Arrived {
                    return Ok(ImportStep {
                        transition: Transition::Break(self),
                        move_to: match a { Approach::Moving(t) => Some(t), _ => None },
                    });
                }
                let stop = *stops.get(consumer).unwrap();
                match creep.transfer(consumer, stop.free, ENERGY, None) {
                    Ok(amount) => {
                        coordinator.consume(task, &handle, amount);
                        let ghost cw = *coordinator;
                        proof {
                            lemma_replaced_twice(*old(coordinator), ch, cw, task, hv, worked_view(hv, id, amount));
                            assert(task_collab(cw, task) == worked_view(hv, id, amount));
                        }
                        coordinator.release(task, handle);
                        proof {
                            lemma_replaced_twice(*old(coordinator), cw, *coordinator, task, worked_view(hv, id, amount),
                                left_view(worked_view(hv, id, amount), id));
                        }
                        Ok(ImportStep { transition: Transition::Continue(ImportTruckState::ProvidingIdle), move_to: None })
                    },
                    Err(e) => {
                        if e.is_deferable() {
                            Ok(ImportStep { transition: Transition::Break(self), move_to: None })
                        } else {
                            Err(ImportError::Intent(e))
                        }
                    },
                }
            },
            ImportTruckState::StoringAway(buffer) => {
                if creep.next_used_energy_capacity() == 0 {
                    return Ok(ImportStep { transition: Transition::Continue(ImportTruckState::Idle), move_to: None });
                }
                let b = *buffers.get(buffer).unwrap();
                let a = approach_within(creep, pos, b.pos, 1);
                if a != Approach::Arrived {
                    return Ok(ImportStep {
                        transition: Transition::Break(self),
                        move_to: match a { Approach::Moving(t) => Some(t), _ => None },
                    });
                }
                match creep.transfer(b.id, b.free, ENERGY, None) {
                    Ok(_) => Ok(ImportStep { transition: Transition::Continue(ImportTruckState::Idle), move_to: None }),
                    Err(e) => {
                        if e.is_deferable() {
                            Ok(ImportStep { transition: Transition::Break(self), move_to: None })
                        } else {
                            Err(ImportError::Intent(e))
                        }
                    },
                }
            },
        }
    }
}

/// The stop of a consuming task that the coordinator holds is known.
proof fn lemma_task_views_known(c: TruckCoordinator, k: u64, positions: Map<u64, u32>, stops: Map<u64, StopView>)
    requires
        c.wf(),
        c.consumer_views().contains_key(k),
        positions_known(c.consumers@, positions),
        stops_known(c.consumers@, stops),
    ensures
        positions.contains_key(k),
        packed_valid(positions[k]),
        stops.contains_key(k),
{
    crate::coordination::tasks::lemma_task_views(c.consumers@);
}

} // verus!
