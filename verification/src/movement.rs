//! Getting a creep to where it works: whether it is within range of its target,
//! and registering a move towards the target where it is not.
use vstd::prelude::*;
use crate::position::{packed_valid, spec_range, range_between};
use crate::virtual_creep::{ENERGY, Intent, IntentAction, IntentError, IntentType, VirtualCreep, intent_code, registered};

verus! {

/// How going to a target turned out.
#[derive(PartialEq, Eq, Structural, Clone, Copy, Debug)]
pub enum Approach {
    /// The creep is within range of the target.
    Arrived,
    /// A move is already registered this tick.
    Deferred,
    /// A move towards the target is registered.
    Moving(u32),
}

/// The outcome of going from `creep_pos` to within `range` of `target`, for a creep
/// that has (or not) a move registered.
pub open spec fn spec_approach_within(has_move: bool, creep_pos: u32, target: u32, range: u32) -> Approach {
    if has_move {
        Approach::Deferred
    } else if spec_range(creep_pos, target) <= range {
        Approach::Arrived
    } else {
        Approach::Moving(target)
    }
}

/// The outcome of going next to `target`.
pub open spec fn spec_approach(has_move: bool, creep_pos: u32, target: u32) -> Approach {
    if has_move {
        Approach::Deferred
    } else if spec_range(creep_pos, target) <= 1 {
        Approach::Arrived
    } else {
        Approach::Moving(target)
    }
}


/// Goes towards `target`: registers a move where the creep is out of `range` and
/// has none yet.
pub(crate) fn approach_within(creep: &mut VirtualCreep, creep_pos: u32, target: u32, range: u32) -> (a: Approach)
    requires
        old(creep).wf(),
        packed_valid(creep_pos),
        packed_valid(target),
    ensures
        final(creep).wf(),
        a == spec_approach_within(old(creep).intents().contains_key(intent_code(IntentType::Move)), creep_pos, target, range),
        a is Moving ==> crate::virtual_creep::registered(*old(creep), *final(creep), IntentType::Move,
            crate::virtual_creep::Intent { effect: None, action: crate::virtual_creep::IntentAction::Move }),
        !(a is Moving) ==> *final(creep) == *old(creep),
{
    if creep.has_intent(IntentType::Move) {
        return Approach::Deferred;
    }
    if range_between(creep_pos, target) <= range {
        return Approach::Arrived;
    }
    let r = creep.register_move();
    proof {
        assert(!crate::virtual_creep::pipeline_conflict(*old(creep), IntentType::Move, true));
        assert(!crate::virtual_creep::pipeline_conflict(*old(creep), IntentType::Move, false));
        assert(r is Ok);
    }
    Approach::Moving(target)
}

/// Goes next to `target`: registers a move where the creep is out of range and has
/// none yet.
pub(crate) fn approach(creep: &mut VirtualCreep, creep_pos: u32, target: u32) -> (a: Approach)
    requires
        old(creep).wf(),
        packed_valid(creep_pos),
        packed_valid(target),
    ensures
        final(creep).wf(),
        a == spec_approach(old(creep).intents().contains_key(intent_code(IntentType::Move)), creep_pos, target),
        a is Moving ==> crate::virtual_creep::registered(*old(creep), *final(creep), IntentType::Move,
            crate::virtual_creep::Intent { effect: None, action: crate::virtual_creep::IntentAction::Move }),
        !(a is Moving) ==> *final(creep) == *old(creep),
{
    approach_within(creep, creep_pos, target, 1)
}


/// The creep has a move registered this tick.
pub open spec fn has_move(t: VirtualCreep) -> bool {
    t.intents().contains_key(intent_code(IntentType::Move))
}

/// The energy the creep holds next tick.
pub open spec fn next_used_energy(t: VirtualCreep) -> int {
    t.spec_resource(ENERGY) + t.spec_incoming(ENERGY)
}

/// `b` is `a` after going towards a target turned out as `a_`: a move is
/// registered where the creep is moving, and nothing changes otherwise.
pub open spec fn approached(a: VirtualCreep, b: VirtualCreep, x: Approach) -> bool {
    &&& (x is Moving ==> registered(a, b, IntentType::Move, Intent { effect: None, action: IntentAction::Move }))
    &&& (!(x is Moving) ==> b == a)
}

/// The error may clear up later in the tick.
pub open spec fn deferable(e: IntentError) -> bool {
    e is AlreadyScheduled || e is PipelineCollision
}

} // verus!
