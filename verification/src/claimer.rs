//! A claimer creep: it takes a claim request, goes to the requested place, and
//! claims the controller of that room; a controller that cannot be claimed yet is
//! attacked. The moves and the claim are the game's; these are the decisions.
use vstd::prelude::*;
use crate::position::{packed_valid, spec_near, positions_near};

verus! {

/// The states of a claimer.
#[derive(PartialEq, Eq, Structural, Clone, Copy, Debug)]
pub enum ClaimerCreep {
    Idle,
    /// Going to the requested place.
    GoingTo(u32),
    /// Claiming the controller of the request's room.
    Claiming(u32, u64),
}

/// What a claimer does outside this decision.
#[derive(PartialEq, Eq, Structural, Clone, Copy, Debug)]
pub enum ClaimerAction {
    Nothing,
    /// Move towards a position along a found path.
    SmartMoveTo(u32),
    /// Claim the controller; `ClaimerCreep::after_claim` takes the outcome.
    Claim(u64),
}

/// A claimer's decision: its action and its next state.
#[derive(PartialEq, Eq, Structural, Clone, Copy, Debug)]
pub struct ClaimerDecision {
    pub action: ClaimerAction,
    pub next: ClaimerCreep,
}

/// How claiming a controller went.
#[derive(PartialEq, Eq, Structural, Clone, Copy, Debug)]
pub enum ClaimResult {
    Claimed,
    /// The controller cannot be claimed as it is (it is owned or reserved).
    InvalidTarget,
    /// Any other refusal.
    Failed,
}

/// What follows a claim: the next state, whether the request is done with, and
/// whether the claimer attacks the controller.
#[derive(PartialEq, Eq, Structural, Clone, Copy, Debug)]
pub struct ClaimFollowUp {
    pub next: ClaimerCreep,
    pub drop_request: bool,
    pub attack: bool,
}

/// Two positions are in the same room.
pub open spec fn same_room(a: u32, b: u32) -> bool {
    a / 65536 == b / 65536
}

/// The claimer's decision: an idle claimer takes the first request; a going one
/// starts claiming once in the request's room with its controller seen, and moves
/// on otherwise; a claiming one claims once next to the controller, and moves to
/// it otherwise. It fails where the controller it claims is gone.
pub open spec fn spec_claimer_decision(s: ClaimerCreep, pos: u32, requests: Seq<u32>, room_controller: Option<u64>,
    controller_pos: Option<u32>) -> Result<ClaimerDecision, ()> {
    match s {
        ClaimerCreep::Idle => Ok(ClaimerDecision {
            action: ClaimerAction::Nothing,
            next: if requests.len() > 0 { ClaimerCreep::GoingTo(requests[0]) } else { s },
        }),
        ClaimerCreep::GoingTo(target) => if same_room(pos, target) && room_controller is Some {
            Ok(ClaimerDecision { action: ClaimerAction::Nothing, next: ClaimerCreep::Claiming(target, room_controller->0) })
        } else {
            Ok(ClaimerDecision { action: ClaimerAction::SmartMoveTo(target), next: s })
        },
        ClaimerCreep::Claiming(_, controller) => match controller_pos {
            None => Err(()),
            Some(c) => if spec_near(pos, c) {
                Ok(ClaimerDecision { action: ClaimerAction::Claim(controller), next: s })
            } else {
                Ok(ClaimerDecision { action: ClaimerAction::SmartMoveTo(c), next: s })
            },
        },
    }
}

impl ClaimerCreep {
    /// One decision of a claimer at `pos`, with the claim requests, the controller
    /// of the room it stands in (where that room is seen), and the position of the
    /// controller it claims (where that still exists).
    pub fn update(&self, pos: u32, requests: &Vec<u32>, room_controller: Option<u64>, controller_pos: Option<u32>)
        -> (r: Result<ClaimerDecision, ()>)
        requires
            packed_valid(pos),
            controller_pos matches Some(c) ==> packed_valid(c),
        ensures
            r == spec_claimer_decision(*self, pos, requests@, room_controller, controller_pos),
    {
        match *self {
            ClaimerCreep::Idle => {
                let next = if requests.len() > 0 { ClaimerCreep::GoingTo(requests[0]) } else { ClaimerCreep::Idle };
                Ok(ClaimerDecision { action: ClaimerAction::Nothing, next })
            },
            ClaimerCreep::GoingTo(target) => {
                if pos / 65536 == target / 65536 {
                    match room_controller {
                        Some(c) => {
                            return Ok(ClaimerDecision { action: ClaimerAction::Nothing, next: ClaimerCreep::Claiming(target, c) });
                        },
                        None => {},
                    }
                }
                Ok(ClaimerDecision { action: ClaimerAction::SmartMoveTo(target), next: *self })
            },
            ClaimerCreep::Claiming(_, controller) => match controller_pos {
                None => Err(()),
                Some(c) => {
                    if positions_near(pos, c) {
                        Ok(ClaimerDecision { action: ClaimerAction::Claim(controller), next: *self })
                    } else {
                        Ok(ClaimerDecision { action: ClaimerAction::SmartMoveTo(c), next: *self })
                    }
                },
            },
        }
    }

    /// What follows a claim: a claimed controller, or a refused claim, ends the
    /// request and the claimer goes idle; a controller that cannot be claimed as
    /// it is gets attacked, and the claimer stays on it.
    pub fn after_claim(&self, result: ClaimResult) -> (f: ClaimFollowUp)
        ensures
            f == match result {
                ClaimResult::InvalidTarget => ClaimFollowUp { next: *self, drop_request: false, attack: true },
                _ => ClaimFollowUp { next: ClaimerCreep::Idle, drop_request: true, attack: false },
            },
    {
        match result {
            ClaimResult::InvalidTarget => ClaimFollowUp { next: *self, drop_request: false, attack: true },
            _ => ClaimFollowUp { next: ClaimerCreep::Idle, drop_request: true, attack: false },
        }
    }
}

/// Law: a claimer on its way starts claiming only in the room of its target, and
/// then the controller it sees there; anywhere else, or with no controller seen,
/// it keeps moving to its target.
pub proof fn law_claim_only_in_target_room(target: u32, pos: u32, requests: Seq<u32>, room_controller: Option<u64>,
    controller_pos: Option<u32>)
    ensures
        pos / 65536 != target / 65536 ==> spec_claimer_decision(ClaimerCreep::GoingTo(target), pos, requests, room_controller,
            controller_pos) == Ok::<ClaimerDecision, ()>(ClaimerDecision {
                action: ClaimerAction::SmartMoveTo(target), next: ClaimerCreep::GoingTo(target) }),
        pos / 65536 == target / 65536 ==> spec_claimer_decision(ClaimerCreep::GoingTo(target), pos, requests, room_controller,
            controller_pos) == match room_controller {
                Some(c) => Ok::<ClaimerDecision, ()>(ClaimerDecision {
                    action: ClaimerAction::Nothing, next: ClaimerCreep::Claiming(target, c) }),
                None => Ok::<ClaimerDecision, ()>(ClaimerDecision {
                    action: ClaimerAction::SmartMoveTo(target), next: ClaimerCreep::GoingTo(target) }),
            },
        spec_claimer_decision(ClaimerCreep::GoingTo(target), pos, requests, room_controller, controller_pos)
            matches Ok(d) ==> (d.next matches ClaimerCreep::Claiming(t, _) ==> t == target && pos / 65536 == target / 65536),
{
}

} // verus!
