//! A remote builder: it fills up at its colony's buffer and builds what remote
//! build requests ask for. The moves, withdrawals and builds are the game's; these
//! are the decisions.
use vstd::prelude::*;
use crate::position::{packed_valid, spec_near, spec_range, positions_near, range_between};
use crate::steps::Transition;

verus! {

/// The states of a remote builder.
#[derive(PartialEq, Eq, Structural, Clone, Copy, Debug)]
pub enum RemoteBuilderCreep {
    Idle,
    Refilling,
    /// Building at the requested position.
    Building(u32),
}

/// What a remote build request shows this tick: where to build, and the
/// construction site there, if any.
#[derive(PartialEq, Eq, Structural, Clone, Copy, Debug)]
pub struct BuildRequestView {
    pub pos: u32,
    pub site: Option<u64>,
}

/// A remote builder's decision: its transition, and what it does outside it:
/// withdraw energy from the buffer, build at a site, move towards a position. A
/// withdrawal or build that fails ends the round with an error.
#[derive(PartialEq, Eq, Structural, Clone, Copy, Debug)]
pub struct RemoteBuilderDecision {
    pub transition: Transition<RemoteBuilderCreep>,
    pub withdraw_from: Option<u64>,
    pub build: Option<u64>,
    pub move_to: Option<u32>,
}

/// A decision with no outside work.
pub open spec fn only(t: Transition<RemoteBuilderCreep>) -> RemoteBuilderDecision {
    RemoteBuilderDecision { transition: t, withdraw_from: None, build: None, move_to: None }
}

/// The remote builder's decision: idle, it refills when empty, else takes a new
/// request; refilling, it goes next to the buffer and withdraws, then takes a new
/// request or rests idle; building, it goes idle where the request is gone,
/// refills when empty, builds the site once within range 3 (going idle where
/// there is no site), and keeps moving until next to the place. It fails where
/// its colony has no buffer while refilling.
pub open spec fn spec_remote_builder_decision(s: RemoteBuilderCreep, pos: u32, energy: u32, new_request: Option<u32>,
    buffer: Option<(u64, u32)>, request: Option<BuildRequestView>) -> Result<RemoteBuilderDecision, ()> {
    match s {
        RemoteBuilderCreep::Idle => if energy == 0 {
            Ok(only(Transition::Continue(RemoteBuilderCreep::Refilling)))
        } else {
            match new_request {
                Some(p) => Ok(only(Transition::Continue(RemoteBuilderCreep::Building(p)))),
                None => Ok(only(Transition::Break(s))),
            }
        },
        RemoteBuilderCreep::Refilling => match buffer {
            None => Err(()),
            Some((id, bpos)) => if !spec_near(pos, bpos) {
                Ok(RemoteBuilderDecision { transition: Transition::Break(s), withdraw_from: None, build: None, move_to: Some(bpos) })
            } else {
                Ok(RemoteBuilderDecision {
                    transition: match new_request {
                        Some(p) => Transition::Continue(RemoteBuilderCreep::Building(p)),
                        None => Transition::Break(RemoteBuilderCreep::Idle),
                    },
                    withdraw_from: Some(id),
                    build: None,
                    move_to: None,
                })
            },
        },
        RemoteBuilderCreep::Building(_) => match request {
            None => Ok(only(Transition::Continue(RemoteBuilderCreep::Idle))),
            Some(req) => if energy == 0 {
                Ok(only(Transition::Continue(RemoteBuilderCreep::Refilling)))
            } else if spec_range(pos, req.pos) <= 3 && req.site is None {
                Ok(only(Transition::Continue(RemoteBuilderCreep::Idle)))
            } else {
                Ok(RemoteBuilderDecision {
                    transition: Transition::Break(s),
                    withdraw_from: None,
                    build: if spec_range(pos, req.pos) <= 3 { req.site } else { None },
                    move_to: if !spec_near(pos, req.pos) { Some(req.pos) } else { None },
                })
            },
        },
    }
}

impl RemoteBuilderCreep {
    /// One decision of a remote builder at `pos` holding `energy`, with the request
    /// it would take next, its colony's buffer, and the request it builds for.
    pub fn update(&self, pos: u32, energy: u32, new_request: Option<u32>, buffer: Option<(u64, u32)>,
        request: Option<BuildRequestView>) -> (r: Result<RemoteBuilderDecision, ()>)
        requires
            packed_valid(pos),
            buffer matches Some((_, b)) ==> packed_valid(b),
            request matches Some(q) ==> packed_valid(q.pos),
        ensures
            r == spec_remote_builder_decision(*self, pos, energy, new_request, buffer, request),
    {
        let none = RemoteBuilderDecision { transition: Transition::Break(*self), withdraw_from: None, build: None, move_to: None };
        match *self {
            RemoteBuilderCreep::Idle => {
                if energy == 0 {
                    return Ok(RemoteBuilderDecision { transition: Transition::Continue(RemoteBuilderCreep::Refilling), ..none });
                }
                match new_request {
                    Some(p) => Ok(RemoteBuilderDecision { transition: Transition::Continue(RemoteBuilderCreep::Building(p)), ..none }),
                    None => Ok(none),
                }
            },
            RemoteBuilderCreep::Refilling => {
                let (id, bpos) = match buffer {
                    None => {
                        return Err(());
                    },
                    Some(b) => b,
                };
                if !positions_near(pos, bpos) {
                    return Ok(RemoteBuilderDecision { move_to: Some(bpos), ..none });
                }
                let transition = match new_request {
                    Some(p) => Transition::Continue(RemoteBuilderCreep::Building(p)),
                    None => Transition::Break(RemoteBuilderCreep::Idle),
                };
                Ok(RemoteBuilderDecision { transition, withdraw_from: Some(id), ..none })
            },
            RemoteBuilderCreep::Building(_) => {
                let req = match request {
                    None => {
                        return Ok(RemoteBuilderDecision { transition: Transition::Continue(RemoteBuilderCreep::Idle), ..none });
                    },
                    Some(q) => q,
                };
                if energy == 0 {
                    return Ok(RemoteBuilderDecision { transition: Transition::Continue(RemoteBuilderCreep::Refilling), ..none });
                }
                let in_range = range_between(pos, req.pos) <= 3;
                let mut build = None;
                if in_range {
                    match req.site {
                        None => {
                            return Ok(RemoteBuilderDecision { transition: Transition::Continue(RemoteBuilderCreep::Idle), ..none });
                        },
                        Some(site) => {
                            build = Some(site);
                        },
                    }
                }
                let move_to = if !positions_near(pos, req.pos) { Some(req.pos) } else { None };
                Ok(RemoteBuilderDecision { build, move_to, ..none })
            },
        }
    }
}

} // verus!
