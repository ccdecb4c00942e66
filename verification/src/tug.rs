//! Towing: a creep without move parts asks for a tugboat, waits for it and is
//! pulled along; the tugboat goes to it, pulls it where it asks, and is recycled
//! once done. The moves and pulls are the game's; these are the decisions.
use vstd::prelude::*;
use crate::keyed::KeyedMap;
use crate::position::{packed_valid, spec_near, spec_range, positions_near, range_between};
use crate::steps::Transition;

verus! {

/// A message that a creep reads in the same tick it is sent.
#[derive(PartialEq, Eq, Structural, Clone, Copy, Debug)]
pub enum QuickCreepMessage {
    /// The tugboat pulled: the towed creep is to follow.
    TugMove,
    /// The towed creep asks to be brought within `range` of `target`.
    TuggedRequestMove { target: u32, range: u32 },
}

/// The first request to be towed among the messages.
pub open spec fn first_request(s: Seq<QuickCreepMessage>) -> Option<(u32, u32)>
    decreases s.len(),
{
    if s.len() == 0 {
        None
    } else {
        match s[0] {
            QuickCreepMessage::TuggedRequestMove { target, range } => Some((target, range)),
            QuickCreepMessage::TugMove => first_request(s.drop_first()),
        }
    }
}

/// The first request to be towed among the messages.
pub fn find_request(messages: &Vec<QuickCreepMessage>) -> (r: Option<(u32, u32)>)
    ensures
        r == first_request(messages@),
{
    let ghost s = messages@;
    proof {
        assert(s.skip(0) =~= s);
    }
    let mut i: usize = 0;
    while i < messages.len()
        invariant
            i <= s.len(),
            s == messages@,
            first_request(s) == first_request(s.skip(i as int)),
        decreases s.len() - i,
    {
        proof {
            assert(s.skip(i as int)[0] == s[i as int]);
            assert(s.skip(i as int).drop_first() =~= s.skip(i as int + 1));
        }
        match messages[i] {
            QuickCreepMessage::TuggedRequestMove { target, range } => {
                return Some((target, range));
            },
            QuickCreepMessage::TugMove => {},
        }
        i = i + 1;
    }
    proof {
        assert(s.skip(i as int) =~= Seq::<QuickCreepMessage>::empty());
    }
    None
}

/// The spawn a creep is recycled at: the nearest by path where it is in its home
/// room and one is reachable, else the colony's central spawn, else the nearest of
/// all spawns by range (the first among equals).
pub open spec fn recycle_choice(in_home: bool, closest_by_path: Option<u64>, center: Option<u64>,
    spawns: Seq<(u64, u32)>, pos: u32, r: u64) -> bool {
    if in_home && closest_by_path is Some {
        r == closest_by_path->0
    } else if center is Some {
        r == center->0
    } else {
        exists|i: int| 0 <= i < spawns.len() && spawns[i].0 == r
            && (forall|j: int| 0 <= j < spawns.len() ==> spec_range(pos, spawns[i].1) <= spec_range(pos, #[trigger] spawns[j].1))
            && (forall|j: int| 0 <= j < i ==> spec_range(pos, spawns[i].1) < spec_range(pos, #[trigger] spawns[j].1))
    }
}

/// The spawn a creep at `pos` is recycled at.
pub fn get_recycle_spawn(in_home: bool, closest_by_path: Option<u64>, center: Option<u64>, spawns: &Vec<(u64, u32)>, pos: u32)
    -> (r: u64)
    requires
        packed_valid(pos),
        forall|i: int| 0 <= i < spawns@.len() ==> packed_valid(#[trigger] spawns@[i].1),
        (in_home && closest_by_path is Some) || center is Some || spawns@.len() > 0,
    ensures
        recycle_choice(in_home, closest_by_path, center, spawns@, pos, r),
{
    if in_home {
        match closest_by_path {
            Some(s) => {
                return s;
            },
            None => {},
        }
    }
    match center {
        Some(s) => {
            return s;
        },
        None => {},
    }
    let mut best: usize = 0;
    let mut best_range = range_between(pos, spawns[0].1);
    let mut i: usize = 1;
    while i < spawns.len()
        invariant
            1 <= i <= spawns@.len(),
            best < i,
            packed_valid(pos),
            forall|k: int| 0 <= k < spawns@.len() ==> packed_valid(#[trigger] spawns@[k].1),
            best_range == spec_range(pos, spawns@[best as int].1),
            forall|j: int| 0 <= j < i ==> best_range <= spec_range(pos, #[trigger] spawns@[j].1),
            forall|j: int| 0 <= j < best ==> best_range < spec_range(pos, #[trigger] spawns@[j].1),
        decreases spawns@.len() - i,
    {
        let r = range_between(pos, spawns[i].1);
        if r < best_range {
            best = i;
            best_range = r;
        }
        i = i + 1;
    }
    spawns[best].0
}

/// The states of a tugboat.
#[derive(PartialEq, Eq, Structural, Clone, Copy, Debug)]
pub enum TugboatCreep {
    /// Going to the creep it tows.
    GoingTo,
    /// Next to the creep it tows, which it last pulled at `last_tug_tick`.
    Tugging { last_tug_tick: u32 },
    /// Going to be recycled at a spawn.
    Recycling(u64),
}

/// What a tugboat does outside this decision.
#[derive(PartialEq, Eq, Structural, Clone, Copy, Debug)]
pub enum TugboatAction {
    Nothing,
    /// Move towards a position along a found path.
    SmartMoveTo(u32),
    /// Move towards `target`; on success pull the towed creep and tell it to follow.
    MoveAndPull { target: u32 },
    /// Step onto the towed creep's place, swapping with it; on success pull it and
    /// tell it to follow.
    StepAndPull { towards: u32 },
    /// Be recycled by the spawn.
    Recycle(u64),
}

/// A tugboat's decision: its action, the transition where the action succeeds or
/// needs none, and the transition where the tugboat is too tired to move. A move
/// that fails otherwise ends the round with an error.
#[derive(PartialEq, Eq, Structural, Clone, Copy, Debug)]
pub struct TugboatDecision {
    pub action: TugboatAction,
    pub next: Transition<TugboatCreep>,
    pub if_tired: Transition<TugboatCreep>,
}

/// A decision whose action cannot tire the tugboat.
pub open spec fn plain(action: TugboatAction, next: Transition<TugboatCreep>) -> TugboatDecision {
    TugboatDecision { action, next, if_tired: next }
}

/// The tugboat's decision: going to the towed creep until next to it; then, on
/// the towed creep's first request, moving towards the target while it is out of
/// range (still towing) or stepping past the towed creep into the target (and
/// then recycling); without a request, recycling once five ticks passed since the
/// last pull; and, recycling, going to the spawn until next to it.
pub open spec fn spec_tugboat_decision(s: TugboatCreep, pos: u32, tugged_pos: u32, request: Option<(u32, u32)>,
    now: u32, recycle_spawn: u64, spawn_pos: u32) -> TugboatDecision {
    match s {
        TugboatCreep::GoingTo => if spec_near(pos, tugged_pos) {
            plain(TugboatAction::Nothing, Transition::Continue(TugboatCreep::Tugging { last_tug_tick: now }))
        } else {
            plain(TugboatAction::SmartMoveTo(tugged_pos), Transition::Break(s))
        },
        TugboatCreep::Tugging { last_tug_tick } => if !spec_near(pos, tugged_pos) {
            plain(TugboatAction::Nothing, Transition::Continue(TugboatCreep::GoingTo))
        } else {
            match request {
                Some((target, range)) => if spec_range(pos, target) > range {
                    TugboatDecision {
                        action: TugboatAction::MoveAndPull { target },
                        next: Transition::Break(TugboatCreep::Tugging { last_tug_tick: now }),
                        if_tired: Transition::Break(s),
                    }
                } else {
                    TugboatDecision {
                        action: TugboatAction::StepAndPull { towards: tugged_pos },
                        next: Transition::Continue(TugboatCreep::Recycling(recycle_spawn)),
                        if_tired: Transition::Break(s),
                    }
                },
                None => if last_tug_tick + 5 <= now {
                    plain(TugboatAction::Nothing, Transition::Continue(TugboatCreep::Recycling(recycle_spawn)))
                } else {
                    plain(TugboatAction::Nothing, Transition::Break(s))
                },
            }
        },
        TugboatCreep::Recycling(spawn) => if spec_near(pos, spawn_pos) {
            plain(TugboatAction::Recycle(spawn), Transition::Break(s))
        } else {
            plain(TugboatAction::SmartMoveTo(spawn_pos), Transition::Break(s))
        },
    }
}

impl TugboatCreep {
    /// One decision of a tugboat at `pos` towing a creep at `tugged_pos`, with the
    /// messages it got this tick, the spawn it would be recycled at, and the
    /// position of the spawn it is recycling at (if it is).
    pub fn update(self, pos: u32, tugged_pos: u32, messages: &Vec<QuickCreepMessage>, now: u32, recycle_spawn: u64,
        spawn_pos: u32) -> (d: TugboatDecision)
        requires
            packed_valid(pos),
            packed_valid(tugged_pos),
            packed_valid(spawn_pos),
            forall|i: int| 0 <= i < messages@.len() ==> (#[trigger] messages@[i] matches
                QuickCreepMessage::TuggedRequestMove { target, .. } ==> packed_valid(target)),
            self matches TugboatCreep::Tugging { last_tug_tick } ==> last_tug_tick + 5 <= u32::MAX,
        ensures
            d == spec_tugboat_decision(self, pos, tugged_pos, first_request(messages@), now, recycle_spawn, spawn_pos),
    {
        match self {
            TugboatCreep::GoingTo => {
                if positions_near(pos, tugged_pos) {
                    let next = Transition::Continue(TugboatCreep::Tugging { last_tug_tick: now });
                    TugboatDecision { action: TugboatAction::Nothing, next, if_tired: next }
                } else {
                    TugboatDecision { action: TugboatAction::SmartMoveTo(tugged_pos), next: Transition::Break(self), if_tired: Transition::Break(self) }
                }
            },
            TugboatCreep::Tugging { last_tug_tick } => {
                if !positions_near(pos, tugged_pos) {
                    let next = Transition::Continue(TugboatCreep::GoingTo);
                    return TugboatDecision { action: TugboatAction::Nothing, next, if_tired: next };
                }
                let request = find_request(messages);
                proof {
                    if let Some((target, _)) = request {
                        lemma_request_valid(messages@);
                    }
                }
                match request {
                    Some((target, range)) => {
                        if range_between(pos, target) > range {
                            TugboatDecision {
                                action: TugboatAction::MoveAndPull { target },
                                next: Transition::Break(TugboatCreep::Tugging { last_tug_tick: now }),
                                if_tired: Transition::Break(self),
                            }
                        } else {
                            TugboatDecision {
                                action: TugboatAction::StepAndPull { towards: tugged_pos },
                                next: Transition::Continue(TugboatCreep::Recycling(recycle_spawn)),
                                if_tired: Transition::Break(self),
                            }
                        }
                    },
                    None => {
                        let next = if last_tug_tick + 5 <= now {
                            Transition::Continue(TugboatCreep::Recycling(recycle_spawn))
                        } else {
                            Transition::Break(self)
                        };
                        TugboatDecision { action: TugboatAction::Nothing, next, if_tired: next }
                    },
                }
            },
            TugboatCreep::Recycling(spawn) => {
                let action = if positions_near(pos, spawn_pos) {
                    TugboatAction::Recycle(spawn)
                } else {
                    TugboatAction::SmartMoveTo(spawn_pos)
                };
                TugboatDecision { action, next: Transition::Break(self), if_tired: Transition::Break(self) }
            },
        }
    }
}

/// The target of the first request is one of the messages' targets.
proof fn lemma_request_valid(s: Seq<QuickCreepMessage>)
    requires
        forall|i: int| 0 <= i < s.len() ==> (#[trigger] s[i] matches
            QuickCreepMessage::TuggedRequestMove { target, .. } ==> packed_valid(target)),
    ensures
        first_request(s) matches Some((target, _)) ==> packed_valid(target),
    decreases s.len(),
{
    if s.len() > 0 {
        assert(s[0] == s[0]);
        assert forall|i: int| 0 <= i < s.drop_first().len() implies (#[trigger] s.drop_first()[i] matches
            QuickCreepMessage::TuggedRequestMove { target, .. } ==> packed_valid(target)) by {
            assert(s.drop_first()[i] == s[i + 1]);
        }
        lemma_request_valid(s.drop_first());
    }
}

/// The states of a creep that is towed.
#[derive(PartialEq, Eq, Structural, Clone, Copy, Debug)]
pub enum TuggedCreep {
    /// Asking for a tugboat.
    Requesting,
    /// Waiting for the assigned tugboat to come next to it.
    WaitingFor { tugboat: u64 },
    GettingTugged(u64),
    Finished,
}

/// A towed creep's decision: its transition, whether it asks the spawn for a
/// tugboat, and the tugboat it follows this tick (if pulled).
#[derive(PartialEq, Eq, Structural, Clone, Copy, Debug)]
pub struct TuggedStep {
    pub transition: Transition<TuggedCreep>,
    pub request_tugboat: bool,
    pub follow: Option<u64>,
}

/// The towed creep's decision: asking for a tugboat until one is assigned; waiting
/// for it to come next to it (asking again where it is gone); following it where
/// it pulled.
pub open spec fn spec_tugged_step(s: TuggedCreep, pos: u32, assigned: Option<u64>, creeps: Map<u64, u32>, tug_move: bool)
    -> TuggedStep {
    let stay = TuggedStep { transition: Transition::Break(s), request_tugboat: false, follow: None };
    match s {
        TuggedCreep::Requesting => match assigned {
            Some(t) => TuggedStep { transition: Transition::Continue(TuggedCreep::WaitingFor { tugboat: t }), request_tugboat: false, follow: None },
            None => TuggedStep { transition: Transition::Break(s), request_tugboat: true, follow: None },
        },
        TuggedCreep::WaitingFor { tugboat } => if !creeps.contains_key(tugboat) {
            TuggedStep { transition: Transition::Continue(TuggedCreep::Requesting), request_tugboat: false, follow: None }
        } else if spec_near(creeps[tugboat], pos) {
            TuggedStep { transition: Transition::Continue(TuggedCreep::GettingTugged(tugboat)), request_tugboat: false, follow: None }
        } else {
            stay
        },
        TuggedCreep::GettingTugged(t) => TuggedStep { transition: Transition::Break(s), request_tugboat: false,
            follow: if tug_move { Some(t) } else { None } },
        TuggedCreep::Finished => stay,
    }
}

impl TuggedCreep {
    /// One decision of a towed creep at `pos`, with the first tugboat assigned to
    /// it in its messages, the positions of the creeps that exist, and whether its
    /// tugboat pulled it this tick.
    pub fn update(self, pos: u32, assigned: Option<u64>, creeps: &KeyedMap<u32>, tug_move: bool) -> (r: TuggedStep)
        requires
            packed_valid(pos),
            creeps.wf(),
            forall|k: u64| #[trigger] creeps@.contains_key(k) ==> packed_valid(creeps@[k]),
        ensures
            r == spec_tugged_step(self, pos, assigned, creeps@, tug_move),
    {
        let stay = TuggedStep { transition: Transition::Break(self), request_tugboat: false, follow: None };
        match self {
            TuggedCreep::Requesting => match assigned {
                Some(t) => TuggedStep {
                    transition: Transition::Continue(TuggedCreep::WaitingFor { tugboat: t }),
                    request_tugboat: false,
                    follow: None,
                },
                None => TuggedStep { transition: Transition::Break(self), request_tugboat: true, follow: None },
            },
            TuggedCreep::WaitingFor { tugboat } => match creeps.get(tugboat) {
                None => TuggedStep { transition: Transition::Continue(TuggedCreep::Requesting), request_tugboat: false, follow: None },
                Some(p) => {
                    if positions_near(*p, pos) {
                        TuggedStep {
                            transition: Transition::Continue(TuggedCreep::GettingTugged(tugboat)),
                            request_tugboat: false,
                            follow: None,
                        }
                    } else {
                        stay
                    }
                },
            },
            TuggedCreep::GettingTugged(t) => TuggedStep {
                transition: Transition::Break(self),
                request_tugboat: false,
                follow: if tug_move { Some(t) } else { None },
            },
            TuggedCreep::Finished => stay,
        }
    }

    /// The tow is over.
    pub fn is_finished(&self) -> (b: bool)
        ensures
            b == (*self is Finished),
    {
        match self {
            TuggedCreep::Finished => true,
            _ => false,
        }
    }
}

} // verus!
