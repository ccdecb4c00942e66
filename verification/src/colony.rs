//! The lifecycle of a colony: unclaimed, the sub-steps of controller level 1, then
//! one state per further controller level. Whether a colony may move on, or must
//! fall back, depends on what stands in its room; entering a state asks for work in
//! the room (a claim, a plan of roads). The decisions are made here, over plain
//! observations; running the loop (observe, decide, act) is the caller's part.
use vstd::prelude::*;

verus! {

/// The sub-steps of controller level 1.
#[derive(PartialEq, Eq, Structural, PartialOrd, Ord, Clone, Copy, Debug, Hash)]
pub enum Level1State {
    BuildContainerStorage,
    BuildSpawn,
    BuildSourceContainers,
    BuildArterialRoads,
    UpgradeController,
}

/// The number of sub-steps of level 1.
pub const LEVEL1_VARIANT_COUNT: u8 = 5;

/// The state of a colony.
#[derive(PartialEq, Eq, Structural, PartialOrd, Ord, Clone, Copy, Debug, Hash)]
pub enum ColonyState {
    Unclaimed,
    Level1(Level1State),
    Level2,
    Level3,
    Level4,
    Level5,
    Level6,
    Level7,
    Level8,
}

/// The number of variants of `ColonyState`.
pub const COLONY_VARIANT_COUNT: u8 = 9;

impl Default for Level1State {
    /// The first sub-step of level 1.
    fn default() -> (s: Self)
        ensures
            s == Level1State::BuildContainerStorage,
    {
        Level1State::BuildContainerStorage
    }
}

impl Default for ColonyState {
    /// A colony starts unclaimed.
    fn default() -> (s: Self)
        ensures
            s == ColonyState::Unclaimed,
    {
        ColonyState::Unclaimed
    }
}

/// What the lifecycle reads of a colony's room.
#[derive(PartialEq, Eq, Structural, Clone, Copy, Debug)]
pub struct ColonyObservation {
    /// The level of the room's controller (0 without one).
    pub level: u8,
    /// A storage or container stands at the colony's buffer position.
    pub has_buffer: bool,
    /// The buffer that stands there is a container.
    pub buffer_is_container: bool,
    /// A spawn stands at the colony's center.
    pub has_spawn: bool,
    /// Some road construction site exists in the room.
    pub has_road_sites: bool,
}

/// Work in the room that entering a state asks for.
#[derive(PartialEq, Eq, Structural, Clone, Copy, Debug)]
pub enum ColonyAction {
    /// Ask for the room to be claimed, at the colony's center.
    RequestClaim,
    /// Lay out the center of the colony.
    PlanCenter,
    /// Lay out the main roads; this fails where the room is not visible.
    PlanMainRoads,
    /// Destroy the container that served as the buffer.
    DestroyBufferContainer,
}

/// What one round of the lifecycle decided.
#[derive(PartialEq, Eq, Structural, Clone, Copy, Debug)]
pub enum ColonyDecision {
    /// Fall back to the given state.
    Demote(ColonyState),
    /// Move on to the given state.
    Promote(ColonyState),
    /// Stay in the current state.
    Stay,
}

/// The discriminant of a level-1 sub-step.
pub open spec fn level1_index(s: Level1State) -> nat {
    match s {
        Level1State::BuildContainerStorage => 0,
        Level1State::BuildSpawn => 1,
        Level1State::BuildSourceContainers => 2,
        Level1State::BuildArterialRoads => 3,
        Level1State::UpgradeController => 4,
    }
}

/// The discriminant of a colony state, which is also the controller level it stands for.
pub open spec fn state_level(s: ColonyState) -> nat {
    match s {
        ColonyState::Unclaimed => 0,
        ColonyState::Level1(_) => 1,
        ColonyState::Level2 => 2,
        ColonyState::Level3 => 3,
        ColonyState::Level4 => 4,
        ColonyState::Level5 => 5,
        ColonyState::Level6 => 6,
        ColonyState::Level7 => 7,
        ColonyState::Level8 => 8,
    }
}

/// The position of a state in the order of its derived comparison.
pub open spec fn state_rank(s: ColonyState) -> nat {
    match s {
        ColonyState::Unclaimed => 0,
        ColonyState::Level1(sub) => 1 + level1_index(sub),
        _ => state_level(s) + 4,
    }
}

pub open spec fn spec_level1_promotion(s: Level1State) -> Option<Level1State> {
    match s {
        Level1State::BuildContainerStorage => Some(Level1State::BuildSpawn),
        Level1State::BuildSpawn => Some(Level1State::BuildSourceContainers),
        Level1State::BuildSourceContainers => Some(Level1State::BuildArterialRoads),
        Level1State::BuildArterialRoads => Some(Level1State::UpgradeController),
        Level1State::UpgradeController => None,
    }
}

pub open spec fn spec_promotion(s: ColonyState) -> Option<ColonyState> {
    match s {
        ColonyState::Unclaimed => Some(ColonyState::Level1(Level1State::BuildContainerStorage)),
        ColonyState::Level1(sub) => match spec_level1_promotion(sub) {
            Some(next) => Some(ColonyState::Level1(next)),
            None => Some(ColonyState::Level2),
        },
        ColonyState::Level2 => Some(ColonyState::Level3),
        ColonyState::Level3 => Some(ColonyState::Level4),
        ColonyState::Level4 => Some(ColonyState::Level5),
        ColonyState::Level5 => Some(ColonyState::Level6),
        ColonyState::Level6 => Some(ColonyState::Level7),
        ColonyState::Level7 => Some(ColonyState::Level8),
        ColonyState::Level8 => None,
    }
}

pub open spec fn spec_first_at_level(level: nat) -> Option<ColonyState> {
    if level == 0 { Some(ColonyState::Unclaimed) }
    else if level == 1 { Some(ColonyState::Level1(Level1State::BuildContainerStorage)) }
    else if level == 2 { Some(ColonyState::Level2) }
    else if level == 3 { Some(ColonyState::Level3) }
    else if level == 4 { Some(ColonyState::Level4) }
    else if level == 5 { Some(ColonyState::Level5) }
    else if level == 6 { Some(ColonyState::Level6) }
    else if level == 7 { Some(ColonyState::Level7) }
    else if level == 8 { Some(ColonyState::Level8) }
    else { None }
}

pub open spec fn spec_level1_can_promote(s: Level1State, obs: ColonyObservation) -> bool {
    match s {
        Level1State::BuildContainerStorage => obs.has_buffer,
        Level1State::BuildSpawn => obs.has_spawn,
        Level1State::BuildSourceContainers => true,
        Level1State::BuildArterialRoads => !obs.has_road_sites,
        Level1State::UpgradeController => obs.level > 1,
    }
}

pub open spec fn spec_level1_demotion(s: Level1State, obs: ColonyObservation) -> Option<Level1State> {
    if level1_index(s) > 0 && !obs.has_buffer {
        Some(Level1State::BuildContainerStorage)
    } else if level1_index(s) > 1 && !obs.has_spawn {
        Some(Level1State::BuildSpawn)
    } else {
        None
    }
}

pub open spec fn spec_can_promote(s: ColonyState, obs: ColonyObservation) -> bool {
    let upgraded = obs.level > state_level(s);
    match s {
        ColonyState::Unclaimed => upgraded,
        ColonyState::Level1(sub) => spec_level1_can_promote(sub, obs)
            || (spec_level1_promotion(sub) is None && upgraded),
        ColonyState::Level8 => false,
        _ => upgraded,
    }
}

pub open spec fn spec_demotion(s: ColonyState, obs: ColonyObservation) -> Option<ColonyState> {
    if state_level(s) > obs.level {
        spec_first_at_level(obs.level as nat)
    } else {
        match s {
            ColonyState::Level1(sub) => match spec_level1_demotion(sub, obs) {
                Some(d) => Some(ColonyState::Level1(d)),
                None => None,
            },
            _ => None,
        }
    }
}

pub open spec fn spec_decide(s: ColonyState, obs: ColonyObservation) -> ColonyDecision {
    match spec_demotion(s, obs) {
        Some(d) => ColonyDecision::Demote(d),
        None => if spec_can_promote(s, obs) && spec_promotion(s) is Some {
            ColonyDecision::Promote(spec_promotion(s).unwrap())
        } else {
            ColonyDecision::Stay
        },
    }
}

/// The transitions a round of the lifecycle makes before it warns that it made
/// too many; it goes on transitioning all the same.
pub const WARN_TRANSITIONS: u32 = 20;

/// What a round of the lifecycle does next.
#[derive(PartialEq, Eq, Structural, Clone, Copy, Debug)]
pub enum RoundStep {
    /// The colony stays where it is; the round ends.
    Stay,
    /// Enter the given state (doing its entry work), then decide again.
    Enter(ColonyState),
    /// As `Enter`, where the round has already made more than `WARN_TRANSITIONS`
    /// transitions: the caller warns of it, and enters the state all the same.
    EnterWarned(ColonyState),
}

/// The next step of a round in state `s` after `transitions` transitions in it:
/// a due demotion or promotion is entered, with a warning once the round has
/// made more than `WARN_TRANSITIONS` transitions.
pub open spec fn spec_round_step(s: ColonyState, obs: ColonyObservation, transitions: u32) -> RoundStep {
    match spec_decide(s, obs) {
        ColonyDecision::Stay => RoundStep::Stay,
        ColonyDecision::Promote(n) => if transitions > WARN_TRANSITIONS { RoundStep::EnterWarned(n) } else { RoundStep::Enter(n) },
        ColonyDecision::Demote(n) => if transitions > WARN_TRANSITIONS { RoundStep::EnterWarned(n) } else { RoundStep::Enter(n) },
    }
}

/// The work asked for on entering state `s`, in order.
pub open spec fn spec_entry_actions(s: ColonyState, obs: ColonyObservation) -> Seq<ColonyAction> {
    let own: Seq<ColonyAction> = match s {
        ColonyState::Unclaimed => if !spec_can_promote(s, obs) {
            seq![ColonyAction::RequestClaim]
        } else {
            seq![]
        },
        ColonyState::Level1(sub) => if sub == Level1State::BuildArterialRoads {
            seq![ColonyAction::PlanMainRoads]
        } else {
            seq![]
        },
        _ => if !spec_can_promote(s, obs) {
            seq![ColonyAction::PlanCenter, ColonyAction::PlanMainRoads]
        } else {
            seq![]
        },
    };
    if s == ColonyState::Level4 && obs.has_buffer && obs.buffer_is_container {
        own.push(ColonyAction::DestroyBufferContainer)
    } else {
        own
    }
}

impl Level1State {
    /// The discriminant of this sub-step.
    pub fn discriminant(&self) -> (d: u8)
        ensures
            d == level1_index(*self),
    {
        match self {
            Level1State::BuildContainerStorage => 0,
            Level1State::BuildSpawn => 1,
            Level1State::BuildSourceContainers => 2,
            Level1State::BuildArterialRoads => 3,
            Level1State::UpgradeController => 4,
        }
    }

    /// The sub-step that follows this one, or `None` after the last.
    pub fn get_promotion(&self) -> (p: Option<Level1State>)
        ensures
            p == spec_level1_promotion(*self),
    {
        match self {
            Level1State::BuildContainerStorage => Some(Level1State::BuildSpawn),
            Level1State::BuildSpawn => Some(Level1State::BuildSourceContainers),
            Level1State::BuildSourceContainers => Some(Level1State::BuildArterialRoads),
            Level1State::BuildArterialRoads => Some(Level1State::UpgradeController),
            Level1State::UpgradeController => None,
        }
    }

    /// Whether the sub-step's work is done: the buffer stands, the spawn stands, no
    /// road site is left, or the controller is above level 1.
    pub fn can_promote(&self, obs: &ColonyObservation) -> (b: bool)
        ensures
            b == spec_level1_can_promote(*self, *obs),
    {
        match self {
            Level1State::BuildContainerStorage => obs.has_buffer,
            Level1State::BuildSpawn => obs.has_spawn,
            Level1State::BuildSourceContainers => true,
            Level1State::BuildArterialRoads => !obs.has_road_sites,
            Level1State::UpgradeController => obs.level > 1,
        }
    }

    /// Falls back to building the buffer, or the spawn, where it has vanished.
    pub fn get_demotion(&self, obs: &ColonyObservation) -> (d: Option<Level1State>)
        ensures
            d == spec_level1_demotion(*self, *obs),
    {
        if self.discriminant() > 0 && !obs.has_buffer {
            return Some(Level1State::BuildContainerStorage);
        }
        if self.discriminant() > 1 && !obs.has_spawn {
            return Some(Level1State::BuildSpawn);
        }
        None
    }
}

impl ColonyState {
    /// The controller level this state stands for, which is its discriminant.
    pub fn controller_level(&self) -> (level: u8)
        ensures
            level == state_level(*self),
    {
        match self {
            ColonyState::Unclaimed => 0,
            ColonyState::Level1(_) => 1,
            ColonyState::Level2 => 2,
            ColonyState::Level3 => 3,
            ColonyState::Level4 => 4,
            ColonyState::Level5 => 5,
            ColonyState::Level6 => 6,
            ColonyState::Level7 => 7,
            ColonyState::Level8 => 8,
        }
    }

    /// The first state of a controller level, or `None` above level 8.
    pub fn first_at_level(controller_level: u8) -> (s: Option<ColonyState>)
        ensures
            s == spec_first_at_level(controller_level as nat),
    {
        match controller_level {
            0 => Some(ColonyState::Unclaimed),
            1 => Some(ColonyState::Level1(Level1State::BuildContainerStorage)),
            2 => Some(ColonyState::Level2),
            3 => Some(ColonyState::Level3),
            4 => Some(ColonyState::Level4),
            5 => Some(ColonyState::Level5),
            6 => Some(ColonyState::Level6),
            7 => Some(ColonyState::Level7),
            8 => Some(ColonyState::Level8),
            _ => None,
        }
    }

    /// The state that follows this one, or `None` after level 8.
    pub fn get_promotion(&self) -> (p: Option<ColonyState>)
        ensures
            p == spec_promotion(*self),
    {
        match self {
            ColonyState::Unclaimed => Some(ColonyState::Level1(Level1State::BuildContainerStorage)),
            ColonyState::Level1(sub) => match sub.get_promotion() {
                Some(next) => Some(ColonyState::Level1(next)),
                None => Some(ColonyState::Level2),
            },
            ColonyState::Level2 => Some(ColonyState::Level3),
            ColonyState::Level3 => Some(ColonyState::Level4),
            ColonyState::Level4 => Some(ColonyState::Level5),
            ColonyState::Level5 => Some(ColonyState::Level6),
            ColonyState::Level6 => Some(ColonyState::Level7),
            ColonyState::Level7 => Some(ColonyState::Level8),
            ColonyState::Level8 => None,
        }
    }

    /// Whether the colony may move on from this state.
    pub fn can_promote(&self, obs: &ColonyObservation) -> (b: bool)
        ensures
            b == spec_can_promote(*self, *obs),
    {
        let controller_is_upgraded = obs.level > self.controller_level();
        match self {
            ColonyState::Unclaimed => controller_is_upgraded,
            ColonyState::Level1(substate) => substate.can_promote(obs)
                || (substate.get_promotion().is_none() && controller_is_upgraded),
            ColonyState::Level8 => false,
            _ => controller_is_upgraded,
        }
    }

    /// The state the colony must fall back to, if any: the first state of the
    /// controller's level where this state is beyond it, or an earlier level-1
    /// sub-step whose building has vanished.
    pub fn get_demotion(&self, obs: &ColonyObservation) -> (d: Option<ColonyState>)
        ensures
            d == spec_demotion(*self, *obs),
    {
        if self.controller_level() > obs.level {
            return Self::first_at_level(obs.level);
        }
        match self {
            ColonyState::Level1(substate) => match substate.get_demotion(obs) {
                Some(d) => Some(ColonyState::Level1(d)),
                None => None,
            },
            _ => None,
        }
    }

    /// Whether this state comes before `other` in the order of promotion.
    pub fn is_before(&self, other: &ColonyState) -> (b: bool)
        ensures
            b == (state_rank(*self) < state_rank(*other)),
    {
        self.rank() < other.rank()
    }

    fn rank(&self) -> (r: u8)
        ensures
            r == state_rank(*self),
    {
        match self {
            ColonyState::Unclaimed => 0,
            ColonyState::Level1(sub) => 1 + sub.discriminant(),
            _ => self.controller_level() + 4,
        }
    }

    /// One round of the lifecycle: fall back where a demotion is due, else move on
    /// where a promotion is allowed, else stay.
    pub fn decide(&self, obs: &ColonyObservation) -> (d: ColonyDecision)
        ensures
            d == spec_decide(*self, *obs),
    {
        if let Some(demotion) = self.get_demotion(obs) {
            return ColonyDecision::Demote(demotion);
        }
        if self.can_promote(obs) {
            if let Some(promotion) = self.get_promotion() {
                return ColonyDecision::Promote(promotion);
            }
        }
        ColonyDecision::Stay
    }

    /// The next step of a round of the lifecycle, after `transitions` transitions
    /// in this round.
    pub fn round_step(&self, obs: &ColonyObservation, transitions: u32) -> (r: RoundStep)
        ensures
            r == spec_round_step(*self, *obs, transitions),
    {
        match self.decide(obs) {
            ColonyDecision::Stay => RoundStep::Stay,
            ColonyDecision::Promote(next) | ColonyDecision::Demote(next) => {
                if transitions > WARN_TRANSITIONS {
                    RoundStep::EnterWarned(next)
                } else {
                    RoundStep::Enter(next)
                }
            },
        }
    }

    /// The work to do on entering this state: a claim request for an unclaimed
    /// room that is not yet ours, the main roads on reaching the road sub-step,
    /// the center and roads on reaching a level the controller has not yet passed,
    /// and the removal of a container buffer at level 4.
    pub fn entry_actions(&self, obs: &ColonyObservation) -> (actions: Vec<ColonyAction>)
        ensures
            actions@ == spec_entry_actions(*self, *obs),
    {
        let mut actions: Vec<ColonyAction> = Vec::new();
        match self {
            ColonyState::Unclaimed => {
                if !self.can_promote(obs) {
                    actions.push(ColonyAction::RequestClaim);
                }
            },
            ColonyState::Level1(sub) => {
                if *sub == Level1State::BuildArterialRoads {
                    actions.push(ColonyAction::PlanMainRoads);
                }
            },
            _ => {
                if !self.can_promote(obs) {
                    actions.push(ColonyAction::PlanCenter);
                    actions.push(ColonyAction::PlanMainRoads);
                }
            },
        }
        if *self == ColonyState::Level4 && obs.has_buffer && obs.buffer_is_container {
            actions.push(ColonyAction::DestroyBufferContainer);
        }
        proof {
            assert(actions@ =~= spec_entry_actions(*self, *obs));
        }
        actions
    }
}

/// Law: each promotion moves one place forward in the order of states, raising the
/// discriminant by at most one; only level 8 has none.
pub proof fn law_promotion_advances(s: ColonyState)
    ensures
        spec_promotion(s) matches Some(p) ==> state_rank(p) == state_rank(s) + 1
            && state_level(s) <= state_level(p) <= state_level(s) + 1,
        spec_promotion(s) is None <==> s == ColonyState::Level8,
{
}

/// Law: each level-1 promotion moves one place forward; only the last has none.
pub proof fn law_level1_promotion_advances(s: Level1State)
    ensures
        spec_level1_promotion(s) matches Some(p) ==> level1_index(p) == level1_index(s) + 1,
        spec_level1_promotion(s) is None <==> level1_index(s) == LEVEL1_VARIANT_COUNT - 1,
{
}

/// Law: every demotion, at whatever level the controller is seen, is to a state
/// strictly earlier in the order of states (level-1 sub-steps included).
pub proof fn law_demotion_lower(s: ColonyState, obs: ColonyObservation)
    ensures
        spec_demotion(s, obs) matches Some(d) ==> state_rank(d) < state_rank(s),
{
}

/// Law: what a round of the lifecycle decides is a true demotion (a state earlier in
/// the order) or the state's own promotion.
pub proof fn law_decision_direction(s: ColonyState, obs: ColonyObservation)
    ensures
        spec_decide(s, obs) matches ColonyDecision::Demote(d) ==> state_rank(d) < state_rank(s),
        spec_decide(s, obs) matches ColonyDecision::Promote(p) ==> state_rank(p) == state_rank(s) + 1,
{
}

/// Law: a colony within its controller's level never moves beyond that level, and
/// falls back only within its own level.
pub proof fn law_decision_within_level(s: ColonyState, obs: ColonyObservation)
    requires
        state_level(s) <= obs.level,
    ensures
        spec_decide(s, obs) matches ColonyDecision::Promote(p) ==> state_level(p) <= obs.level,
        spec_decide(s, obs) matches ColonyDecision::Demote(d) ==> state_level(d) == state_level(s),
{
}

/// Law: a round enters exactly the state that the lifecycle decides, however many
/// transitions it already made; it warns exactly when that count is past
/// `WARN_TRANSITIONS`.
pub proof fn law_round_follows_decision(s: ColonyState, obs: ColonyObservation, transitions: u32)
    ensures
        spec_round_step(s, obs, transitions) == match spec_decide(s, obs) {
            ColonyDecision::Stay => RoundStep::Stay,
            ColonyDecision::Promote(n) => if transitions > WARN_TRANSITIONS { RoundStep::EnterWarned(n) } else { RoundStep::Enter(n) },
            ColonyDecision::Demote(n) => if transitions > WARN_TRANSITIONS { RoundStep::EnterWarned(n) } else { RoundStep::Enter(n) },
        },
        (spec_round_step(s, obs, transitions) is EnterWarned) <==> (!(spec_decide(s, obs) is Stay) && transitions > WARN_TRANSITIONS),
{
}

/// Law: a colony at levels 2 to 7 follows its controller's level: it moves on to
/// the state of the next level as soon as the controller is above its own level,
/// stays while the two are equal, and falls back to the first state of the
/// controller's level when that is lower.
pub proof fn law_levels_follow_controller(s: ColonyState, obs: ColonyObservation)
    requires
        2 <= state_level(s) <= 7,
    ensures
        obs.level > state_level(s) ==> (spec_decide(s, obs) matches ColonyDecision::Promote(p)
            && state_level(p) == state_level(s) + 1 && state_rank(p) == state_rank(s) + 1),
        obs.level == state_level(s) ==> spec_decide(s, obs) == ColonyDecision::Stay,
        obs.level < state_level(s) ==> (spec_decide(s, obs) matches ColonyDecision::Demote(d)
            && state_level(d) == obs.level && state_rank(d) < state_rank(s)),
{
}

/// Law: an unclaimed colony moves on to the first sub-step of level 1 once its
/// room's controller has a level, and stays otherwise; a level-8 colony never
/// moves on, and falls back to the first state of its controller's level when
/// that is lower.
pub proof fn law_ends_follow_controller(obs: ColonyObservation)
    ensures
        obs.level > 0 ==> spec_decide(ColonyState::Unclaimed, obs)
            == ColonyDecision::Promote(ColonyState::Level1(Level1State::BuildContainerStorage)),
        obs.level == 0 ==> spec_decide(ColonyState::Unclaimed, obs) == ColonyDecision::Stay,
        obs.level >= 8 ==> spec_decide(ColonyState::Level8, obs) == ColonyDecision::Stay,
        obs.level < 8 ==> (spec_decide(ColonyState::Level8, obs) matches ColonyDecision::Demote(d)
            && state_level(d) == obs.level),
{
}

} // verus!
