//! The state of a claimed room, as the colony planner tracks it: unclaimed, the
//! sub-steps of controller level 1, then one state per further controller level.
//! Here every sub-step of level 1 may be promoted at once and no state has work of
//! its own, so the state a colony settles in depends on its controller level alone.
use vstd::prelude::*;

verus! {

/// The sub-steps of controller level 1.
#[derive(PartialEq, Eq, Structural, PartialOrd, Ord, Clone, Copy, Debug, Hash)]
pub enum Level1State {
    BuildContainerStorage,
    BuildSpawn,
    BuildSourceContainers,
    BuildArterialRoads,
}

/// The number of sub-steps of level 1.
pub const LEVEL1_VARIANT_COUNT: u8 = 4;

/// The state of a colony.
#[derive(PartialEq, Eq, Structural, PartialOrd, Ord, Clone, Copy, Debug, Hash)]
pub enum ColonyState {
    Unclaimed,
    Level1(Level1State),
    Level2,
    Level3,
    Level4,
    Level5,
    Level6,
    Level7,
    Level8,
}

/// The number of variants of `ColonyState`.
pub const COLONY_VARIANT_COUNT: u8 = 9;

impl Default for Level1State {
    /// The first sub-step of level 1.
    fn default() -> (s: Self)
        ensures
            s == Level1State::BuildContainerStorage,
    {
        Level1State::BuildContainerStorage
    }
}

impl Default for ColonyState {
    /// A colony starts unclaimed.
    fn default() -> (s: Self)
        ensures
            s == ColonyState::Unclaimed,
    {
        ColonyState::Unclaimed
    }
}

/// The discriminant of a level-1 sub-step.
pub open spec fn level1_index(s: Level1State) -> nat {
    match s {
        Level1State::BuildContainerStorage => 0,
        Level1State::BuildSpawn => 1,
        Level1State::BuildSourceContainers => 2,
        Level1State::BuildArterialRoads => 3,
    }
}

/// The discriminant of a colony state, which is also the controller level it stands for.
pub open spec fn state_level(s: ColonyState) -> nat {
    match s {
        ColonyState::Unclaimed => 0,
        ColonyState::Level1(_) => 1,
        ColonyState::Level2 => 2,
        ColonyState::Level3 => 3,
        ColonyState::Level4 => 4,
        ColonyState::Level5 => 5,
        ColonyState::Level6 => 6,
        ColonyState::Level7 => 7,
        ColonyState::Level8 => 8,
    }
}

/// The position of a colony state in the order of its derived comparison: by
/// discriminant first, then by the level-1 sub-step.
pub open spec fn state_rank(s: ColonyState) -> nat {
    match s {
        ColonyState::Unclaimed => 0,
        ColonyState::Level1(sub) => 1 + level1_index(sub),
        _ => state_level(s) + 3,
    }
}

/// The next level-1 sub-step, if any.
pub open spec fn spec_level1_promotion(s: Level1State) -> Option<Level1State> {
    match s {
        Level1State::BuildContainerStorage => Some(Level1State::BuildSpawn),
        Level1State::BuildSpawn => Some(Level1State::BuildSourceContainers),
        Level1State::BuildSourceContainers => Some(Level1State::BuildArterialRoads),
        Level1State::BuildArterialRoads => None,
    }
}

/// The next colony state, if any.
pub open spec fn spec_promotion(s: ColonyState) -> Option<ColonyState> {
    match s {
        ColonyState::Unclaimed => Some(ColonyState::Level1(Level1State::BuildContainerStorage)),
        ColonyState::Level1(sub) => match spec_level1_promotion(sub) {
            Some(next) => Some(ColonyState::Level1(next)),
            None => Some(ColonyState::Level2),
        },
        ColonyState::Level2 => Some(ColonyState::Level3),
        ColonyState::Level3 => Some(ColonyState::Level4),
        ColonyState::Level4 => Some(ColonyState::Level5),
        ColonyState::Level5 => Some(ColonyState::Level6),
        ColonyState::Level6 => Some(ColonyState::Level7),
        ColonyState::Level7 => Some(ColonyState::Level8),
        ColonyState::Level8 => None,
    }
}

/// The first state of a controller level (levels above 8 have none).
pub open spec fn spec_first_at_level(level: nat) -> Option<ColonyState> {
    if level == 0 { Some(ColonyState::Unclaimed) }
    else if level == 1 { Some(ColonyState::Level1(Level1State::BuildContainerStorage)) }
    else if level == 2 { Some(ColonyState::Level2) }
    else if level == 3 { Some(ColonyState::Level3) }
    else if level == 4 { Some(ColonyState::Level4) }
    else if level == 5 { Some(ColonyState::Level5) }
    else if level == 6 { Some(ColonyState::Level6) }
    else if level == 7 { Some(ColonyState::Level7) }
    else if level == 8 { Some(ColonyState::Level8) }
    else { None }
}

/// Whether a colony whose controller is at `level` may leave state `s` for its promotion.
pub open spec fn spec_can_promote(s: ColonyState, level: nat) -> bool {
    let upgraded = level > state_level(s);
    match s {
        ColonyState::Unclaimed => upgraded,
        ColonyState::Level1(sub) => match spec_level1_promotion(sub) {
            None => upgraded,
            Some(_) => true,
        },
        ColonyState::Level8 => false,
        _ => upgraded,
    }
}

/// The state a colony whose controller is at `level` falls back to from `s`, if any.
pub open spec fn spec_demotion(s: ColonyState, level: nat) -> Option<ColonyState> {
    if state_level(s) > level { spec_first_at_level(level) } else { None }
}

/// The state in which a colony whose controller is at `level` settles.
pub open spec fn spec_settled(level: nat) -> ColonyState {
    if level == 0 { ColonyState::Unclaimed }
    else if level == 1 { ColonyState::Level1(Level1State::BuildArterialRoads) }
    else if level == 2 { ColonyState::Level2 }
    else if level == 3 { ColonyState::Level3 }
    else if level == 4 { ColonyState::Level4 }
    else if level == 5 { ColonyState::Level5 }
    else if level == 6 { ColonyState::Level6 }
    else if level == 7 { ColonyState::Level7 }
    else { ColonyState::Level8 }
}

/// The measure by which the transitions of `update` make progress.
pub open spec fn update_measure(s: ColonyState, level: nat) -> nat {
    if state_level(s) > level { 100 } else { (20 - state_rank(s)) as nat }
}

impl Level1State {
    /// The discriminant of this sub-step.
    pub fn discriminant(&self) -> (d: u8)
        ensures
            d == level1_index(*self),
    {
        match self {
            Level1State::BuildContainerStorage => 0,
            Level1State::BuildSpawn => 1,
            Level1State::BuildSourceContainers => 2,
            Level1State::BuildArterialRoads => 3,
        }
    }

    /// The sub-step that follows this one, or `None` after the last.
    pub fn get_promotion(&self) -> (p: Option<Level1State>)
        ensures
            p == spec_level1_promotion(*self),
    {
        match self {
            Level1State::BuildContainerStorage => Some(Level1State::BuildSpawn),
            Level1State::BuildSpawn => Some(Level1State::BuildSourceContainers),
            Level1State::BuildSourceContainers => Some(Level1State::BuildArterialRoads),
            Level1State::BuildArterialRoads => None,
        }
    }

    /// Every sub-step of level 1 may be left as soon as it is reached.
    pub fn can_promote(&self) -> (b: bool)
        ensures
            b,
    {
        true
    }

    /// No sub-step of level 1 falls back to another.
    pub fn get_demotion(&self) -> (d: Option<Level1State>)
        ensures
            d is None,
    {
        None
    }
}

impl ColonyState {
    /// The first state, in the order of promotion.
    pub fn first() -> (s: ColonyState)
        ensures
            s == ColonyState::Unclaimed,
            state_rank(s) == 0,
    {
        ColonyState::Unclaimed
    }

    /// The controller level this state stands for, which is its discriminant.
    pub fn controller_level(&self) -> (level: u8)
        ensures
            level == state_level(*self),
    {
        match self {
            ColonyState::Unclaimed => 0,
            ColonyState::Level1(_) => 1,
            ColonyState::Level2 => 2,
            ColonyState::Level3 => 3,
            ColonyState::Level4 => 4,
            ColonyState::Level5 => 5,
            ColonyState::Level6 => 6,
            ColonyState::Level7 => 7,
            ColonyState::Level8 => 8,
        }
    }

    /// The first state of a controller level, or `None` above level 8.
    pub fn first_at_level(controller_level: u8) -> (s: Option<ColonyState>)
        ensures
            s == spec_first_at_level(controller_level as nat),
    {
        match controller_level {
            0 => Some(ColonyState::Unclaimed),
            1 => Some(ColonyState::Level1(Level1State::BuildContainerStorage)),
            2 => Some(ColonyState::Level2),
            3 => Some(ColonyState::Level3),
            4 => Some(ColonyState::Level4),
            5 => Some(ColonyState::Level5),
            6 => Some(ColonyState::Level6),
            7 => Some(ColonyState::Level7),
            8 => Some(ColonyState::Level8),
            _ => None,
        }
    }

    /// The state that follows this one, or `None` after level 8.
    pub fn get_promotion(&self) -> (p: Option<ColonyState>)
        ensures
            p == spec_promotion(*self),
    {
        match self {
            ColonyState::Unclaimed => Some(ColonyState::Level1(Level1State::BuildContainerStorage)),
            ColonyState::Level1(sub) => match sub.get_promotion() {
                Some(next) => Some(ColonyState::Level1(next)),
                None => Some(ColonyState::Level2),
            },
            ColonyState::Level2 => Some(ColonyState::Level3),
            ColonyState::Level3 => Some(ColonyState::Level4),
            ColonyState::Level4 => Some(ColonyState::Level5),
            ColonyState::Level5 => Some(ColonyState::Level6),
            ColonyState::Level6 => Some(ColonyState::Level7),
            ColonyState::Level7 => Some(ColonyState::Level8),
            ColonyState::Level8 => None,
        }
    }

    /// Whether a colony whose controller is at `level` may be promoted from this
    /// state: a level-1 sub-step with a successor always may, any other state once
    /// the controller is above the state's level, and level 8 never.
    pub fn can_promote(&self, level: u8) -> (b: bool)
        ensures
            b == spec_can_promote(*self, level as nat),
    {
        let controller_is_upgraded = level > self.controller_level();
        match self {
            ColonyState::Unclaimed => controller_is_upgraded,
            ColonyState::Level1(substate) => match substate.get_promotion() {
                None => controller_is_upgraded,
                Some(_) => substate.can_promote(),
            },
            ColonyState::Level2
            | ColonyState::Level3
            | ColonyState::Level4
            | ColonyState::Level5
            | ColonyState::Level6
            | ColonyState::Level7 => controller_is_upgraded,
            ColonyState::Level8 => false,
        }
    }

    /// The state to fall back to when the controller is below this state's level:
    /// the first state of the controller's level.
    pub fn get_demotion(&self, level: u8) -> (d: Option<ColonyState>)
        ensures
            d == spec_demotion(*self, level as nat),
    {
        if self.controller_level() > level {
            return Self::first_at_level(level);
        }
        match self {
            ColonyState::Level1(substate) => match substate.get_demotion() {
                Some(sub) => Some(ColonyState::Level1(sub)),
                None => None,
            },
            _ => None,
        }
    }

    /// Whether this state comes before `other` in the order of promotion.
    pub fn is_before(&self, other: &ColonyState) -> (b: bool)
        ensures
            b == (state_rank(*self) < state_rank(*other)),
    {
        self.rank() < other.rank()
    }

    fn rank(&self) -> (r: u8)
        ensures
            r == state_rank(*self),
    {
        match self {
            ColonyState::Unclaimed => 0,
            ColonyState::Level1(sub) => 1 + sub.discriminant(),
            _ => self.controller_level() + 3,
        }
    }

    fn transition_into(&self, next_state: ColonyState, level: u8) -> (r: ColonyState)
        requires
            update_measure(next_state, level as nat) < update_measure(*self, level as nat),
        ensures
            r == spec_settled(level as nat),
        decreases update_measure(*self, level as nat), 0nat,
    {
        next_state.update(level)
    }

    /// Brings the state of a colony whose controller is at `level` up to date:
    /// falls back to the first state of the controller's level where the state is
    /// beyond it, and takes every promotion that is allowed, until none is.
    pub fn update(&self, level: u8) -> (r: ColonyState)
        ensures
            r == spec_settled(level as nat),
        decreases update_measure(*self, level as nat), 1nat,
    {
        if let Some(demotion) = self.get_demotion(level) {
            return self.transition_into(demotion, level);
        }
        if self.can_promote(level) {
            if let Some(promotion) = self.get_promotion() {
                return self.transition_into(promotion, level);
            }
        }
        *self
    }
}

/// Law: each promotion moves one place forward in the order of states, and raises
/// the discriminant by at most one.
pub proof fn law_promotion_advances(s: ColonyState)
    ensures
        spec_promotion(s) matches Some(p) ==> state_rank(p) == state_rank(s) + 1
            && state_level(s) <= state_level(p) <= state_level(s) + 1,
        spec_promotion(s) is None <==> s == ColonyState::Level8,
{
}

/// Law: each level-1 promotion moves one place forward.
pub proof fn law_level1_promotion_advances(s: Level1State)
    ensures
        spec_level1_promotion(s) matches Some(p) ==> level1_index(p) == level1_index(s) + 1,
        spec_level1_promotion(s) is None <==> level1_index(s) == LEVEL1_VARIANT_COUNT - 1,
{
}

/// Law: a demotion always moves backward in the order of states.
pub proof fn law_demotion_goes_back(s: ColonyState, level: nat)
    ensures
        spec_demotion(s, level) matches Some(d) ==> state_rank(d) < state_rank(s),
{
}

/// Law: updating is idempotent, and the settled state has the controller's level
/// (up to 8).
pub proof fn law_update_settles(level: nat)
    ensures
        spec_demotion(spec_settled(level), level) is None,
        !spec_can_promote(spec_settled(level), level) || spec_promotion(spec_settled(level)) is None,
        state_level(spec_settled(level)) == if level <= 8 { level } else { 8 },
{
}

} // verus!
