//! The build-up steps a colony goes through, from its first spawn to an endlessly
//! upgraded controller, and the decision of which step a colony is at.
use vstd::prelude::*;

verus! {

/// One step of a colony's development, in the order in which they are taken.
#[derive(PartialEq, Eq, Structural, Clone, Copy, Debug, Hash)]
pub enum ColonyStep {
    BuildSpawn,
    BuildBufferAndSourceContainers,
    BuildArterialRoads,
    UpgradeToLevel2,
    BuildLvl2,
    UpgradeToLevel3,
    BuildLvl3,
    UpgradeToLevel4,
    BuildLvl4,
    UpgradeToLevel5,
    BuildLvl5,
    UpgradeToLevel6,
    BuildLvl6,
    UpgradeToLevel7,
    BuildLvl7,
    UpgradeToLevel8,
    BuildLvl8,
    EndlesslyUpgrade,
}

/// The number of steps.
pub const STEP_COUNT: u8 = 18;

impl Default for ColonyStep {
    /// The first step.
    fn default() -> (s: Self)
        ensures
            s == ColonyStep::BuildSpawn,
    {
        ColonyStep::BuildSpawn
    }
}

/// What one round of the step machine decided: go on deciding from the new step in
/// the same tick, or stop at it until the next tick.
#[derive(PartialEq, Eq, Structural, Clone, Copy, Debug)]
pub enum Transition<S> {
    Continue(S),
    Break(S),
}

impl<S> Transition<S> {
    pub open spec fn state(self) -> S {
        match self {
            Transition::Continue(s) => s,
            Transition::Break(s) => s,
        }
    }
}

/// The position of a step in the order of development (its discriminant).
pub open spec fn step_index(s: ColonyStep) -> nat {
    match s {
        ColonyStep::BuildSpawn => 0,
        ColonyStep::BuildBufferAndSourceContainers => 1,
        ColonyStep::BuildArterialRoads => 2,
        ColonyStep::UpgradeToLevel2 => 3,
        ColonyStep::BuildLvl2 => 4,
        ColonyStep::UpgradeToLevel3 => 5,
        ColonyStep::BuildLvl3 => 6,
        ColonyStep::UpgradeToLevel4 => 7,
        ColonyStep::BuildLvl4 => 8,
        ColonyStep::UpgradeToLevel5 => 9,
        ColonyStep::BuildLvl5 => 10,
        ColonyStep::UpgradeToLevel6 => 11,
        ColonyStep::BuildLvl6 => 12,
        ColonyStep::UpgradeToLevel7 => 13,
        ColonyStep::BuildLvl7 => 14,
        ColonyStep::UpgradeToLevel8 => 15,
        ColonyStep::BuildLvl8 => 16,
        ColonyStep::EndlesslyUpgrade => 17,
    }
}

/// The step at a position in the order of development.
pub open spec fn step_at(i: nat) -> Option<ColonyStep> {
    if i == 0 { Some(ColonyStep::BuildSpawn) }
    else if i == 1 { Some(ColonyStep::BuildBufferAndSourceContainers) }
    else if i == 2 { Some(ColonyStep::BuildArterialRoads) }
    else if i == 3 { Some(ColonyStep::UpgradeToLevel2) }
    else if i == 4 { Some(ColonyStep::BuildLvl2) }
    else if i == 5 { Some(ColonyStep::UpgradeToLevel3) }
    else if i == 6 { Some(ColonyStep::BuildLvl3) }
    else if i == 7 { Some(ColonyStep::UpgradeToLevel4) }
    else if i == 8 { Some(ColonyStep::BuildLvl4) }
    else if i == 9 { Some(ColonyStep::UpgradeToLevel5) }
    else if i == 10 { Some(ColonyStep::BuildLvl5) }
    else if i == 11 { Some(ColonyStep::UpgradeToLevel6) }
    else if i == 12 { Some(ColonyStep::BuildLvl6) }
    else if i == 13 { Some(ColonyStep::UpgradeToLevel7) }
    else if i == 14 { Some(ColonyStep::BuildLvl7) }
    else if i == 15 { Some(ColonyStep::UpgradeToLevel8) }
    else if i == 16 { Some(ColonyStep::BuildLvl8) }
    else if i == 17 { Some(ColonyStep::EndlesslyUpgrade) }
    else { None }
}

/// The controller level that a step belongs to: the steps up to the upgrade to
/// level 2 belong to level 1, and each later pair of a build step and the
/// following upgrade step belongs to the level that is being built out.
pub open spec fn step_level(s: ColonyStep) -> nat {
    let i = step_index(s);
    if i <= 3 { 1 } else { (i / 2) as nat }
}

/// The first step whose controller level is at least `level`.
pub open spec fn is_first_at_level(s: ColonyStep, level: nat) -> bool {
    &&& step_level(s) >= level
    &&& forall|t: ColonyStep| step_index(t) < step_index(s) ==> step_level(t) < level
}

/// The first step of each controller level (levels above 8 have none; 8 is used).
pub open spec fn spec_first_at_level(level: nat) -> ColonyStep {
    if level <= 1 { ColonyStep::BuildSpawn }
    else if level == 2 { ColonyStep::BuildLvl2 }
    else if level == 3 { ColonyStep::BuildLvl3 }
    else if level == 4 { ColonyStep::BuildLvl4 }
    else if level == 5 { ColonyStep::BuildLvl5 }
    else if level == 6 { ColonyStep::BuildLvl6 }
    else if level == 7 { ColonyStep::BuildLvl7 }
    else { ColonyStep::BuildLvl8 }
}

/// The step that follows `s`, if any.
pub open spec fn spec_promotion(s: ColonyStep) -> Option<ColonyStep> {
    step_at(step_index(s) + 1)
}

/// One round of the step machine (see `ColonyStep::update`).
pub open spec fn spec_update(s: ColonyStep, level: nat, built: bool) -> Transition<ColonyStep> {
    if step_level(s) > level {
        Transition::Continue(spec_first_at_level(level))
    } else {
        match spec_promotion(s) {
            None => Transition::Break(s),
            Some(p) => if built && (step_level(p) <= step_level(s) || level > step_level(s)) {
                Transition::Continue(p)
            } else {
                Transition::Break(s)
            },
        }
    }
}

/// The first step of a level is the first, in the order of development, whose
/// level reaches it.
pub proof fn lemma_first_at_level(level: nat)
    requires
        level <= 8,
    ensures
        is_first_at_level(spec_first_at_level(level), level),
{
}

/// `a` comes before `b` in the order of development.
pub open spec fn step_before(a: ColonyStep, b: ColonyStep) -> bool {
    step_index(a) < step_index(b)
}

/// Every step has its index, and the index leads back to it.
pub proof fn lemma_step_index_roundtrip(s: ColonyStep)
    ensures
        step_index(s) < STEP_COUNT,
        step_at(step_index(s)) == Some(s),
{
}

/// The positions below the step count are exactly the steps.
pub proof fn lemma_step_at_index(i: nat)
    ensures
        i < STEP_COUNT <==> step_at(i) is Some,
        i < STEP_COUNT ==> step_index(step_at(i).unwrap()) == i,
{
}

impl ColonyStep {
    /// The position of this step in the order of development.
    pub fn index(&self) -> (i: u8)
        ensures
            i == step_index(*self),
    {
        match self {
            ColonyStep::BuildSpawn => 0,
            ColonyStep::BuildBufferAndSourceContainers => 1,
            ColonyStep::BuildArterialRoads => 2,
            ColonyStep::UpgradeToLevel2 => 3,
            ColonyStep::BuildLvl2 => 4,
            ColonyStep::UpgradeToLevel3 => 5,
            ColonyStep::BuildLvl3 => 6,
            ColonyStep::UpgradeToLevel4 => 7,
            ColonyStep::BuildLvl4 => 8,
            ColonyStep::UpgradeToLevel5 => 9,
            ColonyStep::BuildLvl5 => 10,
            ColonyStep::UpgradeToLevel6 => 11,
            ColonyStep::BuildLvl6 => 12,
            ColonyStep::UpgradeToLevel7 => 13,
            ColonyStep::BuildLvl7 => 14,
            ColonyStep::UpgradeToLevel8 => 15,
            ColonyStep::BuildLvl8 => 16,
            ColonyStep::EndlesslyUpgrade => 17,
        }
    }

    /// The step at a position in the order of development, if there is one.
    pub fn from_repr(i: u8) -> (s: Option<ColonyStep>)
        ensures
            s == step_at(i as nat),
    {
        match i {
            0 => Some(ColonyStep::BuildSpawn),
            1 => Some(ColonyStep::BuildBufferAndSourceContainers),
            2 => Some(ColonyStep::BuildArterialRoads),
            3 => Some(ColonyStep::UpgradeToLevel2),
            4 => Some(ColonyStep::BuildLvl2),
            5 => Some(ColonyStep::UpgradeToLevel3),
            6 => Some(ColonyStep::BuildLvl3),
            7 => Some(ColonyStep::UpgradeToLevel4),
            8 => Some(ColonyStep::BuildLvl4),
            9 => Some(ColonyStep::UpgradeToLevel5),
            10 => Some(ColonyStep::BuildLvl5),
            11 => Some(ColonyStep::UpgradeToLevel6),
            12 => Some(ColonyStep::BuildLvl6),
            13 => Some(ColonyStep::UpgradeToLevel7),
            14 => Some(ColonyStep::BuildLvl7),
            15 => Some(ColonyStep::UpgradeToLevel8),
            16 => Some(ColonyStep::BuildLvl8),
            17 => Some(ColonyStep::EndlesslyUpgrade),
            _ => None,
        }
    }

    /// The controller level this step belongs to.
    pub fn controller_level(&self) -> (level: u8)
        ensures
            level == step_level(*self),
            1 <= level <= 8,
    {
        match self {
            ColonyStep::BuildSpawn
            | ColonyStep::BuildBufferAndSourceContainers
            | ColonyStep::BuildArterialRoads
            | ColonyStep::UpgradeToLevel2 => 1,
            ColonyStep::BuildLvl2 | ColonyStep::UpgradeToLevel3 => 2,
            ColonyStep::BuildLvl3 | ColonyStep::UpgradeToLevel4 => 3,
            ColonyStep::BuildLvl4 | ColonyStep::UpgradeToLevel5 => 4,
            ColonyStep::BuildLvl5 | ColonyStep::UpgradeToLevel6 => 5,
            ColonyStep::BuildLvl6 | ColonyStep::UpgradeToLevel7 => 6,
            ColonyStep::BuildLvl7 | ColonyStep::UpgradeToLevel8 => 7,
            ColonyStep::BuildLvl8 | ColonyStep::EndlesslyUpgrade => 8,
        }
    }

    /// The first step, in the order of development, whose controller level is at
    /// least `level`.
    pub fn first_at_level(level: u8) -> (s: ColonyStep)
        requires
            level <= 8,
        ensures
            s == spec_first_at_level(level as nat),
            is_first_at_level(s, level as nat),
    {
        proof {
            lemma_first_at_level(level as nat);
        }
        let mut i: u8 = 0;
        while i < STEP_COUNT
            invariant
                i <= STEP_COUNT,
                level <= 8,
                forall|t: ColonyStep| step_index(t) < i ==> step_level(t) < level,
            decreases STEP_COUNT - i,
        {
            let step = Self::from_repr(i);
            proof {
                lemma_step_at_index(i as nat);
            }
            let step = step.unwrap();
            if step.controller_level() >= level {
                proof {
                    lemma_first_at_level_unique(step, spec_first_at_level(level as nat), level as nat);
                }
                return step;
            }
            i = i + 1;
        }
        proof {
            assert(step_level(ColonyStep::EndlesslyUpgrade) < level);
        }
        ColonyStep::EndlesslyUpgrade
    }

    /// The step that follows this one, or `None` after the last.
    pub fn promotion(&self) -> (p: Option<ColonyStep>)
        ensures
            p == step_at(step_index(*self) + 1),
            p is None <==> *self == ColonyStep::EndlesslyUpgrade,
            p is Some ==> step_index(p.unwrap()) == step_index(*self) + 1,
    {
        let i = self.index();
        proof {
            lemma_step_at_index(i as nat + 1);
        }
        Self::from_repr(i + 1)
    }

    /// The last step.
    pub fn last() -> (s: ColonyStep)
        ensures
            step_index(s) == STEP_COUNT - 1,
            forall|t: ColonyStep| step_index(t) <= step_index(s),
    {
        ColonyStep::EndlesslyUpgrade
    }

    /// One round of the step machine for a colony whose controller is at
    /// `controller_level`. `built_step` tells whether everything that the plan
    /// schedules for this step stands built (true where the plan schedules nothing).
    ///
    /// A colony whose step lies beyond its controller's level falls back to the
    /// first step of that level. Otherwise it moves on to the next step once this
    /// one is built, and, where the next step belongs to a higher level, only once
    /// the controller has reached beyond this step's level.
    pub fn update(self, controller_level: u8, built_step: bool) -> (t: Transition<ColonyStep>)
        requires
            controller_level <= 8,
        ensures
            t == spec_update(self, controller_level as nat, built_step),
    {
        if self.controller_level() > controller_level {
            return Transition::Continue(Self::first_at_level(controller_level));
        }
        let controller_is_upgraded = controller_level > self.controller_level();
        let promotion = match self.promotion() {
            Some(p) => p,
            None => return Transition::Break(self),
        };
        let promotion_is_upgrade = promotion.controller_level() > self.controller_level();
        if built_step && (!promotion_is_upgrade || controller_is_upgraded) {
            Transition::Continue(promotion)
        } else {
            Transition::Break(self)
        }
    }
}

/// The controller level never falls along the order of development.
pub proof fn lemma_step_level_monotonic(a: ColonyStep, b: ColonyStep)
    requires
        step_index(a) <= step_index(b),
    ensures
        step_level(a) <= step_level(b),
{
}

/// Law: each step's level is at most one above the level of the step before it.
pub proof fn law_promotion_raises_level_by_at_most_one(s: ColonyStep)
    requires
        s != ColonyStep::EndlesslyUpgrade,
    ensures
        step_level(s) <= step_level(step_at(step_index(s) + 1).unwrap()) <= step_level(s) + 1,
{
}

/// Law: the first step at a step's own level comes no later than that step.
pub proof fn law_first_at_level_precedes(s: ColonyStep, f: ColonyStep)
    requires
        is_first_at_level(f, step_level(s)),
    ensures
        step_index(f) <= step_index(s),
        step_level(f) == step_level(s),
{
    if step_index(f) > step_index(s) {
        assert(step_level(s) < step_level(s));
    }
    lemma_step_level_monotonic(f, s);
}

/// Two steps that are each the first to reach a level are the same step.
pub proof fn lemma_first_at_level_unique(a: ColonyStep, b: ColonyStep, level: nat)
    requires
        is_first_at_level(a, level),
        is_first_at_level(b, level),
    ensures
        a == b,
{
    lemma_step_index_roundtrip(a);
    lemma_step_index_roundtrip(b);
}

/// Law: a round of the step machine never carries a colony to a step of a higher
/// controller level than its controller has; and a colony whose step is within its
/// controller's level moves forward by at most one step, never backward.
pub proof fn law_update_respects_controller_level(s: ColonyStep, level: nat, built: bool)
    requires
        1 <= level <= 8,
    ensures
        step_level(spec_update(s, level, built).state()) <= level,
        step_level(s) <= level ==> step_index(s) <= step_index(spec_update(s, level, built).state())
            <= step_index(s) + 1,
{
}

/// Law: once every step is built and the controller is at the top level, the
/// machine keeps promoting until the last step, where it stops.
pub proof fn law_update_reaches_last_step(s: ColonyStep)
    ensures
        s != ColonyStep::EndlesslyUpgrade ==> spec_update(s, 8, true) == Transition::Continue(
            step_at(step_index(s) + 1).unwrap()),
        spec_update(ColonyStep::EndlesslyUpgrade, 8, true) == Transition::Break(ColonyStep::EndlesslyUpgrade),
{
}

/// Law: without the current step built, the machine never moves forward.
pub proof fn law_unbuilt_step_stays(s: ColonyStep, level: nat)
    requires
        step_level(s) <= level,
    ensures
        spec_update(s, level, false) == Transition::Break(s),
{
}

} // verus!
