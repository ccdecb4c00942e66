//! What an excavator does: it is towed to its source's container, then mines,
//! keeping itself as full as it can and putting its energy where the source's plan
//! needs it: construction sites first, then the spawn, extensions and link, then
//! the container.
use vstd::prelude::*;
use crate::movement::next_used_energy;
use crate::position::{packed_valid, spec_range, range_between};
use crate::steps::Transition;
use crate::virtual_creep::{ENERGY, Intent, IntentAction, IntentEffect, IntentError, IntentType, VirtualCreep,
    build_amount, cancelled, harvest_amount, register_outcome, register_result, transfer_amount, transfer_from_amount};

verus! {

/// What stands at a planned place this tick.
#[derive(PartialEq, Eq, Structural, Clone, Copy, Debug)]
pub enum PlannedState {
    Nothing,
    /// A construction site for the structure, with its progress.
    Site { id: u64, progress: u32, progress_total: u32 },
    /// The structure, with the energy it holds and its free capacity for energy.
    Built { id: u64, used: u32, free: u32 },
}

/// A planned structure: where it goes, and what stands there.
#[derive(PartialEq, Eq, Structural, Clone, Copy, Debug)]
pub struct PlannedSpot {
    pub pos: u32,
    pub state: PlannedState,
}

/// The structures planned around a source, as they stand this tick.
pub struct SourcePlanView {
    pub spawn: Option<PlannedSpot>,
    pub container: Option<PlannedSpot>,
    pub link: Option<PlannedSpot>,
    pub extensions: Vec<PlannedSpot>,
}

/// Where an excavator puts its energy.
#[derive(PartialEq, Eq, Structural, Clone, Copy, Debug)]
pub enum EnergyDestination {
    ConstructionSite { id: u64, progress: u32, progress_total: u32 },
    Spawn { id: u64, free: u32 },
    Extension { id: u64, free: u32 },
    Link { id: u64, free: u32 },
    Container { id: u64, free: u32 },
}

/// The construction site at a planned place, if there is one.
pub open spec fn spot_site(s: Option<PlannedSpot>) -> Option<EnergyDestination> {
    match s {
        Some(PlannedSpot { state: PlannedState::Site { id, progress, progress_total }, .. }) =>
            Some(EnergyDestination::ConstructionSite { id, progress, progress_total }),
        _ => None,
    }
}

/// The free capacity of a built structure at a planned place that has room left.
pub open spec fn spot_room(s: Option<PlannedSpot>) -> Option<(u64, u32)> {
    match s {
        Some(PlannedSpot { state: PlannedState::Built { id, free, .. }, .. }) => if free > 0 { Some((id, free)) } else { None },
        _ => None,
    }
}

/// The first construction site among the extensions.
pub open spec fn first_extension_site(s: Seq<PlannedSpot>) -> Option<EnergyDestination>
    decreases s.len(),
{
    if s.len() == 0 {
        None
    } else if spot_site(Some(s[0])) is Some {
        spot_site(Some(s[0]))
    } else {
        first_extension_site(s.drop_first())
    }
}

/// The first built extension with room left.
pub open spec fn first_extension_room(s: Seq<PlannedSpot>) -> Option<(u64, u32)>
    decreases s.len(),
{
    if s.len() == 0 {
        None
    } else if spot_room(Some(s[0])) is Some {
        spot_room(Some(s[0]))
    } else {
        first_extension_room(s.drop_first())
    }
}

/// The first construction site of the plan: the container's, the link's, the
/// spawn's, then the extensions' in order.
pub open spec fn plan_construction_site(p: SourcePlanView) -> Option<EnergyDestination> {
    if spot_site(p.container) is Some {
        spot_site(p.container)
    } else if spot_site(p.link) is Some {
        spot_site(p.link)
    } else if spot_site(p.spawn) is Some {
        spot_site(p.spawn)
    } else {
        first_extension_site(p.extensions@)
    }
}

/// The first structure of the plan to fill that has room: the spawn, an
/// extension, then the link.
pub open spec fn plan_fill_target(p: SourcePlanView) -> Option<EnergyDestination> {
    match (spot_room(p.spawn), first_extension_room(p.extensions@), spot_room(p.link)) {
        (Some((id, free)), _, _) => Some(EnergyDestination::Spawn { id, free }),
        (None, Some((id, free)), _) => Some(EnergyDestination::Extension { id, free }),
        (None, None, Some((id, free))) => Some(EnergyDestination::Link { id, free }),
        (None, None, None) => None,
    }
}

/// Where the excavator puts its energy: a construction site, else a structure to
/// fill, else the container if it has room.
pub open spec fn plan_energy_destination(p: SourcePlanView) -> Option<EnergyDestination> {
    if plan_construction_site(p) is Some {
        plan_construction_site(p)
    } else if plan_fill_target(p) is Some {
        plan_fill_target(p)
    } else {
        match spot_room(p.container) {
            Some((id, free)) => Some(EnergyDestination::Container { id, free }),
            None => None,
        }
    }
}

/// The kind of intent that putting energy somewhere registers.
pub open spec fn receive_type(d: EnergyDestination) -> IntentType {
    match d {
        EnergyDestination::ConstructionSite { .. } => IntentType::Build,
        _ => IntentType::Transfer,
    }
}

/// The intent that putting energy somewhere registers for creep `c`: building
/// the site with what it holds, or transferring all its energy.
pub open spec fn receive_intent(d: EnergyDestination, c: VirtualCreep) -> Intent {
    match d {
        EnergyDestination::ConstructionSite { id, progress, progress_total } => Intent {
            effect: Some(IntentEffect::Outgoing(ENERGY, build_amount(c, progress, progress_total))),
            action: IntentAction::Build { site: id },
        },
        EnergyDestination::Spawn { id, free } => transfer_all(c, id, free),
        EnergyDestination::Extension { id, free } => transfer_all(c, id, free),
        EnergyDestination::Link { id, free } => transfer_all(c, id, free),
        EnergyDestination::Container { id, free } => transfer_all(c, id, free),
    }
}

/// The intent of transferring all of the creep's energy to a target with `free`
/// room.
pub open spec fn transfer_all(c: VirtualCreep, id: u64, free: u32) -> Intent {
    let amt = transfer_amount(c, ENERGY, None, free);
    Intent {
        effect: Some(IntentEffect::Outgoing(ENERGY, amt)),
        action: IntentAction::Transfer { target: id, resource: ENERGY, amount: amt },
    }
}

/// A construction site's progress is no more than its total.
pub open spec fn destination_sound(d: EnergyDestination) -> bool {
    d matches EnergyDestination::ConstructionSite { progress, progress_total, .. } ==> progress <= progress_total
}

/// Every construction site of the plan has no more progress than its total.
pub open spec fn plan_sound(p: SourcePlanView) -> bool {
    &&& forall|i: int| 0 <= i < p.extensions@.len() ==> spot_sound(#[trigger] p.extensions@[i])
    &&& p.spawn matches Some(s) ==> spot_sound(s)
    &&& p.container matches Some(s) ==> spot_sound(s)
    &&& p.link matches Some(s) ==> spot_sound(s)
}

/// A construction site at the spot has no more progress than its total.
pub open spec fn spot_sound(s: PlannedSpot) -> bool {
    s.state matches PlannedState::Site { progress, progress_total, .. } ==> progress <= progress_total
}

impl EnergyDestination {
    /// The excavator can keep harvesting in the same tick: it is not building.
    pub fn can_also_harvest(&self) -> (b: bool)
        ensures
            b == !(*self is ConstructionSite),
    {
        match self {
            EnergyDestination::ConstructionSite { .. } => false,
            _ => true,
        }
    }

    /// Puts the creep's energy here: builds the site, or transfers all its energy.
    /// Gives the energy that leaves the creep.
    pub fn recieve(self, creep: &mut VirtualCreep) -> (r: Result<u32, IntentError>)
        requires
            old(creep).wf(),
            destination_sound(self),
        ensures
            final(creep).wf(),
            register_outcome(*old(creep), *final(creep), receive_type(self), receive_intent(self, *old(creep)), r),
    {
        match self {
            EnergyDestination::ConstructionSite { id, progress, progress_total } => creep.build(id, progress, progress_total),
            EnergyDestination::Spawn { id, free } => creep.transfer(id, free, ENERGY, None),
            EnergyDestination::Extension { id, free } => creep.transfer(id, free, ENERGY, None),
            EnergyDestination::Link { id, free } => creep.transfer(id, free, ENERGY, None),
            EnergyDestination::Container { id, free } => creep.transfer(id, free, ENERGY, None),
        }
    }
}

/// The construction site at a planned place, if there is one.
fn spot_site_of(s: Option<PlannedSpot>) -> (r: Option<EnergyDestination>)
    ensures
        r == spot_site(s),
{
    match s {
        Some(PlannedSpot { state: PlannedState::Site { id, progress, progress_total }, .. }) =>
            Some(EnergyDestination::ConstructionSite { id, progress, progress_total }),
        _ => None,
    }
}

/// The built structure at a planned place with room left, if there is one.
fn spot_room_of(s: Option<PlannedSpot>) -> (r: Option<(u64, u32)>)
    ensures
        r == spot_room(s),
{
    match s {
        Some(PlannedSpot { state: PlannedState::Built { id, free, .. }, .. }) => if free > 0 { Some((id, free)) } else { None },
        _ => None,
    }
}

impl SourcePlanView {
    /// The first construction site of the plan: the container's, the link's, the
    /// spawn's, then the extensions' in order.
    pub fn get_construction_site(&self) -> (r: Option<EnergyDestination>)
        requires
            plan_sound(*self),
        ensures
            r == plan_construction_site(*self),
            r matches Some(d) ==> destination_sound(d),
    {
        let c = spot_site_of(self.container);
        if c.is_some() {
            return c;
        }
        let l = spot_site_of(self.link);
        if l.is_some() {
            return l;
        }
        let s = spot_site_of(self.spawn);
        if s.is_some() {
            return s;
        }
        let ghost ext = self.extensions@;
        proof {
            assert(ext.skip(0) =~= ext);
        }
        let mut i: usize = 0;
        while i < self.extensions.len()
            invariant
                i <= ext.len(),
                ext == self.extensions@,
                plan_sound(*self),
                spot_site(self.container) is None,
                spot_site(self.link) is None,
                spot_site(self.spawn) is None,
                first_extension_site(ext) == first_extension_site(ext.skip(i as int)),
            decreases ext.len() - i,
        {
            let e = spot_site_of(Some(self.extensions[i]));
            proof {
                assert(ext.skip(i as int)[0] == ext[i as int]);
                assert(ext.skip(i as int).drop_first() =~= ext.skip(i as int + 1));
                assert(spot_sound(ext[i as int]));
            }
            if e.is_some() {
                proof {
                    let t = ext.skip(i as int);
                    assert(t.len() > 0);
                    assert(spot_site(Some(t[0])) is Some);
                    assert(first_extension_site(t) == spot_site(Some(t[0])));
                }
                return e;
            }
            i = i + 1;
        }
        proof {
            assert(ext.skip(i as int) =~= Seq::<PlannedSpot>::empty());
        }
        None
    }

    /// The first structure of the plan to fill that has room: the spawn, an
    /// extension, then the link.
    pub fn get_fill_target(&self) -> (r: Option<EnergyDestination>)
        ensures
            r == plan_fill_target(*self),
    {
        match spot_room_of(self.spawn) {
            Some((id, free)) => {
                return Some(EnergyDestination::Spawn { id, free });
            },
            None => {},
        }
        let ghost ext = self.extensions@;
        proof {
            assert(ext.skip(0) =~= ext);
        }
        let mut i: usize = 0;
        while i < self.extensions.len()
            invariant
                i <= ext.len(),
                ext == self.extensions@,
                spot_room(self.spawn) is None,
                first_extension_room(ext) == first_extension_room(ext.skip(i as int)),
            decreases ext.len() - i,
        {
            let e = spot_room_of(Some(self.extensions[i]));
            proof {
                assert(ext.skip(i as int)[0] == ext[i as int]);
                assert(ext.skip(i as int).drop_first() =~= ext.skip(i as int + 1));
            }
            match e {
                Some((id, free)) => {
                    proof {
                        let t = ext.skip(i as int);
                        assert(t.len() > 0);
                        assert(first_extension_room(t) == spot_room(Some(t[0])));
                    }
                    return Some(EnergyDestination::Extension { id, free });
                },
                None => {},
            }
            i = i + 1;
        }
        proof {
            assert(ext.skip(i as int) =~= Seq::<PlannedSpot>::empty());
        }
        match spot_room_of(self.link) {
            Some((id, free)) => Some(EnergyDestination::Link { id, free }),
            None => None,
        }
    }

    /// Where the excavator puts its energy: a construction site, else a structure
    /// to fill, else the container if it has room.
    pub fn get_energy_destination(&self) -> (r: Option<EnergyDestination>)
        requires
            plan_sound(*self),
        ensures
            r == plan_energy_destination(*self),
            r matches Some(d) ==> destination_sound(d),
    {
        let s = self.get_construction_site();
        if s.is_some() {
            return s;
        }
        let f = self.get_fill_target();
        if f.is_some() {
            return f;
        }
        match spot_room_of(self.container) {
            Some((id, free)) => Some(EnergyDestination::Container { id, free }),
            None => None,
        }
    }
}

/// The states of an excavator.
#[derive(PartialEq, Eq, Structural, Clone, Copy, Debug)]
pub enum ExcavatorCreep {
    /// Being towed to the source's container.
    Going,
    Mining,
}

/// Why an excavator could not go on.
#[derive(PartialEq, Eq, Structural, Clone, Copy, Debug)]
pub enum ExcavatorError {
    /// The colony has no plan for the source.
    NoPlan,
    /// The source's plan has no container to mine from.
    NoContainer,
    Intent(IntentError),
}

/// The source an excavator mines: its identifier and the energy it holds.
#[derive(PartialEq, Eq, Structural, Clone, Copy, Debug)]
pub struct SourceView {
    pub id: u64,
    pub energy: u32,
}

/// What one round decided: the transition, and where the excavator is to be towed.
#[derive(PartialEq, Eq, Structural, Clone, Copy, Debug)]
pub struct ExcavatorStep {
    pub transition: Transition<ExcavatorCreep>,
    pub tug_to: Option<u32>,
}

/// The step that stays in `s` for this tick.
pub open spec fn done(s: ExcavatorCreep) -> ExcavatorStep {
    ExcavatorStep { transition: Transition::Break(s), tug_to: None }
}

/// The energy the excavator aims to hold: its capacity, less one tick of harvest.
pub open spec fn target_energy(c: VirtualCreep) -> int {
    c.spec_capacity() - 2 * c.spec_work_parts()
}

/// The smaller of two integers.
pub open spec fn min_int(a: int, b: int) -> int {
    if a <= b { a } else { b }
}

/// An excavator below `target` energy withdraws what it lacks from the built
/// container, as far as the container holds and its free capacity goes.
pub open spec fn topping_up(a: VirtualCreep, b: VirtualCreep, p: SourcePlanView, target: int,
    r: Result<ExcavatorStep, ExcavatorError>) -> bool {
    let finished = Ok::<ExcavatorStep, ExcavatorError>(done(ExcavatorCreep::Mining));
    match p.container {
        Some(PlannedSpot { state: PlannedState::Built { id, used, .. }, .. }) => {
            let lack = if target >= next_used_energy(a) { target - next_used_energy(a) } else { 0 };
            let deficit = min_int(min_int(lack, used as int), a.spec_free_capacity() as int);
            if deficit == 0 {
                r == finished && b == a
            } else {
                let amt = transfer_from_amount(a, used, Some(deficit as u32));
                let i = Intent {
                    effect: Some(IntentEffect::Incoming(ENERGY, amt)),
                    action: IntentAction::Withdraw { target: id, resource: ENERGY, amount: amt },
                };
                let res = register_result(a, IntentType::Withdraw, i.effect);
                &&& register_outcome(a, b, IntentType::Withdraw, i, res)
                &&& r == match res {
                    Ok(_) => finished,
                    Err(e) => Err::<ExcavatorStep, ExcavatorError>(ExcavatorError::Intent(e)),
                }
            }
        },
        _ => r == finished && b == a,
    }
}

/// Putting the energy at `d` leads from `t2` to `t3`; a transfer to the container
/// ends the round, else the excavator tops up from `t3` to `t4`.
pub open spec fn receive_steps(t2: VirtualCreep, t3: VirtualCreep, t4: VirtualCreep, d: EnergyDestination,
    p: SourcePlanView, target: int, r: Result<ExcavatorStep, ExcavatorError>) -> bool {
    let res = register_result(t2, receive_type(d), receive_intent(d, t2).effect);
    &&& register_outcome(t2, t3, receive_type(d), receive_intent(d, t2), res)
    &&& match res {
        Err(e) => r == Err::<ExcavatorStep, ExcavatorError>(ExcavatorError::Intent(e)) && t4 == t3,
        Ok(_) => if d is Container {
            r == Ok::<ExcavatorStep, ExcavatorError>(done(ExcavatorCreep::Mining)) && t4 == t3
        } else {
            topping_up(t3, t4, p, target, r)
        },
    }
}

/// One mining round, through the creep states `t1` (after harvesting), `t2`
/// (after taking the harvest back for building), `t3` (after putting energy
/// away) to `t4`: the excavator harvests; where it would then hold more than its
/// target it puts its energy where the plan needs it, taking the harvest back
/// where it builds or has nowhere to put the energy; it then tops up from the
/// container unless it just filled the container.
pub open spec fn mining_steps(t0: VirtualCreep, t1: VirtualCreep, t2: VirtualCreep, t3: VirtualCreep, t4: VirtualCreep,
    source: SourceView, p: SourcePlanView, r: Result<ExcavatorStep, ExcavatorError>) -> bool {
    let h = Intent {
        effect: Some(IntentEffect::Incoming(ENERGY, harvest_amount(t0, source.energy))),
        action: IntentAction::Harvest { source: source.id },
    };
    let hres = register_result(t0, IntentType::Harvest, h.effect);
    let target = target_energy(t0);
    &&& register_outcome(t0, t1, IntentType::Harvest, h, hres)
    &&& match hres {
        Err(e) => r == Err::<ExcavatorStep, ExcavatorError>(ExcavatorError::Intent(e)) && t4 == t1,
        Ok(_) => if next_used_energy(t1) > target {
            match plan_energy_destination(p) {
                None => cancelled(t1, t4, IntentType::Harvest)
                    && r == Ok::<ExcavatorStep, ExcavatorError>(done(ExcavatorCreep::Mining)),
                Some(d) => {
                    &&& (if d is ConstructionSite { cancelled(t1, t2, IntentType::Harvest) } else { t2 == t1 })
                    &&& receive_steps(t2, t3, t4, d, p, target, r)
                },
            }
        } else {
            topping_up(t1, t4, p, target, r)
        },
    }
}

/// A towed excavator starts mining once it stands on the container's place, and
/// asks to be towed there otherwise.
pub open spec fn going_outcome(pos: u32, p: SourcePlanView, r: Result<ExcavatorStep, ExcavatorError>) -> bool {
    match p.container {
        None => r == Err::<ExcavatorStep, ExcavatorError>(ExcavatorError::NoContainer),
        Some(c) => if spec_range(pos, c.pos) == 0 {
            r == Ok::<ExcavatorStep, ExcavatorError>(ExcavatorStep {
                transition: Transition::Continue(ExcavatorCreep::Mining),
                tug_to: None,
            })
        } else {
            r == Ok::<ExcavatorStep, ExcavatorError>(ExcavatorStep {
                transition: Transition::Break(ExcavatorCreep::Going),
                tug_to: Some(c.pos),
            })
        },
    }
}

/// The inputs of a round are consistent: the creep is well formed, a mining
/// excavator can hold a tick of harvest, the positions are valid, and the plan's
/// sites are sound.
pub open spec fn excavator_ready(s: ExcavatorCreep, creep: VirtualCreep, pos: u32, plan: Option<&SourcePlanView>) -> bool {
    &&& creep.wf()
    &&& s is Mining ==> creep.spec_capacity() >= 2 * creep.spec_work_parts()
    &&& packed_valid(pos)
    &&& plan matches Some(p) ==> plan_sound(*p) && (p.container matches Some(c) ==> packed_valid(c.pos))
}

impl ExcavatorCreep {
    /// One round of the excavator's decisions, mining `source` by its plan.
    pub fn update(self, creep: &mut VirtualCreep, pos: u32, source: SourceView, plan: Option<&SourcePlanView>)
        -> (r: Result<ExcavatorStep, ExcavatorError>)
        requires
            excavator_ready(self, *old(creep), pos, plan),
        ensures
            final(creep).wf(),
            match plan {
                None => r == Err::<ExcavatorStep, ExcavatorError>(ExcavatorError::NoPlan) && *final(creep) == *old(creep),
                Some(p) => match self {
                    ExcavatorCreep::Going => going_outcome(pos, *p, r) && *final(creep) == *old(creep),
                    ExcavatorCreep::Mining => exists|t1: VirtualCreep, t2: VirtualCreep, t3: VirtualCreep|
                        #[trigger] mining_steps(*old(creep), t1, t2, t3, *final(creep), source, *p, r),
                },
            },
    {
        let p = match plan {
            None => {
                return Err(ExcavatorError::NoPlan);
            },
            Some(p) => p,
        };
        match self {
            ExcavatorCreep::Going => {
                let c = match p.container {
                    None => {
                        return Err(ExcavatorError::NoContainer);
                    },
                    Some(c) => c,
                };
                if range_between(pos, c.pos) == 0 {
                    Ok(ExcavatorStep { transition: Transition::Continue(ExcavatorCreep::Mining), tug_to: None })
                } else {
                    Ok(ExcavatorStep { transition: Transition::Break(ExcavatorCreep::Going), tug_to: Some(c.pos) })
                }
            },
            ExcavatorCreep::Mining => Self::mine(creep, source, p),
        }
    }

    fn mine(creep: &mut VirtualCreep, source: SourceView, p: &SourcePlanView) -> (r: Result<ExcavatorStep, ExcavatorError>)
        requires
            old(creep).wf(),
            old(creep).spec_capacity() >= 2 * old(creep).spec_work_parts(),
            plan_sound(*p),
        ensures
            final(creep).wf(),
            exists|t1: VirtualCreep, t2: VirtualCreep, t3: VirtualCreep|
                #[trigger] mining_steps(*old(creep), t1, t2, t3, *final(creep), source, *p, r),
    {
        let ghost t0 = *creep;
        match creep.harvest_source(source.id, source.energy) {
            Err(e) => {
                let r = Err(ExcavatorError::Intent(e));
                proof {
                    assert(mining_steps(t0, *creep, *creep, *creep, *creep, source, *p, r));
                }
                return r;
            },
            Ok(_) => {},
        }
        let ghost t1 = *creep;
        let harvest_energy = creep.work_parts() as u32 * 2;
        let target = creep.capacity() - harvest_energy;
        let ghost mut t2 = t1;
        let ghost mut t3 = t1;
        let mut to_container = false;
        if creep.next_used_energy_capacity() > target {
            match p.get_energy_destination() {
                None => {
                    creep.cancel_intent(IntentType::Harvest);
                    let r = Ok(ExcavatorStep { transition: Transition::Break(ExcavatorCreep::Mining), tug_to: None });
                    proof {
                        assert(mining_steps(t0, t1, t1, t1, *creep, source, *p, r));
                    }
                    return r;
                },
                Some(d) => {
                    if !d.can_also_harvest() {
                        creep.cancel_intent(IntentType::Harvest);
                    }
                    proof {
                        t2 = *creep;
                    }
                    to_container = match d {
                        EnergyDestination::Container { .. } => true,
                        _ => false,
                    };
                    match d.recieve(creep) {
                        Err(e) => {
                            let r = Err(ExcavatorError::Intent(e));
                            proof {
                                assert(mining_steps(t0, t1, t2, *creep, *creep, source, *p, r));
                            }
                            return r;
                        },
                        Ok(_) => {},
                    }
                    proof {
                        t3 = *creep;
                    }
                    if to_container {
                        let r = Ok(ExcavatorStep { transition: Transition::Break(ExcavatorCreep::Mining), tug_to: None });
                        proof {
                            assert(mining_steps(t0, t1, t2, t3, *creep, source, *p, r));
                        }
                        return r;
                    }
                },
            }
        }
        let r = Self::top_up(creep, p, target);
        proof {
            assert(mining_steps(t0, t1, t2, t3, *creep, source, *p, r));
        }
        r
    }

    fn top_up(creep: &mut VirtualCreep, p: &SourcePlanView, target: u32) -> (r: Result<ExcavatorStep, ExcavatorError>)
        requires
            old(creep).wf(),
        ensures
            final(creep).wf(),
            topping_up(*old(creep), *final(creep), *p, target as int, r),
    {
        let finished = Ok(ExcavatorStep { transition: Transition::Break(ExcavatorCreep::Mining), tug_to: None });
        match p.container {
            Some(PlannedSpot { state: PlannedState::Built { id, used, .. }, .. }) => {
                let next = creep.next_used_energy_capacity();
                let lack = target.saturating_sub(next);
                let deficit = if lack <= used { lack } else { used };
                let free = creep.curr_free_capacity();
                let deficit = if deficit <= free { deficit } else { free };
                if deficit == 0 {
                    return finished;
                }
                match creep.withdraw(id, used, ENERGY, Some(deficit)) {
                    Ok(_) => finished,
                    Err(e) => Err(ExcavatorError::Intent(e)),
                }
            },
            _ => finished,
        }
    }
}

/// A built structure stands at the place, with room for energy.
pub open spec fn built_with_room(s: PlannedSpot) -> bool {
    s.state matches PlannedState::Built { free, .. } && free > 0
}

/// The first built extension with room, if any, is one with room before which
/// none has room; where there is none, no extension has room.
proof fn lemma_first_extension_room(s: Seq<PlannedSpot>)
    ensures
        first_extension_room(s) is None <==> forall|i: int| 0 <= i < s.len() ==> !built_with_room(#[trigger] s[i]),
        first_extension_room(s) matches Some((id, free)) ==> exists|i: int| 0 <= i < s.len()
            && #[trigger] s[i].state == (PlannedState::Built { id, used: s[i].state->used, free }) && free > 0
            && forall|j: int| 0 <= j < i ==> !built_with_room(#[trigger] s[j]),
    decreases s.len(),
{
    if s.len() > 0 {
        let t = s.drop_first();
        lemma_first_extension_room(t);
        assert forall|i: int| 0 < i < s.len() implies s[i] == t[i - 1] by {}
        if spot_room(Some(s[0])) is None {
            if let Some((id, free)) = first_extension_room(s) {
                let k = choose|k: int| 0 <= k < t.len()
                    && #[trigger] t[k].state == (PlannedState::Built { id, used: t[k].state->used, free }) && free > 0
                    && forall|j: int| 0 <= j < k ==> !built_with_room(#[trigger] t[j]);
                assert(s[k + 1] == t[k]);
                assert forall|j: int| 0 <= j < k + 1 implies !built_with_room(#[trigger] s[j]) by {
                    if j > 0 {
                        assert(s[j] == t[j - 1]);
                    }
                }
            }
            if forall|i: int| 0 <= i < t.len() ==> !built_with_room(#[trigger] t[i]) {
                assert forall|i: int| 0 <= i < s.len() implies !built_with_room(#[trigger] s[i]) by {
                    if i > 0 {
                        assert(s[i] == t[i - 1]);
                    }
                }
            }
            if forall|i: int| 0 <= i < s.len() ==> !built_with_room(#[trigger] s[i]) {
                assert forall|i: int| 0 <= i < t.len() implies !built_with_room(#[trigger] t[i]) by {
                    assert(t[i] == s[i + 1]);
                }
            }
        } else {
            assert(built_with_room(s[0]));
        }
    }
}

/// The first construction site among the extensions is a construction site.
proof fn lemma_first_extension_site(s: Seq<PlannedSpot>)
    ensures
        first_extension_site(s) matches Some(d) ==> d is ConstructionSite,
    decreases s.len(),
{
    if s.len() > 0 {
        lemma_first_extension_site(s.drop_first());
    }
}

/// Law: the structure an excavator fills is one with room: the spawn where it has
/// room, else the first extension with room, else the link where it has room;
/// there is none exactly when none of them has room. So where the spawn and the
/// extensions are full and the link has room, the link is filled; and where the
/// plan has no construction site, the container is used only when nothing can be
/// filled.
pub proof fn law_fill_target_has_room(p: SourcePlanView)
    ensures
        plan_fill_target(p) is None <==> (
            (p.spawn matches Some(s) ==> !built_with_room(s))
            && (forall|i: int| 0 <= i < p.extensions@.len() ==> !built_with_room(#[trigger] p.extensions@[i]))
            && (p.link matches Some(l) ==> !built_with_room(l))),
        plan_fill_target(p) matches Some(EnergyDestination::Spawn { id, free }) ==>
            p.spawn matches Some(s) && s.state == (PlannedState::Built { id, used: s.state->used, free }) && free > 0,
        plan_fill_target(p) matches Some(EnergyDestination::Extension { id, free }) ==>
            (p.spawn matches Some(s) ==> !built_with_room(s))
            && exists|i: int| 0 <= i < p.extensions@.len()
                && #[trigger] p.extensions@[i].state == (PlannedState::Built { id, used: p.extensions@[i].state->used, free }) && free > 0
                && forall|j: int| 0 <= j < i ==> !built_with_room(#[trigger] p.extensions@[j]),
        (p.spawn matches Some(s) ==> !built_with_room(s))
            && (forall|i: int| 0 <= i < p.extensions@.len() ==> !built_with_room(#[trigger] p.extensions@[i]))
            ==> (p.link matches Some(l) ==> (built_with_room(l)
                ==> plan_fill_target(p) == Some(EnergyDestination::Link { id: l.state->Built_id, free: l.state->Built_free }))),
        plan_fill_target(p) matches Some(EnergyDestination::Link { id, free }) ==>
            (p.spawn matches Some(s) ==> !built_with_room(s))
            && (forall|i: int| 0 <= i < p.extensions@.len() ==> !built_with_room(#[trigger] p.extensions@[i]))
            && (p.link matches Some(l) && l.state == (PlannedState::Built { id, used: l.state->used, free }) && free > 0),
        plan_fill_target(p) matches Some(d) ==> !(d is ConstructionSite) && !(d is Container),
        plan_construction_site(p) is None && plan_fill_target(p) is Some ==> plan_energy_destination(p) == plan_fill_target(p),
        plan_energy_destination(p) matches Some(EnergyDestination::Container { .. }) ==> plan_fill_target(p) is None,
{
    lemma_first_extension_room(p.extensions@);
    lemma_first_extension_site(p.extensions@);
}

} // verus!
