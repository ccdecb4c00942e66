//! The coordinator of a colony's fabricators: the structures to repair, the
//! construction sites to build and the controller to upgrade, each a pool of work
//! from which fabricators reserve amounts, and the choice of a task for a fabricator.
use vstd::prelude::*;
use crate::check::{Expiration, Expiring};
use crate::coordination::allocations::{Allocation, AllocationHandle, Allocations, ResourceAmount, ResourceState};
use crate::coordination::expiring_map::TIMEOUT;
use crate::coordination::tasks::{Tasks, UpdateableTaskData, task_views, spec_set_tasks, lemma_task_views};
use crate::position::{packed_valid, spec_range, range_between};
use crate::virtual_creep::VirtualCreep;

verus! {

/// Structures are repaired once at most this healthy, in percent.
pub const REPAIR_PERCENT: u32 = 75;
/// Structures at most this healthy, in percent, are repaired first, the least
/// healthy first.
pub const EMERGENCY_REPAIR_PERCENT: u32 = 50;
/// Once this much of the controller's downgrade timer has run out, in percent,
/// upgrading comes before everything else.
pub const CONTROLLER_DOWNGRADE_EMERGENCY_PERCENT: u32 = 50;
/// The controller is upgraded only while the storage is at least this full, in
/// percent.
pub const STORAGE_UPGRADE_CONTROLLER_PERCENT: u32 = 10;
/// The ticks of work that a fabricator reserves at most.
pub const MAX_TASK_TICKS: u32 = 100;
/// The ticks a fabricator is guessed to need to reach its task.
pub const GUESSED_CREEP_MOVE_TO_TASK_TICKS: u32 = 50;

/// Hits repaired per work part and action, `screeps::REPAIR_POWER`, which the
/// crate defines as 100.
#[verifier::external_body]
fn repair_power() -> (r: u32)
    ensures
        r == 100,
{
    screeps::REPAIR_POWER
}

/// Construction progress per work part and action, `screeps::BUILD_POWER`, which
/// the crate defines as 5.
#[verifier::external_body]
fn build_power() -> (r: u32)
    ensures
        r == 5,
{
    screeps::BUILD_POWER
}

/// Control points per work part and action, `screeps::UPGRADE_CONTROLLER_POWER`,
/// which the crate defines as 1.
#[verifier::external_body]
fn upgrade_controller_power() -> (r: u32)
    ensures
        r == 1,
{
    screeps::UPGRADE_CONTROLLER_POWER
}

/// The most control points a level 8 controller takes per tick,
/// `screeps::CONTROLLER_MAX_UPGRADE_PER_TICK`, which the crate defines as 15.
#[verifier::external_body]
fn controller_max_upgrade_per_tick() -> (r: u32)
    ensures
        r == 15,
{
    screeps::CONTROLLER_MAX_UPGRADE_PER_TICK
}

/// The downgrade timer of a controller at each level, as the game defines it.
pub open spec fn spec_controller_downgrade(level: u8) -> Option<u32> {
    match level {
        1 => Some(20_000u32),
        2 => Some(10_000u32),
        3 => Some(20_000u32),
        4 => Some(40_000u32),
        5 => Some(80_000u32),
        6 => Some(120_000u32),
        7 => Some(150_000u32),
        8 => Some(200_000u32),
        _ => None,
    }
}

/// The full downgrade timer of a controller at `level`, by
/// `screeps::controller_downgrade`, whose source is the table above.
#[verifier::external_body]
fn controller_downgrade(level: u8) -> (r: Option<u32>)
    ensures
        r == spec_controller_downgrade(level),
{
    screeps::controller_downgrade(level)
}

/// A structure that may need repair: where it is, and its hits.
#[derive(PartialEq, Eq, Structural, Clone, Copy, Debug)]
pub struct RepairSite {
    pub pos: u32,
    pub hits: u32,
    pub hits_max: u32,
}

/// A construction site: where it is, and its progress.
#[derive(PartialEq, Eq, Structural, Clone, Copy, Debug)]
pub struct BuildSite {
    pub pos: u32,
    pub progress: u32,
    pub progress_total: u32,
}

impl UpdateableTaskData for RepairSite {
    type Update = RepairSite;
    type View = RepairSite;

    open spec fn task_view(&self) -> RepairSite {
        *self
    }

    open spec fn task_wf(&self) -> bool {
        true
    }

    open spec fn spec_create(update: RepairSite) -> RepairSite {
        update
    }

    open spec fn spec_update(v: RepairSite, update: RepairSite) -> RepairSite {
        update
    }

    /// The site is the update.
    fn create(update: RepairSite) -> (r: Self) {
        update
    }

    /// The update overwrites the site.
    fn update(&mut self, update: RepairSite) {
        *self = update;
    }
}

impl UpdateableTaskData for BuildSite {
    type Update = BuildSite;
    type View = BuildSite;

    open spec fn task_view(&self) -> BuildSite {
        *self
    }

    open spec fn task_wf(&self) -> bool {
        true
    }

    open spec fn spec_create(update: BuildSite) -> BuildSite {
        update
    }

    open spec fn spec_update(v: BuildSite, update: BuildSite) -> BuildSite {
        update
    }

    /// The site is the update.
    fn create(update: BuildSite) -> (r: Self) {
        update
    }

    /// The update overwrites the site.
    fn update(&mut self, update: BuildSite) {
        *self = update;
    }
}

/// A fabricator's reservation runs out this many ticks after it was made.
pub type TaskExpiration = Expiration<MAX_TASK_TICKS>;

/// The abstract value of a pool of work: the reservations by owner, and the
/// amount and total reserved.
pub type PoolView = (Map<u64, Expiring<Allocation<TaskExpiration>, TIMEOUT>>, ResourceState);

/// A structure in the room that can be repaired, as the room shows it this tick.
#[derive(PartialEq, Eq, Structural, Clone, Copy, Debug)]
pub struct RepairableView {
    pub id: u64,
    pub pos: u32,
    pub hits: u32,
    pub hits_max: u32,
}

/// One of the colony's construction sites, as the room shows it this tick.
#[derive(PartialEq, Eq, Structural, Clone, Copy, Debug)]
pub struct ConstructionSiteView {
    pub id: u64,
    pub pos: u32,
    pub progress: u32,
    pub progress_total: u32,
}

/// The repair task of a structure: its site, and its missing hits as the work.
pub open spec fn repair_update(r: RepairableView) -> (u64, (RepairSite, ResourceAmount)) {
    (r.id, (RepairSite { pos: r.pos, hits: r.hits, hits_max: r.hits_max }, ResourceAmount((r.hits_max - r.hits) as u32)))
}

/// The build task of a construction site: its site, and its missing progress as
/// the work.
pub open spec fn build_update(s: ConstructionSiteView) -> (u64, (BuildSite, ResourceAmount)) {
    (s.id, (BuildSite { pos: s.pos, progress: s.progress, progress_total: s.progress_total }, ResourceAmount((s.progress_total - s.progress) as u32)))
}

/// The repair tasks of the structures, in order.
pub open spec fn repair_updates(s: Seq<RepairableView>) -> Seq<(u64, (RepairSite, ResourceAmount))> {
    s.map_values(|r: RepairableView| repair_update(r))
}

/// The build tasks of the construction sites, in order.
pub open spec fn build_updates(s: Seq<ConstructionSiteView>) -> Seq<(u64, (BuildSite, ResourceAmount))> {
    s.map_values(|c: ConstructionSiteView| build_update(c))
}

/// The upgrade work per tick: what a level 8 controller takes, else unbounded.
pub open spec fn upgrade_amount(controller_level: Option<u8>) -> u32 {
    if controller_level == Some(8u8) { 15 } else { u32::MAX }
}

/// A task of a fabricator's on a structure.
#[derive(PartialEq, Eq, Structural, Clone, Copy, Debug)]
pub enum StructureTask {
    Building(u64),
    Repairing(u64),
}

/// A task of a fabricator's.
#[derive(PartialEq, Eq, Structural, Clone, Copy, Debug)]
pub enum FabricatorTask {
    Structure(StructureTask),
    Upgrading,
}

/// The colony's controller, as the room shows it this tick.
#[derive(PartialEq, Eq, Structural, Clone, Copy, Debug)]
pub struct ControllerView {
    pub id: u64,
    pub pos: u32,
    pub level: u8,
    pub ticks_to_downgrade: Option<u32>,
}

/// The energy in the colony's storage and its energy capacity.
#[derive(PartialEq, Eq, Structural, Clone, Copy, Debug)]
pub struct StorageFill {
    pub used: u32,
    pub capacity: u32,
}

/// Half or more of the controller's downgrade timer has run out: the ticks gone
/// are at least half the full timer of its level. Without a timer, or at a level
/// without one, it is not.
pub open spec fn downgrade_emergency(c: ControllerView) -> bool {
    match (c.ticks_to_downgrade, spec_controller_downgrade(c.level)) {
        (Some(left), Some(total)) => 100 * (total - left) >= CONTROLLER_DOWNGRADE_EMERGENCY_PERCENT * total,
        _ => false,
    }
}

/// The ticks left on the controller's timer are no more than the full timer.
pub open spec fn downgrade_in_range(c: ControllerView) -> bool {
    match (c.ticks_to_downgrade, spec_controller_downgrade(c.level)) {
        (Some(left), Some(total)) => left <= total,
        _ => true,
    }
}

/// The storage allows upgrading: there is none, or it is at least a tenth full
/// (an empty store without capacity is not; a full one without capacity is).
pub open spec fn storage_allows_upgrade(s: Option<StorageFill>) -> bool {
    match s {
        None => true,
        Some(f) => if f.capacity == 0 { f.used > 0 } else { 100 * f.used >= STORAGE_UPGRADE_CONTROLLER_PERCENT * f.capacity },
    }
}

/// What `assign_task` does with `a`, giving `r` and leaving `b`, for a fabricator
/// `owner` at `pos` with `ticks_to_live` ticks and `work` work parts: an emergency
/// upgrade, else a repair, else a build, else an upgrade while the storage allows,
/// else nothing.
pub open spec fn assign_outcome(a: FabricatorCoordinator, b: FabricatorCoordinator, r: Option<FabricatorTask>,
    owner: u64, pos: u32, ticks_to_live: u32, work: u8, controller: ControllerView, storage: Option<StorageFill>,
    now: u32) -> bool {
    let capacity = work_capacity(ticks_to_live, work);
    if unreserved(a.upgrade.state) > 0 && downgrade_emergency(controller) {
        &&& r == Some(FabricatorTask::Upgrading)
        &&& b.repairs == a.repairs
        &&& b.builds == a.builds
        &&& b.upgrade_view() == allocated(a.upgrade_view(), owner, work as u32, now)
    } else if repair_available(a) {
        r matches Some(FabricatorTask::Structure(StructureTask::Repairing(k)))
            && repair_choice(a, b, k, owner, pos, (capacity * 100) as u32, now)
    } else if build_available(a) {
        r matches Some(FabricatorTask::Structure(StructureTask::Building(k)))
            && build_choice(a, b, k, owner, pos, (capacity * 5) as u32, now)
    } else if unreserved(a.upgrade.state) > 0 && storage_allows_upgrade(storage) {
        &&& r == Some(FabricatorTask::Upgrading)
        &&& b.repairs == a.repairs
        &&& b.builds == a.builds
        &&& b.upgrade_view() == allocated(a.upgrade_view(), owner, work as u32, now)
    } else {
        r is None && b == a
    }
}

/// The pool after `owner` refreshed its reservation at tick `now`, if it has one.
pub open spec fn refreshed(v: PoolView, owner: u64, now: u32) -> PoolView {
    if v.0.contains_key(owner) {
        (v.0.insert(owner, Expiring::<Allocation<TaskExpiration>, TIMEOUT>::new_spec(v.0[owner].inner, now)), v.1)
    } else {
        v
    }
}

/// `a` less `b`, or 0 where `b` is larger.
pub open spec fn sat_sub_u32(a: u32, b: u32) -> u32 {
    if a >= b { (a - b) as u32 } else { 0 }
}

/// The pool after `owner` used `amount` of its reservation: the amount leaves the
/// pool, the total reserved and the reservation, each going no lower than 0.
pub open spec fn consumed(v: PoolView, owner: u64, amount: u32) -> PoolView {
    (
        v.0.insert(owner, Expiring {
            inner: Allocation { amount: sat_sub_u32(v.0[owner].inner.amount, amount), data: v.0[owner].inner.data },
            expiration: v.0[owner].expiration,
        }),
        ResourceState { amount: sat_sub_u32(v.1.amount, amount), reserved: sat_sub_u32(v.1.reserved, amount) },
    )
}

/// The pool after `owner`'s reservation ended.
pub open spec fn released(v: PoolView, owner: u64) -> PoolView {
    (v.0.remove(owner), ResourceState { amount: v.1.amount, reserved: (v.1.reserved - own_amount(v, owner)) as u32 })
}

/// The pool that a task draws on, if the coordinator has it.
pub open spec fn task_pool(c: FabricatorCoordinator, task: FabricatorTask) -> Option<PoolView> {
    match task {
        FabricatorTask::Structure(StructureTask::Repairing(k)) =>
            if c.repair_views().contains_key(k) { Some(c.repair_views()[k].1) } else { None },
        FabricatorTask::Structure(StructureTask::Building(k)) =>
            if c.build_views().contains_key(k) { Some(c.build_views()[k].1) } else { None },
        FabricatorTask::Upgrading => Some(c.upgrade_view()),
    }
}

/// `b` is `a` with the pool of `task` changed by `f`, and nothing else changed.
pub open spec fn pool_changed(a: FabricatorCoordinator, b: FabricatorCoordinator, task: FabricatorTask,
    f: spec_fn(PoolView) -> PoolView) -> bool {
    match task {
        FabricatorTask::Structure(StructureTask::Repairing(k)) => {
            &&& b.builds == a.builds
            &&& b.upgrade == a.upgrade
            &&& b.repair_views() == if a.repair_views().contains_key(k) {
                a.repair_views().insert(k, (a.repair_views()[k].0, f(a.repair_views()[k].1)))
            } else {
                a.repair_views()
            }
        },
        FabricatorTask::Structure(StructureTask::Building(k)) => {
            &&& b.repairs == a.repairs
            &&& b.upgrade == a.upgrade
            &&& b.build_views() == if a.build_views().contains_key(k) {
                a.build_views().insert(k, (a.build_views()[k].0, f(a.build_views()[k].1)))
            } else {
                a.build_views()
            }
        },
        FabricatorTask::Upgrading => {
            &&& b.repairs == a.repairs
            &&& b.builds == a.builds
            &&& b.upgrade_view() == f(a.upgrade_view())
        },
    }
}

/// `owner` holds a reservation on the pool of `task`.
pub open spec fn holds_reservation(c: FabricatorCoordinator, task: FabricatorTask, owner: u64) -> bool {
    task_pool(c, task) matches Some(v) && v.0.contains_key(owner)
}

/// The colony's fabricator tasks.
pub struct FabricatorCoordinator {
    pub repairs: Tasks<(RepairSite, Allocations<TaskExpiration>)>,
    pub builds: Tasks<(BuildSite, Allocations<TaskExpiration>)>,
    pub upgrade: Allocations<TaskExpiration>,
}

/// The work of a pool that no reservation covers.
pub open spec fn unreserved(s: ResourceState) -> u32 {
    if s.amount >= s.reserved { (s.amount - s.reserved) as u32 } else { 0 }
}

/// What `owner` has reserved from a pool.
pub open spec fn own_amount(v: PoolView, owner: u64) -> u32 {
    if v.0.contains_key(owner) { v.0[owner].inner.amount } else { 0 }
}

/// `owner` can reserve `amount` without the total reserved overflowing.
pub open spec fn can_allocate(v: PoolView, owner: u64, amount: u32) -> bool {
    v.1.reserved >= own_amount(v, owner) && v.1.reserved - own_amount(v, owner) + amount <= u32::MAX
}

/// The pool after `owner` reserved `amount` at tick `now`, in place of what it had.
pub open spec fn allocated(v: PoolView, owner: u64, amount: u32, now: u32) -> PoolView {
    (
        v.0.insert(owner, Expiring::<Allocation<TaskExpiration>, TIMEOUT>::new_spec(
            Allocation { amount, data: Expiration::<MAX_TASK_TICKS>::new_spec(now) }, now)),
        ResourceState { amount: v.1.amount, reserved: (v.1.reserved - own_amount(v, owner) + amount) as u32 },
    )
}

/// At most `percent` percent of the structure's hits are left.
pub open spec fn health_at_most(s: RepairSite, percent: u32) -> bool {
    s.hits_max > 0 && 100 * s.hits <= percent * s.hits_max
}

/// `a` has no larger a share of its hits left than `b`.
pub open spec fn health_le(a: RepairSite, b: RepairSite) -> bool {
    a.hits * b.hits_max <= b.hits * a.hits_max
}

/// A repair task that has unreserved work and is at most `percent` percent healthy.
pub open spec fn repair_candidate(v: (RepairSite, PoolView), percent: u32) -> bool {
    unreserved(v.1.1) > 0 && health_at_most(v.0, percent)
}

/// The ticks of work a fabricator with `ticks_to_live` ticks left is counted on
/// for: what is left after reaching the task, at most `MAX_TASK_TICKS`, times its
/// work parts.
pub open spec fn work_capacity(ticks_to_live: u32, work_parts: u8) -> u32 {
    let left = if ticks_to_live >= 50 { ticks_to_live - 50 } else { 0 };
    ((if left <= 100 { left } else { 100 }) * work_parts) as u32
}

/// Some repair task is an emergency: at most half healthy, with unreserved work.
pub open spec fn emergency_repair_available(c: FabricatorCoordinator) -> bool {
    exists|k: u64| #[trigger] c.repair_views().contains_key(k) && repair_candidate(c.repair_views()[k], 50)
}

/// Some repair task is due: at most three quarters healthy, with unreserved work.
pub open spec fn repair_available(c: FabricatorCoordinator) -> bool {
    exists|k: u64| #[trigger] c.repair_views().contains_key(k) && repair_candidate(c.repair_views()[k], 75)
}

/// Some build task has unreserved work.
pub open spec fn build_available(c: FabricatorCoordinator) -> bool {
    exists|k: u64| #[trigger] c.build_views().contains_key(k) && unreserved(c.build_views()[k].1.1) > 0
}

/// `k` is the repair task that `assign_repair` picks for a fabricator at `pos`:
/// the least healthy emergency, else the nearest due repair; and `b` is `a` with
/// the fabricator's reservation of `amount` on it.
pub open spec fn repair_choice(a: FabricatorCoordinator, b: FabricatorCoordinator, k: u64, owner: u64, pos: u32,
    amount: u32, now: u32) -> bool {
    let v = a.repair_views();
    &&& v.contains_key(k)
    &&& emergency_repair_available(a) ==> {
        &&& repair_candidate(v[k], 50)
        &&& forall|j: u64| #[trigger] v.contains_key(j) && repair_candidate(v[j], 50) ==> health_le(v[k].0, v[j].0)
    }
    &&& !emergency_repair_available(a) ==> {
        &&& repair_candidate(v[k], 75)
        &&& forall|j: u64| #[trigger] v.contains_key(j) && repair_candidate(v[j], 75)
            ==> spec_range(pos, v[k].0.pos) <= spec_range(pos, v[j].0.pos)
    }
    &&& b.builds == a.builds
    &&& b.upgrade == a.upgrade
    &&& b.repair_views() == v.insert(k, (v[k].0, allocated(v[k].1, owner, amount, now)))
}

/// `k` is the build task that `assign_build` picks for a fabricator at `pos`: the
/// nearest with unreserved work; and `b` is `a` with the fabricator's reservation
/// of `amount` on it.
pub open spec fn build_choice(a: FabricatorCoordinator, b: FabricatorCoordinator, k: u64, owner: u64, pos: u32,
    amount: u32, now: u32) -> bool {
    let v = a.build_views();
    &&& v.contains_key(k)
    &&& unreserved(v[k].1.1) > 0
    &&& forall|j: u64| #[trigger] v.contains_key(j) && unreserved(v[j].1.1) > 0
        ==> spec_range(pos, v[k].0.pos) <= spec_range(pos, v[j].0.pos)
    &&& b.repairs == a.repairs
    &&& b.upgrade == a.upgrade
    &&& b.build_views() == v.insert(k, (v[k].0, allocated(v[k].1, owner, amount, now)))
}

/// Every task is at a valid position, and `owner` can reserve the amounts it
/// would on each: `repair` on a repair task, `build` on a build task, `upgrade`
/// on the upgrade pool.
pub open spec fn tasks_open_to(c: FabricatorCoordinator, owner: u64, repair: u32, build: u32, upgrade: u32) -> bool {
    &&& forall|k: u64| #[trigger] c.repair_views().contains_key(k)
        ==> packed_valid(c.repair_views()[k].0.pos) && can_allocate(c.repair_views()[k].1, owner, repair)
    &&& forall|k: u64| #[trigger] c.build_views().contains_key(k)
        ==> packed_valid(c.build_views()[k].0.pos) && can_allocate(c.build_views()[k].1, owner, build)
    &&& can_allocate(c.upgrade_view(), owner, upgrade)
}

/// Shares of hits compare transitively.
proof fn lemma_health_le_trans(a: RepairSite, b: RepairSite, c: RepairSite)
    requires
        a.hits_max > 0,
        b.hits_max > 0,
        c.hits_max > 0,
        health_le(a, b),
        health_le(b, c),
    ensures
        health_le(a, c),
{
    let (ah, am, bh, bm, ch, cm) = (a.hits as int, a.hits_max as int, b.hits as int, b.hits_max as int,
        c.hits as int, c.hits_max as int);
    assert(ah * cm <= ch * am) by (nonlinear_arith)
        requires
            am > 0, bm > 0, cm > 0, ah >= 0, bh >= 0, ch >= 0,
            ah * bm <= bh * am,
            bh * cm <= ch * bm,
    {
        assert(ah * bm * cm <= bh * am * cm);
        assert(bh * cm * am <= ch * bm * am);
        assert(ah * cm * bm <= ch * am * bm);
    }
}

/// The product of two `u32`s, widened so that it cannot overflow.
fn wide_mul(a: u32, b: u32) -> (r: u64)
    ensures
        r == a * b,
{
    assert(a * b <= u32::MAX * u32::MAX) by (nonlinear_arith)
        requires a <= u32::MAX, b <= u32::MAX;
    (a as u64) * (b as u64)
}

/// The estimated work of a fabricator with `ticks_to_live` ticks left.
pub fn estimated_work_capacity(creep: &VirtualCreep, ticks_to_live: u32) -> (c: u32)
    ensures
        c == work_capacity(ticks_to_live, creep.spec_work_parts()),
        c <= 100 * 255,
{
    let left = ticks_to_live.saturating_sub(GUESSED_CREEP_MOVE_TO_TASK_TICKS);
    let left = if left <= MAX_TASK_TICKS { left } else { MAX_TASK_TICKS };
    let work = creep.work_parts() as u32;
    assert(left * work <= 100 * 255) by (nonlinear_arith)
        requires left <= 100, work <= 255;
    left * work
}

impl FabricatorCoordinator {
    /// The task maps and the upgrade pool are well formed.
    pub open spec fn wf(&self) -> bool {
        self.repairs.wf() && self.builds.wf() && self.upgrade.wf()
    }

    /// The repair tasks, by their abstract values.
    pub open spec fn repair_views(&self) -> Map<u64, (RepairSite, PoolView)> {
        task_views(self.repairs@)
    }

    /// The build tasks, by their abstract values.
    pub open spec fn build_views(&self) -> Map<u64, (BuildSite, PoolView)> {
        task_views(self.builds@)
    }

    /// The upgrade pool, by its abstract value.
    pub open spec fn upgrade_view(&self) -> PoolView {
        (self.upgrade@, self.upgrade.state)
    }

    /// No tasks, and an empty upgrade pool.
    pub fn new() -> (c: Self)
        ensures
            c.wf(),
            c.repair_views() == Map::<u64, (RepairSite, PoolView)>::empty(),
            c.build_views() == Map::<u64, (BuildSite, PoolView)>::empty(),
            c.upgrade_view() == (Map::<u64, Expiring<Allocation<TaskExpiration>, TIMEOUT>>::empty(),
                ResourceState { amount: 0, reserved: 0 }),
    {
        let c = FabricatorCoordinator { repairs: Tasks::new(), builds: Tasks::new(), upgrade: Allocations::new(0) };
        proof {
            assert(c.repair_views() =~= Map::<u64, (RepairSite, PoolView)>::empty());
            assert(c.build_views() =~= Map::<u64, (BuildSite, PoolView)>::empty());
        }
        c
    }

    /// Refreshes the tasks from the room of this tick: one repair task per
    /// structure, for its missing hits; one build task per construction site, for
    /// its missing progress; and the upgrade work, 15 per tick for a level 8
    /// controller and unbounded otherwise. Tasks that persist keep their
    /// reservations.
    pub fn update(&mut self, repairables: &Vec<RepairableView>, sites: &Vec<ConstructionSiteView>, controller_level: Option<u8>)
        requires
            old(self).wf(),
            forall|i: int| 0 <= i < repairables@.len() ==> #[trigger] repairables@[i].hits <= repairables@[i].hits_max,
            forall|i: int| 0 <= i < sites@.len() ==> #[trigger] sites@[i].progress <= sites@[i].progress_total,
        ensures
            final(self).wf(),
            final(self).repair_views() == spec_set_tasks::<(RepairSite, Allocations<TaskExpiration>)>(
                old(self).repair_views(), repair_updates(repairables@)),
            final(self).build_views() == spec_set_tasks::<(BuildSite, Allocations<TaskExpiration>)>(
                old(self).build_views(), build_updates(sites@)),
            final(self).upgrade@ == old(self).upgrade@,
            final(self).upgrade.state == (ResourceState { amount: upgrade_amount(controller_level), reserved: old(self).upgrade.state.reserved }),
    {
        let mut repair_tasks: Vec<(u64, (RepairSite, ResourceAmount))> = Vec::new();
        let mut i: usize = 0;
        while i < repairables.len()
            invariant
                i <= repairables@.len(),
                forall|j: int| 0 <= j < repairables@.len() ==> #[trigger] repairables@[j].hits <= repairables@[j].hits_max,
                repair_tasks@ == repair_updates(repairables@.take(i as int)),
            decreases repairables@.len() - i,
        {
            let r = repairables[i];
            repair_tasks.push((r.id, (RepairSite { pos: r.pos, hits: r.hits, hits_max: r.hits_max }, ResourceAmount(r.hits_max - r.hits))));
            proof {
                assert(repairables@.take(i as int + 1) =~= repairables@.take(i as int).push(r));
                assert(repair_tasks@ =~= repair_updates(repairables@.take(i as int + 1)));
            }
            i = i + 1;
        }
        proof {
            assert(repairables@.take(i as int) =~= repairables@);
        }
        let mut build_tasks: Vec<(u64, (BuildSite, ResourceAmount))> = Vec::new();
        let mut j: usize = 0;
        while j < sites.len()
            invariant
                j <= sites@.len(),
                forall|k: int| 0 <= k < sites@.len() ==> #[trigger] sites@[k].progress <= sites@[k].progress_total,
                build_tasks@ == build_updates(sites@.take(j as int)),
            decreases sites@.len() - j,
        {
            let s = sites[j];
            build_tasks.push((s.id, (BuildSite { pos: s.pos, progress: s.progress, progress_total: s.progress_total }, ResourceAmount(s.progress_total - s.progress))));
            proof {
                assert(sites@.take(j as int + 1) =~= sites@.take(j as int).push(s));
                assert(build_tasks@ =~= build_updates(sites@.take(j as int + 1)));
            }
            j = j + 1;
        }
        proof {
            assert(sites@.take(j as int) =~= sites@);
        }
        self.repairs.set_tasks(repair_tasks);
        self.builds.set_tasks(build_tasks);
        let amount = match controller_level {
            Some(8u8) => controller_max_upgrade_per_tick(),
            _ => u32::MAX,
        };
        self.upgrade.set_amount(amount);
    }

    /// Reserves `amount` of the repair task `k` for `owner`.
    fn allocate_repair(&mut self, k: u64, owner: u64, amount: u32, now: u32)
        requires
            old(self).wf(),
            old(self).repair_views().contains_key(k),
            can_allocate(old(self).repair_views()[k].1, owner, amount),
            now as int + TIMEOUT + 1 <= u32::MAX,
        ensures
            final(self).wf(),
            final(self).builds == old(self).builds,
            final(self).upgrade == old(self).upgrade,
            final(self).repair_views() == old(self).repair_views().insert(k,
                (old(self).repair_views()[k].0, allocated(old(self).repair_views()[k].1, owner, amount, now))),
    {
        proof {
            lemma_task_views(self.repairs@);
            self.repairs.lemma_wf();
        }
        let mut d = self.repairs.take(k).unwrap();
        d.1.allocate(owner, amount, Expiration::new_at(now), now);
        let ghost dv = d;
        self.repairs.put_back(k, d);
        proof {
            assert(self.repair_views() =~= old(self).repair_views().insert(k, dv.task_view()));
        }
    }

    /// Reserves `amount` of the build task `k` for `owner`.
    fn allocate_build(&mut self, k: u64, owner: u64, amount: u32, now: u32)
        requires
            old(self).wf(),
            old(self).build_views().contains_key(k),
            can_allocate(old(self).build_views()[k].1, owner, amount),
            now as int + TIMEOUT + 1 <= u32::MAX,
        ensures
            final(self).wf(),
            final(self).repairs == old(self).repairs,
            final(self).upgrade == old(self).upgrade,
            final(self).build_views() == old(self).build_views().insert(k,
                (old(self).build_views()[k].0, allocated(old(self).build_views()[k].1, owner, amount, now))),
    {
        proof {
            lemma_task_views(self.builds@);
            self.builds.lemma_wf();
        }
        let mut d = self.builds.take(k).unwrap();
        d.1.allocate(owner, amount, Expiration::new_at(now), now);
        let ghost dv = d;
        self.builds.put_back(k, d);
        proof {
            assert(self.build_views() =~= old(self).build_views().insert(k, dv.task_view()));
        }
    }

    /// The least healthy repair task at most `percent` percent healthy and with
    /// unreserved work, the first such in order, if there is one.
    fn least_healthy_repair(&self, percent: u32) -> (r: Option<u64>)
        requires
            self.wf(),
        ensures
            r is None <==> !exists|k: u64| #[trigger] self.repair_views().contains_key(k)
                && repair_candidate(self.repair_views()[k], percent),
            r matches Some(k) ==> {
                let v = self.repair_views();
                &&& v.contains_key(k)
                &&& repair_candidate(v[k], percent)
                &&& forall|j: u64| #[trigger] v.contains_key(j) && repair_candidate(v[j], percent) ==> health_le(v[k].0, v[j].0)
            },
    {
        proof {
            self.repairs.lemma_wf();
            lemma_task_views(self.repairs@);
        }
        let mut best: Option<(usize, RepairSite)> = None;
        let mut i: usize = 0;
        while i < self.repairs.len()
            invariant
                self.wf(),
                i <= self.repairs.entries().len(),
                best is None ==> forall|j: int| 0 <= j < i ==> !repair_candidate(
                    #[trigger] self.repairs.entries()[j].1.task_view(), percent),
                best matches Some(b) ==> {
                    &&& b.0 < i
                    &&& repair_candidate(self.repairs.entries()[b.0 as int].1.task_view(), percent)
                    &&& b.1 == self.repairs.entries()[b.0 as int].1.0
                    &&& forall|j: int| 0 <= j < i && repair_candidate(#[trigger] self.repairs.entries()[j].1.task_view(), percent)
                        ==> health_le(b.1, self.repairs.entries()[j].1.0)
                },
            decreases self.repairs.entries().len() - i,
        {
            let (k, d) = self.repairs.entry_at(i);
            let site = d.0;
            let candidate = d.1.unreserved_amount() > 0 && site.hits_max > 0
                && wide_mul(100, site.hits) <= wide_mul(percent, site.hits_max);
            if candidate {
                let better = match best {
                    None => true,
                    Some((_, b)) => wide_mul(site.hits, b.hits_max) < wide_mul(b.hits, site.hits_max),
                };
                if better {
                    proof {
                        if let Some(bb) = best {
                            assert forall|j: int| 0 <= j < i && repair_candidate(#[trigger] self.repairs.entries()[j].1.task_view(), percent)
                                implies health_le(site, self.repairs.entries()[j].1.0) by {
                                lemma_health_le_trans(site, bb.1, self.repairs.entries()[j].1.0);
                            }
                        }
                    }
                    best = Some((i, site));
                }
            }
            i = i + 1;
        }
        proof {
            self.repairs.lemma_wf();
            lemma_task_views(self.repairs@);
        }
        match best {
            None => {
                proof {
                    assert forall|k: u64| #[trigger] self.repair_views().contains_key(k)
                        implies !repair_candidate(self.repair_views()[k], percent) by {
                        assert(self.repairs@.contains_key(k));
                        let j = choose|j: int| 0 <= j < self.repairs.entries().len() && self.repairs.entries()[j].0 == k;
                        assert(!repair_candidate(self.repairs.entries()[j].1.task_view(), percent));
                    }
                }
                None
            },
            Some((bi, _)) => {
                let k = self.repairs.entry_at(bi).0;
                proof {
                    let v = self.repair_views();
                    assert(v.contains_key(k));
                    assert forall|j: u64| #[trigger] v.contains_key(j) && repair_candidate(v[j], percent)
                        implies health_le(v[k].0, v[j].0) by {
                        assert(self.repairs@.contains_key(j));
                        let a = choose|a: int| 0 <= a < self.repairs.entries().len() && self.repairs.entries()[a].0 == j;
                        assert(repair_candidate(self.repairs.entries()[a].1.task_view(), percent));
                    }
                }
                Some(k)
            },
        }
    }

    /// The nearest repair task to `pos` at most `percent` percent healthy and with
    /// unreserved work, the first such in order, if there is one.
    fn nearest_repair(&self, pos: u32, percent: u32) -> (r: Option<u64>)
        requires
            self.wf(),
            packed_valid(pos),
            forall|k: u64| #[trigger] self.repair_views().contains_key(k) ==> packed_valid(self.repair_views()[k].0.pos),
        ensures
            r is None <==> !exists|k: u64| #[trigger] self.repair_views().contains_key(k)
                && repair_candidate(self.repair_views()[k], percent),
            r matches Some(k) ==> {
                let v = self.repair_views();
                &&& v.contains_key(k)
                &&& repair_candidate(v[k], percent)
                &&& forall|j: u64| #[trigger] v.contains_key(j) && repair_candidate(v[j], percent)
                    ==> spec_range(pos, v[k].0.pos) <= spec_range(pos, v[j].0.pos)
            },
    {
        proof {
            self.repairs.lemma_wf();
            lemma_task_views(self.repairs@);
        }
        let mut best: Option<(usize, u32)> = None;
        let mut i: usize = 0;
        while i < self.repairs.len()
            invariant
                self.wf(),
                packed_valid(pos),
                forall|k: u64| #[trigger] self.repair_views().contains_key(k) ==> packed_valid(self.repair_views()[k].0.pos),
                i <= self.repairs.entries().len(),
                best is None ==> forall|j: int| 0 <= j < i ==> !repair_candidate(
                    #[trigger] self.repairs.entries()[j].1.task_view(), percent),
                best matches Some(b) ==> {
                    &&& b.0 < i
                    &&& repair_candidate(self.repairs.entries()[b.0 as int].1.task_view(), percent)
                    &&& b.1 == spec_range(pos, self.repairs.entries()[b.0 as int].1.0.pos)
                    &&& forall|j: int| 0 <= j < i && repair_candidate(#[trigger] self.repairs.entries()[j].1.task_view(), percent)
                        ==> b.1 <= spec_range(pos, self.repairs.entries()[j].1.0.pos)
                },
            decreases self.repairs.entries().len() - i,
        {
            let (k, d) = self.repairs.entry_at(i);
            proof {
                self.repairs.lemma_wf();
                lemma_task_views(self.repairs@);
                assert(self.repairs@.contains_key(k));
                assert(self.repair_views().contains_key(k));
            }
            let site = d.0;
            let candidate = d.1.unreserved_amount() > 0 && site.hits_max > 0
                && wide_mul(100, site.hits) <= wide_mul(percent, site.hits_max);
            if candidate {
                let range = range_between(pos, site.pos);
                let better = match best {
                    None => true,
                    Some((_, br)) => range < br,
                };
                if better {
                    best = Some((i, range));
                }
            }
            i = i + 1;
        }
        proof {
            self.repairs.lemma_wf();
            lemma_task_views(self.repairs@);
        }
        match best {
            None => {
                proof {
                    assert forall|k: u64| #[trigger] self.repair_views().contains_key(k)
                        implies !repair_candidate(self.repair_views()[k], percent) by {
                        assert(self.repairs@.contains_key(k));
                        let j = choose|j: int| 0 <= j < self.repairs.entries().len() && self.repairs.entries()[j].0 == k;
                        assert(!repair_candidate(self.repairs.entries()[j].1.task_view(), percent));
                    }
                }
                None
            },
            Some((bi, _)) => {
                let k = self.repairs.entry_at(bi).0;
                proof {
                    let v = self.repair_views();
                    assert(v.contains_key(k));
                    assert forall|j: u64| #[trigger] v.contains_key(j) && repair_candidate(v[j], percent)
                        implies spec_range(pos, v[k].0.pos) <= spec_range(pos, v[j].0.pos) by {
                        assert(self.repairs@.contains_key(j));
                        let a = choose|a: int| 0 <= a < self.repairs.entries().len() && self.repairs.entries()[a].0 == j;
                        assert(repair_candidate(self.repairs.entries()[a].1.task_view(), percent));
                    }
                }
                Some(k)
            },
        }
    }

    /// Hands `owner` at `pos` a repair task, reserving `amount` of it: the least
    /// healthy of the tasks at most half healthy, else the nearest of those at
    /// most three quarters healthy, each with unreserved work.
    fn assign_repair(&mut self, owner: u64, pos: u32, amount: u32, now: u32) -> (r: Option<u64>)
        requires
            old(self).wf(),
            packed_valid(pos),
            forall|k: u64| #[trigger] old(self).repair_views().contains_key(k)
                ==> packed_valid(old(self).repair_views()[k].0.pos) && can_allocate(old(self).repair_views()[k].1, owner, amount),
            now as int + TIMEOUT + 1 <= u32::MAX,
        ensures
            final(self).wf(),
            r is None <==> !repair_available(*old(self)),
            r is None ==> *final(self) == *old(self),
            r matches Some(k) ==> repair_choice(*old(self), *final(self), k, owner, pos, amount, now),
    {
        let emergency = self.least_healthy_repair(EMERGENCY_REPAIR_PERCENT);
        let k = match emergency {
            Some(k) => k,
            None => match self.nearest_repair(pos, REPAIR_PERCENT) {
                Some(k) => k,
                None => {
                    return None;
                },
            },
        };
        proof {
            if emergency is Some {
                let v = self.repair_views();
                assert(repair_candidate(v[k], 75));
            }
        }
        self.allocate_repair(k, owner, amount, now);
        Some(k)
    }

    /// Hands `owner` at `pos` the nearest build task with unreserved work,
    /// reserving `amount` of it.
    fn assign_build(&mut self, owner: u64, pos: u32, amount: u32, now: u32) -> (r: Option<u64>)
        requires
            old(self).wf(),
            packed_valid(pos),
            forall|k: u64| #[trigger] old(self).build_views().contains_key(k)
                ==> packed_valid(old(self).build_views()[k].0.pos) && can_allocate(old(self).build_views()[k].1, owner, amount),
            now as int + TIMEOUT + 1 <= u32::MAX,
        ensures
            final(self).wf(),
            r is None <==> !build_available(*old(self)),
            r is None ==> *final(self) == *old(self),
            r matches Some(k) ==> build_choice(*old(self), *final(self), k, owner, pos, amount, now),
    {
        proof {
            self.builds.lemma_wf();
            lemma_task_views(self.builds@);
        }
        let mut best: Option<(usize, u32)> = None;
        let mut i: usize = 0;
        while i < self.builds.len()
            invariant
                self.wf(),
                packed_valid(pos),
                forall|k: u64| #[trigger] self.build_views().contains_key(k) ==> packed_valid(self.build_views()[k].0.pos),
                i <= self.builds.entries().len(),
                best is None ==> forall|j: int| 0 <= j < i ==> !(unreserved(
                    (#[trigger] self.builds.entries()[j]).1.1.state) > 0),
                best matches Some(b) ==> {
                    &&& b.0 < i
                    &&& unreserved(self.builds.entries()[b.0 as int].1.1.state) > 0
                    &&& b.1 == spec_range(pos, self.builds.entries()[b.0 as int].1.0.pos)
                    &&& forall|j: int| 0 <= j < i && unreserved((#[trigger] self.builds.entries()[j]).1.1.state) > 0
                        ==> b.1 <= spec_range(pos, self.builds.entries()[j].1.0.pos)
                },
            decreases self.builds.entries().len() - i,
        {
            let (k, d) = self.builds.entry_at(i);
            proof {
                self.builds.lemma_wf();
                lemma_task_views(self.builds@);
                assert(self.builds@.contains_key(k));
                assert(self.build_views().contains_key(k));
            }
            if d.1.unreserved_amount() > 0 {
                let range = range_between(pos, d.0.pos);
                let better = match best {
                    None => true,
                    Some((_, br)) => range < br,
                };
                if better {
                    best = Some((i, range));
                }
            }
            i = i + 1;
        }
        proof {
            self.builds.lemma_wf();
            lemma_task_views(self.builds@);
        }
        match best {
            None => {
                proof {
                    assert forall|k: u64| #[trigger] self.build_views().contains_key(k)
                        implies !(unreserved(self.build_views()[k].1.1) > 0) by {
                        assert(self.builds@.contains_key(k));
                        let j = choose|j: int| 0 <= j < self.builds.entries().len() && self.builds.entries()[j].0 == k;
                        assert(!(unreserved(self.builds.entries()[j].1.1.state) > 0));
                    }
                }
                None
            },
            Some((bi, _)) => {
                let k = self.builds.entry_at(bi).0;
                proof {
                    let v = self.build_views();
                    assert(v.contains_key(k));
                    assert forall|j: u64| #[trigger] v.contains_key(j) && unreserved(v[j].1.1) > 0
                        implies spec_range(pos, v[k].0.pos) <= spec_range(pos, v[j].0.pos) by {
                        assert(self.builds@.contains_key(j));
                        let a = choose|a: int| 0 <= a < self.builds.entries().len() && self.builds.entries()[a].0 == j;
                        assert(unreserved(self.builds.entries()[a].1.1.state) > 0);
                    }
                }
                self.allocate_build(k, owner, amount, now);
                Some(k)
            },
        }
    }

    /// Whether half or more of the controller's downgrade timer has run out.
    fn downgrade_is_emergency(controller: &ControllerView) -> (b: bool)
        requires
            downgrade_in_range(*controller),
        ensures
            b == downgrade_emergency(*controller),
    {
        match controller.ticks_to_downgrade {
            None => false,
            Some(left) => match controller_downgrade(controller.level) {
                None => false,
                Some(total) => wide_mul(100, total - left) >= wide_mul(CONTROLLER_DOWNGRADE_EMERGENCY_PERCENT, total),
            },
        }
    }

    /// Whether the storage allows upgrading.
    fn storage_allows(storage: Option<StorageFill>) -> (b: bool)
        ensures
            b == storage_allows_upgrade(storage),
    {
        match storage {
            None => true,
            Some(f) => if f.capacity == 0 {
                f.used > 0
            } else {
                wide_mul(100, f.used) >= wide_mul(STORAGE_UPGRADE_CONTROLLER_PERCENT, f.capacity)
            },
        }
    }

    /// Reserves `amount` of the upgrade work for `owner`.
    fn allocate_upgrade(&mut self, owner: u64, amount: u32, now: u32)
        requires
            old(self).wf(),
            can_allocate(old(self).upgrade_view(), owner, amount),
            now as int + TIMEOUT + 1 <= u32::MAX,
        ensures
            final(self).wf(),
            final(self).repairs == old(self).repairs,
            final(self).builds == old(self).builds,
            final(self).upgrade_view() == allocated(old(self).upgrade_view(), owner, amount, now),
    {
        self.upgrade.allocate(owner, amount, Expiration::new_at(now), now);
    }

    /// Hands a fabricator a task, reserving work on it: an upgrade where the
    /// controller is at risk of downgrading, else the least healthy structure at
    /// most half healthy, else the nearest at most three quarters healthy, else the
    /// nearest construction site, else an upgrade while the storage (if any) is at
    /// least a tenth full. A fabricator reserves its work parts on the controller,
    /// and on a structure or site the work it can do before its reservation runs
    /// out times the repair or build power.
    pub fn assign_task(&mut self, creep: &VirtualCreep, owner: u64, pos: u32, ticks_to_live: u32,
        controller: &ControllerView, storage: Option<StorageFill>, now: u32) -> (r: Option<FabricatorTask>)
        requires
            old(self).wf(),
            packed_valid(pos),
            downgrade_in_range(*controller),
            tasks_open_to(*old(self), owner,
                (work_capacity(ticks_to_live, creep.spec_work_parts()) * 100) as u32,
                (work_capacity(ticks_to_live, creep.spec_work_parts()) * 5) as u32,
                creep.spec_work_parts() as u32),
            now as int + TIMEOUT + 1 <= u32::MAX,
        ensures
            final(self).wf(),
            assign_outcome(*old(self), *final(self), r, owner, pos, ticks_to_live, creep.spec_work_parts(),
                *controller, storage, now),
    {
        let work = creep.work_parts() as u32;
        let capacity = estimated_work_capacity(creep, ticks_to_live);
        if self.upgrade.unreserved_amount() > 0 && Self::downgrade_is_emergency(controller) {
            self.allocate_upgrade(owner, work * upgrade_controller_power(), now);
            return Some(FabricatorTask::Upgrading);
        }
        match self.assign_repair(owner, pos, capacity * repair_power(), now) {
            Some(k) => {
                return Some(FabricatorTask::Structure(StructureTask::Repairing(k)));
            },
            None => {},
        }
        match self.assign_build(owner, pos, capacity * build_power(), now) {
            Some(k) => {
                return Some(FabricatorTask::Structure(StructureTask::Building(k)));
            },
            None => {},
        }
        if self.upgrade.unreserved_amount() > 0 && Self::storage_allows(storage) {
            self.allocate_upgrade(owner, work, now);
            return Some(FabricatorTask::Upgrading);
        }
        None
    }

    /// Refreshes the reservation of `owner` on the task at tick `now`; gives its
    /// handle where the task is open and the owner holds a reservation on it.
    pub fn refresh(&mut self, owner: u64, task: FabricatorTask, now: u32) -> (h: Option<AllocationHandle>)
        requires
            old(self).wf(),
            now as int + TIMEOUT + 1 <= u32::MAX,
        ensures
            final(self).wf(),
            h is Some <==> holds_reservation(*old(self), task, owner),
            h matches Some(x) ==> x.owner == owner,
            pool_changed(*old(self), *final(self), task, |v: PoolView| refreshed(v, owner, now)),
    {
        match task {
            FabricatorTask::Structure(StructureTask::Repairing(k)) => {
                proof {
                    lemma_task_views(self.repairs@);
                    self.repairs.lemma_wf();
                }
                match self.repairs.take(k) {
                    None => {
                        proof {
                            assert(self.repairs@ =~= old(self).repairs@);
                        }
                        None
                    },
                    Some(mut d) => {
                        let h = d.1.refresh(owner, now);
                        let ghost dv = d;
                        self.repairs.put_back(k, d);
                        proof {
                            assert(self.repair_views() =~= old(self).repair_views().insert(k, dv.task_view()));
                        }
                        h
                    },
                }
            },
            FabricatorTask::Structure(StructureTask::Building(k)) => {
                proof {
                    lemma_task_views(self.builds@);
                    self.builds.lemma_wf();
                }
                match self.builds.take(k) {
                    None => {
                        proof {
                            assert(self.builds@ =~= old(self).builds@);
                        }
                        None
                    },
                    Some(mut d) => {
                        let h = d.1.refresh(owner, now);
                        let ghost dv = d;
                        self.builds.put_back(k, d);
                        proof {
                            assert(self.build_views() =~= old(self).build_views().insert(k, dv.task_view()));
                        }
                        h
                    },
                }
            },
            FabricatorTask::Upgrading => self.upgrade.refresh(owner, now),
        }
    }

    /// The amount that the owner of `handle` has reserved on the task (0 where it
    /// has none, or the task is not open).
    pub fn reserved(&self, task: FabricatorTask, handle: &AllocationHandle) -> (r: u32)
        requires
            self.wf(),
        ensures
            r == match task_pool(*self, task) {
                Some(v) => own_amount(v, handle.owner),
                None => 0,
            },
    {
        match task {
            FabricatorTask::Structure(StructureTask::Repairing(k)) => {
                proof {
                    lemma_task_views(self.repairs@);
                    self.repairs.lemma_wf();
                }
                match self.repairs.get(k) {
                    None => 0,
                    Some(d) => d.1.reserved(handle),
                }
            },
            FabricatorTask::Structure(StructureTask::Building(k)) => {
                proof {
                    lemma_task_views(self.builds@);
                    self.builds.lemma_wf();
                }
                match self.builds.get(k) {
                    None => 0,
                    Some(d) => d.1.reserved(handle),
                }
            },
            FabricatorTask::Upgrading => self.upgrade.reserved(handle),
        }
    }

    /// Records that the owner of `handle` used `amount` of its reservation on the
    /// task.
    pub fn consume(&mut self, task: FabricatorTask, handle: &AllocationHandle, amount: u32)
        requires
            old(self).wf(),
            holds_reservation(*old(self), task, handle.owner),
        ensures
            final(self).wf(),
            pool_changed(*old(self), *final(self), task, |v: PoolView| consumed(v, handle.owner, amount)),
    {
        match task {
            FabricatorTask::Structure(StructureTask::Repairing(k)) => {
                proof {
                    lemma_task_views(self.repairs@);
                    self.repairs.lemma_wf();
                }
                let mut d = self.repairs.take(k).unwrap();
                d.1.consume(handle, amount);
                let ghost dv = d;
                self.repairs.put_back(k, d);
                proof {
                    assert(self.repair_views() =~= old(self).repair_views().insert(k, dv.task_view()));
                }
            },
            FabricatorTask::Structure(StructureTask::Building(k)) => {
                proof {
                    lemma_task_views(self.builds@);
                    self.builds.lemma_wf();
                }
                let mut d = self.builds.take(k).unwrap();
                d.1.consume(handle, amount);
                let ghost dv = d;
                self.builds.put_back(k, d);
                proof {
                    assert(self.build_views() =~= old(self).build_views().insert(k, dv.task_view()));
                }
            },
            FabricatorTask::Upgrading => {
                self.upgrade.consume(handle, amount);
            },
        }
    }

    /// Ends the reservation of the owner of `handle` on the task.
    pub fn release(&mut self, task: FabricatorTask, handle: AllocationHandle)
        requires
            old(self).wf(),
            holds_reservation(*old(self), task, handle.owner),
            task_pool(*old(self), task) matches Some(v) && v.1.reserved >= own_amount(v, handle.owner),
        ensures
            final(self).wf(),
            pool_changed(*old(self), *final(self), task, |v: PoolView| released(v, handle.owner)),
    {
        match task {
            FabricatorTask::Structure(StructureTask::Repairing(k)) => {
                proof {
                    lemma_task_views(self.repairs@);
                    self.repairs.lemma_wf();
                }
                let mut d = self.repairs.take(k).unwrap();
                d.1.release(handle);
                let ghost dv = d;
                self.repairs.put_back(k, d);
                proof {
                    assert(self.repair_views() =~= old(self).repair_views().insert(k, dv.task_view()));
                }
            },
            FabricatorTask::Structure(StructureTask::Building(k)) => {
                proof {
                    lemma_task_views(self.builds@);
                    self.builds.lemma_wf();
                }
                let mut d = self.builds.take(k).unwrap();
                d.1.release(handle);
                let ghost dv = d;
                self.builds.put_back(k, d);
                proof {
                    assert(self.build_views() =~= old(self).build_views().insert(k, dv.task_view()));
                }
            },
            FabricatorTask::Upgrading => {
                self.upgrade.release(handle);
            },
        }
    }
}

} // verus!
