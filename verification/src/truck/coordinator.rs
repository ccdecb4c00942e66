//! The coordinator of a colony's trucks: the open providing and consuming tasks,
//! refreshed each tick, and the choice of a task for a truck.
use vstd::prelude::*;
use crate::check::Expiring;
use crate::coordination::collaboration::{Collaboration, CollaborativeWorkerHandle, RemainingWork, TaskState, WorkerState};
use crate::coordination::expiring_map::TIMEOUT;
use crate::coordination::tasks::{Tasks, UpdateableTaskData, task_views, spec_set_tasks, lemma_task_views};
use crate::keyed::KeyedMap;
use crate::position::{packed_valid, spec_range, range_between};
use crate::truck::builders::{sat_sub, ConsumerStop, ConsumerTaskPriority, ConsumerTasksBuilder, ConsumerTasksGroupConfig,
    ProviderStop, ProviderTaskData, ProviderTasksBuilder, ProviderTasksGroupConfig, consumer_tasks, provider_tasks};
use crate::virtual_creep::VirtualCreep;

verus! {

/// Unlinked source containers are emptied once this much energy waits in them.
pub const SOURCE_CONTAINER_PUSH_AMOUNT: u32 = 500;
/// The energy a terminal keeps when it provides.
pub const TERMINAL_MIN_LEAVE: u32 = 10_000;
/// The energy a terminal is filled up to.
pub const TERMINAL_MAX_FILL: u32 = 2_000;
/// Towers take part while at most this full, in percent.
pub const TOWER_FULLNESS_THRESHOLD: u32 = 80;
/// Creeps take part while at most this full, in percent.
pub const CREEP_FULLNESS_THRESHOLD: u32 = 35;
/// The terminal takes part while at most this full, in percent of its fill limit.
pub const TERMINAL_FULLNESS_THRESHOLD: u32 = 50;

/// The abstract value of a task's workers and state.
pub type CollabView = (Map<u64, Expiring<WorkerState<()>, TIMEOUT>>, TaskState);

/// The work that no worker has taken on.
pub open spec fn unassigned(t: TaskState) -> u32 {
    if t.remaining_work >= t.pending_work { (t.remaining_work - t.pending_work) as u32 } else { 0 }
}

/// The work that `owner` has taken on.
pub open spec fn own_work(v: CollabView, owner: u64) -> u32 {
    if v.0.contains_key(owner) { v.0[owner].inner.pending_work } else { 0 }
}

/// `owner` can take on `work` without the total overflowing.
pub open spec fn can_join(v: CollabView, owner: u64, work: u32) -> bool {
    v.1.pending_work >= own_work(v, owner) && v.1.pending_work - own_work(v, owner) + work <= u32::MAX
}

/// The task after `owner` took on `work` at tick `now`.
pub open spec fn joined(v: CollabView, owner: u64, work: u32, now: u32) -> CollabView {
    (
        v.0.insert(owner, Expiring::<WorkerState<()>, TIMEOUT>::new_spec(WorkerState { pending_work: work, data: () }, now)),
        TaskState {
            remaining_work: v.1.remaining_work,
            pending_work: (v.1.pending_work - own_work(v, owner) + work) as u32,
        },
    )
}

/// `a` ranks no higher than `b`, comparing first by priority, then by nearness.
pub open spec fn priority_range_le(pa: u32, ra: int, pb: u32, rb: int) -> bool {
    pa < pb || (pa == pb && ra >= rb)
}

/// A provider to which a truck may be pushed: it has a push amount, and at least
/// that much work is unassigned.
pub open spec fn push_eligible(v: (ProviderTaskData, CollabView)) -> bool {
    match v.0.push_amount {
        Some(p) => unassigned(v.1.1) >= p,
        None => false,
    }
}

/// The smaller of two amounts.
pub open spec fn min_u32(a: u32, b: u32) -> u32 {
    if a <= b { a } else { b }
}

/// `a` ranks no higher than `b` as a provider for a truck with `free` capacity:
/// by the work it can take of the task, then by priority, then by nearness.
pub open spec fn provider_le(a: (ProviderTaskData, CollabView), ra: int, b: (ProviderTaskData, CollabView), rb: int, free: u32) -> bool {
    let wa = min_u32(unassigned(a.1.1), free);
    let wb = min_u32(unassigned(b.1.1), free);
    wa < wb || (wa == wb && priority_range_le(a.0.priority, ra, b.0.priority, rb))
}

/// `a` ranks no higher than `b` as a consumer: by priority, then by unassigned
/// work, then by nearness.
pub open spec fn consumer_le(a: (u32, CollabView), ra: int, b: (u32, CollabView), rb: int) -> bool {
    a.0 < b.0 || (a.0 == b.0 && (unassigned(a.1.1) < unassigned(b.1.1)
        || (unassigned(a.1.1) == unassigned(b.1.1) && ra >= rb)))
}

/// A stop where there is one, else none.
pub open spec fn opt_seq<T>(o: Option<T>) -> Seq<T> {
    match o { Some(x) => seq![x], None => Seq::empty() }
}

/// The providing groups of a tick, most urgent first: dropped resources, creeps,
/// tombstones, ruins, the center link, unlinked source containers and the terminal.
pub open spec fn provider_groups(
    dropped: Seq<ProviderStop>,
    creeps: Seq<ProviderStop>,
    tombstones: Seq<ProviderStop>,
    ruins: Seq<ProviderStop>,
    center_link: Option<ProviderStop>,
    source_containers: Seq<ProviderStop>,
    terminal: Option<ProviderStop>,
) -> Seq<(Seq<ProviderStop>, ProviderTasksGroupConfig)> {
    let none = ProviderTasksGroupConfig { push_amount: None, min_leave: None };
    let push = ProviderTasksGroupConfig { push_amount: Some(0), min_leave: None };
    seq![
        (dropped, push),
        (creeps, push),
        (tombstones, none),
        (ruins, none),
        (opt_seq(center_link), push),
        (source_containers, ProviderTasksGroupConfig { push_amount: Some(SOURCE_CONTAINER_PUSH_AMOUNT), min_leave: None }),
        (opt_seq(terminal), ProviderTasksGroupConfig { push_amount: None, min_leave: Some(TERMINAL_MIN_LEAVE) }),
    ]
}

/// The consuming groups of a tick, most urgent first: the center spawn, the center
/// extensions, towers, creeps and the terminal.
pub open spec fn consumer_groups(
    center_spawn: Option<ConsumerStop>,
    center_extensions: Seq<ConsumerStop>,
    towers: Seq<ConsumerStop>,
    creeps: Seq<ConsumerStop>,
    terminal: Option<ConsumerStop>,
) -> Seq<(Seq<ConsumerStop>, ConsumerTasksGroupConfig)> {
    let none = ConsumerTasksGroupConfig { max_fill: None, fullness_threshold: None };
    seq![
        (opt_seq(center_spawn), none),
        (center_extensions, none),
        (towers, ConsumerTasksGroupConfig { max_fill: None, fullness_threshold: Some(TOWER_FULLNESS_THRESHOLD) }),
        (creeps, ConsumerTasksGroupConfig { max_fill: None, fullness_threshold: Some(CREEP_FULLNESS_THRESHOLD) }),
        (opt_seq(terminal), ConsumerTasksGroupConfig {
            max_fill: Some(TERMINAL_MAX_FILL),
            fullness_threshold: Some(TERMINAL_FULLNESS_THRESHOLD),
        }),
    ]
}

fn opt_vec<T>(o: Option<T>) -> (v: Vec<T>)
    ensures
        v@ == opt_seq(o),
{
    let mut v = Vec::new();
    match o {
        Some(x) => {
            v.push(x);
            proof {
                assert(v@ =~= seq![x]);
            }
        },
        None => {
            proof {
                assert(v@ =~= Seq::<T>::empty());
            }
        },
    }
    v
}

/// What a source offers to the choice of containers: whether its link is built,
/// and its container, if one is planned.
#[derive(PartialEq, Eq, Structural, Clone, Copy, Debug)]
pub struct SourceLinkState {
    pub link_exists: bool,
    pub container: Option<u64>,
}

/// The containers whose energy trucks must fetch: those of the sources where the
/// center link or the source's own link is missing.
pub open spec fn spec_unlinked_containers(center_link_exists: bool, sources: Seq<SourceLinkState>) -> Seq<u64>
    decreases sources.len(),
{
    if sources.len() == 0 {
        Seq::empty()
    } else {
        let s = sources.last();
        spec_unlinked_containers(center_link_exists, sources.drop_last()) + if !center_link_exists || !s.link_exists {
            opt_seq(s.container)
        } else {
            Seq::empty()
        }
    }
}

/// The containers of the sources that no link connects to the center, in order.
pub fn unlinked_source_containers(center_link_exists: bool, sources: &Vec<SourceLinkState>) -> (r: Vec<u64>)
    ensures
        r@ == spec_unlinked_containers(center_link_exists, sources@),
{
    let mut r: Vec<u64> = Vec::new();
    let mut i: usize = 0;
    while i < sources.len()
        invariant
            i <= sources@.len(),
            r@ == spec_unlinked_containers(center_link_exists, sources@.take(i as int)),
        decreases sources@.len() - i,
    {
        let s = sources[i];
        proof {
            assert(sources@.take(i as int + 1).drop_last() =~= sources@.take(i as int));
            assert(sources@.take(i as int + 1).last() == s);
        }
        if !center_link_exists || !s.link_exists {
            match s.container {
                Some(c) => {
                    r.push(c);
                    proof {
                        assert(r@ =~= spec_unlinked_containers(center_link_exists, sources@.take(i as int + 1)));
                    }
                },
                None => {
                    proof {
                        assert(r@ =~= spec_unlinked_containers(center_link_exists, sources@.take(i as int + 1)));
                    }
                },
            }
        } else {
            proof {
                assert(r@ =~= spec_unlinked_containers(center_link_exists, sources@.take(i as int + 1)));
            }
        }
        i = i + 1;
    }
    proof {
        assert(sources@.take(i as int) =~= sources@);
    }
    r
}

/// The capacity a truck will have free next tick: what it takes on.
pub open spec fn next_free(truck: VirtualCreep) -> u32 {
    (truck.spec_free_capacity() + truck.spec_total_outgoing()) as u32
}

/// The task after a heartbeat of `owner` at tick `now`.
pub open spec fn heartbeat_view(v: CollabView, owner: u64, now: u32) -> CollabView {
    if v.0.contains_key(owner) {
        (v.0.insert(owner, Expiring::<WorkerState<()>, TIMEOUT>::new_spec(v.0[owner].inner, now)), v.1)
    } else {
        v
    }
}

/// The abstract value of a providing task's entry.
pub open spec fn provider_entry_view(e: (u64, (ProviderTaskData, Collaboration<()>))) -> (ProviderTaskData, CollabView) {
    e.1.task_view()
}

/// The abstract value of a consuming task's entry.
pub open spec fn consumer_entry_view(e: (u64, (ConsumerTaskPriority, Collaboration<()>))) -> (u32, CollabView) {
    e.1.task_view()
}

/// `owner` can join the task with `work`, and leave it.
pub open spec fn ready(v: CollabView, owner: u64, work: u32) -> bool {
    can_join(v, owner, work) && can_leave(v, owner)
}

/// The task after its worker `owner` did `amount` of work.
pub open spec fn worked_view(v: CollabView, owner: u64, amount: u32) -> CollabView {
    (
        v.0.insert(owner, Expiring {
            inner: WorkerState { pending_work: sat_sub(v.0[owner].inner.pending_work, amount), data: () },
            expiration: v.0[owner].expiration,
        }),
        TaskState {
            remaining_work: sat_sub(v.1.remaining_work, amount),
            pending_work: sat_sub(v.1.pending_work, amount),
        },
    )
}

/// `owner` can leave the task without the work taken on overflowing.
pub open spec fn can_leave(v: CollabView, owner: u64) -> bool {
    v.1.pending_work + own_work(v, owner) <= u32::MAX
}

/// The task after its worker `owner` left: its pending work is added to the work
/// taken on.
pub open spec fn left_view(v: CollabView, owner: u64) -> CollabView {
    (
        v.0.remove(owner),
        TaskState { remaining_work: v.1.remaining_work, pending_work: (v.1.pending_work + own_work(v, owner)) as u32 },
    )
}

/// A task of a truck: collecting from a provider, or bringing to a consumer.
#[derive(PartialEq, Eq, Structural, Clone, Copy, Debug)]
pub enum TruckTask {
    CollectingFrom(u64),
    ProvidingTo(u64),
}

/// `k` is the providing task that `assign_push_provider` picks for a truck at
/// `pos` taking on `work` at `now`, and `b` is `a` with the truck added to it.
pub open spec fn push_choice(a: TruckCoordinator, b: TruckCoordinator, k: u64, owner: u64, pos: u32,
    positions: Map<u64, u32>, work: u32, now: u32) -> bool {
    let v = a.provider_views();
    &&& v.contains_key(k)
    &&& push_eligible(v[k])
    &&& forall|j: u64| #[trigger] v.contains_key(j) && push_eligible(v[j]) ==> priority_range_le(
        v[j].0.priority, spec_range(positions[j], pos), v[k].0.priority, spec_range(positions[k], pos))
    &&& b.consumers == a.consumers
    &&& b.provider_views() == v.insert(k, (v[k].0, joined(v[k].1, owner, work, now)))
}

/// `k` is the providing task that `assign_provider` picks, and `b` is `a` with
/// the truck added to it.
pub open spec fn provider_choice(a: TruckCoordinator, b: TruckCoordinator, k: u64, owner: u64, pos: u32,
    positions: Map<u64, u32>, work: u32, now: u32) -> bool {
    let v = a.provider_views();
    &&& v.contains_key(k)
    &&& forall|j: u64| #[trigger] v.contains_key(j) ==> provider_le(
        v[j], spec_range(positions[j], pos), v[k], spec_range(positions[k], pos), work)
    &&& b.consumers == a.consumers
    &&& b.provider_views() == v.insert(k, (v[k].0, joined(v[k].1, owner, work, now)))
}

/// `k` is the consuming task that `assign_consumer` picks, and `b` is `a` with
/// the truck added to it.
pub open spec fn consumer_choice(a: TruckCoordinator, b: TruckCoordinator, k: u64, owner: u64, pos: u32,
    positions: Map<u64, u32>, work: u32, now: u32) -> bool {
    let v = a.consumer_views();
    &&& v.contains_key(k)
    &&& forall|j: u64| #[trigger] v.contains_key(j) ==> consumer_le(
        v[j], spec_range(positions[j], pos), v[k], spec_range(positions[k], pos))
    &&& b.providers == a.providers
    &&& b.consumer_views() == v.insert(k, (v[k].0, joined(v[k].1, owner, work, now)))
}

/// Some providing task has a push amount and at least that much unassigned work.
pub open spec fn push_available(c: TruckCoordinator) -> bool {
    exists|k: u64| #[trigger] c.provider_views().contains_key(k) && push_eligible(c.provider_views()[k])
}

/// The open tasks of a colony's trucks.
pub struct TruckCoordinator {
    pub providers: Tasks<(ProviderTaskData, Collaboration<()>)>,
    pub consumers: Tasks<(ConsumerTaskPriority, Collaboration<()>)>,
}

/// The stops that positions are known for, each at a valid position.
pub open spec fn positions_known<TD>(tasks: Map<u64, TD>, positions: Map<u64, u32>) -> bool {
    forall|k: u64| #[trigger] tasks.contains_key(k) ==> positions.contains_key(k) && packed_valid(positions[k])
}

impl TruckCoordinator {
    /// Both task maps are well formed.
    pub open spec fn wf(&self) -> bool {
        self.providers.wf() && self.consumers.wf()
    }

    /// The providing tasks, by their abstract values.
    pub open spec fn provider_views(&self) -> Map<u64, (ProviderTaskData, CollabView)> {
        task_views(self.providers@)
    }

    /// The consuming tasks, by their abstract values.
    pub open spec fn consumer_views(&self) -> Map<u64, (u32, CollabView)> {
        task_views(self.consumers@)
    }

    /// No tasks.
    pub fn new() -> (c: Self)
        ensures
            c.wf(),
            c.providers@ == Map::<u64, (ProviderTaskData, Collaboration<()>)>::empty(),
            c.consumers@ == Map::<u64, (ConsumerTaskPriority, Collaboration<()>)>::empty(),
    {
        TruckCoordinator { providers: Tasks::new(), consumers: Tasks::new() }
    }

    /// Refreshes the providing tasks from the stops of this tick, group by group.
    pub fn update_providers(
        &mut self,
        dropped: Vec<ProviderStop>,
        creeps: Vec<ProviderStop>,
        tombstones: Vec<ProviderStop>,
        ruins: Vec<ProviderStop>,
        center_link: Option<ProviderStop>,
        source_containers: Vec<ProviderStop>,
        terminal: Option<ProviderStop>,
    )
        requires
            old(self).wf(),
        ensures
            final(self).wf(),
            final(self).consumers == old(self).consumers,
            final(self).provider_views() == spec_set_tasks::<(ProviderTaskData, Collaboration<()>)>(
                old(self).provider_views(),
                provider_tasks(
                    provider_groups(dropped@, creeps@, tombstones@, ruins@, center_link, source_containers@, terminal),
                    7,
                ),
            ),
    {
        let ghost groups = provider_groups(dropped@, creeps@, tombstones@, ruins@, center_link, source_containers@, terminal);
        let push = ProviderTasksGroupConfig::new().push_amount(0);
        let mut b = ProviderTasksBuilder::new();
        b.add_next_priority_group(dropped, push);
        b.add_next_priority_group(creeps, push);
        b.add_next_priority_group(tombstones, ProviderTasksGroupConfig::new());
        b.add_next_priority_group(ruins, ProviderTasksGroupConfig::new());
        b.add_next_priority_group(opt_vec(center_link), push);
        b.add_next_priority_group(source_containers, ProviderTasksGroupConfig::new().push_amount(SOURCE_CONTAINER_PUSH_AMOUNT));
        b.add_next_priority_group(opt_vec(terminal), ProviderTasksGroupConfig::new().min_leave(TERMINAL_MIN_LEAVE));
        proof {
            assert(b@ =~= groups);
        }
        self.providers.set_tasks(b.build());
    }

    /// Refreshes the consuming tasks from the stops of this tick, group by group.
    pub fn update_consumers(
        &mut self,
        center_spawn: Option<ConsumerStop>,
        center_extensions: Vec<ConsumerStop>,
        towers: Vec<ConsumerStop>,
        creeps: Vec<ConsumerStop>,
        terminal: Option<ConsumerStop>,
    )
        requires
            old(self).wf(),
        ensures
            final(self).wf(),
            final(self).providers == old(self).providers,
            final(self).consumer_views() == spec_set_tasks::<(ConsumerTaskPriority, Collaboration<()>)>(
                old(self).consumer_views(),
                consumer_tasks(consumer_groups(center_spawn, center_extensions@, towers@, creeps@, terminal), 5),
            ),
    {
        let ghost groups = consumer_groups(center_spawn, center_extensions@, towers@, creeps@, terminal);
        let mut b = ConsumerTasksBuilder::new();
        b.add_next_priority_group(opt_vec(center_spawn), ConsumerTasksGroupConfig::new());
        b.add_next_priority_group(center_extensions, ConsumerTasksGroupConfig::new());
        b.add_next_priority_group(towers, ConsumerTasksGroupConfig::new().threshold(TOWER_FULLNESS_THRESHOLD));
        b.add_next_priority_group(creeps, ConsumerTasksGroupConfig::new().threshold(CREEP_FULLNESS_THRESHOLD));
        b.add_next_priority_group(
            opt_vec(terminal),
            ConsumerTasksGroupConfig::new().max_fill(TERMINAL_MAX_FILL).threshold(TERMINAL_FULLNESS_THRESHOLD),
        );
        proof {
            assert(b@ =~= groups);
        }
        self.consumers.set_tasks(b.build());
    }

    /// Whether `owner` can take on `work` on every providing task, and leave it,
    /// without the work taken on overflowing.
    pub fn providers_ready(&self, owner: u64, work: u32) -> (b: bool)
        requires
            self.wf(),
        ensures
            b == forall|k: u64| #[trigger] self.provider_views().contains_key(k)
                ==> ready(self.provider_views()[k].1, owner, work),
    {
        proof {
            self.providers.lemma_wf();
            lemma_task_views(self.providers@);
        }
        let mut i: usize = 0;
        while i < self.providers.len()
            invariant
                self.wf(),
                i <= self.providers.entries().len(),
                forall|j: int| 0 <= j < i ==> ready(#[trigger] provider_entry_view(self.providers.entries()[j]).1, owner, work),
            decreases self.providers.entries().len() - i,
        {
            let (kk, d) = self.providers.entry_at(i);
            proof {
                self.providers.lemma_wf();
                assert(self.providers@.contains_key(kk));
            }
            let own = d.1.remaining(&CollaborativeWorkerHandle { worker: owner });
            let pending = d.1.task_data.pending_work;
            if !(pending >= own && (pending - own) as u64 + work as u64 <= u32::MAX as u64
                && pending as u64 + own as u64 <= u32::MAX as u64) {
                proof {
                    self.providers.lemma_wf();
            lemma_task_views(self.providers@);
                    let k = self.providers.entries()[i as int].0;
                    assert(self.provider_views().contains_key(k));
                }
                return false;
            }
            i = i + 1;
        }
        proof {
            self.providers.lemma_wf();
            lemma_task_views(self.providers@);
            assert forall|k: u64| #[trigger] self.provider_views().contains_key(k)
                implies ready(self.provider_views()[k].1, owner, work) by {
                assert(self.providers@.contains_key(k));
                let j = choose|j: int| 0 <= j < self.providers.entries().len() && self.providers.entries()[j].0 == k;
                assert(ready(provider_entry_view(self.providers.entries()[j]).1, owner, work));
            }
        }
        true
    }

    /// Whether `owner` can take on `work` on every consuming task, and leave it,
    /// without the work taken on overflowing.
    pub fn consumers_ready(&self, owner: u64, work: u32) -> (b: bool)
        requires
            self.wf(),
        ensures
            b == forall|k: u64| #[trigger] self.consumer_views().contains_key(k)
                ==> ready(self.consumer_views()[k].1, owner, work),
    {
        proof {
            self.consumers.lemma_wf();
            lemma_task_views(self.consumers@);
        }
        let mut i: usize = 0;
        while i < self.consumers.len()
            invariant
                self.wf(),
                i <= self.consumers.entries().len(),
                forall|j: int| 0 <= j < i ==> ready(#[trigger] consumer_entry_view(self.consumers.entries()[j]).1, owner, work),
            decreases self.consumers.entries().len() - i,
        {
            let (kk, d) = self.consumers.entry_at(i);
            proof {
                self.consumers.lemma_wf();
                assert(self.consumers@.contains_key(kk));
            }
            let own = d.1.remaining(&CollaborativeWorkerHandle { worker: owner });
            let pending = d.1.task_data.pending_work;
            if !(pending >= own && (pending - own) as u64 + work as u64 <= u32::MAX as u64
                && pending as u64 + own as u64 <= u32::MAX as u64) {
                proof {
                    self.consumers.lemma_wf();
            lemma_task_views(self.consumers@);
                    let k = self.consumers.entries()[i as int].0;
                    assert(self.consumer_views().contains_key(k));
                }
                return false;
            }
            i = i + 1;
        }
        proof {
            self.consumers.lemma_wf();
            lemma_task_views(self.consumers@);
            assert forall|k: u64| #[trigger] self.consumer_views().contains_key(k)
                implies ready(self.consumer_views()[k].1, owner, work) by {
                assert(self.consumers@.contains_key(k));
                let j = choose|j: int| 0 <= j < self.consumers.entries().len() && self.consumers.entries()[j].0 == k;
                assert(ready(consumer_entry_view(self.consumers.entries()[j]).1, owner, work));
            }
        }
        true
    }

    /// Adds `owner` with `work` to the providing task `k`.
    fn join_provider(&mut self, k: u64, owner: u64, work: u32, now: u32)
        requires
            old(self).wf(),
            old(self).provider_views().contains_key(k),
            can_join(old(self).provider_views()[k].1, owner, work),
            now as int + TIMEOUT + 1 <= u32::MAX,
        ensures
            final(self).wf(),
            final(self).consumers == old(self).consumers,
            final(self).provider_views() == old(self).provider_views().insert(k,
                (old(self).provider_views()[k].0, joined(old(self).provider_views()[k].1, owner, work, now))),
    {
        proof {
            lemma_task_views(self.providers@);
            self.providers.lemma_wf();
        }
        let mut d = self.providers.take(k).unwrap();
        d.1.add(owner, work, (), now);
        let ghost dv = d;
        self.providers.put_back(k, d);
        proof {
            assert(self.provider_views() =~= old(self).provider_views().insert(k, dv.task_view()));
        }
    }

    /// Adds `owner` with `work` to the consuming task `k`.
    fn join_consumer(&mut self, k: u64, owner: u64, work: u32, now: u32)
        requires
            old(self).wf(),
            old(self).consumer_views().contains_key(k),
            can_join(old(self).consumer_views()[k].1, owner, work),
            now as int + TIMEOUT + 1 <= u32::MAX,
        ensures
            final(self).wf(),
            final(self).providers == old(self).providers,
            final(self).consumer_views() == old(self).consumer_views().insert(k,
                (old(self).consumer_views()[k].0, joined(old(self).consumer_views()[k].1, owner, work, now))),
    {
        proof {
            lemma_task_views(self.consumers@);
            self.consumers.lemma_wf();
        }
        let mut d = self.consumers.take(k).unwrap();
        d.1.add(owner, work, (), now);
        let ghost dv = d;
        self.consumers.put_back(k, d);
        proof {
            assert(self.consumer_views() =~= old(self).consumer_views().insert(k, dv.task_view()));
        }
    }

    /// Sends a truck to empty a provider that has a push amount and at least that
    /// much unassigned work: the most urgent such provider, the nearest among
    /// equals. The truck takes on its next free capacity there.
    pub fn assign_push_provider(&mut self, truck: &VirtualCreep, truck_id: u64, truck_pos: u32, positions: &KeyedMap<u32>, now: u32) -> (r: Option<u64>)
        requires
            old(self).wf(),
            truck.wf(),
            positions.wf(),
            packed_valid(truck_pos),
            positions_known(old(self).providers@, positions@),
            now as int + TIMEOUT + 1 <= u32::MAX,
            forall|k: u64| #[trigger] old(self).provider_views().contains_key(k)
                ==> can_join(old(self).provider_views()[k].1, truck_id, next_free(*truck)),
        ensures
            final(self).wf(),
            final(self).consumers == old(self).consumers,
            r is None <==> !push_available(*old(self)),
            r is None ==> *final(self) == *old(self),
            r matches Some(k) ==> push_choice(*old(self), *final(self), k, truck_id, truck_pos, positions@, next_free(*truck), now),
            r matches Some(k) ==> {
                let v = old(self).provider_views();
                &&& v.contains_key(k)
                &&& push_eligible(v[k])
                &&& forall|j: u64| #[trigger] v.contains_key(j) && push_eligible(v[j]) ==> priority_range_le(
                    v[j].0.priority, spec_range(positions@[j], truck_pos),
                    v[k].0.priority, spec_range(positions@[k], truck_pos))
                &&& final(self).provider_views() == v.insert(k, (v[k].0, joined(v[k].1, truck_id, next_free(*truck), now)))
            },
    {
        let work = truck.next_free_capacity();
        proof {
            self.providers.lemma_wf();
            lemma_task_views(self.providers@);
        }
        let mut best: Option<(usize, u32, u32)> = None;
        let mut i: usize = 0;
        while i < self.providers.len()
            invariant
                self.wf(),
                positions.wf(),
                packed_valid(truck_pos),
                positions_known(self.providers@, positions@),
                i <= self.providers.entries().len(),
                best is None ==> forall|j: int| 0 <= j < i ==> !push_eligible(#[trigger] provider_entry_view(self.providers.entries()[j])),
                best matches Some(b) ==> {
                    let e = self.providers.entries()[b.0 as int];
                    &&& b.0 < i
                    &&& push_eligible(provider_entry_view(e))
                    &&& b.1 == e.1.0.priority
                    &&& b.2 == spec_range(positions@[e.0], truck_pos)
                    &&& forall|j: int| 0 <= j < i && push_eligible(#[trigger] provider_entry_view(self.providers.entries()[j]))
                        ==> priority_range_le(self.providers.entries()[j].1.0.priority,
                            spec_range(positions@[self.providers.entries()[j].0], truck_pos), b.1, b.2 as int)
                },
            decreases self.providers.entries().len() - i,
        {
            let (k, d) = self.providers.entry_at(i);
            proof {
                self.providers.lemma_wf();
            lemma_task_views(self.providers@);
                assert(self.providers@.contains_key(k));
            }
            let eligible = match d.0.push_amount {
                Some(p) => d.1.unassigned_work() >= p,
                None => false,
            };
            if eligible {
                let pos = *positions.get(k).unwrap();
                let range = range_between(pos, truck_pos);
                let better = match best {
                    None => true,
                    Some((_, bp, br)) => bp < d.0.priority || (bp == d.0.priority && range <= br),
                };
                if better {
                    best = Some((i, d.0.priority, range));
                }
            }
            i = i + 1;
        }
        proof {
            self.providers.lemma_wf();
            lemma_task_views(self.providers@);
        }
        match best {
            None => {
                proof {
                    assert forall|k: u64| #[trigger] self.provider_views().contains_key(k) implies !push_eligible(self.provider_views()[k]) by {
                        assert(self.providers@.contains_key(k));
                let j = choose|j: int| 0 <= j < self.providers.entries().len() && self.providers.entries()[j].0 == k;
                        assert(!push_eligible(provider_entry_view(self.providers.entries()[j])));
                    }
                }
                None
            },
            Some((bi, bp, br)) => {
                let k = self.providers.entry_at(bi).0;
                proof {
                    let v = self.provider_views();
                    assert(v.contains_key(k));
                    assert(v[k] == provider_entry_view(self.providers.entries()[bi as int]));
                    assert forall|j: u64| #[trigger] v.contains_key(j) && push_eligible(v[j]) implies priority_range_le(
                        v[j].0.priority, spec_range(positions@[j], truck_pos),
                        v[k].0.priority, spec_range(positions@[k], truck_pos)) by {
                        assert(self.providers@.contains_key(j));
                        let a = choose|a: int| 0 <= a < self.providers.entries().len() && self.providers.entries()[a].0 == j;
                        assert(push_eligible(provider_entry_view(self.providers.entries()[a])));
                    }
                }
                self.join_provider(k, truck_id, work, now);
                Some(k)
            },
        }
    }

    /// Sends a truck to the provider where it can collect the most (up to its next
    /// free capacity), the most urgent among equals, then the nearest. The truck
    /// takes on its next free capacity there.
    pub fn assign_provider(&mut self, truck: &VirtualCreep, truck_id: u64, truck_pos: u32, positions: &KeyedMap<u32>, now: u32) -> (r: Option<u64>)
        requires
            old(self).wf(),
            truck.wf(),
            positions.wf(),
            packed_valid(truck_pos),
            positions_known(old(self).providers@, positions@),
            now as int + TIMEOUT + 1 <= u32::MAX,
            forall|k: u64| #[trigger] old(self).provider_views().contains_key(k)
                ==> can_join(old(self).provider_views()[k].1, truck_id, next_free(*truck)),
        ensures
            final(self).wf(),
            final(self).consumers == old(self).consumers,
            r is None <==> old(self).provider_views().dom() == Set::<u64>::empty(),
            r is None ==> *final(self) == *old(self),
            r matches Some(k) ==> provider_choice(*old(self), *final(self), k, truck_id, truck_pos, positions@, next_free(*truck), now),
            r matches Some(k) ==> {
                let v = old(self).provider_views();
                &&& v.contains_key(k)
                &&& forall|j: u64| #[trigger] v.contains_key(j) ==> provider_le(
                    v[j], spec_range(positions@[j], truck_pos), v[k], spec_range(positions@[k], truck_pos), next_free(*truck))
                &&& final(self).provider_views() == v.insert(k, (v[k].0, joined(v[k].1, truck_id, next_free(*truck), now)))
            },
    {
        let work = truck.next_free_capacity();
        proof {
            self.providers.lemma_wf();
            lemma_task_views(self.providers@);
        }
        let mut best: Option<(usize, u32, u32, u32)> = None;
        let mut i: usize = 0;
        while i < self.providers.len()
            invariant
                self.wf(),
                positions.wf(),
                packed_valid(truck_pos),
                positions_known(self.providers@, positions@),
                i <= self.providers.entries().len(),
                best is None ==> i == 0,
                best matches Some(b) ==> {
                    let e = self.providers.entries()[b.0 as int];
                    &&& b.0 < i
                    &&& b.1 == min_u32(unassigned(e.1.1.task_data), work)
                    &&& b.2 == e.1.0.priority
                    &&& b.3 == spec_range(positions@[e.0], truck_pos)
                    &&& forall|j: int| 0 <= j < i ==> provider_le(#[trigger] provider_entry_view(self.providers.entries()[j]),
                        spec_range(positions@[self.providers.entries()[j].0], truck_pos),
                        provider_entry_view(e), b.3 as int, work)
                },
            decreases self.providers.entries().len() - i,
        {
            let (k, d) = self.providers.entry_at(i);
            proof {
                self.providers.lemma_wf();
            lemma_task_views(self.providers@);
                assert(self.providers@.contains_key(k));
            }
            let pos = *positions.get(k).unwrap();
            let range = range_between(pos, truck_pos);
            let unassigned = d.1.unassigned_work();
            let amount = if unassigned <= work { unassigned } else { work };
            let better = match best {
                None => true,
                Some((_, bw, bp, br)) => bw < amount || (bw == amount && (bp < d.0.priority || (bp == d.0.priority && range <= br))),
            };
            if better {
                best = Some((i, amount, d.0.priority, range));
            }
            i = i + 1;
        }
        proof {
            self.providers.lemma_wf();
            lemma_task_views(self.providers@);
        }
        match best {
            None => {
                proof {
                    assert(self.provider_views().dom() =~= Set::<u64>::empty()) by {
                        assert forall|k: u64| !self.provider_views().dom().contains(k) by {
                            if self.provider_views().contains_key(k) {
                                assert(self.providers@.contains_key(k));
                let j = choose|j: int| 0 <= j < self.providers.entries().len() && self.providers.entries()[j].0 == k;
                            }
                        }
                    }
                }
                None
            },
            Some((bi, _, _, _)) => {
                let k = self.providers.entry_at(bi).0;
                proof {
                    let v = self.provider_views();
                    assert(v.contains_key(k));
                    assert(v[k] == provider_entry_view(self.providers.entries()[bi as int]));
                    assert(v.dom().contains(k));
                    assert forall|j: u64| #[trigger] v.contains_key(j) implies provider_le(
                        v[j], spec_range(positions@[j], truck_pos), v[k], spec_range(positions@[k], truck_pos), work) by {
                        assert(self.providers@.contains_key(j));
                        let a = choose|a: int| 0 <= a < self.providers.entries().len() && self.providers.entries()[a].0 == j;
                        assert(provider_le(provider_entry_view(self.providers.entries()[a]),
                            spec_range(positions@[self.providers.entries()[a].0], truck_pos),
                            provider_entry_view(self.providers.entries()[bi as int]),
                            spec_range(positions@[k], truck_pos), work));
                    }
                }
                self.join_provider(k, truck_id, work, now);
                Some(k)
            },
        }
    }

    /// Sends a truck to the most urgent consumer, the one with the most unassigned
    /// work among equals, then the nearest. The truck takes on its next free
    /// capacity there.
    pub fn assign_consumer(&mut self, truck: &VirtualCreep, truck_id: u64, truck_pos: u32, positions: &KeyedMap<u32>, now: u32) -> (r: Option<u64>)
        requires
            old(self).wf(),
            truck.wf(),
            positions.wf(),
            packed_valid(truck_pos),
            positions_known(old(self).consumers@, positions@),
            now as int + TIMEOUT + 1 <= u32::MAX,
            forall|k: u64| #[trigger] old(self).consumer_views().contains_key(k)
                ==> can_join(old(self).consumer_views()[k].1, truck_id, next_free(*truck)),
        ensures
            final(self).wf(),
            final(self).providers == old(self).providers,
            r is None <==> old(self).consumer_views().dom() == Set::<u64>::empty(),
            r is None ==> *final(self) == *old(self),
            r matches Some(k) ==> consumer_choice(*old(self), *final(self), k, truck_id, truck_pos, positions@, next_free(*truck), now),
            r matches Some(k) ==> {
                let v = old(self).consumer_views();
                &&& v.contains_key(k)
                &&& forall|j: u64| #[trigger] v.contains_key(j) ==> consumer_le(
                    v[j], spec_range(positions@[j], truck_pos), v[k], spec_range(positions@[k], truck_pos))
                &&& final(self).consumer_views() == v.insert(k, (v[k].0, joined(v[k].1, truck_id, next_free(*truck), now)))
            },
    {
        let work = truck.next_free_capacity();
        proof {
            self.consumers.lemma_wf();
            lemma_task_views(self.consumers@);
        }
        let mut best: Option<(usize, u32, u32, u32)> = None;
        let mut i: usize = 0;
        while i < self.consumers.len()
            invariant
                self.wf(),
                positions.wf(),
                packed_valid(truck_pos),
                positions_known(self.consumers@, positions@),
                i <= self.consumers.entries().len(),
                best is None ==> i == 0,
                best matches Some(b) ==> {
                    let e = self.consumers.entries()[b.0 as int];
                    &&& b.0 < i
                    &&& b.1 == e.1.0.0
                    &&& b.2 == unassigned(e.1.1.task_data)
                    &&& b.3 == spec_range(positions@[e.0], truck_pos)
                    &&& forall|j: int| 0 <= j < i ==> consumer_le(#[trigger] consumer_entry_view(self.consumers.entries()[j]),
                        spec_range(positions@[self.consumers.entries()[j].0], truck_pos),
                        consumer_entry_view(e), b.3 as int)
                },
            decreases self.consumers.entries().len() - i,
        {
            let (k, d) = self.consumers.entry_at(i);
            proof {
                self.consumers.lemma_wf();
            lemma_task_views(self.consumers@);
                assert(self.consumers@.contains_key(k));
            }
            let pos = *positions.get(k).unwrap();
            let range = range_between(pos, truck_pos);
            let unassigned = d.1.unassigned_work();
            let priority = d.0.0;
            let better = match best {
                None => true,
                Some((_, bp, bu, br)) => bp < priority || (bp == priority && (bu < unassigned || (bu == unassigned && range <= br))),
            };
            if better {
                best = Some((i, priority, unassigned, range));
            }
            i = i + 1;
        }
        proof {
            self.consumers.lemma_wf();
            lemma_task_views(self.consumers@);
        }
        match best {
            None => {
                proof {
                    assert(self.consumer_views().dom() =~= Set::<u64>::empty()) by {
                        assert forall|k: u64| !self.consumer_views().dom().contains(k) by {
                            if self.consumer_views().contains_key(k) {
                                assert(self.consumers@.contains_key(k));
                let j = choose|j: int| 0 <= j < self.consumers.entries().len() && self.consumers.entries()[j].0 == k;
                            }
                        }
                    }
                }
                None
            },
            Some((bi, _, _, _)) => {
                let k = self.consumers.entry_at(bi).0;
                proof {
                    let v = self.consumer_views();
                    assert(v.contains_key(k));
                    assert(v[k] == consumer_entry_view(self.consumers.entries()[bi as int]));
                    assert(v.dom().contains(k));
                    assert forall|j: u64| #[trigger] v.contains_key(j) implies consumer_le(
                        v[j], spec_range(positions@[j], truck_pos), v[k], spec_range(positions@[k], truck_pos)) by {
                        assert(self.consumers@.contains_key(j));
                        let a = choose|a: int| 0 <= a < self.consumers.entries().len() && self.consumers.entries()[a].0 == j;
                        assert(consumer_le(consumer_entry_view(self.consumers.entries()[a]),
                            spec_range(positions@[self.consumers.entries()[a].0], truck_pos),
                            consumer_entry_view(self.consumers.entries()[bi as int]),
                            spec_range(positions@[k], truck_pos)));
                    }
                }
                self.join_consumer(k, truck_id, work, now);
                Some(k)
            },
        }
    }

    /// Records a heartbeat of `creep` on a providing task at tick `now`; gives its
    /// handle where it works on the task.
    pub fn heartbeat_provider(&mut self, creep: u64, task: u64, now: u32) -> (h: Option<CollaborativeWorkerHandle>)
        requires
            old(self).wf(),
            now as int + TIMEOUT + 1 <= u32::MAX,
        ensures
            final(self).wf(),
            final(self).consumers == old(self).consumers,
            h is Some <==> old(self).provider_views().contains_key(task) && old(self).provider_views()[task].1.0.contains_key(creep),
            h matches Some(x) ==> x.worker == creep,
            old(self).provider_views().contains_key(task) ==> final(self).provider_views() == old(self).provider_views().insert(task,
                (old(self).provider_views()[task].0, heartbeat_view(old(self).provider_views()[task].1, creep, now))),
            !old(self).provider_views().contains_key(task) ==> final(self).provider_views() == old(self).provider_views(),
    {
        proof {
            lemma_task_views(self.providers@);
            self.providers.lemma_wf();
        }
        match self.providers.take(task) {
            None => {
                proof {
                    assert(self.providers@ =~= old(self).providers@);
                }
                None
            },
            Some(mut d) => {
                let h = d.1.heartbeat(creep, now);
                let ghost dv = d;
                self.providers.put_back(task, d);
                proof {
                    assert(self.provider_views() =~= old(self).provider_views().insert(task, dv.task_view()));
                }
                h
            },
        }
    }

    /// Records a heartbeat of `creep` on a consuming task at tick `now`; gives its
    /// handle where it works on the task.
    pub fn heartbeat_consumer(&mut self, creep: u64, task: u64, now: u32) -> (h: Option<CollaborativeWorkerHandle>)
        requires
            old(self).wf(),
            now as int + TIMEOUT + 1 <= u32::MAX,
        ensures
            final(self).wf(),
            final(self).providers == old(self).providers,
            h is Some <==> old(self).consumer_views().contains_key(task) && old(self).consumer_views()[task].1.0.contains_key(creep),
            h matches Some(x) ==> x.worker == creep,
            old(self).consumer_views().contains_key(task) ==> final(self).consumer_views() == old(self).consumer_views().insert(task,
                (old(self).consumer_views()[task].0, heartbeat_view(old(self).consumer_views()[task].1, creep, now))),
            !old(self).consumer_views().contains_key(task) ==> final(self).consumer_views() == old(self).consumer_views(),
    {
        proof {
            lemma_task_views(self.consumers@);
            self.consumers.lemma_wf();
        }
        match self.consumers.take(task) {
            None => {
                proof {
                    assert(self.consumers@ =~= old(self).consumers@);
                }
                None
            },
            Some(mut d) => {
                let h = d.1.heartbeat(creep, now);
                let ghost dv = d;
                self.consumers.put_back(task, d);
                proof {
                    assert(self.consumer_views() =~= old(self).consumer_views().insert(task, dv.task_view()));
                }
                h
            },
        }
    }

    /// Records a heartbeat of `creep` on the task at tick `now`.
    pub fn heartbeat(&mut self, creep: u64, task: TruckTask, now: u32) -> (h: Option<CollaborativeWorkerHandle>)
        requires
            old(self).wf(),
            now as int + TIMEOUT + 1 <= u32::MAX,
        ensures
            final(self).wf(),
            h matches Some(x) ==> x.worker == creep,
            match task {
                TruckTask::CollectingFrom(t) => {
                    &&& final(self).consumers == old(self).consumers
                    &&& h is Some <==> old(self).provider_views().contains_key(t) && old(self).provider_views()[t].1.0.contains_key(creep)
                    &&& old(self).provider_views().contains_key(t) ==> final(self).provider_views() == old(self).provider_views().insert(t,
                        (old(self).provider_views()[t].0, heartbeat_view(old(self).provider_views()[t].1, creep, now)))
                    &&& !old(self).provider_views().contains_key(t) ==> final(self).provider_views() == old(self).provider_views()
                },
                TruckTask::ProvidingTo(t) => {
                    &&& final(self).providers == old(self).providers
                    &&& h is Some <==> old(self).consumer_views().contains_key(t) && old(self).consumer_views()[t].1.0.contains_key(creep)
                    &&& old(self).consumer_views().contains_key(t) ==> final(self).consumer_views() == old(self).consumer_views().insert(t,
                        (old(self).consumer_views()[t].0, heartbeat_view(old(self).consumer_views()[t].1, creep, now)))
                    &&& !old(self).consumer_views().contains_key(t) ==> final(self).consumer_views() == old(self).consumer_views()
                },
            },
    {
        match task {
            TruckTask::CollectingFrom(t) => self.heartbeat_provider(creep, t, now),
            TruckTask::ProvidingTo(t) => self.heartbeat_consumer(creep, t, now),
        }
    }

    /// Records that the worker of `handle` did `amount` of work on the task.
    pub fn consume(&mut self, task: TruckTask, handle: &CollaborativeWorkerHandle, amount: u32)
        requires
            old(self).wf(),
            match task {
                TruckTask::CollectingFrom(t) => old(self).provider_views().contains_key(t)
                    && old(self).provider_views()[t].1.0.contains_key(handle.worker),
                TruckTask::ProvidingTo(t) => old(self).consumer_views().contains_key(t)
                    && old(self).consumer_views()[t].1.0.contains_key(handle.worker),
            },
        ensures
            final(self).wf(),
            match task {
                TruckTask::CollectingFrom(t) => {
                    &&& final(self).consumers == old(self).consumers
                    &&& final(self).provider_views() == old(self).provider_views().insert(t,
                        (old(self).provider_views()[t].0, worked_view(old(self).provider_views()[t].1, handle.worker, amount)))
                },
                TruckTask::ProvidingTo(t) => {
                    &&& final(self).providers == old(self).providers
                    &&& final(self).consumer_views() == old(self).consumer_views().insert(t,
                        (old(self).consumer_views()[t].0, worked_view(old(self).consumer_views()[t].1, handle.worker, amount)))
                },
            },
    {
        match task {
            TruckTask::CollectingFrom(t) => {
                proof {
                    lemma_task_views(self.providers@);
                    self.providers.lemma_wf();
                }
                let mut d = self.providers.take(t).unwrap();
                d.1.apply_work(handle, amount);
                let ghost dv = d;
                self.providers.put_back(t, d);
                proof {
                    assert(self.provider_views() =~= old(self).provider_views().insert(t, dv.task_view()));
                }
            },
            TruckTask::ProvidingTo(t) => {
                proof {
                    lemma_task_views(self.consumers@);
                    self.consumers.lemma_wf();
                }
                let mut d = self.consumers.take(t).unwrap();
                d.1.apply_work(handle, amount);
                let ghost dv = d;
                self.consumers.put_back(t, d);
                proof {
                    assert(self.consumer_views() =~= old(self).consumer_views().insert(t, dv.task_view()));
                }
            },
        }
    }

    /// Takes the worker of `handle` off the task.
    pub fn release(&mut self, task: TruckTask, handle: CollaborativeWorkerHandle)
        requires
            old(self).wf(),
            match task {
                TruckTask::CollectingFrom(t) => old(self).provider_views().contains_key(t)
                    && old(self).provider_views()[t].1.0.contains_key(handle.worker)
                    && can_leave(old(self).provider_views()[t].1, handle.worker),
                TruckTask::ProvidingTo(t) => old(self).consumer_views().contains_key(t)
                    && old(self).consumer_views()[t].1.0.contains_key(handle.worker)
                    && can_leave(old(self).consumer_views()[t].1, handle.worker),
            },
        ensures
            final(self).wf(),
            match task {
                TruckTask::CollectingFrom(t) => {
                    &&& final(self).consumers == old(self).consumers
                    &&& final(self).provider_views() == old(self).provider_views().insert(t,
                        (old(self).provider_views()[t].0, left_view(old(self).provider_views()[t].1, handle.worker)))
                },
                TruckTask::ProvidingTo(t) => {
                    &&& final(self).providers == old(self).providers
                    &&& final(self).consumer_views() == old(self).consumer_views().insert(t,
                        (old(self).consumer_views()[t].0, left_view(old(self).consumer_views()[t].1, handle.worker)))
                },
            },
    {
        match task {
            TruckTask::CollectingFrom(t) => {
                proof {
                    lemma_task_views(self.providers@);
                    self.providers.lemma_wf();
                }
                let mut d = self.providers.take(t).unwrap();
                d.1.remove(handle);
                let ghost dv = d;
                self.providers.put_back(t, d);
                proof {
                    assert(self.provider_views() =~= old(self).provider_views().insert(t, dv.task_view()));
                }
            },
            TruckTask::ProvidingTo(t) => {
                proof {
                    lemma_task_views(self.consumers@);
                    self.consumers.lemma_wf();
                }
                let mut d = self.consumers.take(t).unwrap();
                d.1.remove(handle);
                let ghost dv = d;
                self.consumers.put_back(t, d);
                proof {
                    assert(self.consumer_views() =~= old(self).consumer_views().insert(t, dv.task_view()));
                }
            },
        }
    }
}

} // verus!
