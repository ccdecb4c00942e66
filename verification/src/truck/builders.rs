//! The tasks of a tick, built from the stops the room offers, group by group. The
//! group added last gets priority 0, the one before it 1, and so on.
use vstd::prelude::*;
use crate::coordination::collaboration::RemainingWork;
use crate::coordination::tasks::UpdateableTaskData;

verus! {

/// The data of a task that provides energy.
#[derive(PartialEq, Eq, Structural, Clone, Copy, Debug)]
pub struct ProviderTaskData {
    /// Higher is more urgent.
    pub priority: u32,
    /// Where set, a truck may be sent to empty the stop once this much is unassigned.
    pub push_amount: Option<u32>,
}

/// The priority of a task that takes energy; higher is more urgent.
#[derive(PartialEq, Eq, Structural, Clone, Copy, Debug)]
pub struct ConsumerTaskPriority(pub u32);

impl UpdateableTaskData for ProviderTaskData {
    type Update = ProviderTaskData;
    type View = ProviderTaskData;

    open spec fn task_view(&self) -> ProviderTaskData {
        *self
    }

    open spec fn task_wf(&self) -> bool {
        true
    }

    open spec fn spec_create(update: ProviderTaskData) -> ProviderTaskData {
        update
    }

    open spec fn spec_update(v: ProviderTaskData, update: ProviderTaskData) -> ProviderTaskData {
        update
    }

    /// The data is the update.
    fn create(update: ProviderTaskData) -> (r: Self) {
        update
    }

    /// The update overwrites the data.
    fn update(&mut self, update: ProviderTaskData) {
        *self = update;
    }
}

impl UpdateableTaskData for ConsumerTaskPriority {
    type Update = ConsumerTaskPriority;
    type View = u32;

    open spec fn task_view(&self) -> u32 {
        self.0
    }

    open spec fn task_wf(&self) -> bool {
        true
    }

    open spec fn spec_create(update: ConsumerTaskPriority) -> u32 {
        update.0
    }

    open spec fn spec_update(v: u32, update: ConsumerTaskPriority) -> u32 {
        update.0
    }

    /// The priority is the update.
    fn create(update: ConsumerTaskPriority) -> (r: Self) {
        update
    }

    /// The update overwrites the priority.
    fn update(&mut self, update: ConsumerTaskPriority) {
        *self = update;
    }
}

/// A stop that provides energy: its identifier and the energy it holds.
#[derive(PartialEq, Eq, Structural, Clone, Copy, Debug)]
pub struct ProviderStop {
    pub id: u64,
    pub energy: u32,
}

/// A stop that takes energy: its identifier, the energy it holds, its free
/// capacity for energy and its energy capacity.
#[derive(PartialEq, Eq, Structural, Clone, Copy, Debug)]
pub struct ConsumerStop {
    pub id: u64,
    pub used: u32,
    pub free: u32,
    pub capacity: u32,
}

/// How the stops of a providing group become tasks.
#[derive(PartialEq, Eq, Structural, Clone, Copy, Debug)]
pub struct ProviderTasksGroupConfig {
    pub push_amount: Option<u32>,
    /// Energy the stops keep: only what they hold above it is offered.
    pub min_leave: Option<u32>,
}

/// How the stops of a consuming group become tasks.
#[derive(PartialEq, Eq, Structural, Clone, Copy, Debug)]
pub struct ConsumerTasksGroupConfig {
    /// Fill the stops up to this much energy rather than to their capacity.
    pub max_fill: Option<u32>,
    /// Only stops filled to at most this percentage (of `max_fill`, or of their
    /// capacity) take part.
    pub fullness_threshold: Option<u32>,
}

impl ProviderTasksGroupConfig {
    /// No push amount, nothing kept back.
    pub fn new() -> (c: Self)
        ensures
            c == (ProviderTasksGroupConfig { push_amount: None, min_leave: None }),
    {
        ProviderTasksGroupConfig { push_amount: None, min_leave: None }
    }

    /// The same, with a push amount.
    pub fn push_amount(self, x: u32) -> (c: Self)
        ensures
            c == (ProviderTasksGroupConfig { push_amount: Some(x), ..self }),
    {
        ProviderTasksGroupConfig { push_amount: Some(x), ..self }
    }

    /// The same, keeping `x` back.
    pub fn min_leave(self, x: u32) -> (c: Self)
        ensures
            c == (ProviderTasksGroupConfig { min_leave: Some(x), ..self }),
    {
        ProviderTasksGroupConfig { min_leave: Some(x), ..self }
    }
}

impl ConsumerTasksGroupConfig {
    /// No fill limit, no threshold.
    pub fn new() -> (c: Self)
        ensures
            c == (ConsumerTasksGroupConfig { max_fill: None, fullness_threshold: None }),
    {
        ConsumerTasksGroupConfig { max_fill: None, fullness_threshold: None }
    }

    /// The same, filling up to `x`.
    pub fn max_fill(self, x: u32) -> (c: Self)
        ensures
            c == (ConsumerTasksGroupConfig { max_fill: Some(x), ..self }),
    {
        ConsumerTasksGroupConfig { max_fill: Some(x), ..self }
    }

    /// The same, with a fullness threshold in percent.
    pub fn threshold(self, percent: u32) -> (c: Self)
        ensures
            c == (ConsumerTasksGroupConfig { fullness_threshold: Some(percent), ..self }),
    {
        ConsumerTasksGroupConfig { fullness_threshold: Some(percent), ..self }
    }
}

/// `a - b`, or 0 where `b` is larger.
pub open spec fn sat_sub(a: u32, b: u32) -> u32 {
    if a >= b { (a - b) as u32 } else { 0 }
}

/// The task that a providing stop becomes in a group with priority `p`.
pub open spec fn provider_task(s: ProviderStop, c: ProviderTasksGroupConfig, p: nat) -> (u64, (ProviderTaskData, RemainingWork)) {
    (s.id, (
        ProviderTaskData { priority: p as u32, push_amount: c.push_amount },
        RemainingWork(sat_sub(s.energy, match c.min_leave { Some(m) => m, None => 0 })),
    ))
}

/// The tasks of a providing group with priority `p`, in the order of its stops.
pub open spec fn provider_group_tasks(stops: Seq<ProviderStop>, c: ProviderTasksGroupConfig, p: nat)
    -> Seq<(u64, (ProviderTaskData, RemainingWork))> {
    stops.map_values(|s: ProviderStop| provider_task(s, c, p))
}

/// The tasks of the last `k` groups: the last group first, with priority 0, then
/// the one before it with priority 1, and so on.
pub open spec fn provider_tasks(groups: Seq<(Seq<ProviderStop>, ProviderTasksGroupConfig)>, k: nat)
    -> Seq<(u64, (ProviderTaskData, RemainingWork))>
    decreases k,
{
    if k == 0 || k > groups.len() {
        Seq::empty()
    } else {
        let g = groups[groups.len() - k];
        provider_tasks(groups, (k - 1) as nat) + provider_group_tasks(g.0, g.1, (k - 1) as nat)
    }
}

/// Whether a consuming stop is empty enough to take part.
pub open spec fn consumer_takes_part(s: ConsumerStop, c: ConsumerTasksGroupConfig) -> bool {
    match c.fullness_threshold {
        None => true,
        Some(t) => {
            let upper = match c.max_fill { Some(m) => m, None => s.capacity };
            upper > 0 && s.used * 100 <= t * upper
        },
    }
}

/// The task that a consuming stop becomes in a group with priority `p`: the
/// energy it can take, up to `max_fill` where that is set.
pub open spec fn consumer_task(s: ConsumerStop, c: ConsumerTasksGroupConfig, p: nat) -> (u64, (ConsumerTaskPriority, RemainingWork)) {
    (s.id, (
        ConsumerTaskPriority(p as u32),
        RemainingWork(match c.max_fill { Some(m) => sat_sub(m, s.used), None => s.free }),
    ))
}

/// The tasks of a consuming group with priority `p`: its stops that take part, in
/// order.
pub open spec fn consumer_group_tasks(stops: Seq<ConsumerStop>, c: ConsumerTasksGroupConfig, p: nat)
    -> Seq<(u64, (ConsumerTaskPriority, RemainingWork))>
    decreases stops.len(),
{
    if stops.len() == 0 {
        Seq::empty()
    } else {
        consumer_group_tasks(stops.drop_last(), c, p) + if consumer_takes_part(stops.last(), c) {
            seq![consumer_task(stops.last(), c, p)]
        } else {
            Seq::empty()
        }
    }
}

/// The tasks of the last `k` consuming groups, as for providers.
pub open spec fn consumer_tasks(groups: Seq<(Seq<ConsumerStop>, ConsumerTasksGroupConfig)>, k: nat)
    -> Seq<(u64, (ConsumerTaskPriority, RemainingWork))>
    decreases k,
{
    if k == 0 || k > groups.len() {
        Seq::empty()
    } else {
        let g = groups[groups.len() - k];
        consumer_tasks(groups, (k - 1) as nat) + consumer_group_tasks(g.0, g.1, (k - 1) as nat)
    }
}

/// Groups of providing stops, each with its configuration.
pub struct ProviderTasksBuilder {
    groups: Vec<(Vec<ProviderStop>, ProviderTasksGroupConfig)>,
}

/// Groups of consuming stops, each with its configuration.
pub struct ConsumerTasksBuilder {
    groups: Vec<(Vec<ConsumerStop>, ConsumerTasksGroupConfig)>,
}

impl ProviderTasksBuilder {
    /// The groups added so far, in order.
    pub closed spec fn view(&self) -> Seq<(Seq<ProviderStop>, ProviderTasksGroupConfig)> {
        self.groups@.map_values(|g: (Vec<ProviderStop>, ProviderTasksGroupConfig)| (g.0@, g.1))
    }

    /// No groups.
    pub fn new() -> (b: Self)
        ensures
            b@ == Seq::<(Seq<ProviderStop>, ProviderTasksGroupConfig)>::empty(),
    {
        let b = ProviderTasksBuilder { groups: Vec::new() };
        proof {
            assert(b@ =~= Seq::<(Seq<ProviderStop>, ProviderTasksGroupConfig)>::empty());
        }
        b
    }

    /// Adds a group, less urgent than the groups added before it.
    pub fn add_next_priority_group(&mut self, stops: Vec<ProviderStop>, config: ProviderTasksGroupConfig)
        ensures
            final(self)@ == old(self)@.push((stops@, config)),
    {
        let ghost s = stops@;
        self.groups.push((stops, config));
        proof {
            assert(self@ =~= old(self)@.push((s, config)));
        }
    }

    /// The tasks of all groups: those of the last group first, with priority 0,
    /// then those of the group before it, with priority 1, and so on.
    pub fn build(self) -> (tasks: Vec<(u64, (ProviderTaskData, RemainingWork))>)
        ensures
            tasks@ == provider_tasks(self@, self@.len()),
    {
        let ghost gs = self@;
        let mut groups = self.groups;
        let mut tasks: Vec<(u64, (ProviderTaskData, RemainingWork))> = Vec::new();
        let mut k: usize = 0;
        let n = groups.len();
        assert(gs.len() == n);
        while groups.len() > 0
            invariant
                k + groups@.len() == gs.len(),
                gs.len() <= usize::MAX,
                forall|i: int| 0 <= i < groups@.len() ==> (#[trigger] groups@[i]).0@ == gs[i].0 && groups@[i].1 == gs[i].1,
                tasks@ == provider_tasks(gs, k as nat),
            decreases groups@.len(),
        {
            let ghost before = groups@;
            let (stops, config) = groups.pop().unwrap();
            proof {
                assert(stops@ == gs[gs.len() - (k + 1)].0);
                assert forall|i: int| 0 <= i < groups@.len() implies (#[trigger] groups@[i]).0@ == gs[i].0 && groups@[i].1 == gs[i].1 by {
                    assert(groups@[i] == before[i]);
                }
            }
            #[verifier::truncate] let priority: u32 = k as u32;
            let leave: u32 = match config.min_leave {
                Some(m) => m,
                None => 0,
            };
            let ghost start = tasks@;
            let mut j: usize = 0;
            while j < stops.len()
                invariant
                    j <= stops@.len(),
                    priority == k as u32,
                    leave == (match config.min_leave { Some(m) => m, None => 0u32 }),
                    tasks@ == start + provider_group_tasks(stops@.take(j as int), config, k as nat),
                decreases stops@.len() - j,
            {
                let s = stops[j];
                tasks.push((s.id, (
                    ProviderTaskData { priority, push_amount: config.push_amount },
                    RemainingWork(s.energy.saturating_sub(leave)),
                )));
                proof {
                    assert(stops@.take(j as int + 1) =~= stops@.take(j as int).push(s));
                    assert(provider_group_tasks(stops@.take(j as int + 1), config, k as nat)
                        =~= provider_group_tasks(stops@.take(j as int), config, k as nat).push(provider_task(s, config, k as nat)));
                    assert(tasks@ =~= start + provider_group_tasks(stops@.take(j as int + 1), config, k as nat));
                }
                j = j + 1;
            }
            proof {
                assert(stops@.take(j as int) =~= stops@);
            }
            k = k + 1;
        }
        tasks
    }
}

fn takes_part(s: ConsumerStop, c: ConsumerTasksGroupConfig) -> (b: bool)
    ensures
        b == consumer_takes_part(s, c),
{
    match c.fullness_threshold {
        None => true,
        Some(t) => {
            let upper: u32 = match c.max_fill {
                Some(m) => m,
                None => s.capacity,
            };
            let lhs: u64 = s.used as u64 * 100;
            assert((t as u64) * (upper as u64) <= u64::MAX) by (nonlinear_arith)
                requires
                    t <= u32::MAX,
                    upper <= u32::MAX,
            ;
            let rhs: u64 = t as u64 * upper as u64;
            upper > 0 && lhs <= rhs
        },
    }
}

impl ConsumerTasksBuilder {
    /// The groups added so far, in order.
    pub closed spec fn view(&self) -> Seq<(Seq<ConsumerStop>, ConsumerTasksGroupConfig)> {
        self.groups@.map_values(|g: (Vec<ConsumerStop>, ConsumerTasksGroupConfig)| (g.0@, g.1))
    }

    /// No groups.
    pub fn new() -> (b: Self)
        ensures
            b@ == Seq::<(Seq<ConsumerStop>, ConsumerTasksGroupConfig)>::empty(),
    {
        let b = ConsumerTasksBuilder { groups: Vec::new() };
        proof {
            assert(b@ =~= Seq::<(Seq<ConsumerStop>, ConsumerTasksGroupConfig)>::empty());
        }
        b
    }

    /// Adds a group, less urgent than the groups added before it.
    pub fn add_next_priority_group(&mut self, stops: Vec<ConsumerStop>, config: ConsumerTasksGroupConfig)
        ensures
            final(self)@ == old(self)@.push((stops@, config)),
    {
        let ghost s = stops@;
        self.groups.push((stops, config));
        proof {
            assert(self@ =~= old(self)@.push((s, config)));
        }
    }

    /// The tasks of all groups, the last group first with priority 0, as for
    /// providers; a group with a fullness threshold leaves out its stops that are
    /// fuller than that.
    pub fn build(self) -> (tasks: Vec<(u64, (ConsumerTaskPriority, RemainingWork))>)
        ensures
            tasks@ == consumer_tasks(self@, self@.len()),
    {
        let ghost gs = self@;
        let mut groups = self.groups;
        let mut tasks: Vec<(u64, (ConsumerTaskPriority, RemainingWork))> = Vec::new();
        let mut k: usize = 0;
        let n = groups.len();
        assert(gs.len() == n);
        while groups.len() > 0
            invariant
                k + groups@.len() == gs.len(),
                gs.len() <= usize::MAX,
                forall|i: int| 0 <= i < groups@.len() ==> (#[trigger] groups@[i]).0@ == gs[i].0 && groups@[i].1 == gs[i].1,
                tasks@ == consumer_tasks(gs, k as nat),
            decreases groups@.len(),
        {
            let ghost before = groups@;
            let (stops, config) = groups.pop().unwrap();
            proof {
                assert(stops@ == gs[gs.len() - (k + 1)].0);
                assert forall|i: int| 0 <= i < groups@.len() implies (#[trigger] groups@[i]).0@ == gs[i].0 && groups@[i].1 == gs[i].1 by {
                    assert(groups@[i] == before[i]);
                }
            }
            #[verifier::truncate] let priority: u32 = k as u32;
            let ghost start = tasks@;
            let mut j: usize = 0;
            while j < stops.len()
                invariant
                    j <= stops@.len(),
                    priority == k as u32,
                    tasks@ == start + consumer_group_tasks(stops@.take(j as int), config, k as nat),
                decreases stops@.len() - j,
            {
                let s = stops[j];
                proof {
                    assert(stops@.take(j as int + 1).drop_last() =~= stops@.take(j as int));
                    assert(stops@.take(j as int + 1).last() == s);
                }
                if takes_part(s, config) {
                    let amount = match config.max_fill {
                        Some(m) => m.saturating_sub(s.used),
                        None => s.free,
                    };
                    tasks.push((s.id, (ConsumerTaskPriority(priority), RemainingWork(amount))));
                    proof {
                        assert(tasks@ =~= start + consumer_group_tasks(stops@.take(j as int + 1), config, k as nat));
                    }
                } else {
                    proof {
                        assert(consumer_group_tasks(stops@.take(j as int + 1), config, k as nat)
                            =~= consumer_group_tasks(stops@.take(j as int), config, k as nat));
                    }
                }
                j = j + 1;
            }
            proof {
                assert(stops@.take(j as int) =~= stops@);
            }
            k = k + 1;
        }
        tasks
    }
}

} // verus!
