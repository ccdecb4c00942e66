//! The open tasks of a coordinator, each with its data: refreshed each tick from
//! what the room offers, keeping the data of tasks that persist.
use vstd::prelude::*;
use crate::keyed::KeyedMap;

verus! {

/// Task data that is created from, and kept up to date by, a per-tick update.
pub trait UpdateableTaskData: Sized {
    type Update;
    type View;

    /// The abstract value of the data.
    spec fn task_view(&self) -> Self::View;

    /// The data is in a usable state.
    spec fn task_wf(&self) -> bool;

    /// The abstract value of data created from `update`.
    spec fn spec_create(update: Self::Update) -> Self::View;

    /// The abstract value of data with value `v` after `update`.
    spec fn spec_update(v: Self::View, update: Self::Update) -> Self::View;

    fn create(update: Self::Update) -> (r: Self)
        ensures
            r.task_view() == Self::spec_create(update),
            r.task_wf();

    fn update(&mut self, update: Self::Update)
        requires
            old(self).task_wf(),
        ensures
            final(self).task_view() == Self::spec_update(old(self).task_view(), update),
            final(self).task_wf();
}

impl<A: UpdateableTaskData, B: UpdateableTaskData> UpdateableTaskData for (A, B) {
    type Update = (A::Update, B::Update);
    type View = (A::View, B::View);

    open spec fn task_view(&self) -> (A::View, B::View) {
        (self.0.task_view(), self.1.task_view())
    }

    open spec fn task_wf(&self) -> bool {
        self.0.task_wf() && self.1.task_wf()
    }

    open spec fn spec_create(update: (A::Update, B::Update)) -> (A::View, B::View) {
        (A::spec_create(update.0), B::spec_create(update.1))
    }

    open spec fn spec_update(v: (A::View, B::View), update: (A::Update, B::Update)) -> (A::View, B::View) {
        (A::spec_update(v.0, update.0), B::spec_update(v.1, update.1))
    }

    fn create(update: (A::Update, B::Update)) -> (r: (A, B)) {
        let (a, b) = update;
        (A::create(a), B::create(b))
    }

    fn update(&mut self, update: (A::Update, B::Update)) {
        let (a, b) = update;
        self.0.update(a);
        self.1.update(b);
    }
}

/// The views of a map of task data.
pub open spec fn task_views<TD: UpdateableTaskData>(m: Map<u64, TD>) -> Map<u64, TD::View> {
    m.map_values(|d: TD| d.task_view())
}

/// The views of a map of task data have the map's keys and each task's view.
pub proof fn lemma_task_views<TD: UpdateableTaskData>(m: Map<u64, TD>)
    ensures
        forall|k: u64| #[trigger] task_views(m).contains_key(k) <==> m.contains_key(k),
        forall|k: u64| m.contains_key(k) ==> #[trigger] task_views(m)[k] == m[k].task_view(),
{
}

/// The keys of a sequence of updates.
pub open spec fn update_keys<U>(s: Seq<(u64, U)>) -> Set<u64> {
    Set::new(|k: u64| exists|i: int| 0 <= i < s.len() && s[i].0 == k)
}

/// The views after applying a sequence of updates in order: an update to a task
/// that is present updates it, an update to a task that is absent creates it.
pub open spec fn apply_updates<TD: UpdateableTaskData>(m: Map<u64, TD::View>, s: Seq<(u64, TD::Update)>) -> Map<u64, TD::View>
    decreases s.len(),
{
    if s.len() == 0 {
        m
    } else {
        let prev = apply_updates::<TD>(m, s.drop_last());
        let (k, u) = s.last();
        if prev.contains_key(k) {
            prev.insert(k, TD::spec_update(prev[k], u))
        } else {
            prev.insert(k, TD::spec_create(u))
        }
    }
}

/// The views after `set_tasks`: the tasks that no update names are dropped, then
/// the updates are applied in order.
pub open spec fn spec_set_tasks<TD: UpdateableTaskData>(m: Map<u64, TD::View>, s: Seq<(u64, TD::Update)>) -> Map<u64, TD::View> {
    apply_updates::<TD>(m.restrict(update_keys(s)), s)
}

/// The open tasks, by task identifier, with their data.
pub struct Tasks<TaskData> {
    tasks: KeyedMap<TaskData>,
}

impl<TaskData: UpdateableTaskData> Tasks<TaskData> {
    /// The tasks and their data.
    pub closed spec fn view(&self) -> Map<u64, TaskData> {
        self.tasks@
    }

    /// The stored entries, in order.
    pub closed spec fn entries(&self) -> Seq<(u64, TaskData)> {
        self.tasks.entries()
    }

    /// The map is well formed and every task's data is usable.
    pub closed spec fn wf(&self) -> bool {
        &&& self.tasks.wf()
        &&& forall|k: u64| #[trigger] self.tasks@.contains_key(k) ==> self.tasks@[k].task_wf()
    }

    /// The entries stand for the map.
    pub proof fn lemma_wf(&self)
        requires
            self.wf(),
        ensures
            forall|i: int| 0 <= i < self.entries().len() ==> #[trigger] self@.contains_key(self.entries()[i].0)
                && self@[self.entries()[i].0] == self.entries()[i].1,
            forall|k: u64| #[trigger] self@.contains_key(k) ==> self@[k].task_wf(),
            forall|k: u64| #[trigger] self@.contains_key(k) ==> exists|i: int| 0 <= i < self.entries().len()
                && self.entries()[i].0 == k,
            crate::keyed::keys_distinct(self.entries()),
    {
        self.tasks.lemma_wf();
        assert forall|k: u64| #[trigger] self@.contains_key(k) implies exists|i: int| 0 <= i < self.entries().len()
            && self.entries()[i].0 == k by {
            assert(self.tasks@.contains_key(k));
            let i = choose|i: int| 0 <= i < self.tasks.entries().len() && self.tasks.entries()[i].0 == k;
            assert(self.entries()[i].0 == k);
        }
    }

    /// No tasks.
    pub fn new() -> (t: Self)
        ensures
            t.wf(),
            t@ == Map::<u64, TaskData>::empty(),
    {
        Tasks { tasks: KeyedMap::new() }
    }

    /// The number of tasks.
    pub fn len(&self) -> (n: usize)
        ensures
            n == self.entries().len(),
    {
        self.tasks.len()
    }

    /// The task at a position and its data.
    pub fn entry_at(&self, i: usize) -> (r: (u64, &TaskData))
        requires
            i < self.entries().len(),
        ensures
            r.0 == self.entries()[i as int].0,
            *r.1 == self.entries()[i as int].1,
    {
        (self.tasks.key_at(i), self.tasks.value_at(i))
    }

    /// The data of a task, if it is open.
    pub fn get(&self, task: u64) -> (r: Option<&TaskData>)
        requires
            self.wf(),
        ensures
            r is Some <==> self@.contains_key(task),
            r matches Some(d) ==> *d == self@[task],
    {
        self.tasks.get(task)
    }

    /// Takes the data of a task out, to be put back with `put_back`.
    pub fn take(&mut self, task: u64) -> (r: Option<TaskData>)
        requires
            old(self).wf(),
        ensures
            final(self).wf(),
            final(self)@ == old(self)@.remove(task),
            r is Some <==> old(self)@.contains_key(task),
            r matches Some(d) ==> d == old(self)@[task],
    {
        self.tasks.remove(task)
    }

    /// Stores the data of a task.
    pub fn put_back(&mut self, task: u64, data: TaskData)
        requires
            old(self).wf(),
            data.task_wf(),
        ensures
            final(self).wf(),
            final(self)@ == old(self)@.insert(task, data),
    {
        self.tasks.insert(task, data);
    }

    /// Replaces the open tasks by those that `new_tasks` names: a task that was
    /// open keeps its data, updated; a new task gets data created from its update;
    /// the others are dropped. The updates are applied in order.
    pub fn set_tasks(&mut self, new_tasks: Vec<(u64, TaskData::Update)>)
        requires
            old(self).wf(),
        ensures
            final(self).wf(),
            task_views(final(self)@) == spec_set_tasks::<TaskData>(task_views(old(self)@), new_tasks@),
            final(self)@.dom() == update_keys(new_tasks@),
    {
        let ghost s = new_tasks@;
        // the keys that are named
        let mut named: KeyedMap<()> = KeyedMap::new();
        let mut i: usize = 0;
        while i < new_tasks.len()
            invariant
                named.wf(),
                i <= new_tasks@.len(),
                new_tasks@ == s,
                forall|k: u64| named@.contains_key(k) <==> exists|j: int| 0 <= j < i && s[j].0 == k,
            decreases new_tasks@.len() - i,
        {
            let k = new_tasks[i].0;
            named.insert(k, ());
            proof {
                assert forall|key: u64| named@.contains_key(key) <==> exists|j: int| 0 <= j < i + 1 && s[j].0 == key by {
                    if key == k {
                        assert(s[i as int].0 == key);
                    }
                }
            }
            i = i + 1;
        }
        // drop the tasks that are not named
        let mut j: usize = 0;
        while j < self.tasks.len()
            invariant
                self.tasks.wf(),
                named.wf(),
                j <= self.tasks.entries().len(),
                forall|k: u64| named@.contains_key(k) <==> update_keys(s).contains(k),
                forall|k: u64| #[trigger] self.tasks@.contains_key(k) ==> old(self).tasks@.contains_key(k)
                    && self.tasks@[k] == old(self).tasks@[k],
                forall|k: u64| old(self).tasks@.contains_key(k) && update_keys(s).contains(k)
                    ==> #[trigger] self.tasks@.contains_key(k),
                forall|a: int| 0 <= a < j ==> update_keys(s).contains(#[trigger] self.tasks.entries()[a].0),
                forall|k: u64| #[trigger] old(self).tasks@.contains_key(k) ==> old(self).tasks@[k].task_wf(),
            decreases self.tasks.entries().len() - j,
        {
            let k = self.tasks.key_at(j);
            if named.contains_key(k) {
                j = j + 1;
            } else {
                let ghost before = self.tasks.entries();
                self.tasks.remove_at(j);
                proof {
                    assert forall|a: int| 0 <= a < j implies update_keys(s).contains(#[trigger] self.tasks.entries()[a].0) by {
                        assert(self.tasks.entries()[a] == before[a]);
                    }
                }
            }
        }
        proof {
            self.tasks.lemma_wf();
            let restricted = old(self).tasks@.restrict(update_keys(s));
            assert(self.tasks@ =~= restricted) by {
                assert forall|k: u64| self.tasks@.contains_key(k) <==> restricted.contains_key(k) by {
                    if self.tasks@.contains_key(k) {
                        let a = choose|a: int| 0 <= a < self.tasks.entries().len() && self.tasks.entries()[a].0 == k;
                        assert(update_keys(s).contains(self.tasks.entries()[a].0));
                    }
                }
            }
            assert(task_views(self.tasks@) =~= task_views(old(self).tasks@).restrict(update_keys(s)));
            assert(s.take(0) =~= Seq::<(u64, TaskData::Update)>::empty());
        }
        // apply the updates in order
        proof {
            assert(s.len() <= usize::MAX);
        }
        let mut rest = new_tasks;
        let mut n: usize = 0;
        let ghost base = task_views(old(self).tasks@).restrict(update_keys(s));
        while rest.len() > 0
            invariant
                self.tasks.wf(),
                n + rest@.len() == s.len(),
                s.len() <= usize::MAX,
                rest@ == s.skip(n as int),
                forall|k: u64| #[trigger] self.tasks@.contains_key(k) ==> self.tasks@[k].task_wf(),
                task_views(self.tasks@) == apply_updates::<TaskData>(base, s.take(n as int)),
                self.tasks@.dom() == update_keys(s).intersect(old(self).tasks@.dom()).union(
                    update_keys(s.take(n as int))),
            decreases rest@.len(),
        {
            let ghost rest_before = rest@;
            let (k, u) = rest.remove(0);
            proof {
                assert(rest_before[0] == s[n as int]);
                assert(rest@ =~= s.skip(n as int + 1));
                assert(s.take(n as int + 1).drop_last() =~= s.take(n as int));
                assert(s.take(n as int + 1).last() == s[n as int]);
            }
            let ghost views_before = task_views(self.tasks@);
            match self.tasks.remove(k) {
                Some(mut d) => {
                    d.update(u);
                    self.tasks.insert(k, d);
                    proof {
                        assert(task_views(self.tasks@) =~= views_before.insert(k, TaskData::spec_update(views_before[k], s[n as int].1)));
                    }
                },
                None => {
                    let d = TaskData::create(u);
                    self.tasks.insert(k, d);
                    proof {
                        assert(task_views(self.tasks@) =~= views_before.insert(k, TaskData::spec_create(s[n as int].1)));
                    }
                },
            }
            proof {
                assert(update_keys(s.take(n as int + 1)) =~= update_keys(s.take(n as int)).insert(k)) by {
                    assert forall|key: u64| update_keys(s.take(n as int + 1)).contains(key)
                        <==> update_keys(s.take(n as int)).insert(k).contains(key) by {
                        if update_keys(s.take(n as int + 1)).contains(key) && key != k {
                            let a = choose|a: int| #![trigger s.take(n as int + 1)[a]] 0 <= a < n + 1 && s.take(n as int + 1)[a].0 == key;
                            assert(s.take(n as int)[a].0 == key);
                        }
                        if update_keys(s.take(n as int)).contains(key) {
                            let a = choose|a: int| #![trigger s.take(n as int)[a]] 0 <= a < n && s.take(n as int)[a].0 == key;
                            assert(s.take(n as int + 1)[a].0 == key);
                        }
                        if key == k {
                            assert(s.take(n as int + 1)[n as int].0 == key);
                        }
                    }
                }
                assert(self.tasks@.dom() =~= update_keys(s).intersect(old(self).tasks@.dom()).union(
                    update_keys(s.take(n as int + 1))));
            }
            n = n + 1;
        }
        proof {
            assert(s.take(n as int) =~= s);
            assert(self.tasks@.dom() =~= update_keys(s));
        }
    }
}

} // verus!
