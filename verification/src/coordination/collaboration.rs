//! A task that several creeps work on together: each worker announces how much
//! work it will do and keeps its entry alive; the task keeps the work that remains
//! and the work that workers have taken on.
use vstd::prelude::*;
use crate::check::{Expiring, spec_live};
use crate::coordination::expiring_map::{ExpiringEntryCheckError, TIMEOUT, spec_kept, err_sum, inner_sum};
use crate::coordination::workers::{Workers, WorkerEntryCheckError};
use crate::coordination::tasks::UpdateableTaskData;
use crate::keyed::{KeyedMap, seq_sum, lemma_seq_sum_remove, lemma_seq_sum_insert, lemma_seq_sum_push,
    lemma_seq_sum_term, lemma_seq_sum_ext};

verus! {

/// What one worker has taken on, with data of the caller's choosing.
pub struct WorkerState<WorkerData> {
    pub pending_work: u32,
    pub data: WorkerData,
}

/// The work that remains on the task, and how much of it workers have taken on.
#[derive(PartialEq, Eq, Structural, Clone, Copy, Debug)]
pub struct TaskState {
    pub remaining_work: u32,
    pub pending_work: u32,
}

/// A task and its workers.
pub struct Collaboration<WorkerData> {
    pub registry: Workers<WorkerState<WorkerData>>,
    pub task_data: TaskState,
}

/// A worker that was live at its last heartbeat.
#[derive(PartialEq, Eq, Structural, Clone, Copy, Debug)]
pub struct CollaborativeWorkerHandle {
    pub worker: u64,
}

/// The work that remains, as a task update.
pub struct RemainingWork(pub u32);

/// The work an entry has taken on.
pub open spec fn entry_work<AD>(e: Expiring<WorkerState<AD>, TIMEOUT>) -> nat {
    e.inner.pending_work as nat
}

/// The total work the entries have taken on.
pub open spec fn pending_sum<AD>(s: Seq<(u64, Expiring<WorkerState<AD>, TIMEOUT>)>) -> nat {
    seq_sum(s, |e: Expiring<WorkerState<AD>, TIMEOUT>| entry_work(e))
}

impl<AD> Collaboration<AD> {
    /// The workers, by creep identifier.
    #[verifier::inline]
    pub open spec fn view(&self) -> Map<u64, Expiring<WorkerState<AD>, TIMEOUT>> {
        self.registry.workers@
    }

    /// The map is well formed and every worker can still be checked.
    pub open spec fn wf(&self) -> bool {
        &&& self.registry.workers.wf()
        &&& forall|k: u64| #[trigger] self@.contains_key(k) ==> self@[k].expiration.wf()
    }

    /// The work taken on is the sum of what the workers have taken on.
    pub open spec fn balanced(&self) -> bool {
        self.task_data.pending_work == pending_sum(self.registry.workers.entries())
    }

    /// A task with `required_work` to do and no workers.
    pub fn new(required_work: u32) -> (a: Self)
        ensures
            a.wf(),
            a.balanced(),
            a@ == Map::<u64, Expiring<WorkerState<AD>, TIMEOUT>>::empty(),
            a.task_data == (TaskState { remaining_work: required_work, pending_work: 0 }),
    {
        Collaboration { registry: Workers::new(), task_data: TaskState { remaining_work: required_work, pending_work: 0 } }
    }

    /// The work that no worker has taken on (0 where more is taken on than remains).
    pub fn unassigned_work(&self) -> (u: u32)
        ensures
            u == if self.task_data.remaining_work >= self.task_data.pending_work { self.task_data.remaining_work - self.task_data.pending_work } else { 0 },
    {
        self.task_data.remaining_work.saturating_sub(self.task_data.pending_work)
    }

    /// Sets the work that remains, leaving the workers.
    pub fn set_remaining_work(&mut self, remaining_work: u32)
        ensures
            final(self).task_data == (TaskState { remaining_work, pending_work: old(self).task_data.pending_work }),
            final(self).registry == old(self).registry,
            old(self).balanced() ==> final(self).balanced(),
    {
        self.task_data.remaining_work = remaining_work;
    }

    /// Records a heartbeat of `owner` at tick `now`, if it works on the task.
    pub fn heartbeat(&mut self, owner: u64, now: u32) -> (h: Option<CollaborativeWorkerHandle>)
        requires
            old(self).wf(),
            now as int + TIMEOUT + 1 <= u32::MAX,
        ensures
            final(self).wf(),
            final(self).task_data == old(self).task_data,
            h is Some <==> old(self)@.contains_key(owner),
            h matches Some(handle) ==> handle.worker == owner,
            old(self)@.contains_key(owner) ==> final(self)@ == old(self)@.insert(owner,
                Expiring::<WorkerState<AD>, TIMEOUT>::new_spec(old(self)@[owner].inner, now)),
            !old(self)@.contains_key(owner) ==> final(self)@ == old(self)@,
            pending_sum(final(self).registry.workers.entries()) == pending_sum(old(self).registry.workers.entries()),
            old(self).balanced() ==> final(self).balanced(),
    {
        let h = self.registry.workers.refresh(owner, now);
        proof {
            self.lemma_sum_same_amounts(old(self).registry.workers.entries(), self.registry.workers.entries());
            old(self).registry.workers.lemma_wf();
            self.registry.workers.lemma_wf();
        }
        match h {
            Some(l) => Some(CollaborativeWorkerHandle { worker: l.key }),
            None => None,
        }
    }

    proof fn lemma_sum_same_amounts(&self, a: Seq<(u64, Expiring<WorkerState<AD>, TIMEOUT>)>, b: Seq<(u64, Expiring<WorkerState<AD>, TIMEOUT>)>)
        requires
            a.len() == b.len(),
            forall|i: int| 0 <= i < a.len() ==> a[i].1.inner == b[i].1.inner,
        ensures
            pending_sum(a) == pending_sum(b),
        decreases a.len(),
    {
        if a.len() > 0 {
            self.lemma_sum_same_amounts(a.drop_last(), b.drop_last());
        }
    }

    /// Registers `owner` as taking on `work` at tick `now`, replacing what it had
    /// taken on before; the total taken on follows.
    pub fn add(&mut self, owner: u64, work: u32, data: AD, now: u32)
        requires
            old(self).wf(),
            now as int + TIMEOUT + 1 <= u32::MAX,
            old(self).task_data.pending_work >= (if old(self)@.contains_key(owner) { old(self)@[owner].inner.pending_work } else { 0u32 }),
            old(self).task_data.pending_work - (if old(self)@.contains_key(owner) { old(self)@[owner].inner.pending_work } else { 0u32 })
                + work <= u32::MAX,
        ensures
            final(self).wf(),
            final(self)@ == old(self)@.insert(owner,
                Expiring::<WorkerState<AD>, TIMEOUT>::new_spec(WorkerState { pending_work: work, data }, now)),
            final(self).task_data.remaining_work == old(self).task_data.remaining_work,
            final(self).task_data.pending_work == old(self).task_data.pending_work
                - (if old(self)@.contains_key(owner) { old(self)@[owner].inner.pending_work } else { 0u32 }) + work,
            pending_sum(final(self).registry.workers.entries()) == pending_sum(old(self).registry.workers.entries())
                - (if old(self)@.contains_key(owner) { old(self)@[owner].inner.pending_work } else { 0u32 }) + work,
            old(self).balanced() ==> final(self).balanced(),
    {
        let ghost before = self.registry.workers.entries();
        let ghost f = |e: Expiring<WorkerState<AD>, TIMEOUT>| entry_work(e);
        let ghost new_e = Expiring::<WorkerState<AD>, TIMEOUT>::new_spec(WorkerState { pending_work: work, data }, now);
        if let Some(other_state) = self.registry.workers.add(owner, WorkerState { pending_work: work, data }, now) {
            self.task_data.pending_work = self.task_data.pending_work - other_state.pending_work;
            proof {
                old(self).registry.workers.lemma_wf();
                let i = choose|i: int| 0 <= i < before.len() && before[i].0 == owner
                    && self.registry.workers.entries() == before.update(i, (owner, new_e));
                assert(before.update(i, (owner, new_e)) =~= before.remove(i).insert(i, (owner, new_e)));
                lemma_seq_sum_remove(before, i, f);
                lemma_seq_sum_insert(before.remove(i), i, (owner, new_e), f);
            }
        } else {
            proof {
                lemma_seq_sum_push(before, (owner, new_e), f);
            }
        }
        self.task_data.pending_work = self.task_data.pending_work + work;
    }

    /// The work that the worker of `handle` still has pending (0 where it is gone).
    pub fn remaining(&self, handle: &CollaborativeWorkerHandle) -> (r: u32)
        requires
            self.wf(),
        ensures
            r == if self@.contains_key(handle.worker) { self@[handle.worker].inner.pending_work } else { 0u32 },
    {
        match self.registry.workers.get(handle.worker) {
            Some(a) => a.pending_work,
            None => 0,
        }
    }

    /// The data of the worker of `handle`, if it still works on the task.
    pub fn get(&self, handle: &CollaborativeWorkerHandle) -> (r: Option<&AD>)
        requires
            self.wf(),
        ensures
            r is Some <==> self@.contains_key(handle.worker),
            r matches Some(d) ==> *d == self@[handle.worker].inner.data,
    {
        match self.registry.workers.get(handle.worker) {
            Some(a) => Some(&a.data),
            None => None,
        }
    }

    /// Records that the worker did `amount` of work: it comes off the work taken
    /// on, the work that remains and the worker's pending work, each going no lower
    /// than 0.
    pub fn apply_work(&mut self, handle: &CollaborativeWorkerHandle, amount: u32)
        requires
            old(self).wf(),
            old(self)@.contains_key(handle.worker),
        ensures
            final(self).wf(),
            final(self).task_data.pending_work == (if old(self).task_data.pending_work >= amount { old(self).task_data.pending_work - amount } else { 0 }),
            final(self).task_data.remaining_work == (if old(self).task_data.remaining_work >= amount { old(self).task_data.remaining_work - amount } else { 0 }),
            final(self)@ == old(self)@.insert(handle.worker, Expiring {
                inner: WorkerState {
                    pending_work: (if old(self)@[handle.worker].inner.pending_work >= amount {
                        old(self)@[handle.worker].inner.pending_work - amount
                    } else {
                        0
                    }) as u32,
                    data: old(self)@[handle.worker].inner.data,
                },
                expiration: old(self)@[handle.worker].expiration,
            }),
            pending_sum(final(self).registry.workers.entries()) + (if old(self)@[handle.worker].inner.pending_work >= amount {
                amount as nat
            } else {
                old(self)@[handle.worker].inner.pending_work as nat
            }) == pending_sum(old(self).registry.workers.entries()),
            old(self).balanced() && amount <= old(self)@[handle.worker].inner.pending_work ==> final(self).balanced(),
    {
        self.task_data.pending_work = self.task_data.pending_work.saturating_sub(amount);
        self.task_data.remaining_work = self.task_data.remaining_work.saturating_sub(amount);
        let ghost before = self.registry.workers.entries();
        let ghost f = |e: Expiring<WorkerState<AD>, TIMEOUT>| entry_work(e);
        proof {
            self.registry.workers.lemma_wf();
        }
        let i = self.registry.workers.keys.index_of(handle.worker).unwrap();
        let (k, e) = self.registry.workers.keys.remove_at(i);
        let Expiring { inner: WorkerState { pending_work: reserved, data }, expiration } = e;
        let new_e = Expiring { inner: WorkerState { pending_work: reserved.saturating_sub(amount), data }, expiration };
        let ghost new_ev = new_e;
        self.registry.workers.keys.insert_at(i, k, new_e);
        proof {
            lemma_seq_sum_remove(before, i as int, f);
            lemma_seq_sum_insert(before.remove(i as int), i as int, (k, new_ev), f);
            assert(self.registry.workers@ =~= old(self).registry.workers@.insert(handle.worker, new_ev));
        }
    }

    /// Deregisters the worker. The worker's pending work is added to the work
    /// taken on (not taken off it).
    pub fn remove(&mut self, handle: CollaborativeWorkerHandle)
        requires
            old(self).wf(),
            old(self)@.contains_key(handle.worker),
            old(self).task_data.pending_work + old(self)@[handle.worker].inner.pending_work <= u32::MAX,
        ensures
            final(self).wf(),
            final(self)@ == old(self)@.remove(handle.worker),
            final(self).task_data.remaining_work == old(self).task_data.remaining_work,
            final(self).task_data.pending_work == old(self).task_data.pending_work + old(self)@[handle.worker].inner.pending_work,
            pending_sum(final(self).registry.workers.entries()) + old(self)@[handle.worker].inner.pending_work
                == pending_sum(old(self).registry.workers.entries()),
            old(self).balanced() ==> final(self).task_data.pending_work == pending_sum(final(self).registry.workers.entries()) + 2 * old(self)@[handle.worker].inner.pending_work,
    {
        let ghost before = self.registry.workers.entries();
        let ghost f = |e: Expiring<WorkerState<AD>, TIMEOUT>| entry_work(e);
        let pending = self.registry.workers.get(handle.worker).unwrap().pending_work;
        self.task_data.pending_work = self.task_data.pending_work + pending;
        self.registry.workers.remove(handle.worker);
        proof {
            old(self).registry.workers.lemma_wf();
            let i = choose|i: int| 0 <= i < before.len() && before[i].0 == handle.worker
                && self.registry.workers.entries() == before.remove(i);
            lemma_seq_sum_remove(before, i, f);
        }
    }

    /// Drops every worker that no longer exists (is not in `live`) or missed its
    /// heartbeat for tick `now`, taking each one's pending work off the work taken
    /// on, and reports the dropped workers with their data.
    pub fn filter_check_at(&mut self, now: u32, live: &KeyedMap<()>) -> (errs: Vec<WorkerEntryCheckError<AD>>)
        requires
            old(self).wf(),
            live.wf(),
            old(self).task_data.pending_work >= pending_sum(old(self).registry.workers.entries()),
        ensures
            final(self).wf(),
            final(self)@ == spec_kept(old(self)@, now as nat, live@.dom()),
            final(self).task_data.remaining_work == old(self).task_data.remaining_work,
            final(self).task_data.pending_work + pending_sum(old(self).registry.workers.entries())
                == old(self).task_data.pending_work + pending_sum(final(self).registry.workers.entries()),
            errs.len() + final(self).registry.workers.entries().len() == old(self).registry.workers.entries().len(),
            old(self).balanced() ==> final(self).balanced(),
    {
        let ghost fa = |a: WorkerState<AD>| a.pending_work as nat;
        let ghost original = self.registry.workers.entries();
        let mut errs = self.registry.workers.filter_check_summing(now, live, Ghost(fa));
        proof {
            let f = |e: Expiring<WorkerState<AD>, TIMEOUT>| entry_work(e);
            let g = |e: Expiring<WorkerState<AD>, TIMEOUT>| fa(e.inner);
            lemma_seq_sum_ext(original, f, g);
            lemma_seq_sum_ext(self.registry.workers.entries(), f, g);
            assert(inner_sum(original, fa) == seq_sum(original, g));
            assert(inner_sum(self.registry.workers.entries(), fa) == seq_sum(self.registry.workers.entries(), g));
            assert(pending_sum(original) == seq_sum(original, f));
            assert(pending_sum(self.registry.workers.entries()) == seq_sum(self.registry.workers.entries(), f));
        }
        let ghost total = err_sum(errs@, fa);
        let ghost n_errs = errs.len();
        assert(inner_sum(original, fa) == inner_sum(self.registry.workers.entries(), fa) + total);
        assert(total <= pending_sum(original));
        assert(pending_sum(original) <= old(self).task_data.pending_work);
        let mut new_errs: Vec<WorkerEntryCheckError<AD>> = Vec::new();
        let mut dropped: u32 = 0;
        while errs.len() > 0
            invariant
                dropped + err_sum(errs@, fa) == total,
                total <= old(self).task_data.pending_work,
                fa == (|a: WorkerState<AD>| a.pending_work as nat),
                new_errs.len() + errs.len() == n_errs,
            decreases errs.len(),
        {
            let ghost before = errs@;
            let err = errs.pop().unwrap();
            proof {
                assert(before.drop_last() =~= errs@);
            }
            match err {
                ExpiringEntryCheckError::Key(owner, a) => {
                    dropped = dropped + a.pending_work;
                    new_errs.push(WorkerEntryCheckError::Worker(owner, a.data));
                },
                ExpiringEntryCheckError::Expired(owner, a) => {
                    dropped = dropped + a.pending_work;
                    new_errs.push(WorkerEntryCheckError::Timeout(owner, a.data));
                },
            }
        }
        proof {
            assert(dropped == total);
        }
        self.task_data.pending_work = self.task_data.pending_work - dropped;
        new_errs
    }
}

impl<AD> UpdateableTaskData for Collaboration<AD> {
    type Update = RemainingWork;
    type View = (Map<u64, Expiring<WorkerState<AD>, TIMEOUT>>, TaskState);

    open spec fn task_view(&self) -> (Map<u64, Expiring<WorkerState<AD>, TIMEOUT>>, TaskState) {
        (self@, self.task_data)
    }

    open spec fn task_wf(&self) -> bool {
        self.wf()
    }

    open spec fn spec_create(update: RemainingWork) -> (Map<u64, Expiring<WorkerState<AD>, TIMEOUT>>, TaskState) {
        (Map::empty(), TaskState { remaining_work: update.0, pending_work: 0 })
    }

    open spec fn spec_update(v: (Map<u64, Expiring<WorkerState<AD>, TIMEOUT>>, TaskState), update: RemainingWork)
        -> (Map<u64, Expiring<WorkerState<AD>, TIMEOUT>>, TaskState) {
        (v.0, TaskState { remaining_work: update.0, pending_work: v.1.pending_work })
    }

    /// A task with the given work to do.
    fn create(update: RemainingWork) -> (r: Self) {
        Self::new(update.0)
    }

    /// Sets the work that remains.
    fn update(&mut self, update: RemainingWork) {
        self.set_remaining_work(update.0);
    }
}

} // verus!
