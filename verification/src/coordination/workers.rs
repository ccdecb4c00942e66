//! The creeps that work on a task, each with data of its own; a worker that stops
//! sending heartbeats drops out on the next check.
use vstd::prelude::*;
use crate::check::Expiring;
use crate::coordination::expiring_map::{ExpiringMap, ExpiringEntryCheckError, TIMEOUT, spec_kept};
use crate::keyed::KeyedMap;

verus! {

/// The workers of a task, by creep identifier.
pub struct Workers<WorkerData> {
    pub workers: ExpiringMap<WorkerData>,
}

/// A worker that was live at its last heartbeat.
#[derive(PartialEq, Eq, Structural, Clone, Copy, Debug)]
pub struct WorkerHandle {
    pub worker: u64,
}

/// Why a worker was dropped on a check.
pub enum WorkerEntryCheckError<WorkerData> {
    /// The worker no longer exists.
    Worker(u64, WorkerData),
    /// The worker missed its heartbeat.
    Timeout(u64, WorkerData),
}

/// A call on the workers of a task, as far as it changes them.
pub enum WorkerCall<WD> {
    /// `add(worker, data, now)`.
    Add(u64, WD, u32),
    /// `heartbeat(worker, now)`.
    Heartbeat(u64, u32),
    /// `set` through the handle of the worker, with the new data.
    SetData(u64, WD),
    /// `remove` through the handle of the worker.
    Remove(u64),
    /// `filter_check_at(now, live)`, with the keys of `live`.
    Check(u32, Ghost<Set<u64>>),
}

/// The workers after a call.
pub open spec fn after_call<WD>(m: Map<u64, Expiring<WD, TIMEOUT>>, c: WorkerCall<WD>) -> Map<u64, Expiring<WD, TIMEOUT>> {
    match c {
        WorkerCall::Add(w, d, now) => m.insert(w, Expiring::<WD, TIMEOUT>::new_spec(d, now)),
        WorkerCall::Heartbeat(w, now) => if m.contains_key(w) {
            m.insert(w, Expiring::<WD, TIMEOUT>::new_spec(m[w].inner, now))
        } else {
            m
        },
        WorkerCall::SetData(w, d) => if m.contains_key(w) {
            m.insert(w, Expiring { inner: d, expiration: m[w].expiration })
        } else {
            m
        },
        WorkerCall::Remove(w) => m.remove(w),
        WorkerCall::Check(now, live) => spec_kept(m, now as nat, live@),
    }
}

/// The workers after the calls, in order.
pub open spec fn after_calls<WD>(m: Map<u64, Expiring<WD, TIMEOUT>>, cs: Seq<WorkerCall<WD>>) -> Map<u64, Expiring<WD, TIMEOUT>>
    decreases cs.len(),
{
    if cs.len() == 0 {
        m
    } else {
        after_call(after_calls(m, cs.drop_last()), cs.last())
    }
}

/// The call gives `w` new data: it adds `w` again, or sets its data.
pub open spec fn gives_data<WD>(c: WorkerCall<WD>, w: u64) -> bool {
    match c {
        WorkerCall::Add(k, _, _) => k == w,
        WorkerCall::SetData(k, _) => k == w,
        _ => false,
    }
}

/// Law: once `w` is added with `data`, and as long as no call adds it again or sets
/// its data, whenever it is still registered (it was not removed and did not drop
/// out on a check) its data is `data`; so a heartbeat of it gives a handle, and
/// the handle's `get` gives `data`.
pub proof fn law_heartbeat_gives_added<WD>(m: Map<u64, Expiring<WD, TIMEOUT>>, w: u64, data: WD, now: u32,
    cs: Seq<WorkerCall<WD>>, later: u32)
    requires
        forall|i: int| 0 <= i < cs.len() ==> !gives_data(#[trigger] cs[i], w),
    ensures
        after_calls(m.insert(w, Expiring::<WD, TIMEOUT>::new_spec(data, now)), cs).contains_key(w)
            ==> after_calls(m.insert(w, Expiring::<WD, TIMEOUT>::new_spec(data, now)), cs)[w].inner == data,
        after_calls(m.insert(w, Expiring::<WD, TIMEOUT>::new_spec(data, now)), cs).contains_key(w)
            ==> after_call(after_calls(m.insert(w, Expiring::<WD, TIMEOUT>::new_spec(data, now)), cs),
                WorkerCall::Heartbeat(w, later))[w].inner == data,
    decreases cs.len(),
{
    if cs.len() > 0 {
        let init = m.insert(w, Expiring::<WD, TIMEOUT>::new_spec(data, now));
        assert forall|i: int| 0 <= i < cs.drop_last().len() implies !gives_data(#[trigger] cs.drop_last()[i], w) by {
            assert(cs.drop_last()[i] == cs[i]);
        }
        law_heartbeat_gives_added(m, w, data, now, cs.drop_last(), later);
        let prev = after_calls(init, cs.drop_last());
        assert(!gives_data(cs[cs.len() - 1], w));
        match cs.last() {
            WorkerCall::Check(t, live) => {
                if after_calls(init, cs).contains_key(w) {
                    assert(prev.contains_key(w));
                }
            },
            _ => {},
        }
    }
}

impl<WD> Workers<WD> {
    #[verifier::inline]
    pub open spec fn view(&self) -> Map<u64, Expiring<WD, TIMEOUT>> {
        self.workers@
    }

    #[verifier::inline]
    pub open spec fn wf(&self) -> bool {
        self.workers.wf()
    }

    /// No workers.
    pub fn new() -> (w: Self)
        ensures
            w.wf(),
            w@ == Map::<u64, Expiring<WD, TIMEOUT>>::empty(),
            w.workers.entries().len() == 0,
    {
        Workers { workers: ExpiringMap::new() }
    }

    /// Registers `worker` with `data`, alive at tick `now`, giving back the data it
    /// had, if any.
    pub fn add(&mut self, worker: u64, data: WD, now: u32) -> (r: Option<WD>)
        requires
            old(self).wf(),
        ensures
            final(self).wf(),
            final(self)@ == old(self)@.insert(worker, Expiring::<WD, TIMEOUT>::new_spec(data, now)),
            final(self)@ == after_call(old(self)@, WorkerCall::Add(worker, data, now)),
            r is Some <==> old(self)@.contains_key(worker),
            r matches Some(o) ==> o == old(self)@[worker].inner,
    {
        self.workers.add(worker, data, now)
    }

    /// Records a heartbeat of `worker` at tick `now`, if it is registered.
    pub fn heartbeat(&mut self, worker: u64, now: u32) -> (h: Option<WorkerHandle>)
        requires
            old(self).wf(),
        ensures
            final(self).wf(),
            h is Some <==> old(self)@.contains_key(worker),
            h matches Some(handle) ==> handle.worker == worker,
            old(self)@.contains_key(worker) ==> final(self)@ == old(self)@.insert(worker,
                Expiring::<WD, TIMEOUT>::new_spec(old(self)@[worker].inner, now)),
            !old(self)@.contains_key(worker) ==> final(self)@ == old(self)@,
            final(self)@ == after_call(old(self)@, WorkerCall::Heartbeat(worker, now)),
    {
        match self.workers.refresh(worker, now) {
            Some(l) => Some(WorkerHandle { worker: l.key }),
            None => None,
        }
    }

    /// Drops the workers that no longer exist or missed their heartbeat.
    pub fn filter_check_at(&mut self, now: u32, live: &KeyedMap<()>) -> (errs: Vec<WorkerEntryCheckError<WD>>)
        requires
            old(self).wf(),
            live.wf(),
            forall|k: u64| #[trigger] old(self)@.contains_key(k) ==> old(self)@[k].expiration.wf(),
        ensures
            final(self).wf(),
            final(self)@ == spec_kept(old(self)@, now as nat, live@.dom()),
            final(self)@ == after_call(old(self)@, WorkerCall::Check(now, Ghost(live@.dom()))),
    {
        let mut errs = self.workers.filter_check_at(now, live);
        let mut out: Vec<WorkerEntryCheckError<WD>> = Vec::new();
        while errs.len() > 0
            decreases errs.len(),
        {
            match errs.pop().unwrap() {
                ExpiringEntryCheckError::Key(w, d) => out.push(WorkerEntryCheckError::Worker(w, d)),
                ExpiringEntryCheckError::Expired(w, d) => out.push(WorkerEntryCheckError::Timeout(w, d)),
            }
        }
        out
    }
}

impl WorkerHandle {
    /// The data of this worker.
    pub fn get<'a, WD>(&self, workers: &'a Workers<WD>) -> (r: &'a WD)
        requires
            workers.wf(),
            workers@.contains_key(self.worker),
        ensures
            *r == workers@[self.worker].inner,
    {
        workers.workers.get(self.worker).unwrap()
    }

    /// Replaces the data of this worker.
    pub fn set<WD>(&self, workers: &mut Workers<WD>, data: WD)
        requires
            old(workers).wf(),
            old(workers)@.contains_key(self.worker),
        ensures
            final(workers).wf(),
            final(workers)@ == old(workers)@.insert(self.worker,
                Expiring { inner: data, expiration: old(workers)@[self.worker].expiration }),
            final(workers)@ == after_call(old(workers)@, WorkerCall::SetData(self.worker, data)),
    {
        workers.workers.set(self.worker, data);
    }

    /// Deregisters this worker.
    pub fn remove<WD>(self, workers: &mut Workers<WD>)
        requires
            old(workers).wf(),
        ensures
            final(workers).wf(),
            final(workers)@ == old(workers)@.remove(self.worker),
            final(workers)@ == after_call(old(workers)@, WorkerCall::Remove(self.worker)),
    {
        workers.workers.remove(self.worker);
    }
}

} // verus!
