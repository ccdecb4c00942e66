//! A pool of some resource from which creeps reserve amounts: each reservation is
//! kept alive by its creep, and the pool keeps the total reserved.
use vstd::prelude::*;
use crate::check::{Expiring, spec_live};
use crate::coordination::expiring_map::{ExpiringMap, ExpiringEntryCheckError, TIMEOUT, spec_kept, err_sum, inner_sum};
use crate::coordination::tasks::UpdateableTaskData;
use crate::keyed::{KeyedMap, seq_sum, lemma_seq_sum_remove, lemma_seq_sum_insert, lemma_seq_sum_push,
    lemma_seq_sum_term, lemma_seq_sum_ext};

verus! {

/// What one creep reserved, with data of the caller's choosing.
pub struct Allocation<AllocationData> {
    pub amount: u32,
    pub data: AllocationData,
}

/// The amount of the resource there is, and how much of it is reserved.
#[derive(PartialEq, Eq, Structural, Clone, Copy, Debug)]
pub struct ResourceState {
    pub amount: u32,
    pub reserved: u32,
}

/// A pool of a resource and the reservations made from it, by owner.
pub struct Allocations<AllocationData> {
    pub allocations: ExpiringMap<Allocation<AllocationData>>,
    pub state: ResourceState,
}

/// A reservation that was live when it was refreshed, by its owner.
#[derive(PartialEq, Eq, Structural, Clone, Copy, Debug)]
pub struct AllocationHandle {
    pub owner: u64,
}

/// The new amount of a pool, as a task update.
pub struct ResourceAmount(pub u32);

/// The amount an entry reserves.
pub open spec fn entry_amount<AD>(e: Expiring<Allocation<AD>, TIMEOUT>) -> nat {
    e.inner.amount as nat
}

/// The total that the entries reserve.
pub open spec fn amount_sum<AD>(s: Seq<(u64, Expiring<Allocation<AD>, TIMEOUT>)>) -> nat {
    seq_sum(s, |e: Expiring<Allocation<AD>, TIMEOUT>| entry_amount(e))
}

impl<AD> Allocations<AD> {
    /// The reservations, by owner.
    #[verifier::inline]
    pub open spec fn view(&self) -> Map<u64, Expiring<Allocation<AD>, TIMEOUT>> {
        self.allocations@
    }

    /// The map is well formed and every reservation can still be checked.
    pub open spec fn wf(&self) -> bool {
        &&& self.allocations.wf()
        &&& forall|k: u64| #[trigger] self@.contains_key(k) ==> self@[k].expiration.wf()
    }

    /// The total reserved is the sum of the reservations.
    pub open spec fn balanced(&self) -> bool {
        self.state.reserved == amount_sum(self.allocations.entries())
    }

    /// A pool of `amount` with nothing reserved.
    pub fn new(amount: u32) -> (a: Self)
        ensures
            a.wf(),
            a.balanced(),
            a@ == Map::<u64, Expiring<Allocation<AD>, TIMEOUT>>::empty(),
            a.state == (ResourceState { amount, reserved: 0 }),
    {
        Allocations { allocations: ExpiringMap::new(), state: ResourceState { amount, reserved: 0 } }
    }

    /// How much of the pool is not reserved (0 where more is reserved than there is).
    pub fn unreserved_amount(&self) -> (u: u32)
        ensures
            u == if self.state.amount >= self.state.reserved { self.state.amount - self.state.reserved } else { 0 },
    {
        self.state.amount.saturating_sub(self.state.reserved)
    }

    /// Sets the amount in the pool, leaving the reservations.
    pub fn set_amount(&mut self, amount: u32)
        ensures
            final(self).state == (ResourceState { amount, reserved: old(self).state.reserved }),
            final(self).allocations == old(self).allocations,
            old(self).balanced() ==> final(self).balanced(),
    {
        self.state.amount = amount;
    }

    /// Refreshes the reservation of `owner` at tick `now`, if there is one.
    pub fn refresh(&mut self, owner: u64, now: u32) -> (h: Option<AllocationHandle>)
        requires
            old(self).wf(),
            now as int + TIMEOUT + 1 <= u32::MAX,
        ensures
            final(self).wf(),
            final(self).state == old(self).state,
            h is Some <==> old(self)@.contains_key(owner),
            h matches Some(handle) ==> handle.owner == owner,
            old(self)@.contains_key(owner) ==> final(self)@ == old(self)@.insert(owner,
                Expiring::<Allocation<AD>, TIMEOUT>::new_spec(old(self)@[owner].inner, now)),
            !old(self)@.contains_key(owner) ==> final(self)@ == old(self)@,
            amount_sum(final(self).allocations.entries()) == amount_sum(old(self).allocations.entries()),
            old(self).balanced() ==> final(self).balanced(),
    {
        let h = self.allocations.refresh(owner, now);
        proof {
            self.lemma_sum_same_amounts(old(self).allocations.entries(), self.allocations.entries());
            old(self).allocations.lemma_wf();
            self.allocations.lemma_wf();
        }
        match h {
            Some(l) => Some(AllocationHandle { owner: l.key }),
            None => None,
        }
    }

    proof fn lemma_sum_same_amounts(&self, a: Seq<(u64, Expiring<Allocation<AD>, TIMEOUT>)>, b: Seq<(u64, Expiring<Allocation<AD>, TIMEOUT>)>)
        requires
            a.len() == b.len(),
            forall|i: int| 0 <= i < a.len() ==> a[i].1.inner == b[i].1.inner,
        ensures
            amount_sum(a) == amount_sum(b),
        decreases a.len(),
    {
        if a.len() > 0 {
            self.lemma_sum_same_amounts(a.drop_last(), b.drop_last());
        }
    }

    /// Reserves `amount` for `owner` at tick `now`, replacing what the owner had
    /// reserved before; the total reserved follows.
    pub fn allocate(&mut self, owner: u64, amount: u32, data: AD, now: u32)
        requires
            old(self).wf(),
            now as int + TIMEOUT + 1 <= u32::MAX,
            old(self).state.reserved >= (if old(self)@.contains_key(owner) { old(self)@[owner].inner.amount } else { 0u32 }),
            old(self).state.reserved - (if old(self)@.contains_key(owner) { old(self)@[owner].inner.amount } else { 0u32 })
                + amount <= u32::MAX,
        ensures
            final(self).wf(),
            final(self)@ == old(self)@.insert(owner,
                Expiring::<Allocation<AD>, TIMEOUT>::new_spec(Allocation { amount, data }, now)),
            final(self).state.amount == old(self).state.amount,
            final(self).state.reserved == old(self).state.reserved
                - (if old(self)@.contains_key(owner) { old(self)@[owner].inner.amount } else { 0u32 }) + amount,
            amount_sum(final(self).allocations.entries()) == amount_sum(old(self).allocations.entries())
                - (if old(self)@.contains_key(owner) { old(self)@[owner].inner.amount } else { 0u32 }) + amount,
            old(self).balanced() ==> final(self).balanced(),
    {
        let ghost before = self.allocations.entries();
        let ghost f = |e: Expiring<Allocation<AD>, TIMEOUT>| entry_amount(e);
        let ghost new_e = Expiring::<Allocation<AD>, TIMEOUT>::new_spec(Allocation { amount, data }, now);
        if let Some(other_state) = self.allocations.add(owner, Allocation { amount, data }, now) {
            self.state.reserved = self.state.reserved - other_state.amount;
            proof {
                old(self).allocations.lemma_wf();
                let i = choose|i: int| 0 <= i < before.len() && before[i].0 == owner
                    && self.allocations.entries() == before.update(i, (owner, new_e));
                assert(before.update(i, (owner, new_e)) =~= before.remove(i).insert(i, (owner, new_e)));
                lemma_seq_sum_remove(before, i, f);
                lemma_seq_sum_insert(before.remove(i), i, (owner, new_e), f);
            }
        } else {
            proof {
                lemma_seq_sum_push(before, (owner, new_e), f);
            }
        }
        self.state.reserved = self.state.reserved + amount;
    }

    /// The amount reserved by the owner of `handle` (0 where it has none).
    pub fn reserved(&self, handle: &AllocationHandle) -> (r: u32)
        requires
            self.wf(),
        ensures
            r == if self@.contains_key(handle.owner) { self@[handle.owner].inner.amount } else { 0u32 },
    {
        match self.allocations.get(handle.owner) {
            Some(a) => a.amount,
            None => 0,
        }
    }

    /// The data of the reservation of the owner of `handle`, if it has one.
    pub fn get(&self, handle: &AllocationHandle) -> (r: Option<&AD>)
        requires
            self.wf(),
        ensures
            r is Some <==> self@.contains_key(handle.owner),
            r matches Some(d) ==> *d == self@[handle.owner].inner.data,
    {
        match self.allocations.get(handle.owner) {
            Some(a) => Some(&a.data),
            None => None,
        }
    }

    /// Records that `amount` of the owner's reservation was used: it leaves the pool,
    /// the total reserved and the owner's reservation, each going no lower than 0.
    pub fn consume(&mut self, handle: &AllocationHandle, amount: u32)
        requires
            old(self).wf(),
            old(self)@.contains_key(handle.owner),
        ensures
            final(self).wf(),
            final(self).state.reserved == (if old(self).state.reserved >= amount { old(self).state.reserved - amount } else { 0 }),
            final(self).state.amount == (if old(self).state.amount >= amount { old(self).state.amount - amount } else { 0 }),
            final(self)@ == old(self)@.insert(handle.owner, Expiring {
                inner: Allocation {
                    amount: (if old(self)@[handle.owner].inner.amount >= amount {
                        old(self)@[handle.owner].inner.amount - amount
                    } else {
                        0
                    }) as u32,
                    data: old(self)@[handle.owner].inner.data,
                },
                expiration: old(self)@[handle.owner].expiration,
            }),
            amount_sum(final(self).allocations.entries()) + (if old(self)@[handle.owner].inner.amount >= amount {
                amount as nat
            } else {
                old(self)@[handle.owner].inner.amount as nat
            }) == amount_sum(old(self).allocations.entries()),
            old(self).balanced() && amount <= old(self)@[handle.owner].inner.amount ==> final(self).balanced(),
    {
        self.state.reserved = self.state.reserved.saturating_sub(amount);
        self.state.amount = self.state.amount.saturating_sub(amount);
        let ghost before = self.allocations.entries();
        let ghost f = |e: Expiring<Allocation<AD>, TIMEOUT>| entry_amount(e);
        proof {
            self.allocations.lemma_wf();
        }
        let i = self.allocations.keys.index_of(handle.owner).unwrap();
        let (k, e) = self.allocations.keys.remove_at(i);
        let Expiring { inner: Allocation { amount: reserved, data }, expiration } = e;
        let new_e = Expiring { inner: Allocation { amount: reserved.saturating_sub(amount), data }, expiration };
        let ghost new_ev = new_e;
        self.allocations.keys.insert_at(i, k, new_e);
        proof {
            lemma_seq_sum_remove(before, i as int, f);
            lemma_seq_sum_insert(before.remove(i as int), i as int, (k, new_ev), f);
            assert(self.allocations@ =~= old(self).allocations@.insert(handle.owner, new_ev));
        }
    }

    /// Ends the owner's reservation, taking its amount off the total reserved.
    pub fn release(&mut self, handle: AllocationHandle)
        requires
            old(self).wf(),
            old(self)@.contains_key(handle.owner),
            old(self).state.reserved >= old(self)@[handle.owner].inner.amount,
        ensures
            final(self).wf(),
            final(self)@ == old(self)@.remove(handle.owner),
            final(self).state.amount == old(self).state.amount,
            final(self).state.reserved == old(self).state.reserved - old(self)@[handle.owner].inner.amount,
            amount_sum(final(self).allocations.entries()) + old(self)@[handle.owner].inner.amount
                == amount_sum(old(self).allocations.entries()),
            old(self).balanced() ==> final(self).balanced(),
    {
        let ghost before = self.allocations.entries();
        let ghost f = |e: Expiring<Allocation<AD>, TIMEOUT>| entry_amount(e);
        let removed = self.allocations.remove(handle.owner);
        let a = removed.unwrap();
        self.state.reserved = self.state.reserved - a.amount;
        proof {
            old(self).allocations.lemma_wf();
            let i = choose|i: int| 0 <= i < before.len() && before[i].0 == handle.owner
                && self.allocations.entries() == before.remove(i);
            lemma_seq_sum_remove(before, i, f);
        }
    }

    /// Drops every reservation whose owner is not in `live`, or that was not
    /// refreshed in time for tick `now`, taking each one's amount off the total
    /// reserved, and reports the dropped reservations with their data.
    pub fn filter_check_at(&mut self, now: u32, live: &KeyedMap<()>) -> (errs: Vec<ExpiringEntryCheckError<AD>>)
        requires
            old(self).wf(),
            live.wf(),
            old(self).state.reserved >= amount_sum(old(self).allocations.entries()),
        ensures
            final(self).wf(),
            final(self)@ == spec_kept(old(self)@, now as nat, live@.dom()),
            final(self).state.amount == old(self).state.amount,
            final(self).state.reserved + amount_sum(old(self).allocations.entries())
                == old(self).state.reserved + amount_sum(final(self).allocations.entries()),
            errs.len() + final(self).allocations.entries().len() == old(self).allocations.entries().len(),
            old(self).balanced() ==> final(self).balanced(),
    {
        let ghost fa = |a: Allocation<AD>| a.amount as nat;
        let ghost original = self.allocations.entries();
        let mut errs = self.allocations.filter_check_summing(now, live, Ghost(fa));
        proof {
            let f = |e: Expiring<Allocation<AD>, TIMEOUT>| entry_amount(e);
            let g = |e: Expiring<Allocation<AD>, TIMEOUT>| fa(e.inner);
            lemma_seq_sum_ext(original, f, g);
            lemma_seq_sum_ext(self.allocations.entries(), f, g);
            assert(inner_sum(original, fa) == seq_sum(original, g));
            assert(inner_sum(self.allocations.entries(), fa) == seq_sum(self.allocations.entries(), g));
            assert(amount_sum(original) == seq_sum(original, f));
            assert(amount_sum(self.allocations.entries()) == seq_sum(self.allocations.entries(), f));
        }
        let ghost total = err_sum(errs@, fa);
        let ghost n_errs = errs.len();
        assert(inner_sum(original, fa) == inner_sum(self.allocations.entries(), fa) + total);
        assert(total <= amount_sum(original));
        assert(amount_sum(original) <= old(self).state.reserved);
        let mut new_errs: Vec<ExpiringEntryCheckError<AD>> = Vec::new();
        let mut dropped: u32 = 0;
        while errs.len() > 0
            invariant
                dropped + err_sum(errs@, fa) == total,
                total <= old(self).state.reserved,
                fa == (|a: Allocation<AD>| a.amount as nat),
                new_errs.len() + errs.len() == n_errs,
            decreases errs.len(),
        {
            let ghost before = errs@;
            let err = errs.pop().unwrap();
            proof {
                assert(before.drop_last() =~= errs@);
            }
            match err {
                ExpiringEntryCheckError::Key(owner, a) => {
                    dropped = dropped + a.amount;
                    new_errs.push(ExpiringEntryCheckError::Key(owner, a.data));
                },
                ExpiringEntryCheckError::Expired(owner, a) => {
                    dropped = dropped + a.amount;
                    new_errs.push(ExpiringEntryCheckError::Expired(owner, a.data));
                },
            }
        }
        proof {
            assert(dropped == total);
        }
        self.state.reserved = self.state.reserved - dropped;
        new_errs
    }
}

impl<AD> UpdateableTaskData for Allocations<AD> {
    type Update = ResourceAmount;
    type View = (Map<u64, Expiring<Allocation<AD>, TIMEOUT>>, ResourceState);

    open spec fn task_view(&self) -> (Map<u64, Expiring<Allocation<AD>, TIMEOUT>>, ResourceState) {
        (self@, self.state)
    }

    open spec fn task_wf(&self) -> bool {
        self.wf()
    }

    open spec fn spec_create(update: ResourceAmount) -> (Map<u64, Expiring<Allocation<AD>, TIMEOUT>>, ResourceState) {
        (Map::empty(), ResourceState { amount: update.0, reserved: 0 })
    }

    open spec fn spec_update(v: (Map<u64, Expiring<Allocation<AD>, TIMEOUT>>, ResourceState), update: ResourceAmount)
        -> (Map<u64, Expiring<Allocation<AD>, TIMEOUT>>, ResourceState) {
        (v.0, ResourceState { amount: update.0, reserved: v.1.reserved })
    }

    /// A pool of the given amount, with nothing reserved.
    fn create(update: ResourceAmount) -> (r: Self) {
        Self::new(update.0)
    }

    /// Sets the pool's amount.
    fn update(&mut self, update: ResourceAmount) {
        self.set_amount(update.0);
    }
}

} // verus!
