//! A map whose entries expire unless refreshed every tick: each creep that works on
//! something keeps its entry alive by refreshing it; a creep that stops (or dies)
//! drops out on the next check.
use vstd::prelude::*;
use crate::check::{Expiring, spec_live};
use crate::keyed::{KeyedMap, seq_sum, lemma_seq_sum_remove};

verus! {

/// The lifetime, in ticks, of an entry after its last refresh.
pub const TIMEOUT: u32 = 1;

/// A map from keys (creep identifiers) to values that expire.
pub struct ExpiringMap<V> {
    pub keys: KeyedMap<Expiring<V, TIMEOUT>>,
}

/// A proof that an entry was live when it was refreshed: the key to reach it by.
#[derive(PartialEq, Eq, Structural, Clone, Copy, Debug)]
pub struct LiveHandle {
    pub key: u64,
}

/// Why an entry was dropped on a check.
pub enum ExpiringEntryCheckError<V> {
    /// Its key no longer names a live object.
    Key(u64, V),
    /// It was not refreshed in time.
    Expired(u64, V),
}

/// The value carried by a check error.
pub open spec fn err_value<V>(e: ExpiringEntryCheckError<V>) -> V {
    match e {
        ExpiringEntryCheckError::Key(_, v) => v,
        ExpiringEntryCheckError::Expired(_, v) => v,
    }
}

/// The sum of `f` over the values carried by a sequence of check errors.
pub open spec fn err_sum<V>(s: Seq<ExpiringEntryCheckError<V>>, f: spec_fn(V) -> nat) -> nat
    decreases s.len(),
{
    if s.len() == 0 { 0 } else { err_sum(s.drop_last(), f) + f(err_value(s.last())) }
}

/// The sum of `f` over the inner values of a sequence of entries.
pub open spec fn inner_sum<V>(s: Seq<(u64, Expiring<V, TIMEOUT>)>, f: spec_fn(V) -> nat) -> nat {
    seq_sum(s, |e: Expiring<V, TIMEOUT>| f(e.inner))
}

/// The entries of `m` that pass a check at tick `now` against the set of live keys.
pub open spec fn spec_kept<V>(m: Map<u64, Expiring<V, TIMEOUT>>, now: nat, live: Set<u64>) -> Map<u64, Expiring<V, TIMEOUT>> {
    m.restrict(m.dom().filter(|k: u64| live.contains(k) && spec_live(m[k].expiration@ as nat, TIMEOUT as nat, now)))
}

impl<V> ExpiringMap<V> {
    /// The entries, each with its value and expiration.
    #[verifier::inline]
    pub open spec fn view(&self) -> Map<u64, Expiring<V, TIMEOUT>> {
        self.keys@
    }

    /// The stored entries, in order.
    #[verifier::inline]
    pub open spec fn entries(&self) -> Seq<(u64, Expiring<V, TIMEOUT>)> {
        self.keys.entries()
    }

    #[verifier::inline]
    pub open spec fn wf(&self) -> bool {
        self.keys.wf()
    }

    /// The facts that the well-formedness gives about entries and map.
    pub proof fn lemma_wf(&self)
        requires
            self.wf(),
        ensures
            crate::keyed::keys_distinct(self.entries()),
            forall|i: int| 0 <= i < self.entries().len() ==> #[trigger] self@.contains_key(self.entries()[i].0)
                && self@[self.entries()[i].0] == self.entries()[i].1,
            forall|k: u64| #[trigger] self@.contains_key(k) ==> exists|i: int| 0 <= i < self.entries().len()
                && self.entries()[i].0 == k,
    {
        assert(self@ == self.keys@);
        assert(self.entries() == self.keys.entries());
        self.keys.lemma_wf();
    }

    /// An empty map.
    pub fn new() -> (m: Self)
        ensures
            m.wf(),
            m@ == Map::<u64, Expiring<V, TIMEOUT>>::empty(),
            m.entries().len() == 0,
    {
        ExpiringMap { keys: KeyedMap::new() }
    }

    /// The number of entries.
    pub fn len(&self) -> (n: usize)
        ensures
            n == self.entries().len(),
    {
        self.keys.len()
    }

    /// Stores `data` under `key`, refreshed at tick `now`, giving back the value it
    /// replaces, if any.
    pub fn add(&mut self, key: u64, data: V, now: u32) -> (r: Option<V>)
        requires
            old(self).wf(),
        ensures
            final(self).wf(),
            final(self)@ == old(self)@.insert(key, Expiring::<V, TIMEOUT>::new_spec(data, now)),
            r is Some <==> old(self)@.contains_key(key),
            r matches Some(o) ==> o == old(self)@[key].inner,
            old(self)@.contains_key(key) ==> exists|i: int| 0 <= i < old(self).entries().len()
                && old(self).entries()[i].0 == key
                && final(self).entries() == old(self).entries().update(i, (key, Expiring::<V, TIMEOUT>::new_spec(data, now))),
            !old(self)@.contains_key(key) ==> final(self).entries() == old(self).entries().push(
                (key, Expiring::<V, TIMEOUT>::new_spec(data, now))),
    {
        let e = Expiring::new_at(data, now);
        match self.keys.insert(key, e) {
            Some(old_entry) => Some(old_entry.inner),
            None => None,
        }
    }

    /// Refreshes the entry under `key` at tick `now`, if there is one, and hands
    /// out a handle to it.
    pub fn refresh(&mut self, key: u64, now: u32) -> (h: Option<LiveHandle>)
        requires
            old(self).wf(),
        ensures
            final(self).wf(),
            h is Some <==> old(self)@.contains_key(key),
            h matches Some(handle) ==> handle.key == key,
            old(self)@.contains_key(key) ==> final(self)@ == old(self)@.insert(key,
                Expiring::<V, TIMEOUT>::new_spec(old(self)@[key].inner, now)),
            !old(self)@.contains_key(key) ==> final(self)@ == old(self)@,
            final(self).entries().len() == old(self).entries().len(),
            forall|i: int| 0 <= i < final(self).entries().len() ==> final(self).entries()[i].0 == old(self).entries()[i].0
                && final(self).entries()[i].1.inner == old(self).entries()[i].1.inner,
    {
        match self.keys.index_of(key) {
            Some(i) => {
                let ghost before = self.keys.entries();
                let (k, mut e) = self.keys.remove_at(i);
                e.expiration.refresh_at(now);
                self.keys.insert_at(i, k, e);
                proof {
                    old(self).keys.lemma_wf();
                    assert(old(self).keys@[key] == before[i as int].1);
                    assert(before.remove(i as int).insert(i as int, (k, e)) =~= before.update(i as int, (k, e)));
                    assert(self.keys@ =~= old(self).keys@.insert(key, e));
                }
                Some(LiveHandle { key })
            },
            None => None,
        }
    }

    /// The value under `key`, if any.
    pub fn get(&self, key: u64) -> (r: Option<&V>)
        requires
            self.wf(),
        ensures
            r is Some <==> self@.contains_key(key),
            r matches Some(v) ==> *v == self@[key].inner,
    {
        match self.keys.get(key) {
            Some(e) => Some(&e.inner),
            None => None,
        }
    }

    /// Replaces the value under `key`, keeping its expiration, where there is one.
    pub fn set(&mut self, key: u64, data: V)
        requires
            old(self).wf(),
        ensures
            final(self).wf(),
            old(self)@.contains_key(key) ==> final(self)@ == old(self)@.insert(key,
                Expiring { inner: data, expiration: old(self)@[key].expiration }),
            !old(self)@.contains_key(key) ==> final(self)@ == old(self)@,
            final(self).entries().len() == old(self).entries().len(),
            forall|i: int| 0 <= i < final(self).entries().len() ==> final(self).entries()[i].0 == old(self).entries()[i].0,
            forall|i: int| 0 <= i < final(self).entries().len() && old(self).entries()[i].0 != key
                ==> final(self).entries()[i] == old(self).entries()[i],
            forall|i: int| 0 <= i < final(self).entries().len() && old(self).entries()[i].0 == key
                ==> final(self).entries()[i].1.inner == data,
    {
        match self.keys.index_of(key) {
            Some(i) => {
                let ghost before = self.keys.entries();
                let (k, e) = self.keys.remove_at(i);
                let expiration = e.expiration;
                let ghost new_e = Expiring { inner: data, expiration };
                self.keys.insert_at(i, k, Expiring { inner: data, expiration });
                proof {
                    old(self).keys.lemma_wf();
                    assert(old(self).keys@[key] == before[i as int].1);
                    assert(before.remove(i as int).insert(i as int, (k, new_e)) =~= before.update(i as int, (k, new_e)));
                    assert(self.keys@ =~= old(self).keys@.insert(key, new_e));
                    assert forall|j: int| 0 <= j < before.len() && before[j].0 == key implies j == i by {}
                }
            },
            None => {
                proof {
                    old(self).keys.lemma_wf();
                }
            },
        }
    }

    /// Removes the entry under `key`, giving back its value, if any.
    pub fn remove(&mut self, key: u64) -> (r: Option<V>)
        requires
            old(self).wf(),
        ensures
            final(self).wf(),
            final(self)@ == old(self)@.remove(key),
            r is Some <==> old(self)@.contains_key(key),
            r matches Some(v) ==> v == old(self)@[key].inner,
            old(self)@.contains_key(key) ==> exists|i: int| 0 <= i < old(self).entries().len()
                && old(self).entries()[i].0 == key
                && final(self).entries() == old(self).entries().remove(i),
            !old(self)@.contains_key(key) ==> final(self).entries() == old(self).entries(),
    {
        match self.keys.remove(key) {
            Some(e) => Some(e.inner),
            None => None,
        }
    }

    /// The key and value of the entry at position `i`.
    pub fn entry_at(&self, i: usize) -> (r: (u64, &V))
        requires
            i < self.entries().len(),
        ensures
            r.0 == self.entries()[i as int].0,
            *r.1 == self.entries()[i as int].1.inner,
    {
        (self.keys.key_at(i), &self.keys.value_at(i).inner)
    }

    /// Drops every entry whose key is not in `live`, or that was not refreshed in
    /// time for tick `now`, and reports each dropped entry: a dead key first, an
    /// expiry otherwise.
    pub fn filter_check_at(&mut self, now: u32, live: &KeyedMap<()>) -> (errs: Vec<ExpiringEntryCheckError<V>>)
        requires
            old(self).wf(),
            live.wf(),
            forall|k: u64| #[trigger] old(self)@.contains_key(k) ==> old(self)@[k].expiration.wf(),
        ensures
            final(self).wf(),
            final(self)@ == spec_kept(old(self)@, now as nat, live@.dom()),
            errs.len() + final(self).entries().len() == old(self).entries().len(),
    {
        self.filter_check_summing(now, live, Ghost(|v: V| 0nat))
    }

    /// As `filter_check_at`, and the sum of `f` over the values dropped is what
    /// the entries lost.
    pub fn filter_check_summing(&mut self, now: u32, live: &KeyedMap<()>, Ghost(f): Ghost<spec_fn(V) -> nat>)
        -> (errs: Vec<ExpiringEntryCheckError<V>>)
        requires
            old(self).wf(),
            live.wf(),
            forall|k: u64| #[trigger] old(self)@.contains_key(k) ==> old(self)@[k].expiration.wf(),
        ensures
            final(self).wf(),
            final(self)@ == spec_kept(old(self)@, now as nat, live@.dom()),
            errs.len() + final(self).entries().len() == old(self).entries().len(),
            forall|i: int| 0 <= i < errs.len() ==> match #[trigger] errs[i] {
                ExpiringEntryCheckError::Key(k, v) => old(self)@.contains_key(k) && !live@.contains_key(k)
                    && v == old(self)@[k].inner,
                ExpiringEntryCheckError::Expired(k, v) => old(self)@.contains_key(k) && live@.contains_key(k)
                    && v == old(self)@[k].inner
                    && !spec_live(old(self)@[k].expiration@ as nat, TIMEOUT as nat, now as nat),
            },
            inner_sum(old(self).entries(), f) == inner_sum(final(self).entries(), f) + err_sum(errs@, f),
    {
        let mut errs: Vec<ExpiringEntryCheckError<V>> = Vec::new();
        let mut i: usize = 0;
        let ghost original = self.keys@;
        let ghost original_entries = self.keys.entries();
        let ghost g = |e: Expiring<V, TIMEOUT>| f(e.inner);
        proof {
            self.keys.lemma_wf();
        }
        while i < self.keys.len()
            invariant
                self.keys.wf(),
                live.wf(),
                i <= self.keys.entries().len(),
                forall|k: u64| #[trigger] original.contains_key(k) ==> original[k].expiration.wf(),
                // what is left is a sub-map of the original
                forall|k: u64| #[trigger] self.keys@.contains_key(k) ==> original.contains_key(k)
                    && self.keys@[k] == original[k],
                // the entries before position i pass the check
                forall|j: int| 0 <= j < i ==> live@.contains_key(#[trigger] self.keys.entries()[j].0)
                    && spec_live(self.keys.entries()[j].1.expiration@ as nat, TIMEOUT as nat, now as nat),
                // the entries dropped so far fail it
                forall|k: u64| #[trigger] original.contains_key(k) && !self.keys@.contains_key(k)
                    ==> !(live@.contains_key(k) && spec_live(original[k].expiration@ as nat, TIMEOUT as nat, now as nat)),
                errs.len() + self.keys.entries().len() == original_entries.len(),
                seq_sum(original_entries, g) == seq_sum(self.keys.entries(), g) + err_sum(errs@, f),
                g == (|e: Expiring<V, TIMEOUT>| f(e.inner)),
                forall|j: int| 0 <= j < errs.len() ==> match #[trigger] errs[j] {
                    ExpiringEntryCheckError::Key(k, v) => original.contains_key(k) && !live@.contains_key(k)
                        && v == original[k].inner,
                    ExpiringEntryCheckError::Expired(k, v) => original.contains_key(k) && live@.contains_key(k)
                        && v == original[k].inner
                        && !spec_live(original[k].expiration@ as nat, TIMEOUT as nat, now as nat),
                },
            decreases self.keys.entries().len() - i,
        {
            proof {
                self.keys.lemma_wf();
            }
            let key = self.keys.key_at(i);
            proof {
                assert(self.keys@.contains_key(self.keys.entries()[i as int].0));
                assert(original.contains_key(key));
            }
            let is_live = live.contains_key(key);
            let alive = self.keys.value_at(i).expiration.time_left_at(now) > 0;
            if !is_live || !alive {
                let ghost before = self.keys.entries();
                let ghost old_errs = errs@;
                let e = self.keys.remove_at(i);
                if !is_live {
                    errs.push(ExpiringEntryCheckError::Key(e.0, e.1.inner));
                } else {
                    errs.push(ExpiringEntryCheckError::Expired(e.0, e.1.inner));
                }
                proof {
                    lemma_seq_sum_remove(before, i as int, g);
                    let last = errs@.last();
                    assert(errs@.drop_last() =~= old_errs);
                    assert(err_value(last) == e.1.inner);
                    self.keys.lemma_wf();
                    assert forall|j: int| 0 <= j < i implies live@.contains_key(#[trigger] self.keys.entries()[j].0)
                        && spec_live(self.keys.entries()[j].1.expiration@ as nat, TIMEOUT as nat, now as nat) by {
                        assert(self.keys.entries()[j] == before[j]);
                    }
                }
            } else {
                i = i + 1;
            }
        }
        proof {
            self.keys.lemma_wf();
            let kept = spec_kept(original, now as nat, live@.dom());
            assert(self.keys@ =~= kept) by {
                assert forall|k: u64| self.keys@.contains_key(k) <==> kept.contains_key(k) by {
                    if self.keys@.contains_key(k) {
                        let j = choose|j: int| 0 <= j < self.keys.entries().len() && self.keys.entries()[j].0 == k;
                        assert(live@.contains_key(self.keys.entries()[j].0));
                    }
                }
            }
        }
        errs
    }
}

} // verus!
