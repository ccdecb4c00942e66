//! A map from integer identifiers (of creeps, tasks and other game objects) to
//! values, kept as a vector of entries with distinct keys. It is what the
//! coordination structures store their entries in.
use vstd::prelude::*;

verus! {

/// The sum of `f` over the values of a sequence of entries.
pub open spec fn seq_sum<V>(s: Seq<(u64, V)>, f: spec_fn(V) -> nat) -> nat
    decreases s.len(),
{
    if s.len() == 0 {
        0
    } else {
        seq_sum(s.drop_last(), f) + f(s.last().1)
    }
}

/// The sum over a concatenation is the sum of the sums.
pub proof fn lemma_seq_sum_concat<V>(a: Seq<(u64, V)>, b: Seq<(u64, V)>, f: spec_fn(V) -> nat)
    ensures
        seq_sum(a + b, f) == seq_sum(a, f) + seq_sum(b, f),
    decreases b.len(),
{
    if b.len() == 0 {
        assert(a + b =~= a);
    } else {
        lemma_seq_sum_concat(a, b.drop_last(), f);
        assert((a + b).drop_last() =~= a + b.drop_last());
    }
}

/// Removing an entry takes its value out of the sum.
pub proof fn lemma_seq_sum_remove<V>(s: Seq<(u64, V)>, i: int, f: spec_fn(V) -> nat)
    requires
        0 <= i < s.len(),
    ensures
        seq_sum(s.remove(i), f) + f(s[i].1) == seq_sum(s, f),
{
    let a = s.take(i);
    let b = s.skip(i + 1);
    assert(s.remove(i) =~= a + b);
    assert(s =~= a + seq![s[i]] + b);
    lemma_seq_sum_concat(a, b, f);
    lemma_seq_sum_concat(a + seq![s[i]], b, f);
    lemma_seq_sum_concat(a, seq![s[i]], f);
    lemma_seq_sum_single(s[i], f);
}

/// Inserting an entry adds its value to the sum.
pub proof fn lemma_seq_sum_insert<V>(s: Seq<(u64, V)>, i: int, x: (u64, V), f: spec_fn(V) -> nat)
    requires
        0 <= i <= s.len(),
    ensures
        seq_sum(s.insert(i, x), f) == seq_sum(s, f) + f(x.1),
{
    let a = s.take(i);
    let b = s.skip(i);
    assert(s.insert(i, x) =~= a + seq![x] + b);
    assert(s =~= a + b);
    lemma_seq_sum_concat(a, b, f);
    lemma_seq_sum_concat(a + seq![x], b, f);
    lemma_seq_sum_concat(a, seq![x], f);
    lemma_seq_sum_single(x, f);
}

/// The sum over one entry is its value.
pub proof fn lemma_seq_sum_single<V>(x: (u64, V), f: spec_fn(V) -> nat)
    ensures
        seq_sum(seq![x], f) == f(x.1),
{
    reveal_with_fuel(seq_sum, 2);
    assert(seq![x].drop_last() =~= Seq::<(u64, V)>::empty());
    assert(seq![x].last() == x);
}

/// Appending an entry adds its value to the sum.
pub proof fn lemma_seq_sum_push<V>(s: Seq<(u64, V)>, x: (u64, V), f: spec_fn(V) -> nat)
    ensures
        seq_sum(s.push(x), f) == seq_sum(s, f) + f(x.1),
{
    assert(s.push(x).drop_last() =~= s);
}

/// Replacing the value of an entry replaces its term in the sum.
pub proof fn lemma_seq_sum_update<V>(s: Seq<(u64, V)>, i: int, x: (u64, V), f: spec_fn(V) -> nat)
    requires
        0 <= i < s.len(),
    ensures
        seq_sum(s.update(i, x), f) + f(s[i].1) == seq_sum(s, f) + f(x.1),
{
    lemma_seq_sum_remove(s, i, f);
    lemma_seq_sum_insert(s.remove(i), i, x, f);
    assert(s.remove(i).insert(i, x) =~= s.update(i, x));
}

/// Each term of a sum is at most the sum.
pub proof fn lemma_seq_sum_term<V>(s: Seq<(u64, V)>, i: int, f: spec_fn(V) -> nat)
    requires
        0 <= i < s.len(),
    ensures
        f(s[i].1) <= seq_sum(s, f),
{
    lemma_seq_sum_remove(s, i, f);
}

/// Two ways of picking out the values give the same sum where they agree.
pub proof fn lemma_seq_sum_ext<V>(s: Seq<(u64, V)>, f: spec_fn(V) -> nat, g: spec_fn(V) -> nat)
    requires
        forall|i: int| 0 <= i < s.len() ==> f(s[i].1) == g(s[i].1),
    ensures
        seq_sum(s, f) == seq_sum(s, g),
    decreases s.len(),
{
    if s.len() > 0 {
        lemma_seq_sum_ext(s.drop_last(), f, g);
    }
}

/// The keys of a sequence of entries are distinct.
pub open spec fn keys_distinct<V>(s: Seq<(u64, V)>) -> bool {
    forall|i: int, j: int| 0 <= i < s.len() && 0 <= j < s.len() && i != j ==> s[i].0 != s[j].0
}

/// A map from integer keys to values.
pub struct KeyedMap<V> {
    entries: Vec<(u64, V)>,
    map: Ghost<Map<u64, V>>,
}

impl<V> KeyedMap<V> {
    /// The entries, in their stored order.
    pub closed spec fn entries(&self) -> Seq<(u64, V)> {
        self.entries@
    }

    /// The map that the entries stand for.
    pub closed spec fn view(&self) -> Map<u64, V> {
        self.map@
    }

    /// The entries have distinct keys and stand for exactly the map.
    pub closed spec fn wf(&self) -> bool {
        &&& keys_distinct(self.entries@)
        &&& forall|i: int| 0 <= i < self.entries@.len() ==> #[trigger] self.map@.contains_key(self.entries@[i].0)
            && self.map@[self.entries@[i].0] == self.entries@[i].1
        &&& forall|k: u64| #[trigger] self.map@.contains_key(k) ==> exists|i: int| 0 <= i < self.entries@.len()
            && self.entries@[i].0 == k
    }

    /// The facts that the well-formedness gives about entries and map.
    pub proof fn lemma_wf(&self)
        requires
            self.wf(),
        ensures
            keys_distinct(self.entries()),
            forall|i: int| 0 <= i < self.entries().len() ==> #[trigger] self@.contains_key(self.entries()[i].0)
                && self@[self.entries()[i].0] == self.entries()[i].1,
            forall|k: u64| #[trigger] self@.contains_key(k) ==> exists|i: int| 0 <= i < self.entries().len()
                && self.entries()[i].0 == k,
            self@.dom().finite(),
            self@.dom().len() == self.entries().len(),
    {
        self.lemma_dom_len();
    }

    proof fn lemma_dom_len(&self)
        requires
            self.wf(),
        ensures
            self@.dom().finite(),
            self@.dom().len() == self.entries().len(),
    {
        let keys = self.entries@.map_values(|e: (u64, V)| e.0);
        assert(keys.no_duplicates()) by {
            assert forall|i: int, j: int| 0 <= i < keys.len() && 0 <= j < keys.len() && i != j
                implies keys[i] != keys[j] by {}
        }
        assert(keys.to_set() =~= self.map@.dom()) by {
            assert forall|k: u64| keys.to_set().contains(k) <==> self.map@.dom().contains(k) by {
                if self.map@.contains_key(k) {
                    let i = choose|i: int| 0 <= i < self.entries@.len() && self.entries@[i].0 == k;
                    assert(keys[i] == k);
                }
                if keys.to_set().contains(k) {
                    let i = choose|i: int| 0 <= i < keys.len() && keys[i] == k;
                    assert(self.map@.contains_key(self.entries@[i].0));
                }
            }
        }
        keys.unique_seq_to_set();
    }

    /// An empty map.
    pub fn new() -> (m: Self)
        ensures
            m.wf(),
            m@ == Map::<u64, V>::empty(),
            m.entries().len() == 0,
    {
        KeyedMap { entries: Vec::new(), map: Ghost(Map::empty()) }
    }

    /// The number of entries.
    pub fn len(&self) -> (n: usize)
        ensures
            n == self.entries().len(),
    {
        self.entries.len()
    }

    /// The key of the entry at a position.
    pub fn key_at(&self, i: usize) -> (k: u64)
        requires
            i < self.entries().len(),
        ensures
            k == self.entries()[i as int].0,
    {
        self.entries[i].0
    }

    /// The value of the entry at a position.
    pub fn value_at(&self, i: usize) -> (v: &V)
        requires
            i < self.entries().len(),
        ensures
            *v == self.entries()[i as int].1,
    {
        &self.entries[i].1
    }

    /// The position of the entry with key `k`, if there is one.
    pub fn index_of(&self, k: u64) -> (r: Option<usize>)
        requires
            self.wf(),
        ensures
            r is None <==> !self@.contains_key(k),
            r matches Some(i) ==> i < self.entries().len() && self.entries()[i as int].0 == k,
    {
        let mut i: usize = 0;
        while i < self.entries.len()
            invariant
                self.wf(),
                i <= self.entries@.len(),
                forall|j: int| 0 <= j < i ==> self.entries@[j].0 != k,
            decreases self.entries@.len() - i,
        {
            if self.entries[i].0 == k {
                return Some(i);
            }
            i = i + 1;
        }
        proof {
            if self.map@.contains_key(k) {
                let j = choose|j: int| 0 <= j < self.entries@.len() && self.entries@[j].0 == k;
                assert(self.entries@[j].0 != k);
            }
        }
        None
    }

    /// Whether an entry with key `k` exists.
    pub fn contains_key(&self, k: u64) -> (b: bool)
        requires
            self.wf(),
        ensures
            b == self@.contains_key(k),
    {
        self.index_of(k).is_some()
    }

    /// The value stored under `k`, if any.
    pub fn get(&self, k: u64) -> (r: Option<&V>)
        requires
            self.wf(),
        ensures
            r is Some <==> self@.contains_key(k),
            r matches Some(v) ==> *v == self@[k],
    {
        match self.index_of(k) {
            Some(i) => Some(&self.entries[i].1),
            None => None,
        }
    }

    /// Takes the entry at position `i` out.
    pub fn remove_at(&mut self, i: usize) -> (e: (u64, V))
        requires
            old(self).wf(),
            i < old(self).entries().len(),
        ensures
            final(self).wf(),
            e == old(self).entries()[i as int],
            final(self).entries() == old(self).entries().remove(i as int),
            final(self)@ == old(self)@.remove(e.0),
    {
        let ghost old_entries = self.entries@;
        let e = self.entries.remove(i);
        self.map = Ghost(self.map@.remove(e.0));
        proof {
            let s = self.entries@;
            assert forall|a: int| 0 <= a < s.len() implies #[trigger] self.map@.contains_key(s[a].0)
                && self.map@[s[a].0] == s[a].1 by {
                let oa = if a < i { a } else { a + 1 };
                assert(s[a] == old_entries[oa]);
                assert(old_entries[oa].0 != old_entries[i as int].0);
            }
            assert forall|k: u64| #[trigger] self.map@.contains_key(k) implies exists|a: int| 0 <= a < s.len()
                && s[a].0 == k by {
                let j = choose|j: int| 0 <= j < old_entries.len() && old_entries[j].0 == k;
                assert(j != i);
                let a = if j < i { j } else { j - 1 };
                assert(s[a].0 == k);
            }
            assert forall|a: int, b: int| 0 <= a < s.len() && 0 <= b < s.len() && a != b implies s[a].0 != s[b].0 by {
                let oa = if a < i { a } else { a + 1 };
                let ob = if b < i { b } else { b + 1 };
                assert(s[a] == old_entries[oa] && s[b] == old_entries[ob]);
            }
        }
        e
    }

    /// Puts an entry whose key is not yet present in at position `i`.
    pub fn insert_at(&mut self, i: usize, k: u64, v: V)
        requires
            old(self).wf(),
            i <= old(self).entries().len(),
            !old(self)@.contains_key(k),
        ensures
            final(self).wf(),
            final(self).entries() == old(self).entries().insert(i as int, (k, v)),
            final(self)@ == old(self)@.insert(k, v),
    {
        let ghost old_entries = self.entries@;
        let ghost old_map = self.map@;
        self.entries.insert(i, (k, v));
        self.map = Ghost(self.map@.insert(k, v));
        proof {
            let s = self.entries@;
            assert forall|a: int| 0 <= a < old_entries.len() implies old_entries[a].0 != k by {
                assert(old_map.contains_key(old_entries[a].0));
            }
            assert forall|a: int| 0 <= a < s.len() implies #[trigger] self.map@.contains_key(s[a].0)
                && self.map@[s[a].0] == s[a].1 by {
                if a != i {
                    let oa = if a < i { a } else { a - 1 };
                    assert(s[a] == old_entries[oa]);
                    assert(old_map.contains_key(old_entries[oa].0));
                    assert(old_entries[oa].0 != k);
                }
            }
            assert forall|key: u64| #[trigger] self.map@.contains_key(key) implies exists|a: int| 0 <= a < s.len()
                && s[a].0 == key by {
                if key == k {
                    assert(s[i as int].0 == key);
                } else {
                    let j = choose|j: int| 0 <= j < old_entries.len() && old_entries[j].0 == key;
                    let a = if j < i { j } else { j + 1 };
                    assert(s[a].0 == key);
                }
            }
            assert forall|a: int, b: int| 0 <= a < s.len() && 0 <= b < s.len() && a != b implies s[a].0 != s[b].0 by {
                if a != i && b != i {
                    let oa = if a < i { a } else { a - 1 };
                    let ob = if b < i { b } else { b - 1 };
                    assert(s[a] == old_entries[oa] && s[b] == old_entries[ob]);
                } else if a == i {
                    let ob = if b < i { b } else { b - 1 };
                    assert(s[b] == old_entries[ob]);
                } else {
                    let oa = if a < i { a } else { a - 1 };
                    assert(s[a] == old_entries[oa]);
                }
            }
        }
    }

    /// Stores `v` under `k`, giving back the value it replaces, if any. An existing
    /// entry keeps its position; a new one goes last.
    pub fn insert(&mut self, k: u64, v: V) -> (r: Option<V>)
        requires
            old(self).wf(),
        ensures
            final(self).wf(),
            final(self)@ == old(self)@.insert(k, v),
            r is Some <==> old(self)@.contains_key(k),
            r matches Some(o) ==> o == old(self)@[k],
            old(self)@.contains_key(k) ==> exists|i: int| 0 <= i < old(self).entries().len()
                && old(self).entries()[i].0 == k
                && final(self).entries() == old(self).entries().update(i, (k, v)),
            !old(self)@.contains_key(k) ==> final(self).entries() == old(self).entries().push((k, v)),
    {
        match self.index_of(k) {
            Some(i) => {
                let ghost before = self.entries@;
                let e = self.remove_at(i);
                self.insert_at(i, k, v);
                proof {
                    assert(before.remove(i as int).insert(i as int, (k, v)) =~= before.update(i as int, (k, v)));
                    assert(self.map@ =~= old(self).map@.insert(k, v));
                }
                Some(e.1)
            },
            None => {
                let n = self.entries.len();
                self.insert_at(n, k, v);
                proof {
                    assert(old(self).entries@.insert(n as int, (k, v)) =~= old(self).entries@.push((k, v)));
                }
                None
            },
        }
    }

    /// Removes the entry with key `k`, giving back its value, if any.
    pub fn remove(&mut self, k: u64) -> (r: Option<V>)
        requires
            old(self).wf(),
        ensures
            final(self).wf(),
            final(self)@ == old(self)@.remove(k),
            r is Some <==> old(self)@.contains_key(k),
            r matches Some(o) ==> o == old(self)@[k],
            old(self)@.contains_key(k) ==> exists|i: int| 0 <= i < old(self).entries().len()
                && old(self).entries()[i].0 == k
                && final(self).entries() == old(self).entries().remove(i),
            !old(self)@.contains_key(k) ==> final(self).entries() == old(self).entries(),
    {
        match self.index_of(k) {
            Some(i) => {
                let e = self.remove_at(i);
                Some(e.1)
            },
            None => {
                proof {
                    assert(self.map@.remove(k) =~= self.map@);
                }
                None
            },
        }
    }

    /// Replaces the value at position `i` by `v`, giving back the old one.
    pub fn replace_at(&mut self, i: usize, v: V) -> (o: V)
        requires
            old(self).wf(),
            i < old(self).entries().len(),
        ensures
            final(self).wf(),
            o == old(self).entries()[i as int].1,
            final(self).entries() == old(self).entries().update(i as int, (old(self).entries()[i as int].0, v)),
            final(self)@ == old(self)@.insert(old(self).entries()[i as int].0, v),
    {
        let ghost before = self.entries@;
        let e = self.remove_at(i);
        self.insert_at(i, e.0, v);
        proof {
            assert(before.remove(i as int).insert(i as int, (e.0, v)) =~= before.update(i as int, (e.0, v)));
            assert(self.map@ =~= old(self).map@.insert(e.0, v));
        }
        e.1
    }
}

} // verus!
