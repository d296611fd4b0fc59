use vstd::prelude::*;
use crate::principal::KeyEq;

verus! {

/// No key occurs twice among the entries.
pub open spec fn keys_distinct<K, V>(s: Seq<(K, V)>) -> bool {
    forall|i: int, j: int| 0 <= i < s.len() && 0 <= j < s.len() && i != j ==> s[i].0 != s[j].0
}

/// Some entry carries key `k`.
pub open spec fn has_key<K, V>(s: Seq<(K, V)>, k: K) -> bool {
    exists|i: int| 0 <= i < s.len() && s[i].0 == k
}

/// The map that a list of entries with distinct keys stands for.
pub open spec fn entries_map<K, V>(s: Seq<(K, V)>) -> Map<K, V> {
    Map::new(
        |k: K| has_key(s, k),
        |k: K| s[choose|i: int| 0 <= i < s.len() && s[i].0 == k].1,
    )
}

/// Entry `j` is found in the map under its key.
pub proof fn lemma_entry_in_map<K, V>(s: Seq<(K, V)>, j: int)
    requires
        keys_distinct(s),
        0 <= j < s.len(),
    ensures
        entries_map(s).contains_key(s[j].0),
        entries_map(s)[s[j].0] == s[j].1,
{
    let k = s[j].0;
    assert(has_key(s, k));
    let c = choose|i: int| 0 <= i < s.len() && s[i].0 == k;
    assert(c == j);
}

/// The map of the entries with one entry's value replaced.
pub proof fn lemma_update_entry<K, V>(s: Seq<(K, V)>, j: int, v: V)
    requires
        keys_distinct(s),
        0 <= j < s.len(),
    ensures
        keys_distinct(s.update(j, (s[j].0, v))),
        entries_map(s.update(j, (s[j].0, v))) == entries_map(s).insert(s[j].0, v),
{
    let t = s.update(j, (s[j].0, v));
    let m = entries_map(s).insert(s[j].0, v);
    assert forall|k: K| #[trigger] entries_map(t).contains_key(k) <==> m.contains_key(k) by {
        if has_key(s, k) {
            let i = choose|i: int| 0 <= i < s.len() && s[i].0 == k;
            assert(t[i].0 == k);
        }
        if has_key(t, k) {
            let i = choose|i: int| 0 <= i < t.len() && t[i].0 == k;
            assert(s[i].0 == k);
        }
    }
    assert forall|k: K| #[trigger] entries_map(t).contains_key(k) implies entries_map(t)[k] == m[k] by {
        let i = choose|i: int| 0 <= i < t.len() && t[i].0 == k;
        lemma_entry_in_map(t, i);
        lemma_entry_in_map(s, i);
    }
    assert(entries_map(t) =~= m);
}

/// The map of the entries with a new key pushed at the end.
pub proof fn lemma_push_entry<K, V>(s: Seq<(K, V)>, k: K, v: V)
    requires
        keys_distinct(s),
        !entries_map(s).contains_key(k),
    ensures
        keys_distinct(s.push((k, v))),
        entries_map(s.push((k, v))) == entries_map(s).insert(k, v),
{
    let t = s.push((k, v));
    let m = entries_map(s).insert(k, v);
    assert forall|x: K| #[trigger] entries_map(t).contains_key(x) <==> m.contains_key(x) by {
        if has_key(s, x) {
            let i = choose|i: int| 0 <= i < s.len() && s[i].0 == x;
            assert(t[i].0 == x);
        }
        if x == k {
            assert(t[s.len() as int].0 == x);
        }
        if has_key(t, x) {
            let i = choose|i: int| 0 <= i < t.len() && t[i].0 == x;
            if i < s.len() {
                assert(s[i].0 == x);
            }
        }
    }
    assert forall|x: K| #[trigger] entries_map(t).contains_key(x) implies entries_map(t)[x] == m[x] by {
        let i = choose|i: int| 0 <= i < t.len() && t[i].0 == x;
        lemma_entry_in_map(t, i);
        if i < s.len() {
            lemma_entry_in_map(s, i);
        }
    }
    assert(entries_map(t) =~= m);
}

/// The map of the entries after the swap-removal of entry `j`.
pub proof fn lemma_swap_remove_entry<K, V>(s: Seq<(K, V)>, j: int)
    requires
        keys_distinct(s),
        0 <= j < s.len(),
    ensures
        keys_distinct(s.update(j, s.last()).drop_last()),
        entries_map(s.update(j, s.last()).drop_last()) == entries_map(s).remove(s[j].0),
{
    let t = s.update(j, s.last()).drop_last();
    let n = s.len() - 1;
    let m = entries_map(s).remove(s[j].0);
    assert forall|a: int, b: int| 0 <= a < t.len() && 0 <= b < t.len() && a != b implies t[a].0
        != t[b].0 by {
        let sa = if a == j { n } else { a };
        let sb = if b == j { n } else { b };
        assert(t[a] == s[sa]);
        assert(t[b] == s[sb]);
    }
    assert forall|x: K| #[trigger] entries_map(t).contains_key(x) <==> m.contains_key(x) by {
        if has_key(s, x) && x != s[j].0 {
            let i = choose|i: int| 0 <= i < s.len() && s[i].0 == x;
            if i == n {
                assert(t[j].0 == x);
            } else {
                assert(t[i].0 == x);
            }
        }
        if has_key(t, x) {
            let i = choose|i: int| 0 <= i < t.len() && t[i].0 == x;
            let si = if i == j { n } else { i };
            assert(s[si].0 == x);
        }
    }
    assert forall|x: K| #[trigger] entries_map(t).contains_key(x) implies entries_map(t)[x] == m[x] by {
        let i = choose|i: int| 0 <= i < t.len() && t[i].0 == x;
        let si = if i == j { n } else { i };
        assert(t[i] == s[si]);
        lemma_entry_in_map(t, i);
        lemma_entry_in_map(s, si);
    }
    assert(entries_map(t) =~= m);
}

/// The map of distinct entries has as many keys as there are entries.
pub proof fn lemma_entries_len<K, V>(s: Seq<(K, V)>)
    requires
        keys_distinct(s),
    ensures
        entries_map(s).dom().finite(),
        entries_map(s).dom().len() == s.len(),
    decreases s.len(),
{
    if s.len() == 0 {
        assert(entries_map(s).dom() =~= Set::empty());
    } else {
        let p = s.drop_last();
        assert(keys_distinct(p));
        lemma_entries_len(p);
        let last = s.last();
        assert(!entries_map(p).contains_key(last.0)) by {
            if has_key(p, last.0) {
                let i = choose|i: int| 0 <= i < p.len() && p[i].0 == last.0;
                assert(s[i].0 == s[s.len() - 1].0);
            }
        }
        lemma_push_entry(p, last.0, last.1);
        assert(p.push((last.0, last.1)) =~= s);
        assert(entries_map(s).dom() =~= entries_map(p).dom().insert(last.0));
    }
}

/// A map kept as a list of entries whose keys are distinct.
pub struct VecMap<K, V> {
    entries: Vec<(K, V)>,
}

impl<K, V> View for VecMap<K, V> {
    type V = Map<K, V>;

    closed spec fn view(&self) -> Map<K, V> {
        entries_map(self.entries@)
    }
}

impl<K: KeyEq, V> VecMap<K, V> {
    /// The entries, in their order of storage.
    pub closed spec fn spec_entries(&self) -> Seq<(K, V)> {
        self.entries@
    }

    /// No key occurs twice.
    pub closed spec fn wf(&self) -> bool {
        keys_distinct(self.entries@)
    }

    /// The entries stand for the view: each entry is in it, and each key of it comes from an entry.
    pub proof fn lemma_entries(&self)
        requires
            self.wf(),
        ensures
            forall|i: int|
                0 <= i < self.spec_entries().len() ==> #[trigger] self@.contains_key(
                    self.spec_entries()[i].0,
                ) && self@[self.spec_entries()[i].0] == self.spec_entries()[i].1,
            forall|k: K|
                #[trigger] self@.contains_key(k) ==> exists|i: int|
                    0 <= i < self.spec_entries().len() && self.spec_entries()[i].0 == k,
            self@.dom().finite(),
            self@.dom().len() == self.spec_entries().len(),
    {
        assert forall|i: int| 0 <= i < self.spec_entries().len() implies #[trigger] self@.contains_key(
            self.spec_entries()[i].0,
        ) && self@[self.spec_entries()[i].0] == self.spec_entries()[i].1 by {
            lemma_entry_in_map(self.entries@, i);
        }
        assert forall|k: K| #[trigger] self@.contains_key(k) implies exists|i: int|
            0 <= i < self.spec_entries().len() && self.spec_entries()[i].0 == k by {
            assert(entries_map(self.entries@).contains_key(k));
            assert(has_key(self.entries@, k));
            let i = choose|i: int| 0 <= i < self.entries@.len() && self.entries@[i].0 == k;
            assert(0 <= i < self.spec_entries().len() && self.spec_entries()[i].0 == k);
        }
        lemma_entries_len(self.entries@);
    }

    /// No key occurs twice among the entries.
    pub proof fn lemma_distinct(&self)
        requires
            self.wf(),
        ensures
            forall|i: int, j: int|
                0 <= i < self.spec_entries().len() && 0 <= j < self.spec_entries().len() && i != j
                    ==> self.spec_entries()[i].0 != self.spec_entries()[j].0,
    {
    }

    /// The empty map.
    pub fn new() -> (m: Self)
        ensures
            m.wf(),
            m@ == Map::<K, V>::empty(),
    {
        let m = VecMap { entries: Vec::new() };
        assert(m@ =~= Map::<K, V>::empty());
        m
    }

    /// The number of keys.
    pub fn len(&self) -> (n: usize)
        requires
            self.wf(),
        ensures
            n == self@.dom().len(),
            n == self.spec_entries().len(),
    {
        proof {
            lemma_entries_len(self.entries@);
        }
        self.entries.len()
    }

    /// Whether the map has no key.
    pub fn is_empty(&self) -> (b: bool)
        requires
            self.wf(),
        ensures
            b == (self@.dom().len() == 0),
            b == (self@ == Map::<K, V>::empty()),
    {
        proof {
            lemma_entries_len(self.entries@);
            if self.entries@.len() > 0 {
                lemma_entry_in_map(self.entries@, 0);
                assert(!Map::<K, V>::empty().contains_key(self.entries@[0].0));
            } else {
                assert(self@ =~= Map::<K, V>::empty());
            }
        }
        self.entries.len() == 0
    }

    /// The position of the entry with key `k`.
    fn find(&self, k: &K) -> (r: Option<usize>)
        requires
            self.wf(),
        ensures
            match r {
                Some(i) => i < self.entries@.len() && self.entries@[i as int].0 == *k,
                None => !self@.contains_key(*k),
            },
    {
        let mut i: usize = 0;
        while i < self.entries.len()
            invariant
                i <= self.entries@.len(),
                forall|j: int| 0 <= j < i ==> self.entries@[j].0 != *k,
            decreases self.entries@.len() - i,
        {
            if self.entries[i].0.same(k) {
                return Some(i);
            }
            i = i + 1;
        }
        None
    }

    /// Whether `k` is a key.
    pub fn contains_key(&self, k: &K) -> (b: bool)
        requires
            self.wf(),
        ensures
            b == self@.contains_key(*k),
    {
        match self.find(k) {
            Some(i) => {
                proof {
                    lemma_entry_in_map(self.entries@, i as int);
                }
                true
            },
            None => false,
        }
    }

    /// The value under `k`.
    pub fn get(&self, k: &K) -> (r: Option<&V>)
        requires
            self.wf(),
        ensures
            match r {
                Some(v) => self@.contains_key(*k) && *v == self@[*k],
                None => !self@.contains_key(*k),
            },
    {
        match self.find(k) {
            Some(i) => {
                proof {
                    lemma_entry_in_map(self.entries@, i as int);
                }
                Some(&self.entries[i].1)
            },
            None => None,
        }
    }

    /// Sets the value under `k` to `v`.
    pub fn insert(&mut self, k: K, v: V)
        requires
            old(self).wf(),
        ensures
            final(self).wf(),
            final(self)@ == old(self)@.insert(k, v),
    {
        match self.find(&k) {
            Some(i) => {
                proof {
                    lemma_update_entry(self.entries@, i as int, v);
                }
                let ghost s = self.entries@;
                self.entries.set(i, (k, v));
                assert(self.entries@ == s.update(i as int, (s[i as int].0, v)));
            },
            None => {
                proof {
                    lemma_push_entry(self.entries@, k, v);
                }
                self.entries.push((k, v));
            },
        }
    }

    /// Removes the key `k`, handing back its value.
    pub fn remove(&mut self, k: &K) -> (r: Option<V>)
        requires
            old(self).wf(),
        ensures
            final(self).wf(),
            final(self)@ == old(self)@.remove(*k),
            match r {
                Some(v) => old(self)@.contains_key(*k) && v == old(self)@[*k],
                None => !old(self)@.contains_key(*k),
            },
    {
        match self.find(k) {
            Some(i) => {
                proof {
                    lemma_entry_in_map(self.entries@, i as int);
                    lemma_swap_remove_entry(self.entries@, i as int);
                }
                let e = self.entries.swap_remove(i);
                Some(e.1)
            },
            None => {
                assert(old(self)@.remove(*k) =~= old(self)@);
                None
            },
        }
    }

    /// A mutable borrow of the value under `k`.
    pub fn get_mut(&mut self, k: &K) -> (r: Option<&mut V>)
        requires
            old(self).wf(),
        ensures
            final(self).wf(),
            match r {
                Some(v) => {
                    &&& old(self)@.contains_key(*k)
                    &&& *v == old(self)@[*k]
                    &&& final(self)@ == old(self)@.insert(*k, *final(v))
                },
                None => {
                    &&& !old(self)@.contains_key(*k)
                    &&& final(self)@ == old(self)@
                },
            },
    {
        match self.find(k) {
            Some(i) => {
                proof {
                    lemma_entry_in_map(self.entries@, i as int);
                }
                let ghost s = self.entries@;
                let e = &mut self.entries[i];
                let r = &mut e.1;
                proof {
                    lemma_update_entry(s, i as int, *final(r));
                }
                Some(r)
            },
            None => None,
        }
    }

    /// A mutable borrow of the value stored at position `i`.
    pub fn value_at_mut(&mut self, i: usize) -> (v: &mut V)
        requires
            old(self).wf(),
            i < old(self).spec_entries().len(),
        ensures
            final(self).wf(),
            *v == old(self).spec_entries()[i as int].1,
            final(self).spec_entries() == old(self).spec_entries().update(
                i as int,
                (old(self).spec_entries()[i as int].0, *final(v)),
            ),
            final(self)@ == old(self)@.insert(old(self).spec_entries()[i as int].0, *final(v)),
    {
        let ghost s = self.entries@;
        let e = &mut self.entries[i];
        let r = &mut e.1;
        proof {
            lemma_update_entry(s, i as int, *final(r));
        }
        r
    }

    /// The entry stored at position `i`.
    pub fn entry_at(&self, i: usize) -> (e: &(K, V))
        requires
            i < self.spec_entries().len(),
        ensures
            *e == self.spec_entries()[i as int],
    {
        &self.entries[i]
    }
}

} // verus!
