use vstd::prelude::*;

use crate::bytes::bytes_eq;

verus! {

/// A table from byte-string keys to values, each key at most once.
pub struct Table<V> {
    entries: Vec<(Vec<u8>, V)>,
}

/// The keys of a list of entries, in order.
pub open spec fn keys_of<V>(e: Seq<(Vec<u8>, V)>) -> Seq<Seq<u8>> {
    e.map_values(|p: (Vec<u8>, V)| p.0@)
}

/// The map that a list of entries stands for: each key to the value of its entry.
pub open spec fn entries_map<V: View>(e: Seq<(Vec<u8>, V)>) -> Map<Seq<u8>, V::V> {
    Map::new(|k: Seq<u8>| keys_of(e).contains(k), |k: Seq<u8>| e[keys_of(e).index_of(k)].1@)
}

impl<V: View> View for Table<V> {
    type V = Map<Seq<u8>, V::V>;

    closed spec fn view(&self) -> Map<Seq<u8>, V::V> {
        entries_map(self.entries@)
    }
}

/// Where the key `k` stands among entries whose keys differ.
proof fn lemma_index_of_unique<V>(e: Seq<(Vec<u8>, V)>, i: int)
    requires
        keys_of(e).no_duplicates(),
        0 <= i < e.len(),
    ensures
        keys_of(e).contains(e[i].0@),
        keys_of(e).index_of(e[i].0@) == i,
{
    let ks = keys_of(e);
    assert(ks[i] == e[i].0@);
    let j = ks.index_of(e[i].0@);
    assert(0 <= j < ks.len() && ks[j] == e[i].0@);
}

/// Changing the value of one entry changes the map at that entry's key only.
proof fn lemma_update_value<V: View>(e: Seq<(Vec<u8>, V)>, i: int, nv: V)
    requires
        keys_of(e).no_duplicates(),
        0 <= i < e.len(),
    ensures
        keys_of(e.update(i, (e[i].0, nv))) == keys_of(e),
        keys_of(e.update(i, (e[i].0, nv))).no_duplicates(),
        entries_map(e.update(i, (e[i].0, nv))) == entries_map(e).insert(e[i].0@, nv@),
{
    let e2 = e.update(i, (e[i].0, nv));
    assert(keys_of(e2) =~= keys_of(e));
    let k = e[i].0@;
    assert forall|kk: Seq<u8>| #[trigger] entries_map(e2).contains_key(kk) implies entries_map(e2)[kk]
        == entries_map(e).insert(k, nv@)[kk] by {
        let j = keys_of(e2).index_of(kk);
        assert(0 <= j < e2.len() && keys_of(e2)[j] == kk);
        lemma_index_of_unique(e2, j);
        lemma_index_of_unique(e, j);
        if j != i {
            assert(e2[j] == e[j]);
            assert(keys_of(e)[j] == kk);
            assert(keys_of(e)[i] == k);
        }
    }
    lemma_index_of_unique(e, i);
    assert(entries_map(e2) =~= entries_map(e).insert(k, nv@));
}

impl<V: View> Table<V> {
    /// Keys differ from one entry to the next.
    pub closed spec fn well_formed(&self) -> bool {
        keys_of(self.entries@).no_duplicates()
    }

    /// The map has finitely many keys, as many as the table has entries.
    pub proof fn lemma_finite(&self)
        requires
            self.well_formed(),
        ensures
            self@.dom().finite(),
    {
        let ks = keys_of(self.entries@);
        assert(self@.dom() =~= ks.to_set());
        ks.unique_seq_to_set();
    }

    /// An empty table.
    pub fn new() -> (r: Table<V>)
        ensures
            r.well_formed(),
            r@ == Map::<Seq<u8>, V::V>::empty(),
    {
        let r = Table { entries: Vec::new() };
        assert(r@ =~= Map::<Seq<u8>, V::V>::empty());
        r
    }

    /// The number of keys.
    pub fn len(&self) -> (r: usize)
        requires
            self.well_formed(),
        ensures
            r == self@.dom().len(),
            self@.dom().finite(),
    {
        let ks = Ghost(keys_of(self.entries@));
        proof {
            assert(self@.dom() =~= ks@.to_set());
            ks@.unique_seq_to_set();
        }
        self.entries.len()
    }

    /// The index of the entry for `key`, if there is one.
    fn find(&self, key: &[u8]) -> (r: Option<usize>)
        requires
            self.well_formed(),
        ensures
            match r {
                Some(i) => i < self.entries@.len() && self.entries@[i as int].0@ == key@
                    && self@.contains_key(key@) && self@[key@] == self.entries@[i as int].1@,
                None => !self@.contains_key(key@),
            },
    {
        let mut i: usize = 0;
        while i < self.entries.len()
            invariant
                self.well_formed(),
                i <= self.entries@.len(),
                forall|j: int| 0 <= j < i ==> self.entries@[j].0@ != key@,
            decreases self.entries@.len() - i,
        {
            if bytes_eq(self.entries[i].0.as_slice(), key) {
                proof {
                    lemma_index_of_unique(self.entries@, i as int);
                }
                return Some(i);
            }
            i = i + 1;
        }
        proof {
            if keys_of(self.entries@).contains(key@) {
                let j = keys_of(self.entries@).index_of(key@);
                assert(self.entries@[j].0@ == key@);
            }
        }
        None
    }

    /// The value stored under `key`.
    pub fn get(&self, key: &[u8]) -> (r: Option<&V>)
        requires
            self.well_formed(),
        ensures
            match r {
                Some(v) => self@.contains_key(key@) && v@ == self@[key@],
                None => !self@.contains_key(key@),
            },
    {
        match self.find(key) {
            Some(i) => Some(&self.entries[i].1),
            None => None,
        }
    }

    /// The value stored under `key`, to change in place.
    pub fn get_mut(&mut self, key: &[u8]) -> (r: Option<&mut V>)
        requires
            old(self).well_formed(),
        ensures
            match r {
                Some(v) => old(self)@.contains_key(key@) && (*v)@ == old(self)@[key@]
                    && final(self)@ == old(self)@.insert(key@, (*final(v))@) && final(self).well_formed(),
                None => !old(self)@.contains_key(key@) && final(self)@ == old(self)@ && final(self).well_formed(),
            },
    {
        match self.find(key) {
            Some(i) => {
                proof {
                    let e = self.entries@;
                    assert forall|p: (Vec<u8>, V)| p.0 == e[i as int].0 implies entries_map(#[trigger] e.update(i as int, p))
                        == entries_map(e).insert(key@, p.1@) && keys_of(e.update(i as int, p)).no_duplicates() by {
                        lemma_update_value(e, i as int, p.1);
                        assert(p == (e[i as int].0, p.1));
                    }
                }
                let entry = &mut self.entries[i];
                Some(&mut entry.1)
            },
            None => None,
        }
    }

    /// Whether a value is stored under `key`.
    pub fn contains_key(&self, key: &[u8]) -> (r: bool)
        requires
            self.well_formed(),
        ensures
            r == self@.contains_key(key@),
    {
        self.find(key).is_some()
    }

    /// Stores `v` under `key`, in place of any value stored there.
    pub fn insert(&mut self, key: Vec<u8>, v: V)
        requires
            old(self).well_formed(),
        ensures
            final(self).well_formed(),
            final(self)@ == old(self)@.insert(key@, v@),
    {
        let ghost k = key@;
        let ghost val = v@;
        let ghost e = self.entries@;
        match self.find(key.as_slice()) {
            Some(i) => {
                self.entries.set(i, (key, v));
                proof {
                    let e2 = self.entries@;
                    assert(keys_of(e).no_duplicates());
                    assert(e2 == e.update(i as int, e2[i as int]));
                    assert(e2[i as int].0@ == k && e2[i as int].1@ == val);
                    assert(keys_of(e2) =~= keys_of(e));
                    assert forall|kk: Seq<u8>| #[trigger] entries_map(e2).contains_key(kk) implies entries_map(e2)[kk] == entries_map(e).insert(k, val)[kk] by {
                        let j = keys_of(e2).index_of(kk);
                        assert(0 <= j < e2.len() && keys_of(e2)[j] == kk);
                        lemma_index_of_unique(e2, j);
                        lemma_index_of_unique(e, j);
                        if j != i {
                            assert(e2[j] == e[j]);
                            assert(keys_of(e)[j] == kk);
                            assert(keys_of(e)[i as int] == k);
                            assert(kk != k);
                        }
                    }
                    assert(entries_map(e2) =~= entries_map(e).insert(k, val));
                }
            },
            None => {
                self.entries.push((key, v));
                proof {
                    let e2 = self.entries@;
                    assert(keys_of(e).no_duplicates());
                    assert(e2[e.len() as int].0@ == k && e2[e.len() as int].1@ == val);
                    assert(!keys_of(e).contains(k));
                    assert forall|kk: Seq<u8>| #[trigger] entries_map(e).insert(k, val).contains_key(kk) implies entries_map(e2).contains_key(kk) by {
                        if kk != k {
                            let j = keys_of(e).index_of(kk);
                            assert(keys_of(e2)[j] == kk);
                        } else {
                            assert(keys_of(e2)[e.len() as int] == kk);
                        }
                    }
                    assert(keys_of(e2) =~= keys_of(e).push(k));
                    assert forall|kk: Seq<u8>| #[trigger] entries_map(e2).contains_key(kk) implies entries_map(e2)[kk] == entries_map(e).insert(k, val)[kk] by {
                        let j = keys_of(e2).index_of(kk);
                        assert(0 <= j < e2.len() && keys_of(e2)[j] == kk);
                        lemma_index_of_unique(e2, j);
                        if j < e.len() {
                            lemma_index_of_unique(e, j);
                            assert(e2[j] == e[j]);
                            assert(kk != k);
                        }
                    }
                    assert(entries_map(e2) =~= entries_map(e).insert(k, val));
                }
            },
        }
    }

    /// Takes out the value stored under `key`, if any.
    pub fn remove(&mut self, key: &[u8]) -> (r: Option<V>)
        requires
            old(self).well_formed(),
        ensures
            final(self).well_formed(),
            final(self)@ == old(self)@.remove(key@),
            match r {
                Some(v) => old(self)@.contains_key(key@) && v@ == old(self)@[key@],
                None => !old(self)@.contains_key(key@),
            },
    {
        let ghost e = self.entries@;
        match self.find(key) {
            Some(i) => {
                let (_, v) = self.entries.remove(i);
                proof {
                    let e2 = self.entries@;
                    assert(keys_of(e).no_duplicates());
                    assert(e2 == e.remove(i as int));
                    assert(keys_of(e)[i as int] == key@);
                    assert(keys_of(e2) =~= keys_of(e).remove(i as int));
                    assert forall|kk: Seq<u8>| #[trigger] entries_map(e2).contains_key(kk) implies entries_map(e2)[kk] == entries_map(e).remove(key@)[kk] by {
                        let j = keys_of(e2).index_of(kk);
                        assert(0 <= j < e2.len() && keys_of(e2)[j] == kk);
                        lemma_index_of_unique(e2, j);
                        if j < i {
                            lemma_index_of_unique(e, j);
                            assert(e2[j] == e[j]);
                            assert(keys_of(e)[j] != keys_of(e)[i as int]);
                        } else {
                            lemma_index_of_unique(e, j + 1);
                            assert(e2[j] == e[j + 1]);
                            assert(keys_of(e)[j + 1] != keys_of(e)[i as int]);
                        }
                    }
                    assert forall|kk: Seq<u8>| #[trigger] entries_map(e).remove(key@).contains_key(kk) implies entries_map(e2).contains_key(kk) by {
                        let j = keys_of(e).index_of(kk);
                        assert(0 <= j < e.len() && keys_of(e)[j] == kk);
                        assert(j != i);
                        if j < i {
                            assert(keys_of(e2)[j] == kk);
                        } else {
                            assert(keys_of(e2)[j - 1] == kk);
                        }
                    }
                    assert(entries_map(e2) =~= entries_map(e).remove(key@));
                }
                Some(v)
            },
            None => {
                assert(self@ =~= old(self)@.remove(key@));
                None
            },
        }
    }

    /// Removes every key.
    pub fn clear(&mut self)
        ensures
            final(self).well_formed(),
            final(self)@ == Map::<Seq<u8>, V::V>::empty(),
    {
        self.entries = Vec::new();
        assert(self@ =~= Map::<Seq<u8>, V::V>::empty());
    }
}

} // verus!
