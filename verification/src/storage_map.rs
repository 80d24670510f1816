//! A keyed storage region: a persistent mapping from account identifier
//! to a stored value, modelled as a finite map.  At most one entry exists
//! per identifier at any time.

use vstd::prelude::*;
use crate::types::AccountId;

verus! {

/// The map denoted by a sequence of key/value entries; a later entry for
/// the same key takes precedence.
pub open spec fn map_of<V: View>(s: Seq<(AccountId, V)>) -> Map<AccountId, V::V>
    decreases s.len(),
{
    if s.len() == 0 {
        Map::empty()
    } else {
        map_of(s.drop_last()).insert(s.last().0, s.last().1@)
    }
}

/// No two entries share a key.
pub open spec fn distinct_keys<V>(s: Seq<(AccountId, V)>) -> bool {
    forall|i: int, j: int| 0 <= i < j < s.len() ==> s[i].0 != s[j].0
}

/// A key is in the denoted map exactly when some entry carries it.
proof fn lemma_map_of_contains<V: View>(s: Seq<(AccountId, V)>, k: AccountId)
    ensures
        map_of(s).contains_key(k) <==> exists|i: int| 0 <= i < s.len() && s[i].0 == k,
    decreases s.len(),
{
    if s.len() > 0 {
        lemma_map_of_contains(s.drop_last(), k);
        if s.last().0 == k {
            assert(s[s.len() - 1].0 == k);
        } else if exists|i: int| 0 <= i < s.len() && s[i].0 == k {
            let i = choose|i: int| 0 <= i < s.len() && s[i].0 == k;
            assert(s.drop_last()[i].0 == k);
        }
    }
}

/// With distinct keys, the denoted map sends each entry's key to that
/// entry's value.
proof fn lemma_map_of_get<V: View>(s: Seq<(AccountId, V)>, i: int)
    requires
        distinct_keys(s),
        0 <= i < s.len(),
    ensures
        map_of(s).contains_key(s[i].0),
        map_of(s)[s[i].0] == s[i].1@,
    decreases s.len(),
{
    if i < s.len() - 1 {
        assert(distinct_keys(s.drop_last()));
        assert(s.drop_last()[i] == s[i]);
        lemma_map_of_get(s.drop_last(), i);
        assert(s.last().0 != s[i].0);
    }
}

/// With distinct keys, the denoted map has one domain element per entry.
proof fn lemma_map_of_dom_len<V: View>(s: Seq<(AccountId, V)>)
    requires
        distinct_keys(s),
    ensures
        map_of(s).dom().finite(),
        map_of(s).dom().len() == s.len(),
    decreases s.len(),
{
    if s.len() == 0 {
        assert(map_of(s).dom() =~= Set::<AccountId>::empty());
    } else {
        assert(distinct_keys(s.drop_last()));
        lemma_map_of_dom_len(s.drop_last());
        lemma_map_of_contains(s.drop_last(), s.last().0);
        assert(forall|i: int| 0 <= i < s.len() - 1 ==> s.drop_last()[i].0 != s.last().0);
        assert(!map_of(s.drop_last()).contains_key(s.last().0));
        assert(map_of(s).dom() =~= map_of(s.drop_last()).dom().insert(s.last().0));
    }
}

/// With distinct keys, removing the entry at index `i` removes exactly its
/// key from the denoted map.
proof fn lemma_map_of_remove<V: View>(s: Seq<(AccountId, V)>, i: int)
    requires
        distinct_keys(s),
        0 <= i < s.len(),
    ensures
        map_of(s.remove(i)) == map_of(s).remove(s[i].0),
    decreases s.len(),
{
    let k = s[i].0;
    if i == s.len() - 1 {
        assert(s.remove(i) =~= s.drop_last());
        lemma_map_of_contains(s.drop_last(), k);
        assert(forall|j: int| 0 <= j < s.len() - 1 ==> s.drop_last()[j].0 != k);
        assert(!map_of(s.drop_last()).contains_key(k));
        assert(map_of(s.drop_last()).insert(k, s.last().1@).remove(k) =~= map_of(s.drop_last()));
    } else {
        let t = s.remove(i);
        assert(distinct_keys(s.drop_last()));
        assert(s.drop_last()[i] == s[i]);
        lemma_map_of_remove(s.drop_last(), i);
        assert(t.drop_last() =~= s.drop_last().remove(i));
        assert(t.last() == s.last());
        assert(s.last().0 != k);
        assert(map_of(s.drop_last()).remove(k).insert(s.last().0, s.last().1@) =~= map_of(
            s.drop_last(),
        ).insert(s.last().0, s.last().1@).remove(k));
    }
}

/// A keyed storage region.  Entries are held with distinct keys, so the
/// region denotes the finite map given by its view.
pub struct StorageMap<V> {
    entries: Vec<(AccountId, V)>,
}

impl<V: View> View for StorageMap<V> {
    type V = Map<AccountId, V::V>;

    closed spec fn view(&self) -> Map<AccountId, V::V> {
        map_of(self.entries@)
    }
}

impl<V: View> StorageMap<V> {
    /// At most one entry per key.
    pub closed spec fn wf(&self) -> bool {
        distinct_keys(self.entries@)
    }

    /// An empty region.
    pub fn new() -> (r: Self)
        ensures
            r.wf(),
            r@ == Map::<AccountId, V::V>::empty(),
    {
        let r = StorageMap { entries: Vec::new() };
        proof {
            assert(r@ =~= Map::<AccountId, V::V>::empty());
        }
        r
    }

    /// Number of stored entries.
    pub fn len(&self) -> (r: usize)
        requires
            self.wf(),
        ensures
            self@.dom().finite(),
            r == self@.dom().len(),
    {
        proof {
            lemma_map_of_dom_len(self.entries@);
        }
        self.entries.len()
    }

    /// Index of the entry carrying `key`, if any.
    fn find(&self, key: AccountId) -> (r: Option<usize>)
        ensures
            match r {
                Some(i) => i < self.entries@.len() && self.entries@[i as int].0 == key,
                None => forall|j: int| 0 <= j < self.entries@.len() ==> self.entries@[j].0 != key,
            },
    {
        let mut i: usize = 0;
        while i < self.entries.len()
            invariant
                i <= self.entries@.len(),
                forall|j: int| 0 <= j < i ==> self.entries@[j].0 != key,
            decreases self.entries@.len() - i,
        {
            if self.entries[i].0 == key {
                return Some(i);
            }
            i = i + 1;
        }
        None
    }

    /// Whether an entry exists for `key`.
    pub fn contains_key(&self, key: AccountId) -> (r: bool)
        ensures
            r == self@.contains_key(key),
    {
        proof {
            lemma_map_of_contains(self.entries@, key);
        }
        match self.find(key) {
            Some(_) => true,
            None => false,
        }
    }

    /// The value stored under `key`, if any.
    pub fn get(&self, key: AccountId) -> (r: Option<&V>)
        requires
            self.wf(),
        ensures
            match r {
                Some(v) => self@.contains_key(key) && v@ == self@[key],
                None => !self@.contains_key(key),
            },
    {
        proof {
            lemma_map_of_contains(self.entries@, key);
        }
        match self.find(key) {
            Some(i) => {
                proof {
                    lemma_map_of_get(self.entries@, i as int);
                }
                Some(&self.entries[i].1)
            },
            None => None,
        }
    }

    /// Store `value` under `key`, replacing any earlier entry for it.
    pub fn insert(&mut self, key: AccountId, value: V)
        requires
            old(self).wf(),
        ensures
            final(self).wf(),
            final(self)@ == old(self)@.insert(key, value@),
    {
        proof {
            lemma_map_of_contains(self.entries@, key);
        }
        match self.find(key) {
            Some(i) => {
                let ghost s0 = self.entries@;
                proof {
                    lemma_map_of_remove(s0, i as int);
                }
                self.entries.remove(i);
                self.entries.push((key, value));
                proof {
                    assert(self.entries@.drop_last() =~= s0.remove(i as int));
                    assert(self.entries@.last() == (key, value));
                    assert(map_of(self.entries@) == map_of(s0.remove(i as int)).insert(
                        key,
                        value@,
                    ));
                    assert(map_of(s0).remove(key).insert(key, value@) =~= map_of(s0).insert(
                        key,
                        value@,
                    ));
                    assert forall|a: int, b: int|
                        0 <= a < b < self.entries@.len() implies self.entries@[a].0
                        != self.entries@[b].0 by {
                        if b < self.entries@.len() - 1 {
                            assert(self.entries@[a] == s0.remove(i as int)[a]);
                            assert(self.entries@[b] == s0.remove(i as int)[b]);
                        } else {
                            assert(self.entries@[b].0 == key);
                            assert(self.entries@[a] == s0.remove(i as int)[a]);
                            if a < i {
                                assert(s0.remove(i as int)[a] == s0[a]);
                                assert(s0[a].0 != s0[i as int].0);
                            } else {
                                assert(s0.remove(i as int)[a] == s0[a + 1]);
                                assert(s0[i as int].0 != s0[a + 1].0);
                            }
                        }
                    }
                }
            },
            None => {
                let ghost s0 = self.entries@;
                self.entries.push((key, value));
                proof {
                    assert(self.entries@.drop_last() =~= s0);
                    assert(self.entries@.last() == (key, value));
                    assert forall|a: int, b: int|
                        0 <= a < b < self.entries@.len() implies self.entries@[a].0
                        != self.entries@[b].0 by {
                        assert(self.entries@[a] == s0[a]);
                        if b < self.entries@.len() - 1 {
                            assert(self.entries@[b] == s0[b]);
                        }
                    }
                }
            },
        }
    }

    /// Take the entry for `key` out of the region, returning its value:
    /// a destructive read.
    pub fn take(&mut self, key: AccountId) -> (r: Option<V>)
        requires
            old(self).wf(),
        ensures
            final(self).wf(),
            final(self)@ == old(self)@.remove(key),
            match r {
                Some(v) => old(self)@.contains_key(key) && v@ == old(self)@[key],
                None => !old(self)@.contains_key(key),
            },
    {
        proof {
            lemma_map_of_contains(self.entries@, key);
        }
        match self.find(key) {
            Some(i) => {
                let ghost s0 = self.entries@;
                proof {
                    lemma_map_of_get(s0, i as int);
                    lemma_map_of_remove(s0, i as int);
                }
                let (_, v) = self.entries.remove(i);
                proof {
                    assert forall|a: int, b: int|
                        0 <= a < b < self.entries@.len() implies self.entries@[a].0
                        != self.entries@[b].0 by {
                        let sa: int = if a < i { a } else { a + 1 };
                        let sb: int = if b < i { b } else { b + 1 };
                        assert(self.entries@[a] == s0[sa]);
                        assert(self.entries@[b] == s0[sb]);
                    }
                }
                Some(v)
            },
            None => {
                proof {
                    assert(self@.remove(key) =~= self@);
                }
                None
            },
        }
    }

    /// A snapshot of the keys currently present, each exactly once.
    pub fn keys(&self) -> (r: Vec<AccountId>)
        requires
            self.wf(),
        ensures
            r@.no_duplicates(),
            forall|k: AccountId| r@.contains(k) <==> self@.contains_key(k),
            self@.dom().finite(),
            r@.len() == self@.dom().len(),
    {
        let mut r: Vec<AccountId> = Vec::new();
        let mut i: usize = 0;
        while i < self.entries.len()
            invariant
                i <= self.entries@.len(),
                r@.len() == i,
                forall|j: int| 0 <= j < i ==> r@[j] == self.entries@[j].0,
            decreases self.entries@.len() - i,
        {
            let k = self.entries[i].0;
            r.push(k);
            i = i + 1;
        }
        proof {
            lemma_map_of_dom_len(self.entries@);
            assert forall|k: AccountId| r@.contains(k) <==> self@.contains_key(k) by {
                lemma_map_of_contains(self.entries@, k);
                if r@.contains(k) {
                    let j = choose|j: int| 0 <= j < r@.len() && r@[j] == k;
                    assert(self.entries@[j].0 == k);
                }
                if exists|j: int| 0 <= j < self.entries@.len() && self.entries@[j].0 == k {
                    let j = choose|j: int|
                        0 <= j < self.entries@.len() && self.entries@[j].0 == k;
                    assert(r@[j] == k);
                }
            }
        }
        r
    }
}

} // verus!
