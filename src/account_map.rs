//! A map keyed by accounts.

use crate::types::AccountId;
use vstd::prelude::*;

verus! {

/// A map from accounts to values, kept as a list of entries with distinct keys.
pub struct AccountMap<V> {
    entries: Vec<(AccountId, V)>,
    model: Ghost<Map<AccountId, V>>,
}

impl<V> View for AccountMap<V> {
    type V = Map<AccountId, V>;

    closed spec fn view(&self) -> Map<AccountId, V> {
        self.model@
    }
}

impl<V> AccountMap<V> {
    /// The entries hold distinct keys, and they are exactly the map's contents.
    pub closed spec fn wf(&self) -> bool {
        &&& forall|i: int, j: int|
            0 <= i < j < self.entries@.len() ==> self.entries@[i].0 != self.entries@[j].0
        &&& forall|i: int|
            #![trigger self.entries@[i]]
            0 <= i < self.entries@.len() ==> {
                &&& self.model@.contains_key(self.entries@[i].0)
                &&& self.model@[self.entries@[i].0] == self.entries@[i].1
            }
        &&& forall|k: AccountId|
            #[trigger] self.model@.contains_key(k) ==> exists|i: int|
                0 <= i < self.entries@.len() && self.entries@[i].0 == k
    }

    pub fn new() -> (r: AccountMap<V>)
        ensures
            r.wf(),
            r@ == Map::<AccountId, V>::empty(),
    {
        AccountMap { entries: Vec::new(), model: Ghost(Map::empty()) }
    }

    /// The position of the entry for `key`, if there is one.
    fn position(&self, key: &AccountId) -> (r: Option<usize>)
        requires
            self.wf(),
        ensures
            match r {
                Some(i) => {
                    &&& i < self.entries@.len()
                    &&& self.entries@[i as int].0 == *key
                    &&& self@.contains_key(*key)
                    &&& self@[*key] == self.entries@[i as int].1
                },
                None => !self@.contains_key(*key),
            },
    {
        let mut i: usize = 0;
        while i < self.entries.len()
            invariant
                self.wf(),
                0 <= i <= self.entries@.len(),
                forall|j: int| 0 <= j < i ==> self.entries@[j].0 != *key,
            decreases self.entries@.len() - i,
        {
            if self.entries[i].0 == *key {
                assert(self.entries@[i as int].0 == *key);
                return Some(i);
            }
            i = i + 1;
        }
        None
    }

    pub fn contains_key(&self, key: &AccountId) -> (r: bool)
        requires
            self.wf(),
        ensures
            r == self@.contains_key(*key),
    {
        self.position(key).is_some()
    }

    pub fn get(&self, key: &AccountId) -> (r: Option<&V>)
        requires
            self.wf(),
        ensures
            r == (if self@.contains_key(*key) {
                Some(&self@[*key])
            } else {
                None
            }),
    {
        match self.position(key) {
            Some(i) => Some(&self.entries[i].1),
            None => None,
        }
    }

    pub fn insert(&mut self, key: AccountId, value: V)
        requires
            old(self).wf(),
        ensures
            final(self).wf(),
            final(self)@ == old(self)@.insert(key, value),
    {
        match self.position(&key) {
            Some(i) => {
                let ghost old_entries = self.entries@;
                self.entries.set(i, (key, value));
                proof {
                    self.model@ = self.model@.insert(key, value);
                    assert forall|k: AccountId| #[trigger] self.model@.contains_key(k) implies exists|j: int|
                        0 <= j < self.entries@.len() && self.entries@[j].0 == k by {
                        if k != key {
                            let j = choose|j: int| 0 <= j < old_entries.len() && old_entries[j].0 == k;
                            assert(self.entries@[j].0 == k);
                        } else {
                            assert(self.entries@[i as int].0 == k);
                        }
                    }
                }
            },
            None => {
                let ghost old_entries = self.entries@;
                self.entries.push((key, value));
                proof {
                    self.model@ = self.model@.insert(key, value);
                    assert forall|k: AccountId| #[trigger] self.model@.contains_key(k) implies exists|j: int|
                        0 <= j < self.entries@.len() && self.entries@[j].0 == k by {
                        if k != key {
                            let j = choose|j: int| 0 <= j < old_entries.len() && old_entries[j].0 == k;
                            assert(self.entries@[j].0 == k);
                        } else {
                            assert(self.entries@[old_entries.len() as int].0 == k);
                        }
                    }
                }
            },
        }
    }

    pub fn remove(&mut self, key: &AccountId) -> (r: Option<V>)
        requires
            old(self).wf(),
        ensures
            final(self).wf(),
            final(self)@ == old(self)@.remove(*key),
            r == old(self)@.get(*key),
    {
        match self.position(key) {
            Some(i) => {
                let ghost old_entries = self.entries@;
                let (_, value) = self.entries.remove(i);
                proof {
                    assert forall|j: int| 0 <= j < self.entries@.len() implies #[trigger] self.entries@[j]
                        == (if j < i { old_entries[j] } else { old_entries[j + 1] }) by {}
                    self.model@ = self.model@.remove(*key);
                    assert forall|k: AccountId| #[trigger] self.model@.contains_key(k) implies exists|j: int|
                        0 <= j < self.entries@.len() && self.entries@[j].0 == k by {
                        let j = choose|j: int| 0 <= j < old_entries.len() && old_entries[j].0 == k;
                        if j < i {
                            assert(self.entries@[j].0 == k);
                        } else {
                            assert(self.entries@[j - 1].0 == k);
                        }
                    }
                }
                Some(value)
            },
            None => {
                proof {
                    assert(self.model@.remove(*key) =~= self.model@);
                }
                None
            },
        }
    }
}

} // verus!
