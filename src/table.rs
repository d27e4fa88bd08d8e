use vstd::prelude::*;

use crate::primitives::{bytes32_eq, H256};

verus! {

/// A map from 32-byte content hashes to values, kept as parallel vectors.
pub struct HashTable<V> {
    keys: Vec<H256>,
    vals: Vec<V>,
    contents: Ghost<Map<Seq<u8>, V>>,
}

impl<V> HashTable<V> {
    /// What the table maps each key (as a byte sequence) to.
    pub closed spec fn view(&self) -> Map<Seq<u8>, V> {
        self.contents@
    }

    /// Keys are distinct, and the ghost map is exactly what the vectors hold.
    pub closed spec fn wf(&self) -> bool {
        &&& self.keys.len() == self.vals.len()
        &&& self.contents@.dom().finite()
        &&& forall|i: int, j: int|
            0 <= i < self.keys.len() && 0 <= j < self.keys.len() && i != j ==> self.keys@[i]@
                != self.keys@[j]@
        &&& forall|i: int|
            0 <= i < self.keys.len() ==> #[trigger] self.contents@.contains_key(self.keys@[i]@)
                && self.contents@[self.keys@[i]@] == self.vals@[i]
        &&& forall|k: Seq<u8>|
            #[trigger] self.contents@.contains_key(k) ==> exists|i: int|
                0 <= i < self.keys.len() && self.keys@[i]@ == k
    }

    /// The table holds finitely many entries.
    pub proof fn lemma_finite(&self)
        requires
            self.wf(),
        ensures
            self.view().dom().finite(),
    {
    }

    pub fn new() -> (t: Self)
        ensures
            t.wf(),
            t.view() == Map::<Seq<u8>, V>::empty(),
    {
        HashTable { keys: Vec::new(), vals: Vec::new(), contents: Ghost(Map::empty()) }
    }

    fn index_of(&self, k: &H256) -> (r: Option<usize>)
        requires
            self.wf(),
        ensures
            match r {
                Some(i) => i < self.keys.len() && self.keys@[i as int]@ == k@,
                None => !self.view().contains_key(k@),
            },
    {
        let mut i: usize = 0;
        while i < self.keys.len()
            invariant
                self.wf(),
                0 <= i <= self.keys.len(),
                forall|j: int| 0 <= j < i ==> self.keys@[j]@ != k@,
            decreases self.keys.len() - i,
        {
            if bytes32_eq(&self.keys[i], k) {
                return Some(i);
            }
            i = i + 1;
        }
        None
    }

    /// Whether `k` has an entry.
    pub fn contains(&self, k: &H256) -> (r: bool)
        requires
            self.wf(),
        ensures
            r == self.view().contains_key(k@),
    {
        match self.index_of(k) {
            Some(_) => true,
            None => false,
        }
    }

    /// The entry of `k`, if any.
    pub fn get(&self, k: &H256) -> (r: Option<&V>)
        requires
            self.wf(),
        ensures
            match r {
                Some(v) => self.view().contains_key(k@) && *v == self.view()[k@],
                None => !self.view().contains_key(k@),
            },
    {
        match self.index_of(k) {
            Some(i) => {
                assert(self.contents@.contains_key(self.keys@[i as int]@));
                Some(&self.vals[i])
            },
            None => None,
        }
    }

    /// Sets the entry of `k` to `v`, adding it if it is absent.
    pub fn insert(&mut self, k: H256, v: V)
        requires
            old(self).wf(),
        ensures
            final(self).wf(),
            final(self).view() == old(self).view().insert(k@, v),
    {
        match self.index_of(&k) {
            Some(i) => {
                self.vals.set(i, v);
                self.contents = Ghost(self.contents@.insert(k@, v));
                assert(self.keys@[i as int]@ == k@);
                assert forall|j: int| 0 <= j < self.keys.len() implies #[trigger] self.contents@.contains_key(
                    self.keys@[j]@,
                ) && self.contents@[self.keys@[j]@] == self.vals@[j] by {
                    if j != i {
                        assert(old(self).contents@.contains_key(old(self).keys@[j]@));
                    }
                }
                assert forall|k2: Seq<u8>| #[trigger] self.contents@.contains_key(k2) implies exists|
                    j: int,
                | 0 <= j < self.keys.len() && self.keys@[j]@ == k2 by {
                    if k2 != k@ {
                        assert(old(self).contents@.contains_key(k2));
                    } else {
                        assert(self.keys@[i as int]@ == k2);
                    }
                }
            },
            None => {
                let ghost n = self.keys.len() as int;
                self.keys.push(k);
                self.vals.push(v);
                self.contents = Ghost(self.contents@.insert(k@, v));
                assert(self.keys@[n]@ == k@);
                assert forall|j: int| 0 <= j < n implies self.keys@[j]@ != k@ by {
                    assert(old(self).contents@.contains_key(old(self).keys@[j]@));
                }
                assert forall|j: int| 0 <= j < self.keys.len() implies #[trigger] self.contents@.contains_key(
                    self.keys@[j]@,
                ) && self.contents@[self.keys@[j]@] == self.vals@[j] by {
                    if j < n {
                        assert(old(self).contents@.contains_key(old(self).keys@[j]@));
                    }
                }
                assert forall|k2: Seq<u8>| #[trigger] self.contents@.contains_key(k2) implies exists|
                    j: int,
                | 0 <= j < self.keys.len() && self.keys@[j]@ == k2 by {
                    if k2 != k@ {
                        assert(old(self).contents@.contains_key(k2));
                        let j = choose|j: int| 0 <= j < n && old(self).keys@[j]@ == k2;
                        assert(self.keys@[j]@ == k2);
                    }
                }
            },
        }
    }

    /// Removes the entry of `k`, if any.
    pub fn remove(&mut self, k: &H256)
        requires
            old(self).wf(),
        ensures
            final(self).wf(),
            final(self).view() == old(self).view().remove(k@),
    {
        match self.index_of(k) {
            Some(i) => {
                let ghost n = self.keys.len() as int;
                let ghost ok = old(self).keys@;
                let ghost ov = old(self).vals@;
                self.keys.remove(i);
                self.vals.remove(i);
                self.contents = Ghost(self.contents@.remove(k@));
                assert forall|j: int| 0 <= j < self.keys.len() implies #[trigger] self.contents@.contains_key(
                    self.keys@[j]@,
                ) && self.contents@[self.keys@[j]@] == self.vals@[j] by {
                    if j < i {
                        assert(self.keys@[j] == ok[j] && self.vals@[j] == ov[j]);
                        assert(ok[j]@ != ok[i as int]@);
                    } else {
                        assert(self.keys@[j] == ok[j + 1] && self.vals@[j] == ov[j + 1]);
                        assert(ok[j + 1]@ != ok[i as int]@);
                    }
                }
                assert forall|k2: Seq<u8>| #[trigger] self.contents@.contains_key(k2) implies exists|
                    j: int,
                | 0 <= j < self.keys.len() && self.keys@[j]@ == k2 by {
                    assert(old(self).contents@.contains_key(k2));
                    let j = choose|j: int| 0 <= j < n && ok[j]@ == k2;
                    assert(j != i);
                    if j < i {
                        assert(self.keys@[j]@ == k2);
                    } else {
                        assert(self.keys@[j - 1]@ == k2);
                    }
                }
            },
            None => {
                assert(self.contents@.remove(k@) =~= self.contents@);
            },
        }
    }
}

} // verus!
