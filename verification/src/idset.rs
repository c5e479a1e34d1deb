//! Sets of numbers.
use vstd::prelude::*;

verus! {

/// A set of numbers.
#[derive(Debug)]
pub struct IdSet {
    items: Vec<u64>,
}

impl View for IdSet {
    type V = Set<u64>;

    closed spec fn view(&self) -> Set<u64> {
        self.items@.to_set()
    }
}

impl IdSet {
    /// Each number is held once.
    pub closed spec fn well_formed(&self) -> bool {
        self.items@.no_duplicates()
    }

    /// The set without numbers.
    pub fn new() -> (set: Self)
        ensures
            set.well_formed(),
            set@ == Set::<u64>::empty(),
    {
        let set = IdSet { items: Vec::new() };
        assert(set@ =~= Set::empty());
        set
    }

    fn find(&self, id: u64) -> (found: Option<usize>)
        ensures
            match found {
                Some(at) => at < self.items.len() && self.items[at as int] == id,
                None => !self@.contains(id),
            },
    {
        let mut i: usize = 0;
        while i < self.items.len()
            invariant
                i <= self.items.len(),
                forall|k: int| 0 <= k < i ==> self.items[k] != id,
            decreases self.items.len() - i,
        {
            if self.items[i] == id {
                return Some(i);
            }
            i += 1;
        }
        None
    }

    /// Whether a number is in the set.
    pub fn contains(&self, id: u64) -> (found: bool)
        ensures
            found == self@.contains(id),
    {
        match self.find(id) {
            Some(at) => {
                assert(self.items@[at as int] == id);
                true
            },
            None => false,
        }
    }

    /// Puts a number into the set; tells whether it was not in it.
    pub fn insert(&mut self, id: u64) -> (new: bool)
        requires
            old(self).well_formed(),
        ensures
            final(self).well_formed(),
            final(self)@ == old(self)@.insert(id),
            new == !old(self)@.contains(id),
    {
        if self.contains(id) {
            assert(self@ =~= self@.insert(id));
            return false;
        }
        let ghost before = self.items@;
        self.items.push(id);
        proof {
            assert(!before.contains(id)) by {
                assert(before.to_set().contains(id) <==> before.contains(id));
            }
            assert(self@ =~= before.to_set().insert(id)) by {
                assert forall|other: u64| self@.contains(other) == before.to_set().insert(
                    id,
                ).contains(other) by {
                    if before.contains(other) {
                        let k = choose|k: int| 0 <= k < before.len() && before[k] == other;
                        assert(self.items@[k] == other);
                    }
                    assert(self.items@[before.len() as int] == id);
                    if self.items@.contains(other) && other != id {
                        let k = choose|k: int|
                            0 <= k < self.items@.len() && self.items@[k] == other;
                        assert(before[k] == other);
                    }
                }
            }
        }
        true
    }

    /// Takes a number out of the set; tells whether it was in it.
    pub fn remove(&mut self, id: u64) -> (found: bool)
        requires
            old(self).well_formed(),
        ensures
            final(self).well_formed(),
            final(self)@ == old(self)@.remove(id),
            found == old(self)@.contains(id),
    {
        match self.find(id) {
            None => {
                assert(self@ =~= self@.remove(id));
                false
            },
            Some(at) => {
                let ghost before = self.items@;
                assert(before[at as int] == id);
                let _ = self.items.remove(at);
                proof {
                    let after = self.items@;
                    assert forall|i: int, j: int|
                        0 <= i < after.len() && 0 <= j < after.len() && i != j implies after[i]
                        != after[j] by {
                        let x = if i < at {
                            i
                        } else {
                            i + 1
                        };
                        let y = if j < at {
                            j
                        } else {
                            j + 1
                        };
                        assert(after[i] == before[x] && after[j] == before[y]);
                    }
                    assert forall|other: u64| self@.contains(other) == before.to_set().remove(
                        id,
                    ).contains(other) by {
                        if after.contains(other) {
                            let k = choose|k: int| 0 <= k < after.len() && after[k] == other;
                            let x = if k < at {
                                k
                            } else {
                                k + 1
                            };
                            assert(before[x] == other);
                            assert(before[x] != before[at as int]);
                        }
                        if before.contains(other) && other != id {
                            let k = choose|k: int| 0 <= k < before.len() && before[k] == other;
                            let x = if k < at {
                                k
                            } else {
                                k - 1
                            };
                            assert(after[x] == other);
                        }
                    }
                    assert(self@ =~= before.to_set().remove(id));
                }
                true
            },
        }
    }

    /// Empties the set, and tells what was in it.
    pub fn drain(&mut self) -> (ids: Vec<u64>)
        requires
            old(self).well_formed(),
        ensures
            final(self).well_formed(),
            final(self)@ == Set::<u64>::empty(),
            ids@.no_duplicates(),
            ids@.to_set() == old(self)@,
    {
        let mut ids: Vec<u64> = Vec::new();
        std::mem::swap(&mut ids, &mut self.items);
        assert(self@ =~= Set::empty());
        ids
    }
}

} // verus!
