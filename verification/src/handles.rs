//! A table of open handles: each handle is a small number naming a value.
use vstd::prelude::*;

verus! {

/// Open handles and what each one names. Freed handle numbers are used again.
pub struct HandleTable<V> {
    slots: Vec<Option<V>>,
}

impl<V> HandleTable<V> {
    /// The handles in use and what they name.
    pub closed spec fn view(&self) -> Map<usize, V> {
        Map::new(
            |k: usize| k < self.slots@.len() && self.slots@[k as int] is Some,
            |k: usize| self.slots@[k as int]->Some_0,
        )
    }

    /// How many handle numbers have ever been in use at once.
    pub closed spec fn capacity(&self) -> nat {
        self.slots@.len()
    }

    /// A table with no handle in use.
    pub fn new() -> (t: HandleTable<V>)
        ensures
            t@ == Map::<usize, V>::empty(),
            t.capacity() == 0,
    {
        let t = HandleTable { slots: Vec::new() };
        assert(t@ =~= Map::<usize, V>::empty());
        t
    }

    /// How many handle numbers have ever been in use at once.
    pub fn slot_count(&self) -> (n: usize)
        ensures
            n == self.capacity(),
    {
        self.slots.len()
    }

    /// Whether a handle is in use.
    pub fn contains(&self, k: usize) -> (b: bool)
        ensures
            b == self@.contains_key(k),
    {
        k < self.slots.len() && self.slots[k].is_some()
    }

    /// What a handle names, if it is in use.
    pub fn get(&self, k: usize) -> (r: Option<&V>)
        ensures
            match r {
                Some(v) => self@.contains_key(k) && *v == self@[k],
                None => !self@.contains_key(k),
            },
    {
        if k < self.slots.len() {
            match &self.slots[k] {
                Some(v) => Some(v),
                None => None,
            }
        } else {
            None
        }
    }

    /// Puts a value under a handle that is not in use, and returns the handle.
    pub fn insert(&mut self, v: V) -> (k: usize)
        requires
            old(self).capacity() < usize::MAX,
        ensures
            !old(self)@.contains_key(k),
            final(self)@ == old(self)@.insert(k, v),
            final(self).capacity() <= old(self).capacity() + 1,
            (exists|j: usize| j < old(self).capacity() && !old(self)@.contains_key(j))
                ==> final(self).capacity() == old(self).capacity(),
    {
        let n = self.slots.len();
        let mut i: usize = 0;
        while i < n
            invariant
                n == self.slots.len(),
                self.slots@ == old(self).slots@,
                i <= n,
                forall|j: int| 0 <= j < i ==> self.slots@[j] is Some,
            decreases n - i,
        {
            if self.slots[i].is_none() {
                self.slots.set(i, Some(v));
                proof {
                    assert(self@ =~= old(self)@.insert(i, v));
                }
                return i;
            }
            i = i + 1;
        }
        self.slots.push(Some(v));
        proof {
            assert(self@ =~= old(self)@.insert(n, v));
            assert forall|j: usize| j < old(self).capacity() implies old(self)@.contains_key(j) by {
                assert(old(self).slots@[j as int] is Some);
            }
        }
        n
    }

    /// Every handle in use is below the capacity.
    pub proof fn lemma_below_capacity(&self)
        ensures
            forall|k: usize| self@.contains_key(k) ==> k < self.capacity(),
    {
    }

    /// Frees a handle and returns what it named; `None` if it was not in use.
    pub fn remove(&mut self, k: usize) -> (r: Option<V>)
        ensures
            match r {
                Some(v) => old(self)@.contains_key(k) && v == old(self)@[k],
                None => !old(self)@.contains_key(k),
            },
            final(self)@ == old(self)@.remove(k),
            final(self).capacity() == old(self).capacity(),
    {
        if k < self.slots.len() {
            let r = self.slots[k].take();
            proof {
                assert(self@ =~= old(self)@.remove(k));
            }
            return r;
        }
        assert(self@ =~= old(self)@.remove(k));
        None
    }
}

} // verus!
