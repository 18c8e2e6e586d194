//! A pool of copies of a value, one per user at a time: taking one hands out a copy
//! that was given back before, or a fresh clone while the pool has room.
use vstd::prelude::*;

verus! {

/// What taking from the pool gives.
pub enum Taken<T> {
    /// A copy given back before.
    Reused(T),
    /// A fresh clone of the value the pool was made with.
    Fresh(T),
    /// The pool is empty: every copy is in use.
    Empty,
}

/// Copies of `orig` for concurrent users. The stack holds a slot per copy not in use:
/// `Some` for a copy given back, `None` for one not made yet.
pub struct ThreadCtx<T> {
    orig: T,
    stack: Vec<Option<T>>,
}

impl<T: Clone> ThreadCtx<T> {
    /// The value copies are made of.
    pub closed spec fn orig(&self) -> T {
        self.orig
    }

    /// The slots of copies not in use, last given back last.
    pub closed spec fn slots(&self) -> Seq<Option<T>> {
        self.stack@
    }

    /// A pool for `size` users, none of whose copies are made yet.
    pub fn new(orig: T, size: usize) -> (c: ThreadCtx<T>)
        ensures
            c.orig() == orig,
            c.slots() == Seq::new(size as nat, |i: int| None::<T>),
    {
        let mut stack: Vec<Option<T>> = Vec::new();
        let mut i: usize = 0;
        while i < size
            invariant
                i <= size,
                stack@ == Seq::new(i as nat, |j: int| None::<T>),
            decreases size - i,
        {
            stack.push(None);
            proof {
                assert(stack@ =~= Seq::new((i + 1) as nat, |j: int| None::<T>));
            }
            i = i + 1;
        }
        ThreadCtx { orig, stack }
    }

    /// Takes a copy: the slot given back last is used; a copy in it is handed out
    /// again, an empty one gives a fresh clone of `orig`. With no slot left the
    /// pool is empty and the caller waits for a copy to be given back.
    pub fn get(&mut self) -> (t: Taken<T>)
        ensures
            final(self).orig() == old(self).orig(),
            old(self).slots().len() == 0 ==> t is Empty && final(self).slots() == old(self).slots(),
            old(self).slots().len() > 0 ==> final(self).slots() == old(self).slots().drop_last() && match old(
                self,
            ).slots().last() {
                Some(v) => t == Taken::Reused(v),
                None => t matches Taken::Fresh(c) && cloned(old(self).orig(), c),
            },
    {
        match self.stack.pop() {
            None => Taken::Empty,
            Some(Some(v)) => Taken::Reused(v),
            Some(None) => Taken::Fresh(self.orig.clone()),
        }
    }

    /// Gives a copy back to the pool.
    pub fn put(&mut self, v: T)
        ensures
            final(self).orig() == old(self).orig(),
            final(self).slots() == old(self).slots().push(Some(v)),
    {
        self.stack.push(Some(v));
    }
}

/// A value made on first use: the first successful attempt is kept, a failed one is
/// tried again next time.
pub struct Lazy<T> {
    value: Option<T>,
}

impl<T> Lazy<T> {
    /// The value, once made.
    pub closed spec fn made(&self) -> Option<T> {
        self.value
    }

    /// Nothing made yet.
    pub fn new() -> (l: Lazy<T>)
        ensures
            l.made() is None,
    {
        Lazy { value: None }
    }

    /// Whether the value still has to be made (the caller then makes an attempt).
    pub fn needs_attempt(&self) -> (b: bool)
        ensures
            b == self.made() is None,
    {
        self.value.is_none()
    }

    /// The value: the one made before, else the outcome of the caller's attempt,
    /// which is kept when it succeeded. `None` when the attempt failed.
    pub fn get_or_attempt(&mut self, attempt: Option<T>) -> (r: Option<&T>)
        ensures
            old(self).made() matches Some(v) ==> final(self).made() == Some(v) && r == Some(&v),
            old(self).made() is None ==> final(self).made() == attempt && match attempt {
                Some(v) => r == Some(&v),
                None => r is None,
            },
    {
        if self.value.is_none() {
            self.value = attempt;
        }
        match &self.value {
            Some(v) => Some(v),
            None => None,
        }
    }
}

/// Law: a pool made for `size` users (`ThreadCtx::new`) from which `held` copies were
/// taken and none given back holds `size - held` slots without copies. So while
/// `held < size` the next `get` gives a fresh clone and leaves the slots for one more
/// copy held, and once `held == size` every `get` finds the pool empty until a copy is
/// given back (where the caller waits).
pub proof fn lemma_pool_hands_out<T>(size: nat, held: nat)
    requires
        held <= size,
    ensures
        held == 0 ==> Seq::new((size - held) as nat, |i: int| None::<T>) == Seq::new(size, |i: int| None::<T>),
        held < size ==> ({
            let slots = Seq::new((size - held) as nat, |i: int| None::<T>);
            &&& slots.len() > 0
            &&& slots.last() == None::<T>
            &&& slots.drop_last() == Seq::new((size - (held + 1)) as nat, |i: int| None::<T>)
        }),
        held == size ==> Seq::new((size - held) as nat, |i: int| None::<T>).len() == 0,
{
    if held < size {
        let slots = Seq::new((size - held) as nat, |i: int| None::<T>);
        assert(slots.drop_last() =~= Seq::new((size - (held + 1)) as nat, |i: int| None::<T>));
    }
}

/// A copy given back is the next one taken.
pub proof fn lemma_put_then_get<T>(slots: Seq<Option<T>>, v: T)
    ensures
        slots.push(Some(v)).len() > 0,
        slots.push(Some(v)).last() == Some(v),
        slots.push(Some(v)).drop_last() == slots,
{
    assert(slots.push(Some(v)).drop_last() =~= slots);
}

} // verus!
