use vstd::prelude::*;

verus! {

/// The last `n` items of `s`, or all of `s` where it holds no more than `n`.
pub open spec fn last_n<T>(s: Seq<T>, n: nat) -> Seq<T> {
    if s.len() <= n {
        s
    } else {
        s.subrange(s.len() - n, s.len() as int)
    }
}

/// The contents after one push onto contents `s` under a limit of `capacity`
/// items: the new item goes last and the oldest items make room for it.
pub open spec fn pushed<T>(s: Seq<T>, capacity: nat, value: T) -> Seq<T> {
    last_n(s.push(value), capacity)
}

/// The contents after pushing `values` one by one, first to last.
pub open spec fn pushed_all<T>(s: Seq<T>, capacity: nat, values: Seq<T>) -> Seq<T>
    decreases values.len(),
{
    if values.len() == 0 {
        s
    } else {
        pushed(pushed_all(s, capacity, values.drop_last()), capacity, values.last())
    }
}

/// However many samples are pushed, the buffer holds the tail of everything
/// that was ever in it, in arrival order and cut to the capacity. Once at least
/// `capacity` samples have been pushed, it holds exactly the last `capacity` of
/// them.
pub proof fn lemma_pushes_keep_most_recent<T>(s: Seq<T>, capacity: nat, values: Seq<T>)
    requires
        s.len() <= capacity,
    ensures
        pushed_all(s, capacity, values) == last_n(s + values, capacity),
        pushed_all(s, capacity, values).len() <= capacity,
        values.len() >= capacity ==> pushed_all(s, capacity, values) == values.subrange(
            values.len() - capacity,
            values.len() as int,
        ),
    decreases values.len(),
{
    if values.len() == 0 {
        assert(s + values =~= s);
        assert(capacity == 0 ==> s =~= values.subrange(0, 0));
    } else {
        let front = values.drop_last();
        lemma_pushes_keep_most_recent(s, capacity, front);
        assert((s + front).push(values.last()) =~= s + values);
        assert(last_n(last_n(s + front, capacity).push(values.last()), capacity) =~= last_n(
            s + values,
            capacity,
        ));
        if values.len() >= capacity {
            assert(last_n(s + values, capacity) =~= values.subrange(
                values.len() - capacity,
                values.len() as int,
            ));
        }
    }
}

/// A store of the most recent samples, bounded by a capacity fixed at creation.
/// Its view is what it holds, oldest first.
pub struct SampleBuffer<T> {
    slots: Vec<T>,
    oldest: usize,
    limit: usize,
}

impl<T> View for SampleBuffer<T> {
    type V = Seq<T>;

    closed spec fn view(&self) -> Seq<T> {
        self.slots@.subrange(self.oldest as int, self.slots.len() as int) + self.slots@.subrange(
            0,
            self.oldest as int,
        )
    }
}

impl<T> SampleBuffer<T> {
    #[verifier::type_invariant]
    spec fn inv(self) -> bool {
        &&& self.slots.len() <= self.limit
        &&& self.oldest <= self.slots.len()
        &&& self.slots.len() < self.limit ==> self.oldest == 0
        &&& self.limit > 0 ==> self.oldest < self.limit
    }

    /// The capacity that the buffer was created with.
    pub closed spec fn spec_capacity(&self) -> usize {
        self.limit
    }

    /// The most samples the buffer ever holds.
    #[verifier::when_used_as_spec(spec_capacity)]
    pub fn capacity(&self) -> (c: usize)
        ensures
            c == self.spec_capacity(),
    {
        self.limit
    }
}

impl<T: Copy> SampleBuffer<T> {
    /// An empty buffer that will hold up to `capacity` samples.
    pub fn new(capacity: usize) -> (b: Self)
        ensures
            b@ == Seq::<T>::empty(),
            b.spec_capacity() == capacity,
    {
        let b = SampleBuffer { slots: Vec::new(), oldest: 0, limit: capacity };
        assert(b@ =~= Seq::<T>::empty());
        b
    }

    /// Number of samples held; never more than the capacity.
    pub fn len(&self) -> (n: usize)
        ensures
            n == self@.len(),
            n <= self.spec_capacity(),
    {
        proof {
            use_type_invariant(self);
        }
        self.slots.len()
    }

    /// Whether the buffer holds no sample.
    pub fn is_empty(&self) -> (e: bool)
        ensures
            e == (self@.len() == 0),
    {
        proof {
            use_type_invariant(self);
        }
        self.slots.len() == 0
    }

    /// Appends one sample; at capacity the oldest sample leaves first.
    pub fn push(&mut self, value: T)
        ensures
            final(self)@ == pushed(old(self)@, old(self).spec_capacity() as nat, value),
            final(self)@.len() <= final(self).spec_capacity(),
            final(self).spec_capacity() == old(self).spec_capacity(),
    {
        proof {
            use_type_invariant(&*self);
        }
        if self.limit == 0 {
            assert(self@ =~= pushed(self@, 0, value));
        } else {
            let at: usize = self.oldest;
            let mut slots: Vec<T> = Vec::new();
            self.oldest = 0;
            std::mem::swap(&mut self.slots, &mut slots);
            let next: usize = if slots.len() < self.limit {
                slots.push(value);
                0
            } else {
                slots.set(at, value);
                if at + 1 == self.limit {
                    0
                } else {
                    at + 1
                }
            };
            self.slots = slots;
            self.oldest = next;
            assert(self@ =~= pushed(old(self)@, self.limit as nat, value));
        }
    }

    /// Replaces the contents by `values`, pushed first to last: the buffer then
    /// holds the last `capacity` of them.
    pub fn refill(&mut self, values: &Vec<T>)
        ensures
            final(self)@ == last_n(values@, old(self).spec_capacity() as nat),
            final(self).spec_capacity() == old(self).spec_capacity(),
    {
        proof {
            use_type_invariant(&*self);
        }
        let mut emptied: Vec<T> = Vec::new();
        self.oldest = 0;
        std::mem::swap(&mut self.slots, &mut emptied);
        assert(self@ =~= Seq::<T>::empty());
        let ghost capacity = self.limit as nat;
        let mut i: usize = 0;
        while i < values.len()
            invariant
                i <= values.len(),
                self.spec_capacity() == capacity,
                self@ == pushed_all(Seq::<T>::empty(), capacity, values@.take(i as int)),
            decreases values.len() - i,
        {
            assert(values@.take(i + 1).drop_last() =~= values@.take(i as int));
            self.push(values[i]);
            i = i + 1;
        }
        proof {
            assert(values@.take(values.len() as int) =~= values@);
            lemma_pushes_keep_most_recent(Seq::<T>::empty(), capacity, values@);
            assert(Seq::<T>::empty() + values@ =~= values@);
        }
    }

    /// A copy of the contents, oldest first.
    pub fn snapshot(&self) -> (v: Vec<T>)
        ensures
            v@ == self@,
            v@.len() <= self.spec_capacity(),
    {
        proof {
            use_type_invariant(self);
        }
        let n: usize = self.slots.len();
        let mut v: Vec<T> = Vec::with_capacity(n);
        let mut i: usize = self.oldest;
        while i < n
            invariant
                self.oldest <= i <= n,
                n == self.slots.len(),
                v@ == self.slots@.subrange(self.oldest as int, i as int),
            decreases n - i,
        {
            v.push(self.slots[i]);
            i = i + 1;
            assert(v@ =~= self.slots@.subrange(self.oldest as int, i as int));
        }
        let mut j: usize = 0;
        while j < self.oldest
            invariant
                j <= self.oldest <= n,
                n == self.slots.len(),
                v@ == self.slots@.subrange(self.oldest as int, n as int) + self.slots@.subrange(
                    0,
                    j as int,
                ),
            decreases self.oldest - j,
        {
            v.push(self.slots[j]);
            j = j + 1;
            assert(v@ =~= self.slots@.subrange(self.oldest as int, n as int)
                + self.slots@.subrange(0, j as int));
        }
        v
    }
}

} // verus!
