use std::collections::vec_deque::Iter;
use std::collections::VecDeque;
use vstd::prelude::*;
use vstd::std_specs::cmp::PartialEqSpec;
use vstd::std_specs::iter::IteratorSpec;

verus! {

broadcast use vstd::std_specs::vecdeque::group_vec_dequeue_axioms;

/// A ring buffer of fixed capacity
#[derive(Eq, PartialEq, Debug)]
pub struct RingBuffer<T> {
    capacity: usize,
    data: VecDeque<T>,
}

impl<T> View for RingBuffer<T> {
    type V = Seq<T>;

    /// The items of the buffer, oldest first.
    closed spec fn view(&self) -> Seq<T> {
        self.data@
    }
}

impl<T: Clone> Clone for RingBuffer<T> {
    /// A buffer of the same capacity holding a clone of each item, in the same order.
    fn clone(&self) -> (copy: Self)
        ensures
            copy.spec_capacity() == self.spec_capacity(),
            copy@.len() == self@.len(),
            forall|i: int| 0 <= i < self@.len() ==> cloned::<T>(self@[i], #[trigger] copy@[i]),
    {
        proof {
            use_type_invariant(self);
        }
        RingBuffer { capacity: self.capacity, data: self.data.clone() }
    }
}

/// What a buffer of the given capacity holds after `value` is pushed onto `items`:
/// the front item leaves when the buffer is full, and a buffer of capacity zero keeps
/// nothing.
pub open spec fn pushed<T>(items: Seq<T>, capacity: nat, value: T) -> Seq<T> {
    if capacity == 0 {
        items
    } else if items.len() >= capacity {
        items.drop_first().push(value)
    } else {
        items.push(value)
    }
}

/// What a buffer of the given capacity holds after each of `values` is pushed in turn.
pub open spec fn pushed_all<T>(items: Seq<T>, capacity: nat, values: Seq<T>) -> Seq<T>
    decreases values.len(),
{
    if values.len() == 0 {
        items
    } else {
        pushed_all(pushed(items, capacity, values[0]), capacity, values.drop_first())
    }
}

/// The last `capacity` items of `items` (all of them when there are fewer).
pub open spec fn newest<T>(items: Seq<T>, capacity: nat) -> Seq<T> {
    if items.len() > capacity {
        items.skip(items.len() - capacity)
    } else {
        items
    }
}

/// Taking the newest items twice takes no more than taking them once:
/// the newest `capacity` items of `q + r` lie in the newest `capacity` items of `q`, then `r`.
proof fn lemma_newest_append<T>(q: Seq<T>, r: Seq<T>, capacity: nat)
    ensures
        newest(newest(q, capacity) + r, capacity) == newest(q + r, capacity),
{
    assert(newest(newest(q, capacity) + r, capacity) =~= newest(q + r, capacity));
}

/// One push onto a buffer that holds no more than its capacity keeps the newest
/// `capacity` items.
proof fn lemma_push_one_keeps_newest<T>(items: Seq<T>, capacity: nat, value: T)
    requires
        items.len() <= capacity,
    ensures
        pushed(items, capacity, value) == newest(items.push(value), capacity),
        pushed(items, capacity, value).len() <= capacity,
{
    assert(pushed(items, capacity, value) =~= newest(items.push(value), capacity));
}

/// Pushing values one after another into a buffer that holds no more than its
/// capacity leaves exactly the newest `capacity` of all the items held and pushed,
/// oldest first; a buffer of capacity zero stays empty.
pub proof fn lemma_push_keeps_newest<T>(items: Seq<T>, capacity: nat, values: Seq<T>)
    requires
        items.len() <= capacity,
    ensures
        pushed_all(items, capacity, values) == newest(items + values, capacity),
        pushed_all(items, capacity, values).len() <= capacity,
    decreases values.len(),
{
    if values.len() == 0 {
        assert(items + values =~= items);
    } else {
        let next = pushed(items, capacity, values[0]);
        lemma_push_one_keeps_newest(items, capacity, values[0]);
        lemma_push_keeps_newest(next, capacity, values.drop_first());
        lemma_newest_append(items.push(values[0]), values.drop_first(), capacity);
        assert(items + values =~= items.push(values[0]) + values.drop_first());
    }
}

impl<T> RingBuffer<T> {
    /// The capacity the buffer was made with.
    pub closed spec fn spec_capacity(&self) -> nat {
        self.capacity as nat
    }

    /// A buffer never holds more items than its capacity.
    #[verifier::type_invariant]
    spec fn within_capacity(&self) -> bool {
        self.data@.len() <= self.capacity
    }
}

impl<T: Eq + PartialEq + Clone> RingBuffer<T> {
    /// Create a new [`RingBuffer`] with given fixed capacity
    pub fn new(capacity: usize) -> (buf: RingBuffer<T>)
        ensures
            buf@ == Seq::<T>::empty(),
            buf.spec_capacity() == capacity,
    {
        Self { capacity, data: VecDeque::with_capacity(capacity) }
    }

    /// A buffer of the given capacity holding `data`, oldest first, or `None` when
    /// `data` holds more items than the capacity.
    pub fn from_parts(capacity: usize, data: VecDeque<T>) -> (buf: Option<RingBuffer<T>>)
        ensures
            buf is Some <==> data@.len() <= capacity,
            buf matches Some(b) ==> b@ == data@ && b.spec_capacity() == capacity,
    {
        if data.len() <= capacity {
            Some(Self { capacity, data })
        } else {
            None
        }
    }

    /// Push an element to the back of the `RingBuffer`, removing
    /// the front element in case the buffer is full.
    pub fn push(&mut self, value: T)
        ensures
            final(self).spec_capacity() == old(self).spec_capacity(),
            final(self)@ == pushed(old(self)@, old(self).spec_capacity(), value),
            final(self)@.len() <= final(self).spec_capacity(),
    {
        proof {
            use_type_invariant(&*self);
        }
        if self.capacity == 0 {
            return;
        }
        let mut data = VecDeque::new();
        std::mem::swap(&mut data, &mut self.data);
        if data.len() == self.capacity {
            data.pop_front();
        }
        data.push_back(value);
        self.data = data;
    }

    /// Returns the capacity the buffer was made with
    pub fn capacity(&self) -> (c: usize)
        ensures
            c == self.spec_capacity(),
    {
        self.capacity
    }

    /// Returns the current number of items in the buffer
    pub fn len(&self) -> (n: usize)
        ensures
            n == self@.len(),
            n <= self.spec_capacity(),
    {
        proof {
            use_type_invariant(self);
        }
        self.data.len()
    }

    /// Returns true if buffer is empty, false otherwise
    pub fn is_empty(&self) -> (b: bool)
        ensures
            b == (self@.len() == 0),
    {
        self.data.len() == 0
    }

    /// Removes and returns the oldest item in the buffer
    pub fn pop(&mut self) -> (item: Option<T>)
        ensures
            final(self).spec_capacity() == old(self).spec_capacity(),
            match item {
                Some(x) => {
                    &&& old(self)@.len() > 0
                    &&& x == old(self)@[0]
                    &&& final(self)@ == old(self)@.drop_first()
                },
                None => {
                    &&& old(self)@.len() == 0
                    &&& final(self)@ == old(self)@
                },
            },
    {
        proof {
            use_type_invariant(&*self);
        }
        let mut data = VecDeque::new();
        std::mem::swap(&mut data, &mut self.data);
        let item = data.pop_front();
        self.data = data;
        item
    }

    /// Returns a front-to-back iterator
    pub fn iter(&self) -> (it: Iter<'_, T>)
        ensures
            it.remaining() == self@.as_ref(),
    {
        self.data.iter()
    }

    /// Returns true if the buffer contains an element equal to the given value
    pub fn contains(&self, x: &T) -> (found: bool)
        ensures
            self@.len() == 0 ==> !found,
            T::obeys_eq_spec() ==> (found <==> exists|i: int|
                #![trigger self@[i]]
                0 <= i < self@.len() && self@[i].eq_spec(x)),
    {
        let n = self.data.len();
        let mut i: usize = 0;
        while i < n
            invariant
                n == self@.len(),
                i <= n,
                T::obeys_eq_spec() ==> forall|j: int| #![trigger self@[j]] 0 <= j < i ==> !self@[j].eq_spec(x),
            decreases n - i,
        {
            if self.data[i].eq(x) {
                return true;
            }
            i += 1;
        }
        false
    }
}

} // verus!
