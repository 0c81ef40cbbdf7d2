//! A bounded first-in first-out queue over a fixed ring of slots.
use vstd::prelude::*;

verus! {

/// A FIFO queue holding at most `N` elements in a ring of `N` slots.
#[derive(Debug)]
pub struct CircularQueue<T, const N: usize> {
    buffer: Vec<Option<T>>,
    capacity: usize,
    head: usize,
    count: usize,
}

/// The slot that lies `i` steps after `head` in a ring of `n` slots.
pub open spec fn wrap_index(head: int, i: int, n: int) -> int {
    if head + i < n {
        head + i
    } else {
        head + i - n
    }
}

/// The `count` elements of a ring of `n` slots that start at slot `head`.
pub open spec fn ring_view<T>(buffer: Seq<Option<T>>, head: int, count: int, n: int) -> Seq<T> {
    Seq::new(count as nat, |i: int| buffer[wrap_index(head, i, n)]->0)
}

/// Filling the front slot of a ring replaces the front element of its view.
proof fn lemma_replace_front<T>(buffer: Seq<Option<T>>, head: int, count: int, n: int)
    requires
        count > 0,
        0 <= head < n,
        count <= n,
        buffer.len() == n,
    ensures
        forall|o: Option<T>|
            o is Some ==> #[trigger] ring_view(buffer.update(head, o), head, count, n)
                == ring_view(buffer, head, count, n).update(0, o->0),
{
    assert forall|o: Option<T>| o is Some implies #[trigger] ring_view(
        buffer.update(head, o),
        head,
        count,
        n,
    ) == ring_view(buffer, head, count, n).update(0, o->0) by {
        assert(ring_view(buffer.update(head, o), head, count, n) =~= ring_view(
            buffer,
            head,
            count,
            n,
        ).update(0, o->0));
    }
}

/// The slot `steps` places after `index` in a ring of `n` slots.
fn wrap_step(index: usize, steps: usize, n: usize) -> (r: usize)
    requires
        n > 0,
        index < n,
        steps <= n,
    ensures
        r == wrap_index(index as int, steps as int, n as int),
        r < n,
{
    if index < n - steps {
        index + steps
    } else {
        index - (n - steps)
    }
}

impl<T, const N: usize> View for CircularQueue<T, N> {
    type V = Seq<T>;

    /// The queued elements, front first.
    closed spec fn view(&self) -> Seq<T> {
        ring_view(self.buffer@, self.head as int, self.count as int, N as int)
    }
}

impl<T, const N: usize> CircularQueue<T, N> {
    /// The ring has `N` slots, and every queued element sits in a filled slot.
    pub closed spec fn wf(&self) -> bool {
        &&& self.buffer@.len() == N
        &&& self.capacity == N
        &&& self.count <= N
        &&& (N > 0 ==> self.head < N)
        &&& (N == 0 ==> self.head == 0)
        &&& forall|i: int|
            0 <= i < self.count ==> (#[trigger] self.buffer@[wrap_index(
                self.head as int,
                i,
                N as int,
            )]) is Some
    }

    /// Writing the free slot `tail` leaves every queued element in place.
    proof fn lemma_other_slots(&self, tail: int)
        requires
            self.wf(),
            N > 0,
            self.count < N,
            tail == wrap_index(self.head as int, self.count as int, N as int),
        ensures
            forall|i: int|
                0 <= i < self.count ==> #[trigger] wrap_index(self.head as int, i, N as int) != tail,
    {
    }

    /// An empty queue.
    pub fn new() -> (r: Self)
        ensures
            r.wf(),
            r@ == Seq::<T>::empty(),
    {
        let mut buffer: Vec<Option<T>> = Vec::with_capacity(N);
        let mut i: usize = 0;
        while i < N
            invariant
                i <= N,
                buffer@.len() == i,
            decreases N - i,
        {
            buffer.push(None);
            i += 1;
        }
        let r = CircularQueue { buffer, capacity: N, head: 0, count: 0 };
        assert(r@ =~= Seq::<T>::empty());
        r
    }

    /// The number of slots.
    pub fn capacity(&self) -> (r: usize)
        requires
            self.wf(),
        ensures
            r == N,
    {
        self.capacity
    }

    /// The number of queued elements.
    pub fn len(&self) -> (r: usize)
        requires
            self.wf(),
        ensures
            r == self@.len(),
    {
        self.count
    }

    /// Whether no element is queued.
    pub fn is_empty(&self) -> (r: bool)
        requires
            self.wf(),
        ensures
            r == (self@.len() == 0),
    {
        self.count == 0
    }

    /// Whether every slot is taken.
    pub fn is_full(&self) -> (r: bool)
        requires
            self.wf(),
        ensures
            r == (self@.len() == N),
    {
        self.count == self.capacity
    }

    /// Appends `value` at the back; hands it back when the queue is full.
    pub fn push(&mut self, value: T) -> (r: Result<(), T>)
        requires
            old(self).wf(),
        ensures
            final(self).wf(),
            old(self)@.len() == N ==> r == Err::<(), T>(value) && final(self)@ == old(self)@,
            old(self)@.len() < N ==> r is Ok && final(self)@ == old(self)@.push(value),
    {
        if self.is_full() {
            return Err(value);
        }
        let tail = wrap_step(self.head, self.count, self.capacity);
        let ghost old_view = self@;
        let ghost old_self = *self;
        self.buffer.set(tail, Some(value));
        self.count = self.count + 1;
        proof {
            old_self.lemma_other_slots(tail as int);
        }
        assert(self@ =~= old_view.push(value));
        Ok(())
    }

    /// Appends `value` at the back; when the queue is full, the front element is
    /// dropped to make room and returned.
    pub fn push_overwrite(&mut self, value: T) -> (r: Option<T>)
        requires
            old(self).wf(),
        ensures
            final(self).wf(),
            N == 0 ==> r == Some(value) && final(self)@ == old(self)@,
            N > 0 && old(self)@.len() == N ==> r == Some(old(self)@[0]) && final(self)@ == old(
                self,
            )@.drop_first().push(value),
            old(self)@.len() < N ==> r is None && final(self)@ == old(self)@.push(value),
    {
        if self.capacity == 0 {
            return Some(value);
        }
        let ghost old_view = self@;
        if self.is_full() {
            let mut slot = Some(value);
            let ghost old_self = *self;
            self.buffer.set_and_swap(self.head, &mut slot);
            self.head = wrap_step(self.head, 1, self.capacity);
            proof {
                assert forall|i: int| 0 <= i < self.count implies (#[trigger] self.buffer@[wrap_index(
                    self.head as int, i, N as int)]) is Some && self.buffer@[wrap_index(self.head as int, i, N as int)]->0
                    == old_view.drop_first().push(value)[i] by {
                    if i < self.count - 1 {
                        assert(old_self.buffer@[wrap_index(old_self.head as int, i + 1, N as int)] is Some);
                    }
                }
            }
            assert(self@ =~= old_view.drop_first().push(value));
            slot
        } else {
            let tail = wrap_step(self.head, self.count, self.capacity);
            let ghost old_self = *self;
            self.buffer.set(tail, Some(value));
            self.count = self.count + 1;
            proof {
                old_self.lemma_other_slots(tail as int);
            }
            assert(self@ =~= old_view.push(value));
            None
        }
    }

    /// Removes and returns the front element.
    pub fn pop(&mut self) -> (r: Option<T>)
        requires
            old(self).wf(),
        ensures
            final(self).wf(),
            old(self)@.len() == 0 ==> r is None && final(self)@ == old(self)@,
            old(self)@.len() > 0 ==> r == Some(old(self)@[0]) && final(self)@ == old(
                self,
            )@.drop_first(),
    {
        if self.is_empty() {
            return None;
        }
        let ghost old_view = self@;
        let mut slot: Option<T> = None;
        let ghost old_self = *self;
        self.buffer.set_and_swap(self.head, &mut slot);
        self.head = wrap_step(self.head, 1, self.capacity);
        self.count = self.count - 1;
        proof {
            assert forall|i: int| 0 <= i < self.count implies (#[trigger] self.buffer@[wrap_index(
                self.head as int, i, N as int)]) is Some && self.buffer@[wrap_index(self.head as int, i, N as int)]->0
                == old_view.drop_first()[i] by {
                assert(old_self.buffer@[wrap_index(old_self.head as int, i + 1, N as int)] is Some);
            }
        }
        assert(self@ =~= old_view.drop_first());
        slot
    }

    /// The front element, left in place.
    pub fn peek(&self) -> (r: Option<&T>)
        requires
            self.wf(),
        ensures
            self@.len() == 0 ==> r is None,
            self@.len() > 0 ==> r == Some(&self@[0]),
    {
        if self.is_empty() {
            None
        } else {
            self.buffer[self.head].as_ref()
        }
    }

    /// The front element, for changing in place.
    pub fn peek_mut(&mut self) -> (r: Option<&mut T>)
        requires
            old(self).wf(),
        ensures
            old(self)@.len() == 0 ==> r is None && final(self)@ == old(self)@,
            old(self)@.len() > 0 ==> (r matches Some(x) && *x == old(self)@[0] && final(self)@
                == old(self)@.update(0, *final(x))),
            final(self).wf(),
    {
        if self.is_empty() {
            None
        } else {
            proof {
                lemma_replace_front(self.buffer@, self.head as int, self.count as int, N as int);
                assert(self.buffer@[wrap_index(self.head as int, 0, N as int)] is Some);
            }
            self.front_slot().as_mut()
        }
    }

    /// The slot that holds the front element.
    fn front_slot(&mut self) -> (r: &mut Option<T>)
        requires
            old(self).wf(),
            old(self).count > 0,
        ensures
            *r == old(self).buffer@[old(self).head as int],
            final(self).buffer@ == old(self).buffer@.update(old(self).head as int, *final(r)),
            final(self).head == old(self).head,
            final(self).count == old(self).count,
            final(self).capacity == old(self).capacity,
    {
        &mut self.buffer[self.head]
    }

    /// Removes every element.
    pub fn clear(&mut self)
        requires
            old(self).wf(),
        ensures
            final(self).wf(),
            final(self)@ == Seq::<T>::empty(),
    {
        while self.pop().is_some()
            invariant
                self.wf(),
            decreases self@.len(),
        {
        }
    }

    /// A cursor over the elements, front to back, that leaves the queue unchanged.
    pub fn iter(&self) -> (r: Iter<'_, T, N>)
        requires
            self.wf(),
        ensures
            r.queue == self,
            r.index == 0,
    {
        Iter { queue: self, index: 0 }
    }

    /// The element `index` places behind the front, if there is one.
    pub fn get(&self, index: usize) -> (r: Option<&T>)
        requires
            self.wf(),
        ensures
            index >= self@.len() ==> r is None,
            index < self@.len() ==> r == Some(&self@[index as int]),
    {
        if index >= self.count {
            return None;
        }
        let actual_index = wrap_step(self.head, index, self.capacity);
        self.buffer[actual_index].as_ref()
    }
}

impl<T: Default, const N: usize> Default for CircularQueue<T, N> {
    fn default() -> (r: Self)
        ensures
            r.wf(),
            r@ == Seq::<T>::empty(),
    {
        Self::new()
    }
}

/// A cursor over a queue's elements, front to back.
pub struct Iter<'a, T, const N: usize> {
    pub queue: &'a CircularQueue<T, N>,
    pub index: usize,
}

impl<'a, T, const N: usize> Iter<'a, T, N> {
    /// The next element, if any is left.
    pub fn next(&mut self) -> (r: Option<&'a T>)
        requires
            old(self).queue.wf(),
        ensures
            final(self).queue == old(self).queue,
            old(self).index < old(self).queue@.len() ==> r == Some(&old(self).queue@[old(
                self,
            ).index as int]) && final(self).index == old(self).index + 1,
            old(self).index >= old(self).queue@.len() ==> r is None && final(self).index == old(
                self,
            ).index,
    {
        let queue = self.queue;
        if self.index >= queue.len() {
            return None;
        }
        let r = queue.get(self.index);
        self.index = self.index + 1;
        r
    }

    /// The number of elements left.
    pub fn len(&self) -> (r: usize)
        requires
            self.queue.wf(),
        ensures
            r == if self.index < self.queue@.len() {
                self.queue@.len() - self.index
            } else {
                0
            },
    {
        let queue_len = self.queue.len();
        queue_len.saturating_sub(self.index)
    }

    /// Lower and upper bound of the number of elements left, both exact.
    pub fn size_hint(&self) -> (r: (usize, Option<usize>))
        requires
            self.queue.wf(),
        ensures
            r.0 == if self.index < self.queue@.len() {
                self.queue@.len() - self.index
            } else {
                0
            },
            r.1 == Some(r.0),
    {
        let remaining = self.len();
        (remaining, Some(remaining))
    }
}

} // verus!
