//! A bounded FIFO queue over fixed circular storage.
//!
//! [`InnerQueue`] is the queue proper: a ring of `capacity` optional slots,
//! a write cursor, a read cursor, and an occupancy count.  Its contracts
//! describe every operation against the queue's abstract content, a
//! sequence of the stored elements from oldest to newest: a successful
//! `enq` appends at the back, `deq` removes at the front, and a full queue
//! rejects new elements without blocking.

use std::sync::Arc;
use vstd::prelude::*;
use vstd::rwlock::RwLock;
use vstd::rwlock::RwLockPredicate;

verus! {

/// The one recoverable failure: an `enq` against a queue whose every slot
/// is occupied.  The rejected value stays with the caller.
#[derive(Debug, PartialEq, Eq, Structural)]
pub enum Error {
    WouldBlock,
}

/// A bounded FIFO queue: `capacity` slots used as a ring, a write cursor
/// where the next element will be stored, a read cursor where the oldest
/// element sits, and the occupancy count `size`.
///
/// Abstractly the queue is the sequence of its occupied slots read in ring
/// order from the read cursor: element `0` of the view is the next element
/// `deq` returns, the last element is the most recently enqueued.
pub struct InnerQueue<T> {
    capacity: usize,
    data: Vec<Option<T>>,
    size: usize,
    write_cursor: usize,
    read_cursor: usize,
}

impl<T> InnerQueue<T> {
    /// The fixed number of slots, chosen at construction.
    pub closed spec fn cap(self) -> usize {
        self.capacity
    }

    /// Reduces an index in `[0, 2 * capacity)` into the ring.
    spec fn wrap(self, j: int) -> int {
        if j < self.capacity {
            j
        } else {
            j - self.capacity
        }
    }

    /// The slot holding the `i`-th element of the queue, counted from the
    /// read cursor; meaningful for `0 <= i <= capacity`.
    spec fn slot_of(self, i: int) -> int {
        self.wrap(self.read_cursor + i)
    }

    /// How far slot `k` lies ahead of the read cursor in ring order: the
    /// inverse of `slot_of` on `[0, capacity)`.
    spec fn depth_of(self, k: int) -> int {
        if k >= self.read_cursor {
            k - self.read_cursor
        } else {
            k + self.capacity - self.read_cursor
        }
    }

    /// Well-formedness: the cursors lie inside the ring, the occupancy
    /// count never exceeds the capacity, the write cursor sits `size`
    /// slots past the read cursor, and a slot is occupied exactly when it
    /// lies within the first `size` slots from the read cursor.
    pub closed spec fn wf(self) -> bool {
        &&& self.capacity >= 1
        &&& self.data@.len() == self.capacity
        &&& self.size <= self.capacity
        &&& self.read_cursor < self.capacity
        &&& self.write_cursor < self.capacity
        &&& self.write_cursor == self.slot_of(self.size as int)
        &&& forall|k: int|
            0 <= k < self.capacity ==> ((#[trigger] self.data@[k]) is Some <==> self.depth_of(k)
                < self.size)
    }
}

impl<T> View for InnerQueue<T> {
    type V = Seq<T>;

    /// The queue's content, oldest first.
    closed spec fn view(&self) -> Seq<T> {
        Seq::new(self.size as nat, |i: int| self.data@[self.slot_of(i)]->0)
    }
}

impl<T> InnerQueue<T> {
    /// A queue with the default capacity of 1024 slots, initially empty.
    pub fn new() -> (r: InnerQueue<T>)
        ensures
            r.wf(),
            r.cap() == 1024,
            r@ == Seq::<T>::empty(),
    {
        InnerQueue::with_capacity(1024)
    }

    /// An empty queue of exactly `capacity` slots, both cursors at slot 0.
    pub fn with_capacity(capacity: usize) -> (r: InnerQueue<T>)
        requires
            capacity >= 1,
        ensures
            r.wf(),
            r.cap() == capacity,
            r@ == Seq::<T>::empty(),
    {
        let mut data: Vec<Option<T>> = Vec::with_capacity(capacity);
        let mut i: usize = 0;
        while i < capacity
            invariant
                i <= capacity,
                data@.len() == i,
                forall|k: int| 0 <= k < i ==> (#[trigger] data@[k]) is None,
            decreases capacity - i,
        {
            data.push(None);
            i = i + 1;
        }
        let r = InnerQueue { capacity, data, size: 0, write_cursor: 0, read_cursor: 0 };
        proof {
            assert(r@ =~= Seq::<T>::empty());
        }
        r
    }

    /// Appends `elem` at the back of the queue, or rejects it with
    /// [`Error::WouldBlock`] when every slot is occupied.  Never blocks:
    /// fullness is a result value, left to the caller to retry or drop.
    pub fn enq(&mut self, elem: T) -> (r: Result<(), Error>)
        requires
            old(self).wf(),
        ensures
            final(self).wf(),
            final(self).cap() == old(self).cap(),
            old(self)@.len() < old(self).cap() ==> r == Ok::<(), Error>(()) && final(self)@
                == old(self)@.push(elem),
            old(self)@.len() == old(self).cap() ==> r == Err::<(), Error>(Error::WouldBlock)
                && final(self)@ == old(self)@,
    {
        proof {
            assert(old(self).depth_of(old(self).write_cursor as int) == if old(self).size
                < old(self).capacity {
                old(self).size as int
            } else {
                0int
            });
        }
        if self.data[self.write_cursor].is_some() {
            return Err(Error::WouldBlock);
        }
        let ghost pre = *self;
        self.data[self.write_cursor] = Some(elem);
        self.write_cursor = advance_cursor(self.write_cursor, self.capacity);
        self.size = self.size + 1;
        proof {
            assert forall|k: int| 0 <= k < self.capacity implies ((#[trigger] self.data@[k])
                is Some <==> self.depth_of(k) < self.size) by {
                assert(self.depth_of(k) == pre.depth_of(k));
                if k != pre.write_cursor {
                    assert(self.data@[k] == pre.data@[k]);
                    assert(pre.depth_of(k) != pre.size);
                }
            }
            assert(self@ =~= pre@.push(elem)) by {
                assert forall|i: int| 0 <= i < pre.size implies self.data@[#[trigger] self.slot_of(
                    i,
                )] == pre.data@[pre.slot_of(i)] by {
                    assert(self.slot_of(i) == pre.slot_of(i));
                    assert(pre.depth_of(pre.slot_of(i)) == i);
                }
                assert(self.slot_of(pre.size as int) == pre.write_cursor);
            }
        }
        Ok(())
    }

    /// Removes and returns the oldest element.  The caller must know the
    /// queue is non-empty; a shared handle reaches this only after
    /// observing a non-zero occupancy.
    pub fn deq(&mut self) -> (r: T)
        requires
            old(self).wf(),
            old(self)@.len() > 0,
        ensures
            final(self).wf(),
            final(self).cap() == old(self).cap(),
            r == old(self)@[0],
            final(self)@ == old(self)@.drop_first(),
    {
        proof {
            assert(old(self).depth_of(old(self).read_cursor as int) == 0);
        }
        let ghost pre = *self;
        let taken = self.data[self.read_cursor].take();
        let elem = taken.unwrap();
        self.read_cursor = advance_cursor(self.read_cursor, self.capacity);
        self.size = self.size - 1;
        proof {
            assert(elem == pre@[0]);
            assert(self.write_cursor == self.slot_of(self.size as int));
            assert forall|k: int| 0 <= k < self.capacity implies ((#[trigger] self.data@[k])
                is Some <==> self.depth_of(k) < self.size) by {
                if k == pre.read_cursor {
                    assert(self.depth_of(k) == self.capacity - 1);
                } else {
                    assert(pre.depth_of(k) != 0);
                    assert(self.depth_of(k) == pre.depth_of(k) - 1);
                    assert(self.data@[k] == pre.data@[k]);
                }
            }
            assert(self@ =~= pre@.drop_first()) by {
                assert forall|i: int| 0 <= i < self.size implies self.data@[#[trigger] self.slot_of(
                    i,
                )] == pre.data@[pre.slot_of(i + 1)] by {
                    assert(self.slot_of(i) == pre.slot_of(i + 1));
                    assert(pre.depth_of(pre.slot_of(i + 1)) == i + 1);
                }
            }
        }
        elem
    }

    /// The number of elements currently stored: the occupancy count.
    pub fn len(&self) -> (r: usize)
        requires
            self.wf(),
        ensures
            r == self@.len(),
    {
        self.size
    }
}

/// The invariant a shared queue's lock maintains: between any two
/// operations the inner queue is well formed and its capacity is the one
/// fixed at construction.  Because occupancy never exceeds capacity in any
/// well-formed queue, every state a handle can observe keeps the occupancy
/// count within `[0, capacity]`.
pub struct CapacityPred {
    pub capacity: usize,
}

impl<T> RwLockPredicate<InnerQueue<T>> for CapacityPred {
    open spec fn inv(self, q: InnerQueue<T>) -> bool {
        q.wf() && q.cap() == self.capacity
    }
}

/// A cloneable handle to one shared queue instance.  Many handles may
/// reference the same instance; a lock serializes their operations while
/// the handles themselves are free values.  Cloning a handle shares
/// identity, it never copies storage.
pub struct Queue<T> {
    inner: Arc<RwLock<InnerQueue<T>, CapacityPred>>,
}

impl<T> Queue<T> {
    /// The fixed capacity of the shared instance this handle references.
    pub closed spec fn cap(self) -> usize {
        (*self.inner).pred().capacity
    }

    /// A handle to a fresh, empty queue of exactly `capacity` slots.
    pub fn with_capacity(capacity: usize) -> (r: Queue<T>)
        requires
            capacity >= 1,
        ensures
            r.cap() == capacity,
    {
        let inner = InnerQueue::with_capacity(capacity);
        let lock = RwLock::new(inner, Ghost(CapacityPred { capacity }));
        Queue { inner: Arc::new(lock) }
    }

    /// A handle to a fresh, empty queue with the default capacity of 1024.
    pub fn new() -> (r: Queue<T>)
        ensures
            r.cap() == 1024,
    {
        Queue::with_capacity(1024)
    }

    /// Appends `elem` at the back of the shared queue, or reports
    /// [`Error::WouldBlock`] when the queue is full at the moment the lock
    /// is held.  Never blocks on a full queue: fullness is a result value.
    pub fn enq(&mut self, elem: T) -> (r: Result<(), Error>)
        ensures
            final(self).cap() == old(self).cap(),
    {
        let (mut q, handle) = self.inner.acquire_write();
        let r = q.enq(elem);
        handle.release_write(q);
        r
    }

    /// Removes and returns the oldest element if the queue holds one at
    /// the moment the lock is held, and `None` when it is empty.  A
    /// consumer that must not return empty-handed re-checks in a loop:
    /// an element another handle enqueues later can only be seen by asking
    /// again.
    pub fn try_deq(&mut self) -> (r: Option<T>)
        ensures
            final(self).cap() == old(self).cap(),
    {
        let (mut q, handle) = self.inner.acquire_write();
        if q.len() > 0 {
            let v = q.deq();
            handle.release_write(q);
            Some(v)
        } else {
            handle.release_write(q);
            None
        }
    }
}

impl<T> Clone for Queue<T> {
    /// A second handle to the same underlying queue instance: the clone
    /// observes the elements enqueued through any other handle.
    fn clone(&self) -> (r: Queue<T>)
        ensures
            r.cap() == self.cap(),
    {
        Queue { inner: self.inner.clone() }
    }
}

/// Capacity bound: the occupancy of a well-formed queue always lies in
/// `[0, capacity]`.  Together with `enq`'s contract --- an enqueue against
/// a queue already holding `capacity` elements returns `Err(WouldBlock)`
/// and changes nothing --- an enqueue can never succeed beyond capacity.
pub proof fn lemma_occupancy_bounded<T>(q: InnerQueue<T>)
    requires
        q.wf(),
    ensures
        0 <= q@.len() <= q.cap(),
{
}

/// Conservation on the producer side: a successful enqueue adds exactly
/// the given element to the queue's contents, taken as a multiset.
/// Nothing already queued is lost and nothing is duplicated.
pub proof fn lemma_enq_adds_exactly_one<T>(pre: Seq<T>, elem: T)
    ensures
        pre.push(elem).to_multiset() == pre.to_multiset().insert(elem),
{
    pre.to_multiset_ensures();
}

/// Conservation on the consumer side: a dequeue removes exactly the
/// element it returns.  The contents before the call, taken as a
/// multiset, are the contents after it plus the returned element, so over
/// any run the values dequeued are exactly the values whose enqueue
/// succeeded, less those still stored.
pub proof fn lemma_deq_removes_exactly_one<T>(pre: Seq<T>)
    requires
        pre.len() > 0,
    ensures
        pre.to_multiset() == pre.drop_first().to_multiset().insert(pre.first()),
{
    broadcast use vstd::multiset::group_multiset_axioms;

    pre.to_multiset_ensures();
    assert(pre.drop_first() =~= pre.remove(0));
    assert(pre.contains(pre[0]));
    assert(pre.to_multiset() =~= pre.remove(0).to_multiset().insert(pre.first()));
}

/// First-in first-out order for a single producer and a single consumer:
/// when the queue holds exactly `enqueued.subrange(k, enqueued.len())` ---
/// the values enqueued so far, in arrival order, less the `k` oldest ---
/// a further successful enqueue extends that window on the right, and a
/// dequeue returns `enqueued[k]`, the oldest value still stored, shrinking
/// the window on the left.  By induction over a run, the `k`-th dequeue
/// returns the `k`-th successfully enqueued value.
pub proof fn lemma_fifo_order<T>(enqueued: Seq<T>, k: int, elem: T)
    requires
        0 <= k <= enqueued.len(),
    ensures
        enqueued.subrange(k, enqueued.len() as int).push(elem) == enqueued.push(elem).subrange(
            k,
            enqueued.len() as int + 1,
        ),
        k < enqueued.len() ==> enqueued.subrange(k, enqueued.len() as int).first() == enqueued[k],
        k < enqueued.len() ==> enqueued.subrange(k, enqueued.len() as int).drop_first()
            == enqueued.subrange(k + 1, enqueued.len() as int),
{
    assert(enqueued.subrange(k, enqueued.len() as int).push(elem) =~= enqueued.push(
        elem,
    ).subrange(k, enqueued.len() as int + 1));
    if k < enqueued.len() {
        assert(enqueued.subrange(k, enqueued.len() as int).drop_first() =~= enqueued.subrange(
            k + 1,
            enqueued.len() as int,
        ));
    }
}

/// The slot one past `cursor` in ring order: the successor index modulo
/// `capacity`.
fn advance_cursor(cursor: usize, capacity: usize) -> (r: usize)
    requires
        capacity >= 1,
        cursor < capacity,
    ensures
        cursor + 1 < capacity ==> r == cursor + 1,
        cursor + 1 == capacity ==> r == 0,
{
    proof {
        if cursor + 1 < capacity {
            vstd::arithmetic::div_mod::lemma_small_mod((cursor + 1) as nat, capacity as nat);
        } else {
            vstd::arithmetic::div_mod::lemma_mod_self_0(capacity as int);
        }
    }
    (cursor + 1) % capacity
}

} // verus!
