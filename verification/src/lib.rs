//! A bounded, fixed-capacity, first-in first-out queue.
//!
//! The queue stores its elements in a circular ring of `capacity` slots,
//! addressed by a write cursor and a read cursor.  Producers append with
//! [`deque::InnerQueue::enq`], which never blocks: when every slot is
//! occupied it reports [`deque::Error::WouldBlock`] instead.  Consumers
//! remove the oldest element with [`deque::InnerQueue::deq`].  A cloneable
//! [`deque::Queue`] handle shares one queue instance between many owners
//! behind a verified lock.

pub mod deque;
