use std::collections::VecDeque;

use bounded_queue::deque::Error;
use bounded_queue::deque::InnerQueue;
use bounded_queue::deque::Queue;

enum Action {
    Enq(u64),
    Deq,
}

fn run_model(actions: Vec<Action>) {
    let mut model: VecDeque<u64> = VecDeque::new();
    let mut sut: Queue<u64> = Queue::new();

    for action in actions {
        match action {
            Action::Enq(v) => {
                model.push_back(v);
                assert!(sut.enq(v).is_ok());
            }
            Action::Deq => match model.pop_front() {
                Some(v) => {
                    assert_eq!(v, sut.try_deq().expect("model says an element is stored"));
                }
                None => continue,
            },
        }
    }
}

#[test]
fn sequential_model_check() {
    run_model(vec![
        Action::Enq(3),
        Action::Deq,
        Action::Deq,
        Action::Enq(11),
        Action::Enq(7),
        Action::Deq,
        Action::Enq(0),
        Action::Deq,
        Action::Deq,
        Action::Deq,
    ]);
    run_model(vec![
        Action::Enq(1),
        Action::Enq(2),
        Action::Enq(3),
        Action::Enq(4),
        Action::Deq,
        Action::Enq(5),
        Action::Deq,
        Action::Deq,
        Action::Enq(6),
        Action::Deq,
        Action::Deq,
        Action::Deq,
    ]);
    let mut long_run: Vec<Action> = Vec::new();
    for round in 0..200u64 {
        long_run.push(Action::Enq(round * 31 % 17));
        long_run.push(Action::Enq(round));
        long_run.push(Action::Deq);
    }
    for _ in 0..200 {
        long_run.push(Action::Deq);
    }
    run_model(long_run);
}

#[test]
fn concrete_scenario_capacity_two() {
    let mut q: Queue<u64> = Queue::with_capacity(2);
    assert_eq!(q.enq(1), Ok(()));
    assert_eq!(q.enq(2), Ok(()));
    assert_eq!(q.enq(3), Err(Error::WouldBlock));
    assert_eq!(q.try_deq(), Some(1));
    assert_eq!(q.enq(3), Ok(()));
    assert_eq!(q.try_deq(), Some(2));
    assert_eq!(q.try_deq(), Some(3));
    assert_eq!(q.try_deq(), None);
}

#[test]
fn full_queue_rejects_immediately() {
    let c: usize = 5;
    let mut q: Queue<u64> = Queue::with_capacity(c);
    for v in 0..c as u64 {
        assert_eq!(q.enq(v), Ok(()));
    }
    assert_eq!(q.enq(99), Err(Error::WouldBlock));
    assert_eq!(q.enq(100), Err(Error::WouldBlock));
    for v in 0..c as u64 {
        assert_eq!(q.try_deq(), Some(v));
    }
    assert_eq!(q.try_deq(), None);
}

#[test]
fn fifo_order_single_producer_single_consumer() {
    let mut q: Queue<u64> = Queue::with_capacity(128);
    for v in 0..100u64 {
        assert_eq!(q.enq(v), Ok(()));
    }
    for v in 0..100u64 {
        assert_eq!(q.try_deq(), Some(v));
    }
    assert_eq!(q.try_deq(), None);
}

#[test]
fn fan_in_three_producers() {
    // Three producers enqueue disjoint value sets totalling 30 items into a
    // queue of capacity 8, through cloned handles of one instance, while a
    // consumer drains it; the collected multiset equals the union of the
    // three sets and no item appears twice.
    let sets: [Vec<u64>; 3] = [
        (0..10).collect(),
        (100..110).collect(),
        (200..210).collect(),
    ];
    let mut consumer: Queue<u64> = Queue::with_capacity(8);
    let mut producers: Vec<Queue<u64>> = vec![consumer.clone(), consumer.clone(), consumer.clone()];
    let mut next: [usize; 3] = [0, 0, 0];
    let mut collected: Vec<u64> = Vec::new();
    while collected.len() < 30 {
        for p in 0..3 {
            if next[p] < sets[p].len() && producers[p].enq(sets[p][next[p]]).is_ok() {
                next[p] += 1;
            }
        }
        if let Some(v) = consumer.try_deq() {
            collected.push(v);
        }
    }
    assert_eq!(consumer.try_deq(), None);
    let mut expected: Vec<u64> = Vec::new();
    for s in sets.iter() {
        expected.extend_from_slice(s);
    }
    expected.sort();
    collected.sort();
    assert_eq!(collected, expected);
    for w in collected.windows(2) {
        assert_ne!(w[0], w[1]);
    }
}

#[test]
fn clone_shares_one_instance() {
    let mut a: Queue<&str> = Queue::with_capacity(4);
    let mut b = a.clone();
    assert_eq!(a.enq("through a"), Ok(()));
    assert_eq!(b.try_deq(), Some("through a"));
    assert_eq!(b.enq("through b"), Ok(()));
    assert_eq!(a.try_deq(), Some("through b"));
    assert_eq!(a.try_deq(), None);
    assert_eq!(b.try_deq(), None);
}

#[test]
fn default_capacity_is_1024() {
    let mut q: Queue<u32> = Queue::new();
    for v in 0..1024u32 {
        assert_eq!(q.enq(v), Ok(()));
    }
    assert_eq!(q.enq(1024), Err(Error::WouldBlock));
    assert_eq!(q.try_deq(), Some(0));
    assert_eq!(q.enq(1024), Ok(()));
}

#[test]
fn wraparound_many_cycles() {
    // The cursors wrap around a small ring many times without confusing
    // old and new elements.
    let mut q: Queue<u64> = Queue::with_capacity(3);
    for v in 0..50u64 {
        assert_eq!(q.enq(v), Ok(()));
        if v >= 2 {
            assert_eq!(q.try_deq(), Some(v - 2));
        }
    }
    assert_eq!(q.try_deq(), Some(48));
    assert_eq!(q.try_deq(), Some(49));
    assert_eq!(q.try_deq(), None);
}

#[test]
fn inner_queue_direct_operations() {
    let mut q: InnerQueue<u64> = InnerQueue::with_capacity(1);
    assert_eq!(q.len(), 0);
    assert_eq!(q.enq(7), Ok(()));
    assert_eq!(q.len(), 1);
    assert_eq!(q.enq(8), Err(Error::WouldBlock));
    assert_eq!(q.deq(), 7);
    assert_eq!(q.len(), 0);
    assert_eq!(q.enq(9), Ok(()));
    assert_eq!(q.deq(), 9);
}

#[test]
fn inner_queue_default_capacity() {
    let mut q: InnerQueue<u8> = InnerQueue::new();
    for _ in 0..1024 {
        assert_eq!(q.enq(1), Ok(()));
    }
    assert_eq!(q.enq(1), Err(Error::WouldBlock));
    assert_eq!(q.len(), 1024);
}

#[test]
fn values_move_without_copying() {
    // The queue stores owned values; a String goes in and the same String
    // comes out.
    let mut q: Queue<String> = Queue::with_capacity(2);
    assert_eq!(q.enq(String::from("first")), Ok(()));
    assert_eq!(q.enq(String::from("second")), Ok(()));
    assert_eq!(q.try_deq(), Some(String::from("first")));
    assert_eq!(q.try_deq(), Some(String::from("second")));
}
