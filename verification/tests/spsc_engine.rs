//! Tests of the single-producer/single-consumer ring buffer engine.

use rand::Rng;
use ringbuf::spsc_lockfree_bounded::{empty, SPSCRingBuffer, SPSCRingBufferError};

#[test]
fn test_spsc_ring_buffer() {
    let mut buffer: SPSCRingBuffer<u64> = SPSCRingBuffer::<u64>::new(3);

    assert!(buffer.push(1).is_ok());
    assert!(buffer.push(2).is_ok());
    assert!(buffer.push(3).is_err()); // Buffer should be full

    assert_eq!(buffer.pop(), Some((0, 1)));
    assert_eq!(buffer.pop(), Some((1, 2)));
    assert_eq!(buffer.pop(), None); // Buffer should be empty
}

#[test]
fn spsc_lockfree_bounded_push_and_pop() {
    let mut rb = SPSCRingBuffer::new(8);
    for i in 0..7u64 {
        assert_eq!(rb.push(i).unwrap(), i as usize);
    }
    assert!(rb.push(0).is_err());
    for i in 0..7u64 {
        assert_eq!(rb.pop(), Some((i as usize, i)));
    }
    assert!(rb.pop().is_none());
}

#[test]
fn spsc_lockfree_bounded_push_and_pop_at_random() {
    let mut rb = SPSCRingBuffer::new(16);
    assert!(rb.push(0).is_ok());
    assert!(rb.push(1).is_ok());
    let mut rng = rand::thread_rng();

    for _ in 0..100 {
        let y: f64 = rng.gen();
        if y < 0.5 {
            let _ = rb.push(1);
        } else {
            if !rb.empty() {
                assert!(rb.pop().is_some());
            }
        }
    }
}

#[test]
fn cursor_pair_empty_decision() {
    assert!(empty(0, 0));
    assert!(empty(7, 7));
    assert!(!empty(0, 1));
    assert!(!empty(5, 4));
}

#[test]
fn engine_fresh_buffer_empty_never_full() {
    let q: SPSCRingBuffer<u64> = SPSCRingBuffer::new(2);
    assert!(q.empty());
    assert!(!q.full());
    assert_eq!(q.capacity(), 2);
}

#[test]
fn engine_usable_capacity_is_one_less() {
    let mut q: SPSCRingBuffer<u64> = SPSCRingBuffer::new(5);
    for i in 0..4 {
        assert!(q.push(i).is_ok());
    }
    assert!(q.full());
    assert!(q.push(4).is_err());
}

#[test]
fn engine_fifo_order() {
    let mut q: SPSCRingBuffer<u64> = SPSCRingBuffer::new(9);
    for i in 100..108 {
        assert!(q.push(i).is_ok());
    }
    for i in 100..108 {
        let (_, v) = q.pop().unwrap();
        assert_eq!(v, i);
    }
    assert!(q.pop().is_none());
}

#[test]
fn engine_rejected_push_returns_value_unchanged() {
    let mut q: SPSCRingBuffer<u64> = SPSCRingBuffer::new(3);
    assert!(q.push(11).is_ok());
    assert!(q.push(12).is_ok());
    match q.push(13) {
        Err(SPSCRingBufferError::PushError(v)) => assert_eq!(v, 13),
        _ => panic!("push on a full buffer must hand the value back"),
    }
    assert!(q.full());
    assert_eq!(q.pop(), Some((0, 11)));
    assert_eq!(q.pop(), Some((1, 12)));
}

#[test]
fn engine_round_trip() {
    let mut q: SPSCRingBuffer<u64> = SPSCRingBuffer::new(4);
    assert!(q.push(77).is_ok());
    assert_eq!(q.pop(), Some((0, 77)));
    assert!(q.empty());
}

#[test]
fn engine_wraparound_consistency() {
    let mut q: SPSCRingBuffer<u64> = SPSCRingBuffer::new(4);
    for i in 0..12u64 {
        let idx = q.push(i).unwrap();
        assert_eq!(idx, (i % 4) as usize);
        assert_eq!(q.pop(), Some((idx, i)));
        assert!(q.empty());
        assert!(!q.full());
    }
}

#[test]
fn engine_delivers_each_value_exactly_once() {
    // One producer and one consumer taking turns on the same thread: the
    // producer retries on a full buffer, the consumer drains between
    // bursts, and every pushed value must come out exactly once, in order.
    let capacity: usize = 16;
    let count: u64 = 50;
    let mut q: SPSCRingBuffer<u64> = SPSCRingBuffer::new(capacity);
    let mut tracker = vec![0i64; capacity];
    let mut next: u64 = 0;
    let mut delivered: u64 = 0;
    while delivered < count {
        while next < count {
            match q.push(next) {
                Ok(idx) => {
                    tracker[idx] += 1;
                    next += 1;
                }
                Err(SPSCRingBufferError::PushError(_)) => break,
                Err(_) => panic!("unexpected error"),
            }
        }
        while let Some((idx, val)) = q.pop() {
            tracker[idx] -= 1;
            assert_eq!(val, delivered);
            delivered += 1;
        }
    }
    assert!(q.empty());
    for c in tracker {
        assert_eq!(c, 0);
    }
}
