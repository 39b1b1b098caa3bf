//! Tests of the single-threaded reference ring buffer.

use rand::Rng;
use ringbuf::SPSCRingBuffer;
use ringbuf::SPSCRingBufferError;

#[test]
fn create() {
    let rb: SPSCRingBuffer = SPSCRingBuffer::new(10);
    assert_eq!(rb.capacity(), 10);
    assert_eq!(rb.size(), 0);
    assert_eq!(rb.free(), rb.capacity() - rb.size());
}

#[test]
fn push() {
    let mut rb: SPSCRingBuffer = SPSCRingBuffer::new(8);
    for i in 0..7 {
        assert!(rb.push(i));
    }
    assert_eq!(rb.size(), 7);
    assert_eq!(rb.free(), rb.capacity() - rb.size());
}

#[test]
fn force_push() {
    let mut rb: SPSCRingBuffer = SPSCRingBuffer::new(8);
    for i in 0..97 {
        rb.force_push(i);
    }
    assert_eq!(rb.pop().unwrap(), 89);
    assert_eq!(rb.pop().unwrap(), 90);
    assert_eq!(rb.size(), 6);
    assert_eq!(rb.free(), rb.capacity() - rb.size());
}

#[test]
fn force_push_and_pop() {
    let mut rb = SPSCRingBuffer::new(16);
    for i in 0..10 {
        rb.force_push(i + 2);
    }
    for _ in 0..10 {
        assert!(rb.pop().is_ok());
    }
    assert_eq!(rb.free(), 16);
}

#[test]
fn lib_push_and_pop() {
    let mut rb = SPSCRingBuffer::new(16);
    for i in 0..10 {
        assert!(rb.push(i));
    }
    for _ in 0..10 {
        assert!(rb.pop().is_ok());
    }
    assert_eq!(rb.size(), 0);
    assert_eq!(rb.free(), rb.capacity() - rb.size());
}

#[test]
fn lib_push_and_pop_at_random() {
    let mut rb = SPSCRingBuffer::new(16);
    rb.push(0);
    rb.push(1);
    let mut rng = rand::thread_rng();

    for _ in 0..100 {
        let y: f64 = rng.gen();
        if y < 0.5 {
            if !rb.full() {
                rb.push(1);
            }
        } else {
            if !rb.empty() {
                assert!(rb.pop().is_ok());
            }
        }
    }
    assert_eq!(rb.free(), rb.capacity() - rb.size());
}

#[test]
fn check_size() {
    let mut rb: SPSCRingBuffer = SPSCRingBuffer::new(16);
    for i in 0..11 {
        rb.force_push(i);
    }
    assert_eq!(rb.size(), 11);
    assert_eq!(rb.free(), rb.capacity() - rb.size());
}

#[test]
fn fresh_buffer_empty_never_full() {
    let rb = SPSCRingBuffer::new(2);
    assert!(rb.empty());
    assert!(!rb.full());
    let rb = SPSCRingBuffer::new(1);
    assert!(rb.empty());
    assert!(!rb.full());
}

#[test]
fn fifo_order_model() {
    let mut rb = SPSCRingBuffer::new(16);
    for i in 10..26 {
        assert!(rb.push(i));
    }
    assert!(rb.full());
    for i in 10..26 {
        assert_eq!(rb.pop().unwrap(), i);
    }
    assert!(rb.empty());
}

#[test]
fn rejected_push_changes_nothing() {
    let mut rb = SPSCRingBuffer::new(2);
    assert!(rb.push(5));
    assert!(rb.push(6));
    assert!(rb.full());
    assert!(!rb.push(7));
    assert_eq!(rb.size(), 2);
    assert!(rb.full());
    assert_eq!(rb.pop().unwrap(), 5);
    assert_eq!(rb.pop().unwrap(), 6);
}

#[test]
fn pop_empty_changes_nothing() {
    let mut rb = SPSCRingBuffer::new(4);
    match rb.pop() {
        Err(SPSCRingBufferError::PopError(w)) => assert_eq!(w, 0),
        _ => panic!("pop on an empty buffer must fail"),
    }
    assert_eq!(rb.size(), 0);
    assert!(rb.push(3));
    assert!(rb.push(4));
    assert_eq!(rb.pop().unwrap(), 3);
    assert_eq!(rb.pop().unwrap(), 4);
    match rb.pop() {
        Err(SPSCRingBufferError::PopError(w)) => assert_eq!(w, 2),
        _ => panic!("pop on an empty buffer must fail"),
    }
}

#[test]
fn round_trip_model() {
    let mut rb = SPSCRingBuffer::new(8);
    assert!(rb.push(42));
    assert_eq!(rb.pop().unwrap(), 42);
    assert!(rb.empty());
    assert_eq!(rb.size(), 0);
}

#[test]
fn overwrite_keeps_latest() {
    let mut rb = SPSCRingBuffer::new(4);
    for i in 0..10 {
        rb.force_push(i);
    }
    assert_eq!(rb.size(), 4);
    for i in 6..10 {
        assert_eq!(rb.pop().unwrap(), i);
    }
    assert!(rb.empty());
}

#[test]
fn wraparound_consistency() {
    let mut rb = SPSCRingBuffer::new(4);
    for i in 0..12 {
        assert!(rb.push(i));
        assert_eq!(rb.size(), 1);
        assert_eq!(rb.pop().unwrap(), i);
        assert_eq!(rb.size(), 0);
        assert_eq!(rb.free(), rb.capacity());
    }
    assert!(rb.empty());
    assert!(!rb.full());
}
