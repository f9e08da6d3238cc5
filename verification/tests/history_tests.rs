use life_core::history::{ConfigError, RingBuffer};

#[test]
fn zero_capacity_is_rejected() {
    match RingBuffer::new(0) {
        Err(e) => assert_eq!(e, ConfigError::ZeroCapacity),
        Ok(_) => panic!("a zero-capacity history must be rejected"),
    }
}

#[test]
fn empty_buffer_contains_nothing() {
    let rb = RingBuffer::new(4).unwrap();
    assert_eq!(rb.count(), 0);
    assert!(!rb.contains(0));
    assert!(!rb.contains(17));
}

#[test]
fn dequeue_on_empty_returns_none() {
    let mut rb = RingBuffer::new(2).unwrap();
    assert_eq!(rb.dequeue(), None);
}

#[test]
fn eviction_after_capacity_plus_one_inserts() {
    // Capacity 3, four distinct values: the very first is evicted, the rest
    // are still within the window.
    let mut rb = RingBuffer::new(3).unwrap();
    for v in [10, 20, 30, 40] {
        rb.enqueue(v);
    }
    assert!(!rb.contains(10));
    assert!(rb.contains(20));
    assert!(rb.contains(30));
    assert!(rb.contains(40));
    assert_eq!(rb.count(), 3);
}

#[test]
fn dequeue_returns_insertion_order() {
    // Fewer enqueues than capacity: dequeue hands values back oldest first.
    let mut rb = RingBuffer::new(5).unwrap();
    rb.enqueue(7);
    rb.enqueue(8);
    rb.enqueue(9);
    assert_eq!(rb.dequeue(), Some(7));
    assert_eq!(rb.dequeue(), Some(8));
    assert_eq!(rb.dequeue(), Some(9));
    assert_eq!(rb.dequeue(), None);
}

#[test]
fn wraparound_keeps_only_newest_window() {
    let mut rb = RingBuffer::new(2).unwrap();
    for v in 1..=7 {
        rb.enqueue(v);
    }
    assert!(!rb.contains(5));
    assert!(rb.contains(6));
    assert!(rb.contains(7));
    assert_eq!(rb.dequeue(), Some(6));
    assert_eq!(rb.dequeue(), Some(7));
    assert_eq!(rb.dequeue(), None);
}

#[test]
fn mixed_enqueue_dequeue_keeps_fifo() {
    let mut rb = RingBuffer::new(3).unwrap();
    rb.enqueue(1);
    rb.enqueue(2);
    assert_eq!(rb.dequeue(), Some(1));
    rb.enqueue(3);
    rb.enqueue(4);
    assert!(rb.contains(2) && rb.contains(3) && rb.contains(4));
    assert!(!rb.contains(1));
    assert_eq!(rb.dequeue(), Some(2));
    assert_eq!(rb.dequeue(), Some(3));
    assert_eq!(rb.dequeue(), Some(4));
    assert_eq!(rb.dequeue(), None);
}
