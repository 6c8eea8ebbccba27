use ring_buffer::RingBuffer;

#[test]
fn test_creation() {
    let rb = RingBuffer::new(5);
    assert_eq!(rb.capacity(), 5);
    assert!(rb.is_empty());
    assert_eq!(rb.len(), 0);
}

#[test]
fn test_basic_operations() {
    let mut rb = RingBuffer::new(3);

    assert!(rb.push(1).is_ok());
    assert!(rb.push(2).is_ok());
    assert_eq!(rb.len(), 2);
    assert!(!rb.is_empty());
    assert!(!rb.is_full());

    assert_eq!(rb.pop(), Some(1));
    assert_eq!(rb.pop(), Some(2));
    assert_eq!(rb.pop(), None);
    assert!(rb.is_empty());
}

#[test]
fn test_full_behavior() {
    let mut rb = RingBuffer::new(2);

    assert!(rb.push(1).is_ok());
    assert!(rb.push(2).is_ok());
    assert!(rb.push(3).is_err());

    assert_eq!(rb.drain(3), vec![1, 2]);
}

#[test]
fn test_wrap_around() {
    let mut rb = RingBuffer::new(3);

    assert_eq!(rb.extend(&[1, 2, 3]), 3);
    assert_eq!(rb.drain(2), vec![1, 2]);

    assert_eq!(rb.extend(&[4, 5]), 2);
    assert_eq!(rb.drain(3), vec![3, 4, 5]);
}

#[test]
fn test_edge_cases() {
    let mut rb = RingBuffer::new(1);

    assert!(rb.push(1).is_ok());
    assert!(rb.is_full());
    assert!(rb.push(2).is_err());

    assert_eq!(rb.pop(), Some(1));
    assert!(rb.is_empty());
}

#[test]
fn len_stays_within_capacity() {
    let mut rb = RingBuffer::new(2);
    assert!(rb.len() <= rb.capacity());
    let _ = rb.push(7);
    assert!(rb.len() <= rb.capacity());
    let _ = rb.push(8);
    assert!(rb.len() <= rb.capacity());
    let _ = rb.push(9);
    assert!(rb.len() <= rb.capacity());
    let _ = rb.pop();
    assert!(rb.len() <= rb.capacity());
    assert_eq!(rb.extend(&[4, 5, 6]), 1);
    assert!(rb.len() <= rb.capacity());
    let _ = rb.drain(10);
    assert!(rb.len() <= rb.capacity());
    assert_eq!(rb.len(), 0);
}

#[test]
fn fifo_order_push_then_drain() {
    let mut rb = RingBuffer::new(4);
    assert!(rb.push(11).is_ok());
    assert!(rb.push(22).is_ok());
    assert!(rb.push(33).is_ok());
    assert!(rb.push(44).is_ok());
    assert_eq!(rb.drain(4), vec![11, 22, 33, 44]);
    assert!(rb.is_empty());
}

#[test]
fn full_rejection_leaves_length_unchanged() {
    let mut rb = RingBuffer::new(3);
    assert_eq!(rb.extend(&[1, 2, 3]), 3);
    assert!(rb.is_full());
    let result = rb.push(4);
    assert_eq!(result, Err("buffer is full".to_string()));
    assert_eq!(rb.len(), 3);
    assert_eq!(rb.drain(3), vec![1, 2, 3]);
}

#[test]
fn pop_on_fresh_and_drained_buffer() {
    let mut rb = RingBuffer::new(2);
    assert_eq!(rb.pop(), None);
    assert!(rb.is_empty());

    assert!(rb.push(5).is_ok());
    assert!(rb.push(6).is_ok());
    assert_eq!(rb.drain(2), vec![5, 6]);
    assert_eq!(rb.pop(), None);
    assert!(rb.is_empty());
}

#[test]
fn partial_drain_returns_what_is_there() {
    let mut rb = RingBuffer::new(2);
    assert!(rb.push(1).is_ok());
    assert!(rb.push(2).is_ok());
    assert_eq!(rb.drain(5), vec![1, 2]);
    assert!(rb.is_empty());
}

#[test]
fn extend_partial_fill_takes_only_what_fits() {
    let mut rb = RingBuffer::new(3);
    assert!(rb.push(10).is_ok());
    assert!(rb.push(20).is_ok());
    assert_eq!(rb.extend(&[30, 40, 50]), 1);
    assert!(rb.is_full());
    assert_eq!(rb.drain(3), vec![10, 20, 30]);
}

#[test]
fn extend_on_full_buffer_inserts_nothing() {
    let mut rb = RingBuffer::new(1);
    assert!(rb.push(9).is_ok());
    assert_eq!(rb.extend(&[1, 2]), 0);
    assert_eq!(rb.len(), 1);
    assert_eq!(rb.pop(), Some(9));
}

#[test]
fn drain_zero_removes_nothing() {
    let mut rb = RingBuffer::new(2);
    assert!(rb.push(3).is_ok());
    assert_eq!(rb.drain(0), Vec::<u8>::new());
    assert_eq!(rb.len(), 1);
}

#[test]
fn wrap_around_repeated_cycles() {
    let mut rb = RingBuffer::new(2);
    for round in 0..10u8 {
        assert!(rb.push(round).is_ok());
        assert!(rb.push(round.wrapping_add(100)).is_ok());
        assert!(rb.is_full());
        assert_eq!(rb.pop(), Some(round));
        assert_eq!(rb.pop(), Some(round.wrapping_add(100)));
        assert!(rb.is_empty());
    }
}
