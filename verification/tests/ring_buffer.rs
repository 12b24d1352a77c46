use ap2024_unitn_cppenjoyers_drone::ring_buffer::RingBuffer;

#[test]
fn test1() {
    let mut rb: RingBuffer<(u64, u64)> = RingBuffer::with_capacity(64);
    rb.insert((0, 0));
    rb.insert((1, 0));
    rb.insert((2, 0));
    rb.insert((3, 0));
    rb.insert((4, 0));
    rb.insert((5, 0));
    rb.insert((6, 0));

    assert!(rb.contains(&(0, 0)));
    assert!(rb.contains(&(6, 0)));
    assert!(rb.contains(&(4, 0)));
    assert!(!rb.contains(&(0, 1)));
    assert!(!rb.contains(&(0, 2)));
    assert!(!rb.contains(&(0, 3)));
}

#[test]
fn test2() {
    let mut rb: RingBuffer<(u64, u64)> = RingBuffer::with_capacity(64);
    rb.insert((0, 0));
    rb.insert((1, 0));
    rb.insert((2, 0));
    rb.insert((3, 0));
    rb.insert((4, 0));
    rb.insert((5, 0));
    rb.insert((6, 0));

    assert_eq!(rb.pop(), Some((0, 0)));
    assert_eq!(rb.pop(), Some((1, 0)));
    assert_eq!(rb.pop(), Some((2, 0)));
    assert_eq!(rb.pop(), Some((3, 0)));
    assert_eq!(rb.pop(), Some((4, 0)));
    assert_eq!(rb.pop(), Some((5, 0)));
    assert_eq!(rb.pop(), Some((6, 0)));
    assert!(rb.pop().is_none());
}

#[test]
fn test3() {
    let mut rb: RingBuffer<(u64, u64)> = RingBuffer::with_capacity(64);
    for i in 0..101 {
        rb.insert((i, 0));
    }

    for i in 0..64 {
        assert_eq!(rb.pop(), Some((i + 37, 0)));
    }

    assert!(rb.pop().is_none())
}

#[test]
fn insert_hands_back_the_oldest_element_of_a_full_buffer() {
    let mut rb: RingBuffer<u64> = RingBuffer::with_capacity(2);
    assert_eq!(rb.insert(5), None);
    assert!(!rb.is_full());
    assert_eq!(rb.insert(6), None);
    assert!(rb.is_full());
    assert_eq!(rb.insert(7), Some(5));
    assert!(rb.is_full());
    assert!(!rb.contains(&5));
    assert_eq!(rb.pop(), Some(6));
    assert!(!rb.is_full());
    assert_eq!(rb.pop(), Some(7));
    assert!(rb.is_empty());
}

#[test]
fn a_buffer_of_size_zero_is_full_only_while_it_is_empty() {
    let mut rb: RingBuffer<u64> = RingBuffer::with_capacity(0);
    assert!(rb.is_empty());
    assert!(rb.is_full());
    assert_eq!(rb.insert(1), None);
    assert!(!rb.is_full());
    assert_eq!(rb.insert(2), None);
    assert_eq!(rb.pop(), Some(1));
    assert_eq!(rb.pop(), Some(2));
    assert_eq!(rb.pop(), None);
}

#[test]
fn a_large_buffer_keeps_the_last_elements_too() {
    let mut rb: RingBuffer<u64> = RingBuffer::with_capacity(0x400);
    for i in 0..0x500 {
        rb.insert(i);
    }
    assert!(rb.is_full());
    assert!(!rb.contains(&0xff));
    assert_eq!(rb.pop(), Some(0x100));
}
