use rustibus::deque::Deque;

#[test]
fn test_random_access() {
    let mut d = Deque::<u8, 11>::new();
    d.load(&[1u8, 2u8, 3u8, 4u8, 5u8, 6u8, 7u8, 8u8, 9u8, 10u8]);
    assert_eq!(d.index(0), 1u8);
    assert_eq!(d.index(1), 2u8);
    assert_eq!(d.index(9), 10u8);
    d.pop();
    assert_eq!(d.index(0), 2u8);
    assert_eq!(d.index(8), 10u8);
    d.push(11u8);
    assert_eq!(d.index(0), 2u8);
    assert_eq!(d.index(9), 11u8);
}

#[test]
fn test_iterator() {
    let mut d = Deque::<u8, 11>::new();
    d.load(&[1u8, 2u8, 3u8, 4u8, 5u8, 6u8, 7u8, 8u8, 9u8, 10u8]);
    let mut it = d.iter();
    let mut i: usize = 0;
    while let Some(v) = it.next() {
        assert_eq!((i + 1) as u8, v);
        i += 1;
    }
    assert_eq!(i, 10);
}

#[test]
fn test_fifo_order() {
    // Pushing at most capacity (SIZE - 1) elements and then popping returns
    // them in push order.
    let mut d = Deque::<u8, 11>::new();
    for i in 0u8..10u8 {
        d.push(i);
    }
    assert_eq!(d.len(), 10);
    for i in 0u8..10u8 {
        assert_eq!(d.pop(), i);
    }
    assert!(d.is_empty());
}

#[test]
fn test_len_idempotent() {
    let mut d = Deque::<u8, 10>::new();
    assert_eq!(d.len(), d.len());
    d.load(&[7u8, 8u8, 9u8]);
    let first = d.len();
    let second = d.len();
    assert_eq!(first, 3);
    assert_eq!(first, second);
}

#[test]
fn test_overflow_boundary() {
    // Pushing while full leaves the length and all held data unchanged.
    let mut d = Deque::<u8, 4>::new();
    d.push(1u8);
    d.push(2u8);
    d.push(3u8);
    assert!(d.is_full());
    assert_eq!(d.len(), 3);
    d.push(4u8);
    assert_eq!(d.len(), 3);
    assert_eq!(d.index(0), 1u8);
    assert_eq!(d.index(1), 2u8);
    assert_eq!(d.index(2), 3u8);
    assert_eq!(d.pop(), 1u8);
    assert_eq!(d.pop(), 2u8);
    assert_eq!(d.pop(), 3u8);
    assert!(d.is_empty());
}

#[test]
fn test_load_truncates_when_full() {
    // A load that overruns the free space keeps the prefix that fits and
    // silently drops the rest.
    let mut d = Deque::<u8, 4>::new();
    d.load(&[1u8, 2u8, 3u8, 4u8, 5u8]);
    assert_eq!(d.len(), 3);
    assert_eq!(d.index(0), 1u8);
    assert_eq!(d.index(1), 2u8);
    assert_eq!(d.index(2), 3u8);
}

#[test]
fn test_space_and_clear() {
    let mut d = Deque::<u8, 10>::new();
    assert_eq!(d.space(), 10);
    d.load(&[1u8, 2u8, 3u8, 4u8]);
    assert_eq!(d.space(), 6);
    d.clear();
    assert!(d.is_empty());
    assert_eq!(d.len(), 0);
    assert_eq!(d.space(), 10);
}

#[test]
fn test_wraparound_keeps_order() {
    // Drive the cursors past the end of the backing array and check that the
    // contents still come out oldest first.
    let mut d = Deque::<u8, 5>::new();
    for round in 0u8..10u8 {
        d.push(3 * round);
        d.push(3 * round + 1);
        d.push(3 * round + 2);
        assert_eq!(d.len(), 3);
        assert_eq!(d.pop(), 3 * round);
        assert_eq!(d.pop(), 3 * round + 1);
        assert_eq!(d.pop(), 3 * round + 2);
        assert!(d.is_empty());
    }
}
