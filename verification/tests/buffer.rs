use heartsound::buffer::SampleBuffer;

#[test]
fn new_buffer_is_empty() {
    let b: SampleBuffer<i32> = SampleBuffer::new(4);
    assert_eq!(b.len(), 0);
    assert!(b.is_empty());
    assert_eq!(b.capacity(), 4);
    assert_eq!(b.snapshot(), Vec::<i32>::new());
}

#[test]
fn push_below_capacity_keeps_everything_in_order() {
    let mut b: SampleBuffer<i32> = SampleBuffer::new(4);
    b.push(7);
    b.push(-3);
    b.push(11);
    assert_eq!(b.len(), 3);
    assert!(!b.is_empty());
    assert_eq!(b.snapshot(), vec![7, -3, 11]);
}

#[test]
fn push_at_capacity_evicts_the_oldest() {
    let mut b: SampleBuffer<i32> = SampleBuffer::new(3);
    for v in [1, 2, 3] {
        b.push(v);
    }
    assert_eq!(b.snapshot(), vec![1, 2, 3]);
    b.push(4);
    assert_eq!(b.snapshot(), vec![2, 3, 4]);
    b.push(5);
    assert_eq!(b.snapshot(), vec![3, 4, 5]);
    assert_eq!(b.len(), 3);
}

#[test]
fn pushing_capacity_plus_k_leaves_the_most_recent_capacity() {
    for capacity in [1usize, 2, 5, 300] {
        for k in [0usize, 1, 2, 7, 301] {
            let mut b: SampleBuffer<i64> = SampleBuffer::new(capacity);
            let total = capacity + k;
            for v in 0..total {
                b.push(v as i64 * 10);
            }
            let expected: Vec<i64> = (k..total).map(|v| v as i64 * 10).collect();
            assert_eq!(b.snapshot(), expected);
            assert_eq!(b.len(), capacity);
        }
    }
}

#[test]
fn wrap_around_many_times_stays_ordered() {
    let mut b: SampleBuffer<i32> = SampleBuffer::new(4);
    for v in 0..1003 {
        b.push(v);
        assert!(b.len() <= b.capacity());
    }
    assert_eq!(b.snapshot(), vec![999, 1000, 1001, 1002]);
}

#[test]
fn zero_capacity_buffer_stays_empty() {
    let mut b: SampleBuffer<i32> = SampleBuffer::new(0);
    b.push(1);
    b.push(2);
    assert_eq!(b.len(), 0);
    assert!(b.is_empty());
    assert_eq!(b.snapshot(), Vec::<i32>::new());
}

#[test]
fn snapshot_is_a_copy() {
    let mut b: SampleBuffer<i32> = SampleBuffer::new(2);
    b.push(1);
    let before = b.snapshot();
    b.push(2);
    b.push(3);
    assert_eq!(before, vec![1]);
    assert_eq!(b.snapshot(), vec![2, 3]);
}

#[test]
fn refill_replaces_the_contents() {
    let mut b: SampleBuffer<i32> = SampleBuffer::new(3);
    b.push(9);
    b.push(8);
    b.refill(&vec![1, 2]);
    assert_eq!(b.snapshot(), vec![1, 2]);
    b.refill(&vec![1, 2, 3, 4, 5]);
    assert_eq!(b.snapshot(), vec![3, 4, 5]);
    b.refill(&Vec::new());
    assert!(b.is_empty());
    assert_eq!(b.capacity(), 3);
}

#[test]
fn buffer_holds_fractional_samples_too() {
    let mut b: SampleBuffer<f64> = SampleBuffer::new(2);
    b.push(2.5);
    b.push(2.75);
    b.push(1.25);
    assert_eq!(b.snapshot(), vec![2.75, 1.25]);
}
