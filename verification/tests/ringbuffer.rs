use darkfi::ringbuffer::RingBuffer;

#[test]
fn behaviour() {
    const BUF_SIZE: usize = 10;
    let mut buf = RingBuffer::new(BUF_SIZE);

    for i in 0..BUF_SIZE {
        buf.push(i);
    }

    assert!(!buf.is_empty());
    assert!(buf.len() == BUF_SIZE);

    for i in 0..BUF_SIZE {
        buf.push(i + 10);
    }

    assert!(buf.len() == BUF_SIZE);

    for (i, v) in buf.iter().enumerate() {
        assert_eq!(*v, i + 10);
    }
}

#[test]
fn new_buffer_is_empty() {
    let buf: RingBuffer<u32> = RingBuffer::new(4);
    assert!(buf.is_empty());
    assert_eq!(buf.len(), 0);
    assert_eq!(buf.capacity(), 4);
    assert_eq!(buf.iter().count(), 0);
}

#[test]
fn push_keeps_newest_items_in_order() {
    let mut buf = RingBuffer::new(3);
    for i in 0..25u64 {
        buf.push(i);
        assert!(buf.len() <= 3);
    }
    let items: Vec<u64> = buf.iter().cloned().collect();
    assert_eq!(items, vec![22, 23, 24]);
}

#[test]
fn push_below_capacity_drops_nothing() {
    let mut buf = RingBuffer::new(5);
    buf.push(1u8);
    buf.push(2u8);
    let items: Vec<u8> = buf.iter().cloned().collect();
    assert_eq!(items, vec![1, 2]);
}

#[test]
fn pop_returns_oldest_first() {
    let mut buf = RingBuffer::new(2);
    buf.push(1i32);
    buf.push(2i32);
    buf.push(3i32);
    assert_eq!(buf.pop(), Some(2));
    assert_eq!(buf.pop(), Some(3));
    assert_eq!(buf.pop(), None);
    assert!(buf.is_empty());
}

#[test]
fn push_then_pop_round_trip() {
    let mut buf = RingBuffer::new(1);
    buf.push(String::from("a"));
    assert_eq!(buf.pop(), Some(String::from("a")));
    assert_eq!(buf.pop(), None);
}

#[test]
fn zero_capacity_keeps_nothing() {
    let mut buf = RingBuffer::new(0);
    for i in 0..5u8 {
        buf.push(i);
        assert!(buf.is_empty());
    }
    assert_eq!(buf.len(), 0);
    assert_eq!(buf.pop(), None);
    assert!(!buf.contains(&4));
}

#[test]
fn from_parts_keeps_items_within_capacity() {
    let data: std::collections::VecDeque<u8> = vec![1, 2, 3].into();
    let buf = RingBuffer::from_parts(3, data.clone()).unwrap();
    assert_eq!(buf.capacity(), 3);
    let items: Vec<u8> = buf.iter().cloned().collect();
    assert_eq!(items, vec![1, 2, 3]);
    assert!(RingBuffer::from_parts(2, data).is_none());
    assert!(RingBuffer::<u8>::from_parts(0, std::collections::VecDeque::new()).is_some());
}

#[test]
fn contains_finds_only_held_items() {
    let mut buf = RingBuffer::new(2);
    buf.push(7u16);
    buf.push(8u16);
    buf.push(9u16);
    assert!(!buf.contains(&7));
    assert!(buf.contains(&8));
    assert!(buf.contains(&9));
    assert!(!buf.contains(&10));
    let empty: RingBuffer<u16> = RingBuffer::new(2);
    assert!(!empty.contains(&0));
}

#[test]
fn clone_is_equal() {
    let mut buf = RingBuffer::new(3);
    buf.push(1u8);
    buf.push(2u8);
    let copy = buf.clone();
    assert_eq!(copy, buf);
    buf.push(3u8);
    assert_ne!(copy, buf);
}
