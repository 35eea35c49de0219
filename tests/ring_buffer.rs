use ffone::ring_buffer::RingBuffer;

#[test]
fn ring_overwrites_oldest_when_full() {
    let mut rb: RingBuffer<u32, 3> = RingBuffer::new();
    assert!(rb.is_empty());
    for i in 1..=5u32 {
        rb.write(i);
    }
    assert_eq!(rb.len(), 3);
    assert_eq!(rb.as_vec(), &vec![4, 5, 3]);
    assert_eq!(rb.read(0), Some(&4));
    assert_eq!(rb.read(3), None);
    let mut it = rb.iter();
    assert_eq!(it.len(), 3);
    assert_eq!(it.next(), Some(&4));
    assert_eq!(it.next(), Some(&5));
    assert_eq!(it.next(), Some(&3));
    assert_eq!(it.next(), None);
    assert_eq!(rb.read_mut(1, 9), Some(5));
    assert_eq!(rb.as_vec(), &vec![4, 9, 3]);
    rb.clear();
    assert_eq!(rb.len(), 0);
}
