use ffone::audio::{RawAudioBuffer, RawAudioFormat};
use ffone::clock::ClockTime;
use ffone::queue::RawAudioQueue;

fn buf(bytes: Vec<u8>) -> RawAudioBuffer {
    RawAudioBuffer::new(bytes, RawAudioFormat::U8, 1000)
}

#[test]
fn pushes_then_pops_of_one_byte_keep_order() {
    let mut q = RawAudioQueue::new(ClockTime::from_secs(10));
    let pushed = vec![vec![1, 2, 3], vec![], vec![4], vec![5, 6]];
    for b in &pushed {
        q.push_buffer(buf(b.clone()));
    }
    let mut popped = Vec::new();
    while let Some((bytes, format, rate)) = q.pop_bytes(1) {
        assert_eq!(format, RawAudioFormat::U8);
        assert_eq!(rate, 1000);
        popped.extend(bytes);
    }
    assert_eq!(popped, pushed.concat());
    assert!(!q.has_buffers());
}

#[test]
fn durations_track_what_is_left() {
    let mut q = RawAudioQueue::new(ClockTime::from_secs(10));
    q.push_buffer(buf(vec![0; 500]));
    q.push_buffer(buf(vec![0; 250]));
    assert_eq!(q.duration(), ClockTime::from_millis(750));
    assert_eq!(q.available_duration(), ClockTime::from_nanos(9_250_000_000));
    let (bytes, _, _) = q.pop_bytes(100).unwrap();
    assert_eq!(bytes.len(), 100);
    assert_eq!(q.duration(), ClockTime::from_millis(650));
    assert_eq!(q.no_bytes(), Some(650));
    assert_eq!(q.no_buffers(), 2);
    // A pop never crosses into the next buffer.
    let (bytes, _, _) = q.pop_bytes(1000).unwrap();
    assert_eq!(bytes.len(), 400);
    assert_eq!(q.no_buffers(), 1);
    assert_eq!(q.duration(), ClockTime::from_millis(250));
}

#[test]
fn overflow_drops_oldest_buffer() {
    let mut q = RawAudioQueue::new(ClockTime::from_secs(1));
    q.push_buffer(buf(vec![1; 600]));
    q.push_buffer(buf(vec![2; 600]));
    assert_eq!(q.no_buffers(), 1);
    assert_eq!(q.pop_bytes(1).unwrap().0, vec![2]);
}

#[test]
fn pop_with_props_checks_front() {
    let mut q = RawAudioQueue::new(ClockTime::from_secs(1));
    q.push_buffer(RawAudioBuffer::new(vec![1, 2, 3, 4], RawAudioFormat::S16LE, 8000));
    assert_eq!(q.front_buffer_format(), Some(RawAudioFormat::S16LE));
    assert_eq!(q.front_buffer_sample_rate(), Some(8000));
    assert!(q.pop_bytes_with_props(4, RawAudioFormat::U8, 8000).is_none());
    assert!(q.pop_bytes_with_props(4, RawAudioFormat::S16LE, 44100).is_none());
    assert!(q.has_bytes());
    assert_eq!(q.pop_bytes_with_props(4, RawAudioFormat::S16LE, 8000), Some(vec![1, 2, 3, 4]));
    assert!(q.pop_bytes(4).is_none());
}

#[test]
fn drain_bytes_returns_pushed_bytes_in_order() {
    let mut q = RawAudioQueue::new(ClockTime::from_secs(10));
    q.push_buffer(buf(vec![9, 8]));
    q.push_buffer(buf(vec![]));
    q.push_buffer(buf(vec![7, 6, 5]));
    assert_eq!(q.drain_bytes(), vec![9, 8, 7, 6, 5]);
    assert_eq!(q.no_buffers(), 0);
    assert_eq!(q.no_bytes(), Some(0));
}
