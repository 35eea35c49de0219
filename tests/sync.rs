use ffone::audio::{RawAudioBuffer, RawAudioFormat, ResizableRawAudioBuffer, TimestampedRawAudioBuffer};
use ffone::clock::{ClockCalibrationInfo, ClockObservation, ClockTime};
use ffone::sync::Synchronizer;

const RAW_AUDIO_FORMAT: RawAudioFormat = RawAudioFormat::U8;
const SAMPLE_RATE: u32 = 8000;

fn millis(ms: u64) -> ClockTime {
    ClockTime::from_millis(ms)
}

fn one_second_buffer(start: Option<ClockTime>) -> TimestampedRawAudioBuffer {
    TimestampedRawAudioBuffer::new(
        RawAudioBuffer::new(vec![42; SAMPLE_RATE as usize], RAW_AUDIO_FORMAT, SAMPLE_RATE),
        start,
    )
}

fn same(a: &ResizableRawAudioBuffer, b: &ResizableRawAudioBuffer) -> bool {
    a == b
}

#[test]
fn test_buffer_early_arrival() {
    let mut sync = Synchronizer::new();
    let mut now = ClockTime::from_nanos(0);

    sync.push(one_second_buffer(Some(ClockTime::from_nanos(0))));
    assert!(!sync.update(now).is_empty());

    now = millis(500);
    sync.push(one_second_buffer(Some(ClockTime::from_secs(1))));
    assert!(sync.update(now).is_empty());

    now = millis(1000);
    assert!(!sync.update(now).is_empty());
}

#[test]
fn test_buffer_arrival_in_time() {
    let mut sync = Synchronizer::new();

    sync.push(one_second_buffer(Some(ClockTime::from_nanos(0))));
    assert!(!sync.update(ClockTime::from_nanos(0)).is_empty());

    sync.push(one_second_buffer(Some(ClockTime::from_secs(1))));
    assert!(!sync.update(ClockTime::from_secs(1)).is_empty());
}

#[test]
fn test_buffer_late_arrival() {
    let reference_buffer = ResizableRawAudioBuffer::new(
        RawAudioBuffer::new(vec![42; SAMPLE_RATE as usize], RAW_AUDIO_FORMAT, SAMPLE_RATE),
        SAMPLE_RATE as usize - 250 * SAMPLE_RATE as usize / ClockTime::MILLIS_IN_SEC as usize,
    );

    let mut sync = Synchronizer::new();
    sync.push(one_second_buffer(Some(ClockTime::from_nanos(0))));
    assert!(!sync.update(ClockTime::from_nanos(0)).is_empty());

    sync.push(one_second_buffer(Some(ClockTime::from_secs(1))));
    let out = sync.update(ClockTime::from_nanos(1_250_000_000));
    assert_eq!(out.len(), 1);
    assert!(same(&out[0], &reference_buffer));
}

#[test]
fn test_non_monotonous_timestamp() {
    let reference_buffer = ResizableRawAudioBuffer::new(
        RawAudioBuffer::new(vec![42; SAMPLE_RATE as usize / 2], RAW_AUDIO_FORMAT, SAMPLE_RATE),
        SAMPLE_RATE as usize - 500 * SAMPLE_RATE as usize / ClockTime::MILLIS_IN_SEC as usize,
    );

    let mut sync = Synchronizer::new();
    sync.push(one_second_buffer(Some(ClockTime::from_nanos(0))));
    assert!(!sync.update(ClockTime::from_nanos(0)).is_empty());

    sync.push(one_second_buffer(Some(millis(500))));
    assert!(sync.update(millis(750)).is_empty());

    let out = sync.update(millis(1000));
    assert_eq!(out.len(), 1);
    assert!(same(&out[0], &reference_buffer));
}

#[test]
fn scenario_first_buffer_emits_full_length() {
    let mut sync = Synchronizer::new();
    sync.push(one_second_buffer(Some(ClockTime::from_nanos(0))));
    let out = sync.update(ClockTime::from_nanos(0));
    assert_eq!(out.len(), 1);
    assert_eq!(out[0].desired_no_samples(), 8000);
    assert_eq!(out[0].no_samples(), 8000);

    // The next buffer without a timestamp is assumed to follow on at 1 s.
    sync.push(one_second_buffer(None));
    let out = sync.update(ClockTime::from_secs(1));
    assert_eq!(out.len(), 1);
    assert_eq!(out[0].desired_no_samples(), 8000);
}

#[test]
fn scenario_slaved_clock_slope_stretches() {
    let mut sync = Synchronizer::new();
    let mean = ClockObservation::new(ClockTime::from_nanos(0), ClockTime::from_nanos(0));
    sync.set_virtual_microphone_clock(Some(ClockCalibrationInfo::new(1001, 1000, mean)));
    sync.push(one_second_buffer(Some(ClockTime::from_nanos(0))));
    let out = sync.update(ClockTime::from_nanos(0));
    assert_eq!(out.len(), 1);
    assert_eq!(out[0].desired_no_samples(), 7992);
}

#[test]
fn end_of_stream_resets_schedule() {
    let mut sync = Synchronizer::new();
    sync.push(one_second_buffer(Some(ClockTime::from_nanos(0))));
    assert_eq!(sync.update(ClockTime::from_nanos(0)).len(), 1);

    sync.push(TimestampedRawAudioBuffer::null());
    // After the reset a buffer stamped 10 s is the new first buffer and is due at once.
    sync.push(one_second_buffer(Some(ClockTime::from_secs(10))));
    let out = sync.update(ClockTime::from_secs(2));
    assert_eq!(out.len(), 1);
    assert_eq!(out[0].desired_no_samples(), 8000);
}

#[test]
fn empty_buffers_are_dropped() {
    let mut sync = Synchronizer::new();
    sync.push(TimestampedRawAudioBuffer::new(
        RawAudioBuffer::new(Vec::new(), RAW_AUDIO_FORMAT, SAMPLE_RATE),
        Some(ClockTime::from_nanos(0)),
    ));
    assert!(sync.update(ClockTime::from_nanos(0)).is_empty());
}
