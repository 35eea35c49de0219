use ffone::audio::{RawAudioBuffer, RawAudioFormat};
use ffone::clock::ClockTime;
use ffone::resize::{
    add_silence, choose_resize_strategy, discard, downsample, resize, upsample, ResizeStrategy,
};

const RATE: u32 = 48000;

#[test]
fn tests_test_discard() {
    let data = vec![1, 2, 3, 4, 5, 6, 1, 2, 3, 4, 5, 6, 1, 2, 3];
    let audio = RawAudioBuffer::new(data.clone(), RawAudioFormat::S24BE, RATE);
    let discraded_audio = vec![4, 5, 6, 1, 2, 3];

    assert_eq!(discard(audio, 2).as_slice(), discraded_audio);
}

#[test]
fn tests_test_downsample_int_rate() {
    let data = vec![1, 2, 3, 4, 5, 6, 1, 2, 3, 4, 5, 6, 1, 2, 3];

    let audio = RawAudioBuffer::new(data.clone(), RawAudioFormat::S24BE, RATE);
    let downsampled_audio = {
        let first = i32::from_be_bytes([0, 1, 2, 3]);
        let second = i32::from_be_bytes([0, 4, 5, 6]);
        let res = (first + second) / 2;

        let mut data = res.to_be_bytes()[1..4].to_vec();

        let third = i32::from_be_bytes([0, 1, 2, 3]);
        let res = (first + second + third) / 3;
        data.extend_from_slice(&res.to_be_bytes()[1..4]);

        data
    };
    let no_samples = audio.no_samples();
    assert_eq!(
        downsample(audio, no_samples / 2).as_slice(),
        downsampled_audio
    );

    let audio = RawAudioBuffer::new(data, RawAudioFormat::S24LE, RATE);
    let downsampled_audio = {
        let first = i32::from_le_bytes([1, 2, 3, 0]);
        let second = i32::from_le_bytes([4, 5, 6, 0]);
        let res = (first + second) / 2;

        let mut data = res.to_le_bytes()[0..3].to_vec();

        let third = i32::from_le_bytes([1, 2, 3, 0]);
        let res = (first + second + third) / 3;
        data.extend_from_slice(&res.to_le_bytes()[0..3]);

        data
    };
    let no_samples = audio.no_samples();
    assert_eq!(
        downsample(audio, no_samples / 2).as_slice(),
        downsampled_audio
    );

    let data = vec![1, 2, 3, 4, 5, 6, 1, 2, 3, 4, 5, 6];

    let audio = RawAudioBuffer::new(data.clone(), RawAudioFormat::S24BE, RATE);
    let downsampled_audio = {
        let first = i32::from_be_bytes([0, 1, 2, 3]);
        let second = i32::from_be_bytes([0, 4, 5, 6]);
        let res = (first + second) / 2;

        let mut data = res.to_be_bytes()[1..4].to_vec();
        data.extend_from_within(0..3);

        data
    };
    let no_samples = audio.no_samples();
    assert_eq!(
        downsample(audio, no_samples / 2).as_slice(),
        downsampled_audio
    );

    let audio = RawAudioBuffer::new(data, RawAudioFormat::S24LE, RATE);
    let downsampled_audio = {
        let first = i32::from_le_bytes([1, 2, 3, 0]);
        let second = i32::from_le_bytes([4, 5, 6, 0]);
        let res = (first + second) / 2;

        let mut data = res.to_le_bytes()[0..3].to_vec();
        data.extend_from_within(0..3);

        data
    };
    let no_samples = audio.no_samples();
    assert_eq!(
        downsample(audio, no_samples / 2).as_slice(),
        downsampled_audio
    );
}

#[test]
fn tests_test_downsample_real_rate() {
    let data = vec![1, 2, 3, 4, 5, 6, 1, 2, 3, 4, 5, 6, 1, 2, 3];

    let audio = RawAudioBuffer::new(data.clone(), RawAudioFormat::S24BE, RATE);
    let downsampled_audio = {
        let first = i32::from_be_bytes([0, 1, 2, 3]);
        let second = i32::from_be_bytes([0, 4, 5, 6]);
        let res = (first + second) / 2;

        let mut data = vec![1, 2, 3];
        data.extend_from_slice(&res.to_be_bytes()[1..4]);
        data.extend_from_within(3..6);

        data
    };
    let no_samples = audio.no_samples();
    assert_eq!(
        downsample(audio, no_samples * 2 / 3).as_slice(),
        downsampled_audio
    );

    let audio = RawAudioBuffer::new(data, RawAudioFormat::S24LE, RATE);
    let downsampled_audio = {
        let first = i32::from_le_bytes([1, 2, 3, 0]);
        let second = i32::from_le_bytes([4, 5, 6, 0]);
        let res = (first + second) / 2;

        let mut data = vec![1, 2, 3];
        data.extend_from_slice(&res.to_le_bytes()[0..3]);
        data.extend_from_within(3..6);

        data
    };
    let no_samples = audio.no_samples();
    assert_eq!(
        downsample(audio, no_samples * 2 / 3).as_slice(),
        downsampled_audio
    );

    let data = vec![1, 2, 3, 4, 5, 6, 1, 2, 3, 4, 5, 6, 1, 2, 3, 4, 5, 6];

    let audio = RawAudioBuffer::new(data.clone(), RawAudioFormat::S24BE, RATE);
    let downsampled_audio = {
        let first = i32::from_be_bytes([0, 1, 2, 3]);
        let second = i32::from_be_bytes([0, 4, 5, 6]);
        let res = (first + second) / 2;

        let mut data = vec![1, 2, 3, 4, 5, 6];
        data.extend_from_slice(&res.to_be_bytes()[1..4]);
        data.extend_from_within(6..9);

        data
    };
    let no_samples = audio.no_samples();
    assert_eq!(
        downsample(audio, no_samples * 2 / 3).as_slice(),
        downsampled_audio
    );

    let audio = RawAudioBuffer::new(data, RawAudioFormat::S24LE, RATE);
    let downsampled_audio = {
        let first = i32::from_le_bytes([1, 2, 3, 0]);
        let second = i32::from_le_bytes([4, 5, 6, 0]);
        let res = (first + second) / 2;

        let mut data = vec![1, 2, 3, 4, 5, 6];
        data.extend_from_slice(&res.to_le_bytes()[0..3]);
        data.extend_from_within(6..9);

        data
    };
    let no_samples = audio.no_samples();
    assert_eq!(
        downsample(audio, no_samples * 2 / 3).as_slice(),
        downsampled_audio
    );
}

#[test]
fn test_upsample_int_rate() {
    let data = vec![1, 2, 3, 4, 5, 6, 1, 2, 3, 4, 5, 6, 1, 2, 3, 4, 5, 6];
    let audio = RawAudioBuffer::new(data.clone(), RawAudioFormat::S24BE, RATE);
    let desired_no_samples = audio.no_samples() * 3 / 2;

    let new_audio = upsample(audio, desired_no_samples);
    println!("{}: {:?}", new_audio.no_samples(), new_audio);
}

#[test]
fn upsample_interpolates_linearly() {
    // U8 samples 0, 90, 30, 60 to 7 samples: k1 = 6/3 = 2 per pair.
    let audio = RawAudioBuffer::new(vec![0, 90, 30, 60], RawAudioFormat::U8, 8000);
    let out = upsample(audio, 7);
    assert_eq!(out.as_slice(), &[0, 45, 90, 60, 30, 45, 60]);
}

#[test]
fn upsample_signed_rounds_toward_zero() {
    // S16LE samples -3 and 0 to 3 samples: -3, (-3 * 1 + 0) / 2 = -1, 0.
    let mut data = Vec::new();
    data.extend_from_slice(&(-3i16).to_le_bytes());
    data.extend_from_slice(&0i16.to_le_bytes());
    let audio = RawAudioBuffer::new(data, RawAudioFormat::S16LE, 8000);
    let out = upsample(audio, 3);
    let mut expected = Vec::new();
    for v in [-3i16, -1, 0] {
        expected.extend_from_slice(&v.to_le_bytes());
    }
    assert_eq!(out.as_slice(), expected.as_slice());
}

#[test]
fn downsample_signed_big_endian() {
    // S16BE -100, -201, 50, 51 to 2 samples: mean(-100, -201) = -150, mean(50, 51) = 50.
    let mut data = Vec::new();
    for v in [-100i16, -201, 50, 51] {
        data.extend_from_slice(&v.to_be_bytes());
    }
    let audio = RawAudioBuffer::new(data, RawAudioFormat::S16BE, 8000);
    let out = downsample(audio, 2);
    let mut expected = Vec::new();
    for v in [-150i16, 50] {
        expected.extend_from_slice(&v.to_be_bytes());
    }
    assert_eq!(out.as_slice(), expected.as_slice());
}

#[test]
fn add_silence_appends_zero_samples() {
    let audio = RawAudioBuffer::new(vec![1, 2, 3, 4], RawAudioFormat::S16LE, 8000);
    let out = add_silence(audio, 4);
    assert_eq!(out.as_slice(), &[1, 2, 3, 4, 0, 0, 0, 0]);
}

#[test]
fn strategy_bins() {
    assert_eq!(choose_resize_strategy(0, 5), None);
    assert_eq!(choose_resize_strategy(5, 0), None);
    assert_eq!(choose_resize_strategy(8, 8), Some(ResizeStrategy::PassThrough));
    assert_eq!(choose_resize_strategy(8, 6), Some(ResizeStrategy::Discard));
    assert_eq!(choose_resize_strategy(8, 7), Some(ResizeStrategy::Downsample));
    assert_eq!(choose_resize_strategy(8, 10), Some(ResizeStrategy::Upsample));
    assert_eq!(choose_resize_strategy(3, 4), Some(ResizeStrategy::AddSilence));
    assert_eq!(choose_resize_strategy(4, 5), Some(ResizeStrategy::Upsample));
}

#[test]
fn resize_pass_through_keeps_bytes() {
    let data = vec![9, 8, 7, 6, 5, 4];
    let audio = RawAudioBuffer::new(data.clone(), RawAudioFormat::S16BE, 8000);
    let out = resize(audio, 3).unwrap();
    assert_eq!(out.as_slice(), data.as_slice());
}

#[test]
fn resize_output_has_desired_length() {
    let data: Vec<u8> = (0..40u8).collect();
    for desired in 1..60usize {
        let audio = RawAudioBuffer::new(data.clone(), RawAudioFormat::S16LE, 8000);
        let out = resize(audio, desired).unwrap();
        assert_eq!(out.len(), desired * 2);
        assert_eq!(out.format(), RawAudioFormat::S16LE);
        assert_eq!(out.sample_rate(), 8000);
    }
}

#[test]
fn resize_drops_empty_input() {
    let audio = RawAudioBuffer::new(Vec::new(), RawAudioFormat::U8, 8000);
    assert!(resize(audio, 4).is_none());
    let audio = RawAudioBuffer::new(vec![1, 2], RawAudioFormat::U8, 8000);
    assert!(resize(audio, 0).is_none());
}

#[test]
fn scenario_resizer_downsample_means() {
    let data = vec![1, 2, 3, 4, 5, 6, 1, 2, 3, 4, 5, 6, 1, 2, 3];
    let audio = RawAudioBuffer::new(data, RawAudioFormat::S24BE, RATE);
    let s0 = 0x010203i32;
    let s1 = 0x040506i32;
    let mut expected = ((s0 + s1) / 2).to_be_bytes()[1..4].to_vec();
    expected.extend_from_slice(&((s0 + s1 + s0) / 3).to_be_bytes()[1..4]);
    assert_eq!(downsample(audio, 2).as_slice(), expected.as_slice());
}

#[test]
fn buffers_hold_whole_samples_after_cuts() {
    let mut audio = RawAudioBuffer::new(vec![0; 30], RawAudioFormat::S24LE, 1000);
    assert_eq!(audio.no_samples(), 10);
    assert_eq!(audio.duration(), ClockTime::from_millis(10));
    audio.truncate_front(3);
    assert_eq!(audio.len() % 3, 0);
    assert_eq!(audio.no_samples(), 7);
    audio.truncate_duration_front(ClockTime::from_nanos(2_500_000));
    assert_eq!(audio.no_samples(), 5);
    audio.truncate_duration(ClockTime::from_millis(4));
    assert_eq!(audio.no_samples(), 4);
    let (a, b) = audio.split_at_timestamp(ClockTime::from_millis(1));
    assert_eq!((a.len(), b.len()), (3, 9));
}

#[test]
fn s24_samples_are_signed() {
    // -1 (0xFFFFFF) and 1 average to 0, and 3 -> 2 samples keeps the sign of -2.
    let audio = RawAudioBuffer::new(vec![0xff, 0xff, 0xff, 1, 0, 0], RawAudioFormat::S24LE, RATE);
    assert_eq!(downsample(audio, 1).as_slice(), &[0, 0, 0]);
    let audio = RawAudioBuffer::new(
        vec![0xff, 0xff, 0xfe, 0xff, 0xff, 0xfe, 0, 0, 4],
        RawAudioFormat::S24BE,
        RATE,
    );
    // Windows: [-2] then [-2, 4]: means -2 and 1.
    assert_eq!(downsample(audio, 2).as_slice(), &[0xff, 0xff, 0xfe, 0, 0, 1]);
}
