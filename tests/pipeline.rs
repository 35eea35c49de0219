use std::collections::VecDeque;

use ffone::audio::{
    EncodedAudioBuffer, MuxedAudioBuffer, RawAudioBuffer, RawAudioFormat, TimestampedRawAudioBuffer,
};
use ffone::clock::ClockTime;
use ffone::pipeline::{
    take_first_audio_decoder, take_first_virtual_microphone, AudioDecoder, AudioDecoderInfo,
    AudioPipeline, Notification, VirtualMicrophoneInfo,
};
use ffone::queue::RawAudioQueue;
use ffone::runnable::{Runnable, RunnableState, RunnableStateMachine};

/// Turns each payload byte into one U8 sample at the frame's rate.
struct ByteDecoder {
    out: VecDeque<TimestampedRawAudioBuffer>,
}

impl AudioDecoder for ByteDecoder {
    fn info(&self) -> AudioDecoderInfo {
        AudioDecoderInfo { name: String::from("bytes") }
    }

    fn push(&mut self, buf: EncodedAudioBuffer) {
        let raw = RawAudioBuffer::new(buf.data, RawAudioFormat::U8, buf.header.sample_rate);
        self.out.push_back(TimestampedRawAudioBuffer::new(raw, buf.start_ts));
    }

    fn push_eos(&mut self) {
        self.out.push_back(TimestampedRawAudioBuffer::null());
    }

    fn pull(&mut self) -> Option<TimestampedRawAudioBuffer> {
        self.out.pop_front()
    }

    fn is_eos(&self) -> bool {
        false
    }
}

fn frame(start: u64, payload: usize) -> MuxedAudioBuffer {
    let mut data = vec![1];
    data.extend_from_slice(&8000u32.to_be_bytes());
    data.extend_from_slice(&start.to_be_bytes());
    data.extend(std::iter::repeat(5u8).take(payload));
    MuxedAudioBuffer(data)
}

#[test]
fn pipeline_runs_frames_through_to_raw_buffers() {
    let mut pipeline: AudioPipeline<ByteDecoder> = AudioPipeline::new();
    assert!(pipeline.set_audio_decoder(ByteDecoder { out: VecDeque::new() }).is_none());
    pipeline.push(frame(0, 8000));
    pipeline.push(MuxedAudioBuffer(vec![1, 2]));
    let out = pipeline.update(ClockTime::from_nanos(0));
    assert_eq!(out.notifications, vec![Notification::FrameTooShort]);
    assert_eq!(out.buffers.len(), 1);
    assert_eq!(out.buffers[0].len(), 8000);
    assert!(out.float_resizes.is_empty());

    // 250 ms late: the resizer shortens the buffer to 6000 samples.
    pipeline.push(frame(1_000_000_000, 8000));
    let out = pipeline.update(ClockTime::from_nanos(1_250_000_000));
    assert_eq!(out.buffers.len(), 1);
    assert_eq!(out.buffers[0].len(), 6000);

    let mut queue = RawAudioQueue::new(ClockTime::from_secs(5));
    for b in out.buffers {
        queue.push_buffer(b);
    }
    let read = queue.read_for_sink(10, RawAudioFormat::U8, 8000);
    assert_eq!(read.bytes, vec![5; 10]);
    assert!(!read.format_mismatch);
}

#[test]
fn sink_read_zero_fills_on_format_change() {
    let mut queue = RawAudioQueue::new(ClockTime::from_secs(5));
    queue.push_buffer(RawAudioBuffer::new(vec![1, 2, 3], RawAudioFormat::U8, 8000));
    queue.push_buffer(RawAudioBuffer::new(vec![4, 5], RawAudioFormat::S16LE, 8000));
    let read = queue.read_for_sink(6, RawAudioFormat::U8, 8000);
    assert_eq!(read.bytes, vec![1, 2, 3, 0, 0, 0]);
    assert!(read.format_mismatch);
    let read = queue.read_for_sink(4, RawAudioFormat::S16LE, 8000);
    assert_eq!(read.bytes, vec![4, 5, 0, 0]);
    assert!(!read.format_mismatch);
}

struct Counter {
    starts: u32,
    stops: u32,
    updates: u32,
}

impl Runnable for Counter {
    fn update(&mut self) -> Result<(), Notification> {
        self.updates += 1;
        Ok(())
    }

    fn on_start(&mut self) {
        self.starts += 1;
    }

    fn on_stop(&mut self) {
        self.stops += 1;
    }
}

#[test]
fn runnable_state_machine_alternates() {
    let mut m = RunnableStateMachine::new(Counter { starts: 0, stops: 0, updates: 0 });
    assert!(!m.is_running());
    assert!(m.proceed().is_none());
    assert!(m.stop().is_err());
    assert!(m.start().is_ok());
    assert!(m.start().is_err());
    assert_eq!(m.proceed(), Some(Ok(())));
    assert!(m.next_state().is_ok());
    assert!(!m.is_running());
    assert_eq!(m.runnable().updates, 1);
    let m = RunnableStateMachine::new_running(Counter { starts: 0, stops: 0, updates: 0 });
    let c = m.into_runnable();
    assert_eq!((c.starts, c.stops), (1, 1));
    assert_ne!(RunnableState::Running, RunnableState::NotRunning);
}

#[test]
fn take_first_decoder_leaves_slot_empty() {
    let mut decs = vec![
        (AudioDecoderInfo { name: String::from("a") }, Some(1u8)),
        (AudioDecoderInfo { name: String::from("b") }, Some(2u8)),
    ];
    assert_eq!(take_first_audio_decoder(&mut decs), Some(1));
    assert_eq!(take_first_audio_decoder(&mut decs), None);
    assert_eq!(decs[1].1, Some(2));
    let mut mics: Vec<(VirtualMicrophoneInfo, Option<u8>)> = Vec::new();
    assert_eq!(take_first_virtual_microphone(&mut mics), None);
}

#[test]
fn stop_flushes_frames_and_ends_stream() {
    let mut pipeline: AudioPipeline<ByteDecoder> = AudioPipeline::new();
    pipeline.set_audio_decoder(ByteDecoder { out: VecDeque::new() });
    pipeline.push(frame(0, 800));
    pipeline.on_stop();
    let out = pipeline.update(ClockTime::from_nanos(0));
    assert_eq!(out.buffers.len(), 1);
    assert_eq!(out.buffers[0].len(), 800);
    let dec = pipeline.take_audio_decoder().unwrap();
    assert_eq!(dec.info().name, "bytes");
}

#[test]
fn pipeline_reports_each_kind_of_bad_frame_once() {
    let mut pipeline: AudioPipeline<ByteDecoder> = AudioPipeline::new();
    pipeline.push(MuxedAudioBuffer(vec![9; 20]));
    pipeline.push(MuxedAudioBuffer(vec![]));
    pipeline.push(MuxedAudioBuffer(vec![9; 20]));
    let out = pipeline.update(ClockTime::from_nanos(0));
    assert_eq!(out.notifications, vec![Notification::FrameTooShort, Notification::UnknownCodec]);
    let out = pipeline.update(ClockTime::from_nanos(0));
    assert!(out.notifications.is_empty());
}
