use vstd::prelude::*;

use crate::audio::{
    EncodedAudioBuffer, RawAudioBuffer, RawAudioFormat, ResizableRawAudioBuffer, ResizableView,
    TimestampedRawAudioBuffer, TimestampedView,
};
use crate::clock::{ClockCalibrationInfo, ClockTime};
use crate::audio::DemuxError;
use crate::demux::{failures, AudioDemuxer};
use crate::resize::{computes_on_samples, resized_bytes, strategy_for, AudioResizer};
use crate::sync::{sync_run, Synchronizer};

verus! {

/// What an element tells the supervisor.
#[derive(Clone, Copy, Debug, PartialEq, Eq, Structural)]
pub enum Notification {
    DecoderFailed,
    UnknownCodec,
    FrameTooShort,
    SinkFormatMismatch,
    RestartStream,
}

/// What the supervisor asks of the audio system.
#[derive(Clone, Copy, Debug, PartialEq, Eq, Structural)]
pub enum AudioSystemControlMessage {
    Stop,
}

/// What the supervisor asks of the control surface.
#[derive(Clone, Copy, Debug, PartialEq, Eq, Structural)]
pub enum ViewControlMessage {
    Stop,
}

/// A request of the supervisor, by the component it is for.
#[derive(Clone, Copy, Debug, PartialEq, Eq, Structural)]
pub enum ControlMessage {
    View(ViewControlMessage),
    AudioSystem(AudioSystemControlMessage),
}

#[derive(Clone, Debug, PartialEq, Eq, Hash)]
pub struct AudioDecoderInfo {
    pub name: String,
}

#[derive(Clone, Debug, PartialEq, Eq, Hash)]
pub struct VirtualMicrophoneInfo {
    pub name: String,
}

/// A codec backend: takes encoded buffers with their header and start timestamp, hands
/// back raw buffers carrying the timestamps of the encoded stream.
pub trait AudioDecoder {
    fn info(&self) -> AudioDecoderInfo;

    fn push(&mut self, buf: EncodedAudioBuffer);

    fn push_eos(&mut self);

    /// The next decoded buffer, where the backend has produced one.
    fn pull(&mut self) -> Option<TimestampedRawAudioBuffer>;

    fn is_eos(&self) -> bool;
}

/// A sink that plays raw buffers on the host's audio subsystem.
pub trait VirtualMicrophone {
    fn info(&self) -> VirtualMicrophoneInfo;

    fn push(&mut self, buf: RawAudioBuffer);

    /// The calibration of the sink's playback clock against the host clock, where the sink
    /// has one.
    fn provide_calibration(&self) -> Option<ClockCalibrationInfo>;
}

/// Takes the decoder registered first, leaving its slot empty; `None` where none is
/// registered or the first one was already taken.
pub fn take_first_audio_decoder<D>(audio_decs: &mut Vec<(AudioDecoderInfo, Option<D>)>) -> (r:
    Option<D>)
    ensures
        old(audio_decs)@.len() == 0 ==> r.is_none() && final(audio_decs)@ == old(audio_decs)@,
        old(audio_decs)@.len() > 0 ==> {
            &&& r == old(audio_decs)@[0].1
            &&& final(audio_decs)@.len() == old(audio_decs)@.len()
            &&& final(audio_decs)@[0].1.is_none()
            &&& final(audio_decs)@.skip(1) == old(audio_decs)@.skip(1)
        },
{
    take_first(audio_decs)
}

/// Takes the virtual microphone registered first, leaving its slot empty; `None` where none
/// is registered or the first one was already taken.
pub fn take_first_virtual_microphone<M>(
    virtual_mics: &mut Vec<(VirtualMicrophoneInfo, Option<M>)>,
) -> (r: Option<M>)
    ensures
        old(virtual_mics)@.len() == 0 ==> r.is_none() && final(virtual_mics)@ == old(
            virtual_mics,
        )@,
        old(virtual_mics)@.len() > 0 ==> {
            &&& r == old(virtual_mics)@[0].1
            &&& final(virtual_mics)@.len() == old(virtual_mics)@.len()
            &&& final(virtual_mics)@[0].1.is_none()
            &&& final(virtual_mics)@.skip(1) == old(virtual_mics)@.skip(1)
        },
{
    take_first(virtual_mics)
}

fn take_first<I, T>(entries: &mut Vec<(I, Option<T>)>) -> (r: Option<T>)
    ensures
        old(entries)@.len() == 0 ==> r.is_none() && final(entries)@ == old(entries)@,
        old(entries)@.len() > 0 ==> {
            &&& r == old(entries)@[0].1
            &&& final(entries)@.len() == old(entries)@.len()
            &&& final(entries)@[0].1.is_none()
            &&& final(entries)@[0].0 == old(entries)@[0].0
            &&& final(entries)@.skip(1) == old(entries)@.skip(1)
        },
{
    if entries.len() == 0 {
        return None;
    }
    let (info, item) = entries.remove(0);
    entries.insert(0, (info, None));
    proof {
        assert(entries@.skip(1) =~= old(entries)@.skip(1));
    }
    item
}

/// A raw buffer as values: bytes, format, sample rate.
pub type RawView = (Seq<u8>, RawAudioFormat, u32);

/// What the tail of the pipeline makes of the synchronizer's output: the raw buffers that
/// the resizer produced, in order, and the buffers of float samples that it leaves to the
/// caller.
pub open spec fn tail_outputs(rs: Seq<ResizableView>) -> (Seq<RawView>, Seq<ResizableView>)
    decreases rs.len(),
{
    if rs.len() == 0 {
        (Seq::empty(), Seq::empty())
    } else {
        let prev = tail_outputs(rs.drop_last());
        let r = rs.last();
        if r.1.is_float() && computes_on_samples(
            strategy_for(crate::audio::samples_in(r.0.len(), r.1), r.3),
        ) {
            (prev.0, prev.1.push(r))
        } else if r.3 * r.1.bytes_per_sample() > usize::MAX {
            prev
        } else {
            match resized_bytes(r.1, r.0, r.3) {
                Some(b) => (prev.0.push((b, r.1, r.2)), prev.1),
                None => prev,
            }
        }
    }
}

pub open spec fn raw_views(q: Seq<RawAudioBuffer>) -> Seq<RawView> {
    q.map_values(|b: RawAudioBuffer| (b@, b.spec_format(), b.spec_sample_rate()))
}

/// The notifications for the demuxing failures met: frames too short, then unknown codecs.
pub open spec fn demux_notifications(frames_too_short: bool, unknown_codecs: bool) -> Seq<
    Notification,
> {
    (if frames_too_short {
        seq![Notification::FrameTooShort]
    } else {
        Seq::empty()
    }) + (if unknown_codecs {
        seq![Notification::UnknownCodec]
    } else {
        Seq::empty()
    })
}

/// At most this many decoded buffers move to the synchronizer per update; the rest wait
/// in the decoder for the next one.
pub const MAX_DECODED_PER_UPDATE: usize = 1024;

/// What one update of the pipeline hands on.
pub struct PipelineOutput {
    /// Raw buffers for the sink, in order.
    pub buffers: Vec<RawAudioBuffer>,
    /// Buffers of float samples that must be averaged or interpolated outside the library.
    pub float_resizes: Vec<ResizableRawAudioBuffer>,
    pub notifications: Vec<Notification>,
}

/// Demuxer, decoder, synchronizer and resizer chained in that order.
pub struct AudioPipeline<D> {
    demuxer: AudioDemuxer,
    decoder: Option<D>,
    synchronizer: Synchronizer,
    resizer: AudioResizer,
}

impl<D: AudioDecoder> AudioPipeline<D> {
    pub closed spec fn wf(&self) -> bool {
        self.synchronizer.wf()
    }

    pub closed spec fn synchronizer(&self) -> Synchronizer {
        self.synchronizer
    }

    pub closed spec fn pending_frames(&self) -> Seq<Seq<u8>> {
        self.demuxer.pending()
    }

    pub fn new() -> (r: Self)
        ensures
            r.wf(),
            r.pending_frames() == Seq::<Seq<u8>>::empty(),
    {
        AudioPipeline {
            demuxer: AudioDemuxer::new(),
            decoder: None,
            synchronizer: Synchronizer::new(),
            resizer: AudioResizer::new(),
        }
    }

    /// Installs a decoder and hands back the one it replaces.
    pub fn set_audio_decoder(&mut self, decoder: D) -> (r: Option<D>)
        ensures
            final(self).wf() == old(self).wf(),
            final(self).synchronizer() == old(self).synchronizer(),
            final(self).pending_frames() == old(self).pending_frames(),
    {
        let prev = self.decoder.take();
        self.decoder = Some(decoder);
        prev
    }

    pub fn take_audio_decoder(&mut self) -> (r: Option<D>)
        ensures
            final(self).wf() == old(self).wf(),
            final(self).synchronizer() == old(self).synchronizer(),
            final(self).pending_frames() == old(self).pending_frames(),
    {
        self.decoder.take()
    }

    /// Takes in a muxed frame from the device link.
    pub fn push(&mut self, buf: crate::audio::MuxedAudioBuffer)
        ensures
            final(self).wf() == old(self).wf(),
            final(self).synchronizer() == old(self).synchronizer(),
            final(self).pending_frames() == old(self).pending_frames().push(buf.0@),
    {
        self.demuxer.push(buf);
    }

    /// The calibration of the sink's slaved clock, for the synchronizer.
    pub fn set_virtual_microphone_clock(&mut self, calibration: Option<ClockCalibrationInfo>)
        ensures
            final(self).wf() == old(self).wf(),
            final(self).synchronizer().calibration() == calibration,
            final(self).synchronizer().latches() == old(self).synchronizer().latches(),
            final(self).synchronizer().expected() == old(self).synchronizer().expected(),
            final(self).synchronizer().pending() == old(self).synchronizer().pending(),
            final(self).pending_frames() == old(self).pending_frames(),
    {
        self.synchronizer.set_virtual_microphone_clock(calibration);
    }

    /// Stops the stream: hands every pending frame to the decoder, then the end of stream.
    pub fn on_stop(&mut self)
        ensures
            final(self).wf() == old(self).wf(),
            final(self).synchronizer() == old(self).synchronizer(),
            final(self).pending_frames() == Seq::<Seq<u8>>::empty(),
    {
        let mut frames = self.demuxer.drain();
        let mut decoder = self.decoder.take();
        match decoder {
            Some(ref mut dec) => {
                let n = frames.len();
                let mut i: usize = 0;
                while i < n
                    invariant
                        i <= n,
                        frames.len() == n - i,
                    decreases n - i,
                {
                    let f = frames.remove(0);
                    dec.push(f);
                    i = i + 1;
                }
                dec.push_eos();
            },
            None => {},
        }
        self.decoder = decoder;
    }

    /// Runs every stage once at time `now`: demuxes all pending frames into the decoder,
    /// moves what the decoder has produced into the synchronizer, schedules, and resizes
    /// what is due.
    pub fn update(&mut self, now: ClockTime) -> (r: PipelineOutput)
        requires
            old(self).wf(),
        ensures
            final(self).wf(),
            final(self).pending_frames() == Seq::<Seq<u8>>::empty(),
            r.notifications@ == demux_notifications(
                failures(old(self).pending_frames(), DemuxError::FrameTooShort) > 0,
                failures(old(self).pending_frames(), DemuxError::UnknownCodec) > 0,
            ),
            exists|decoded: Seq<TimestampedView>|
                #![trigger old(self).synchronizer().pending() + decoded]
                {
                    let run = sync_run(
                        old(self).synchronizer().latches(),
                        old(self).synchronizer().expected(),
                        old(self).synchronizer().pending() + decoded,
                        now.0,
                        old(self).synchronizer().calibration(),
                    );
                    &&& final(self).synchronizer().latches() == run.0
                    &&& final(self).synchronizer().expected() == run.1
                    &&& final(self).synchronizer().pending() == run.2
                    &&& raw_views(r.buffers@) == tail_outputs(run.3).0
                    &&& crate::sync::resizable_views(r.float_resizes@) == tail_outputs(run.3).1
                },
    {
        let mut notifications: Vec<Notification> = Vec::new();
        let report = self.demuxer.drain_report();
        let frames = report.frames;
        if report.frames_too_short {
            notifications.push(Notification::FrameTooShort);
        }
        if report.unknown_codecs {
            notifications.push(Notification::UnknownCodec);
        }
        proof {
            assert(notifications@ =~= demux_notifications(
                report.frames_too_short,
                report.unknown_codecs,
            ));
        }
        let ghost start_pending = self.synchronizer.pending();
        let ghost mut decoded: Seq<TimestampedView> = Seq::empty();
        let mut decoder = self.decoder.take();
        match decoder {
            Some(ref mut dec) => {
                let mut i: usize = 0;
                let n = frames.len();
                let mut frames_iter = frames;
                while i < n
                    invariant
                        i <= n,
                        frames_iter.len() == n - i,
                        self.demuxer.pending() == Seq::<Seq<u8>>::empty(),
                        self.synchronizer == old(self).synchronizer,
                    decreases n - i,
                {
                    let f = frames_iter.remove(0);
                    dec.push(f);
                    i = i + 1;
                }
                let mut pulled: usize = 0;
                while pulled < MAX_DECODED_PER_UPDATE
                    invariant
                        self.demuxer.pending() == Seq::<Seq<u8>>::empty(),
                        start_pending == old(self).synchronizer.pending(),
                        self.synchronizer.wf(),
                        self.synchronizer.pending() == start_pending + decoded,
                        self.synchronizer.calibration() == old(self).synchronizer.calibration(),
                        self.synchronizer.latches() == old(self).synchronizer.latches(),
                        self.synchronizer.expected() == old(self).synchronizer.expected(),
                    decreases MAX_DECODED_PER_UPDATE - pulled,
                {
                    pulled = pulled + 1;
                    match dec.pull() {
                        Some(buf) => {
                            let ghost v = buf@;
                            self.synchronizer.push(buf);
                            proof {
                                assert(start_pending + decoded.push(v) =~= (start_pending
                                    + decoded).push(v));
                                decoded = decoded.push(v);
                            }
                        },
                        None => {
                            break;
                        },
                    }
                }
            },
            None => {},
        }
        self.decoder = decoder;
        proof {
            assert(start_pending + Seq::<TimestampedView>::empty() =~= start_pending);
            assert(self.synchronizer.pending() == start_pending + decoded);
            assert(self.synchronizer.latches() == old(self).synchronizer.latches());
            assert(self.synchronizer.expected() == old(self).synchronizer.expected());
            assert(self.synchronizer.calibration() == old(self).synchronizer.calibration());
        }
        let ghost before = self.synchronizer;
        let due = self.synchronizer.update(now);
        let ghost rs = crate::sync::resizable_views(due@);
        let ghost after = self.synchronizer;
        let mut buffers: Vec<RawAudioBuffer> = Vec::new();
        let mut float_resizes: Vec<ResizableRawAudioBuffer> = Vec::new();
        let mut due = due;
        let n = due.len();
        let mut i: usize = 0;
        let ghost all = due@;
        while i < n
            invariant
                i <= n,
                n == all.len(),
                self.demuxer.pending() == Seq::<Seq<u8>>::empty(),
                self.synchronizer.wf(),
                self.synchronizer == after,
                due@ == all.skip(i as int),
                rs == crate::sync::resizable_views(all),
                raw_views(buffers@) == tail_outputs(rs.take(i as int)).0,
                crate::sync::resizable_views(float_resizes@) == tail_outputs(rs.take(i as int)).1,
            decreases n - i,
        {
            let item = due.remove(0);
            proof {
                assert(all.skip(i as int)[0] == item);
                assert(due@ =~= all.skip(i + 1));
                assert(rs.take(i + 1).drop_last() =~= rs.take(i as int));
                assert(rs.take(i + 1).last() == item@);
            }
            let raw_format = item.raw().format();
            let bps = raw_format.no_bytes();
            let current = item.no_samples();
            let desired = item.desired_no_samples();
            let strategy = crate::resize::choose_resize_strategy(current, desired);
            let float_work = raw_format.is_float_format() && match strategy {
                Some(crate::resize::ResizeStrategy::Downsample) => true,
                Some(crate::resize::ResizeStrategy::Upsample) => true,
                _ => false,
            };
            if float_work {
                let ghost v = item@;
                float_resizes.push(item);
                proof {
                    assert(crate::sync::resizable_views(float_resizes@) =~= tail_outputs(
                        rs.take(i as int),
                    ).1.push(v));
                }
            } else if {
                assert((desired as u128) * (bps as u128) <= 4 * usize::MAX) by (nonlinear_arith)
                    requires
                        bps <= 4,
                        desired <= usize::MAX,
                ;
                (desired as u128) * (bps as u128) > usize::MAX as u128
            } {
            } else {
                let ghost v = item@;
                match self.resizer.process(item) {
                    Some(out) => {
                        let ghost ov = (out@, out.spec_format(), out.spec_sample_rate());
                        buffers.push(out);
                        proof {
                            assert(raw_views(buffers@) =~= tail_outputs(rs.take(i as int)).0.push(
                                ov,
                            ));
                        }
                    },
                    None => {},
                }
            }
            i = i + 1;
        }
        proof {
            assert(rs.take(n as int) =~= rs);
            assert(old(self).synchronizer().pending() + decoded == before.pending());
            let run = sync_run(
                old(self).synchronizer().latches(),
                old(self).synchronizer().expected(),
                old(self).synchronizer().pending() + decoded,
                now.0,
                old(self).synchronizer().calibration(),
            );
            assert(before.latches() == old(self).synchronizer().latches());
            assert(before.expected() == old(self).synchronizer().expected());
            assert(before.calibration() == old(self).synchronizer().calibration());
            assert(run == sync_run(
                before.latches(),
                before.expected(),
                before.pending(),
                now.0,
                before.calibration(),
            ));
        }
        PipelineOutput { buffers, float_resizes, notifications }
    }
}

} // verus!
