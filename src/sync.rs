use vstd::prelude::*;

use crate::audio::{
    ts_duration, ts_is_null, ts_samples, ts_truncated_front, ResizableRawAudioBuffer,
    ResizableView, TimestampedRawAudioBuffer, TimestampedView,
};
use crate::clock::{min_int, ClockCalibrationInfo, ClockTime, NANOS_IN_SEC};
use std::collections::VecDeque;

verus! {

/// The arrival time and the start timestamp of the first buffer since the last reset.
pub type Latches = Option<(u64, u64)>;

/// What a run of the playout loop leaves: latches, expected next timestamp, the buffers
/// still queued, and the buffers handed on.
pub type SyncRun = (Latches, u64, Seq<TimestampedView>, Seq<ResizableView>);

/// Whether the head of `q` starts before `expected` (it overlaps what was scheduled).
pub open spec fn head_overlaps(q: Seq<TimestampedView>, expected: u64) -> bool {
    q.len() > 0 && (q[0].3 matches Some(s) && s.0 < expected)
}

pub open spec fn run_measure(q: Seq<TimestampedView>, expected: u64) -> nat {
    2 * q.len() + if head_overlaps(q, expected) {
        1nat
    } else {
        0nat
    }
}

/// How long a buffer that is `delay` late is played for: its duration less the delay, then
/// stretched by `slope_denom / slope_num` into the sink's time base where the slope is known.
pub open spec fn real_duration(
    duration: int,
    delay: int,
    slope: Option<ClockCalibrationInfo>,
) -> int {
    let left = if duration > delay {
        duration - delay
    } else {
        0
    };
    match slope {
        Some(info) => if info.slope_num > 0 {
            min_int(left * info.slope_denom / (info.slope_num as int), u64::MAX as int)
        } else {
            left
        },
        None => left,
    }
}

/// Samples at `rate` Hz in `nanos` nanoseconds, truncated and capped at `usize::MAX`.
pub open spec fn desired_samples(nanos: int, rate: int) -> int {
    min_int(nanos * rate / (NANOS_IN_SEC as int), usize::MAX as int)
}

/// The playout loop over the queue `q` at time `now`.
/// The end-of-stream sentinel resets the latches; an empty buffer is dropped; a buffer not
/// yet due stays at the head and stops the loop; one that starts before the expected
/// timestamp loses its overlapping front; a due buffer is handed on with the number of
/// samples that its remaining play time calls for.
pub open spec fn sync_run(
    latches: Latches,
    expected: u64,
    q: Seq<TimestampedView>,
    now: u64,
    slope: Option<ClockCalibrationInfo>,
) -> SyncRun
    decreases run_measure(q, expected),
{
    if q.len() == 0 {
        (latches, expected, q, Seq::empty())
    } else {
        let h = q[0];
        if ts_is_null(h) {
            sync_run(None, 0, q.skip(1), now, slope)
        } else if ts_samples(h) == 0 {
            sync_run(latches, expected, q.skip(1), now, slope)
        } else {
            let buf_start: u64 = match h.3 {
                Some(s) => s.0,
                None => expected,
            };
            let first = match latches {
                Some(l) => l,
                None => (now, buf_start),
            };
            let l2 = Some(first);
            let desired_play_date: int = buf_start - first.1 + first.0;
            if now < desired_play_date {
                (l2, expected, q, Seq::empty())
            } else if buf_start < expected {
                let h2 = ts_truncated_front(h, (expected - buf_start) as nat);
                sync_run(l2, expected, q.update(0, h2), now, slope)
            } else {
                let play = real_duration(ts_duration(h) as int, now - desired_play_date, slope);
                let out: ResizableView = (
                    h.0,
                    h.1,
                    h.2,
                    desired_samples(play, h.2 as int) as nat,
                );
                let rest = sync_run(
                    l2,
                    min_int(buf_start + ts_duration(h), u64::MAX as int) as u64,
                    q.skip(1),
                    now,
                    slope,
                );
                (rest.0, rest.1, rest.2, seq![out] + rest.3)
            }
        }
    }
}

pub open spec fn views_of(q: Seq<TimestampedRawAudioBuffer>) -> Seq<TimestampedView> {
    q.map_values(|b: TimestampedRawAudioBuffer| b@)
}

pub open spec fn resizable_views(q: Seq<ResizableRawAudioBuffer>) -> Seq<ResizableView> {
    q.map_values(|b: ResizableRawAudioBuffer| b@)
}

/// Aligns a jittery stream of timestamped buffers to the host's playout schedule and to
/// the pace at which the sink consumes them.
pub struct Synchronizer {
    first_buf_arrival_ts: Option<ClockTime>,
    first_buf_start_ts: Option<ClockTime>,
    buffer_expected_ts: ClockTime,
    queue: VecDeque<TimestampedRawAudioBuffer>,
    virtual_mic_calibration: Option<ClockCalibrationInfo>,
}

impl Synchronizer {
    pub closed spec fn wf(&self) -> bool {
        self.first_buf_arrival_ts.is_some() == self.first_buf_start_ts.is_some()
    }

    pub closed spec fn latches(&self) -> Latches {
        match (self.first_buf_arrival_ts, self.first_buf_start_ts) {
            (Some(a), Some(s)) => Some((a.0, s.0)),
            _ => None,
        }
    }

    pub closed spec fn expected(&self) -> u64 {
        self.buffer_expected_ts.0
    }

    pub closed spec fn pending(&self) -> Seq<TimestampedView> {
        views_of(self.queue@)
    }

    pub closed spec fn calibration(&self) -> Option<ClockCalibrationInfo> {
        self.virtual_mic_calibration
    }

    pub fn new() -> (r: Synchronizer)
        ensures
            r.wf(),
            r.latches().is_none(),
            r.expected() == 0,
            r.pending() == Seq::<TimestampedView>::empty(),
            r.calibration().is_none(),
    {
        let r = Synchronizer {
            first_buf_arrival_ts: None,
            first_buf_start_ts: None,
            buffer_expected_ts: ClockTime(0),
            queue: VecDeque::new(),
            virtual_mic_calibration: None,
        };
        assert(r.pending() =~= Seq::<TimestampedView>::empty());
        r
    }

    /// The calibration of the sink's slaved clock, read on each update; `None` where no
    /// sink clock is attached.
    pub fn set_virtual_microphone_clock(&mut self, calibration: Option<ClockCalibrationInfo>)
        ensures
            final(self).calibration() == calibration,
            final(self).latches() == old(self).latches(),
            final(self).expected() == old(self).expected(),
            final(self).pending() == old(self).pending(),
            final(self).wf() == old(self).wf(),
    {
        self.virtual_mic_calibration = calibration;
    }

    pub fn unset_virtual_microphone_clock(&mut self)
        ensures
            final(self).calibration().is_none(),
            final(self).latches() == old(self).latches(),
            final(self).expected() == old(self).expected(),
            final(self).pending() == old(self).pending(),
            final(self).wf() == old(self).wf(),
    {
        self.virtual_mic_calibration = None;
    }

    /// Queues an input buffer behind those already pending.
    pub fn push(&mut self, buf: TimestampedRawAudioBuffer)
        ensures
            final(self).pending() == old(self).pending().push(buf@),
            final(self).calibration() == old(self).calibration(),
            final(self).latches() == old(self).latches(),
            final(self).expected() == old(self).expected(),
            final(self).wf() == old(self).wf(),
    {
        let ghost b = buf@;
        self.queue.push_back(buf);
        assert(self.pending() =~= old(self).pending().push(b));
    }

    /// Forgets the stream: the next buffer starts a new schedule.
    pub fn on_eos(&mut self)
        ensures
            final(self).wf(),
            final(self).latches().is_none(),
            final(self).expected() == 0,
            final(self).pending() == old(self).pending(),
            final(self).calibration() == old(self).calibration(),
    {
        self.first_buf_arrival_ts = None;
        self.first_buf_start_ts = None;
        self.buffer_expected_ts = ClockTime(0);
    }

    /// Runs the playout loop at time `now` and hands back the buffers that are due, each
    /// with the number of samples the resizer must produce.
    pub fn update(&mut self, now: ClockTime) -> (r: Vec<ResizableRawAudioBuffer>)
        requires
            old(self).wf(),
        ensures
            final(self).wf(),
            final(self).calibration() == old(self).calibration(),
            ({
                let run = sync_run(
                    old(self).latches(),
                    old(self).expected(),
                    old(self).pending(),
                    now.0,
                    old(self).calibration(),
                );
                &&& final(self).latches() == run.0
                &&& final(self).expected() == run.1
                &&& final(self).pending() == run.2
                &&& resizable_views(r@) == run.3
            }),
    {
        let ghost total = sync_run(
            self.latches(),
            self.expected(),
            self.pending(),
            now.0,
            self.calibration(),
        );
        let mut out: Vec<ResizableRawAudioBuffer> = Vec::new();
        loop
            invariant
                self.wf(),
                self.calibration() == old(self).calibration(),
                ({
                    let run = sync_run(
                        self.latches(),
                        self.expected(),
                        self.pending(),
                        now.0,
                        self.calibration(),
                    );
                    &&& run.0 == total.0
                    &&& run.1 == total.1
                    &&& run.2 == total.2
                    &&& resizable_views(out@) + run.3 == total.3
                }),
            ensures
                self.wf(),
                self.calibration() == old(self).calibration(),
                self.latches() == total.0,
                self.expected() == total.1,
                self.pending() == total.2,
                resizable_views(out@) == total.3,
            decreases run_measure(self.pending(), self.expected()),
        {
            let ghost q0 = self.pending();
            let ghost l0 = self.latches();
            let ghost e0 = self.expected();
            let ghost out0 = resizable_views(out@);
            let popped = self.queue.pop_front();
            let mut buf = match popped {
                Some(b) => b,
                None => {
                    assert(q0.len() == 0);
                    assert(resizable_views(out@) + Seq::<ResizableView>::empty() =~= resizable_views(out@));
                    break;
                },
            };
            proof {
                assert(self.pending() =~= q0.skip(1));
                assert(q0[0] == buf@);
            }
            if buf.is_null() {
                self.on_eos();
                continue;
            }
            if buf.no_samples() == 0 {
                continue;
            }
            let buf_start = match buf.start() {
                Some(s) => s,
                None => self.buffer_expected_ts,
            };
            if self.first_buf_arrival_ts.is_none() {
                self.first_buf_arrival_ts = Some(now);
                self.first_buf_start_ts = Some(buf_start);
            }
            let first_arrival = match self.first_buf_arrival_ts {
                Some(t) => t,
                None => now,
            };
            let first_start = match self.first_buf_start_ts {
                Some(t) => t,
                None => buf_start,
            };
            if (now.0 as u128) + (first_start.0 as u128) < (buf_start.0 as u128) + (
            first_arrival.0 as u128) {
                self.queue.push_front(buf);
                proof {
                    assert(self.pending() =~= q0);
                    assert(resizable_views(out@) + Seq::<ResizableView>::empty() =~= resizable_views(out@));
                }
                break;
            }
            if buf_start.0 < self.buffer_expected_ts.0 {
                let cut = ClockTime(self.buffer_expected_ts.0 - buf_start.0);
                buf.truncate_duration_front(cut);
                self.queue.push_front(buf);
                proof {
                    assert(self.pending() =~= q0.update(0, buf@));
                }
                continue;
            }
            let dur = buf.duration();
            let delay: u128 = ((now.0 as u128) + (first_start.0 as u128)) - ((buf_start.0 as u128)
                + (first_arrival.0 as u128));
            let mut play: u128 = if (dur.0 as u128) > delay {
                (dur.0 as u128) - delay
            } else {
                0
            };
            if let Some(info) = self.virtual_mic_calibration {
                if info.slope_num > 0 {
                    assert(play * info.slope_denom <= u64::MAX * u64::MAX) by (nonlinear_arith)
                        requires
                            play <= u64::MAX,
                            info.slope_denom <= u64::MAX,
                    ;
                    let scaled = play * (info.slope_denom as u128) / (info.slope_num as u128);
                    play = if scaled > u64::MAX as u128 {
                        u64::MAX as u128
                    } else {
                        scaled
                    };
                }
            }
            let rate = buf.sample_rate();
            assert(play * rate <= u64::MAX * u32::MAX) by (nonlinear_arith)
                requires
                    play <= u64::MAX,
                    rate <= u32::MAX,
            ;
            let want = play * (rate as u128) / (NANOS_IN_SEC as u128);
            let desired: usize = if want > usize::MAX as u128 {
                usize::MAX
            } else {
                want as usize
            };
            let next = (buf_start.0 as u128) + (dur.0 as u128);
            self.buffer_expected_ts = ClockTime(
                if next > u64::MAX as u128 {
                    u64::MAX
                } else {
                    next as u64
                },
            );
            let resizable = ResizableRawAudioBuffer::new(buf.into_raw(), desired);
            let ghost rv = resizable@;
            out.push(resizable);
            proof {
                assert(resizable_views(out@) =~= out0.push(rv));
                assert(out0.push(rv) + sync_run(
                    self.latches(),
                    self.expected(),
                    self.pending(),
                    now.0,
                    self.calibration(),
                ).3 =~= out0 + sync_run(l0, e0, q0, now.0, self.calibration()).3);
            }
        }
        out
    }
}

} // verus!
