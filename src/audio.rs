use vstd::prelude::*;

use crate::clock::{ClockTime, NANOS_IN_SEC};
use crate::util::{be_value, read_be, vec_truncate_front};

verus! {

/// Bytes of the codec tag and the sample rate at the head of a muxed frame.
pub const NO_AUDIO_HEADER_BYTES: usize = 5;

/// Bytes of the start timestamp that follows the header.
pub const NO_CLOCK_TIME_BYTES: usize = 8;

/// Bytes before the payload of a muxed frame.
pub const NO_FRAME_HEADER_BYTES: usize = 13;

/// A frame as it comes off the device link: codec tag, sample rate, start timestamp, payload.
#[derive(Clone, Debug, PartialEq, Eq)]
pub struct MuxedAudioBuffer(pub Vec<u8>);

#[derive(Clone, Copy, Debug, PartialEq, Eq, Structural)]
pub enum AudioCodec {
    Unspecified,
    Opus,
}

/// Why a muxed frame was dropped.
#[derive(Clone, Copy, Debug, PartialEq, Eq, Structural)]
pub enum DemuxError {
    FrameTooShort,
    UnknownCodec,
}

pub open spec fn codec_of_tag(tag: u8) -> Option<AudioCodec> {
    if tag == 0 {
        Some(AudioCodec::Unspecified)
    } else if tag == 1 {
        Some(AudioCodec::Opus)
    } else {
        None
    }
}

impl AudioCodec {
    pub fn try_from(tag: u8) -> (r: Result<AudioCodec, DemuxError>)
        ensures
            codec_of_tag(tag) matches Some(c) ==> r == Ok::<AudioCodec, DemuxError>(c),
            codec_of_tag(tag).is_none() ==> r == Err::<AudioCodec, DemuxError>(
                DemuxError::UnknownCodec,
            ),
    {
        if tag == 0 {
            Ok(AudioCodec::Unspecified)
        } else if tag == 1 {
            Ok(AudioCodec::Opus)
        } else {
            Err(DemuxError::UnknownCodec)
        }
    }
}

#[derive(Clone, Copy, Debug, PartialEq, Eq, Structural)]
pub struct EncodedAudioHeader {
    pub codec: AudioCodec,
    pub sample_rate: u32,
}

/// What the head of `b` says, or why it cannot be read.
pub open spec fn header_of(b: Seq<u8>) -> Result<EncodedAudioHeader, DemuxError> {
    if b.len() == 0 {
        Err(DemuxError::FrameTooShort)
    } else if codec_of_tag(b[0]).is_none() {
        Err(DemuxError::UnknownCodec)
    } else if b.len() < NO_AUDIO_HEADER_BYTES {
        Err(DemuxError::FrameTooShort)
    } else {
        Ok(
            EncodedAudioHeader {
                codec: codec_of_tag(b[0]).unwrap(),
                sample_rate: be_value(b.subrange(1, 5)) as u32,
            },
        )
    }
}

impl EncodedAudioHeader {
    /// Reads the codec tag and the big-endian sample rate at the head of `bytes`.
    pub fn try_from(bytes: &[u8]) -> (r: Result<EncodedAudioHeader, DemuxError>)
        ensures
            r == header_of(bytes@),
    {
        if bytes.len() == 0 {
            return Err(DemuxError::FrameTooShort);
        }
        let codec = match AudioCodec::try_from(bytes[0]) {
            Ok(c) => c,
            Err(e) => {
                return Err(e);
            },
        };
        if bytes.len() < NO_AUDIO_HEADER_BYTES {
            return Err(DemuxError::FrameTooShort);
        }
        let rate = read_be(bytes, 1, 4);
        proof {
            lemma_be_value_bound(bytes@.subrange(1, 5));
        }
        Ok(EncodedAudioHeader { codec, sample_rate: rate as u32 })
    }
}

proof fn lemma_be_value_bound(b: Seq<u8>)
    ensures
        be_value(b) < crate::util::pow256(b.len()),
    decreases b.len(),
{
    if b.len() > 0 {
        lemma_be_value_bound(b.drop_last());
        let p = crate::util::pow256((b.len() - 1) as nat);
        let v = be_value(b.drop_last());
        let l = b.last() as nat;
        assert(v * 256 + l < 256 * p) by (nonlinear_arith)
            requires
                v < p,
                l < 256,
        ;
    }
    if b.len() == 4 {
        reveal_with_fuel(crate::util::pow256, 5);
    }
}

#[derive(Clone, Debug, PartialEq, Eq)]
pub struct EncodedAudioBuffer {
    pub header: EncodedAudioHeader,
    pub start_ts: Option<ClockTime>,
    pub data: Vec<u8>,
}

/// A frame that parses: its header, start timestamp and payload.
pub open spec fn frame_parses(b: Seq<u8>) -> bool {
    header_of(b).is_ok() && b.len() >= NO_FRAME_HEADER_BYTES
}

/// Why a frame does not parse.
pub open spec fn frame_error(b: Seq<u8>) -> DemuxError {
    match header_of(b) {
        Err(e) => e,
        Ok(_) => DemuxError::FrameTooShort,
    }
}

impl EncodedAudioBuffer {
    /// Parses a muxed frame: 1 byte codec tag, 4 bytes big-endian sample rate, 8 bytes
    /// big-endian start timestamp in nanoseconds, then the payload.
    pub fn try_from(buf: MuxedAudioBuffer) -> (r: Result<EncodedAudioBuffer, DemuxError>)
        ensures
            r.is_ok() <==> frame_parses(buf.0@),
            !frame_parses(buf.0@) ==> r == Err::<EncodedAudioBuffer, DemuxError>(
                frame_error(buf.0@),
            ),
            r matches Ok(e) ==> {
                &&& Ok::<EncodedAudioHeader, DemuxError>(e.header) == header_of(buf.0@)
                &&& e.start_ts == Some(ClockTime(be_value(buf.0@.subrange(5, 13)) as u64))
                &&& e.data@ == buf.0@.skip(NO_FRAME_HEADER_BYTES as int)
            },
    {
        let mut data = buf.0;
        let header = match EncodedAudioHeader::try_from(data.as_slice()) {
            Ok(h) => h,
            Err(e) => {
                return Err(e);
            },
        };
        if data.len() < NO_FRAME_HEADER_BYTES {
            return Err(DemuxError::FrameTooShort);
        }
        let ts = read_be(data.as_slice(), NO_AUDIO_HEADER_BYTES, NO_CLOCK_TIME_BYTES);
        vec_truncate_front(&mut data, NO_FRAME_HEADER_BYTES);
        Ok(EncodedAudioBuffer { header, start_ts: Some(ClockTime(ts)), data })
    }
}

#[derive(Clone, Copy, Debug, PartialEq, Eq, Structural)]
pub enum RawAudioFormat {
    U8,
    S16LE,
    S16BE,
    S24LE,
    S24BE,
    S32LE,
    S32BE,
    F32LE,
    F32BE,
    Unspecified,
}

impl RawAudioFormat {
    pub open spec fn bytes_per_sample(self) -> nat {
        match self {
            RawAudioFormat::U8 => 1,
            RawAudioFormat::S16LE | RawAudioFormat::S16BE => 2,
            RawAudioFormat::S24LE | RawAudioFormat::S24BE => 3,
            RawAudioFormat::S32LE | RawAudioFormat::S32BE | RawAudioFormat::F32LE
            | RawAudioFormat::F32BE => 4,
            RawAudioFormat::Unspecified => 0,
        }
    }

    pub open spec fn is_float(self) -> bool {
        self == RawAudioFormat::F32LE || self == RawAudioFormat::F32BE
    }

    /// The bytes of one sample.
    pub fn no_bytes(self) -> (r: usize)
        ensures
            r == self.bytes_per_sample(),
    {
        match self {
            RawAudioFormat::U8 => 1,
            RawAudioFormat::S16LE | RawAudioFormat::S16BE => 2,
            RawAudioFormat::S24LE | RawAudioFormat::S24BE => 3,
            RawAudioFormat::S32LE | RawAudioFormat::S32BE | RawAudioFormat::F32LE
            | RawAudioFormat::F32BE => 4,
            RawAudioFormat::Unspecified => 0,
        }
    }

    pub fn is_float_format(self) -> (r: bool)
        ensures
            r == self.is_float(),
    {
        match self {
            RawAudioFormat::F32LE | RawAudioFormat::F32BE => true,
            _ => false,
        }
    }
}

/// `len` bytes hold whole samples of `format` (none where the format is unspecified).
pub open spec fn whole_samples(len: nat, format: RawAudioFormat) -> bool {
    if format.bytes_per_sample() > 0 {
        len % format.bytes_per_sample() == 0
    } else {
        len == 0
    }
}

pub open spec fn samples_in(len: nat, format: RawAudioFormat) -> nat {
    if format.bytes_per_sample() > 0 {
        len / format.bytes_per_sample()
    } else {
        0
    }
}

proof fn lemma_len_is_samples(len: nat, f: RawAudioFormat)
    requires
        whole_samples(len, f),
    ensures
        f.bytes_per_sample() > 0 ==> len == samples_in(len, f) * f.bytes_per_sample(),
{
    if f.bytes_per_sample() > 0 {
        vstd::arithmetic::div_mod::lemma_fundamental_div_mod(
            len as int,
            f.bytes_per_sample() as int,
        );
    }
}

/// How long `samples` samples at `rate` Hz last, in nanoseconds rounded toward zero,
/// saturated at `u64::MAX` (zero where the rate is zero).
pub open spec fn samples_duration(samples: nat, rate: nat) -> nat {
    if rate == 0 {
        0
    } else if samples * (NANOS_IN_SEC as nat) / rate > u64::MAX {
        u64::MAX as nat
    } else {
        samples * (NANOS_IN_SEC as nat) / rate
    }
}

/// How many whole samples at `rate` Hz fit in `nanos` nanoseconds.
pub open spec fn samples_in_duration(nanos: nat, rate: nat) -> nat {
    nanos * rate / (NANOS_IN_SEC as nat)
}

/// The duration of `samples` samples at `rate`, as `samples_duration` states it.
pub fn duration_of_samples(samples: usize, rate: u32) -> (r: ClockTime)
    ensures
        r.nanos() == samples_duration(samples as nat, rate as nat),
{
    if rate == 0 {
        return ClockTime(0);
    }
    assert(samples * 1_000_000_000 <= u64::MAX * 1_000_000_000) by (nonlinear_arith)
        requires
            samples <= u64::MAX,
    ;
    let n = (samples as u128) * (NANOS_IN_SEC as u128) / (rate as u128);
    if n > u64::MAX as u128 {
        ClockTime(u64::MAX)
    } else {
        ClockTime(n as u64)
    }
}

/// Whole samples at `rate` in `dur`, where that count fits a `usize`.
pub fn samples_of_duration(dur: ClockTime, rate: u32) -> (r: Option<usize>)
    ensures
        r.is_some() <==> samples_in_duration(dur.nanos() as nat, rate as nat) <= usize::MAX,
        r.is_some() ==> r.unwrap() == samples_in_duration(dur.nanos() as nat, rate as nat),
{
    assert(dur.0 * rate <= u64::MAX * u32::MAX) by (nonlinear_arith)
        requires
            dur.0 <= u64::MAX,
            rate <= u32::MAX,
    ;
    let n = (dur.0 as u128) * (rate as u128) / (NANOS_IN_SEC as u128);
    if n > usize::MAX as u128 {
        None
    } else {
        Some(n as usize)
    }
}

/// Mono PCM samples of one format and rate.
#[derive(Debug, PartialEq, Eq)]
pub struct RawAudioBuffer {
    data: Vec<u8>,
    format: RawAudioFormat,
    sample_rate: u32,
}

impl View for RawAudioBuffer {
    type V = Seq<u8>;

    closed spec fn view(&self) -> Seq<u8> {
        self.data@
    }
}

impl Clone for RawAudioBuffer {
    fn clone(&self) -> (r: RawAudioBuffer)
        ensures
            r@ == self@,
            r.spec_format() == self.spec_format(),
            r.spec_sample_rate() == self.spec_sample_rate(),
    {
        proof {
            use_type_invariant(self);
        }
        RawAudioBuffer {
            data: vstd::slice::slice_to_vec(self.data.as_slice()),
            format: self.format,
            sample_rate: self.sample_rate,
        }
    }
}

impl RawAudioBuffer {
    #[verifier::type_invariant]
    spec fn holds_whole_samples(&self) -> bool {
        whole_samples(self.data@.len(), self.format)
    }

    pub closed spec fn spec_format(&self) -> RawAudioFormat {
        self.format
    }

    pub closed spec fn spec_sample_rate(&self) -> u32 {
        self.sample_rate
    }

    pub open spec fn spec_no_samples(&self) -> nat {
        samples_in(self@.len(), self.spec_format())
    }

    pub open spec fn spec_duration(&self) -> nat {
        samples_duration(self.spec_no_samples(), self.spec_sample_rate() as nat)
    }

    /// Every buffer holds whole samples of its format.
    fn lemma_whole_samples(&self)
        ensures
            whole_samples(self@.len(), self.spec_format()),
            self.spec_format().bytes_per_sample() > 0 ==> self@.len() == self.spec_no_samples()
                * self.spec_format().bytes_per_sample(),
            self@.len() <= usize::MAX,
            self.spec_no_samples() <= self@.len(),
    {
        let _ = self.data.len();
        proof {
            if self.format.bytes_per_sample() > 0 {
                vstd::arithmetic::div_mod::lemma_div_is_ordered_by_denominator(
                    self@.len() as int,
                    1,
                    self.format.bytes_per_sample() as int,
                );
            }
            use_type_invariant(&*self);
            lemma_len_is_samples(self@.len(), self.format);
        }
    }

    pub fn new(data: Vec<u8>, format: RawAudioFormat, sample_rate: u32) -> (r: RawAudioBuffer)
        requires
            whole_samples(data@.len(), format),
        ensures
            r@ == data@,
            r.spec_format() == format,
            r.spec_sample_rate() == sample_rate,
    {
        RawAudioBuffer { data, format, sample_rate }
    }

    /// The length in bytes: always whole samples of the format.
    pub fn len(&self) -> (r: usize)
        ensures
            r == self@.len(),
            whole_samples(r as nat, self.spec_format()),
    {
        proof {
            use_type_invariant(&*self);
        }
        self.data.len()
    }

    pub fn as_vec(&self) -> (r: &Vec<u8>)
        ensures
            r@ == self@,
    {
        &self.data
    }

    pub fn as_slice(&self) -> (r: &[u8])
        ensures
            r@ == self@,
    {
        self.data.as_slice()
    }

    pub fn into_vec(self) -> (r: Vec<u8>)
        ensures
            r@ == self@,
    {
        self.data
    }

    pub fn format(&self) -> (r: RawAudioFormat)
        ensures
            r == self.spec_format(),
    {
        self.format
    }

    pub fn sample_rate(&self) -> (r: u32)
        ensures
            r == self.spec_sample_rate(),
    {
        self.sample_rate
    }

    pub fn no_samples(&self) -> (r: usize)
        ensures
            r == self.spec_no_samples(),
    {
        let b = self.format.no_bytes();
        if b == 0 {
            0
        } else {
            self.data.len() / b
        }
    }

    pub fn duration(&self) -> (r: ClockTime)
        ensures
            r.nanos() == self.spec_duration(),
    {
        duration_of_samples(self.no_samples(), self.sample_rate)
    }

    /// Drops the first `no_samples` samples (all of them where there are fewer).
    pub fn truncate_front(&mut self, no_samples: usize)
        ensures
            final(self).spec_format() == old(self).spec_format(),
            final(self).spec_sample_rate() == old(self).spec_sample_rate(),
            no_samples >= old(self).spec_no_samples() ==> final(self)@ == Seq::<u8>::empty(),
            no_samples < old(self).spec_no_samples() ==> final(self)@ == old(self)@.skip(
                no_samples * old(self).spec_format().bytes_per_sample(),
            ),
    {
        self.lemma_whole_samples();
        let total = self.no_samples();
        let mut data = Vec::new();
        std::mem::swap(&mut data, &mut self.data);
        if no_samples >= total {
            data.clear();
        } else {
            let b = self.format.no_bytes();
            proof {
                vstd::arithmetic::mul::lemma_mul_strict_inequality(
                    no_samples as int,
                    total as int,
                    b as int,
                );
            }
            let cut = no_samples * b;
            vec_truncate_front(&mut data, cut);
            proof {
                assert(data@.len() == (total - no_samples) * b) by (nonlinear_arith)
                    requires
                        data@.len() == total * b - no_samples * b,
                ;
                vstd::arithmetic::div_mod::lemma_mod_multiples_basic(
                    (total - no_samples) as int,
                    b as int,
                );
            }
        }
        self.data = data;
    }

    /// Keeps only the first `no_samples` samples.
    pub fn truncate(&mut self, no_samples: usize)
        ensures
            final(self).spec_format() == old(self).spec_format(),
            final(self).spec_sample_rate() == old(self).spec_sample_rate(),
            no_samples >= old(self).spec_no_samples() ==> final(self)@ == old(self)@,
            no_samples < old(self).spec_no_samples() ==> final(self)@ == old(self)@.take(
                no_samples * old(self).spec_format().bytes_per_sample(),
            ),
    {
        self.lemma_whole_samples();
        if no_samples < self.no_samples() {
            let b = self.format.no_bytes();
            proof {
                vstd::arithmetic::mul::lemma_mul_inequality(
                    no_samples as int,
                    self.spec_no_samples() as int,
                    b as int,
                );
                vstd::arithmetic::div_mod::lemma_mod_multiples_basic(no_samples as int, b as int);
            }
            let mut data = Vec::new();
        std::mem::swap(&mut data, &mut self.data);
            data.truncate(no_samples * b);
            self.data = data;
        }
    }

    /// Drops the samples that fall in the first `cut_dur` of the buffer.
    pub fn truncate_duration_front(&mut self, cut_dur: ClockTime)
        ensures
            final(self).spec_format() == old(self).spec_format(),
            final(self).spec_sample_rate() == old(self).spec_sample_rate(),
            ({
                let cut = samples_in_duration(
                    cut_dur.nanos() as nat,
                    old(self).spec_sample_rate() as nat,
                );
                &&& cut >= old(self).spec_no_samples() ==> final(self)@ == Seq::<u8>::empty()
                &&& cut < old(self).spec_no_samples() ==> final(self)@ == old(self)@.skip(
                    (cut * old(self).spec_format().bytes_per_sample()) as int,
                )
            }),
    {
        self.lemma_whole_samples();
        match samples_of_duration(cut_dur, self.sample_rate) {
            Some(n) => self.truncate_front(n),
            None => self.truncate_front(usize::MAX),
        }
    }

    /// Keeps only the samples that fall in the first `cut_dur` of the buffer.
    pub fn truncate_duration(&mut self, cut_dur: ClockTime)
        ensures
            final(self).spec_format() == old(self).spec_format(),
            final(self).spec_sample_rate() == old(self).spec_sample_rate(),
            ({
                let keep = samples_in_duration(
                    cut_dur.nanos() as nat,
                    old(self).spec_sample_rate() as nat,
                );
                &&& keep >= old(self).spec_no_samples() ==> final(self)@ == old(self)@
                &&& keep < old(self).spec_no_samples() ==> final(self)@ == old(self)@.take(
                    (keep * old(self).spec_format().bytes_per_sample()) as int,
                )
            }),
    {
        self.lemma_whole_samples();
        match samples_of_duration(cut_dur, self.sample_rate) {
            Some(n) => self.truncate(n),
            None => self.truncate(usize::MAX),
        }
    }

    /// Splits after the samples that fall before `ts` (measured from the buffer's start).
    pub fn split_at_timestamp(self, ts: ClockTime) -> (r: (RawAudioBuffer, RawAudioBuffer))
        ensures
            r.0.spec_format() == self.spec_format() && r.1.spec_format() == self.spec_format(),
            r.0.spec_sample_rate() == self.spec_sample_rate() && r.1.spec_sample_rate()
                == self.spec_sample_rate(),
            r.0@ + r.1@ == self@,
            ({
                let at = samples_in_duration(ts.nanos() as nat, self.spec_sample_rate() as nat);
                &&& at >= self.spec_no_samples() ==> r.0@ == self@
                &&& at < self.spec_no_samples() ==> r.0@.len() == at
                    * self.spec_format().bytes_per_sample()
            }),
    {
        self.lemma_whole_samples();
        let mut first = self;
        let mut second = RawAudioBuffer { data: Vec::new(), format: first.format, sample_rate: first.sample_rate };
        let n = match samples_of_duration(ts, first.sample_rate) {
            Some(n) => n,
            None => usize::MAX,
        };
        if n < first.no_samples() {
            let b = first.format.no_bytes();
            proof {
                vstd::arithmetic::mul::lemma_mul_inequality(
                    n as int,
                    first.spec_no_samples() as int,
                    b as int,
                );
                vstd::arithmetic::div_mod::lemma_mod_multiples_basic(n as int, b as int);
                assert(first@.len() - n * b == (first.spec_no_samples() - n) * b) by (
                nonlinear_arith)
                    requires
                        first@.len() == first.spec_no_samples() * b,
                ;
                vstd::arithmetic::div_mod::lemma_mod_multiples_basic(
                    (first.spec_no_samples() - n) as int,
                    b as int,
                );
            }
            let mut data = Vec::new();
            std::mem::swap(&mut data, &mut first.data);
            let rest = data.split_off(n * b);
            first.data = data;
            second = RawAudioBuffer { data: rest, format: first.format, sample_rate: first.sample_rate };
        }
        assert(first@ + second@ =~= self@);
        (first, second)
    }
}

/// A raw buffer with the time its first sample was captured, where it is known.
#[derive(Clone, Debug, PartialEq, Eq)]
pub struct TimestampedRawAudioBuffer {
    raw: RawAudioBuffer,
    start: Option<ClockTime>,
}

/// A timestamped buffer as values: bytes, format, sample rate, start.
pub type TimestampedView = (Seq<u8>, RawAudioFormat, u32, Option<ClockTime>);

/// A resizable buffer as values: bytes, format, sample rate, desired number of samples.
pub type ResizableView = (Seq<u8>, RawAudioFormat, u32, nat);

pub open spec fn ts_samples(v: TimestampedView) -> nat {
    samples_in(v.0.len(), v.1)
}

pub open spec fn ts_duration(v: TimestampedView) -> nat {
    samples_duration(ts_samples(v), v.2 as nat)
}

pub open spec fn ts_is_null(v: TimestampedView) -> bool {
    v.0.len() == 0 && v.1 == RawAudioFormat::Unspecified && v.2 == 0 && v.3.is_none()
}

/// The buffer without the samples in its first `cut` nanoseconds, starting `cut` later.
pub open spec fn ts_truncated_front(v: TimestampedView, cut: nat) -> TimestampedView {
    let c = samples_in_duration(cut, v.2 as nat);
    (
        if c >= ts_samples(v) {
            Seq::empty()
        } else {
            v.0.skip((c * v.1.bytes_per_sample()) as int)
        },
        v.1,
        v.2,
        match v.3 {
            Some(s) => Some(ClockTime((s.nanos() + cut) as u64)),
            None => None,
        },
    )
}

impl View for TimestampedRawAudioBuffer {
    type V = TimestampedView;

    open spec fn view(&self) -> TimestampedView {
        (
            self.spec_raw()@,
            self.spec_raw().spec_format(),
            self.spec_raw().spec_sample_rate(),
            self.spec_start(),
        )
    }
}

impl TimestampedRawAudioBuffer {
    pub closed spec fn spec_raw(&self) -> &RawAudioBuffer {
        &self.raw
    }

    pub closed spec fn spec_start(&self) -> Option<ClockTime> {
        self.start
    }

    /// The end-of-stream sentinel: no samples, no format, no rate, no timestamp.
    pub open spec fn spec_is_null(&self) -> bool {
        &&& self.spec_raw()@.len() == 0
        &&& self.spec_raw().spec_format() == RawAudioFormat::Unspecified
        &&& self.spec_raw().spec_sample_rate() == 0
        &&& self.spec_start().is_none()
    }

    pub fn new(raw: RawAudioBuffer, start: Option<ClockTime>) -> (r: TimestampedRawAudioBuffer)
        ensures
            r.spec_raw() == raw,
            r.spec_start() == start,
    {
        TimestampedRawAudioBuffer { raw, start }
    }

    pub fn null() -> (r: TimestampedRawAudioBuffer)
        ensures
            r.spec_is_null(),
    {
        TimestampedRawAudioBuffer {
            raw: RawAudioBuffer { data: Vec::new(), format: RawAudioFormat::Unspecified, sample_rate: 0 },
            start: None,
        }
    }

    pub fn is_null(&self) -> (r: bool)
        ensures
            r == self.spec_is_null(),
    {
        self.raw.data.len() == 0 && self.raw.format == RawAudioFormat::Unspecified
            && self.raw.sample_rate == 0 && self.start.is_none()
    }

    pub fn as_slice(&self) -> (r: &[u8])
        ensures
            r@ == self.spec_raw()@,
    {
        self.raw.as_slice()
    }

    pub fn into_raw(self) -> (r: RawAudioBuffer)
        ensures
            r == self.spec_raw(),
    {
        self.raw
    }

    pub fn no_samples(&self) -> (r: usize)
        ensures
            r == self.spec_raw().spec_no_samples(),
    {
        self.raw.no_samples()
    }

    pub fn format(&self) -> (r: RawAudioFormat)
        ensures
            r == self.spec_raw().spec_format(),
    {
        self.raw.format()
    }

    pub fn sample_rate(&self) -> (r: u32)
        ensures
            r == self.spec_raw().spec_sample_rate(),
    {
        self.raw.sample_rate()
    }

    pub fn start(&self) -> (r: Option<ClockTime>)
        ensures
            r == self.spec_start(),
    {
        self.start
    }

    pub fn duration(&self) -> (r: ClockTime)
        ensures
            r.nanos() == self.spec_raw().spec_duration(),
    {
        self.raw.duration()
    }

    /// The time just after the last sample, where the start is known and the sum fits.
    pub fn stop(&self) -> (r: Option<ClockTime>)
        ensures
            r == match self.spec_start() {
                Some(s) => if s.nanos() + self.spec_raw().spec_duration() <= u64::MAX {
                    Some(ClockTime((s.nanos() + self.spec_raw().spec_duration()) as u64))
                } else {
                    None
                },
                None => None,
            },
    {
        match self.start {
            Some(s) => {
                let d = self.raw.duration();
                if s.0 > u64::MAX - d.0 {
                    None
                } else {
                    Some(ClockTime(s.0 + d.0))
                }
            },
            None => None,
        }
    }

    /// Drops the samples in the first `cut_dur` and moves the start on by `cut_dur`.
    pub fn truncate_duration_front(&mut self, cut_dur: ClockTime)
        requires
            old(self).spec_start() matches Some(s) ==> s.nanos() + cut_dur.nanos() <= u64::MAX,
        ensures
            final(self)@ == ts_truncated_front(old(self)@, cut_dur.nanos() as nat),
            final(self).spec_start() == match old(self).spec_start() {
                Some(s) => Some(ClockTime((s.nanos() + cut_dur.nanos()) as u64)),
                None => None,
            },
            final(self).spec_raw().spec_format() == old(self).spec_raw().spec_format(),
            final(self).spec_raw().spec_sample_rate() == old(self).spec_raw().spec_sample_rate(),
            ({
                let cut = samples_in_duration(
                    cut_dur.nanos() as nat,
                    old(self).spec_raw().spec_sample_rate() as nat,
                );
                &&& cut >= old(self).spec_raw().spec_no_samples() ==> final(self).spec_raw()@
                    == Seq::<u8>::empty()
                &&& cut < old(self).spec_raw().spec_no_samples() ==> final(self).spec_raw()@
                    == old(self).spec_raw()@.skip(
                    (cut * old(self).spec_raw().spec_format().bytes_per_sample()) as int,
                )
            }),
    {
        if let Some(s) = self.start {
            self.start = Some(ClockTime(s.0 + cut_dur.0));
        }
        self.raw.truncate_duration_front(cut_dur);
    }

    /// Drops the first `no_samples` samples and moves the start on by their duration
    /// (saturated at `u64::MAX`).
    pub fn truncate_front(&mut self, no_samples: usize)
        ensures
            final(self).spec_raw().spec_format() == old(self).spec_raw().spec_format(),
            final(self).spec_raw().spec_sample_rate() == old(self).spec_raw().spec_sample_rate(),
            no_samples >= old(self).spec_raw().spec_no_samples() ==> final(self).spec_raw()@
                == Seq::<u8>::empty(),
            no_samples < old(self).spec_raw().spec_no_samples() ==> final(self).spec_raw()@
                == old(self).spec_raw()@.skip(
                no_samples * old(self).spec_raw().spec_format().bytes_per_sample(),
            ),
            final(self).spec_start() == match old(self).spec_start() {
                Some(s) => Some(
                    ClockTime(
                        crate::clock::min_int(
                            s.nanos() + samples_duration(
                                no_samples as nat,
                                old(self).spec_raw().spec_sample_rate() as nat,
                            ),
                            u64::MAX as int,
                        ) as u64,
                    ),
                ),
                None => None,
            },
    {
        let cut = duration_of_samples(no_samples, self.raw.sample_rate);
        if let Some(s) = self.start {
            self.start = Some(
                if s.0 > u64::MAX - cut.0 {
                    ClockTime(u64::MAX)
                } else {
                    ClockTime(s.0 + cut.0)
                },
            );
        }
        self.raw.truncate_front(no_samples);
    }

    /// Keeps only the samples in the first `cut_dur`.
    pub fn truncate_duration(&mut self, cut_dur: ClockTime)
        ensures
            final(self).spec_start() == old(self).spec_start(),
            final(self).spec_raw().spec_format() == old(self).spec_raw().spec_format(),
            final(self).spec_raw().spec_sample_rate() == old(self).spec_raw().spec_sample_rate(),
            ({
                let keep = samples_in_duration(
                    cut_dur.nanos() as nat,
                    old(self).spec_raw().spec_sample_rate() as nat,
                );
                &&& keep >= old(self).spec_raw().spec_no_samples() ==> final(self).spec_raw()@
                    == old(self).spec_raw()@
                &&& keep < old(self).spec_raw().spec_no_samples() ==> final(self).spec_raw()@
                    == old(self).spec_raw()@.take(
                    (keep * old(self).spec_raw().spec_format().bytes_per_sample()) as int,
                )
            }),
    {
        self.raw.truncate_duration(cut_dur);
    }

    /// Splits at `ts` after the start; the second part starts `ts` later.
    pub fn split_at_timestamp(self, ts: ClockTime) -> (r: (
        TimestampedRawAudioBuffer,
        TimestampedRawAudioBuffer,
    ))
        requires
            self.spec_start() matches Some(s) ==> s.nanos() + ts.nanos() <= u64::MAX,
        ensures
            r.0.spec_raw()@ + r.1.spec_raw()@ == self.spec_raw()@,
            r.0.spec_start() == self.spec_start(),
            r.1.spec_start() == match self.spec_start() {
                Some(s) => Some(ClockTime((s.nanos() + ts.nanos()) as u64)),
                None => None,
            },
    {
        let start = self.start;
        let (a, b) = self.raw.split_at_timestamp(ts);
        let second_start = match start {
            Some(s) => Some(ClockTime(s.0 + ts.0)),
            None => None,
        };
        (TimestampedRawAudioBuffer { raw: a, start }, TimestampedRawAudioBuffer { raw: b, start: second_start })
    }
}

/// A raw buffer with the number of samples it must be resized to.
#[derive(Clone, Debug, PartialEq, Eq)]
pub struct ResizableRawAudioBuffer {
    raw: RawAudioBuffer,
    desired_no_samples: usize,
}

impl View for ResizableRawAudioBuffer {
    type V = ResizableView;

    open spec fn view(&self) -> ResizableView {
        (
            self.spec_raw()@,
            self.spec_raw().spec_format(),
            self.spec_raw().spec_sample_rate(),
            self.spec_desired(),
        )
    }
}

impl ResizableRawAudioBuffer {
    pub closed spec fn spec_raw(&self) -> &RawAudioBuffer {
        &self.raw
    }

    pub closed spec fn spec_desired(&self) -> nat {
        self.desired_no_samples as nat
    }

    pub fn new(raw: RawAudioBuffer, desired_no_samples: usize) -> (r: ResizableRawAudioBuffer)
        ensures
            r.spec_raw() == raw,
            r.spec_desired() == desired_no_samples,
    {
        ResizableRawAudioBuffer { raw, desired_no_samples }
    }

    pub fn raw(&self) -> (r: &RawAudioBuffer)
        ensures
            r == self.spec_raw(),
    {
        &self.raw
    }

    pub fn into_raw(self) -> (r: RawAudioBuffer)
        ensures
            r == self.spec_raw(),
    {
        self.raw
    }

    pub fn no_samples(&self) -> (r: usize)
        ensures
            r == self.spec_raw().spec_no_samples(),
    {
        self.raw.no_samples()
    }

    pub fn desired_no_samples(&self) -> (r: usize)
        ensures
            r == self.spec_desired(),
    {
        self.desired_no_samples
    }
}

} // verus!
