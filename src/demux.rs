use vstd::prelude::*;

use crate::audio::{
    frame_error, frame_parses, header_of, DemuxError, EncodedAudioBuffer, EncodedAudioHeader,
    MuxedAudioBuffer, NO_FRAME_HEADER_BYTES,
};
use crate::clock::ClockTime;
use crate::util::be_value;
use std::collections::VecDeque;

verus! {

/// An encoded buffer as values: header, start timestamp, payload.
pub type EncodedView = (EncodedAudioHeader, Option<ClockTime>, Seq<u8>);

pub open spec fn encoded_view(e: EncodedAudioBuffer) -> EncodedView {
    (e.header, e.start_ts, e.data@)
}

/// What a frame that parses holds.
pub open spec fn frame_view(b: Seq<u8>) -> EncodedView {
    (
        header_of(b).unwrap(),
        Some(ClockTime(be_value(b.subrange(5, 13)) as u64)),
        b.skip(NO_FRAME_HEADER_BYTES as int),
    )
}

/// The frames of `q` that parse, in order, as what they hold.
pub open spec fn parsed_frames(q: Seq<Seq<u8>>) -> Seq<EncodedView>
    decreases q.len(),
{
    if q.len() == 0 {
        Seq::empty()
    } else {
        let rest = parsed_frames(q.drop_last());
        if frame_parses(q.last()) {
            rest.push(frame_view(q.last()))
        } else {
            rest
        }
    }
}

/// How many frames of `q` fail with `e`.
pub open spec fn failures(q: Seq<Seq<u8>>, e: DemuxError) -> nat
    decreases q.len(),
{
    if q.len() == 0 {
        0
    } else {
        failures(q.drop_last(), e) + if !frame_parses(q.last()) && frame_error(q.last()) == e {
            1nat
        } else {
            0nat
        }
    }
}

/// `n`, or `u64::MAX` where it is larger.
pub open spec fn capped(n: nat) -> nat {
    if n > u64::MAX {
        u64::MAX as nat
    } else {
        n
    }
}

pub open spec fn muxed_views(q: Seq<MuxedAudioBuffer>) -> Seq<Seq<u8>> {
    q.map_values(|b: MuxedAudioBuffer| b.0@)
}

/// What draining the demuxer gave: the frames that parse, in order, and which kinds of
/// failure were met.
pub struct DemuxReport {
    pub frames: Vec<EncodedAudioBuffer>,
    pub frames_too_short: bool,
    pub unknown_codecs: bool,
}

/// Splits muxed frames into encoded buffers, dropping and counting the frames that do not
/// parse.
pub struct AudioDemuxer {
    muxed_audio: VecDeque<MuxedAudioBuffer>,
    frames_too_short: u64,
    unknown_codecs: u64,
}

impl AudioDemuxer {
    pub closed spec fn pending(&self) -> Seq<Seq<u8>> {
        muxed_views(self.muxed_audio@)
    }

    pub closed spec fn spec_frames_too_short(&self) -> nat {
        self.frames_too_short as nat
    }

    pub closed spec fn spec_unknown_codecs(&self) -> nat {
        self.unknown_codecs as nat
    }

    pub fn new() -> (r: AudioDemuxer)
        ensures
            r.pending() == Seq::<Seq<u8>>::empty(),
            r.spec_frames_too_short() == 0,
            r.spec_unknown_codecs() == 0,
    {
        let r = AudioDemuxer { muxed_audio: VecDeque::new(), frames_too_short: 0, unknown_codecs: 0 };
        assert(r.pending() =~= Seq::<Seq<u8>>::empty());
        r
    }

    pub fn push(&mut self, buf: MuxedAudioBuffer)
        ensures
            final(self).pending() == old(self).pending().push(buf.0@),
            final(self).spec_frames_too_short() == old(self).spec_frames_too_short(),
            final(self).spec_unknown_codecs() == old(self).spec_unknown_codecs(),
    {
        let ghost v = buf.0@;
        self.muxed_audio.push_back(buf);
        assert(self.pending() =~= old(self).pending().push(v));
    }

    /// Frames found too short so far (saturating).
    pub fn frames_too_short(&self) -> (r: u64)
        ensures
            r == self.spec_frames_too_short(),
    {
        self.frames_too_short
    }

    /// Frames with an unknown codec tag so far (saturating).
    pub fn unknown_codecs(&self) -> (r: u64)
        ensures
            r == self.spec_unknown_codecs(),
    {
        self.unknown_codecs
    }

    /// Parses the oldest pending frame; `None` where none is pending.
    pub fn pull(&mut self) -> (r: Option<Result<EncodedAudioBuffer, DemuxError>>)
        ensures
            old(self).pending().len() == 0 ==> r.is_none() && final(self).pending()
                == old(self).pending(),
            old(self).pending().len() > 0 ==> {
                let f = old(self).pending()[0];
                &&& final(self).pending() == old(self).pending().skip(1)
                &&& r matches Some(res)
                &&& frame_parses(f) ==> (res matches Ok(e) && encoded_view(e) == frame_view(f))
                &&& !frame_parses(f) ==> res == Err::<EncodedAudioBuffer, DemuxError>(
                    frame_error(f),
                )
            },
            final(self).spec_frames_too_short() == old(self).spec_frames_too_short(),
            final(self).spec_unknown_codecs() == old(self).spec_unknown_codecs(),
    {
        let ghost q = self.muxed_audio@;
        match self.muxed_audio.pop_front() {
            None => None,
            Some(buf) => {
                proof {
                    assert(self.pending() =~= old(self).pending().skip(1));
                    assert(q[0] == buf);
                }
                let res = EncodedAudioBuffer::try_from(buf);
                Some(res)
            },
        }
    }

    /// Parses every pending frame and hands back those that parse, in order; the others are
    /// dropped and counted by kind of failure.
    pub fn drain(&mut self) -> (r: Vec<EncodedAudioBuffer>)
        ensures
            final(self).pending() == Seq::<Seq<u8>>::empty(),
            r@.map_values(|e: EncodedAudioBuffer| encoded_view(e)) == parsed_frames(
                old(self).pending(),
            ),
            final(self).spec_frames_too_short() == capped(old(self).spec_frames_too_short() + failures(
                    old(self).pending(),
                    DemuxError::FrameTooShort,
                )),
            final(self).spec_unknown_codecs() == capped(old(self).spec_unknown_codecs() + failures(
                    old(self).pending(),
                    DemuxError::UnknownCodec,
                )),
    {
        self.drain_report().frames
    }

    /// `drain`, also telling which kinds of failure it met.
    pub fn drain_report(&mut self) -> (r: DemuxReport)
        ensures
            final(self).pending() == Seq::<Seq<u8>>::empty(),
            r.frames@.map_values(|e: EncodedAudioBuffer| encoded_view(e)) == parsed_frames(
                old(self).pending(),
            ),
            r.frames_too_short == (failures(old(self).pending(), DemuxError::FrameTooShort) > 0),
            r.unknown_codecs == (failures(old(self).pending(), DemuxError::UnknownCodec) > 0),
            final(self).spec_frames_too_short() == capped(old(self).spec_frames_too_short() + failures(
                    old(self).pending(),
                    DemuxError::FrameTooShort,
                )),
            final(self).spec_unknown_codecs() == capped(old(self).spec_unknown_codecs() + failures(
                    old(self).pending(),
                    DemuxError::UnknownCodec,
                )),
    {
        let ghost all = self.pending();
        let mut out: Vec<EncodedAudioBuffer> = Vec::new();
        let mut short = false;
        let mut unknown = false;
        let ghost mut done: int = 0;
        loop
            invariant
                0 <= done <= all.len(),
                short == (failures(all.take(done), DemuxError::FrameTooShort) > 0),
                unknown == (failures(all.take(done), DemuxError::UnknownCodec) > 0),
                self.pending() == all.skip(done),
                out@.map_values(|e: EncodedAudioBuffer| encoded_view(e)) == parsed_frames(
                    all.take(done),
                ),
                self.spec_frames_too_short() == capped(old(self).spec_frames_too_short() + failures(
                        all.take(done),
                        DemuxError::FrameTooShort,
                    )),
                self.spec_unknown_codecs() == capped(old(self).spec_unknown_codecs() + failures(
                        all.take(done),
                        DemuxError::UnknownCodec,
                    )),
            ensures
                done == all.len(),
                short == (failures(all, DemuxError::FrameTooShort) > 0),
                unknown == (failures(all, DemuxError::UnknownCodec) > 0),
                self.pending() == Seq::<Seq<u8>>::empty(),
                out@.map_values(|e: EncodedAudioBuffer| encoded_view(e)) == parsed_frames(all),
                self.spec_frames_too_short() == capped(old(self).spec_frames_too_short() + failures(all, DemuxError::FrameTooShort)),
                self.spec_unknown_codecs() == capped(old(self).spec_unknown_codecs() + failures(all, DemuxError::UnknownCodec)),
            decreases all.len() - done,
        {
            let ghost f = all[done];
            let ghost prev = out@.map_values(|e: EncodedAudioBuffer| encoded_view(e));
            let pulled = self.pull();
            match pulled {
                None => {
                    proof {
                        assert(all.take(done) =~= all);
                    }
                    break;
                },
                Some(Ok(e)) => {
                    proof {
                        assert(all.skip(done)[0] == f);
                        assert(all.take(done + 1).drop_last() =~= all.take(done));
                        assert(all.skip(done).skip(1) =~= all.skip(done + 1));
                        assert(all.take(done + 1).last() == f);
                    }
                    out.push(e);
                    proof {
                        assert(out@.map_values(|e: EncodedAudioBuffer| encoded_view(e)) =~= prev.push(
                            frame_view(f),
                        ));
                        done = done + 1;
                    }
                },
                Some(Err(err)) => {
                    proof {
                        assert(all.skip(done)[0] == f);
                        assert(all.take(done + 1).drop_last() =~= all.take(done));
                        assert(all.skip(done).skip(1) =~= all.skip(done + 1));
                        assert(all.take(done + 1).last() == f);
                    }
                    match err {
                        DemuxError::FrameTooShort => {
                            short = true;
                            if self.frames_too_short < u64::MAX {
                                self.frames_too_short = self.frames_too_short + 1;
                            }
                        },
                        DemuxError::UnknownCodec => {
                            unknown = true;
                            if self.unknown_codecs < u64::MAX {
                                self.unknown_codecs = self.unknown_codecs + 1;
                            }
                        },
                    }
                    proof {
                        done = done + 1;
                    }
                },
            }
        }
        DemuxReport { frames: out, frames_too_short: short, unknown_codecs: unknown }
    }
}

} // verus!
