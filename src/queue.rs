use vstd::prelude::*;

use crate::audio::{
    duration_of_samples, samples_duration, samples_in, RawAudioBuffer, RawAudioFormat,
};
use crate::clock::{min_int, ClockTime};
use std::collections::VecDeque;

verus! {

/// The bytes of the buffers, one after the other.
pub open spec fn concat_bytes(bufs: Seq<RawAudioBuffer>) -> Seq<u8>
    decreases bufs.len(),
{
    if bufs.len() == 0 {
        Seq::empty()
    } else {
        bufs[0]@ + concat_bytes(bufs.skip(1))
    }
}

/// The durations of the buffers, summed.
pub open spec fn sum_durations(bufs: Seq<RawAudioBuffer>) -> nat
    decreases bufs.len(),
{
    if bufs.len() == 0 {
        0
    } else {
        bufs[0].spec_duration() + sum_durations(bufs.skip(1))
    }
}

/// The duration of what is left of `b` after its first `off` bytes.
pub open spec fn left_duration(b: RawAudioBuffer, off: nat) -> nat {
    samples_duration(
        samples_in((b@.len() - off) as nat, b.spec_format()),
        b.spec_sample_rate() as nat,
    )
}

/// The duration still to play: what is left of the front buffer and all the others.
pub open spec fn queued_duration(bufs: Seq<RawAudioBuffer>, off: nat) -> nat {
    if bufs.len() == 0 {
        0
    } else {
        left_duration(bufs[0], off) + sum_durations(bufs.skip(1))
    }
}

/// The buffers and front offset left after dropping the oldest buffers while the queue
/// holds more than `max` nanoseconds.
pub open spec fn trimmed(bufs: Seq<RawAudioBuffer>, off: nat, max: nat) -> (Seq<RawAudioBuffer>, nat)
    decreases bufs.len(),
{
    if bufs.len() == 0 || queued_duration(bufs, off) <= max {
        (bufs, off)
    } else {
        trimmed(bufs.skip(1), 0, max)
    }
}

/// Each chunk is taken from the front of what is left of `bytes`, and nothing is left at
/// the end.
pub open spec fn drained_by(bytes: Seq<u8>, chunks: Seq<Seq<u8>>) -> bool
    decreases chunks.len(),
{
    if chunks.len() == 0 {
        bytes.len() == 0
    } else {
        &&& chunks[0].len() <= bytes.len()
        &&& bytes.take(chunks[0].len() as int) == chunks[0]
        &&& drained_by(bytes.skip(chunks[0].len() as int), chunks.skip(1))
    }
}

/// The chunks, one after the other.
pub open spec fn concat_chunks(chunks: Seq<Seq<u8>>) -> Seq<u8>
    decreases chunks.len(),
{
    if chunks.len() == 0 {
        Seq::empty()
    } else {
        chunks[0] + concat_chunks(chunks.skip(1))
    }
}

proof fn lemma_concat_push(bufs: Seq<RawAudioBuffer>, b: RawAudioBuffer)
    ensures
        concat_bytes(bufs.push(b)) == concat_bytes(bufs) + b@,
        sum_durations(bufs.push(b)) == sum_durations(bufs) + b.spec_duration(),
    decreases bufs.len(),
{
    if bufs.len() == 0 {
        assert(bufs.push(b).skip(1) =~= Seq::<RawAudioBuffer>::empty());
        assert(concat_bytes(bufs.push(b).skip(1)) == Seq::<u8>::empty());
        assert(sum_durations(bufs.push(b).skip(1)) == 0);
        assert(concat_bytes(bufs.push(b)) == b@ + Seq::<u8>::empty());
        assert(concat_bytes(bufs.push(b)) =~= b@);
    } else {
        lemma_concat_push(bufs.skip(1), b);
        assert(bufs.push(b).skip(1) =~= bufs.skip(1).push(b));
        assert(concat_bytes(bufs.push(b)) =~= concat_bytes(bufs) + b@);
    }
}

/// Pushing buffers into a queue and then draining it in chunks hands back the pushed bytes,
/// in order and unchanged: the chunks taken one after the other are the buffers' bytes one
/// after the other.
pub proof fn lemma_fifo_bytes(bufs: Seq<RawAudioBuffer>, chunks: Seq<Seq<u8>>)
    requires
        drained_by(concat_bytes(bufs), chunks),
    ensures
        concat_chunks(chunks) == concat_bytes(bufs),
{
    lemma_drained_concat(concat_bytes(bufs), chunks);
}

proof fn lemma_drained_concat(bytes: Seq<u8>, chunks: Seq<Seq<u8>>)
    requires
        drained_by(bytes, chunks),
    ensures
        concat_chunks(chunks) == bytes,
    decreases chunks.len(),
{
    if chunks.len() == 0 {
        assert(bytes =~= Seq::<u8>::empty());
    } else {
        let n = chunks[0].len() as int;
        lemma_drained_concat(bytes.skip(n), chunks.skip(1));
        assert(bytes =~= bytes.take(n) + bytes.skip(n));
    }
}

/// A bounded FIFO of raw buffers, read byte by byte from the front buffer. Pushing past
/// `max_duration` drops the oldest buffers.
pub struct RawAudioQueue {
    max_duration: ClockTime,
    duration: ClockTime,
    buffers: VecDeque<RawAudioBuffer>,
    front_buffer_offset: usize,
}

impl RawAudioQueue {
    pub closed spec fn buffers(&self) -> Seq<RawAudioBuffer> {
        self.buffers@
    }

    /// Bytes of the front buffer already read.
    pub closed spec fn offset(&self) -> nat {
        self.front_buffer_offset as nat
    }

    pub closed spec fn spec_max_duration(&self) -> nat {
        self.max_duration.0 as nat
    }

    /// The bytes still to be read, in order.
    pub open spec fn bytes(&self) -> Seq<u8> {
        concat_bytes(self.buffers()).skip(self.offset() as int)
    }

    pub closed spec fn wf(&self) -> bool {
        &&& self.buffers@.len() == 0 ==> self.front_buffer_offset == 0
        &&& self.buffers@.len() > 0 ==> self.front_buffer_offset <= self.buffers@[0]@.len()
        &&& self.duration.0 == queued_duration(self.buffers@, self.front_buffer_offset as nat)
        &&& self.duration.0 <= self.max_duration.0
    }

    pub open spec fn spec_duration(&self) -> nat {
        queued_duration(self.buffers(), self.offset())
    }

    pub fn new(max_duration: ClockTime) -> (r: RawAudioQueue)
        ensures
            r.wf(),
            r.buffers() == Seq::<RawAudioBuffer>::empty(),
            r.offset() == 0,
            r.spec_max_duration() == max_duration.0,
    {
        RawAudioQueue {
            max_duration,
            duration: ClockTime(0),
            buffers: VecDeque::new(),
            front_buffer_offset: 0,
        }
    }

    pub fn front_buffer_format(&self) -> (r: Option<RawAudioFormat>)
        ensures
            self.buffers().len() == 0 ==> r.is_none(),
            self.buffers().len() > 0 ==> r == Some(self.buffers()[0].spec_format()),
    {
        if self.buffers.len() == 0 {
            None
        } else {
            Some(self.buffers[0].format())
        }
    }

    pub fn front_buffer_sample_rate(&self) -> (r: Option<u32>)
        ensures
            self.buffers().len() == 0 ==> r.is_none(),
            self.buffers().len() > 0 ==> r == Some(self.buffers()[0].spec_sample_rate()),
    {
        if self.buffers.len() == 0 {
            None
        } else {
            Some(self.buffers[0].sample_rate())
        }
    }

    pub fn has_buffers(&self) -> (r: bool)
        ensures
            r == (self.buffers().len() > 0),
    {
        self.buffers.len() > 0
    }

    /// Whether the front buffer holds any bytes.
    pub fn has_bytes(&self) -> (r: bool)
        ensures
            r == (self.buffers().len() > 0 && self.buffers()[0]@.len() > 0),
    {
        self.buffers.len() > 0 && self.buffers[0].len() != 0
    }

    pub fn no_buffers(&self) -> (r: usize)
        ensures
            r == self.buffers().len(),
    {
        self.buffers.len()
    }

    /// The number of bytes still to be read, where it fits a `usize`.
    pub fn no_bytes(&self) -> (r: Option<usize>)
        requires
            self.wf(),
        ensures
            r.is_some() <==> self.bytes().len() <= usize::MAX,
            r.is_some() ==> r.unwrap() == self.bytes().len(),
    {
        let mut total: u128 = 0;
        let mut i: usize = 0;
        let n = self.buffers.len();
        while i < n
            invariant
                n == self.buffers@.len(),
                i <= n,
                total == concat_bytes(self.buffers@.take(i as int)).len(),
                total <= i * (usize::MAX as int),
            decreases n - i,
        {
            let l = self.buffers[i].len();
            proof {
                lemma_concat_push(self.buffers@.take(i as int), self.buffers@[i as int]);
                assert(self.buffers@.take(i + 1) =~= self.buffers@.take(i as int).push(
                    self.buffers@[i as int],
                ));
                assert((i + 1) * (usize::MAX as int) == i * (usize::MAX as int) + usize::MAX)
                    by (nonlinear_arith);
                assert((i + 1) * (usize::MAX as int) <= usize::MAX * usize::MAX) by (
                nonlinear_arith)
                    requires
                        i + 1 <= usize::MAX,
                ;
                assert(total + l <= (i + 1) * (usize::MAX as int));
                assert(usize::MAX * usize::MAX < u128::MAX) by (nonlinear_arith);
            }
            total = total + l as u128;
            i = i + 1;
        }
        assert(self.buffers@.take(n as int) =~= self.buffers@);
        proof {
            if n > 0 {
                assert(concat_bytes(self.buffers@).len() >= self.buffers@[0]@.len());
            }
        }
        let left = total - self.front_buffer_offset as u128;
        if left > usize::MAX as u128 {
            None
        } else {
            Some(left as usize)
        }
    }

    pub fn max_duration(&self) -> (r: ClockTime)
        ensures
            r.0 == self.spec_max_duration(),
    {
        self.max_duration
    }

    /// The duration still to play.
    pub fn duration(&self) -> (r: ClockTime)
        requires
            self.wf(),
        ensures
            r.0 == self.spec_duration(),
    {
        self.duration
    }

    /// The room left before the queue is full.
    pub fn available_duration(&self) -> (r: ClockTime)
        requires
            self.wf(),
        ensures
            r.0 == self.spec_max_duration() - self.spec_duration(),
    {
        ClockTime(self.max_duration.0 - self.duration.0)
    }


    /// Appends a buffer; then, while the queue holds more than its maximum duration, drops
    /// the oldest buffer.
    pub fn push_buffer(&mut self, buffer: RawAudioBuffer)
        requires
            old(self).wf(),
        ensures
            final(self).wf(),
            final(self).spec_max_duration() == old(self).spec_max_duration(),
            (final(self).buffers(), final(self).offset()) == trimmed(
                old(self).buffers().push(buffer),
                old(self).offset(),
                old(self).spec_max_duration(),
            ),
            old(self).spec_duration() + buffer.spec_duration() <= old(self).spec_max_duration()
                ==> final(self).bytes() == old(self).bytes() + buffer@,
    {
        let ghost old_bufs = self.buffers@;
        let ghost b = buffer;
        let d = buffer.duration();
        let was_empty = self.buffers.len() == 0;
        self.buffers.push_back(buffer);
        proof {
            lemma_concat_push(old_bufs, b);
            if old_bufs.len() > 0 {
                lemma_concat_push(old_bufs.skip(1), b);
                assert(self.buffers@.skip(1) =~= old_bufs.skip(1).push(b));
                assert(self.buffers@[0] == old_bufs[0]);
            } else {
                assert(self.buffers@.skip(1) =~= Seq::<RawAudioBuffer>::empty());
            }
            assert(concat_bytes(old_bufs.push(b)).skip(self.front_buffer_offset as int)
                =~= concat_bytes(old_bufs).skip(self.front_buffer_offset as int) + b@) by {
                if old_bufs.len() > 0 {
                    assert(concat_bytes(old_bufs).len() >= old_bufs[0]@.len());
                }
            }
        }
        let mut total: u128 = self.duration.0 as u128 + d.0 as u128;
        let ghost first_total = total;
        while total > self.max_duration.0 as u128 && self.buffers.len() > 0
            invariant
                self.buffers@.len() == 0 ==> self.front_buffer_offset == 0,
                self.buffers@.len() > 0 ==> self.front_buffer_offset <= self.buffers@[0]@.len(),
                total == queued_duration(self.buffers@, self.front_buffer_offset as nat),
                total <= 2 * (u64::MAX as int),
                trimmed(self.buffers@, self.front_buffer_offset as nat, self.max_duration.0 as nat)
                    == trimmed(old_bufs.push(b), old(self).front_buffer_offset as nat, old(self).max_duration.0 as nat),
                self.max_duration == old(self).max_duration,
            decreases self.buffers@.len(),
        {
            let ghost cur = self.buffers@;
            let front_left = left_duration_of(&self.buffers[0], self.front_buffer_offset);
            let _ = self.buffers.pop_front();
            self.front_buffer_offset = 0;
            total = total - front_left.0 as u128;
            proof {
                assert(self.buffers@ =~= cur.skip(1));
                if self.buffers@.len() > 0 {
                    assert(self.buffers@.skip(1) =~= cur.skip(2));
                    assert(cur.skip(1).skip(1) =~= cur.skip(2));
                }
            }
        }
        proof {
            assert(trimmed(self.buffers@, self.front_buffer_offset as nat, self.max_duration.0 as nat)
                == (self.buffers@, self.front_buffer_offset as nat));
        }
        self.duration = ClockTime(total as u64);
    }

    /// Reads up to `desired` bytes of the front buffer, with its format and sample rate;
    /// `None` where the queue is empty. A front buffer read to its end leaves the queue.
    pub fn pop_bytes(&mut self, desired: usize) -> (r: Option<(Vec<u8>, RawAudioFormat, u32)>)
        requires
            old(self).wf(),
        ensures
            final(self).wf(),
            final(self).spec_max_duration() == old(self).spec_max_duration(),
            old(self).buffers().len() == 0 <==> r.is_none(),
            r.is_none() ==> final(self).buffers() == old(self).buffers() && final(self).offset()
                == old(self).offset(),
            r matches Some((v, f, rate)) ==> {
                let front = old(self).buffers()[0];
                let take = min_int(
                    desired as int,
                    front@.len() - old(self).offset(),
                );
                &&& v@ == old(self).bytes().take(take)
                &&& final(self).bytes() == old(self).bytes().skip(take)
                &&& f == front.spec_format()
                &&& rate == front.spec_sample_rate()
                &&& old(self).offset() + take < front@.len() ==> final(self).buffers()
                    == old(self).buffers() && final(self).offset() == old(self).offset() + take
                &&& old(self).offset() + take >= front@.len() ==> final(self).buffers()
                    == old(self).buffers().skip(1) && final(self).offset() == 0
            },
    {
        if self.buffers.len() == 0 {
            return None;
        }
        let ghost bufs = self.buffers@;
        let ghost off0 = self.front_buffer_offset as int;
        let old_left = left_duration_of(&self.buffers[0], self.front_buffer_offset);
        let front = &self.buffers[0];
        let available = front.len() - self.front_buffer_offset;
        let take = if desired < available {
            desired
        } else {
            available
        };
        let start = self.front_buffer_offset;
        let end = start + take;
        let slice = front.as_slice();
        let mut v: Vec<u8> = Vec::new();
        let mut i = start;
        while i < end
            invariant
                start <= i <= end,
                end <= slice@.len(),
                v@ == slice@.subrange(start as int, i as int),
            decreases end - i,
        {
            v.push(slice[i]);
            proof {
                assert(v@ =~= slice@.subrange(start as int, i + 1));
            }
            i = i + 1;
        }
        let f = front.format();
        let rate = front.sample_rate();
        let len = front.len();
        proof {
            let cat = concat_bytes(bufs);
            assert(cat == bufs[0]@ + concat_bytes(bufs.skip(1)));
            assert(v@ =~= cat.skip(off0).take(take as int));
        }
        if end >= len {
            let _ = self.buffers.pop_front();
            self.front_buffer_offset = 0;
            self.duration = ClockTime(self.duration.0 - old_left.0);
            proof {
                assert(self.buffers@ =~= bufs.skip(1));
                let cat = concat_bytes(bufs);
                assert(concat_bytes(self.buffers@) =~= cat.skip(off0).skip(take as int));
            }
        } else {
            let new_left = left_duration_of(&self.buffers[0], end);
            self.front_buffer_offset = end;
            proof {
                let cat = concat_bytes(bufs);
                assert(cat.skip(end as int) =~= cat.skip(off0).skip(take as int));
                lemma_left_duration_mono(bufs[0], off0 as nat, end as nat);
            }
            self.duration = ClockTime(self.duration.0 - old_left.0 + new_left.0);
        }
        Some((v, f, rate))
    }

    /// `pop_bytes`, but only where the front buffer has the given format and sample rate;
    /// `None` otherwise, and then the queue is left as it was.
    pub fn pop_bytes_with_props(
        &mut self,
        desired: usize,
        format: RawAudioFormat,
        sample_rate: u32,
    ) -> (r: Option<Vec<u8>>)
        requires
            old(self).wf(),
        ensures
            final(self).wf(),
            final(self).spec_max_duration() == old(self).spec_max_duration(),
            r.is_some() <==> old(self).buffers().len() > 0 && old(self).buffers()[0].spec_format()
                == format && old(self).buffers()[0].spec_sample_rate() == sample_rate,
            r.is_none() ==> final(self).buffers() == old(self).buffers() && final(self).offset()
                == old(self).offset(),
            r matches Some(v) ==> {
                let take = min_int(
                    desired as int,
                    old(self).buffers()[0]@.len() - old(self).offset(),
                );
                &&& v@ == old(self).bytes().take(take)
                &&& final(self).bytes() == old(self).bytes().skip(take)
                &&& old(self).offset() + take < old(self).buffers()[0]@.len()
                    ==> final(self).buffers() == old(self).buffers()
                &&& old(self).offset() + take >= old(self).buffers()[0]@.len()
                    ==> final(self).buffers() == old(self).buffers().skip(1)
            },
    {
        let f = match self.front_buffer_format() {
            Some(f) => f,
            None => {
                return None;
            },
        };
        let rate = match self.front_buffer_sample_rate() {
            Some(r) => r,
            None => {
                return None;
            },
        };
        if f == format && rate == sample_rate {
            match self.pop_bytes(desired) {
                Some((v, _, _)) => Some(v),
                None => None,
            }
        } else {
            None
        }
    }
}

/// The duration of what is left of `b` after its first `off` bytes.
fn left_duration_of(b: &RawAudioBuffer, off: usize) -> (r: ClockTime)
    requires
        off <= b@.len(),
    ensures
        r.0 == left_duration(*b, off as nat),
{
    let bb = b.format().no_bytes();
    let left = b.len() - off;
    let samples = if bb == 0 {
        0
    } else {
        left / bb
    };
    duration_of_samples(samples, b.sample_rate())
}

pub open spec fn zero_bytes(n: nat) -> Seq<u8> {
    Seq::new(n, |i: int| 0u8)
}

/// The front buffer exists and has the given format and sample rate.
pub open spec fn front_matches(bufs: Seq<RawAudioBuffer>, format: RawAudioFormat, rate: u32) -> bool {
    bufs.len() > 0 && bufs[0].spec_format() == format && bufs[0].spec_sample_rate() == rate
}

/// What the sink's callback gets from the queue.
pub struct SinkRead {
    /// Exactly the bytes asked for: those read, then zeros.
    pub bytes: Vec<u8>,
    /// Reading stopped at a front buffer of another format or sample rate.
    pub format_mismatch: bool,
}

impl RawAudioQueue {
    /// Pops one byte at a time until the queue is empty and hands back the bytes in the
    /// order they were popped: exactly the bytes that were still to be read.
    pub fn drain_bytes(&mut self) -> (r: Vec<u8>)
        requires
            old(self).wf(),
        ensures
            final(self).wf(),
            final(self).spec_max_duration() == old(self).spec_max_duration(),
            r@ == old(self).bytes(),
            final(self).buffers().len() == 0,
    {
        let ghost start = self.bytes();
        let mut out: Vec<u8> = Vec::new();
        loop
            invariant
                self.wf(),
                self.spec_max_duration() == old(self).spec_max_duration(),
                start == old(self).bytes(),
                out@.len() <= start.len(),
                out@ == start.take(out@.len() as int),
                self.bytes() == start.skip(out@.len() as int),
            ensures
                self.wf(),
                self.spec_max_duration() == old(self).spec_max_duration(),
                out@ == start,
                self.buffers().len() == 0,
            decreases self.bytes().len(), self.buffers().len(),
        {
            let ghost before = self.bytes();
            let ghost bufs = self.buffers();
            proof {
                if bufs.len() > 0 {
                    assert(concat_bytes(bufs) == bufs[0]@ + concat_bytes(bufs.skip(1)));
                }
            }
            match self.pop_bytes(1) {
                None => {
                    proof {
                        assert(concat_bytes(bufs) =~= Seq::<u8>::empty());
                        assert(out@ =~= start);
                    }
                    break;
                },
                Some((v, _, _)) => {
                    let ghost taken = v@.len();
                    let mut v = v;
                    out.append(&mut v);
                    proof {
                        assert(out@ =~= start.take(out@.len() as int));
                        assert(start.skip(out@.len() as int) =~= before.skip(taken as int));
                        if taken == 0 {
                            assert(self.buffers() == bufs.skip(1));
                        }
                    }
                },
            }
        }
        out
    }

    /// Fills `nbytes` for a sink that plays `format` at `sample_rate`: reads from the
    /// queue while its front buffer has that format and rate, then fills up with zeros.
    pub fn read_for_sink(&mut self, nbytes: usize, format: RawAudioFormat, sample_rate: u32) -> (r:
        SinkRead)
        requires
            old(self).wf(),
        ensures
            final(self).wf(),
            final(self).spec_max_duration() == old(self).spec_max_duration(),
            r.bytes@.len() == nbytes,
            exists|t: int|
                #![trigger old(self).bytes().take(t)]
                {
                    &&& 0 <= t <= nbytes
                    &&& r.bytes@ == old(self).bytes().take(t) + zero_bytes((nbytes - t) as nat)
                    &&& final(self).bytes() == old(self).bytes().skip(t)
                    &&& t < nbytes ==> !front_matches(final(self).buffers(), format, sample_rate)
                    &&& r.format_mismatch == (t < nbytes && final(self).buffers().len() > 0)
                },
    {
        let ghost start = self.bytes();
        let mut out: Vec<u8> = Vec::new();
        let mut mismatch = false;
        loop
            invariant_except_break
                !mismatch,
            invariant
                self.wf(),
                self.spec_max_duration() == old(self).spec_max_duration(),
                start == old(self).bytes(),
                out@.len() <= nbytes,
                out@.len() <= start.len(),
                out@ == start.take(out@.len() as int),
                self.bytes() == start.skip(out@.len() as int),
            ensures
                self.wf(),
                self.spec_max_duration() == old(self).spec_max_duration(),
                out@.len() <= nbytes,
                out@.len() <= start.len(),
                out@ == start.take(out@.len() as int),
                self.bytes() == start.skip(out@.len() as int),
                out@.len() < nbytes ==> !front_matches(self.buffers(), format, sample_rate),
                mismatch == (out@.len() < nbytes && self.buffers().len() > 0),
            decreases self.bytes().len(), self.buffers().len(),
        {
            if out.len() >= nbytes {
                break;
            }
            let ghost before = self.bytes();
            let ghost bufs = self.buffers();
            let ghost off = self.offset();
            proof {
                if bufs.len() > 0 {
                    assert(concat_bytes(bufs) == bufs[0]@ + concat_bytes(bufs.skip(1)));
                }
            }
            match self.pop_bytes_with_props(nbytes - out.len(), format, sample_rate) {
                None => {
                    mismatch = self.buffers.len() > 0;
                    break;
                },
                Some(v) => {
                    let ghost taken = v@.len();
                    let mut v = v;
                    out.append(&mut v);
                    proof {
                        assert(out@ =~= start.take(out@.len() as int));
                        assert(start.skip(out@.len() as int) =~= before.skip(taken as int));
                        if taken == 0 {
                            assert(self.buffers() == bufs.skip(1));
                        }
                    }
                },
            }
        }
        let filled = out.len();
        let ghost t = filled as int;
        while out.len() < nbytes
            invariant
                filled <= out@.len() <= nbytes,
                out@ == start.take(t) + zero_bytes((out@.len() - t) as nat),
                t == filled,
            decreases nbytes - out.len(),
        {
            out.push(0u8);
            proof {
                assert(out@ =~= start.take(t) + zero_bytes((out@.len() - t) as nat));
            }
        }
        proof {
            assert(start.take(t) == old(self).bytes().take(t));
        }
        SinkRead { bytes: out, format_mismatch: mismatch }
    }
}

proof fn lemma_left_duration_mono(b: RawAudioBuffer, a: nat, c: nat)
    requires
        a <= c <= b@.len(),
    ensures
        left_duration(b, c) <= left_duration(b, a),
{
    let f = b.spec_format();
    let r = b.spec_sample_rate() as nat;
    let x = samples_in((b@.len() - c) as nat, f);
    let y = samples_in((b@.len() - a) as nat, f);
    if f.bytes_per_sample() > 0 {
        vstd::arithmetic::div_mod::lemma_div_is_ordered(
            (b@.len() - c) as int,
            (b@.len() - a) as int,
            f.bytes_per_sample() as int,
        );
    }
    if r > 0 {
        vstd::arithmetic::mul::lemma_mul_inequality(x as int, y as int, 1_000_000_000);
        vstd::arithmetic::div_mod::lemma_div_is_ordered(
            (x * 1_000_000_000) as int,
            (y * 1_000_000_000) as int,
            r as int,
        );
    }
}

} // verus!
