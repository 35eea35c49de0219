use vstd::prelude::*;

use crate::sample::{le_bytes, lemma_pow256_pos, reversed};
use crate::util::{be_value, pow256, read_be, vec_prepend, vec_truncate_front};

verus! {

/// Bytes that open every packet of the device link.
pub const HEADER_PREFIX_LEN: usize = 5;

/// Bytes of the big-endian payload size that follows the prefix.
pub const NO_SIZE_BYTES: usize = 8;

pub const HEADER_LEN: usize = 13;

pub open spec fn header_prefix() -> Seq<u8> {
    seq![0xFu8, 0xFu8, 0x0u8, 0x12u8, 0xEu8]
}

/// The header of a packet with a payload of `size` bytes.
pub open spec fn header_for(size: nat) -> Seq<u8> {
    header_prefix() + reversed(le_bytes(size, 8))
}

/// A framed message of the device link: prefix, payload size, payload.
pub struct NetworkPacket(Vec<u8>);

impl View for NetworkPacket {
    type V = Seq<u8>;

    closed spec fn view(&self) -> Seq<u8> {
        self.0@
    }
}

impl NetworkPacket {
    /// Wraps bytes that already hold a header.
    pub fn from_raw(data: Vec<u8>) -> (r: NetworkPacket)
        ensures
            r@ == data@,
    {
        NetworkPacket(data)
    }

    /// Frames `data` as the payload of a packet.
    pub fn from_bytes(data: Vec<u8>) -> (r: NetworkPacket)
        ensures
            r@ == header_for(data@.len()) + data@,
    {
        let size = data.len() as u64;
        let mut header: Vec<u8> = vec![0xF, 0xF, 0x0, 0x12, 0xE];
        let ghost le = le_bytes(size as nat, 8);
        let mut k: usize = 0;
        while k < 8
            invariant
                k <= 8,
                le == le_bytes(size as nat, 8),
                header@ == header_prefix() + reversed(le).subrange(0, k as int),
            decreases 8 - k,
        {
            let shift = 7 - k;
            let mut v = size;
            let mut s: usize = 0;
            proof {
                assert(pow256(0) == 1);
                vstd::arithmetic::div_mod::lemma_div_basics(size as int);
            }
            while s < shift
                invariant
                    s <= shift,
                    shift < 8,
                    v == (size as nat) / pow256(s as nat),
                decreases shift - s,
            {
                proof {
                    lemma_pow256_pos(s as nat);
                    vstd::arithmetic::div_mod::lemma_div_denominator(
                        size as int,
                        pow256(s as nat) as int,
                        256,
                    );
                }
                v = v / 256;
                s = s + 1;
            }
            header.push((v % 256) as u8);
            proof {
                assert(reversed(le)[k as int] == le[7 - k]);
                assert(header@ =~= header_prefix() + reversed(le).subrange(0, k + 1));
            }
            k = k + 1;
        }
        assert(reversed(le).subrange(0, 8) =~= reversed(le));
        let mut data = data;
        vec_prepend(&mut data, header);
        NetworkPacket(data)
    }

    /// Whether `header` opens with the packet prefix.
    pub fn is_header_correct(header: &[u8]) -> (r: bool)
        ensures
            r == (header@.len() >= HEADER_PREFIX_LEN && header@.subrange(0, 5)
                == header_prefix()),
    {
        if header.len() < HEADER_PREFIX_LEN {
            return false;
        }
        let ok = header[0] == 0xF && header[1] == 0xF && header[2] == 0x0 && header[3] == 0x12
            && header[4] == 0xE;
        proof {
            if ok {
                assert(header@.subrange(0, 5) =~= header_prefix());
            } else {
                if header@.subrange(0, 5) == header_prefix() {
                    assert(header@.subrange(0, 5)[0] == header@[0]);
                    assert(header@.subrange(0, 5)[1] == header@[1]);
                    assert(header@.subrange(0, 5)[2] == header@[2]);
                    assert(header@.subrange(0, 5)[3] == header@[3]);
                    assert(header@.subrange(0, 5)[4] == header@[4]);
                }
            }
        }
        ok
    }

    /// The payload size that a whole header states.
    pub fn read_size_from_header(header: &[u8]) -> (r: u64)
        requires
            header@.len() == HEADER_LEN,
        ensures
            r == be_value(header@.subrange(5, 13)),
    {
        read_be(header, HEADER_PREFIX_LEN, NO_SIZE_BYTES)
    }

    pub fn as_raw(&self) -> (r: &[u8])
        ensures
            r@ == self@,
    {
        self.0.as_slice()
    }

    pub fn into_raw(self) -> (r: Vec<u8>)
        ensures
            r@ == self@,
    {
        self.0
    }

    /// The payload: what follows the header (nothing where the packet is shorter).
    pub fn into_bytes(self) -> (r: Vec<u8>)
        ensures
            self@.len() <= HEADER_LEN ==> r@ == Seq::<u8>::empty(),
            self@.len() > HEADER_LEN ==> r@ == self@.skip(HEADER_LEN as int),
    {
        let mut raw = self.0;
        vec_truncate_front(&mut raw, HEADER_LEN);
        raw
    }

    pub fn len(&self) -> (r: usize)
        ensures
            r == self@.len(),
    {
        self.0.len()
    }
}

/// What one read into a buffer of the link came back with.
#[derive(Clone, Copy, Debug, PartialEq, Eq, Structural)]
pub enum ReadOutcome {
    /// `n` bytes were read.
    Data(usize),
    /// The peer closed the stream.
    EndOfStream,
    WouldBlock,
    Interrupted,
    /// An error after which the link is gone (aborted, reset, broken pipe, early end).
    Critical,
    /// Any other error.
    Failed,
}

/// What a read loop does next.
#[derive(Clone, Copy, Debug, PartialEq, Eq, Structural)]
pub enum ReadStep {
    /// Read again, with this many bytes filled.
    Continue(usize),
    /// The buffer is full.
    Done,
    /// The device is gone.
    Unlinked,
    /// Hand the error on.
    Fail,
}

/// One step of filling `total` bytes of which `filled` are there: a would-block retries
/// once some bytes have arrived or where asked to, an interruption retries, an end of
/// stream or a critical error unlinks.
pub fn read_step(filled: usize, total: usize, outcome: ReadOutcome, continue_on_would_block: bool) -> (r: ReadStep)
    requires
        filled <= total,
    ensures
        outcome matches ReadOutcome::Data(n) ==> n > 0 ==> (if filled + n >= total {
            r == ReadStep::Done
        } else {
            r == ReadStep::Continue((filled + n) as usize)
        }),
        outcome == ReadOutcome::Data(0) ==> r == ReadStep::Unlinked,
        outcome == ReadOutcome::EndOfStream ==> r == ReadStep::Unlinked,
        outcome == ReadOutcome::Critical ==> r == ReadStep::Unlinked,
        outcome == ReadOutcome::Interrupted ==> r == ReadStep::Continue(filled),
        outcome == ReadOutcome::WouldBlock ==> r == if filled > 0 || continue_on_would_block {
            ReadStep::Continue(filled)
        } else {
            ReadStep::Fail
        },
        outcome == ReadOutcome::Failed ==> r == ReadStep::Fail,
{
    match outcome {
        ReadOutcome::Data(n) => {
            if n == 0 {
                ReadStep::Unlinked
            } else if n >= total - filled {
                ReadStep::Done
            } else {
                ReadStep::Continue(filled + n)
            }
        },
        ReadOutcome::EndOfStream | ReadOutcome::Critical => ReadStep::Unlinked,
        ReadOutcome::Interrupted => ReadStep::Continue(filled),
        ReadOutcome::WouldBlock => {
            if filled > 0 || continue_on_would_block {
                ReadStep::Continue(filled)
            } else {
                ReadStep::Fail
            }
        },
        ReadOutcome::Failed => ReadStep::Fail,
    }
}

} // verus!
