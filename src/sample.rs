use vstd::prelude::*;

use crate::audio::RawAudioFormat;
use crate::util::pow256;

verus! {

/// The bytes read as a little-endian unsigned integer.
pub open spec fn le_value(b: Seq<u8>) -> nat
    decreases b.len(),
{
    if b.len() == 0 {
        0
    } else {
        le_value(b.drop_last()) + pow256((b.len() - 1) as nat) * (b.last() as nat)
    }
}

/// The bytes in reverse order.
pub open spec fn reversed(b: Seq<u8>) -> Seq<u8> {
    Seq::new(b.len(), |i: int| b[b.len() - 1 - i])
}

/// The `n` low bytes of `u`, least significant first.
pub open spec fn le_bytes(u: nat, n: nat) -> Seq<u8> {
    Seq::new(n, |j: int| ((u / pow256(j as nat)) % 256) as u8)
}

/// The formats whose samples are integers that this library computes on.
pub open spec fn is_integer_format(f: RawAudioFormat) -> bool {
    f.bytes_per_sample() > 0 && !f.is_float()
}

pub open spec fn is_signed(f: RawAudioFormat) -> bool {
    match f {
        RawAudioFormat::S16LE | RawAudioFormat::S16BE | RawAudioFormat::S24LE
        | RawAudioFormat::S24BE | RawAudioFormat::S32LE | RawAudioFormat::S32BE => true,
        _ => false,
    }
}

pub open spec fn is_big_endian(f: RawAudioFormat) -> bool {
    match f {
        RawAudioFormat::S16BE | RawAudioFormat::S24BE | RawAudioFormat::S32BE
        | RawAudioFormat::F32BE => true,
        _ => false,
    }
}

/// The value of one sample of format `f` stored in `b`: unsigned for `U8`, two's complement
/// for the signed formats.
pub open spec fn sample_value(f: RawAudioFormat, b: Seq<u8>) -> int {
    let u = if is_big_endian(f) {
        le_value(reversed(b))
    } else {
        le_value(b)
    };
    let full = pow256(f.bytes_per_sample());
    if is_signed(f) && u >= full / 2 {
        u - full
    } else {
        u as int
    }
}

/// The bytes that store `v` as a sample of format `f`: its low bytes in two's complement.
pub open spec fn sample_bytes(f: RawAudioFormat, v: int) -> Seq<u8> {
    let n = f.bytes_per_sample();
    let u = (v % (pow256(n) as int)) as nat;
    if is_big_endian(f) {
        reversed(le_bytes(u, n))
    } else {
        le_bytes(u, n)
    }
}

/// The samples that `bytes` holds in format `f`.
pub open spec fn decoded(f: RawAudioFormat, bytes: Seq<u8>) -> Seq<int> {
    let n = f.bytes_per_sample();
    Seq::new(
        if n > 0 {
            bytes.len() / n
        } else {
            0
        },
        |i: int| sample_value(f, bytes.subrange(i * n, i * n + n)),
    )
}

/// The bytes that store `samples` in format `f`.
pub open spec fn encoded(f: RawAudioFormat, samples: Seq<int>) -> Seq<u8>
    decreases samples.len(),
{
    if samples.len() == 0 {
        Seq::empty()
    } else {
        encoded(f, samples.drop_last()) + sample_bytes(f, samples.last())
    }
}

pub open spec fn min_sample(f: RawAudioFormat) -> int {
    if is_signed(f) {
        -(pow256(f.bytes_per_sample()) / 2)
    } else {
        0
    }
}

pub open spec fn max_sample(f: RawAudioFormat) -> int {
    if is_signed(f) {
        pow256(f.bytes_per_sample()) / 2 - 1
    } else {
        pow256(f.bytes_per_sample()) - 1
    }
}

pub proof fn lemma_pow256_values()
    ensures
        pow256(0) == 1,
        pow256(1) == 256,
        pow256(2) == 65536,
        pow256(3) == 16777216,
        pow256(4) == 4294967296,
{
    reveal_with_fuel(pow256, 5);
}

proof fn lemma_le_value_bound(b: Seq<u8>)
    ensures
        le_value(b) < pow256(b.len()),
    decreases b.len(),
{
    if b.len() > 0 {
        lemma_le_value_bound(b.drop_last());
        let p = pow256((b.len() - 1) as nat);
        let v = le_value(b.drop_last());
        let l = b.last() as nat;
        assert(v + p * l < 256 * p) by (nonlinear_arith)
            requires
                v < p,
                l < 256,
        ;
    }
}

proof fn lemma_sample_range(f: RawAudioFormat, b: Seq<u8>)
    requires
        is_integer_format(f),
        b.len() == f.bytes_per_sample(),
    ensures
        min_sample(f) <= sample_value(f, b) <= max_sample(f),
{
    lemma_pow256_values();
    lemma_le_value_bound(b);
    lemma_le_value_bound(reversed(b));
}

/// Reads `n <= 4` bytes at `start` as a little-endian integer.
fn read_le(bytes: &[u8], start: usize, n: usize) -> (r: u64)
    requires
        n <= 4,
        start + n <= bytes@.len(),
    ensures
        r == le_value(bytes@.subrange(start as int, start + n)),
{
    let len = bytes.len();
    let mut acc: u64 = 0;
    let mut p: u64 = 1;
    let mut i: usize = 0;
    proof {
        lemma_pow256_values();
    }
    while i < n
        invariant
            i <= n <= 4,
            start + n <= bytes@.len(),
            len == bytes@.len(),
            acc == le_value(bytes@.subrange(start as int, start + i)),
            p == pow256(i as nat),
            acc < p,
            pow256(4) == 4294967296,
        decreases n - i,
    {
        let b = bytes[start + i];
        proof {
            assert(bytes@.subrange(start as int, start + i + 1).drop_last() =~= bytes@.subrange(
                start as int,
                start + i,
            ));
            lemma_pow_mono_4(i as nat);
            assert(acc + p * b < 256 * p) by (nonlinear_arith)
                requires
                    acc < p,
                    b < 256,
            ;
        }
        acc = acc + p * (b as u64);
        p = p * 256;
        i = i + 1;
    }
    acc
}

proof fn lemma_pow_mono_4(i: nat)
    requires
        i < 4,
    ensures
        256 * pow256(i) <= 4294967296,
{
    reveal_with_fuel(pow256, 5);
}

/// Reads `n <= 4` bytes at `start` as a big-endian integer.
fn read_be_small(bytes: &[u8], start: usize, n: usize) -> (r: u64)
    requires
        n <= 4,
        start + n <= bytes@.len(),
    ensures
        r == le_value(reversed(bytes@.subrange(start as int, start + n))),
{
    let len = bytes.len();
    let mut acc: u64 = 0;
    let mut p: u64 = 1;
    let mut i: usize = 0;
    let ghost rev = reversed(bytes@.subrange(start as int, start + n));
    proof {
        lemma_pow256_values();
    }
    while i < n
        invariant
            i <= n <= 4,
            start + n <= bytes@.len(),
            len == bytes@.len(),
            rev == reversed(bytes@.subrange(start as int, start + n)),
            acc == le_value(rev.subrange(0, i as int)),
            p == pow256(i as nat),
            acc < p,
            pow256(4) == 4294967296,
        decreases n - i,
    {
        let b = bytes[start + n - 1 - i];
        proof {
            assert(rev[i as int] == b);
            assert(rev.subrange(0, i + 1).drop_last() =~= rev.subrange(0, i as int));
            lemma_pow_mono_4(i as nat);
            assert(acc + p * b < 256 * p) by (nonlinear_arith)
                requires
                    acc < p,
                    b < 256,
            ;
        }
        acc = acc + p * (b as u64);
        p = p * 256;
        i = i + 1;
    }
    assert(rev.subrange(0, n as int) =~= rev);
    acc
}

/// The value of the sample of integer format `f` that starts at byte `start`.
pub fn read_sample(bytes: &[u8], start: usize, f: RawAudioFormat) -> (r: i64)
    requires
        is_integer_format(f),
        start + f.bytes_per_sample() <= bytes@.len(),
    ensures
        r == sample_value(
            f,
            bytes@.subrange(start as int, start + f.bytes_per_sample()),
        ),
        min_sample(f) <= r <= max_sample(f),
{
    let n = f.no_bytes();
    proof {
        lemma_pow256_values();
        lemma_sample_range(f, bytes@.subrange(start as int, start + n));
    }
    let u = match f {
        RawAudioFormat::S16BE | RawAudioFormat::S24BE | RawAudioFormat::S32BE => read_be_small(
            bytes,
            start,
            n,
        ),
        _ => read_le(bytes, start, n),
    };
    match f {
        RawAudioFormat::S16LE | RawAudioFormat::S16BE => {
            if u >= 32768 {
                u as i64 - 65536
            } else {
                u as i64
            }
        },
        RawAudioFormat::S24LE | RawAudioFormat::S24BE => {
            if u >= 8388608 {
                u as i64 - 16777216
            } else {
                u as i64
            }
        },
        RawAudioFormat::S32LE | RawAudioFormat::S32BE => {
            if u >= 2147483648 {
                u as i64 - 4294967296
            } else {
                u as i64
            }
        },
        _ => u as i64,
    }
}

/// Appends the bytes that store `v` as a sample of integer format `f`.
pub fn write_sample(out: &mut Vec<u8>, v: i64, f: RawAudioFormat)
    requires
        is_integer_format(f),
        min_sample(f) <= v <= max_sample(f),
    ensures
        final(out)@ == old(out)@ + sample_bytes(f, v as int),
{
    let n = f.no_bytes();
    proof {
        lemma_pow256_values();
    }
    let full: i64 = if n == 1 {
        256
    } else if n == 2 {
        65536
    } else if n == 3 {
        16777216
    } else {
        4294967296
    };
    let u: u64 = if v < 0 {
        (v + full) as u64
    } else {
        v as u64
    };
    assert(u == (v as int) % (pow256(n as nat) as int)) by {
        if v < 0 {
            vstd::arithmetic::div_mod::lemma_mod_add_multiples_vanish(v as int, full as int);
            vstd::arithmetic::div_mod::lemma_small_mod(u as nat, full as nat);
        } else {
            vstd::arithmetic::div_mod::lemma_small_mod(u as nat, full as nat);
        }
    }
    let ghost le = le_bytes(u as nat, n as nat);
    let mut bytes: Vec<u8> = Vec::new();
    let mut cur = u;
    let mut i: usize = 0;
    while i < n
        invariant
            i <= n <= 4,
            n == f.bytes_per_sample(),
            le == le_bytes(u as nat, n as nat),
            bytes@ == le.subrange(0, i as int),
            cur == (u as nat) / pow256(i as nat),
        decreases n - i,
    {
        proof {
            lemma_pow256_pos(i as nat);
            vstd::arithmetic::div_mod::lemma_div_denominator(u as int, pow256(i as nat) as int, 256);
            assert(pow256((i + 1) as nat) == pow256(i as nat) * 256);
        }
        bytes.push((cur % 256) as u8);
        cur = cur / 256;
        proof {
            assert(bytes@ =~= le.subrange(0, i + 1));
        }
        i = i + 1;
    }
    assert(bytes@ =~= le);
    let big = match f {
        RawAudioFormat::S16BE | RawAudioFormat::S24BE | RawAudioFormat::S32BE => true,
        _ => false,
    };
    if big {
        let mut j: usize = 0;
        let ghost start = out@;
        while j < n
            invariant
                j <= n <= 4,
                n == f.bytes_per_sample(),
                bytes@ == le,
                le.len() == n,
                out@ == start + reversed(le).subrange(0, j as int),
            decreases n - j,
        {
            out.push(bytes[n - 1 - j]);
            proof {
                assert(out@ =~= start + reversed(le).subrange(0, j + 1));
            }
            j = j + 1;
        }
        assert(reversed(le).subrange(0, n as int) =~= reversed(le));
    } else {
        let mut j: usize = 0;
        let ghost start = out@;
        while j < n
            invariant
                j <= n <= 4,
                n == f.bytes_per_sample(),
                bytes@ == le,
                le.len() == n,
                out@ == start + le.subrange(0, j as int),
            decreases n - j,
        {
            out.push(bytes[j]);
            proof {
                assert(out@ =~= start + le.subrange(0, j + 1));
            }
            j = j + 1;
        }
        assert(le.subrange(0, n as int) =~= le);
    }
}

pub proof fn lemma_pow256_pos(n: nat)
    ensures
        pow256(n) > 0,
    decreases n,
{
    if n > 0 {
        lemma_pow256_pos((n - 1) as nat);
    }
}

} // verus!
