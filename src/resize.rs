use vstd::prelude::*;

use crate::audio::{samples_in, whole_samples, RawAudioBuffer, RawAudioFormat, ResizableRawAudioBuffer};
use crate::sample::{
    decoded, encoded, is_integer_format, lemma_pow256_values, max_sample, min_sample,
    read_sample, sample_bytes, write_sample,
};

verus! {

/// How a buffer of `current` samples is brought to `desired` samples.
#[derive(Clone, Copy, Debug, PartialEq, Eq, Structural)]
pub enum ResizeStrategy {
    PassThrough,
    /// Drop samples at the front.
    Discard,
    /// Average runs of consecutive samples.
    Downsample,
    /// Interpolate linearly between consecutive samples.
    Upsample,
    /// Append zero samples at the end.
    AddSilence,
}

/// The strategy for the ratio `desired / current`; `None` where either is zero (the buffer
/// is dropped).
pub open spec fn strategy_for(current: nat, desired: nat) -> Option<ResizeStrategy> {
    if current == 0 || desired == 0 {
        None
    } else if desired == current {
        Some(ResizeStrategy::PassThrough)
    } else if 4 * desired <= 3 * current {
        Some(ResizeStrategy::Discard)
    } else if desired < current {
        Some(ResizeStrategy::Downsample)
    } else if 3 * desired >= 4 * current {
        Some(ResizeStrategy::AddSilence)
    } else {
        Some(ResizeStrategy::Upsample)
    }
}

pub open spec fn sum_of(s: Seq<int>) -> int
    decreases s.len(),
{
    if s.len() == 0 {
        0
    } else {
        sum_of(s.drop_last()) + s.last()
    }
}

/// `a / k` rounded toward zero, as integer division does.
pub open spec fn trunc_div(a: int, k: int) -> int {
    if a >= 0 {
        a / k
    } else {
        -((-a) / k)
    }
}

pub open spec fn mean_of(s: Seq<int>) -> int {
    trunc_div(sum_of(s), s.len() as int)
}

/// The window that the downsampler averages next, with `n` samples left to read and `d`
/// left to write: `floor(n / d)` samples, at least one.
pub open spec fn window_len(n: nat, d: nat) -> nat {
    if d > 0 && n / d > 1 {
        n / d
    } else {
        1
    }
}

/// Downsampling: each output sample is the mean of the next `window_len` input samples,
/// the rate being recomputed from what is left after each one.
pub open spec fn downsampled(s: Seq<int>, d: nat) -> Seq<int>
    decreases s.len(),
{
    if d == 0 || s.len() == 0 {
        Seq::empty()
    } else {
        let k = window_len(s.len(), d);
        if k <= s.len() {
            seq![mean_of(s.take(k as int))] + downsampled(s.skip(k as int), (d - 1) as nat)
        } else {
            Seq::empty()
        }
    }
}

/// The `j`-th of `k1` points from `a` toward `b`: `(a·(k1 − j) + b·j) / k1`.
pub open spec fn interpolant(a: int, b: int, k1: int, j: int) -> int {
    trunc_div(a * (k1 - j) + b * j, k1)
}

/// `a` followed by the points between `a` and `b` that fill `k1` slots.
pub open spec fn interpolated(a: int, b: int, k1: nat) -> Seq<int> {
    Seq::new(k1, |j: int| interpolant(a, b, k1 as int, j))
}

/// Upsampling: each sample but the last is followed by linear interpolants toward the next,
/// `floor((d − 1) / (n − 1)) − 1` of them with `n` samples and `d` slots left; then the last
/// sample.
pub open spec fn upsampled(s: Seq<int>, d: nat) -> Seq<int>
    decreases s.len(),
{
    if s.len() <= 1 {
        s
    } else {
        let k1 = if d >= 1 {
            ((d - 1) as nat / (s.len() - 1) as nat) as nat
        } else {
            0
        };
        interpolated(s[0], s[1], k1) + upsampled(s.skip(1), (d - k1) as nat)
    }
}

pub open spec fn zeros(n: nat) -> Seq<u8> {
    Seq::new(n, |i: int| 0u8)
}

/// The bytes that resizing `bytes` of format `f` to `desired` samples gives; `None` where
/// the buffer is dropped.
pub open spec fn resized_bytes(f: RawAudioFormat, bytes: Seq<u8>, desired: nat) -> Option<
    Seq<u8>,
> {
    let n = samples_in(bytes.len(), f);
    let b = f.bytes_per_sample();
    match strategy_for(n, desired) {
        None => None,
        Some(ResizeStrategy::PassThrough) => Some(bytes),
        Some(ResizeStrategy::Discard) => Some(bytes.skip(((n - desired) * b) as int)),
        Some(ResizeStrategy::Downsample) => Some(
            encoded(f, downsampled(decoded(f, bytes), desired)),
        ),
        Some(ResizeStrategy::Upsample) => Some(encoded(f, upsampled(decoded(f, bytes), desired))),
        Some(ResizeStrategy::AddSilence) => Some(bytes + zeros(((desired - n) * b) as nat)),
    }
}

/// The strategies that average or interpolate sample values.
pub open spec fn computes_on_samples(s: Option<ResizeStrategy>) -> bool {
    s == Some(ResizeStrategy::Downsample) || s == Some(ResizeStrategy::Upsample)
}

pub fn choose_resize_strategy(no_samples: usize, desired_no_samples: usize) -> (r: Option<
    ResizeStrategy,
>)
    ensures
        r == strategy_for(no_samples as nat, desired_no_samples as nat),
{
    let n = no_samples as u128;
    let d = desired_no_samples as u128;
    if n == 0 || d == 0 {
        None
    } else if d == n {
        Some(ResizeStrategy::PassThrough)
    } else if 4 * d <= 3 * n {
        Some(ResizeStrategy::Discard)
    } else if d < n {
        Some(ResizeStrategy::Downsample)
    } else if 3 * d >= 4 * n {
        Some(ResizeStrategy::AddSilence)
    } else {
        Some(ResizeStrategy::Upsample)
    }
}

proof fn lemma_encoded_len(f: RawAudioFormat, s: Seq<int>)
    ensures
        encoded(f, s).len() == s.len() * f.bytes_per_sample(),
    decreases s.len(),
{
    if s.len() > 0 {
        lemma_encoded_len(f, s.drop_last());
        assert(s.len() * f.bytes_per_sample() == (s.len() - 1) * f.bytes_per_sample()
            + f.bytes_per_sample()) by (nonlinear_arith);
    }
}

proof fn lemma_encoded_push(f: RawAudioFormat, s: Seq<int>, x: int)
    ensures
        encoded(f, s.push(x)) == encoded(f, s) + sample_bytes(f, x),
{
    assert(s.push(x).drop_last() =~= s);
}

proof fn lemma_window_fits(n: nat, d: nat)
    requires
        1 <= d <= n,
    ensures
        1 <= window_len(n, d) <= n,
        d - 1 <= n - window_len(n, d),
{
    let k = window_len(n, d);
    if n / d > 1 {
        vstd::arithmetic::div_mod::lemma_fundamental_div_mod(n as int, d as int);
        let q = n / d;
        let r = n % d;
        assert(n - q >= d - 1) by (nonlinear_arith)
            requires
                n == d * q + r,
                q >= 1,
                r >= 0,
                d >= 1,
        ;
        assert(q <= n) by (nonlinear_arith)
            requires
                n == d * q + r,
                q >= 1,
                r >= 0,
                d >= 1,
        ;
    }
}

proof fn lemma_downsampled_len(s: Seq<int>, d: nat)
    requires
        d <= s.len(),
    ensures
        downsampled(s, d).len() == d,
    decreases s.len(),
{
    if d > 0 && s.len() > 0 {
        lemma_window_fits(s.len(), d);
        let k = window_len(s.len(), d);
        lemma_downsampled_len(s.skip(k as int), (d - 1) as nat);
    }
}

proof fn lemma_up_step(n: nat, d: nat)
    requires
        2 <= n <= d,
    ensures
        1 <= (d - 1) as nat / (n - 1) as nat,
        (d - 1) as nat / (n - 1) as nat <= d,
        n - 1 <= d - (d - 1) as nat / (n - 1) as nat,
{
    let m = (n - 1) as nat;
    let e = (d - 1) as nat;
    vstd::arithmetic::div_mod::lemma_fundamental_div_mod(e as int, m as int);
    let q = e / m;
    let r = e % m;
    assert(q >= 1) by {
        vstd::arithmetic::div_mod::lemma_div_is_ordered(m as int, e as int, m as int);
        vstd::arithmetic::div_mod::lemma_div_by_self(m as int);
    }
    assert(e - q >= m - 1) by (nonlinear_arith)
        requires
            e == m * q + r,
            q >= 1,
            r >= 0,
            m >= 1,
    ;
    assert(q <= e) by (nonlinear_arith)
        requires
            e == m * q + r,
            q >= 1,
            r >= 0,
            m >= 1,
    ;
}

proof fn lemma_upsampled_len(s: Seq<int>, d: nat)
    requires
        1 <= s.len() <= d,
        s.len() == 1 ==> d == 1,
    ensures
        upsampled(s, d).len() == d,
    decreases s.len(),
{
    if s.len() > 1 {
        lemma_up_step(s.len(), d);
        let k1 = ((d - 1) as nat / (s.len() - 1) as nat) as nat;
        if s.len() == 2 {
            vstd::arithmetic::div_mod::lemma_div_basics((d - 1) as int);
        }
        lemma_upsampled_len(s.skip(1), (d - k1) as nat);
    }
}

/// Resizing a buffer to the number of samples it holds hands its bytes back unchanged.
pub proof fn lemma_resize_pass_through(f: RawAudioFormat, bytes: Seq<u8>, desired: nat)
    requires
        desired == samples_in(bytes.len(), f),
        desired > 0,
    ensures
        resized_bytes(f, bytes, desired) == Some(bytes),
{
}

/// A resized buffer holds exactly `desired` samples.
pub proof fn lemma_resize_len(f: RawAudioFormat, bytes: Seq<u8>, desired: nat)
    requires
        whole_samples(bytes.len(), f),
        resized_bytes(f, bytes, desired).is_some(),
    ensures
        resized_bytes(f, bytes, desired).unwrap().len() == desired * f.bytes_per_sample(),
{
    let n = samples_in(bytes.len(), f);
    let b = f.bytes_per_sample();
    vstd::arithmetic::div_mod::lemma_fundamental_div_mod(bytes.len() as int, b as int);
    assert(bytes.len() == n * b);
    match strategy_for(n, desired) {
        Some(ResizeStrategy::Discard) => {
            assert(desired * b == n * b - (n - desired) * b) by (nonlinear_arith)
                requires
                    desired <= n,
            ;
            vstd::arithmetic::mul::lemma_mul_inequality((n - desired) as int, n as int, b as int);
        },
        Some(ResizeStrategy::Downsample) => {
            lemma_downsampled_len(decoded(f, bytes), desired);
            lemma_encoded_len(f, downsampled(decoded(f, bytes), desired));
        },
        Some(ResizeStrategy::Upsample) => {
            lemma_upsampled_len(decoded(f, bytes), desired);
            lemma_encoded_len(f, upsampled(decoded(f, bytes), desired));
        },
        Some(ResizeStrategy::AddSilence) => {
            assert(desired * b == n * b + (desired - n) * b) by (nonlinear_arith)
                requires
                    desired >= n,
            ;
        },
        _ => {},
    }
}

/// Drops the front samples so that `desired_no_samples` are left.
pub fn discard(audio: RawAudioBuffer, desired_no_samples: usize) -> (r: RawAudioBuffer)
    requires
        desired_no_samples <= audio.spec_no_samples(),
    ensures
        r.spec_format() == audio.spec_format(),
        r.spec_sample_rate() == audio.spec_sample_rate(),
        r@ == audio@.skip(
            ((audio.spec_no_samples() - desired_no_samples) * audio.spec_format().bytes_per_sample())
                as int,
        ),
        r@.len() == desired_no_samples * audio.spec_format().bytes_per_sample(),
{
    let mut audio = audio;
    let n = audio.no_samples();
    let _ = audio.len();
    if n - desired_no_samples == 0 {
        assert(audio@.skip(0) =~= audio@);
        return audio;
    }
    audio.truncate_front(n - desired_no_samples);
    audio
}

/// Appends zero samples so that `desired_no_samples` are held.
pub fn add_silence(audio: RawAudioBuffer, desired_no_samples: usize) -> (r: RawAudioBuffer)
    requires
        desired_no_samples >= audio.spec_no_samples(),
        desired_no_samples * audio.spec_format().bytes_per_sample() <= usize::MAX,
    ensures
        r.spec_format() == audio.spec_format(),
        r.spec_sample_rate() == audio.spec_sample_rate(),
        r@ == audio@ + zeros(
            ((desired_no_samples - audio.spec_no_samples()) * audio.spec_format().bytes_per_sample())
                as nat,
        ),
        r@.len() == desired_no_samples * audio.spec_format().bytes_per_sample(),
{
    let f = audio.format();
    let rate = audio.sample_rate();
    let b = f.no_bytes();
    let n = audio.no_samples();
    let len = audio.len();
    proof {
        lemma_len_samples(len as nat, f);
        assert((desired_no_samples - n) * b + n * b == desired_no_samples * b) by (
        nonlinear_arith)
            requires
                desired_no_samples >= n,
        ;
    }
    let extra = (desired_no_samples - n) * b;
    let mut data = audio.into_vec();
    let ghost start = data@;
    let mut i: usize = 0;
    while i < extra
        invariant
            i <= extra,
            data@ == start + zeros(i as nat),
        decreases extra - i,
    {
        data.push(0u8);
        proof {
            assert(data@ =~= start + zeros((i + 1) as nat));
        }
        i = i + 1;
    }
    proof {
        if b > 0 {
            vstd::arithmetic::div_mod::lemma_mod_multiples_basic(desired_no_samples as int, b as int);
        }
    }
    RawAudioBuffer::new(data, f, rate)
}

proof fn lemma_len_samples(len: nat, f: RawAudioFormat)
    requires
        whole_samples(len, f),
    ensures
        len == samples_in(len, f) * f.bytes_per_sample(),
{
    if f.bytes_per_sample() > 0 {
        vstd::arithmetic::div_mod::lemma_fundamental_div_mod(len as int, f.bytes_per_sample() as int);
    }
}

proof fn lemma_trunc_div_range(a: int, k: int, lo: int, hi: int)
    requires
        k >= 1,
        lo <= 0 <= hi,
        k * lo <= a <= k * hi,
    ensures
        lo <= trunc_div(a, k) <= hi,
{
    if a >= 0 {
        vstd::arithmetic::div_mod::lemma_div_is_ordered(a, k * hi, k);
        vstd::arithmetic::div_mod::lemma_div_multiples_vanish(hi, k);
        vstd::arithmetic::div_mod::lemma_div_pos_is_pos(a, k);
    } else {
        assert(k * (-lo) == -(k * lo)) by (nonlinear_arith);
        vstd::arithmetic::div_mod::lemma_div_is_ordered(-a, k * (-lo), k);
        vstd::arithmetic::div_mod::lemma_div_multiples_vanish(-lo, k);
        vstd::arithmetic::div_mod::lemma_div_pos_is_pos(-a, k);
    }
}

/// Reads the sample at index `i` of `audio`.
fn sample_at(audio: &RawAudioBuffer, i: usize) -> (r: i64)
    requires
        is_integer_format(audio.spec_format()),
        i < audio.spec_no_samples(),
    ensures
        r == decoded(audio.spec_format(), audio@)[i as int],
        min_sample(audio.spec_format()) <= r <= max_sample(audio.spec_format()),
{
    let f = audio.format();
    let b = f.no_bytes();
    let len = audio.len();
    proof {
        lemma_len_samples(len as nat, f);
        vstd::arithmetic::mul::lemma_mul_inequality(
            (i + 1) as int,
            audio.spec_no_samples() as int,
            b as int,
        );
        assert((i + 1) * b == i * b + b) by (nonlinear_arith);
    }
    read_sample(audio.as_slice(), i * b, f)
}

/// Averages runs of consecutive samples so that `desired_no_samples` are left: each output
/// sample is the mean (rounded toward zero) of the next `floor(left_in / left_out)` input
/// samples, at least one.
pub fn downsample(audio: RawAudioBuffer, desired_no_samples: usize) -> (r: RawAudioBuffer)
    requires
        is_integer_format(audio.spec_format()),
        desired_no_samples <= audio.spec_no_samples(),
    ensures
        r.spec_format() == audio.spec_format(),
        r.spec_sample_rate() == audio.spec_sample_rate(),
        r@ == encoded(
            audio.spec_format(),
            downsampled(decoded(audio.spec_format(), audio@), desired_no_samples as nat),
        ),
        r@.len() == desired_no_samples * audio.spec_format().bytes_per_sample(),
{
    let f = audio.format();
    let n = audio.no_samples();
    let ghost s = decoded(f, audio@);
    let ghost mut outs: Seq<int> = Seq::empty();
    let mut out: Vec<u8> = Vec::new();
    let mut pos: usize = 0;
    let mut rem: usize = desired_no_samples;
    proof {
        lemma_pow256_values();
        assert(s.skip(0) =~= s);
    }
    while rem > 0
        invariant
            is_integer_format(f),
            f == audio.spec_format(),
            n == audio.spec_no_samples(),
            s == decoded(f, audio@),
            s.len() == n,
            pos <= n,
            rem <= n - pos,
            outs + downsampled(s.skip(pos as int), rem as nat) == downsampled(
                s,
                desired_no_samples as nat,
            ),
            out@ == encoded(f, outs),
            outs.len() + rem == desired_no_samples,
            min_sample(f) >= -0x8000_0000,
            max_sample(f) <= 0xffff_ffff,
            min_sample(f) <= 0 <= max_sample(f),
        decreases rem,
    {
        let ghost rest = s.skip(pos as int);
        let left = n - pos;
        let k = if left / rem > 1 {
            left / rem
        } else {
            1
        };
        proof {
            lemma_window_fits(left as nat, rem as nat);
        }
        let mut sum: i128 = 0;
        let mut j: usize = 0;
        while j < k
            invariant
                is_integer_format(f),
                f == audio.spec_format(),
                n == audio.spec_no_samples(),
                s == decoded(f, audio@),
                rest == s.skip(pos as int),
                pos + k <= n,
                j <= k,
                k <= 0xffff_ffff_ffff_ffff,
                sum == sum_of(rest.take(j as int)),
                j * min_sample(f) <= sum <= j * max_sample(f),
                min_sample(f) >= -0x8000_0000,
                max_sample(f) <= 0xffff_ffff,
                min_sample(f) <= 0 <= max_sample(f),
            decreases k - j,
        {
            let v = sample_at(&audio, pos + j);
            proof {
                assert(rest.take(j + 1).drop_last() =~= rest.take(j as int));
                assert((j + 1) * min_sample(f) == j * min_sample(f) + min_sample(f))
                    by (nonlinear_arith);
                assert((j + 1) * max_sample(f) == j * max_sample(f) + max_sample(f))
                    by (nonlinear_arith);
                assert(j * max_sample(f) <= 0xffff_ffff_ffff_ffff * 0xffff_ffff) by (nonlinear_arith)
                    requires
                        j <= 0xffff_ffff_ffff_ffff,
                        0 <= max_sample(f) <= 0xffff_ffff,
                ;
                assert(j * min_sample(f) >= 0xffff_ffff_ffff_ffff * (-0x8000_0000)) by (
                nonlinear_arith)
                    requires
                        j <= 0xffff_ffff_ffff_ffff,
                        -0x8000_0000 <= min_sample(f) <= 0,
                ;
            }
            sum = sum + v as i128;
            j = j + 1;
        }
        proof {
            assert(k * min_sample(f) >= 0xffff_ffff_ffff_ffff * (-0x8000_0000)) by (
            nonlinear_arith)
                requires
                    k <= 0xffff_ffff_ffff_ffff,
                    -0x8000_0000 <= min_sample(f) <= 0,
            ;
        }
        let kk = k as i128;
        let mean: i128 = if sum >= 0 {
            sum / kk
        } else {
            -((-sum) / kk)
        };
        proof {
            lemma_trunc_div_range(sum as int, k as int, min_sample(f), max_sample(f));
            assert(rest.take(k as int).len() == k);
        }
        write_sample(&mut out, mean as i64, f);
        proof {
            lemma_encoded_push(f, outs, mean as int);
            let d = rem as nat;
            assert(rest.len() == left);
            assert(downsampled(rest, d) == seq![mean_of(rest.take(k as int))] + downsampled(
                rest.skip(k as int),
                (d - 1) as nat,
            ));
            assert(rest.skip(k as int) =~= s.skip(pos + k));
            assert(outs.push(mean as int) + downsampled(s.skip(pos + k), (d - 1) as nat)
                =~= outs + downsampled(rest, d));
            outs = outs.push(mean as int);
        }
        pos = pos + k;
        rem = rem - 1;
    }
    proof {
        assert(outs + downsampled(s.skip(pos as int), 0) =~= outs);
    }
    let rate = audio.sample_rate();
    proof {
        lemma_downsampled_len(s, desired_no_samples as nat);
        lemma_encoded_len(f, outs);
        vstd::arithmetic::div_mod::lemma_mod_multiples_basic(
            desired_no_samples as int,
            f.bytes_per_sample() as int,
        );
    }
    RawAudioBuffer::new(out, f, rate)
}

proof fn lemma_interpolant_range(a: int, b: int, k1: int, j: int, lo: int, hi: int)
    requires
        k1 >= 1,
        0 <= j < k1,
        lo <= 0 <= hi,
        lo <= a <= hi,
        lo <= b <= hi,
    ensures
        lo <= interpolant(a, b, k1, j) <= hi,
{
    assert(k1 * lo <= a * (k1 - j) + b * j <= k1 * hi) by (nonlinear_arith)
        requires
            k1 >= 1,
            0 <= j < k1,
            lo <= a <= hi,
            lo <= b <= hi,
    ;
    lemma_trunc_div_range(a * (k1 - j) + b * j, k1, lo, hi);
}

/// Interpolates linearly between consecutive samples so that `desired_no_samples` are held.
pub fn upsample(audio: RawAudioBuffer, desired_no_samples: usize) -> (r: RawAudioBuffer)
    requires
        is_integer_format(audio.spec_format()),
        2 <= audio.spec_no_samples() <= desired_no_samples,
        desired_no_samples * audio.spec_format().bytes_per_sample() <= usize::MAX,
    ensures
        r.spec_format() == audio.spec_format(),
        r.spec_sample_rate() == audio.spec_sample_rate(),
        r@ == encoded(
            audio.spec_format(),
            upsampled(decoded(audio.spec_format(), audio@), desired_no_samples as nat),
        ),
        r@.len() == desired_no_samples * audio.spec_format().bytes_per_sample(),
{
    let f = audio.format();
    let n = audio.no_samples();
    let ghost s = decoded(f, audio@);
    let ghost mut outs: Seq<int> = Seq::empty();
    let mut out: Vec<u8> = Vec::new();
    let mut i: usize = 0;
    let mut rem: usize = desired_no_samples;
    proof {
        lemma_pow256_values();
        assert(s.skip(0) =~= s);
    }
    while i + 1 < n
        invariant
            is_integer_format(f),
            f == audio.spec_format(),
            n == audio.spec_no_samples(),
            2 <= n,
            s == decoded(f, audio@),
            s.len() == n,
            i < n,
            n - i <= rem,
            outs + upsampled(s.skip(i as int), rem as nat) == upsampled(
                s,
                desired_no_samples as nat,
            ),
            out@ == encoded(f, outs),
            min_sample(f) >= -0x8000_0000,
            max_sample(f) <= 0xffff_ffff,
            min_sample(f) <= 0 <= max_sample(f),
        decreases n - i,
    {
        let ghost rest = s.skip(i as int);
        let a = sample_at(&audio, i);
        let b = sample_at(&audio, i + 1);
        let k1 = (rem - 1) / (n - i - 1);
        proof {
            lemma_up_step((n - i) as nat, rem as nat);
        }
        let ghost seg = interpolated(a as int, b as int, k1 as nat);
        let ghost base = outs;
        let mut j: usize = 0;
        while j < k1
            invariant
                is_integer_format(f),
                j <= k1,
                k1 <= rem,
                seg == interpolated(a as int, b as int, k1 as nat),
                out@ == encoded(f, base + seg.take(j as int)),
                min_sample(f) <= a <= max_sample(f),
                min_sample(f) <= b <= max_sample(f),
                min_sample(f) >= -0x8000_0000,
                max_sample(f) <= 0xffff_ffff,
                min_sample(f) <= 0 <= max_sample(f),
            decreases k1 - j,
        {
            let kk = k1 as i128;
            let jj = j as i128;
            proof {
                assert(-0x8000_0000 * 0xffff_ffff_ffff_ffff <= a * (kk - jj) <= 0xffff_ffff
                    * 0xffff_ffff_ffff_ffff) by (nonlinear_arith)
                    requires
                        0 <= kk - jj <= 0xffff_ffff_ffff_ffff,
                        -0x8000_0000 <= a <= 0xffff_ffff,
                ;
                assert(-0x8000_0000 * 0xffff_ffff_ffff_ffff <= b * jj <= 0xffff_ffff
                    * 0xffff_ffff_ffff_ffff) by (nonlinear_arith)
                    requires
                        0 <= jj <= 0xffff_ffff_ffff_ffff,
                        -0x8000_0000 <= b <= 0xffff_ffff,
                ;
            }
            let num = (a as i128) * (kk - jj) + (b as i128) * jj;
            let v: i128 = if num >= 0 {
                num / kk
            } else {
                -((-num) / kk)
            };
            proof {
                lemma_interpolant_range(
                    a as int,
                    b as int,
                    k1 as int,
                    j as int,
                    min_sample(f),
                    max_sample(f),
                );
                assert(v == seg[j as int]);
            }
            write_sample(&mut out, v as i64, f);
            proof {
                lemma_encoded_push(f, base + seg.take(j as int), v as int);
                assert((base + seg.take(j as int)).push(v as int) =~= base + seg.take(j + 1));
            }
            j = j + 1;
        }
        proof {
            assert(seg.take(k1 as int) =~= seg);
            assert(rest.len() == n - i);
            assert(rest[0] == a && rest[1] == b);
            assert(rest.skip(1) =~= s.skip(i + 1));
            assert(upsampled(rest, rem as nat) == seg + upsampled(
                rest.skip(1),
                (rem - k1) as nat,
            ));
            assert(base + seg + upsampled(s.skip(i + 1), (rem - k1) as nat) =~= base
                + upsampled(rest, rem as nat));
            outs = base + seg;
        }
        i = i + 1;
        rem = rem - k1;
    }
    let last = sample_at(&audio, i);
    write_sample(&mut out, last, f);
    proof {
        lemma_encoded_push(f, outs, last as int);
        assert(s.skip(i as int) =~= seq![last as int]);
        assert(outs.push(last as int) =~= outs + upsampled(s.skip(i as int), rem as nat));
        outs = outs.push(last as int);
        lemma_upsampled_len(s, desired_no_samples as nat);
        lemma_encoded_len(f, outs);
        vstd::arithmetic::div_mod::lemma_mod_multiples_basic(
            desired_no_samples as int,
            f.bytes_per_sample() as int,
        );
    }
    let rate = audio.sample_rate();
    RawAudioBuffer::new(out, f, rate)
}

/// Brings `audio` to exactly `desired_no_samples` samples with the strategy that the ratio
/// calls for; `None` where the buffer or the target is empty.
pub fn resize(audio: RawAudioBuffer, desired_no_samples: usize) -> (r: Option<RawAudioBuffer>)
    requires
        !(audio.spec_format().is_float() && computes_on_samples(
            strategy_for(audio.spec_no_samples(), desired_no_samples as nat),
        )),
        desired_no_samples * audio.spec_format().bytes_per_sample() <= usize::MAX,
    ensures
        r.is_some() == resized_bytes(audio.spec_format(), audio@, desired_no_samples as nat).is_some(),
        r matches Some(out) ==> {
            &&& Some(out@) == resized_bytes(audio.spec_format(), audio@, desired_no_samples as nat)
            &&& out.spec_format() == audio.spec_format()
            &&& out.spec_sample_rate() == audio.spec_sample_rate()
        },
{
    let n = audio.no_samples();
    let len = audio.len();
    proof {
        lemma_len_samples(len as nat, audio.spec_format());
    }
    match choose_resize_strategy(n, desired_no_samples) {
        None => None,
        Some(ResizeStrategy::PassThrough) => Some(audio),
        Some(ResizeStrategy::Discard) => Some(discard(audio, desired_no_samples)),
        Some(ResizeStrategy::Downsample) => Some(downsample(audio, desired_no_samples)),
        Some(ResizeStrategy::Upsample) => Some(upsample(audio, desired_no_samples)),
        Some(ResizeStrategy::AddSilence) => Some(add_silence(audio, desired_no_samples)),
    }
}

/// `n + 1`, or `n` where that is `usize::MAX`.
pub open spec fn saturating_inc(n: nat) -> nat {
    if n >= usize::MAX {
        n
    } else {
        n + 1
    }
}

/// The resizer stage: turns each resizable buffer into a raw buffer of the desired size.
pub struct AudioResizer {
    resized: usize,
    dropped: usize,
}

impl AudioResizer {
    /// Buffers resized so far (saturating).
    pub closed spec fn spec_resized(&self) -> nat {
        self.resized as nat
    }

    /// Buffers dropped so far (saturating).
    pub closed spec fn spec_dropped(&self) -> nat {
        self.dropped as nat
    }

    pub fn new() -> (r: AudioResizer)
        ensures
            r.spec_resized() == 0,
            r.spec_dropped() == 0,
    {
        AudioResizer { resized: 0, dropped: 0 }
    }

    pub fn resized_count(&self) -> (r: usize)
        ensures
            r == self.spec_resized(),
    {
        self.resized
    }

    pub fn dropped_count(&self) -> (r: usize)
        ensures
            r == self.spec_dropped(),
    {
        self.dropped
    }

    /// Resizes one buffer; `None` where it is dropped.
    pub fn process(&mut self, buf: ResizableRawAudioBuffer) -> (r: Option<RawAudioBuffer>)
        requires
            !(buf.spec_raw().spec_format().is_float() && computes_on_samples(
                strategy_for(buf.spec_raw().spec_no_samples(), buf.spec_desired()),
            )),
            buf.spec_desired() * buf.spec_raw().spec_format().bytes_per_sample() <= usize::MAX,
        ensures
            r.is_some() == resized_bytes(
                buf.spec_raw().spec_format(),
                buf.spec_raw()@,
                buf.spec_desired(),
            ).is_some(),
            r matches Some(out) ==> {
                &&& Some(out@) == resized_bytes(
                    buf.spec_raw().spec_format(),
                    buf.spec_raw()@,
                    buf.spec_desired(),
                )
                &&& out.spec_format() == buf.spec_raw().spec_format()
                &&& out.spec_sample_rate() == buf.spec_raw().spec_sample_rate()
            },
            r.is_some() ==> final(self).spec_resized() == saturating_inc(old(self).spec_resized()) && final(self).spec_dropped() == old(self).spec_dropped(),
            r.is_none() ==> final(self).spec_dropped() == saturating_inc(old(self).spec_dropped()) && final(self).spec_resized() == old(self).spec_resized(),
    {
        let desired = buf.desired_no_samples();
        let r = resize(buf.into_raw(), desired);
        if r.is_some() {
            self.resized = if self.resized < usize::MAX { self.resized + 1 } else { self.resized };
        } else {
            self.dropped = if self.dropped < usize::MAX { self.dropped + 1 } else { self.dropped };
        }
        r
    }
}

} // verus!
