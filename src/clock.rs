use vstd::prelude::*;

use crate::ring_buffer::{ring_written, RingBuffer};
use std::time::Instant;
use vstd::string::StringExecFns;

verus! {

/// A point in time or a span of time, in nanoseconds.
#[derive(Clone, Copy, Debug, PartialEq, Eq, Structural, PartialOrd, Ord, Hash)]
pub struct ClockTime(pub u64);

pub const NANOS_IN_SEC: u64 = 1_000_000_000;

pub open spec fn min_int(a: int, b: int) -> int {
    if a <= b {
        a
    } else {
        b
    }
}

pub open spec fn max_int(a: int, b: int) -> int {
    if a >= b {
        a
    } else {
        b
    }
}

impl ClockTime {
    pub const NANOS_IN_SEC: u64 = 1_000_000_000;

    pub const MICROS_IN_SEC: u64 = 1_000_000;

    pub const MILLIS_IN_SEC: u64 = 1_000;

    pub open spec fn nanos(self) -> int {
        self.0 as int
    }

    /// `self − rhs`, or zero where `rhs` is the later time.
    pub open spec fn spec_saturating_sub(self, rhs: ClockTime) -> ClockTime {
        if rhs.0 > self.0 {
            ClockTime(0)
        } else {
            ClockTime((self.0 - rhs.0) as u64)
        }
    }

    pub fn from_nanos(nanos: u64) -> (r: ClockTime)
        ensures
            r.nanos() == nanos,
    {
        ClockTime(nanos)
    }

    pub fn from_micros(micros: u64) -> (r: ClockTime)
        requires
            micros * 1000 <= u64::MAX,
        ensures
            r.nanos() == micros * 1000,
    {
        ClockTime(micros * 1000)
    }

    pub fn from_millis(millis: u64) -> (r: ClockTime)
        requires
            millis * 1_000_000 <= u64::MAX,
        ensures
            r.nanos() == millis * 1_000_000,
    {
        ClockTime(millis * 1_000_000)
    }

    pub fn from_secs(secs: u64) -> (r: ClockTime)
        requires
            secs * NANOS_IN_SEC <= u64::MAX,
        ensures
            r.nanos() == secs * NANOS_IN_SEC,
    {
        ClockTime(secs * NANOS_IN_SEC)
    }

    pub fn as_nanos(&self) -> (r: u64)
        ensures
            r == self.0,
    {
        self.0
    }

    pub fn as_micros(&self) -> (r: u64)
        ensures
            r == self.0 / 1000,
    {
        self.0 / 1000
    }

    pub fn as_millis(&self) -> (r: u64)
        ensures
            r == self.0 / 1_000_000,
    {
        self.0 / 1_000_000
    }

    pub fn as_secs(&self) -> (r: u64)
        ensures
            r == self.0 / NANOS_IN_SEC,
    {
        self.0 / NANOS_IN_SEC
    }

    /// This time read on the master clock: `(t − mean_slave) · num / denom + mean_master`.
    /// `None` where that falls outside what a `ClockTime` holds.
    pub fn to_master_time(&self, calibration_info: ClockCalibrationInfo) -> (r: Option<ClockTime>)
        requires
            calibration_info.slope_denom > 0,
        ensures
            r.is_some() <==> fits_time(master_time_of(self.nanos(), calibration_info)),
            r.is_some() ==> r.unwrap().nanos() == master_time_of(self.nanos(), calibration_info),
    {
        let mean = calibration_info.observation_mean;
        shift_scaled(
            self.0,
            mean.slave_time.0,
            calibration_info.slope_num,
            calibration_info.slope_denom,
            mean.master_time.0,
        )
    }

    /// This time read on the slave clock: `(t − mean_master) · denom / num + mean_slave`.
    /// `None` where that falls outside what a `ClockTime` holds.
    pub fn to_slave_time(&self, calibration_info: ClockCalibrationInfo) -> (r: Option<ClockTime>)
        requires
            calibration_info.slope_num > 0,
        ensures
            r.is_some() <==> fits_time(slave_time_of(self.nanos(), calibration_info)),
            r.is_some() ==> r.unwrap().nanos() == slave_time_of(self.nanos(), calibration_info),
    {
        let mean = calibration_info.observation_mean;
        shift_scaled(
            self.0,
            mean.master_time.0,
            calibration_info.slope_denom,
            calibration_info.slope_num,
            mean.slave_time.0,
        )
    }

    pub fn saturating_sub(self, rhs: ClockTime) -> (r: ClockTime)
        ensures
            r == self.spec_saturating_sub(rhs),
    {
        if rhs.0 > self.0 {
            ClockTime(0)
        } else {
            ClockTime(self.0 - rhs.0)
        }
    }
}

/// `d · num / denom`, rounded toward zero.
pub open spec fn scaled(d: int, num: int, denom: int) -> int {
    if d >= 0 {
        d * num / denom
    } else {
        -((-d) * num / denom)
    }
}

pub open spec fn fits_time(t: int) -> bool {
    0 <= t <= u64::MAX
}

pub open spec fn master_time_of(t: int, info: ClockCalibrationInfo) -> int {
    scaled(
        t - info.observation_mean.slave_time.0,
        info.slope_num as int,
        info.slope_denom as int,
    ) + info.observation_mean.master_time.0
}

pub open spec fn slave_time_of(t: int, info: ClockCalibrationInfo) -> int {
    scaled(
        t - info.observation_mean.master_time.0,
        info.slope_denom as int,
        info.slope_num as int,
    ) + info.observation_mean.slave_time.0
}

/// `scaled(t − from, num, denom) + to`, where it fits a `ClockTime`.
fn shift_scaled(t: u64, from: u64, num: u64, denom: u64, to: u64) -> (r: Option<ClockTime>)
    requires
        denom > 0,
    ensures
        r.is_some() <==> fits_time(scaled(t - from, num as int, denom as int) + to),
        r.is_some() ==> r.unwrap().nanos() == scaled(t - from, num as int, denom as int) + to,
{
    let negative = t < from;
    let mag: u128 = if negative {
        (from - t) as u128
    } else {
        (t - from) as u128
    };
    assert(mag * (num as u128) <= u64::MAX * u64::MAX) by (nonlinear_arith)
        requires
            mag <= u64::MAX,
            num <= u64::MAX,
    ;
    let q = mag * (num as u128) / (denom as u128);
    assert(q <= mag * num) by (nonlinear_arith)
        requires
            q == (mag * num) / (denom as int),
            denom > 0,
    ;
    if q > u64::MAX as u128 {
        return None;
    }
    if negative {
        if q > to as u128 {
            None
        } else {
            Some(ClockTime(to - q as u64))
        }
    } else {
        let sum = q + to as u128;
        if sum > u64::MAX as u128 {
            None
        } else {
            Some(ClockTime(sum as u64))
        }
    }
}

/// The law of `saturating_sub`: where `b` is not later than `a`, what it leaves, plus the
/// earlier time, is the later time. (Where `b` is later it leaves zero, and the sum is `a`.)
pub proof fn lemma_saturating_sub_min_max(a: ClockTime, b: ClockTime)
    requires
        b.0 <= a.0,
    ensures
        a.spec_saturating_sub(b).nanos() + min_int(a.nanos(), b.nanos()) == max_int(
            a.nanos(),
            b.nanos(),
        ),
{
    assert(a.spec_saturating_sub(b).nanos() == a.0 - b.0);
}

/// Converting a time to the master clock and back to the slave clock with the same
/// calibration gives the time back, where both slopes are non-zero, the master time fits
/// a `ClockTime`, and the scaling divides exactly.
pub proof fn lemma_master_slave_round_trip(t: ClockTime, info: ClockCalibrationInfo)
    requires
        info.slope_num > 0,
        info.slope_denom > 0,
        fits_time(master_time_of(t.nanos(), info)),
        (t.nanos() - info.observation_mean.slave_time.0) * info.slope_num % (
        info.slope_denom as int) == 0,
    ensures
        slave_time_of(master_time_of(t.nanos(), info), info) == t.nanos(),
{
    let d = t.nanos() - info.observation_mean.slave_time.0;
    let num = info.slope_num as int;
    let denom = info.slope_denom as int;
    let x = scaled(d, num, denom);
    if d >= 0 {
        assert(x * denom == d * num) by (nonlinear_arith)
            requires
                x == d * num / denom,
                (d * num) % denom == 0,
                denom > 0,
        ;
        assert(x >= 0) by (nonlinear_arith)
            requires
                x == d * num / denom,
                d >= 0,
                num > 0,
                denom > 0,
        ;
        assert(x * denom / num == d) by (nonlinear_arith)
            requires
                x * denom == d * num,
                num > 0,
        ;
    } else {
        let e = -d;
        vstd::arithmetic::div_mod::lemma_fundamental_div_mod(d * num, denom);
        assert(e * num == (-((d * num) / denom)) * denom) by (nonlinear_arith)
            requires
                d * num == denom * ((d * num) / denom),
                e == -d,
        ;
        vstd::arithmetic::div_mod::lemma_mod_multiples_basic(-((d * num) / denom), denom);
        let y = e * num / denom;
        assert(y * denom == e * num) by (nonlinear_arith)
            requires
                y == e * num / denom,
                (e * num) % denom == 0,
                denom > 0,
        ;
        assert(y > 0) by (nonlinear_arith)
            requires
                y * denom == e * num,
                e > 0,
                num > 0,
                denom > 0,
        ;
        assert(x == -y);
        assert(y * denom / num == e) by (nonlinear_arith)
            requires
                y * denom == e * num,
                num > 0,
        ;
    }
}

/// What a clock calls itself.
#[derive(Clone, Debug, PartialEq, Eq, Hash)]
pub struct ClockInfo {
    pub name: String,
}

/// A source of monotonic time.
pub trait Clock {
    fn info(&self) -> ClockInfo;

    fn get_time(&self) -> ClockTime;
}

/// How often a slaved clock records an observation, in nanoseconds (100 ms).
pub const OBSERVATIONS_INTERVAL: u64 = 100_000_000;

/// How many observations a slaved clock needs before it calibrates.
pub const MIN_OBSERVATIONS: usize = 4;

/// How many of the latest observations a slaved clock keeps.
pub const MAX_OBSERVATIONS: usize = 32;

/// Times at or above this bound are not calibrated on (about 73 years of uptime): the sums
/// of products over `MAX_OBSERVATIONS` observations must fit 128 bits.
pub const CALIBRATION_TIME_LIMIT: u64 = 0x2000_0000_0000_0000;

/// One reading of both clocks at (about) the same instant.
#[derive(Clone, Copy, Debug, PartialEq, Eq, Structural)]
pub struct ClockObservation {
    pub master_time: ClockTime,
    pub slave_time: ClockTime,
}

impl ClockObservation {
    pub fn new(master_time: ClockTime, slave_time: ClockTime) -> (r: ClockObservation)
        ensures
            r.master_time == master_time,
            r.slave_time == slave_time,
    {
        ClockObservation { master_time, slave_time }
    }

    /// The product of both times.
    pub fn mul_times(&self) -> (r: ClockTime)
        requires
            self.master_time.nanos() * self.slave_time.nanos() <= u64::MAX,
        ensures
            r.nanos() == self.master_time.nanos() * self.slave_time.nanos(),
    {
        ClockTime(self.master_time.0 * self.slave_time.0)
    }
}

pub open spec fn sum_master(obs: Seq<ClockObservation>) -> int
    decreases obs.len(),
{
    if obs.len() == 0 {
        0
    } else {
        sum_master(obs.drop_last()) + obs.last().master_time.nanos()
    }
}

pub open spec fn sum_slave(obs: Seq<ClockObservation>) -> int
    decreases obs.len(),
{
    if obs.len() == 0 {
        0
    } else {
        sum_slave(obs.drop_last()) + obs.last().slave_time.nanos()
    }
}

/// Σ master · slave.
pub open spec fn sum_master_slave(obs: Seq<ClockObservation>) -> int
    decreases obs.len(),
{
    if obs.len() == 0 {
        0
    } else {
        sum_master_slave(obs.drop_last()) + obs.last().master_time.nanos()
            * obs.last().slave_time.nanos()
    }
}

/// Σ slave · slave.
pub open spec fn sum_slave_slave(obs: Seq<ClockObservation>) -> int
    decreases obs.len(),
{
    if obs.len() == 0 {
        0
    } else {
        sum_slave_slave(obs.drop_last()) + obs.last().slave_time.nanos()
            * obs.last().slave_time.nanos()
    }
}

pub open spec fn mean_master(obs: Seq<ClockObservation>) -> int {
    sum_master(obs) / (obs.len() as int)
}

pub open spec fn mean_slave(obs: Seq<ClockObservation>) -> int {
    sum_slave(obs) / (obs.len() as int)
}

/// `Σ(master·slave) − N · mean(master) · mean(slave)`.
pub open spec fn slope_num_of(obs: Seq<ClockObservation>) -> int {
    sum_master_slave(obs) - obs.len() * mean_master(obs) * mean_slave(obs)
}

/// `Σ(slave·slave) − N · mean(slave)²`.
pub open spec fn slope_denom_of(obs: Seq<ClockObservation>) -> int {
    sum_slave_slave(obs) - obs.len() * mean_slave(obs) * mean_slave(obs)
}

pub open spec fn times_below_limit(obs: Seq<ClockObservation>) -> bool {
    forall|i: int|
        0 <= i < obs.len() ==> #[trigger] obs[i].master_time.0 < CALIBRATION_TIME_LIMIT
            && obs[i].slave_time.0 < CALIBRATION_TIME_LIMIT
}

/// The observations give a calibration that can be stored.
pub open spec fn calibrates(obs: Seq<ClockObservation>) -> bool {
    &&& times_below_limit(obs)
    &&& 0 <= slope_num_of(obs) <= u64::MAX
    &&& 0 <= slope_denom_of(obs) <= u64::MAX
}

pub open spec fn calibration_of(obs: Seq<ClockObservation>) -> ClockCalibrationInfo {
    ClockCalibrationInfo {
        slope_num: slope_num_of(obs) as u64,
        slope_denom: slope_denom_of(obs) as u64,
        observation_mean: ClockObservation {
            master_time: ClockTime(mean_master(obs) as u64),
            slave_time: ClockTime(mean_slave(obs) as u64),
        },
    }
}

/// The least-squares fit of master time against slave time: a rational slope and the
/// mean observation that the line goes through.
#[derive(Clone, Copy, Debug, PartialEq, Eq, Structural)]
pub struct ClockCalibrationInfo {
    pub slope_num: u64,
    pub slope_denom: u64,
    pub observation_mean: ClockObservation,
}

pub open spec fn identity_calibration() -> ClockCalibrationInfo {
    ClockCalibrationInfo {
        slope_num: 1,
        slope_denom: 1,
        observation_mean: ClockObservation { master_time: ClockTime(0), slave_time: ClockTime(0) },
    }
}

proof fn lemma_sums_step(obs: Seq<ClockObservation>, i: int)
    requires
        0 <= i < obs.len(),
    ensures
        obs.take(i + 1).drop_last() == obs.take(i),
        obs.take(i + 1).last() == obs[i],
{
    assert(obs.take(i + 1).drop_last() =~= obs.take(i));
}

impl ClockCalibrationInfo {
    pub fn new(slope_num: u64, slope_denom: u64, observation_mean: ClockObservation) -> (r:
        ClockCalibrationInfo)
        ensures
            r.slope_num == slope_num,
            r.slope_denom == slope_denom,
            r.observation_mean == observation_mean,
    {
        ClockCalibrationInfo { slope_num, slope_denom, observation_mean }
    }

    /// Fits a calibration to the observations, in integer arithmetic on nanoseconds.
    /// `None` where a time is at or above `CALIBRATION_TIME_LIMIT` or a slope term falls
    /// outside `u64`.
    pub fn from_observations(observations: &Vec<ClockObservation>) -> (r: Option<
        ClockCalibrationInfo,
    >)
        requires
            0 < observations@.len() <= MAX_OBSERVATIONS,
        ensures
            r.is_some() <==> calibrates(observations@),
            r.is_some() ==> r.unwrap() == calibration_of(observations@),
    {
        let ghost obs = observations@;
        let n = observations.len();
        let limit = CALIBRATION_TIME_LIMIT as u128;
        let mut sm: u128 = 0;
        let mut ss: u128 = 0;
        let mut sms: u128 = 0;
        let mut sss: u128 = 0;
        let mut i: usize = 0;
        while i < n
            invariant
                n == obs.len(),
                obs == observations@,
                n <= MAX_OBSERVATIONS,
                limit == CALIBRATION_TIME_LIMIT,
                i <= n,
                times_below_limit(obs.take(i as int)),
                sm == sum_master(obs.take(i as int)),
                ss == sum_slave(obs.take(i as int)),
                sms == sum_master_slave(obs.take(i as int)),
                sss == sum_slave_slave(obs.take(i as int)),
                sm <= i * limit,
                ss <= i * limit,
                sms <= i * (limit * limit),
                sss <= i * (limit * limit),
            decreases n - i,
        {
            let o = observations[i];
            let m = o.master_time.0 as u128;
            let s = o.slave_time.0 as u128;
            if m >= limit || s >= limit {
                assert(obs[i as int] == o);
                return None;
            }
            proof {
                lemma_sums_step(obs, i as int);
                assert(m * s <= limit * limit) by (nonlinear_arith)
                    requires
                        m < limit,
                        s < limit,
                ;
                assert(s * s <= limit * limit) by (nonlinear_arith)
                    requires
                        s < limit,
                ;
                assert((i + 1) * (limit * limit) == i * (limit * limit) + limit * limit)
                    by (nonlinear_arith);
                assert((i + 1) * limit == i * limit + limit) by (nonlinear_arith);
                assert((i + 1) * (limit * limit) <= 32 * (limit * limit)) by (nonlinear_arith)
                    requires
                        i + 1 <= 32,
                ;
                assert forall|j: int| 0 <= j < i + 1 implies #[trigger] obs.take(
                    i + 1,
                )[j].master_time.0 < CALIBRATION_TIME_LIMIT && obs.take(
                    i + 1,
                )[j].slave_time.0 < CALIBRATION_TIME_LIMIT by {
                    if j < i {
                        assert(obs.take(i + 1)[j] == obs.take(i as int)[j]);
                    }
                }
            }
            sm = sm + m;
            ss = ss + s;
            sms = sms + m * s;
            sss = sss + s * s;
            i = i + 1;
        }
        assert(obs.take(n as int) =~= obs);
        let nn = n as u128;
        let mm = sm / nn;
        let ms = ss / nn;
        proof {
            vstd::arithmetic::div_mod::lemma_div_is_ordered(sm as int, nn * limit, nn as int);
            vstd::arithmetic::div_mod::lemma_div_is_ordered(ss as int, nn * limit, nn as int);
            vstd::arithmetic::div_mod::lemma_div_multiples_vanish(limit as int, nn as int);
            assert(mm <= limit && ms <= limit);
            vstd::arithmetic::mul::lemma_mul_inequality(nn as int, 32, mm as int);
            vstd::arithmetic::mul::lemma_mul_inequality(mm as int, limit as int, 32);
            vstd::arithmetic::mul::lemma_mul_inequality(ms as int, limit as int, 32);
            assert(nn * mm <= 32 * limit) by (nonlinear_arith)
                requires
                    nn <= 32,
                    mm <= limit,
            ;
            assert(nn * ms <= 32 * limit) by (nonlinear_arith)
                requires
                    nn <= 32,
                    ms <= limit,
            ;
            assert((nn * mm) * ms <= (32 * limit) * limit) by (nonlinear_arith)
                requires
                    nn * mm <= 32 * limit,
                    ms <= limit,
                    nn * mm >= 0,
            ;
            assert((nn * ms) * ms <= (32 * limit) * limit) by (nonlinear_arith)
                requires
                    nn * ms <= 32 * limit,
                    ms <= limit,
                    nn * ms >= 0,
            ;
        }
        let prod_ms = nn * mm * ms;
        let prod_ss = nn * ms * ms;
        if sms < prod_ms || sms - prod_ms > u64::MAX as u128 {
            return None;
        }
        if sss < prod_ss || sss - prod_ss > u64::MAX as u128 {
            return None;
        }
        Some(
            ClockCalibrationInfo {
                slope_num: (sms - prod_ms) as u64,
                slope_denom: (sss - prod_ss) as u64,
                observation_mean: ClockObservation {
                    master_time: ClockTime(mm as u64),
                    slave_time: ClockTime(ms as u64),
                },
            },
        )
    }
}

impl Default for ClockCalibrationInfo {
    /// The identity: slope 1/1 through the origin.
    fn default() -> (r: ClockCalibrationInfo)
        ensures
            r == identity_calibration(),
    {
        ClockCalibrationInfo {
            slope_num: 1,
            slope_denom: 1,
            observation_mean: ClockObservation {
                master_time: ClockTime(0),
                slave_time: ClockTime(0),
            },
        }
    }
}

} // verus!

verus! {

#[verifier::external_type_specification]
#[verifier::external_body]
pub struct ExInstant(Instant);

/// Relies on std's `Instant::now`: the current instant of the monotonic clock.
#[verifier::external_body]
fn instant_now() -> Instant {
    Instant::now()
}

/// Relies on std's `Instant::elapsed`: the time since `start`, in whole nanoseconds, cut to
/// 64 bits.
#[verifier::external_body]
fn nanos_since(start: &Instant) -> u64 {
    start.elapsed().as_nanos() as u64
}

/// The host's monotonic clock, counting from its creation.
pub struct SystemClock(Instant);

impl SystemClock {
    pub fn new() -> (r: SystemClock) {
        SystemClock(instant_now())
    }
}

impl Clock for SystemClock {
    fn info(&self) -> ClockInfo {
        ClockInfo { name: "System Clock".to_owned() }
    }

    fn get_time(&self) -> ClockTime {
        ClockTime(nanos_since(&self.0))
    }
}

/// A clock read from a base clock, calibrated against a master clock from periodic
/// observations of both.
pub struct SlavedClock<B> {
    base: B,
    observations: RingBuffer<ClockObservation, MAX_OBSERVATIONS>,
    calibration_info: ClockCalibrationInfo,
}

/// A calibration that can convert both ways.
pub open spec fn usable_calibration(info: ClockCalibrationInfo) -> bool {
    info.slope_num > 0 && info.slope_denom > 0
}

/// The calibration kept after the observations became `obs`: a fit of them where there
/// are enough, it can be stored and its slope is usable; else the previous one.
pub open spec fn recalibrated(
    obs: Seq<ClockObservation>,
    prev: ClockCalibrationInfo,
) -> ClockCalibrationInfo {
    if obs.len() >= MIN_OBSERVATIONS && calibrates(obs) && usable_calibration(
        calibration_of(obs),
    ) {
        calibration_of(obs)
    } else {
        prev
    }
}

impl<B: Clock> SlavedClock<B> {
    pub closed spec fn wf(&self) -> bool {
        self.observations.wf() && usable_calibration(self.calibration_info)
    }

    /// The observations kept, in storage order.
    pub closed spec fn observations(&self) -> Seq<ClockObservation> {
        self.observations@
    }

    /// The slot that the next observation replaces once the ring is full.
    pub closed spec fn cursor(&self) -> nat {
        self.observations.cursor()
    }

    pub closed spec fn calibration(&self) -> ClockCalibrationInfo {
        self.calibration_info
    }

    pub fn new(base: B) -> (r: SlavedClock<B>)
        ensures
            r.wf(),
            r.observations() == Seq::<ClockObservation>::empty(),
            r.calibration() == identity_calibration(),
    {
        SlavedClock {
            base,
            observations: RingBuffer::new(),
            calibration_info: ClockCalibrationInfo::default(),
        }
    }

    /// Adds an observation, dropping the oldest where `MAX_OBSERVATIONS` are kept, and
    /// recalibrates from all that are kept.
    pub fn observe(&mut self, observation: ClockObservation)
        requires
            old(self).wf(),
        ensures
            final(self).wf(),
            final(self).observations() == ring_written(
                old(self).observations(),
                MAX_OBSERVATIONS as nat,
                old(self).cursor(),
                observation,
            ),
            final(self).calibration() == recalibrated(
                final(self).observations(),
                old(self).calibration(),
            ),
    {
        self.observations.write(observation);
        if self.observations.len() >= MIN_OBSERVATIONS {
            let info = ClockCalibrationInfo::from_observations(self.observations.as_vec());
            if let Some(info) = info {
                if info.slope_num > 0 && info.slope_denom > 0 {
                    self.calibration_info = info;
                }
            }
        }
    }

    /// Reads the base clock and records it against `master_time` (against itself where
    /// there is no master).
    pub fn record_observation(&mut self, master_time: Option<ClockTime>)
        requires
            old(self).wf(),
        ensures
            final(self).wf(),
            exists|o: ClockObservation|
                {
                    &&& o.master_time == match master_time {
                        Some(m) => m,
                        None => o.slave_time,
                    }
                    &&& final(self).observations() == ring_written(
                        old(self).observations(),
                        MAX_OBSERVATIONS as nat,
                        old(self).cursor(),
                        o,
                    )
                    &&& final(self).calibration() == recalibrated(
                        final(self).observations(),
                        old(self).calibration(),
                    )
                },
    {
        let slave_time = self.base.get_time();
        let master = match master_time {
            Some(m) => m,
            None => slave_time,
        };
        let o = ClockObservation::new(master, slave_time);
        self.observe(o);
    }

    pub fn get_calibration_info(&self) -> (r: ClockCalibrationInfo)
        ensures
            r == self.calibration(),
    {
        self.calibration_info
    }

    pub fn calibrate(&mut self, info: ClockCalibrationInfo)
        requires
            old(self).wf(),
            usable_calibration(info),
        ensures
            final(self).wf(),
            final(self).calibration() == info,
            final(self).observations() == old(self).observations(),
            final(self).cursor() == old(self).cursor(),
    {
        self.calibration_info = info;
    }

    /// Records an observation as `record_observation` does, then reads the base clock and
    /// converts the reading to the master clock with the calibration now kept (`None` where
    /// it does not fit).
    pub fn get_slaved_time(&mut self, master_time: Option<ClockTime>) -> (r: Option<ClockTime>)
        requires
            old(self).wf(),
        ensures
            final(self).wf(),
            exists|o: ClockObservation|
                {
                    &&& o.master_time == match master_time {
                        Some(m) => m,
                        None => o.slave_time,
                    }
                    &&& final(self).observations() == ring_written(
                        old(self).observations(),
                        MAX_OBSERVATIONS as nat,
                        old(self).cursor(),
                        o,
                    )
                    &&& final(self).calibration() == recalibrated(
                        final(self).observations(),
                        old(self).calibration(),
                    )
                },
            exists|base_time: ClockTime|
                {
                    &&& r.is_some() <==> fits_time(
                        master_time_of(base_time.nanos(), final(self).calibration()),
                    )
                    &&& r.is_some() ==> r.unwrap().nanos() == master_time_of(
                        base_time.nanos(),
                        final(self).calibration(),
                    )
                },
    {
        self.record_observation(master_time);
        let t = self.base.get_time();
        t.to_master_time(self.calibration_info)
    }
}

impl<B: Clock> Clock for SlavedClock<B> {
    fn info(&self) -> ClockInfo {
        let base = self.base.info();
        let mut name = "Slaved ".to_owned();
        name.append(base.name.as_str());
        ClockInfo { name }
    }

    fn get_time(&self) -> ClockTime {
        self.base.get_time()
    }
}

/// The first point after `now` on the grid `deadline + k · interval`.
pub open spec fn next_deadline(deadline: int, interval: int, now: int) -> int {
    deadline + interval * ((now - deadline) / interval + 1)
}

/// `next_deadline`, held to what a `u64` holds.
pub open spec fn capped_next_deadline(deadline: int, interval: int, now: int) -> int {
    min_int(next_deadline(deadline, interval, now), u64::MAX as int)
}

/// A check at `now` of a timer due at `deadline` fires exactly when the deadline is
/// reached, and then moves the deadline to the first point of its grid after `now`.
pub open spec fn timer_check(
    deadline: int,
    interval: int,
    now: int,
    fired: bool,
    new_deadline: int,
) -> bool {
    &&& fired == (now >= deadline)
    &&& fired ==> new_deadline == capped_next_deadline(deadline, interval, now)
    &&& !fired ==> new_deadline == deadline
}

/// The first point after `now` on the grid that starts at `deadline`, capped at `u64::MAX`.
fn advance(deadline: u64, interval: u64, now: u64) -> (r: u64)
    requires
        interval > 0,
        now >= deadline,
    ensures
        r == capped_next_deadline(deadline as int, interval as int, now as int),
{
    let d = now - deadline;
    let k = d / interval;
    proof {
        vstd::arithmetic::div_mod::lemma_fundamental_div_mod(d as int, interval as int);
        assert(interval * k <= d) by (nonlinear_arith)
            requires
                d == interval * k + d % interval,
                d % interval >= 0,
        ;
        assert(interval * (k + 1) == interval * k + interval) by (nonlinear_arith);
    }
    let step = (interval as u128) * (k as u128) + interval as u128;
    let next = deadline as u128 + step;
    if next > u64::MAX as u128 {
        u64::MAX
    } else {
        next as u64
    }
}

/// Fires once per interval, measured on the host's monotonic clock: first one interval
/// after it was made, then at each later point of that grid that a check reaches.
pub struct Timer {
    start: Instant,
    next: u64,
    interval: ClockTime,
}

impl Timer {
    pub closed spec fn wf(&self) -> bool {
        self.interval.0 > 0
    }

    /// The next deadline, in nanoseconds since the timer started.
    pub closed spec fn deadline(&self) -> int {
        self.next as int
    }

    pub closed spec fn spec_interval(&self) -> ClockTime {
        self.interval
    }

    pub fn new(interval: ClockTime) -> (r: Timer)
        requires
            interval.0 > 0,
        ensures
            r.wf(),
            r.spec_interval() == interval,
            r.deadline() == interval.nanos(),
    {
        Timer { start: instant_now(), next: interval.0, interval }
    }

    pub fn interval(&self) -> (r: ClockTime)
        ensures
            r == self.spec_interval(),
    {
        self.interval
    }

    pub fn set_interval(&mut self, interval: ClockTime)
        requires
            interval.0 > 0,
        ensures
            final(self).wf(),
            final(self).spec_interval() == interval,
            final(self).deadline() == old(self).deadline(),
    {
        self.interval = interval;
    }

    /// Skips the current period at `now` (nanoseconds since the start): the deadline moves
    /// to the first point of its grid after `now`, or after the deadline where that is later.
    pub fn reset_at(&mut self, now: u64)
        requires
            old(self).wf(),
        ensures
            final(self).wf(),
            final(self).spec_interval() == old(self).spec_interval(),
            final(self).deadline() == capped_next_deadline(
                old(self).deadline(),
                old(self).spec_interval().nanos(),
                max_int(now as int, old(self).deadline()),
            ),
    {
        let at = if now > self.next {
            now
        } else {
            self.next
        };
        self.next = advance(self.next, self.interval.0, at);
    }

    /// `reset_at` at the time the monotonic clock gives.
    pub fn reset(&mut self)
        requires
            old(self).wf(),
        ensures
            final(self).wf(),
            final(self).spec_interval() == old(self).spec_interval(),
            exists|now: u64|
                final(self).deadline() == #[trigger] capped_next_deadline(
                    old(self).deadline(),
                    old(self).spec_interval().nanos(),
                    max_int(now as int, old(self).deadline()),
                ),
    {
        let now = nanos_since(&self.start);
        self.reset_at(now);
    }

    /// Whether the deadline is reached at `now` (nanoseconds since the start); if so the
    /// deadline moves to the first point of its grid after `now`.
    pub fn time_out_at(&mut self, now: u64) -> (r: bool)
        requires
            old(self).wf(),
        ensures
            final(self).wf(),
            final(self).spec_interval() == old(self).spec_interval(),
            timer_check(
                old(self).deadline(),
                old(self).spec_interval().nanos(),
                now as int,
                r,
                final(self).deadline(),
            ),
    {
        if now >= self.next {
            self.next = advance(self.next, self.interval.0, now);
            true
        } else {
            false
        }
    }

    /// `time_out_at` at the time the monotonic clock gives.
    pub fn is_time_out(&mut self) -> (r: bool)
        requires
            old(self).wf(),
        ensures
            final(self).wf(),
            final(self).spec_interval() == old(self).spec_interval(),
            exists|now: u64|
                #[trigger] timer_check(
                    old(self).deadline(),
                    old(self).spec_interval().nanos(),
                    now as int,
                    r,
                    final(self).deadline(),
                ),
    {
        let now = nanos_since(&self.start);
        let r = self.time_out_at(now);
        assert(timer_check(
            old(self).deadline(),
            old(self).spec_interval().nanos(),
            now as int,
            r,
            self.deadline(),
        ));
        r
    }
}

impl Clock for Timer {
    fn info(&self) -> ClockInfo {
        ClockInfo { name: "Timer".to_owned() }
    }

    /// The time into the current interval.
    fn get_time(&self) -> ClockTime {
        let now = nanos_since(&self.start);
        if self.interval.0 == 0 {
            ClockTime(now)
        } else {
            ClockTime(now % self.interval.0)
        }
    }
}

} // verus!
