use std::sync::atomic::{AtomicU64, Ordering};

use ffone::clock::{
    Clock, ClockCalibrationInfo, ClockInfo, ClockObservation, ClockTime, SlavedClock,
    SystemClock, Timer,
};

struct FakeClock(AtomicU64);

impl FakeClock {
    fn new() -> Self {
        FakeClock(AtomicU64::new(0))
    }
}

impl Clock for FakeClock {
    fn info(&self) -> ClockInfo {
        ClockInfo {
            name: String::from("Fake Clock"),
        }
    }

    fn get_time(&self) -> ClockTime {
        ClockTime::from_nanos(self.0.fetch_add(1, Ordering::SeqCst))
    }
}

struct StepClock(AtomicU64, u64);

impl Clock for StepClock {
    fn info(&self) -> ClockInfo {
        ClockInfo {
            name: String::from("Step Clock"),
        }
    }

    fn get_time(&self) -> ClockTime {
        ClockTime::from_nanos(self.0.fetch_add(self.1, Ordering::SeqCst))
    }
}

#[test]
fn test_clock() {
    let sys_clock = SystemClock::new();
    let mut fake_clock = SlavedClock::new(FakeClock::new());

    fake_clock.record_observation(Some(sys_clock.get_time()));

    for _ in 0..500 {
        fake_clock.record_observation(Some(sys_clock.get_time()));

        let master = sys_clock.get_time();
        let slave = fake_clock.get_time();
        let info = fake_clock.get_calibration_info();
        let slave_to_master = slave.to_master_time(info);
        let master_to_slave = master.to_slave_time(info);

        println!("Master: {master:?}");
        println!("Slave: {slave:?}");
        println!("Slave to Master: {slave_to_master:?}");
        println!("Master to Slave: {master_to_slave:?}\n");
    }
}

#[test]
fn saturating_sub_law_on_values() {
    let a = ClockTime::from_nanos(700);
    let b = ClockTime::from_nanos(300);
    assert_eq!(a.saturating_sub(b).as_nanos() + 300, 700);
    assert_eq!(b.saturating_sub(a), ClockTime::from_nanos(0));
}

#[test]
fn unit_conversions() {
    assert_eq!(ClockTime::from_micros(3).as_nanos(), 3_000);
    assert_eq!(ClockTime::from_millis(3).as_nanos(), 3_000_000);
    assert_eq!(ClockTime::from_secs(3).as_nanos(), 3_000_000_000);
    let t = ClockTime::from_nanos(3_456_789_012);
    assert_eq!(t.as_micros(), 3_456_789);
    assert_eq!(t.as_millis(), 3_456);
    assert_eq!(t.as_secs(), 3);
}

#[test]
fn master_slave_round_trip() {
    let mean = ClockObservation::new(ClockTime::from_nanos(1_000), ClockTime::from_nanos(400));
    let info = ClockCalibrationInfo::new(2, 1, mean);
    let t = ClockTime::from_nanos(450);
    let m = t.to_master_time(info).unwrap();
    assert_eq!(m.as_nanos(), 1_100);
    assert_eq!(m.to_slave_time(info), Some(t));
    // Before the mean on the slave side: (100 - 400) * 2 + 1000 = 400.
    assert_eq!(ClockTime::from_nanos(100).to_master_time(info), Some(ClockTime::from_nanos(400)));
    // Below zero on the master side.
    assert_eq!(ClockTime::from_nanos(0).to_master_time(ClockCalibrationInfo::new(3, 1, mean)), None);
}

#[test]
fn calibration_from_observations() {
    let obs: Vec<ClockObservation> = (0..4u64)
        .map(|i| ClockObservation::new(ClockTime::from_nanos(10 + 2 * i), ClockTime::from_nanos(i)))
        .collect();
    // masters 10,12,14,16 (mean 13); slaves 0..3 (sum 6, mean 1).
    // num = (0 + 12 + 28 + 48) - 4 * 13 * 1 = 36; denom = 14 - 4 * 1 * 1 = 10.
    let info = ClockCalibrationInfo::from_observations(&obs).unwrap();
    assert_eq!(info.slope_num, 36);
    assert_eq!(info.slope_denom, 10);
    assert_eq!(info.observation_mean.master_time, ClockTime::from_nanos(13));
    assert_eq!(info.observation_mean.slave_time, ClockTime::from_nanos(1));
    assert_eq!(ClockCalibrationInfo::default(), ClockCalibrationInfo::new(1, 1, ClockObservation::new(ClockTime::from_nanos(0), ClockTime::from_nanos(0))));
}

#[test]
fn slaved_clock_calibrates_after_enough_observations() {
    let mut clock = SlavedClock::new(StepClock(AtomicU64::new(0), 10));
    for i in 0..3u64 {
        clock.record_observation(Some(ClockTime::from_nanos(100 + 20 * i)));
        assert_eq!(clock.get_calibration_info(), ClockCalibrationInfo::default());
    }
    clock.record_observation(Some(ClockTime::from_nanos(160)));
    let info = clock.get_calibration_info();
    // slaves 0,10,20,30; masters 100,120,140,160: slope 2.
    assert_eq!(info.slope_num * 1, info.slope_denom * 2);
    assert_eq!(info.observation_mean.master_time, ClockTime::from_nanos(130));
    assert_eq!(info.observation_mean.slave_time, ClockTime::from_nanos(15));
    assert_eq!(clock.info().name, "Slaved Step Clock");
}

#[test]
fn timer_fires_once_per_interval() {
    let mut timer = Timer::new(ClockTime::from_nanos(100));
    assert!(!timer.time_out_at(50));
    assert!(timer.time_out_at(100));
    assert!(!timer.time_out_at(150));
    assert!(timer.time_out_at(250));
    assert!(!timer.time_out_at(299));
    // A late check skips the missed periods: the next deadline is 700, not 400.
    assert!(timer.time_out_at(650));
    assert!(!timer.time_out_at(699));
    assert!(timer.time_out_at(700));
    assert_eq!(timer.interval(), ClockTime::from_nanos(100));
    // Resetting at 720 skips the period that ends at 800.
    timer.reset_at(720);
    assert!(!timer.time_out_at(850));
    assert!(timer.time_out_at(900));
}
