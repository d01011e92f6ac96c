use packet_router::share::{
    uses_precision_path, ShareClock, TimerResolution, WaitPlan, PRECISION_INTERVAL_MS,
    SHARE_CHANNEL_CAPACITY, SPIN_MARGIN_US, STOP_TIMEOUT_MS,
};

#[test]
fn constants_of_the_share_engine() {
    assert_eq!(PRECISION_INTERVAL_MS, 10);
    assert_eq!(SPIN_MARGIN_US, 1500);
    assert_eq!(SHARE_CHANNEL_CAPACITY, 100);
    assert_eq!(STOP_TIMEOUT_MS, 3000);
}

#[test]
fn precision_path_is_for_intervals_up_to_ten_milliseconds() {
    assert!(uses_precision_path(0));
    assert!(uses_precision_path(5));
    assert!(uses_precision_path(10));
    assert!(!uses_precision_path(11));
    assert!(!uses_precision_path(20));
}

#[test]
fn first_frame_is_due_one_interval_from_the_start() {
    let clock = ShareClock::new(1_000_000, 20);
    assert_eq!(
        clock,
        ShareClock { interval_us: 20_000, next_wake_us: 1_020_000, precision: false }
    );
    let clock = ShareClock::new(1_000_000, 5);
    assert_eq!(
        clock,
        ShareClock { interval_us: 5_000, next_wake_us: 1_005_000, precision: true }
    );
    let clock = ShareClock::new(7, u64::MAX);
    assert_eq!(clock.interval_us, u64::MAX);
    assert_eq!(clock.next_wake_us, u64::MAX);
}

#[test]
fn plain_share_sleeps_until_the_frame_is_due() {
    let clock = ShareClock::new(0, 20);
    assert_eq!(clock.plan_wait(0), WaitPlan { sleep_us: 20_000, spin_until_us: None });
    assert_eq!(clock.plan_wait(19_999), WaitPlan { sleep_us: 1, spin_until_us: None });
    assert_eq!(clock.plan_wait(20_000), WaitPlan { sleep_us: 0, spin_until_us: None });
    assert_eq!(clock.plan_wait(50_000), WaitPlan { sleep_us: 0, spin_until_us: None });
}

#[test]
fn precision_share_sleeps_short_and_spins() {
    let clock = ShareClock::new(0, 5);
    assert_eq!(clock.plan_wait(0), WaitPlan { sleep_us: 3_500, spin_until_us: Some(5_000) });
    assert_eq!(clock.plan_wait(3_499), WaitPlan { sleep_us: 1, spin_until_us: Some(5_000) });
    assert_eq!(clock.plan_wait(3_500), WaitPlan { sleep_us: 0, spin_until_us: Some(5_000) });
    assert_eq!(clock.plan_wait(4_999), WaitPlan { sleep_us: 0, spin_until_us: Some(5_000) });
    assert_eq!(clock.plan_wait(5_000), WaitPlan { sleep_us: 0, spin_until_us: None });
}

#[test]
fn steady_share_does_not_drift() {
    let mut clock = ShareClock::new(1_000, 20);
    for cycle in 1..=10_000u64 {
        // the send ends a little after the frame was due
        let now = clock.next_wake_us + 300;
        clock.advance(now);
        assert_eq!(clock.next_wake_us, 1_000 + (cycle + 1) * 20_000);
    }
}

#[test]
fn late_share_keeps_its_times_until_it_is_two_intervals_behind() {
    let mut clock = ShareClock::new(0, 10);
    clock.advance(40_000);
    assert_eq!(clock.next_wake_us, 20_000);
    clock.advance(40_001);
    assert_eq!(clock.next_wake_us, 30_000);
    clock.advance(50_001);
    assert_eq!(clock.next_wake_us, 40_000);
    clock.advance(60_001);
    assert_eq!(clock.next_wake_us, 50_000);
    clock.advance(80_001);
    assert_eq!(clock.next_wake_us, 90_001);
}

#[test]
fn times_stop_at_the_largest() {
    let mut clock = ShareClock { interval_us: 10, next_wake_us: u64::MAX - 5, precision: true };
    clock.advance(0);
    assert_eq!(clock.next_wake_us, u64::MAX);
    let mut clock = ShareClock { interval_us: u64::MAX, next_wake_us: 5, precision: false };
    clock.advance(u64::MAX);
    assert_eq!(clock.next_wake_us, u64::MAX);
}

#[test]
fn timer_resolution_is_raised_for_the_first_and_restored_after_the_last() {
    let mut timer = TimerResolution::new();
    assert!(!timer.disable());
    assert_eq!(timer.users, 0);
    assert!(timer.enable());
    assert!(!timer.enable());
    assert!(!timer.enable());
    assert_eq!(timer.users, 3);
    assert!(!timer.disable());
    assert!(!timer.disable());
    assert!(timer.disable());
    assert_eq!(timer.users, 0);
    assert!(!timer.disable());
    assert!(timer.enable());
}
