use packet_router::timer::{SimTimerState, TimerTick};

#[test]
fn timer_tells_every_step_once_and_then_completes() {
    let mut timer = SimTimerState::new();
    assert_eq!(timer.tick(), TimerTick::Stopped);
    assert!(timer.start(3));
    assert!(!timer.start(10));
    assert_eq!(timer.total_steps, 3);
    assert_eq!(timer.tick(), TimerTick::Step(0));
    assert_eq!(timer.tick(), TimerTick::Step(1));
    assert_eq!(timer.tick(), TimerTick::Step(2));
    assert_eq!(timer.tick(), TimerTick::Complete);
    assert!(!timer.running);
    assert_eq!(timer.tick(), TimerTick::Stopped);
    assert_eq!(timer.current_step, 3);
}

#[test]
fn stopped_timer_goes_on_where_it_stood_and_reset_timer_starts_over() {
    let mut timer = SimTimerState::new();
    timer.start(5);
    assert_eq!(timer.tick(), TimerTick::Step(0));
    assert_eq!(timer.tick(), TimerTick::Step(1));
    timer.stop();
    assert_eq!(timer.tick(), TimerTick::Stopped);
    assert!(timer.start(5));
    assert_eq!(timer.tick(), TimerTick::Step(2));
    timer.reset();
    assert_eq!(timer, SimTimerState { current_step: 0, running: false, total_steps: 5 });
    assert!(timer.start(1));
    assert_eq!(timer.tick(), TimerTick::Step(0));
    assert_eq!(timer.tick(), TimerTick::Complete);
    let mut empty = SimTimerState::new();
    empty.start(0);
    assert_eq!(empty.tick(), TimerTick::Complete);
}
