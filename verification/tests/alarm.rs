use alarm_sync::alarm::{Alarm, AlarmStatus};

#[test]
fn new_alarm_is_idle_with_zero_times() {
    let alarm = Alarm::new();
    assert_eq!(alarm.status, AlarmStatus::Idle);
    assert_eq!(alarm.start_time, 0);
    assert_eq!(alarm.duration, 0);
}

#[test]
fn start_from_idle_sets_all_fields() {
    let mut alarm = Alarm::new();
    alarm.start(123_456, 30_000);
    assert_eq!(alarm.status, AlarmStatus::Running);
    assert_eq!(alarm.start_time, 123_456);
    assert_eq!(alarm.duration, 30_000);
}

#[test]
fn start_overrides_a_running_alarm() {
    let mut alarm = Alarm::new();
    alarm.start(1, 2);
    alarm.start(7, 9);
    assert_eq!(alarm, Alarm { start_time: 7, duration: 9, status: AlarmStatus::Running });
}

#[test]
fn start_resumes_a_paused_alarm_with_new_times() {
    let mut alarm = Alarm::new();
    alarm.start(1, 2);
    alarm.pause();
    alarm.start(50, 60);
    assert_eq!(alarm, Alarm { start_time: 50, duration: 60, status: AlarmStatus::Running });
}

#[test]
fn stop_from_every_state_gives_idle() {
    let mut idle = Alarm::new();
    idle.stop();
    assert_eq!(idle.status, AlarmStatus::Idle);

    let mut running = Alarm::new();
    running.start(10, 20);
    running.stop();
    assert_eq!(running.status, AlarmStatus::Idle);

    let mut paused = Alarm::new();
    paused.start(10, 20);
    paused.pause();
    paused.stop();
    assert_eq!(paused.status, AlarmStatus::Idle);
}

#[test]
fn stop_keeps_the_recorded_times() {
    let mut alarm = Alarm::new();
    alarm.start(10, 20);
    alarm.stop();
    assert_eq!(alarm, Alarm { start_time: 10, duration: 20, status: AlarmStatus::Idle });
}

#[test]
fn stop_twice_is_stop_once() {
    let mut once = Alarm::new();
    once.start(10, 20);
    once.stop();
    let mut twice = Alarm::new();
    twice.start(10, 20);
    twice.stop();
    twice.stop();
    assert_eq!(once, twice);
}

#[test]
fn pause_from_running_gives_paused() {
    let mut alarm = Alarm::new();
    alarm.start(10, 20);
    alarm.pause();
    assert_eq!(alarm, Alarm { start_time: 10, duration: 20, status: AlarmStatus::Paused });
}

#[test]
fn pause_from_idle_changes_nothing() {
    let mut alarm = Alarm::new();
    alarm.pause();
    assert_eq!(alarm, Alarm::new());
}

#[test]
fn pause_from_paused_changes_nothing() {
    let mut alarm = Alarm::new();
    alarm.start(10, 20);
    alarm.pause();
    let before = alarm;
    alarm.pause();
    assert_eq!(alarm, before);
}

#[test]
fn idle_and_paused_alarms_never_expire() {
    let idle = Alarm::new();
    assert!(!idle.is_expired(0));
    assert!(!idle.is_expired(u32::MAX));

    let mut paused = Alarm::new();
    paused.start(0, 1);
    paused.pause();
    assert!(!paused.is_expired(1_000_000));

    let mut stopped = Alarm::new();
    stopped.start(0, 1);
    stopped.stop();
    assert!(!stopped.is_expired(1_000_000));
}

#[test]
fn running_alarm_expires_when_duration_has_passed() {
    let mut alarm = Alarm::new();
    alarm.start(100, 50);
    assert!(!alarm.is_expired(100));
    assert!(!alarm.is_expired(149));
    assert!(alarm.is_expired(150));
    assert!(alarm.is_expired(151));
    assert!(alarm.is_expired(u32::MAX));
}

#[test]
fn zero_duration_expires_at_once() {
    let mut alarm = Alarm::new();
    alarm.start(77, 0);
    assert!(alarm.is_expired(77));
}

#[test]
fn expiry_counts_ticks_across_the_wrap_of_the_clock() {
    let mut alarm = Alarm::new();
    alarm.start(u32::MAX - 9, 20);
    assert!(!alarm.is_expired(u32::MAX));
    assert!(!alarm.is_expired(0));
    assert!(!alarm.is_expired(9));
    assert!(alarm.is_expired(10));
    assert!(alarm.is_expired(11));
}

#[test]
fn a_clock_value_before_the_start_counts_as_wrapped() {
    let mut alarm = Alarm::new();
    alarm.start(10, 5);
    // 5 - 10 on the wrapping clock is 2^32 - 5 ticks.
    assert!(alarm.is_expired(5));
    assert!(!alarm.is_expired(10));
}

#[test]
fn expiry_is_monotonic_from_the_start_on() {
    let mut alarm = Alarm::new();
    alarm.start(1_000, 300);
    let mut seen_expired = false;
    let mut now = 1_000u32;
    while now < 2_000 {
        let expired = alarm.is_expired(now);
        assert!(expired || !seen_expired);
        seen_expired = expired;
        now += 1;
    }
    assert!(seen_expired);
}

#[test]
fn is_expired_does_not_change_the_alarm() {
    let mut alarm = Alarm::new();
    alarm.start(5, 6);
    let before = alarm;
    let _ = alarm.is_expired(100);
    assert_eq!(alarm, before);
}
