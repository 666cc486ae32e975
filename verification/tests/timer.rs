use ai_mentor::timer::{format_clock, PracticeTimer};

const S: i64 = 1000;

#[test]
fn time_accumulates_across_a_pause_and_resume() {
    let mut t = PracticeTimer::started(1, 100 * S);
    assert_eq!(t.elapsed(130 * S), 30 * S);

    t.pause(130 * S);
    assert!(!t.is_running());
    // Paused time does not count, however long the app sits there.
    assert_eq!(t.elapsed(400 * S), 30 * S);

    t.resume(400 * S);
    assert_eq!(t.elapsed(430 * S), 60 * S);
}

#[test]
fn pause_and_resume_are_both_idempotent() {
    let mut t = PracticeTimer::started(1, 0);
    t.pause(60 * S);
    t.pause(120 * S);
    assert_eq!(t.elapsed(180 * S), 60 * S, "a second pause banks nothing extra");

    t.resume(180 * S);
    t.resume(240 * S);
    assert_eq!(t.elapsed(240 * S), 120 * S, "a second resume does not restart");
}

#[test]
fn a_backwards_clock_never_loses_practised_time() {
    let mut t = PracticeTimer::started(1, 500 * S);
    assert_eq!(t.elapsed(400 * S), 0);

    t.pause(400 * S);
    assert_eq!(t.elapsed(400 * S), 0);
}

#[test]
fn minutes_round_to_the_nearest_minute() {
    let t = PracticeTimer::started(1, 0);
    assert_eq!(t.minutes(29 * S), 0, "under half a minute logs nothing");
    assert_eq!(t.minutes(31 * S), 1);
    assert_eq!(t.minutes(90 * S), 2);
    assert_eq!(t.minutes(3600 * S), 60);
}

#[test]
fn clock_is_zero_padded_minutes_and_seconds() {
    assert_eq!(format_clock(0), "00:00");
    assert_eq!(format_clock(9), "00:09");
    assert_eq!(format_clock(605), "10:05");
    assert_eq!(format_clock(-5), "00:00");
}

#[test]
fn the_session_keeps_the_day_it_was_started_on() {
    let t = PracticeTimer::started(42, 0);
    assert_eq!(t.day_id, 42);
    assert!(t.is_running());
    assert_eq!(format_clock(3 * 3600 + 5), "180:05");
}

#[test]
fn an_elapsed_time_too_large_to_hold_is_reported_not_wrapped() {
    let t = PracticeTimer::started(1, i64::MIN);
    assert_eq!(t.elapsed_checked(i64::MAX), None);
    assert_eq!(t.minutes_checked(i64::MAX), None);
    let t = PracticeTimer::started(1, 0);
    assert_eq!(t.elapsed_checked(90 * S), Some(90 * S));
    assert_eq!(t.minutes_checked(90 * S), Some(2));
}
