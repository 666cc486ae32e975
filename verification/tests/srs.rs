use ai_mentor::models::InterviewQuestion;
use ai_mentor::srs::interview_cards;
use chrono::Datelike;
use ai_mentor::srs::{due_date, schedule_step};

/// A card's schedule as the window keeps it: the easiness factor is a float
/// and is updated beside the whole-number step.
struct Card {
    easiness: f64,
    interval_days: i64,
    repetitions: i64,
    due_date: String,
}

fn card() -> Card {
    Card { easiness: 2.5, interval_days: 0, repetitions: 0, due_date: "2026-01-01".into() }
}

fn schedule(card: &mut Card, grade: i64, today: i32) {
    let scaled = ((card.interval_days as f64) * card.easiness).round() as i64;
    let step = schedule_step(card.repetitions, card.interval_days, grade, scaled);
    card.interval_days = step.interval_days;
    card.repetitions = step.repetitions;
    let g = step.grade as f64;
    card.easiness = (card.easiness + (0.1 - (5.0 - g) * (0.08 + (5.0 - g) * 0.02))).max(1.3);
    card.due_date = due_date(today, step.interval_days).expect("in range");
}

fn parse_day(text: &str) -> Option<i32> {
    text.parse::<chrono::NaiveDate>().ok().map(|d| d.num_days_from_ce())
}

fn jan_first() -> i32 {
    parse_day("2026-01-01").expect("a date")
}

#[test]
fn first_three_good_reviews_follow_one_six_then_ef() {
    let day = jan_first();
    let mut c = card();

    schedule(&mut c, 5, day);
    assert_eq!(c.interval_days, 1);
    assert_eq!(c.repetitions, 1);

    schedule(&mut c, 5, day);
    assert_eq!(c.interval_days, 6);
    assert_eq!(c.repetitions, 2);

    // The third interval uses the easiness factor as it stood before this
    // review, matching the SM-2 ordering.
    let ef_before = c.easiness;
    schedule(&mut c, 5, day);
    assert_eq!(c.interval_days, (6.0 * ef_before).round() as i64);
}

#[test]
fn a_lapse_resets_repetitions_and_interval() {
    let day = jan_first();
    let mut c = card();
    schedule(&mut c, 5, day);
    schedule(&mut c, 5, day);
    schedule(&mut c, 1, day);
    assert_eq!(c.repetitions, 0);
    assert_eq!(c.interval_days, 1);
    assert_eq!(c.due_date, "2026-01-02");
}

#[test]
fn grades_are_clamped_and_intervals_never_drop_below_a_day() {
    let s = schedule_step(3, 10, 9, 0);
    assert_eq!(s.grade, 5);
    assert_eq!(s.repetitions, 4);
    assert_eq!(s.interval_days, 1, "a scaled interval of zero is held at a day");
    let s = schedule_step(3, 10, -2, 25);
    assert_eq!(s.grade, 0);
    assert_eq!(s.repetitions, 0);
    assert_eq!(s.interval_days, 1);
    let s = schedule_step(2, 6, 4, 15);
    assert_eq!(s.interval_days, 15);
}

#[test]
fn due_dates_cross_month_and_year_ends() {
    let day = parse_day("2025-12-31").expect("a date");
    assert_eq!(due_date(day, 1).as_deref(), Some("2026-01-01"));
    assert_eq!(due_date(day, 60).as_deref(), Some("2026-03-01"));
    assert_eq!(due_date(i32::MAX, 1), None, "past the end of the calendar");
}

#[test]
fn interview_questions_become_cards_with_their_key_points() {
    let qs = vec![
        InterviewQuestion { q: "What is a trait?".into(), key_points: vec!["shared behaviour".into(), "like an interface".into()] },
        InterviewQuestion { q: "   ".into(), key_points: vec!["skipped".into()] },
        InterviewQuestion { q: "Why borrow?".into(), key_points: vec![] },
    ];
    let cards = interview_cards(&qs);
    assert_eq!(cards.len(), 2, "a question with no text makes no card");
    assert_eq!(cards[0].0, "What is a trait?");
    assert_eq!(cards[0].1, "- shared behaviour\n- like an interface");
    assert_eq!(cards[1].1, "(no key points supplied)");
}
