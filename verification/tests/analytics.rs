use ai_mentor::analytics::{minutes_by_day_checked, streaks_checked};
use ai_mentor::analytics::{month_label, heatmap, is_week_start, minutes_by_day, streaks, weekday_label, weekly_minutes};
use chrono::Datelike;

fn day(text: &str) -> i32 {
    text.parse::<chrono::NaiveDate>().expect("a date").num_days_from_ce()
}

fn rows(list: &[(&str, i64)]) -> Vec<(String, i64)> {
    list.iter().map(|(d, m)| (d.to_string(), *m)).collect()
}

#[test]
fn minutes_are_summed_per_day_in_day_order_and_bad_dates_are_skipped() {
    let v = minutes_by_day(&rows(&[
        ("2026-03-02", 30),
        ("2026-03-01", 20),
        ("not a date", 99),
        ("2026-03-02", 15),
    ]));
    assert_eq!(v, vec![(day("2026-03-01"), 20), (day("2026-03-02"), 45)]);
}

#[test]
fn streaks_count_runs_of_active_days() {
    let v = minutes_by_day(&rows(&[
        ("2026-03-01", 10),
        ("2026-03-02", 10),
        ("2026-03-03", 10),
        ("2026-03-05", 10),
        ("2026-03-06", 0),
        ("2026-03-07", 25),
        ("2026-03-08", 5),
    ]));
    let s = streaks(&v, day("2026-03-08"));
    assert_eq!(s.longest_streak, 3);
    assert_eq!(s.current_streak, 2, "today and yesterday");
    assert_eq!(s.total_minutes, 70);

    let s = streaks(&v, day("2026-03-09"));
    assert_eq!(s.current_streak, 2, "an idle today still counts back from yesterday");

    let s = streaks(&v, day("2026-03-10"));
    assert_eq!(s.current_streak, 0);
}

#[test]
fn the_heatmap_is_whole_weeks_ending_today() {
    let today = day("2026-03-04"); // a Wednesday
    let v = minutes_by_day(&rows(&[("2026-03-02", 40), ("2026-02-20", 90), ("2026-03-05", 500)]));
    let h = heatmap(&v, today, 1).expect("in range");
    assert_eq!(h.weeks.len(), 4, "at least four weeks are shown");
    assert!(h.weeks.iter().all(|w| w.len() == 7));
    let last = &h.weeks[3];
    assert_eq!(last[0].map(|c| c.date), Some(day("2026-03-01")), "columns start on Sunday");
    assert_eq!(last[1].map(|c| c.minutes), Some(40));
    assert!(last[4].is_none(), "days after today are empty");
    assert_eq!(h.max_minutes, 90, "the future does not count toward the peak");
    assert_eq!(heatmap(&v, today, 100).expect("in range").weeks.len(), 53);
}

#[test]
fn the_weekly_trend_runs_monday_to_sunday_oldest_first() {
    let today = day("2026-03-04");
    let v = minutes_by_day(&rows(&[("2026-03-02", 40), ("2026-03-01", 15), ("2026-02-23", 5)]));
    let t = weekly_minutes(&v, today, 4).expect("in range");
    assert_eq!(t.len(), 4);
    assert_eq!(t[3], ("02 Mar".to_string(), 40));
    assert_eq!(t[2], ("23 Feb".to_string(), 20));
    assert_eq!(t[0].1, 0);
}

#[test]
fn weekday_labels_start_on_sunday() {
    assert_eq!(weekday_label(0), "Sun");
    assert_eq!(weekday_label(3), "Wed");
    assert_eq!(weekday_label(6), "Sat");
    assert_eq!(weekday_label(60), "Sat");
}

#[test]
fn sundays_start_a_week() {
    assert!(is_week_start(day("2026-03-01")));
    assert!(!is_week_start(day("2026-03-02")));
    assert!(!is_week_start(day("2026-03-04")));
    assert!(is_week_start(day("2024-03-03")));
}

#[test]
fn totals_that_cannot_be_counted_are_reported() {
    let huge = rows(&[("2026-03-01", i64::MAX), ("2026-03-01", 1)]);
    assert_eq!(minutes_by_day_checked(&huge), None);
    let split = rows(&[("2026-03-01", i64::MAX), ("2026-03-02", 1)]);
    let v = minutes_by_day_checked(&split).expect("each day fits");
    assert_eq!(v.len(), 2);
    assert!(streaks_checked(&v, day("2026-03-02")).is_none(), "but their sum does not");
    let small = minutes_by_day(&rows(&[("2026-03-01", 5)]));
    assert_eq!(streaks_checked(&small, day("2026-03-01")).map(|s| s.total_minutes), Some(5));
}

#[test]
fn a_column_is_labelled_with_its_month() {
    assert_eq!(month_label(day("2026-03-01")).as_deref(), Some("Mar"));
    assert_eq!(month_label(day("2025-12-28")).as_deref(), Some("Dec"));
}
