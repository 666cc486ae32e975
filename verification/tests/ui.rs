use ai_mentor::ui::{issue_location, issue_shown};
use ai_mentor::ui::{grade_hint, reading_minutes, severity_bucket};

#[test]
fn reading_time_rounds_up_and_never_reads_as_zero() {
    assert_eq!(reading_minutes(""), 1, "an empty lesson still shows a minute");
    assert_eq!(reading_minutes("one two three"), 1);

    let words = vec!["word"; 180].join(" ");
    assert_eq!(reading_minutes(&words), 1);

    let words = vec!["word"; 181].join(" ");
    assert_eq!(reading_minutes(&words), 2, "a part minute rounds up");

    let words = vec!["word"; 3600].join(" ");
    assert_eq!(reading_minutes(&words), 20);
}

#[test]
fn severities_fall_into_three_buckets() {
    assert_eq!(severity_bucket("high"), "high");
    assert_eq!(severity_bucket("  HIGH "), "high");
    assert_eq!(severity_bucket("medium"), "med");
    assert_eq!(severity_bucket("Med"), "med");
    assert_eq!(severity_bucket("low"), "low");
    assert_eq!(severity_bucket("critical"), "low", "anything unknown is low");
}

#[test]
fn every_grade_has_a_hint() {
    for g in 0..=5 {
        assert!(!grade_hint(g).is_empty());
    }
    assert_eq!(grade_hint(5), grade_hint(9), "grades above five read as five");
}

#[test]
fn issues_are_filtered_by_severity_and_located_by_file_and_line() {
    assert!(issue_shown("all", "whatever"));
    assert!(issue_shown("med", "Medium"));
    assert!(!issue_shown("high", "low"));
    assert_eq!(issue_location("A.java", Some(12)), "A.java:12");
    assert_eq!(issue_location("", Some(12)), "");
    assert_eq!(issue_location("B.rs", None), "B.rs");
}
