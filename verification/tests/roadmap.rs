use ai_mentor::roadmap::{move_item, progress, SubjectCount, DEFAULT_UNLOCK_THRESHOLD};

/// The whole percentage of days done, as the window computes it.
fn percent(done: i64, total: i64) -> i64 {
    if total == 0 {
        0
    } else {
        ((done as f32 / total as f32) * 100.0) as i64
    }
}

/// A track of `(subject, days_in_course, days_done)`, in order.
fn track(spec: &[(&str, i64, i64)]) -> Vec<SubjectCount> {
    spec.iter()
        .enumerate()
        .map(|(i, (subject, days, done))| SubjectCount {
            item_id: i as i64 + 1,
            subject: subject.to_string(),
            stack_id: i as i64 + 100,
            days_done: *done,
            days_total: *days,
            percent: percent(*done, *days),
        })
        .collect()
}

#[test]
fn clearing_a_subject_unlocks_the_next_one() {
    // 8 of 10 days is exactly the default 80% threshold.
    let counts = track(&[("Java", 10, 8), ("Spring Boot", 10, 0), ("Docker", 0, 0)]);
    let p = progress(&counts, DEFAULT_UNLOCK_THRESHOLD);

    assert!(p.entries[0].cleared, "Java is at the threshold");
    assert!(p.entries[1].unlocked, "so Spring Boot opens");
    assert!(!p.entries[1].cleared);
    assert!(!p.entries[2].unlocked, "Docker stays behind Spring Boot");
    assert_eq!(p.current, Some(1), "Spring Boot is what to work on now");
    assert_eq!(p.current_entry().map(|e| e.subject.as_str()), Some("Spring Boot"));
}

#[test]
fn a_subject_short_of_the_threshold_keeps_the_next_locked() {
    let counts = track(&[("Java", 10, 7), ("Spring Boot", 10, 0)]);
    let p = progress(&counts, DEFAULT_UNLOCK_THRESHOLD);

    assert!(!p.entries[0].cleared, "70% is under the 80% threshold");
    assert!(p.entries[0].unlocked, "the first subject is always open");
    assert!(!p.entries[1].unlocked, "Spring Boot is still locked");
    assert_eq!(p.current, Some(0), "stay on Java");
}

#[test]
fn a_subject_with_no_course_yet_never_counts_as_cleared() {
    let counts = track(&[("Java", 0, 0), ("Spring Boot", 10, 0)]);
    let p = progress(&counts, DEFAULT_UNLOCK_THRESHOLD);

    assert!(!p.entries[0].cleared, "zero days is not a cleared subject");
    assert!(!p.entries[1].unlocked);
    assert_eq!(p.current, Some(0));
}

#[test]
fn a_new_course_builds_on_the_subjects_already_cleared() {
    let counts = track(&[
        ("Java", 10, 10),
        ("Data Structures & Algorithms", 10, 9),
        ("Spring Boot", 0, 0),
    ]);
    let p = progress(&counts, DEFAULT_UNLOCK_THRESHOLD);

    assert_eq!(p.current, Some(2), "both earlier subjects cleared");
    assert_eq!(
        p.cleared_before(2),
        vec![
            "Java".to_string(),
            "Data Structures & Algorithms".to_string()
        ],
        "Spring Boot is told what came before it, in track order"
    );
    assert!(
        p.cleared_before(0).is_empty(),
        "the first subject builds on nothing"
    );
}

#[test]
fn an_unfinished_subject_is_left_out_of_what_the_next_builds_on() {
    // Java cleared, DSA only half done, then Spring Boot.
    let counts = track(&[
        ("Java", 10, 10),
        ("Data Structures & Algorithms", 10, 5),
        ("Spring Boot", 0, 0),
    ]);
    let p = progress(&counts, DEFAULT_UNLOCK_THRESHOLD);

    assert_eq!(p.current, Some(1), "DSA is the one to work on");
    assert_eq!(
        p.cleared_before(2),
        vec!["Java".to_string()],
        "a half-done subject is not claimed as known ground"
    );
}

#[test]
fn index_of_finds_a_subject_on_the_track_and_ignores_one_off_it() {
    let counts = track(&[("Java", 10, 10), ("Spring Boot", 10, 0)]);
    let p = progress(&counts, DEFAULT_UNLOCK_THRESHOLD);
    let spring = counts[1].stack_id;
    let redis = 999;

    assert_eq!(p.index_of(spring), Some(1));
    assert_eq!(p.index_of(redis), None, "Redis is not on this track");
}

#[test]
fn a_fully_cleared_track_has_nothing_current() {
    let counts = track(&[("Java", 10, 10), ("Docker", 5, 5)]);
    let p = progress(&counts, DEFAULT_UNLOCK_THRESHOLD);
    assert_eq!(p.current, None);
    assert!(p.current_entry().is_none());
    assert!(p.entries.iter().all(|e| e.unlocked && e.cleared));
}

#[test]
fn moving_an_item_swaps_it_with_its_neighbour() {
    assert_eq!(move_item(&[10, 20, 30], 20, -1), Some(vec![20, 10, 30]));
    assert_eq!(move_item(&[10, 20, 30], 20, 1), Some(vec![10, 30, 20]));
    assert_eq!(move_item(&[10, 20, 30], 10, -1), None, "the first item cannot move up");
    assert_eq!(move_item(&[10, 20, 30], 30, 1), None, "the last item cannot move down");
    assert_eq!(move_item(&[10, 20, 30], 99, 1), None, "an item off the track stays put");
}
