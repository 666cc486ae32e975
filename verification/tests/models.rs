use ai_mentor::models::{
    catalogue_at, catalogue_subjects, category_of, category_order_at, preset_roadmap_at, DayJson, DayStatus,
    CATALOGUE_SIZE, CATEGORY_COUNT, PRESET_ROADMAP_SIZE,
};

#[test]
fn a_day_status_is_stored_as_text_and_read_back() {
    for s in [DayStatus::NotStarted, DayStatus::InProgress, DayStatus::Done] {
        assert_eq!(DayStatus::parse(s.as_str()), s);
    }
    assert_eq!(DayStatus::InProgress.as_str(), "in_progress");
    assert_eq!(DayStatus::parse("garbage"), DayStatus::NotStarted);
    assert_eq!(DayStatus::Done.label(), "Done");
}

#[test]
fn subjects_fall_into_categories() {
    assert_eq!(category_of("Java"), "Backend");
    assert_eq!(category_of("React"), "Frontend");
    assert_eq!(category_of("gRPC"), "Custom", "anything not in the catalogue");
    assert_eq!(category_order_at(0), "Backend");
    assert_eq!(category_order_at(CATEGORY_COUNT - 1), "Custom");
}

#[test]
fn the_catalogue_and_the_preset_track_line_up() {
    let names = catalogue_subjects();
    assert_eq!(names.len(), CATALOGUE_SIZE);
    for k in 0..CATALOGUE_SIZE {
        assert_eq!(catalogue_at(k).1, names[k]);
    }
    for k in 0..PRESET_ROADMAP_SIZE {
        assert!(names.iter().any(|n| n == preset_roadmap_at(k)), "{} is in the catalogue", preset_roadmap_at(k));
    }
    assert_eq!(preset_roadmap_at(0), "Java");
}

#[test]
fn an_empty_day_payload_has_zeroes() {
    let d = DayJson::default();
    assert_eq!((d.day, d.difficulty, d.est_minutes), (0, 0, 0));
    assert!(d.title.is_empty());
}
