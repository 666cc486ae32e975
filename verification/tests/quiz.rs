use ai_mentor::models::{Day, DayStatus, QuizQuestion, QuizQuestionJson, WeeklyProject};
use ai_mentor::quiz::{grade_attempt, questions_to_store, scope_content_day, scope_content_week};

fn day(number: i64, week: i64, title: &str, subskill: &str) -> Day {
    Day {
        id: number,
        plan_id: 1,
        day_number: number,
        week_number: week,
        title: title.into(),
        subskill: subskill.into(),
        objectives: vec!["one".into(), "two".into()],
        practice_task: "build".into(),
        difficulty: 1,
        builds_on: vec![],
        interview_questions: vec![],
        content_md: String::new(),
        est_minutes: 60,
        status: DayStatus::NotStarted,
        hands_on_done: false,
        notes: String::new(),
        content_edited: false,
    }
}

#[test]
fn a_day_scope_names_the_day_its_objectives_and_its_task() {
    assert_eq!(
        scope_content_day(&day(3, 1, "Loops", "control flow")),
        "Day 3 - \"Loops\" (subskill: control flow). Objectives: one; two. Hands-on task: build"
    );
}

#[test]
fn a_week_scope_lists_its_days_and_its_project() {
    let days = vec![day(1, 1, "Intro", "syntax"), day(2, 1, "Types", "types"), day(8, 2, "Traits", "traits")];
    let project = WeeklyProject {
        id: 1,
        plan_id: 1,
        week_number: 1,
        title: "CLI".into(),
        description: "parse args".into(),
        acceptance: vec![],
        status: "not_started".into(),
        github_url: String::new(),
        notes: String::new(),
    };
    assert_eq!(
        scope_content_week(&days, 1, Some(&project)),
        "Week 1. Day 1: Intro (syntax); Day 2: Types (types) Weekly project: CLI - parse args"
    );
    assert_eq!(scope_content_week(&days, 5, None), "Week 5. ");
}

fn question(id: i64, correct: i64, explanation: &str) -> QuizQuestion {
    QuizQuestion {
        id,
        quiz_id: 1,
        question: format!("q{id}"),
        options: vec!["a".into(), "b".into(), "c".into()],
        correct_index: correct,
        explanation: explanation.into(),
    }
}

#[test]
fn a_graded_attempt_counts_right_answers_and_cards_the_misses() {
    let qs = vec![question(1, 0, ""), question(2, 2, "because"), question(3, 1, "")];
    let g = grade_attempt(&qs, &[Some(0), Some(1), None]);
    assert_eq!((g.correct, g.total), (1, 3));
    assert_eq!(g.answers.len(), 3);
    assert!(g.answers[0].correct && !g.answers[1].correct);
    assert_eq!(g.answers[2].chosen_index, None);
    assert_eq!(g.missed.len(), 2);
    assert_eq!(g.missed[0].front, "q2");
    assert_eq!(g.missed[0].back, "c\n\nbecause");
    assert_eq!(g.missed[1].back, "b");
}

#[test]
fn only_questions_with_two_options_are_stored_with_a_valid_answer() {
    let qs = vec![
        QuizQuestionJson { question: "one option".into(), options: vec!["x".into()], ..Default::default() },
        QuizQuestionJson { question: "too high".into(), options: vec!["x".into(), "y".into()], correct_index: 7, ..Default::default() },
        QuizQuestionJson { question: "negative".into(), options: vec!["x".into(), "y".into(), "z".into()], correct_index: -1, ..Default::default() },
    ];
    let kept = questions_to_store(&qs);
    assert_eq!(kept.len(), 2);
    assert_eq!(kept[0].question, "too high");
    assert_eq!(kept[0].correct_index, 1);
    assert_eq!(kept[1].correct_index, 0);
}
