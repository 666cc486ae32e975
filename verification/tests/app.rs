use ai_mentor::app::{
    course_summary, freed_slots, job_track, lessons_to_fetch, neighbour_day, next_day_progress,
    posting_text, practice_log, priority_order, quiz_scope, setting_flag, setting_number,
    subskill_names, track_context, verify_request, DayEvent, DayProgress, JobKind, JobQueue,
    PracticeLog, QueuedJob, QuizState, SettingsForm, Tab,
};
use ai_mentor::models::{catalogue_subjects, Day, DayStatus, JobSkillJson, JobSpecJson, QuizQuestion, WeeklyProject};
use ai_mentor::roadmap::{progress, SubjectCount};
use ai_mentor::timer::PracticeTimer;

fn skill(name: &str, priority: i64) -> JobSkillJson {
    JobSkillJson {
        name: name.to_string(),
        priority,
        ..Default::default()
    }
}

#[test]
fn a_posting_becomes_a_track_in_the_order_it_asks_for() {
    let track = job_track(
        &JobSpecJson {
            role: "Java Backend Developer".to_string(),
            seniority: "junior".to_string(),
            skills: vec![
                skill("Java 17", 1),
                skill("Spring Boot 3.x", 2),
                skill("Postgres", 3),
                skill("gRPC", 4), // nothing in the catalogue teaches this
            ],
        },
        &catalogue_subjects(),
    );

    assert_eq!(track.role, "Java Backend Developer");
    assert_eq!(track.seniority, "junior");
    assert_eq!(
        track.subjects,
        vec!["Java", "Spring Boot", "PostgreSQL", "gRPC"],
        "matched to the catalogue where possible, invented where not, in posting order"
    );
    assert_eq!((track.matched, track.invented), (3, 1));
}

#[test]
fn the_posting_track_is_its_own_roadmap_and_leaves_the_preset_alone() {
    let track = job_track(
        &JobSpecJson {
            role: "React Developer".to_string(),
            skills: vec![skill("React", 1), skill("TypeScript", 2)],
            ..Default::default()
        },
        &catalogue_subjects(),
    );
    assert_eq!(track.name, "React Developer (job track)");
    let unnamed = job_track(&JobSpecJson { skills: vec![skill("React", 1)], ..Default::default() }, &catalogue_subjects());
    assert_eq!(unnamed.name, "Job track");
}

#[test]
fn a_posting_with_nothing_studiable_is_refused_rather_than_wiping_the_track() {
    let track = job_track(
        &JobSpecJson {
            role: "Vibes Engineer".to_string(),
            skills: vec![skill("   ", 1)],
            ..Default::default()
        },
        &catalogue_subjects(),
    );
    assert!(track.subjects.is_empty(), "nothing to build a track from");
    assert_eq!((track.matched, track.invented), (0, 0));
}

/// A real posting does this: it listed both "Java 17" and "Java
/// Collections", which are one subject here.
#[test]
fn two_skills_naming_the_same_subject_make_one_track_entry() {
    let track = job_track(
        &JobSpecJson {
            role: "Java Backend Engineer".to_string(),
            skills: vec![
                skill("Java 17", 1),
                skill("Java Collections", 2),
                skill("Spring Boot 3", 3),
            ],
            ..Default::default()
        },
        &catalogue_subjects(),
    );
    assert_eq!(
        track.subjects,
        vec!["Java", "Spring Boot"],
        "Java appears once, at the position it was first asked for"
    );
}

#[test]
fn skills_are_studied_by_priority_with_ties_in_posting_order() {
    let priorities: Vec<i64> = vec![3, 1, 3, 2, 1];
    assert_eq!(priority_order(&priorities), vec![1, 4, 3, 0, 2]);
    assert!(priority_order(&[]).is_empty());
    let track = job_track(
        &JobSpecJson {
            skills: vec![skill("Docker", 5), skill("Kubernetes", 2), skill("k8s", 9)],
            ..Default::default()
        },
        &catalogue_subjects(),
    );
    assert_eq!(track.subjects, vec!["Kubernetes", "Docker"]);
    assert_eq!(track.matched, 3, "every skill that matched is counted, repeats too");
}

#[test]
fn a_remembered_tab_reopens() {
    for tab in [Tab::Study, Tab::Reviews, Tab::Analytics, Tab::Roadmap] {
        assert_eq!(Tab::parse(tab.key()), tab);
    }
    assert_eq!(Tab::parse("nonsense"), Tab::Study);
    assert_eq!(Tab::Reviews.key(), "reviews");
}

fn job(day_id: i64) -> QueuedJob {
    QueuedJob::DayContent { day_id, prompt: String::new() }
}

fn day_ids(jobs: &[QueuedJob]) -> Vec<i64> {
    jobs.iter()
        .map(|j| match j {
            QueuedJob::DayContent { day_id, .. } => *day_id,
            _ => -1,
        })
        .collect()
}

#[test]
fn the_queue_runs_jobs_in_order_up_to_the_cap() {
    let mut q = JobQueue::new(2);
    assert_eq!(day_ids(&q.enqueue(job(1))), vec![1]);
    assert_eq!(day_ids(&q.enqueue(job(2))), vec![2]);
    assert!(q.enqueue(job(3)).is_empty(), "the cap is reached");
    q.push(job(4));
    assert_eq!(q.waiting_count(), 2);
    assert_eq!(q.running_count(), 2);

    assert_eq!(day_ids(&q.finish(1)), vec![3], "first in line goes next");
    assert_eq!(day_ids(&q.finish(2)), vec![4]);
    assert!(q.finish(0).is_empty());
    assert_eq!(q.running_count(), 1);
    assert_eq!(q.finish(5).len(), 0);
    assert_eq!(q.running_count(), 0);
}

#[test]
fn the_concurrency_setting_is_held_to_one_to_four() {
    let mut q = JobQueue::new(0);
    q.push(job(1));
    q.push(job(2));
    assert_eq!(q.pump().len(), 1);
    let mut q = JobQueue::new(9);
    for i in 0..6 {
        q.push(job(i));
    }
    assert_eq!(day_ids(&q.pump()), vec![0, 1, 2, 3]);
    assert_eq!(q.clear(), 2, "waiting jobs are dropped");
    assert_eq!(q.waiting_count(), 0);
    assert_eq!(q.running_count(), 4, "running ones finish");
}

#[test]
fn a_posting_needs_some_text_first() {
    assert_eq!(posting_text("  too short  "), None);
    let long = "  We are hiring a Java developer with Spring Boot experience.  ";
    assert_eq!(posting_text(long).as_deref(), Some(long.trim()));
}

fn stored_day(id: i64, status: DayStatus, content: &str, edited: bool) -> Day {
    Day {
        id,
        plan_id: 1,
        day_number: id,
        week_number: 1,
        title: format!("Day {id}"),
        subskill: "basics".to_string(),
        objectives: vec!["learn".to_string()],
        practice_task: "practise".to_string(),
        difficulty: 1,
        builds_on: vec![],
        interview_questions: vec![],
        content_md: content.to_string(),
        est_minutes: 60,
        status,
        hands_on_done: false,
        notes: String::new(),
        content_edited: edited,
    }
}

#[test]
fn stopping_the_timer_logs_its_minutes_and_starts_the_day() {
    let days = vec![stored_day(7, DayStatus::NotStarted, "", false), stored_day(8, DayStatus::Done, "", false)];
    assert_eq!(practice_log(&days, 7, 25), PracticeLog { log: true, start_day: true });
    assert_eq!(practice_log(&days, 8, 25), PracticeLog { log: true, start_day: false });
}

#[test]
fn a_session_under_a_minute_logs_nothing() {
    let days = vec![stored_day(7, DayStatus::NotStarted, "", false)];
    assert_eq!(practice_log(&days, 7, 0), PracticeLog { log: false, start_day: false });
}

#[test]
fn lessons_are_fetched_only_for_untouched_empty_days() {
    let days = vec![
        stored_day(1, DayStatus::NotStarted, "", false),
        stored_day(2, DayStatus::NotStarted, "# Lesson", false),
        stored_day(3, DayStatus::NotStarted, "  ", true),
        stored_day(4, DayStatus::NotStarted, " \n", false),
    ];
    assert_eq!(lessons_to_fetch(&days), vec![0, 3]);
}

fn question(id: i64) -> QuizQuestion {
    QuizQuestion {
        id,
        quiz_id: 1,
        question: "q".to_string(),
        options: vec!["a".to_string(), "b".to_string()],
        correct_index: 0,
        explanation: String::new(),
    }
}

#[test]
fn a_quiz_opens_with_nothing_chosen() {
    assert!(QuizState::open(1, 2, "Java", vec![]).is_none(), "a quiz with no questions");
    let mut q = QuizState::open(1, 2, "Java", vec![question(1), question(2)]).expect("opens");
    assert_eq!(q.title, "Java quiz");
    assert_eq!(q.chosen, vec![None, None]);
    assert!(!q.submitted);
    q.record_score(1, 2);
    assert!(q.submitted);
    assert_eq!(q.score, (1, 2));
}

#[test]
fn settings_are_saved_under_their_keys() {
    let form = SettingsForm {
        cli_path: "mentor".into(),
        prompt_flag: "-p".into(),
        extra_args: "".into(),
        git_path: "git".into(),
        target_hours: 20,
        minutes_per_day: 60,
        quiz_length: 8,
        heatmap_weeks: 30,
        unlock_threshold: 80,
    };
    let pairs = form.setting_pairs();
    assert_eq!(pairs.len(), 9);
    assert_eq!(pairs[0], ("cli_path".to_string(), "mentor".to_string()));
    assert_eq!(pairs[8], ("roadmap_unlock_threshold".to_string(), "80".to_string()));
    assert_eq!(form.cli_config().git_path, "git");
}

#[test]
fn a_quiz_scope_names_a_day_or_a_week() {
    let days = vec![stored_day(1, DayStatus::NotStarted, "", false)];
    let projects: Vec<WeeklyProject> = vec![];
    assert!(quiz_scope("day", Some(1), None, &days, &projects).expect("the day").starts_with("Day 1"));
    assert_eq!(quiz_scope("day", Some(9), None, &days, &projects), None, "a day not in the course");
    assert!(quiz_scope("week", None, Some(1), &days, &projects).expect("the week").starts_with("Week 1."));
    assert_eq!(quiz_scope("month", Some(1), Some(1), &days, &projects), None);
}

#[test]
fn a_review_needs_a_repository() {
    let project = WeeklyProject {
        id: 5,
        plan_id: 1,
        week_number: 1,
        title: "CLI".into(),
        description: "parse args".into(),
        acceptance: vec!["runs".into(), "tested".into()],
        status: "not_started".into(),
        github_url: String::new(),
        notes: String::new(),
    };
    let days = vec![stored_day(1, DayStatus::NotStarted, "", false)];
    assert!(verify_request(&project, "   ", &days).is_none());
    let req = verify_request(&project, " https://github.com/a/b ", &days).expect("a request");
    assert_eq!(req.weekly_project_id, 5);
    assert_eq!(req.github_url, "https://github.com/a/b");
    assert_eq!(req.description, "CLI - parse args");
    assert_eq!(req.acceptance, "runs; tested");
    assert_eq!(req.week_subskills, "basics (Day 1)");
}

#[test]
fn a_new_course_is_told_what_the_track_cleared_before_it() {
    let counts: Vec<SubjectCount> = [("Java", 10), ("Docker", 5), ("Spring Boot", 0)]
        .iter()
        .enumerate()
        .map(|(i, (s, done))| SubjectCount {
            item_id: i as i64,
            subject: s.to_string(),
            stack_id: 100 + i as i64,
            days_done: *done,
            days_total: 10,
            percent: done * 10,
        })
        .collect();
    let p = Some(progress(&counts, 80));
    assert_eq!(track_context(&p, 102), vec!["Java".to_string()]);
    assert!(track_context(&p, 555).is_empty(), "not on the track");
    assert!(track_context(&None, 102).is_empty(), "no track");
}

#[test]
fn a_day_is_done_only_with_its_hands_on_task() {
    let open = DayProgress { status: DayStatus::InProgress, hands_on_done: false };
    assert_eq!(next_day_progress(open, DayEvent::ChooseStatus(DayStatus::Done)), open, "Done is not offered yet");
    let ticked = next_day_progress(open, DayEvent::TickHandsOn(true));
    let done = next_day_progress(ticked, DayEvent::ChooseStatus(DayStatus::Done));
    assert_eq!(done, DayProgress { status: DayStatus::Done, hands_on_done: true });
    assert_eq!(
        next_day_progress(done, DayEvent::TickHandsOn(false)),
        DayProgress { status: DayStatus::InProgress, hands_on_done: false },
        "unticking the task reopens the day"
    );
    let fresh = DayProgress { status: DayStatus::NotStarted, hands_on_done: false };
    assert_eq!(next_day_progress(fresh, DayEvent::Practised).status, DayStatus::InProgress);
    assert_eq!(next_day_progress(done, DayEvent::Practised), done);
}

#[test]
fn days_are_stepped_through_in_order() {
    let days = vec![
        stored_day(10, DayStatus::Done, "", false),
        stored_day(20, DayStatus::NotStarted, "", false),
        stored_day(30, DayStatus::NotStarted, "", false),
    ];
    assert_eq!(neighbour_day(&days, Some(20), true), Some(30));
    assert_eq!(neighbour_day(&days, Some(20), false), Some(10));
    assert_eq!(neighbour_day(&days, Some(30), true), None);
    assert_eq!(neighbour_day(&days, Some(10), false), None);
    assert_eq!(neighbour_day(&days, None, true), Some(20));
}

#[test]
fn a_course_summary_counts_done_days_and_the_peak_difficulty() {
    let mut days = vec![
        stored_day(1, DayStatus::Done, "", false),
        stored_day(2, DayStatus::Done, "", false),
        stored_day(3, DayStatus::InProgress, "", false),
    ];
    days[1].difficulty = 3;
    days[2].difficulty = 5;
    let s = course_summary(&days);
    assert_eq!(s.days_done, 2);
    assert_eq!(s.difficulty_reached, 3, "an unfinished harder day does not count");
    days[0].subskill = "syntax".into();
    days[2].subskill = "syntax".into();
    assert_eq!(subskill_names(&days), vec!["syntax".to_string(), "basics".to_string()]);
}

#[test]
fn a_quiz_is_answered_before_it_is_submitted() {
    let mut q = QuizState::open(1, 2, "Java", vec![question(1), question(2)]).expect("opens");
    assert!(!q.ready_to_submit());
    q.pick(0, 1);
    q.pick(5, 0);
    assert_eq!(q.answered_count(), 1);
    q.pick(1, 0);
    assert!(q.ready_to_submit());
    q.record_score(1, 2);
    q.pick(0, 0);
    assert_eq!(q.chosen, vec![Some(1), Some(0)], "a submitted attempt is frozen");
}

#[test]
fn update_checks_and_the_cli_test_run_beside_the_queue() {
    assert_eq!(freed_slots(&[JobKind::Plan, JobKind::UpdateCheck, JobKind::Verify, JobKind::CliTest]), 2);
    assert_eq!(freed_slots(&[]), 0);
}

#[test]
fn saved_settings_fall_back_to_their_defaults() {
    assert_eq!(setting_number(Some("42"), 7), 42);
    assert_eq!(setting_number(Some("forty"), 7), 7);
    assert_eq!(setting_number(None, 7), 7);
    assert!(setting_flag(None, "1"));
    assert!(!setting_flag(Some("0"), "1"));
    assert!(setting_flag(Some("1"), "0"));
}

#[test]
fn lowering_the_cap_lets_running_jobs_finish() {
    let mut q = JobQueue::new(3);
    for i in 0..5 {
        q.push(job(i));
    }
    assert_eq!(q.pump().len(), 3);
    q.set_limit(1);
    assert!(q.pump().is_empty());
    assert!(q.finish(1).is_empty(), "two still run, over the new cap");
    assert_eq!(day_ids(&q.finish(2)), vec![3]);
}

#[test]
fn paused_time_is_not_logged() {
    let days = vec![stored_day(7, DayStatus::NotStarted, "", false)];
    let mut t = PracticeTimer::started(7, 0);
    t.pause(600 * 1000); // pause after 10 min
    t.resume(3000 * 1000); // resume 40 min later
    let minutes = t.minutes(3300 * 1000); // and run 5 min more
    assert_eq!(minutes, 15);
    assert_eq!(practice_log(&days, t.day_id, minutes), PracticeLog { log: true, start_day: true });
}
