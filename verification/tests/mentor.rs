use ai_mentor::mentor::{cli_arguments, CliConfig};
use ai_mentor::mentor::{reply_preview, retry_prompt};
use ai_mentor::mentor::{
    day_count, enforce_ramp, extract_json, extract_last_json, prompt_day, prompt_job_skills,
    prompt_plan, prompt_quiz, prompt_verify, week_subskills,
};
use ai_mentor::models::{Day, DayJson, DayStatus, PlanJson, WeeklyProjectJson};

fn day(day: i64, difficulty: i64) -> DayJson {
    DayJson {
        day,
        week: 1,
        title: format!("Day {day}"),
        difficulty,
        est_minutes: 60,
        ..Default::default()
    }
}

#[test]
fn ramp_is_monotonic_after_enforcement() {
    let mut plan = PlanJson {
        days: vec![day(1, 4), day(2, 1), day(3, 9), day(4, 2), day(5, 0)],
        ..Default::default()
    };
    enforce_ramp(&mut plan);

    let difficulties: Vec<i64> = plan.days.iter().map(|d| d.difficulty).collect();
    assert_eq!(difficulties, vec![1, 1, 2, 4, 5], "out-of-range values clamp to 1..=5");
    assert!(difficulties.windows(2).all(|w| w[0] <= w[1]));

    let numbers: Vec<i64> = plan.days.iter().map(|d| d.day).collect();
    assert_eq!(numbers, vec![1, 2, 3, 4, 5], "days are renumbered sequentially");
}

#[test]
fn weeks_are_seven_days_and_every_week_gets_a_project() {
    let mut plan = PlanJson {
        days: (1..=20).map(|i| day(i, 1 + i / 7)).collect(),
        ..Default::default()
    };
    enforce_ramp(&mut plan);

    assert_eq!(plan.days[0].week, 1);
    assert_eq!(plan.days[6].week, 1);
    assert_eq!(plan.days[7].week, 2);
    assert_eq!(plan.days[19].week, 3);
    let weeks: Vec<i64> = plan.weekly_projects.iter().map(|w| w.week).collect();
    assert_eq!(weeks, vec![1, 2, 3]);
}

#[test]
fn json_survives_fences_and_surrounding_prose() {
    let raw = "Sure! Here is the plan:\n```json\n{\"tech\":\"Java\",\"days\":[]}\n```\nHope that helps.";
    let slice = extract_json(raw).expect("object found");
    let parsed: serde_json::Value = serde_json::from_str(slice).expect("parses");
    assert_eq!(parsed["tech"], "Java");
}

#[test]
fn verdict_block_is_taken_from_the_end_of_a_review() {
    let raw = r#"# Review
The `{}` placeholder in Foo.java is wrong.
{"verdict":"needs_work","score":62,"issues":[{"severity":"high","file":"A.java","line":12,"issue":"NPE","suggestion":"guard"}]}"#;
    let slice = extract_last_json(raw).expect("trailing object");
    let parsed: serde_json::Value = serde_json::from_str(slice).expect("parses");
    assert_eq!(parsed["verdict"], "needs_work");
    assert_eq!(parsed["score"], 62);
    assert_eq!(parsed["issues"].as_array().map(|a| a.len()), Some(1));
}

#[test]
fn day_count_rounds_up() {
    assert_eq!(day_count(20, 60), 20);
    assert_eq!(day_count(20, 90), 14);
    assert_eq!(day_count(20, 45), 27);
}

#[test]
fn the_plan_prompt_names_the_job_being_trained_for() {
    let unaimed = prompt_plan("Java", 20, 60, &[], "");
    assert!(
        unaimed.contains("not named a target role"),
        "with no role it still says so rather than leaving a placeholder"
    );
    assert!(!unaimed.contains("{TARGET_ROLE}"));

    let aimed = prompt_plan("Java", 20, 60, &[], "  Java Backend Developer  ");
    assert!(
        aimed.contains("hired as: Java Backend Developer"),
        "the role is named, trimmed"
    );
}

#[test]
fn the_job_prompt_carries_the_posting_and_asks_for_json() {
    let prompt = prompt_job_skills("  We need Java and Spring Boot.  ");
    assert!(prompt.contains("We need Java and Spring Boot."));
    assert!(prompt.contains("must_have"), "the schema is spelled out");
    assert!(
        !prompt.contains("{JOB_DESCRIPTION}"),
        "the placeholder is filled in"
    );
}

#[test]
fn a_plan_prompt_names_what_the_track_already_cleared() {
    let first = prompt_plan("Java", 20, 60, &[], "");
    assert!(
        first.contains("first subject on the learner"),
        "a track opener says there is no prior ground"
    );
    assert!(!first.contains("already worked through"));

    let later = prompt_plan(
        "Spring Boot",
        20,
        60,
        &["Java".to_string(), "MySQL".to_string()],
        "",
    );
    assert!(
        later.contains("Java, MySQL"),
        "earlier subjects are listed in track order"
    );
    assert!(
        later.contains("do not spend days"),
        "and the course is told not to re-teach them"
    );
}

// ---------------------------------------------------------------------------
// Further cases
// ---------------------------------------------------------------------------

fn stored_day(id: i64, number: i64, week: i64, title: &str, subskill: &str) -> Day {
    Day {
        id,
        plan_id: 1,
        day_number: number,
        week_number: week,
        title: title.to_string(),
        subskill: subskill.to_string(),
        objectives: vec!["read".to_string(), "write".to_string()],
        practice_task: "build it".to_string(),
        difficulty: 1,
        builds_on: vec![],
        interview_questions: vec![],
        content_md: String::new(),
        est_minutes: 60,
        status: DayStatus::NotStarted,
        hands_on_done: false,
        notes: String::new(),
        content_edited: false,
    }
}

#[test]
fn day_count_treats_a_session_under_a_minute_as_one_minute() {
    assert_eq!(day_count(0, 60), 0);
    assert_eq!(day_count(1, 7), 9);
    assert_eq!(day_count(20, 0), 1200);
    assert_eq!(day_count(20, -5), 1200);
}

#[test]
fn ramp_keeps_every_day_and_dedupes_projects_by_week() {
    let mut plan = PlanJson {
        days: (1..=9).map(|i| day(i, 10 - i)).collect(),
        weekly_projects: vec![
            WeeklyProjectJson { week: 2, title: "second".into(), ..Default::default() },
            WeeklyProjectJson { week: 2, title: "duplicate".into(), ..Default::default() },
            WeeklyProjectJson { week: 9, title: "out of range".into(), ..Default::default() },
        ],
        ..Default::default()
    };
    enforce_ramp(&mut plan);
    assert_eq!(plan.days.len(), 9);
    let weeks: Vec<i64> = plan.weekly_projects.iter().map(|w| w.week).collect();
    assert_eq!(weeks, vec![1, 2]);
    assert_eq!(plan.weekly_projects[1].title, "second");
    assert!(plan.days.windows(2).all(|w| w[0].difficulty <= w[1].difficulty));
}

#[test]
fn no_json_object_means_nothing_to_parse() {
    assert_eq!(extract_json("no braces here"), None);
    assert_eq!(extract_json("{ never closed"), None);
    assert_eq!(extract_last_json("plain prose"), None);
    assert_eq!(extract_json("a {\"s\":\"}\"} b"), Some("{\"s\":\"}\"}"));
    assert_eq!(extract_last_json("{\"a\":1} then {\"b\":2}"), Some("{\"b\":2}"));
}

#[test]
fn the_day_prompt_names_the_subject_and_the_day() {
    let d = stored_day(1, 3, 1, "Streams", "collections");
    let p = prompt_day("Java", &d);
    assert!(p.contains("Java"));
    assert!(p.contains("collections"));
    assert!(!p.contains("{TECH}"));
}

#[test]
fn the_quiz_and_review_prompts_are_filled_in() {
    let q = prompt_quiz("Java", "Day 1 - loops", 8);
    assert!(q.contains("Day 1 - loops"));
    assert!(q.contains('8'));
    let v = prompt_verify("loops (Day 1)", "A CLI - parse args", "it runs");
    assert!(v.contains("loops (Day 1)"));
    assert!(v.contains("it runs"));
}

#[test]
fn week_subskills_lists_the_days_of_that_week_only() {
    let days = vec![
        stored_day(1, 1, 1, "Intro", "syntax"),
        stored_day(2, 2, 1, "Types", "types"),
        stored_day(3, 8, 2, "Traits", "traits"),
    ];
    assert_eq!(week_subskills(&days, 1), "syntax (Intro); types (Types)");
    assert_eq!(week_subskills(&days, 3), "(no days recorded for this week)");
}

#[test]
fn the_cli_gets_the_flag_the_prompt_and_each_extra_word() {
    let cfg = CliConfig::default();
    assert_eq!(cfg.cli_path, "mentor-cli");
    let args = cli_arguments(&cfg, "hello there");
    assert_eq!(args, vec!["-p", "hello there", "--output-format", "text"]);
    let bare = CliConfig { extra_args: "   ".into(), ..CliConfig::default() };
    assert_eq!(cli_arguments(&bare, "x"), vec!["-p", "x"]);
}

#[test]
fn a_retry_names_what_went_wrong_and_a_reply_preview_is_short() {
    let r = retry_prompt("Make a plan.", "EOF at line 1");
    assert!(r.starts_with("Make a plan.\n\nIMPORTANT: your previous answer could not be parsed (EOF at line 1)."));
    assert!(r.ends_with("no markdown fences."));
    assert_eq!(reply_preview("  ready \n"), "ready");
    let long = "x".repeat(100);
    assert_eq!(reply_preview(&long).len(), 60);
}

#[test]
fn an_unclosed_brace_in_the_prose_is_passed_over() {
    assert_eq!(extract_json(r#"oops { then {"a":1}"#), Some(r#"{"a":1}"#));
    assert_eq!(extract_json(r#"{ never closes"#), None);
    assert_eq!(extract_json(r#"x {"a":{"b":"}"}} y {"c":2}"#), Some(r#"{"a":{"b":"}"}}"#));
}

#[test]
fn enforcing_the_ramp_twice_changes_nothing() {
    let mut plan = PlanJson {
        days: (1..=10).map(|i| day(i, (11 - i) % 7 - 1)).collect(),
        weekly_projects: vec![WeeklyProjectJson { week: 2, title: "second".into(), ..Default::default() }],
        ..Default::default()
    };
    enforce_ramp(&mut plan);
    let snap = format!("{plan:?}");
    enforce_ramp(&mut plan);
    assert_eq!(format!("{plan:?}"), snap);
    assert_eq!(plan.weekly_projects.len(), 2);
    assert_eq!(plan.weekly_projects[0].title, "Week 1 project");
    assert_eq!(plan.weekly_projects[1].title, "second");
}

#[test]
fn the_last_object_is_the_one_nothing_balanced_follows() {
    assert_eq!(extract_last_json(r#"{"a":1} text {"b":{"c":2}} { open"#), Some(r#"{"b":{"c":2}}"#));
    assert_eq!(extract_last_json(r#"{ never {closes"#), None);
}
