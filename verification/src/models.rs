//! The data the app keeps: study rows, the payloads the mentor CLI answers
//! with, and the built-in subject catalogue and preset roadmap.

use vstd::prelude::*;
use crate::text::{chars_of, same_chars, text_eq};

verus! {

broadcast use vstd::string::group_string_axioms;

// ---------------------------------------------------------------------------
// Row models
// ---------------------------------------------------------------------------

#[derive(Debug, Clone)]
pub struct TechStack {
    pub id: i64,
    pub name: String,
    pub selected: bool,
    pub is_custom: bool,
}

#[derive(Debug, Clone)]
pub struct Plan {
    pub id: i64,
    pub tech_stack_id: i64,
    pub target_hours: i64,
    pub minutes_per_day: i64,
    pub plan_json: String,
}

#[derive(Debug, Clone, Copy, PartialEq, Eq, Structural)]
pub enum DayStatus {
    NotStarted,
    InProgress,
    Done,
}

/// The text a status is stored as.
pub open spec fn status_key(s: DayStatus) -> Seq<char> {
    match s {
        DayStatus::NotStarted => "not_started"@,
        DayStatus::InProgress => "in_progress"@,
        DayStatus::Done => "done"@,
    }
}

/// The status stored as `s`; anything unrecognised reads as not started.
pub open spec fn status_from_key(s: Seq<char>) -> DayStatus {
    if s == "in_progress"@ {
        DayStatus::InProgress
    } else if s == "done"@ {
        DayStatus::Done
    } else {
        DayStatus::NotStarted
    }
}

/// The words a status is shown with.
pub open spec fn status_label(s: DayStatus) -> Seq<char> {
    match s {
        DayStatus::NotStarted => "Not started"@,
        DayStatus::InProgress => "In progress"@,
        DayStatus::Done => "Done"@,
    }
}

impl DayStatus {
    pub fn as_str(&self) -> (r: &'static str)
        ensures
            r@ == status_key(*self),
    {
        match self {
            DayStatus::NotStarted => "not_started",
            DayStatus::InProgress => "in_progress",
            DayStatus::Done => "done",
        }
    }

    pub fn parse(s: &str) -> (r: Self)
        ensures
            r == status_from_key(s@),
    {
        if text_eq(s, "in_progress") {
            DayStatus::InProgress
        } else if text_eq(s, "done") {
            DayStatus::Done
        } else {
            DayStatus::NotStarted
        }
    }

    pub fn label(&self) -> (r: &'static str)
        ensures
            r@ == status_label(*self),
    {
        match self {
            DayStatus::NotStarted => "Not started",
            DayStatus::InProgress => "In progress",
            DayStatus::Done => "Done",
        }
    }
}

/// Every status reads back as itself from the text it is stored as.
pub proof fn lemma_status_round_trip(s: DayStatus)
    ensures
        status_from_key(status_key(s)) == s,
{
    reveal_strlit("not_started");
    reveal_strlit("in_progress");
    reveal_strlit("done");
    match s {
        DayStatus::NotStarted => {
            assert("not_started"@ != "in_progress"@) by {
                assert("not_started"@[0] != "in_progress"@[0]);
            }
            assert("not_started"@ != "done"@) by {
                assert("not_started"@.len() != "done"@.len());
            }
        },
        DayStatus::InProgress => {},
        DayStatus::Done => {
            assert("done"@ != "in_progress"@) by {
                assert("done"@.len() != "in_progress"@.len());
            }
        },
    }
}

#[derive(Debug, Clone)]
pub struct Day {
    pub id: i64,
    pub plan_id: i64,
    pub day_number: i64,
    pub week_number: i64,
    pub title: String,
    pub subskill: String,
    pub objectives: Vec<String>,
    pub practice_task: String,
    pub difficulty: i64,
    pub builds_on: Vec<String>,
    pub interview_questions: Vec<InterviewQuestion>,
    pub content_md: String,
    pub est_minutes: i64,
    pub status: DayStatus,
    pub hands_on_done: bool,
    pub notes: String,
    pub content_edited: bool,
}

#[derive(Debug, Clone)]
pub struct InterviewQuestion {
    pub q: String,
    pub key_points: Vec<String>,
}

#[derive(Debug, Clone)]
pub struct WeeklyProject {
    pub id: i64,
    pub plan_id: i64,
    pub week_number: i64,
    pub title: String,
    pub description: String,
    pub acceptance: Vec<String>,
    pub status: String,
    pub github_url: String,
    pub notes: String,
}

#[derive(Debug, Clone)]
pub struct Verification {
    pub id: i64,
    pub weekly_project_id: i64,
    pub github_url: String,
    pub commit_sha: String,
    pub verdict: String,
    pub score: i64,
    pub report_md: String,
    pub issues: Vec<Issue>,
    pub created_at: String,
}

#[derive(Debug, Clone)]
pub struct Issue {
    pub severity: String,
    pub file: String,
    pub line: Option<i64>,
    pub issue: String,
    pub suggestion: String,
}

#[derive(Debug, Clone)]
pub struct Roadmap {
    pub id: i64,
    pub name: String,
    pub is_preset: bool,
    pub active: bool,
}

#[derive(Debug, Clone)]
pub struct RoadmapItem {
    pub id: i64,
    pub roadmap_id: i64,
    pub tech_stack_id: i64,
    pub tech_stack_name: String,
    pub position: i64,
}

#[derive(Debug, Clone)]
pub struct Quiz {
    pub id: i64,
    pub plan_id: i64,
    pub scope: String,
    pub day_id: Option<i64>,
    pub week_number: Option<i64>,
}

#[derive(Debug, Clone)]
pub struct QuizQuestion {
    pub id: i64,
    pub quiz_id: i64,
    pub question: String,
    pub options: Vec<String>,
    pub correct_index: i64,
    pub explanation: String,
}

// ---------------------------------------------------------------------------
// Mentor CLI payloads
// ---------------------------------------------------------------------------

/// A course as the CLI returns it.
#[derive(Debug, Clone)]
pub struct PlanJson {
    pub tech: String,
    pub subskills: Vec<SubskillJson>,
    pub days: Vec<DayJson>,
    pub weekly_projects: Vec<WeeklyProjectJson>,
}

#[derive(Debug, Clone)]
pub struct SubskillJson {
    pub name: String,
    pub why: String,
    pub priority: i64,
}

#[derive(Debug, Clone)]
pub struct DayJson {
    pub day: i64,
    pub week: i64,
    pub title: String,
    pub subskill: String,
    pub difficulty: i64,
    pub builds_on: Vec<String>,
    pub objectives: Vec<String>,
    pub practice_task: String,
    pub est_minutes: i64,
    pub interview_questions: Vec<InterviewQuestion>,
}

/// The difficulty a day gets when the CLI leaves it out.
pub fn default_difficulty() -> (r: i64)
    ensures
        r == 1,
{
    1
}

/// The session length a day gets when the CLI leaves it out.
pub fn default_minutes() -> (r: i64)
    ensures
        r == 60,
{
    60
}

#[derive(Debug, Clone)]
pub struct WeeklyProjectJson {
    pub week: i64,
    pub title: String,
    pub description: String,
    pub acceptance_criteria: Vec<String>,
}

#[derive(Debug, Clone)]
pub struct QuizJson {
    pub questions: Vec<QuizQuestionJson>,
}

#[derive(Debug, Clone)]
pub struct QuizQuestionJson {
    pub question: String,
    pub options: Vec<String>,
    pub correct_index: i64,
    pub explanation: String,
}

#[derive(Debug, Clone)]
pub struct VerificationJson {
    pub verdict: String,
    pub score: i64,
    pub issues: Vec<Issue>,
}

/// One skill a job posting asks for.
#[derive(Debug, Clone)]
pub struct JobSkillJson {
    pub name: String,
    pub why: String,
    pub priority: i64,
    pub must_have: bool,
}

/// What the CLI read out of a job posting.
#[derive(Debug, Clone)]
pub struct JobSpecJson {
    pub role: String,
    pub seniority: String,
    pub skills: Vec<JobSkillJson>,
}

// ---------------------------------------------------------------------------
// Empty payloads
// ---------------------------------------------------------------------------

impl Default for InterviewQuestion {
    fn default() -> (r: Self)
        ensures
            r.q@.len() == 0,
            r.key_points@.len() == 0,
    {
        InterviewQuestion { q: String::new(), key_points: Vec::new() }
    }
}

impl Default for Issue {
    fn default() -> (r: Self)
        ensures
            r.severity@.len() == 0,
            r.file@.len() == 0,
            r.line is None,
            r.issue@.len() == 0,
            r.suggestion@.len() == 0,
    {
        Issue { severity: String::new(), file: String::new(), line: None, issue: String::new(), suggestion: String::new() }
    }
}

impl Default for PlanJson {
    fn default() -> (r: Self)
        ensures
            r.tech@.len() == 0,
            r.subskills@.len() == 0,
            r.days@.len() == 0,
            r.weekly_projects@.len() == 0,
    {
        PlanJson { tech: String::new(), subskills: Vec::new(), days: Vec::new(), weekly_projects: Vec::new() }
    }
}

impl Default for SubskillJson {
    fn default() -> (r: Self)
        ensures
            r.name@.len() == 0,
            r.why@.len() == 0,
            r.priority == 0,
    {
        SubskillJson { name: String::new(), why: String::new(), priority: 0 }
    }
}

impl Default for DayJson {
    fn default() -> (r: Self)
        ensures
            r.day == 0,
            r.week == 0,
            r.title@.len() == 0,
            r.subskill@.len() == 0,
            r.difficulty == 0,
            r.builds_on@.len() == 0,
            r.objectives@.len() == 0,
            r.practice_task@.len() == 0,
            r.est_minutes == 0,
            r.interview_questions@.len() == 0,
    {
        DayJson {
            day: 0,
            week: 0,
            title: String::new(),
            subskill: String::new(),
            difficulty: 0,
            builds_on: Vec::new(),
            objectives: Vec::new(),
            practice_task: String::new(),
            est_minutes: 0,
            interview_questions: Vec::new(),
        }
    }
}

impl Default for WeeklyProjectJson {
    fn default() -> (r: Self)
        ensures
            r.week == 0,
            r.title@.len() == 0,
            r.description@.len() == 0,
            r.acceptance_criteria@.len() == 0,
    {
        WeeklyProjectJson { week: 0, title: String::new(), description: String::new(), acceptance_criteria: Vec::new() }
    }
}

impl Default for QuizJson {
    fn default() -> (r: Self)
        ensures
            r.questions@.len() == 0,
    {
        QuizJson { questions: Vec::new() }
    }
}

impl Default for QuizQuestionJson {
    fn default() -> (r: Self)
        ensures
            r.question@.len() == 0,
            r.options@.len() == 0,
            r.correct_index == 0,
            r.explanation@.len() == 0,
    {
        QuizQuestionJson { question: String::new(), options: Vec::new(), correct_index: 0, explanation: String::new() }
    }
}

impl Default for VerificationJson {
    fn default() -> (r: Self)
        ensures
            r.verdict@.len() == 0,
            r.score == 0,
            r.issues@.len() == 0,
    {
        VerificationJson { verdict: String::new(), score: 0, issues: Vec::new() }
    }
}

impl Default for JobSkillJson {
    fn default() -> (r: Self)
        ensures
            r.name@.len() == 0,
            r.why@.len() == 0,
            r.priority == 0,
            !r.must_have,
    {
        JobSkillJson { name: String::new(), why: String::new(), priority: 0, must_have: false }
    }
}

impl Default for JobSpecJson {
    fn default() -> (r: Self)
        ensures
            r.role@.len() == 0,
            r.seniority@.len() == 0,
            r.skills@.len() == 0,
    {
        JobSpecJson { role: String::new(), seniority: String::new(), skills: Vec::new() }
    }
}

/// How far one subject's course has got: days done out of days planned, and
/// minutes logged against its target hours.
#[derive(Debug, Clone)]
pub struct SubjectProgress {
    pub name: String,
    pub days_done: i64,
    pub days_total: i64,
    pub logged_minutes: i64,
    pub target_hours: i64,
}

// ---------------------------------------------------------------------------
// Seed catalogue
// ---------------------------------------------------------------------------

/// How many subjects the built-in catalogue holds.
pub const CATALOGUE_SIZE: usize = 29;

/// The built-in subject catalogue, category by category: entry `k` is a
/// category and one subject in it. Custom subjects fall under "Custom".
pub open spec fn catalogue_entry(k: int) -> (Seq<char>, Seq<char>) {
    if k == 0 {
        ("Backend"@, "Java"@)
    } else if k == 1 {
        ("Backend"@, "Spring Boot"@)
    } else if k == 2 {
        ("Backend"@, "Spring Security"@)
    } else if k == 3 {
        ("Backend"@, "Hibernate / JPA"@)
    } else if k == 4 {
        ("Backend"@, ".NET / C#"@)
    } else if k == 5 {
        ("Backend"@, "Node.js"@)
    } else if k == 6 {
        ("Backend"@, "FastAPI"@)
    } else if k == 7 {
        ("Database"@, "MySQL"@)
    } else if k == 8 {
        ("Database"@, "PostgreSQL"@)
    } else if k == 9 {
        ("Database"@, "Redis"@)
    } else if k == 10 {
        ("Database"@, "MongoDB"@)
    } else if k == 11 {
        ("Frontend"@, "HTML & CSS"@)
    } else if k == 12 {
        ("Frontend"@, "JavaScript"@)
    } else if k == 13 {
        ("Frontend"@, "TypeScript"@)
    } else if k == 14 {
        ("Frontend"@, "React"@)
    } else if k == 15 {
        ("Frontend"@, "Angular"@)
    } else if k == 16 {
        ("Frontend"@, "Tailwind CSS"@)
    } else if k == 17 {
        ("DevOps"@, "Git"@)
    } else if k == 18 {
        ("DevOps"@, "Docker"@)
    } else if k == 19 {
        ("DevOps"@, "Kubernetes"@)
    } else if k == 20 {
        ("DevOps"@, "CI/CD (GitHub Actions)"@)
    } else if k == 21 {
        ("DevOps"@, "Linux"@)
    } else if k == 22 {
        ("DevOps"@, "Terraform"@)
    } else if k == 23 {
        ("Cloud"@, "AWS"@)
    } else if k == 24 {
        ("Cloud"@, "Azure"@)
    } else if k == 25 {
        ("Cloud"@, "GCP"@)
    } else if k == 26 {
        ("Foundations"@, "Data Structures & Algorithms"@)
    } else if k == 27 {
        ("Foundations"@, "System Design"@)
    } else if k == 28 {
        ("Foundations"@, "Kafka"@)
    } else {
        (seq![], seq![])
    }
}

/// Entry `k` of the built-in catalogue: its category and its subject.
pub fn catalogue_at(k: usize) -> (r: (&'static str, &'static str))
    requires
        k < CATALOGUE_SIZE,
    ensures
        r.0@ == catalogue_entry(k as int).0,
        r.1@ == catalogue_entry(k as int).1,
{
    match k {
        0 => ("Backend", "Java"),
        1 => ("Backend", "Spring Boot"),
        2 => ("Backend", "Spring Security"),
        3 => ("Backend", "Hibernate / JPA"),
        4 => ("Backend", ".NET / C#"),
        5 => ("Backend", "Node.js"),
        6 => ("Backend", "FastAPI"),
        7 => ("Database", "MySQL"),
        8 => ("Database", "PostgreSQL"),
        9 => ("Database", "Redis"),
        10 => ("Database", "MongoDB"),
        11 => ("Frontend", "HTML & CSS"),
        12 => ("Frontend", "JavaScript"),
        13 => ("Frontend", "TypeScript"),
        14 => ("Frontend", "React"),
        15 => ("Frontend", "Angular"),
        16 => ("Frontend", "Tailwind CSS"),
        17 => ("DevOps", "Git"),
        18 => ("DevOps", "Docker"),
        19 => ("DevOps", "Kubernetes"),
        20 => ("DevOps", "CI/CD (GitHub Actions)"),
        21 => ("DevOps", "Linux"),
        22 => ("DevOps", "Terraform"),
        23 => ("Cloud", "AWS"),
        24 => ("Cloud", "Azure"),
        25 => ("Cloud", "GCP"),
        26 => ("Foundations", "Data Structures & Algorithms"),
        27 => ("Foundations", "System Design"),
        _ => ("Foundations", "Kafka"),
    }
}

/// The catalogue's subjects, in catalogue order.
pub fn catalogue_subjects() -> (r: Vec<String>)
    ensures
        r.len() == CATALOGUE_SIZE,
        forall|k: int| 0 <= k < CATALOGUE_SIZE ==> #[trigger] r@[k]@ == catalogue_entry(k).1,
{
    let mut out: Vec<String> = Vec::new();
    let mut k: usize = 0;
    while k < CATALOGUE_SIZE
        invariant
            k <= CATALOGUE_SIZE,
            out.len() == k,
            forall|j: int| 0 <= j < k ==> #[trigger] out@[j]@ == catalogue_entry(j).1,
        decreases CATALOGUE_SIZE - k,
    {
        let (_, name) = catalogue_at(k);
        out.push(crate::text::owned(name));
        k = k + 1;
    }
    out
}

pub const PRESET_ROADMAP_NAME: &'static str = "Full-Stack Java Spring Boot Developer";

/// How many subjects the preset roadmap holds.
pub const PRESET_ROADMAP_SIZE: usize = 15;

/// The preset roadmap's subjects, in track order.
pub open spec fn preset_roadmap() -> Seq<Seq<char>> {
    seq![
        "Java"@, "Data Structures & Algorithms"@, "Spring Boot"@, "Hibernate / JPA"@, "MySQL"@,
        "Spring Security"@, "React"@, "TypeScript"@, "HTML & CSS"@, "Git"@, "Docker"@,
        "CI/CD (GitHub Actions)"@, "Kubernetes"@, "AWS"@, "System Design"@,
    ]
}

/// Subject `k` of the preset roadmap, in track order.
pub fn preset_roadmap_at(k: usize) -> (r: &'static str)
    requires
        k < PRESET_ROADMAP_SIZE,
    ensures
        r@ == preset_roadmap()[k as int],
{
    match k {
        0 => "Java",
        1 => "Data Structures & Algorithms",
        2 => "Spring Boot",
        3 => "Hibernate / JPA",
        4 => "MySQL",
        5 => "Spring Security",
        6 => "React",
        7 => "TypeScript",
        8 => "HTML & CSS",
        9 => "Git",
        10 => "Docker",
        11 => "CI/CD (GitHub Actions)",
        12 => "Kubernetes",
        13 => "AWS",
        _ => "System Design",
    }
}

/// The category a subject falls under: that of its first catalogue entry, or
/// "Custom" when it is not in the catalogue.
pub open spec fn category(name: Seq<char>) -> Seq<char> {
    if exists|k: int| 0 <= k < CATALOGUE_SIZE && catalogue_entry(k).1 == name {
        catalogue_entry(choose|k: int| 0 <= k < CATALOGUE_SIZE && catalogue_entry(k).1 == name
            && forall|j: int| 0 <= j < k ==> catalogue_entry(j).1 != name).0
    } else {
        "Custom"@
    }
}

/// Category for a subject name; "Custom" when it is not in the catalogue.
pub fn category_of(name: &str) -> (r: &'static str)
    ensures
        r@ == category(name@),
{
    let want = chars_of(name);
    let mut k: usize = 0;
    while k < CATALOGUE_SIZE
        invariant
            k <= CATALOGUE_SIZE,
            want@ == name@,
            forall|j: int| 0 <= j < k ==> catalogue_entry(j).1 != name@,
        decreases CATALOGUE_SIZE - k,
    {
        let (cat, subject) = catalogue_at(k);
        if same_chars(&chars_of(subject), &want) {
            proof {
                let c = choose|c: int| 0 <= c < CATALOGUE_SIZE && catalogue_entry(c).1 == name@
                    && forall|j: int| 0 <= j < c ==> catalogue_entry(j).1 != name@;
                if c < k {
                    assert(catalogue_entry(c).1 != name@);
                } else if c > k {
                    assert(catalogue_entry(k as int).1 != name@);
                }
            }
            return cat;
        }
        k = k + 1;
    }
    "Custom"
}

/// How many categories there are, "Custom" last.
pub const CATEGORY_COUNT: usize = 7;

/// The categories in display order, "Custom" last.
pub open spec fn category_order() -> Seq<Seq<char>> {
    seq!["Backend"@, "Database"@, "Frontend"@, "DevOps"@, "Cloud"@, "Foundations"@, "Custom"@]
}

/// Category `k` in display order.
pub fn category_order_at(k: usize) -> (r: &'static str)
    requires
        k < CATEGORY_COUNT,
    ensures
        r@ == category_order()[k as int],
{
    match k {
        0 => "Backend",
        1 => "Database",
        2 => "Frontend",
        3 => "DevOps",
        4 => "Cloud",
        5 => "Foundations",
        _ => "Custom",
    }
}

} // verus!
