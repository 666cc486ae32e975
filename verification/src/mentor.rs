//! The mentor CLI's side of the app: the prompts it is sent, pulling JSON out
//! of what it answers, and the 20-hour-rule complexity ramp.

use vstd::prelude::*;
use vstd::string::StrSliceExecFns;
use crate::text::{
    chars_of, decimal, int_text, join, join_strings, names, owned, push_str, replace, replaced,
    string_of, trim_chars, trimmed, split_words, seqs, words, concat, brace_free, is_placeholder,
    flat, filled, lemma_decimal_brace_free, lemma_replaced_pieces, lemma_concat_brace_free,
    lemma_join_brace_free, lemma_trimmed_brace_free, lemma_flat_append,
};
use crate::models::{Day, DayJson, InterviewQuestion, WeeklyProjectJson, PlanJson};

verus! {

broadcast use vstd::string::group_string_axioms;

// ---------------------------------------------------------------------------
// Course length
// ---------------------------------------------------------------------------

/// Integer division that rounds toward zero, as Rust's `/` does.
pub open spec fn div_toward_zero(a: int, b: int) -> int {
    if a >= 0 {
        a / b
    } else {
        -((-a) / b)
    }
}

/// The session length actually used: at least one minute.
pub open spec fn session_minutes(minutes_per_day: int) -> int {
    if minutes_per_day < 1 {
        1
    } else {
        minutes_per_day
    }
}

/// Days in a plan: ceil(target_hours * 60 / minutes_per_day), with sessions
/// of at least one minute.
pub open spec fn days_in_plan(target_hours: int, minutes_per_day: int) -> int {
    let per_day = session_minutes(minutes_per_day);
    div_toward_zero(target_hours * 60 + per_day - 1, per_day)
}

/// Days in a plan: ceil(target_hours * 60 / minutes_per_day).
pub fn day_count(target_hours: i64, minutes_per_day: i64) -> (r: i64)
    requires
        i64::MIN <= target_hours * 60,
        target_hours * 60 + session_minutes(minutes_per_day as int) <= i64::MAX,
    ensures
        r == days_in_plan(target_hours as int, minutes_per_day as int),
{
    let per_day = if minutes_per_day < 1 { 1 } else { minutes_per_day };
    (target_hours * 60 + per_day - 1) / per_day
}


/// For a non-negative target, the day count is the least number of sessions
/// that cover the target: enough days to reach `target_hours * 60` minutes,
/// and one day fewer would fall short (a session under a minute counts as one).
pub proof fn lemma_day_count_is_ceiling(target_hours: int, minutes_per_day: int)
    requires
        target_hours >= 0,
    ensures
        ({
            let per_day = session_minutes(minutes_per_day);
            let days = days_in_plan(target_hours, minutes_per_day);
            &&& days * per_day >= target_hours * 60
            &&& (days - 1) * per_day < target_hours * 60
        }),
{
    let p = session_minutes(minutes_per_day);
    let x = target_hours * 60;
    let q = (x + p - 1) / p;
    let rem = (x + p - 1) % p;
    assert(p >= 1);
    assert(x + p - 1 == q * p + rem && 0 <= rem < p) by (nonlinear_arith)
        requires
            p >= 1,
            q == (x + p - 1) / p,
            rem == (x + p - 1) % p,
    ;
    assert(q * p >= x && (q - 1) * p < x) by (nonlinear_arith)
        requires
            x + p - 1 == q * p + rem,
            0 <= rem < p,
    ;
}

// ---------------------------------------------------------------------------
// JSON extraction
// ---------------------------------------------------------------------------

/// Where a scan for a balanced object stands: brace depth, whether it is
/// inside a string literal, and whether the previous character was a backslash
/// inside one.
pub open spec fn scan_step(st: (int, bool, bool), c: char) -> (int, bool, bool) {
    let (depth, in_string, escaped) = st;
    if in_string {
        if escaped {
            (depth, true, false)
        } else if c == '\\' {
            (depth, true, true)
        } else if c == '"' {
            (depth, false, false)
        } else {
            (depth, true, false)
        }
    } else if c == '"' {
        (depth, true, escaped)
    } else if c == '{' {
        (depth + 1, false, escaped)
    } else if c == '}' {
        (depth - 1, false, escaped)
    } else {
        st
    }
}

/// The scan state after reading `s[start..i]`.
pub open spec fn scan_state(s: Seq<char>, start: int, i: int) -> (int, bool, bool)
    decreases i - start,
{
    if i <= start {
        (0, false, false)
    } else {
        scan_step(scan_state(s, start, i - 1), s[i - 1])
    }
}

/// The character at `i` closes the object opened at `start`: a `}` outside
/// any string that brings the depth back to zero.
pub open spec fn closes_at(s: Seq<char>, start: int, i: int) -> bool {
    &&& start <= i < s.len()
    &&& !scan_state(s, start, i).1
    &&& s[i] == '}'
    &&& scan_state(s, start, i).0 == 1
}

/// `i` is the first position from `start` on where the object closes.
pub open spec fn first_close(s: Seq<char>, start: int, i: int) -> bool {
    closes_at(s, start, i) && forall|j: int| start <= j < i ==> !#[trigger] closes_at(s, start, j)
}

/// One past the `}` that closes the object opened at `start`, if it closes.
pub open spec fn object_end(s: Seq<char>, start: int) -> Option<int> {
    if exists|i: int| first_close(s, start, i) {
        Some((choose|i: int| first_close(s, start, i)) + 1)
    } else {
        None
    }
}

/// `i` is the first `{` at or after `from`.
pub open spec fn first_brace(s: Seq<char>, from: int, i: int) -> bool {
    &&& from <= i < s.len()
    &&& s[i] == '{'
    &&& forall|j: int| from <= j < i ==> #[trigger] s[j] != '{'
}

/// A `{` at `p` opens an object that closes later in `s` (braces inside
/// string literals not counting).
pub open spec fn balanced_at(s: Seq<char>, p: int) -> bool {
    &&& 0 <= p < s.len()
    &&& s[p] == '{'
    &&& object_end(s, p) is Some
}

/// `p` is the first `{` of `s` whose object closes: every `{` before it is
/// left open to the end of the text.
pub open spec fn first_balanced(s: Seq<char>, p: int) -> bool {
    balanced_at(s, p) && forall|q: int| 0 <= q < p ==> !#[trigger] balanced_at(s, q)
}

/// The first balanced JSON object in `s`: from the first `{` whose object
/// closes to the `}` that closes it. A `{` that never closes (in prose before
/// the object) is passed over.
pub open spec fn first_object(s: Seq<char>) -> Option<Seq<char>> {
    if exists|p: int| first_balanced(s, p) {
        let p = choose|p: int| first_balanced(s, p);
        Some(s.subrange(p, object_end(s, p)->0))
    } else {
        None
    }
}

proof fn lemma_first_balanced_unique(s: Seq<char>, p: int, q: int)
    requires
        first_balanced(s, p),
        first_balanced(s, q),
    ensures
        p == q,
{
    if p < q {
        assert(!balanced_at(s, p));
    } else if q < p {
        assert(!balanced_at(s, q));
    }
}

proof fn lemma_first_close_unique(s: Seq<char>, start: int, i: int, k: int)
    requires
        first_close(s, start, i),
        first_close(s, start, k),
    ensures
        i == k,
{
    if i < k {
        assert(!closes_at(s, start, i));
    } else if k < i {
        assert(!closes_at(s, start, k));
    }
}

proof fn lemma_first_brace_unique(s: Seq<char>, from: int, i: int, k: int)
    requires
        first_brace(s, from, i),
        first_brace(s, from, k),
    ensures
        i == k,
{
    if i < k {
        assert(s[i] != '{');
    } else if k < i {
        assert(s[k] != '{');
    }
}

/// The first `{` at or after `from`.
fn find_brace(s: &Vec<char>, from: usize) -> (r: Option<usize>)
    ensures
        match r {
            Some(i) => first_brace(s@, from as int, i as int),
            None => (!exists|i: int| first_brace(s@, from as int, i))
                && (forall|i: int| from <= i < s@.len() ==> #[trigger] s@[i] != '{'),
        },
{
    let mut i = from;
    while i < s.len()
        invariant
            from <= i,
            forall|j: int| from <= j < i ==> #[trigger] s@[j] != '{',
        decreases s.len() - i,
    {
        if s[i] == '{' {
            return Some(i);
        }
        i = i + 1;
    }
    proof {
        if exists|k: int| first_brace(s@, from as int, k) {
            let k = choose|k: int| first_brace(s@, from as int, k);
            assert(s@[k] != '{');
        }
    }
    None
}

/// One past the `}` that closes the object opened at `start`.
fn close_object(s: &Vec<char>, start: usize) -> (r: Option<usize>)
    requires
        start < s.len(),
        s@[start as int] == '{',
    ensures
        match r {
            Some(end) => object_end(s@, start as int) == Some(end as int) && start < end <= s.len(),
            None => object_end(s@, start as int) is None,
        },
{
    let mut depth: usize = 0;
    let mut in_string = false;
    let mut escaped = false;
    let mut i = start;
    while i < s.len()
        invariant
            start <= i <= s.len(),
            s.len() <= usize::MAX,
            (depth as int, in_string, escaped) == scan_state(s@, start as int, i as int),
            depth <= i - start,
            i > start ==> depth >= 1,
            s@[start as int] == '{',
            forall|j: int| start <= j < i ==> !#[trigger] closes_at(s@, start as int, j),
        decreases s.len() - i,
    {
        let c = s[i];
        let ghost before = (depth as int, in_string, escaped);
        assert(scan_state(s@, start as int, i + 1) == scan_step(before, c));
        if in_string {
            if escaped {
                escaped = false;
            } else if c == '\\' {
                escaped = true;
            } else if c == '"' {
                in_string = false;
            }
        } else if c == '"' {
            in_string = true;
        } else if c == '{' {
            depth = depth + 1;
        } else if c == '}' {
            if depth == 1 {
                proof {
                    assert(closes_at(s@, start as int, i as int));
                    assert(first_close(s@, start as int, i as int));
                    let k = choose|k: int| first_close(s@, start as int, k);
                    lemma_first_close_unique(s@, start as int, i as int, k);
                }
                return Some(i + 1);
            }
            depth = depth - 1;
        }
        i = i + 1;
    }
    proof {
        if exists|k: int| first_close(s@, start as int, k) {
            let k = choose|k: int| first_close(s@, start as int, k);
            assert(!closes_at(s@, start as int, k));
        }
    }
    None
}

/// Pull the first balanced JSON object out of a CLI response, tolerating
/// ```json fences and surrounding prose (a `{` in the prose that never closes
/// is passed over).
pub fn extract_json(raw: &str) -> (r: Option<&str>)
    ensures
        match r {
            Some(t) => first_object(raw@) == Some(t@),
            None => first_object(raw@) is None,
        },
{
    let s = chars_of(raw);
    let mut from: usize = 0;
    while from < s.len()
        invariant
            s@ == raw@,
            forall|q: int| 0 <= q < from ==> !#[trigger] balanced_at(s@, q),
        decreases s.len() - from,
    {
        let start = match find_brace(&s, from) {
            Some(i) => i,
            None => {
                proof {
                    assert forall|q: int| 0 <= q < s@.len() implies !#[trigger] balanced_at(s@, q) by {
                        if q >= from {
                            assert(s@[q] != '{');
                        }
                    }
                }
                return None;
            },
        };
        proof {
            assert forall|q: int| 0 <= q < start implies !#[trigger] balanced_at(s@, q) by {
                if q >= from {
                    assert(s@[q] != '{');
                }
            }
        }
        match close_object(&s, start) {
            Some(end) => {
                proof {
                    assert(first_balanced(s@, start as int));
                    let p = choose|p: int| first_balanced(s@, p);
                    lemma_first_balanced_unique(s@, start as int, p);
                }
                return Some(raw.substring_char(start, end));
            },
            None => {
                from = start + 1;
            },
        }
    }
    proof {
        assert(!exists|p: int| first_balanced(s@, p));
    }
    None
}

/// A closed object ends after it starts and within the text.
pub proof fn lemma_object_end_after(s: Seq<char>, start: int)
    ensures
        object_end(s, start) matches Some(e) ==> start < e <= s.len(),
{
    if exists|i: int| first_close(s, start, i) {
        let i = choose|i: int| first_close(s, start, i);
        assert(closes_at(s, start, i));
    }
}

/// The last balanced object in `s`, scanning from `from` with `best` the last
/// one found so far: each `{` found starts an object; when it closes, the scan
/// resumes after it, otherwise just after the `{`.
pub open spec fn last_object_from(s: Seq<char>, from: int, best: Option<Seq<char>>) -> Option<Seq<char>>
    decreases s.len() - from,
{
    if from < 0 || from >= s.len() {
        best
    } else if exists|i: int| first_brace(s, from, i) {
        let abs = choose|i: int| first_brace(s, from, i);
        match object_end(s, abs) {
            Some(end) => {
                proof {
                    lemma_object_end_after(s, abs);
                }
                last_object_from(s, end, Some(s.subrange(abs, end)))
            },
            None => last_object_from(s, abs + 1, best),
        }
    } else {
        best
    }
}

/// The last balanced JSON object in `s`.
pub open spec fn last_object(s: Seq<char>) -> Option<Seq<char>> {
    last_object_from(s, 0, None)
}

/// `t` is an object that opens at a `{` of `s`, runs to the `}` that closes
/// it, and after whose end no `{` of `s` opens an object that closes.
pub open spec fn ends_last(s: Seq<char>, t: Seq<char>) -> bool {
    exists|p: int| #[trigger] balanced_at(s, p) && t == s.subrange(p, object_end(s, p)->0)
        && forall|q: int| object_end(s, p)->0 <= q ==> !#[trigger] balanced_at(s, q)
}

proof fn lemma_brace_has_first(s: Seq<char>, from: int, q: int)
    requires
        from <= q < s.len(),
        s[q] == '{',
    ensures
        exists|i: int| first_brace(s, from, i),
    decreases q - from,
{
    if !first_brace(s, from, q) {
        let j = choose|j: int| from <= j < q && s[j] == '{';
        lemma_brace_has_first(s, from, j);
    }
}

proof fn lemma_last_from(s: Seq<char>, from: int, best: Option<Seq<char>>)
    requires
        from >= 0,
    ensures
        match last_object_from(s, from, best) {
            None => best is None && forall|q: int| from <= q ==> !#[trigger] balanced_at(s, q),
            Some(t) => ends_last(s, t) || (best == Some(t) && forall|q: int| from <= q ==> !#[trigger] balanced_at(s, q)),
        },
    decreases s.len() - from,
{
    if from >= s.len() {
    } else if exists|i: int| first_brace(s, from, i) {
        let abs = choose|i: int| first_brace(s, from, i);
        match object_end(s, abs) {
            Some(end) => {
                lemma_object_end_after(s, abs);
                let found = s.subrange(abs, end);
                lemma_last_from(s, end, Some(found));
                assert(balanced_at(s, abs));
                if last_object_from(s, end, Some(found)) == Some(found)
                    && forall|q: int| end <= q ==> !#[trigger] balanced_at(s, q) {
                    assert(ends_last(s, found));
                }
            },
            None => {
                lemma_last_from(s, abs + 1, best);
                assert(!balanced_at(s, abs));
                assert forall|q: int| from <= q < abs implies !#[trigger] balanced_at(s, q) by {
                    assert(s[q] != '{');
                }
            },
        }
    } else {
        assert forall|q: int| from <= q implies !#[trigger] balanced_at(s, q) by {
            if balanced_at(s, q) {
                lemma_brace_has_first(s, from, q);
            }
        }
    }
}

/// What `extract_last_json` finds opens at a `{` and closes, and no `{` after
/// its end opens an object that closes; it finds nothing exactly when no `{`
/// of the text opens an object that closes.
pub proof fn lemma_last_object_is_last(s: Seq<char>)
    ensures
        last_object(s) matches Some(t) ==> ends_last(s, t),
        last_object(s) is None <==> forall|q: int| !#[trigger] balanced_at(s, q),
{
    lemma_last_from(s, 0, None);
    if last_object(s) is None {
        assert forall|q: int| !#[trigger] balanced_at(s, q) by {
            if q < 0 {
            }
        }
    } else if forall|q: int| !#[trigger] balanced_at(s, q) {
        let t = last_object(s)->0;
        assert(ends_last(s, t));
        let p = choose|p: int| #[trigger] balanced_at(s, p) && t == s.subrange(p, object_end(s, p)->0)
            && forall|q: int| object_end(s, p)->0 <= q ==> !#[trigger] balanced_at(s, q);
        assert(balanced_at(s, p));
    }
}

/// The *last* balanced JSON object in a response: the verification prompt asks
/// for a trailing JSON block after the human-readable report.
pub fn extract_last_json(raw: &str) -> (r: Option<&str>)
    ensures
        match r {
            Some(t) => last_object(raw@) == Some(t@),
            None => last_object(raw@) is None,
        },
{
    let s = chars_of(raw);
    let mut best: Option<(usize, usize)> = None;
    let mut from: usize = 0;
    loop
        invariant
            s@ == raw@,
            from <= s.len() || s.len() == 0,
            match best {
                Some((a, e)) => a < e <= s.len(),
                None => true,
            },
            last_object(s@) == last_object_from(
                s@,
                from as int,
                match best {
                    Some((a, e)) => Some(s@.subrange(a as int, e as int)),
                    None => None,
                },
            ),
        ensures
            match best {
                Some((a, e)) => a < e <= s.len() && last_object(s@) == Some(s@.subrange(a as int, e as int)),
                None => last_object(s@) is None,
            },
        decreases s.len() - from,
    {
        if from >= s.len() {
            break;
        }
        let ghost prev = match best {
            Some((a, e)) => Some(s@.subrange(a as int, e as int)),
            None => None,
        };
        let abs = match find_brace(&s, from) {
            Some(i) => i,
            None => break,
        };
        proof {
            let k = choose|k: int| first_brace(s@, from as int, k);
            lemma_first_brace_unique(s@, from as int, abs as int, k);
        }
        match close_object(&s, abs) {
            Some(end) => {
                best = Some((abs, end));
                from = end;
            },
            None => {
                from = abs + 1;
            },
        }
    }
    match best {
        Some((a, e)) => Some(raw.substring_char(a, e)),
        None => None,
    }
}


// ---------------------------------------------------------------------------
// Prompts
// ---------------------------------------------------------------------------

pub const PLAN_PROMPT: &'static str = r#"You are a technical mentor applying Josh Kaufman's "The First 20 Hours" method, training the learner to be hands-on and interview-ready in {TECH}. Deconstruct {TECH} into the highest-leverage subskills (the 20% that delivers 80% of real-world capability), then sequence them into a day-by-day plan of {MINUTES_PER_DAY}-minute sessions totaling {TARGET_HOURS} hours ({DAY_COUNT} days), grouped into 7-day weeks, each week ending in an applied project.

{PRIOR_SUBJECTS}

{TARGET_ROLE}

Hard requirements: (1) "difficulty" (1-5) must be non-decreasing day over day - start foundational, end at interview/systems level. Week 1 = foundation (1-2), week 2 = applied/integration (2-3), week 3 = advanced/edge-cases (4), final days = interview-grade/systems (5). (2) From Week 2 onward each day must reuse earlier subskills - list them in "builds_on" - so complexity compounds instead of resetting. (3) Every day's "practice_task" is a concrete coding/build task, never "read about X". (4) Every day includes 2-4 realistic "interview_questions" with the key points of a strong answer. (5) Weekly projects grow in scope week over week.

Output ONLY valid JSON matching this schema, nothing else:
{
  "tech": string,
  "target_hours": number,
  "minutes_per_day": number,
  "subskills": [{ "name": string, "why": string, "priority": number }],
  "days": [{ "day": number, "week": number, "title": string, "subskill": string,
            "difficulty": number, "builds_on": [string],
            "objectives": [string], "practice_task": string, "est_minutes": number,
            "interview_questions": [{ "q": string, "key_points": [string] }] }],
  "weekly_projects": [{ "week": number, "title": string, "description": string,
                        "acceptance_criteria": [string] }]
}"#;

pub const JOB_PROMPT: &'static str = r#"Read this job posting and work out what somebody would have to learn to be hired for it.

Output ONLY valid JSON matching this schema, nothing else:
{
  "role": string,
  "seniority": string,
  "skills": [ { "name": string, "why": string, "priority": number, "must_have": boolean } ]
}

Rules: "role" is the job title, normalised (e.g. "Java Backend Developer"). "seniority" is one of intern, junior, mid, senior. Each "name" is the bare technology or subject on its own - "Spring Boot", never "strong Spring Boot experience". Order "skills" in the order they should be learned: foundations first, then what depends on them; "priority" counts up from 1 in that same order. Set "must_have" true only where the posting treats the skill as required rather than nice to have. Return at most 12 skills - the ones that actually decide whether somebody gets this job. "why" is one line on what the role uses it for.

The posting follows.
---
{JOB_DESCRIPTION}"#;

pub const DAY_PROMPT: &'static str = r#"You are a technical mentor training a hands-on, interview-ready engineer. Write a focused {EST_MINUTES}-minute code-first lesson in Markdown for Day {DAY} of learning {TECH} at difficulty {DIFFICULTY}/5. Subskill: "{SUBSKILL}". This day builds on: {BUILDS_ON} - assume the learner already knows those and go deeper; do not re-teach basics already covered. Objectives: {OBJECTIVES}.

Structure: (1) concept in brief, (2) a substantial worked example with real code at this difficulty, (3) common pitfalls and edge cases, (4) the hands-on task to complete: "{PRACTICE_TASK}", (5) an "Interview check" section with these questions and strong-answer key points: {INTERVIEW_QUESTIONS}.

Match the depth to difficulty {DIFFICULTY} - higher means more edge cases, performance, trade-offs, and system-level reasoning. Return Markdown only."#;

pub const QUIZ_PROMPT: &'static str = r#"Generate a {N}-question multiple-choice recall quiz on {SCOPE_CONTENT} for {TECH}. Each question has 4 options, one correct, and a one-line explanation. Bias toward concepts a learner forgets and interviewers probe. Output ONLY JSON:
{ "questions": [ { "question": string, "options": [string,string,string,string], "correct_index": number, "explanation": string } ] }"#;

pub const VERIFY_PROMPT: &'static str = r#"You are a senior code auditor. Review this repository against what the learner just studied this week: {WEEK_SUBSKILLS} and the project requirements: {PROJECT_DESCRIPTION} / acceptance criteria: {ACCEPTANCE}.

Find real bugs, security issues, bad practices, and gaps vs. the acceptance criteria. Give concrete, actionable suggested changes referencing files/lines where possible. Write the review as Markdown.

End your answer with a single JSON block and nothing after it:
{"verdict":"pass|needs_work|fail","score":0-100,"issues":[{"severity":"high|med|low","file":string,"line":number,"issue":string,"suggestion":string}]}"#;

pub const NO_ROLE: &'static str = "The learner has not named a target role, so aim at general professional competence and the interviews that go with it.";
pub const ROLE_LEAD: &'static str = "The learner is training to be hired as: ";
pub const ROLE_TAIL: &'static str = ". Choose the subskills, the weekly projects and the interview questions that this role is actually hired to do - what a real interview for it would probe, and what the job would have them build in their first months. Skip anything that would not come up.";
pub const FIRST_SUBJECT: &'static str = "This is the first subject on the learner's track, so assume no ground has been covered yet.";
pub const PRIOR_LEAD: &'static str = "The learner has already worked through these subjects on the same track, in this order: ";
pub const PRIOR_MID: &'static str = ". Treat that as known ground - build directly on it, say explicitly where ";
pub const PRIOR_TAIL: &'static str = " extends or depends on it, and do not spend days re-teaching it.";

/// The paragraph naming the job being trained for.
pub open spec fn role_paragraph(role: Seq<char>) -> Seq<char> {
    if trimmed(role).len() == 0 {
        NO_ROLE@
    } else {
        ROLE_LEAD@ + trimmed(role) + ROLE_TAIL@
    }
}

/// The paragraph naming the subjects already cleared on the track.
pub open spec fn prior_paragraph(tech: Seq<char>, builds_on: Seq<Seq<char>>) -> Seq<char> {
    if builds_on.len() == 0 {
        FIRST_SUBJECT@
    } else {
        PRIOR_LEAD@ + join(builds_on, ", "@) + PRIOR_MID@ + tech + PRIOR_TAIL@
    }
}

/// The course-generation prompt with every placeholder filled in.
pub open spec fn plan_prompt(
    tech: Seq<char>,
    target_hours: i64,
    minutes_per_day: i64,
    builds_on: Seq<Seq<char>>,
    role: Seq<char>,
) -> Seq<char> {
    let days = days_in_plan(target_hours as int, minutes_per_day as int) as i64;
    replaced(
        replaced(
            replaced(
                replaced(
                    replaced(
                        replaced(PLAN_PROMPT@, "{TECH}"@, tech),
                        "{MINUTES_PER_DAY}"@,
                        decimal(minutes_per_day),
                    ),
                    "{TARGET_HOURS}"@,
                    decimal(target_hours),
                ),
                "{DAY_COUNT}"@,
                decimal(days),
            ),
            "{PRIOR_SUBJECTS}"@,
            prior_paragraph(tech, builds_on),
        ),
        "{TARGET_ROLE}"@,
        role_paragraph(role),
    )
}

/// The text of the course prompt's opening before the subject.
pub open spec fn opening_lead() -> Seq<char> {
    r#"You are a technical mentor applying Josh Kaufman's "The First 20 Hours" method, training the learner to be hands-on and interview-ready in "#@
}

/// The text of the course prompt's opening between the subject and the
/// session length.
pub open spec fn opening_scope() -> Seq<char> {
    " into the highest-leverage subskills (the 20% that delivers 80% of real-world capability), then sequence them into a day-by-day plan of "@
}

/// The text of the course prompt between the day count and the paragraph on
/// the subjects already cleared.
pub open spec fn opening_weeks() -> Seq<char> {
    " days), grouped into 7-day weeks, each week ending in an applied project.\n\n"@
}

/// The opening of the course prompt once its subject, session length, target
/// hours and day count are filled in, followed by the paragraphs on the
/// subjects already cleared and on the role trained for.
pub open spec fn plan_opening(
    tech: Seq<char>,
    minutes_text: Seq<char>,
    hours_text: Seq<char>,
    days_text: Seq<char>,
    prior: Seq<char>,
    role: Seq<char>,
) -> Seq<char> {
    opening_lead() + tech + ". Deconstruct "@ + tech + opening_scope() + minutes_text + "-minute sessions totaling "@
        + hours_text + " hours ("@ + days_text + opening_weeks() + prior + "\n\n"@ + role
}

/// The opening of the course template, cut into its text and the six slots
/// `x1` (the subject, twice) to `x6`.
spec fn opening_pieces_with(
    x1: Seq<char>, x2: Seq<char>, x3: Seq<char>, x4: Seq<char>, x5: Seq<char>, x6: Seq<char>,
) -> Seq<Seq<char>> {
    seq![
        opening_lead(), x1, ". Deconstruct "@, x1, opening_scope(), x2,
        "-minute sessions totaling "@, x3, " hours ("@, x4, opening_weeks(), x5, "\n\n"@, x6,
    ]
}

/// The opening of the course template, its placeholders unfilled.
spec fn opening_pieces() -> Seq<Seq<char>> {
    opening_pieces_with(
        "{TECH}"@, "{MINUTES_PER_DAY}"@, "{TARGET_HOURS}"@, "{DAY_COUNT}"@, "{PRIOR_SUBJECTS}"@, "{TARGET_ROLE}"@,
    )
}

#[verifier::rlimit(30)]
proof fn lemma_opening_template()
    ensures
        flat(opening_pieces()).len() <= PLAN_PROMPT@.len(),
        PLAN_PROMPT@ == flat(opening_pieces()) + PLAN_PROMPT@.subrange(flat(opening_pieces()).len() as int, PLAN_PROMPT@.len() as int),
{
    reveal_strlit(r#"You are a technical mentor applying Josh Kaufman's "The First 20 Hours" method, training the learner to be hands-on and interview-ready in "#);
    reveal_strlit(". Deconstruct ");
    reveal_strlit(" into the highest-leverage subskills (the 20% that delivers 80% of real-world capability), then sequence them into a day-by-day plan of ");
    reveal_strlit("-minute sessions totaling ");
    reveal_strlit(" hours (");
    reveal_strlit(" days), grouped into 7-day weeks, each week ending in an applied project.\n\n");
    reveal_strlit("\n\n");
    reveal_strlit("{TECH}");
    reveal_strlit("{MINUTES_PER_DAY}");
    reveal_strlit("{TARGET_HOURS}");
    reveal_strlit("{DAY_COUNT}");
    reveal_strlit("{PRIOR_SUBJECTS}");
    reveal_strlit("{TARGET_ROLE}");
    reveal_strlit(r#"You are a technical mentor applying Josh Kaufman's "The First 20 Hours" method, training the learner to be hands-on and interview-ready in {TECH}. Deconstruct {TECH} into the highest-leverage subskills (the 20% that delivers 80% of real-world capability), then sequence them into a day-by-day plan of {MINUTES_PER_DAY}-minute sessions totaling {TARGET_HOURS} hours ({DAY_COUNT} days), grouped into 7-day weeks, each week ending in an applied project.

{PRIOR_SUBJECTS}

{TARGET_ROLE}

Hard requirements: (1) "difficulty" (1-5) must be non-decreasing day over day - start foundational, end at interview/systems level. Week 1 = foundation (1-2), week 2 = applied/integration (2-3), week 3 = advanced/edge-cases (4), final days = interview-grade/systems (5). (2) From Week 2 onward each day must reuse earlier subskills - list them in "builds_on" - so complexity compounds instead of resetting. (3) Every day's "practice_task" is a concrete coding/build task, never "read about X". (4) Every day includes 2-4 realistic "interview_questions" with the key points of a strong answer. (5) Weekly projects grow in scope week over week.

Output ONLY valid JSON matching this schema, nothing else:
{
  "tech": string,
  "target_hours": number,
  "minutes_per_day": number,
  "subskills": [{ "name": string, "why": string, "priority": number }],
  "days": [{ "day": number, "week": number, "title": string, "subskill": string,
            "difficulty": number, "builds_on": [string],
            "objectives": [string], "practice_task": string, "est_minutes": number,
            "interview_questions": [{ "q": string, "key_points": [string] }] }],
  "weekly_projects": [{ "week": number, "title": string, "description": string,
                        "acceptance_criteria": [string] }]
}"#);
    reveal_with_fuel(flat, 15);
    let head = flat(opening_pieces());
    let t = PLAN_PROMPT@;
    assert(head =~= opening_lead() + "{TECH}"@ + ". Deconstruct "@ + "{TECH}"@ + opening_scope() + "{MINUTES_PER_DAY}"@
        + "-minute sessions totaling "@ + "{TARGET_HOURS}"@ + " hours ("@ + "{DAY_COUNT}"@ + opening_weeks()
        + "{PRIOR_SUBJECTS}"@ + "\n\n"@ + "{TARGET_ROLE}"@);
    assert(t.subrange(0, head.len() as int) =~= head);
    assert(t =~= head + t.subrange(head.len() as int, t.len() as int));
}

proof fn lemma_opening_parts()
    ensures
        is_placeholder("{TECH}"@),
        is_placeholder("{MINUTES_PER_DAY}"@),
        is_placeholder("{TARGET_HOURS}"@),
        is_placeholder("{DAY_COUNT}"@),
        is_placeholder("{PRIOR_SUBJECTS}"@),
        is_placeholder("{TARGET_ROLE}"@),
        "{TECH}"@.len() == 6,
        "{MINUTES_PER_DAY}"@.len() == 17,
        "{TARGET_HOURS}"@.len() == 14,
        "{DAY_COUNT}"@.len() == 11,
        "{PRIOR_SUBJECTS}"@.len() == 16,
        "{TARGET_ROLE}"@.len() == 13,
        brace_free(opening_lead()),
        brace_free(". Deconstruct "@),
        brace_free(opening_scope()),
        brace_free("-minute sessions totaling "@),
        brace_free(" hours ("@),
        brace_free(opening_weeks()),
        brace_free("\n\n"@),
{
    reveal_strlit(r#"You are a technical mentor applying Josh Kaufman's "The First 20 Hours" method, training the learner to be hands-on and interview-ready in "#);
    reveal_strlit(". Deconstruct ");
    reveal_strlit(" into the highest-leverage subskills (the 20% that delivers 80% of real-world capability), then sequence them into a day-by-day plan of ");
    reveal_strlit("-minute sessions totaling ");
    reveal_strlit(" hours (");
    reveal_strlit(" days), grouped into 7-day weeks, each week ending in an applied project.\n\n");
    reveal_strlit("\n\n");
    reveal_strlit("{TECH}");
    reveal_strlit("{MINUTES_PER_DAY}");
    reveal_strlit("{TARGET_HOURS}");
    reveal_strlit("{DAY_COUNT}");
    reveal_strlit("{PRIOR_SUBJECTS}");
    reveal_strlit("{TARGET_ROLE}");
}

proof fn lemma_paragraph_texts()
    ensures
        brace_free(PRIOR_LEAD@),
        brace_free(PRIOR_MID@),
        brace_free(PRIOR_TAIL@),
        brace_free(FIRST_SUBJECT@),
        brace_free(NO_ROLE@),
        brace_free(ROLE_LEAD@),
        brace_free(ROLE_TAIL@),
        brace_free(", "@),
{
    reveal_strlit("The learner has already worked through these subjects on the same track, in this order: ");
    reveal_strlit(". Treat that as known ground - build directly on it, say explicitly where ");
    reveal_strlit(" extends or depends on it, and do not spend days re-teaching it.");
    reveal_strlit("This is the first subject on the learner's track, so assume no ground has been covered yet.");
    reveal_strlit("The learner has not named a target role, so aim at general professional competence and the interviews that go with it.");
    reveal_strlit("The learner is training to be hired as: ");
    reveal_strlit(". Choose the subskills, the weekly projects and the interview questions that this role is actually hired to do - what a real interview for it would probe, and what the job would have them build in their first months. Skip anything that would not come up.");
    reveal_strlit(", ");
}

/// The paragraphs on the subjects already cleared and on the role hold no
/// `{` when the subject, the subjects cleared and the role hold none.
proof fn lemma_paragraphs_brace_free(tech: Seq<char>, builds_on: Seq<Seq<char>>, role: Seq<char>)
    requires
        brace_free(tech),
        brace_free(role),
        forall|i: int| 0 <= i < builds_on.len() ==> brace_free(#[trigger] builds_on[i]),
    ensures
        brace_free(prior_paragraph(tech, builds_on)),
        brace_free(role_paragraph(role)),
{
    lemma_paragraph_texts();
    lemma_join_brace_free(builds_on, ", "@);
    lemma_trimmed_brace_free(role);
    lemma_concat_brace_free(PRIOR_LEAD@, join(builds_on, ", "@));
    lemma_concat_brace_free(PRIOR_LEAD@ + join(builds_on, ", "@), PRIOR_MID@);
    lemma_concat_brace_free(PRIOR_LEAD@ + join(builds_on, ", "@) + PRIOR_MID@, tech);
    lemma_concat_brace_free(PRIOR_LEAD@ + join(builds_on, ", "@) + PRIOR_MID@ + tech, PRIOR_TAIL@);
    lemma_concat_brace_free(ROLE_LEAD@, trimmed(role));
    lemma_concat_brace_free(ROLE_LEAD@ + trimmed(role), ROLE_TAIL@);
}

#[verifier::rlimit(30)]
proof fn lemma_opening_flat(
    x1: Seq<char>, x2: Seq<char>, x3: Seq<char>, x4: Seq<char>, x5: Seq<char>, x6: Seq<char>,
)
    ensures
        flat(opening_pieces_with(x1, x2, x3, x4, x5, x6)) == plan_opening(x1, x2, x3, x4, x5, x6),
{
    let front = seq![opening_lead(), x1, ". Deconstruct "@, x1, opening_scope(), x2, "-minute sessions totaling "@];
    let back = seq![x3, " hours ("@, x4, opening_weeks(), x5, "\n\n"@, x6];
    assert(opening_pieces_with(x1, x2, x3, x4, x5, x6) =~= front + back);
    lemma_flat_append(front, back);
    reveal_with_fuel(flat, 8);
    assert(flat(front) =~= opening_lead() + x1 + ". Deconstruct "@ + x1 + opening_scope() + x2 + "-minute sessions totaling "@);
    assert(flat(back) =~= x3 + " hours ("@ + x4 + opening_weeks() + x5 + "\n\n"@ + x6);
    assert(flat(front) + flat(back) =~= plan_opening(x1, x2, x3, x4, x5, x6));
}

proof fn lemma_free_not_placeholder(x: Seq<char>, p: Seq<char>)
    requires
        brace_free(x),
        is_placeholder(p),
    ensures
        x != p,
{
    if x == p {
        assert(x[0] == '{');
    }
}

/// Filling placeholder `f` with `v` in the opening: each slot holding `f`
/// takes `v`, the rest stay, and the replacement goes on after the opening.
proof fn lemma_opening_fill(
    x1: Seq<char>, x2: Seq<char>, x3: Seq<char>, x4: Seq<char>, x5: Seq<char>, x6: Seq<char>,
    f: Seq<char>, v: Seq<char>, r: Seq<char>,
)
    requires
        is_placeholder(f),
        brace_free(x1) || is_placeholder(x1),
        brace_free(x2) || is_placeholder(x2),
        brace_free(x3) || is_placeholder(x3),
        brace_free(x4) || is_placeholder(x4),
        brace_free(x5) || is_placeholder(x5),
        brace_free(x6) || is_placeholder(x6),
    ensures
        replaced(flat(opening_pieces_with(x1, x2, x3, x4, x5, x6)) + r, f, v) == flat(opening_pieces_with(
            filled(x1, f, v), filled(x2, f, v), filled(x3, f, v), filled(x4, f, v), filled(x5, f, v),
            filled(x6, f, v),
        )) + replaced(r, f, v),
{
    lemma_opening_parts();
    let ps = opening_pieces_with(x1, x2, x3, x4, x5, x6);
    lemma_free_not_placeholder(opening_lead(), f);
    lemma_free_not_placeholder(". Deconstruct "@, f);
    lemma_free_not_placeholder(opening_scope(), f);
    lemma_free_not_placeholder("-minute sessions totaling "@, f);
    lemma_free_not_placeholder(" hours ("@, f);
    lemma_free_not_placeholder(opening_weeks(), f);
    lemma_free_not_placeholder("\n\n"@, f);
    assert forall|i: int| 0 <= i < ps.len() implies brace_free(#[trigger] ps[i]) || is_placeholder(ps[i]) by {}
    lemma_replaced_pieces(ps, r, f, v);
    assert(ps.map_values(|p: Seq<char>| filled(p, f, v)) =~= opening_pieces_with(
        filled(x1, f, v), filled(x2, f, v), filled(x3, f, v), filled(x4, f, v), filled(x5, f, v),
        filled(x6, f, v),
    ));
}

/// The course prompt opens by asking, for the subject, for sessions of the
/// given minutes totaling the target hours over the day count - the target
/// hours in the hours slot and ceil(hours * 60 / minutes) in the days slot -
/// then names the subjects already cleared (or says this is the first) and
/// the role trained for (or that none was named), whatever else it goes on to
/// say; this holds when the subject, the subjects cleared and the role hold
/// no `{`.
pub proof fn lemma_plan_prompt_opening(
    tech: Seq<char>,
    target_hours: i64,
    minutes_per_day: i64,
    builds_on: Seq<Seq<char>>,
    role: Seq<char>,
)
    requires
        brace_free(tech),
        brace_free(role),
        forall|i: int| 0 <= i < builds_on.len() ==> brace_free(#[trigger] builds_on[i]),
    ensures
        ({
            let p = plan_prompt(tech, target_hours, minutes_per_day, builds_on, role);
            let prior = if builds_on.len() == 0 {
                FIRST_SUBJECT@
            } else {
                PRIOR_LEAD@ + join(builds_on, ", "@) + PRIOR_MID@ + tech + PRIOR_TAIL@
            };
            let named = if trimmed(role).len() == 0 { NO_ROLE@ } else { ROLE_LEAD@ + trimmed(role) + ROLE_TAIL@ };
            let opening = plan_opening(
                tech,
                decimal(minutes_per_day),
                decimal(target_hours),
                decimal(days_in_plan(target_hours as int, minutes_per_day as int) as i64),
                prior,
                named,
            );
            &&& opening.len() <= p.len()
            &&& p.subrange(0, opening.len() as int) == opening
        }),
{
    let days = days_in_plan(target_hours as int, minutes_per_day as int) as i64;
    let p1 = "{TECH}"@;
    let p2 = "{MINUTES_PER_DAY}"@;
    let p3 = "{TARGET_HOURS}"@;
    let p4 = "{DAY_COUNT}"@;
    let p5 = "{PRIOR_SUBJECTS}"@;
    let p6 = "{TARGET_ROLE}"@;
    lemma_opening_template();
    lemma_opening_parts();
    lemma_decimal_brace_free(minutes_per_day);
    lemma_decimal_brace_free(target_hours);
    lemma_decimal_brace_free(days);
    lemma_paragraphs_brace_free(tech, builds_on, role);
    let vm = decimal(minutes_per_day);
    let vh = decimal(target_hours);
    let vd = decimal(days);
    let vp = prior_paragraph(tech, builds_on);
    let vr = role_paragraph(role);
    let t = PLAN_PROMPT@;
    let r0 = t.subrange(flat(opening_pieces()).len() as int, t.len() as int);
    lemma_free_not_placeholder(tech, p2);
    lemma_free_not_placeholder(tech, p3);
    lemma_free_not_placeholder(tech, p4);
    lemma_free_not_placeholder(tech, p5);
    lemma_free_not_placeholder(tech, p6);
    lemma_free_not_placeholder(vm, p3);
    lemma_free_not_placeholder(vm, p4);
    lemma_free_not_placeholder(vm, p5);
    lemma_free_not_placeholder(vm, p6);
    lemma_free_not_placeholder(vh, p4);
    lemma_free_not_placeholder(vh, p5);
    lemma_free_not_placeholder(vh, p6);
    lemma_free_not_placeholder(vd, p5);
    lemma_free_not_placeholder(vd, p6);
    lemma_free_not_placeholder(vp, p6);
    lemma_opening_fill(p1, p2, p3, p4, p5, p6, p1, tech, r0);
    let r1 = replaced(r0, p1, tech);
    lemma_opening_fill(tech, p2, p3, p4, p5, p6, p2, vm, r1);
    let r2 = replaced(r1, p2, vm);
    lemma_opening_fill(tech, vm, p3, p4, p5, p6, p3, vh, r2);
    let r3 = replaced(r2, p3, vh);
    lemma_opening_fill(tech, vm, vh, p4, p5, p6, p4, vd, r3);
    let r4 = replaced(r3, p4, vd);
    lemma_opening_fill(tech, vm, vh, vd, p5, p6, p5, vp, r4);
    let r5 = replaced(r4, p5, vp);
    lemma_opening_fill(tech, vm, vh, vd, vp, p6, p6, vr, r5);
    let r6 = replaced(r5, p6, vr);
    let opening = plan_opening(tech, vm, vh, vd, vp, vr);
    lemma_opening_flat(tech, vm, vh, vd, vp, vr);
    assert(plan_prompt(tech, target_hours, minutes_per_day, builds_on, role) == opening + r6);
    assert((opening + r6).subrange(0, opening.len() as int) =~= opening);
}

/// `builds_on` is the subjects the learner already cleared earlier on their
/// roadmap. Naming them is what keeps a track coherent: Spring Boot should
/// lean on the Java already done rather than teach it again.
pub fn prompt_plan(
    tech: &str,
    target_hours: i64,
    minutes_per_day: i64,
    builds_on: &[String],
    role: &str,
) -> (r: String)
    requires
        i64::MIN <= target_hours * 60,
        target_hours * 60 + session_minutes(minutes_per_day as int) <= i64::MAX,
    ensures
        r@ == plan_prompt(tech@, target_hours, minutes_per_day, names(builds_on@), role@),
{
    let days = day_count(target_hours, minutes_per_day);
    let role_trimmed = trim_chars(&chars_of(role));
    let target = if role_trimmed.len() == 0 {
        owned(NO_ROLE)
    } else {
        let mut t = owned(ROLE_LEAD);
        push_str(&mut t, string_of(&role_trimmed).as_str());
        push_str(&mut t, ROLE_TAIL);
        t
    };
    let prior = if builds_on.len() == 0 {
        owned(FIRST_SUBJECT)
    } else {
        let mut p = owned(PRIOR_LEAD);
        push_str(&mut p, join_strings(builds_on, ", ").as_str());
        push_str(&mut p, PRIOR_MID);
        push_str(&mut p, tech);
        push_str(&mut p, PRIOR_TAIL);
        p
    };
    let out = replace(PLAN_PROMPT, "{TECH}", tech);
    let out = replace(out.as_str(), "{MINUTES_PER_DAY}", int_text(minutes_per_day).as_str());
    let out = replace(out.as_str(), "{TARGET_HOURS}", int_text(target_hours).as_str());
    let out = replace(out.as_str(), "{DAY_COUNT}", int_text(days).as_str());
    let out = replace(out.as_str(), "{PRIOR_SUBJECTS}", prior.as_str());
    replace(out.as_str(), "{TARGET_ROLE}", target.as_str())
}

/// The job-posting prompt for a posting, trimmed.
pub open spec fn job_prompt(description: Seq<char>) -> Seq<char> {
    replaced(JOB_PROMPT@, "{JOB_DESCRIPTION}"@, trimmed(description))
}

pub fn prompt_job_skills(description: &str) -> (r: String)
    ensures
        r@ == job_prompt(description@),
{
    let trimmed_text = string_of(&trim_chars(&chars_of(description)));
    replace(JOB_PROMPT, "{JOB_DESCRIPTION}", trimmed_text.as_str())
}

/// The questions of a day, one after another.
pub open spec fn question_texts(qs: Seq<InterviewQuestion>) -> Seq<Seq<char>> {
    qs.map_values(|q: InterviewQuestion| q.q@)
}

/// `list` joined with `sep`, or `empty` when there is nothing to join.
pub open spec fn listed_or(list: Seq<Seq<char>>, sep: Seq<char>, empty: Seq<char>) -> Seq<char> {
    if list.len() == 0 {
        empty
    } else {
        join(list, sep)
    }
}

/// The lesson prompt for one day of a course.
pub open spec fn day_prompt(tech: Seq<char>, day: Day) -> Seq<char> {
    let builds_on = listed_or(names(day.builds_on@), ", "@, "(nothing yet - this is a foundation day)"@);
    let objectives = listed_or(names(day.objectives@), "; "@, "(none supplied)"@);
    let questions = listed_or(
        question_texts(day.interview_questions@),
        " | "@,
        "(generate 2-3 suitable ones)"@,
    );
    replaced(
        replaced(
            replaced(
                replaced(
                    replaced(
                        replaced(
                            replaced(
                                replaced(
                                    replaced(DAY_PROMPT@, "{EST_MINUTES}"@, decimal(day.est_minutes)),
                                    "{DAY}"@,
                                    decimal(day.day_number),
                                ),
                                "{TECH}"@,
                                tech,
                            ),
                            "{DIFFICULTY}"@,
                            decimal(day.difficulty),
                        ),
                        "{SUBSKILL}"@,
                        day.subskill@,
                    ),
                    "{BUILDS_ON}"@,
                    builds_on,
                ),
                "{OBJECTIVES}"@,
                objectives,
            ),
            "{PRACTICE_TASK}"@,
            day.practice_task@,
        ),
        "{INTERVIEW_QUESTIONS}"@,
        questions,
    )
}

pub fn prompt_day(tech: &str, day: &Day) -> (r: String)
    ensures
        r@ == day_prompt(tech@, *day),
{
    let builds_on = if day.builds_on.len() == 0 {
        owned("(nothing yet - this is a foundation day)")
    } else {
        join_strings(day.builds_on.as_slice(), ", ")
    };
    let objectives = if day.objectives.len() == 0 {
        owned("(none supplied)")
    } else {
        join_strings(day.objectives.as_slice(), "; ")
    };
    let questions = if day.interview_questions.len() == 0 {
        owned("(generate 2-3 suitable ones)")
    } else {
        let mut qs: Vec<String> = Vec::new();
        let mut i: usize = 0;
        while i < day.interview_questions.len()
            invariant
                i <= day.interview_questions.len(),
                names(qs@) =~= question_texts(day.interview_questions@).take(i as int),
            decreases day.interview_questions.len() - i,
        {
            let q = day.interview_questions[i].q.clone();
            let ghost prev = qs@;
            qs.push(q);
            assert(names(qs@) =~= names(prev).push(day.interview_questions@[i as int].q@));
            i = i + 1;
        }
        assert(question_texts(day.interview_questions@).take(day.interview_questions.len() as int)
            =~= question_texts(day.interview_questions@));
        join_strings(qs.as_slice(), " | ")
    };
    let out = replace(DAY_PROMPT, "{EST_MINUTES}", int_text(day.est_minutes).as_str());
    let out = replace(out.as_str(), "{DAY}", int_text(day.day_number).as_str());
    let out = replace(out.as_str(), "{TECH}", tech);
    let out = replace(out.as_str(), "{DIFFICULTY}", int_text(day.difficulty).as_str());
    let out = replace(out.as_str(), "{SUBSKILL}", day.subskill.as_str());
    let out = replace(out.as_str(), "{BUILDS_ON}", builds_on.as_str());
    let out = replace(out.as_str(), "{OBJECTIVES}", objectives.as_str());
    let out = replace(out.as_str(), "{PRACTICE_TASK}", day.practice_task.as_str());
    replace(out.as_str(), "{INTERVIEW_QUESTIONS}", questions.as_str())
}

/// The recall-quiz prompt.
pub open spec fn quiz_prompt(tech: Seq<char>, scope_content: Seq<char>, n: i64) -> Seq<char> {
    replaced(
        replaced(replaced(QUIZ_PROMPT@, "{N}"@, decimal(n)), "{SCOPE_CONTENT}"@, scope_content),
        "{TECH}"@,
        tech,
    )
}

pub fn prompt_quiz(tech: &str, scope_content: &str, n: i64) -> (r: String)
    ensures
        r@ == quiz_prompt(tech@, scope_content@, n),
{
    let out = replace(QUIZ_PROMPT, "{N}", int_text(n).as_str());
    let out = replace(out.as_str(), "{SCOPE_CONTENT}", scope_content);
    replace(out.as_str(), "{TECH}", tech)
}

/// The project-review prompt.
pub open spec fn verify_prompt(week_subskills: Seq<char>, description: Seq<char>, acceptance: Seq<char>) -> Seq<char> {
    replaced(
        replaced(replaced(VERIFY_PROMPT@, "{WEEK_SUBSKILLS}"@, week_subskills), "{PROJECT_DESCRIPTION}"@, description),
        "{ACCEPTANCE}"@,
        acceptance,
    )
}

pub fn prompt_verify(week_subskills: &str, description: &str, acceptance: &str) -> (r: String)
    ensures
        r@ == verify_prompt(week_subskills@, description@, acceptance@),
{
    let out = replace(VERIFY_PROMPT, "{WEEK_SUBSKILLS}", week_subskills);
    let out = replace(out.as_str(), "{PROJECT_DESCRIPTION}", description);
    replace(out.as_str(), "{ACCEPTANCE}", acceptance)
}


// ---------------------------------------------------------------------------
// Complexity ramp enforcement
// ---------------------------------------------------------------------------

/// A day with its difficulty clamped to 1..=5 and a non-positive session
/// length replaced by an hour.
pub open spec fn clamped_day(d: DayJson) -> DayJson {
    DayJson {
        difficulty: if d.difficulty < 1 {
            1
        } else if d.difficulty > 5 {
            5
        } else {
            d.difficulty
        },
        est_minutes: if d.est_minutes <= 0 {
            60
        } else {
            d.est_minutes
        },
        ..d
    }
}

/// The days of `ds`, clamped, whose clamped difficulty is `level`, in order.
pub open spec fn at_difficulty(ds: Seq<DayJson>, level: i64) -> Seq<DayJson>
    decreases ds.len(),
{
    if ds.len() == 0 {
        seq![]
    } else if clamped_day(ds.last()).difficulty == level {
        at_difficulty(ds.drop_last(), level).push(clamped_day(ds.last()))
    } else {
        at_difficulty(ds.drop_last(), level)
    }
}

/// The clamped days stably sorted by difficulty: every difficulty-1 day in
/// the order it came in, then every difficulty-2 day, and so on up to 5.
pub open spec fn ramped(ds: Seq<DayJson>) -> Seq<DayJson> {
    at_difficulty(ds, 1) + at_difficulty(ds, 2) + at_difficulty(ds, 3) + at_difficulty(ds, 4)
        + at_difficulty(ds, 5)
}

/// Day `d` placed at position `i`: numbered `i + 1`, in week `i / 7 + 1`.
pub open spec fn numbered(d: DayJson, i: int) -> DayJson {
    DayJson { day: (i + 1) as i64, week: (i / 7 + 1) as i64, ..d }
}

/// Days renumbered sequentially by position, seven to a week.
pub open spec fn renumbered(ds: Seq<DayJson>) -> Seq<DayJson> {
    Seq::new(ds.len(), |i: int| numbered(ds[i], i))
}

/// How many weeks `n` days, seven to a week, cover.
pub open spec fn weeks_for(n: int) -> int {
    if n == 0 {
        0
    } else {
        (n - 1) / 7 + 1
    }
}

/// The first project of `ps` set in week `week`, if any.
pub open spec fn first_for_week(ps: Seq<WeeklyProjectJson>, week: i64) -> Option<WeeklyProjectJson>
    decreases ps.len(),
{
    if ps.len() == 0 {
        None
    } else {
        match first_for_week(ps.drop_last(), week) {
            Some(p) => Some(p),
            None => if ps.last().week == week {
                Some(ps.last())
            } else {
                None
            },
        }
    }
}

pub const FILLER_DESCRIPTION: &'static str = "Apply this week's subskills in a single working build of your own design.";

/// The project that fills a week the CLI left without one.
pub open spec fn is_filler_project(p: WeeklyProjectJson, week: i64) -> bool {
    &&& p.week == week
    &&& p.title@ == "Week "@ + decimal(week) + " project"@
    &&& p.description@ == FILLER_DESCRIPTION@
    &&& names(p.acceptance_criteria@) == seq!["Runs end to end"@, "Uses every subskill studied this week"@]
}

/// The projects after enforcement: week by week from 1 to `weeks`, the first
/// project the CLI gave for that week, or the filler when it gave none.
pub open spec fn projects_after(old: Seq<WeeklyProjectJson>, new: Seq<WeeklyProjectJson>, weeks: int) -> bool {
    &&& new.len() == weeks
    &&& forall|w: int| 0 <= w < weeks ==> match first_for_week(old, (w + 1) as i64) {
        Some(p) => #[trigger] new[w] == p,
        None => is_filler_project(new[w], (w + 1) as i64),
    }
}

fn filler_project(week: i64) -> (r: WeeklyProjectJson)
    ensures
        is_filler_project(r, week),
{
    let mut title = owned("Week ");
    push_str(&mut title, int_text(week).as_str());
    push_str(&mut title, " project");
    let mut acceptance: Vec<String> = Vec::new();
    acceptance.push(owned("Runs end to end"));
    acceptance.push(owned("Uses every subskill studied this week"));
    assert(names(acceptance@) =~= seq!["Runs end to end"@, "Uses every subskill studied this week"@]);
    WeeklyProjectJson { week, title, description: owned(FILLER_DESCRIPTION), acceptance_criteria: acceptance }
}

proof fn lemma_at_difficulty_level(ds: Seq<DayJson>, level: i64)
    ensures
        forall|i: int| 0 <= i < at_difficulty(ds, level).len() ==> (#[trigger] at_difficulty(ds, level)[i]).difficulty == level,
        forall|i: int| 0 <= i < at_difficulty(ds, level).len() ==> clamped_day(#[trigger] at_difficulty(ds, level)[i]) == at_difficulty(ds, level)[i],
    decreases ds.len(),
{
    if ds.len() > 0 {
        let prev = at_difficulty(ds.drop_last(), level);
        lemma_at_difficulty_level(ds.drop_last(), level);
        if clamped_day(ds.last()).difficulty == level {
            assert forall|i: int| 0 <= i < prev.len() implies at_difficulty(ds, level)[i] == prev[i] by {}
        }
    }
}

proof fn lemma_at_difficulty_count(ds: Seq<DayJson>)
    ensures
        at_difficulty(ds, 1).len() + at_difficulty(ds, 2).len() + at_difficulty(ds, 3).len()
            + at_difficulty(ds, 4).len() + at_difficulty(ds, 5).len() == ds.len(),
    decreases ds.len(),
{
    if ds.len() > 0 {
        lemma_at_difficulty_count(ds.drop_last());
    }
}

/// Guaranteeing the 20-hour-rule ramp loses no day and adds none: there are
/// as many days after as before.
pub proof fn lemma_ramp_keeps_every_day(ds: Seq<DayJson>)
    ensures
        renumbered(ramped(ds)).len() == ds.len(),
{
    lemma_at_difficulty_count(ds);
}

/// After the ramp is enforced, difficulty lies in 1..=5 and never decreases
/// from one day to the next, days are numbered 1, 2, 3, ... and weeks hold
/// seven days each.
pub proof fn lemma_ramp_is_monotonic(ds: Seq<DayJson>)
    requires
        ds.len() < i64::MAX,
    ensures
        forall|i: int| 0 <= i < renumbered(ramped(ds)).len() ==> {
            let d = #[trigger] renumbered(ramped(ds))[i];
            &&& 1 <= d.difficulty <= 5
            &&& d.est_minutes > 0
            &&& d.day == i + 1
            &&& d.week == i / 7 + 1
        },
        forall|i: int, j: int| 0 <= i <= j < renumbered(ramped(ds)).len() ==>
            (#[trigger] renumbered(ramped(ds))[i]).difficulty <= (#[trigger] renumbered(ramped(ds))[j]).difficulty,
{
    let r = ramped(ds);
    lemma_at_difficulty_count(ds);
    lemma_at_difficulty_level(ds, 1);
    lemma_at_difficulty_level(ds, 2);
    lemma_at_difficulty_level(ds, 3);
    lemma_at_difficulty_level(ds, 4);
    lemma_at_difficulty_level(ds, 5);
    let l1 = at_difficulty(ds, 1).len() as int;
    let l2 = l1 + at_difficulty(ds, 2).len();
    let l3 = l2 + at_difficulty(ds, 3).len();
    let l4 = l3 + at_difficulty(ds, 4).len();
    assert forall|i: int| 0 <= i < r.len() implies clamped_day(#[trigger] r[i]) == r[i] && r[i].difficulty == (if i < l1 {
        1int
    } else if i < l2 {
        2int
    } else if i < l3 {
        3int
    } else if i < l4 {
        4int
    } else {
        5int
    }) by {
        if i < l1 {
            assert(r[i] == at_difficulty(ds, 1)[i]);
        } else if i < l2 {
            assert(r[i] == at_difficulty(ds, 2)[i - l1]);
        } else if i < l3 {
            assert(r[i] == at_difficulty(ds, 3)[i - l2]);
        } else if i < l4 {
            assert(r[i] == at_difficulty(ds, 4)[i - l3]);
        } else {
            assert(r[i] == at_difficulty(ds, 5)[i - l4]);
        }
    }
}

/// Days already through the ramp: clamped, and in non-decreasing difficulty.
pub open spec fn settled(ds: Seq<DayJson>) -> bool {
    &&& forall|i: int| 0 <= i < ds.len() ==> clamped_day(#[trigger] ds[i]) == ds[i]
    &&& forall|i: int, j: int| 0 <= i <= j < ds.len() ==> (#[trigger] ds[i]).difficulty <= (#[trigger] ds[j]).difficulty
}

proof fn lemma_at_difficulty_above(ds: Seq<DayJson>, level: i64)
    requires
        forall|i: int| 0 <= i < ds.len() ==> clamped_day(#[trigger] ds[i]).difficulty < level,
    ensures
        at_difficulty(ds, level) == Seq::<DayJson>::empty(),
    decreases ds.len(),
{
    if ds.len() > 0 {
        let t = ds.drop_last();
        assert forall|i: int| 0 <= i < t.len() implies clamped_day(#[trigger] t[i]).difficulty < level by {
            assert(t[i] == ds[i]);
        }
        lemma_at_difficulty_above(t, level);
        assert(clamped_day(ds[ds.len() - 1]).difficulty < level);
    }
}

proof fn lemma_ramped_settled(ds: Seq<DayJson>)
    requires
        settled(ds),
    ensures
        ramped(ds) == ds,
    decreases ds.len(),
{
    if ds.len() > 0 {
        let t = ds.drop_last();
        let x = ds.last();
        assert(x == ds[ds.len() - 1]);
        assert forall|i: int| 0 <= i < t.len() implies clamped_day(#[trigger] t[i]) == t[i] by {
            assert(t[i] == ds[i]);
        }
        assert forall|i: int, j: int| 0 <= i <= j < t.len() implies (#[trigger] t[i]).difficulty <= (#[trigger] t[j]).difficulty by {
            assert(t[i] == ds[i] && t[j] == ds[j]);
        }
        lemma_ramped_settled(t);
        assert(clamped_day(x) == x);
        let m = x.difficulty;
        assert forall|i: int| 0 <= i < t.len() implies (#[trigger] clamped_day(t[i])).difficulty <= m by {
            assert(t[i] == ds[i]);
            assert(ds[i].difficulty <= ds[ds.len() - 1].difficulty);
        }
        if m < 5 {
            lemma_at_difficulty_above(t, 5);
        }
        if m < 4 {
            lemma_at_difficulty_above(t, 4);
        }
        if m < 3 {
            lemma_at_difficulty_above(t, 3);
        }
        if m < 2 {
            lemma_at_difficulty_above(t, 2);
        }
        let a1 = at_difficulty(t, 1);
        let a2 = at_difficulty(t, 2);
        let a3 = at_difficulty(t, 3);
        let a4 = at_difficulty(t, 4);
        let a5 = at_difficulty(t, 5);
        assert(t == a1 + a2 + a3 + a4 + a5);
        if m == 1 {
            assert(ramped(ds) == a1.push(x) + a2 + a3 + a4 + a5);
            assert(a1.push(x) + a2 + a3 + a4 + a5 =~= (a1 + a2 + a3 + a4 + a5).push(x));
        } else if m == 2 {
            assert(ramped(ds) == a1 + a2.push(x) + a3 + a4 + a5);
            assert(a1 + a2.push(x) + a3 + a4 + a5 =~= (a1 + a2 + a3 + a4 + a5).push(x));
        } else if m == 3 {
            assert(ramped(ds) == a1 + a2 + a3.push(x) + a4 + a5);
            assert(a1 + a2 + a3.push(x) + a4 + a5 =~= (a1 + a2 + a3 + a4 + a5).push(x));
        } else if m == 4 {
            assert(ramped(ds) == a1 + a2 + a3 + a4.push(x) + a5);
            assert(a1 + a2 + a3 + a4.push(x) + a5 =~= (a1 + a2 + a3 + a4 + a5).push(x));
        } else {
            assert(ramped(ds) == a1 + a2 + a3 + a4 + a5.push(x));
            assert(a1 + a2 + a3 + a4 + a5.push(x) =~= (a1 + a2 + a3 + a4 + a5).push(x));
        }
        assert(t.push(x) =~= ds);
    }
}

proof fn lemma_week_found(ps: Seq<WeeklyProjectJson>, week: i64)
    ensures
        first_for_week(ps, week) matches Some(p) ==> p.week == week,
        (forall|j: int| 0 <= j < ps.len() ==> (#[trigger] ps[j]).week != week) ==> first_for_week(ps, week) is None,
    decreases ps.len(),
{
    if ps.len() > 0 {
        let t = ps.drop_last();
        lemma_week_found(t, week);
        if forall|j: int| 0 <= j < ps.len() ==> (#[trigger] ps[j]).week != week {
            assert forall|j: int| 0 <= j < t.len() implies (#[trigger] t[j]).week != week by {
                assert(t[j] == ps[j]);
            }
            assert(ps[ps.len() - 1].week != week);
        }
    }
}

proof fn lemma_week_keyed(ps: Seq<WeeklyProjectJson>, w: int)
    requires
        forall|j: int| 0 <= j < ps.len() ==> (#[trigger] ps[j]).week == j + 1,
        0 <= w < ps.len(),
        ps.len() < i64::MAX,
    ensures
        first_for_week(ps, (w + 1) as i64) == Some(ps[w]),
    decreases ps.len(),
{
    let t = ps.drop_last();
    assert forall|j: int| 0 <= j < t.len() implies (#[trigger] t[j]).week == j + 1 by {
        assert(t[j] == ps[j]);
    }
    if w < t.len() {
        lemma_week_keyed(t, w);
        assert(t[w] == ps[w]);
    } else {
        lemma_week_found(t, (w + 1) as i64);
        assert(ps.last() == ps[w]);
    }
}

/// Enforcing the ramp is idempotent: a plan that has been through it once
/// comes out of a second run unchanged, days and weekly projects alike.
/// `once` is the projects after the first run, `twice` after the second.
pub proof fn lemma_ramp_is_idempotent(
    ds: Seq<DayJson>,
    projects: Seq<WeeklyProjectJson>,
    once: Seq<WeeklyProjectJson>,
    twice: Seq<WeeklyProjectJson>,
)
    requires
        ds.len() < i64::MAX,
        projects_after(projects, once, weeks_for(ds.len() as int)),
        projects_after(once, twice, weeks_for(renumbered(ramped(ds)).len() as int)),
    ensures
        renumbered(ramped(renumbered(ramped(ds)))) == renumbered(ramped(ds)),
        twice == once,
{
    let r = renumbered(ramped(ds));
    lemma_ramp_keeps_every_day(ds);
    lemma_ramp_is_monotonic(ds);
    assert forall|i: int| 0 <= i < r.len() implies clamped_day(#[trigger] r[i]) == r[i] by {
        assert(1 <= r[i].difficulty <= 5 && r[i].est_minutes > 0);
    }
    lemma_ramped_settled(r);
    assert(renumbered(r) =~= r);
    let weeks = weeks_for(ds.len() as int);
    assert(weeks <= ds.len());
    assert forall|j: int| 0 <= j < once.len() implies (#[trigger] once[j]).week == j + 1 by {
        lemma_week_found(projects, (j + 1) as i64);
        match first_for_week(projects, (j + 1) as i64) {
            Some(p) => assert(once[j] == p),
            None => assert(is_filler_project(once[j], (j + 1) as i64)),
        }
    }
    assert forall|w: int| 0 <= w < twice.len() implies #[trigger] twice[w] == once[w] by {
        lemma_week_keyed(once, w);
    }
    assert(twice =~= once);
}

fn push_all(dst: &mut Vec<DayJson>, src: Vec<DayJson>)
    ensures
        final(dst)@ == old(dst)@ + src@,
{
    let ghost start = dst@;
    for d in it: src
        invariant
            dst@ == start + it.seq().take(it.index() as int),
    {
        dst.push(d);
    }
}

/// Guarantee the 20-hour-rule ramp in code, whatever the model returned:
/// clamp difficulty to 1..=5, stable-sort days by difficulty, then renumber
/// days and weeks sequentially. Weekly projects are deduped and re-keyed so the
/// week numbers line up with the renumbered days.
pub fn ramp_days(days: &mut Vec<DayJson>, weekly_projects: &mut Vec<WeeklyProjectJson>)
    requires
        old(days).len() < i64::MAX,
    ensures
        final(days)@ == renumbered(ramped(old(days)@)),
        projects_after(old(weekly_projects)@, final(weekly_projects)@, weeks_for(old(days)@.len() as int)),
{
    let ghost src_days = days@;
    let mut taken: Vec<DayJson> = Vec::new();
    std::mem::swap(days, &mut taken);
    let mut b1: Vec<DayJson> = Vec::new();
    let mut b2: Vec<DayJson> = Vec::new();
    let mut b3: Vec<DayJson> = Vec::new();
    let mut b4: Vec<DayJson> = Vec::new();
    let mut b5: Vec<DayJson> = Vec::new();
    for d in it: taken
        invariant
            it.seq() == src_days,
            b1@ == at_difficulty(src_days.take(it.index() as int), 1),
            b2@ == at_difficulty(src_days.take(it.index() as int), 2),
            b3@ == at_difficulty(src_days.take(it.index() as int), 3),
            b4@ == at_difficulty(src_days.take(it.index() as int), 4),
            b5@ == at_difficulty(src_days.take(it.index() as int), 5),
    {
        let ghost i = it.index();
        let ghost pre = src_days.take(i as int);
        let ghost cur = src_days.take(i + 1);
        assert(cur.drop_last() =~= pre);
        assert(cur.last() == d);
        let mut d = d;
        if d.difficulty < 1 {
            d.difficulty = 1;
        } else if d.difficulty > 5 {
            d.difficulty = 5;
        }
        if d.est_minutes <= 0 {
            d.est_minutes = 60;
        }
        assert(d == clamped_day(cur.last()));
        if d.difficulty == 1 {
            b1.push(d);
        } else if d.difficulty == 2 {
            b2.push(d);
        } else if d.difficulty == 3 {
            b3.push(d);
        } else if d.difficulty == 4 {
            b4.push(d);
        } else {
            b5.push(d);
        }
    }
    assert(src_days.take(src_days.len() as int) =~= src_days);
    let mut sorted = b1;
    push_all(&mut sorted, b2);
    push_all(&mut sorted, b3);
    push_all(&mut sorted, b4);
    push_all(&mut sorted, b5);
    let ghost order = sorted@;
    assert(order == ramped(src_days));
    proof {
        lemma_ramp_keeps_every_day(src_days);
    }
    assert(order.len() == sorted.len());
    let mut idx: usize = 0;
    for d in it: sorted
        invariant
            it.seq() == order,
            idx == it.index(),
            idx <= order.len(),
            days@ =~= renumbered(order).take(idx as int),
            order.len() == src_days.len(),
            src_days.len() < i64::MAX,
            order.len() <= usize::MAX,
    {
        let mut d = d;
        assert(idx < order.len());
        d.day = (idx as i64) + 1;
        d.week = ((idx / 7) as i64) + 1;
        assert(d == numbered(order[idx as int], idx as int));
        days.push(d);
        idx = idx + 1;
    }
    assert(renumbered(order).take(order.len() as int) =~= renumbered(order));
    proof {
        lemma_ramp_keeps_every_day(src_days);
    }

    // Weekly projects: the first one the CLI gave for each week of the course.
    let weeks: i64 = if days.len() == 0 {
        0
    } else {
        days[days.len() - 1].week
    };
    assert(weeks == weeks_for(src_days.len() as int));
    let ghost src_projects = weekly_projects@;
    let mut given: Vec<WeeklyProjectJson> = Vec::new();
    std::mem::swap(weekly_projects, &mut given);
    let mut firsts: Vec<WeeklyProjectJson> = Vec::new();
    for p in it: given
        invariant
            it.seq() == src_projects,
            0 <= weeks,
            forall|k: int| 0 <= k < firsts.len() ==> 1 <= #[trigger] firsts@[k].week <= weeks,
            forall|k: int, l: int| 0 <= k < l < firsts.len() ==> #[trigger] firsts@[k].week != #[trigger] firsts@[l].week,
            forall|k: int| 0 <= k < firsts.len() ==> first_for_week(src_projects.take(it.index() as int), #[trigger] firsts@[k].week) == Some(firsts@[k]),
            forall|wk: i64| 1 <= wk <= weeks && #[trigger] first_for_week(src_projects.take(it.index() as int), wk) is Some ==>
                exists|k: int| 0 <= k < firsts.len() && firsts@[k].week == wk,
    {
        let ghost i = it.index();
        let ghost pre = src_projects.take(i as int);
        let ghost cur = src_projects.take(i + 1);
        assert(cur.drop_last() =~= pre);
        assert(cur.last() == p);
        let mut seen = false;
        let mut k: usize = 0;
        while k < firsts.len()
            invariant
                k <= firsts.len(),
                seen == exists|j: int| 0 <= j < k && firsts@[j].week == p.week,
            decreases firsts.len() - k,
        {
            if firsts[k].week == p.week {
                seen = true;
            }
            k = k + 1;
        }
        let ghost before = firsts@;
        if 1 <= p.week && p.week <= weeks && !seen {
            firsts.push(p);
        }
        proof {
            assert forall|wk: i64| #![trigger first_for_week(cur, wk)] first_for_week(pre, wk) is Some ==> first_for_week(cur, wk) == first_for_week(pre, wk) by {}
            assert forall|k: int| 0 <= k < firsts.len() implies first_for_week(cur, #[trigger] firsts@[k].week) == Some(firsts@[k]) by {
                if k < before.len() {
                    assert(firsts@[k] == before[k]);
                    assert(first_for_week(pre, before[k].week) == Some(before[k]));
                } else {
                    assert(firsts@[k] == p);
                    if first_for_week(pre, p.week) is Some {
                        let j = choose|j: int| 0 <= j < before.len() && before[j].week == p.week;
                        assert(false);
                    }
                }
            }
            assert forall|wk: i64| 1 <= wk <= weeks && #[trigger] first_for_week(cur, wk) is Some implies
                exists|k: int| 0 <= k < firsts.len() && firsts@[k].week == wk by {
                if first_for_week(pre, wk) is Some {
                    let j = choose|j: int| 0 <= j < before.len() && before[j].week == wk;
                    assert(firsts@[j] == before[j]);
                } else {
                    assert(p.week == wk);
                    if seen {
                        let j = choose|j: int| 0 <= j < before.len() && before[j].week == p.week;
                        assert(first_for_week(pre, before[j].week) == Some(before[j]));
                    } else {
                        assert(firsts@[firsts.len() - 1].week == wk);
                    }
                }
            }
        }
    }
    assert(src_projects.take(src_projects.len() as int) =~= src_projects);
    let mut w: i64 = 1;
    while w <= weeks
        invariant
            1 <= w <= weeks + 1,
            weeks == weeks_for(src_days.len() as int),
            weeks <= i64::MAX - 1,
            weekly_projects.len() == w - 1,
            forall|k: int| 0 <= k < firsts.len() ==> w <= #[trigger] firsts@[k].week <= weeks,
            forall|k: int, l: int| 0 <= k < l < firsts.len() ==> #[trigger] firsts@[k].week != #[trigger] firsts@[l].week,
            forall|k: int| 0 <= k < firsts.len() ==> first_for_week(src_projects, #[trigger] firsts@[k].week) == Some(firsts@[k]),
            forall|wk: i64| w <= wk <= weeks && #[trigger] first_for_week(src_projects, wk) is Some ==>
                exists|k: int| 0 <= k < firsts.len() && firsts@[k].week == wk,
            forall|v: int| 0 <= v < w - 1 ==> match first_for_week(src_projects, (v + 1) as i64) {
                Some(p) => #[trigger] weekly_projects@[v] == p,
                None => is_filler_project(weekly_projects@[v], (v + 1) as i64),
            },
        decreases weeks + 1 - w,
    {
        let mut found: Option<usize> = None;
        let mut k: usize = 0;
        while k < firsts.len()
            invariant
                k <= firsts.len(),
                match found {
                    Some(j) => j < firsts.len() && firsts@[j as int].week == w,
                    None => forall|j: int| 0 <= j < k ==> #[trigger] firsts@[j].week != w,
                },
            decreases firsts.len() - k,
        {
            if found.is_none() && firsts[k].week == w {
                found = Some(k);
            }
            k = k + 1;
        }
        let ghost before = firsts@;
        let ghost prev = weekly_projects@;
        match found {
            Some(j) => {
                let p = firsts.remove(j);
                weekly_projects.push(p);
                proof {
                    assert forall|a: int| 0 <= a < firsts.len() implies w + 1 <= #[trigger] firsts@[a].week <= weeks by {
                        if a < j {
                            assert(firsts@[a] == before[a]);
                        } else {
                            assert(firsts@[a] == before[a + 1]);
                        }
                    }
                }
            },
            None => {
                proof {
                    if first_for_week(src_projects, w) is Some {
                        let j = choose|j: int| 0 <= j < before.len() && before[j].week == w;
                        assert(false);
                    }
                }
                weekly_projects.push(filler_project(w));
            },
        }
        proof {
            assert forall|v: int| 0 <= v < w implies match first_for_week(src_projects, (v + 1) as i64) {
                Some(p) => #[trigger] weekly_projects@[v] == p,
                None => is_filler_project(weekly_projects@[v], (v + 1) as i64),
            } by {
                if v < w - 1 {
                    assert(weekly_projects@[v] == prev[v]);
                }
            }
            assert forall|k: int, l: int| 0 <= k < l < firsts.len() implies #[trigger] firsts@[k].week != #[trigger] firsts@[l].week by {
                if let Some(j) = found {
                    let k0 = if k < j { k } else { k + 1 };
                    let l0 = if l < j { l } else { l + 1 };
                    assert(firsts@[k] == before[k0]);
                    assert(firsts@[l] == before[l0]);
                }
            }
            assert forall|k: int| 0 <= k < firsts.len() implies first_for_week(src_projects, #[trigger] firsts@[k].week) == Some(firsts@[k]) by {
                if let Some(j) = found {
                    let k0 = if k < j { k } else { k + 1 };
                    assert(firsts@[k] == before[k0]);
                }
            }
            assert forall|wk: i64| w + 1 <= wk <= weeks && #[trigger] first_for_week(src_projects, wk) is Some implies
                exists|k: int| 0 <= k < firsts.len() && firsts@[k].week == wk by {
                let b = choose|b: int| 0 <= b < before.len() && before[b].week == wk;
                if let Some(j) = found {
                    assert(b != j);
                    if b < j {
                        assert(firsts@[b] == before[b]);
                    } else {
                        assert(firsts@[b - 1] == before[b]);
                    }
                }
            }
        }
        w = w + 1;
    }
}

/// The entries of a week: each day set in it, as "subskill (title)".
pub open spec fn week_entries(days: Seq<Day>, week: i64) -> Seq<Seq<char>>
    decreases days.len(),
{
    if days.len() == 0 {
        seq![]
    } else if days.last().week_number == week {
        week_entries(days.drop_last(), week).push(days.last().subskill@ + " ("@ + days.last().title@ + ")"@)
    } else {
        week_entries(days.drop_last(), week)
    }
}

/// What a week studied, for the verification prompt.
pub open spec fn week_summary(days: Seq<Day>, week: i64) -> Seq<char> {
    listed_or(week_entries(days, week), "; "@, "(no days recorded for this week)"@)
}

/// Subskills studied in a given week, for the verification prompt.
pub fn week_subskills(days: &[Day], week: i64) -> (r: String)
    ensures
        r@ == week_summary(days@, week),
{
    let mut entries: Vec<String> = Vec::new();
    let mut i: usize = 0;
    while i < days.len()
        invariant
            i <= days.len(),
            names(entries@) =~= week_entries(days@.take(i as int), week),
        decreases days.len() - i,
    {
        let ghost pre = days@.take(i as int);
        let ghost cur = days@.take(i + 1);
        assert(cur.drop_last() =~= pre);
        assert(cur.last() == days@[i as int]);
        if days[i].week_number == week {
            let mut e = days[i].subskill.clone();
            push_str(&mut e, " (");
            push_str(&mut e, days[i].title.as_str());
            push_str(&mut e, ")");
            let ghost prev = entries@;
            entries.push(e);
            assert(names(entries@) =~= names(prev).push(e@));
        }
        i = i + 1;
    }
    assert(days@.take(days.len() as int) =~= days@);
    if entries.len() == 0 {
        owned("(no days recorded for this week)")
    } else {
        join_strings(entries.as_slice(), "; ")
    }
}


/// `after` is `before` with the ramp enforced: days clamped, stably sorted by
/// difficulty and renumbered; one project per week; subject and subskills kept.
pub open spec fn ramp_enforced(before: PlanJson, after: PlanJson) -> bool {
    &&& after.days@ == renumbered(ramped(before.days@))
    &&& projects_after(before.weekly_projects@, after.weekly_projects@, weeks_for(before.days@.len() as int))
    &&& after.tech == before.tech
    &&& after.subskills == before.subskills
}

/// `ramp_days` applied to a whole plan; its subject and subskills stay as
/// they are.
pub fn enforce_ramp(plan: &mut PlanJson)
    requires
        old(plan).days.len() < i64::MAX,
    ensures
        ramp_enforced(*old(plan), *final(plan)),
{
    ramp_days(&mut plan.days, &mut plan.weekly_projects);
}

/// Running `enforce_ramp` on a plan it has already run on changes nothing:
/// `once` is the plan after the first run, `twice` after the second, and the
/// two agree field for field.
pub proof fn lemma_enforce_ramp_idempotent(first: PlanJson, once: PlanJson, twice: PlanJson)
    requires
        first.days@.len() < i64::MAX,
        ramp_enforced(first, once),
        ramp_enforced(once, twice),
    ensures
        twice.days@ == once.days@,
        twice.weekly_projects@ == once.weekly_projects@,
        twice.tech == once.tech,
        twice.subskills == once.subskills,
{
    lemma_ramp_keeps_every_day(first.days@);
    lemma_ramp_is_idempotent(first.days@, first.weekly_projects@, once.weekly_projects@, twice.weekly_projects@);
}

// ---------------------------------------------------------------------------
// Invoking the CLI
// ---------------------------------------------------------------------------

/// The arguments the CLI is run with: the prompt flag, the prompt, then each
/// whitespace-separated word of the extra arguments.
pub fn cli_arguments(cfg: &CliConfig, prompt: &str) -> (r: Vec<String>)
    ensures
        names(r@) == seq![cfg.prompt_flag@, prompt@] + words(cfg.extra_args@),
{
    let mut r: Vec<String> = Vec::new();
    r.push(cfg.prompt_flag.clone());
    r.push(owned(prompt));
    let extra = split_words(&chars_of(cfg.extra_args.as_str()));
    let ghost head = seq![cfg.prompt_flag@, prompt@];
    assert(names(r@) =~= head);
    let mut i: usize = 0;
    while i < extra.len()
        invariant
            i <= extra@.len(),
            head == seq![cfg.prompt_flag@, prompt@],
            seqs(extra@) == words(cfg.extra_args@),
            names(r@) =~= head + seqs(extra@).take(i as int),
        decreases extra.len() - i,
    {
        let w = string_of(&extra[i]);
        let ghost prev = r@;
        r.push(w);
        assert(names(r@) =~= names(prev).push(w@));
        assert(seqs(extra@).take(i + 1) =~= seqs(extra@).take(i as int).push(extra@[i as int]@));
        i = i + 1;
    }
    assert(seqs(extra@).take(extra@.len() as int) =~= seqs(extra@));
    r
}

/// The prompt sent again after an answer that did not parse: the prompt,
/// what went wrong, and a reminder to answer with JSON alone.
pub open spec fn retry_text(prompt: Seq<char>, problem: Seq<char>) -> Seq<char> {
    prompt + "\n\nIMPORTANT: your previous answer could not be parsed ("@ + problem
        + "). Return valid JSON only - no prose, no markdown fences."@
}

pub fn retry_prompt(prompt: &str, problem: &str) -> (r: String)
    ensures
        r@ == retry_text(prompt@, problem@),
{
    let mut r = concat(prompt, "\n\nIMPORTANT: your previous answer could not be parsed (");
    push_str(&mut r, problem);
    push_str(&mut r, "). Return valid JSON only - no prose, no markdown fences.");
    r
}

/// What the CLI test shows of a reply: its first 60 characters, trimmed.
pub fn reply_preview(reply: &str) -> (r: String)
    ensures
        r@ == (if trimmed(reply@).len() <= 60 { trimmed(reply@) } else { trimmed(reply@).take(60) }),
{
    let t = trim_chars(&chars_of(reply));
    let mut out: Vec<char> = Vec::new();
    let mut i: usize = 0;
    while i < t.len() && i < 60
        invariant
            i <= t@.len(),
            i <= 60,
            out@ =~= t@.take(i as int),
        decreases t.len() - i,
    {
        out.push(t[i]);
        i = i + 1;
    }
    assert(t@.len() <= 60 ==> t@.take(t@.len() as int) =~= t@);
    string_of(&out)
}

// ---------------------------------------------------------------------------
// Invocation settings and course requests
// ---------------------------------------------------------------------------

/// How the mentor binary is invoked. Every part is editable in Settings so a
/// differently named or wrapped binary still works.
#[derive(Debug, Clone)]
pub struct CliConfig {
    pub cli_path: String,
    pub prompt_flag: String,
    pub extra_args: String,
    pub git_path: String,
}

impl Default for CliConfig {
    fn default() -> (r: Self)
        ensures
            r.cli_path@ == "mentor-cli"@,
            r.prompt_flag@ == "-p"@,
            r.extra_args@ == "--output-format text"@,
            r.git_path@ == "git"@,
    {
        CliConfig {
            cli_path: owned("mentor-cli"),
            prompt_flag: owned("-p"),
            extra_args: owned("--output-format text"),
            git_path: owned("git"),
        }
    }
}

/// Everything one course generation needs.
pub struct PlanRequest {
    pub stack_id: i64,
    pub tech: String,
    pub target_hours: i64,
    pub minutes_per_day: i64,
    /// Subjects already cleared earlier on the track.
    pub builds_on: Vec<String>,
    /// The job the learner is training for; empty when none is set.
    pub role: String,
}

} // verus!
