//! SM-2 spaced repetition scheduling: the whole-number side of a review. The
//! easiness factor is a float and stays with the caller, which hands in the
//! interval it scales to.

use vstd::prelude::*;
use crate::dates::{date_text, iso_date};
use crate::text::{opt_text, join, join_strings, names, trimmed, is_blank, owned, concat};
use crate::models::InterviewQuestion;

verus! {

/// The outcome of grading one review.
#[derive(Debug, Clone, Copy, PartialEq, Eq, Structural)]
pub struct ReviewStep {
    pub interval_days: i64,
    pub repetitions: i64,
    pub grade: i64,
}

/// A grade clamped to 0..=5.
pub open spec fn clamped_grade(grade: i64) -> i64 {
    if grade < 0 {
        0
    } else if grade > 5 {
        5
    } else {
        grade
    }
}

/// One SM-2 step. A grade of 3 or more is a pass: the first pass waits one
/// day, the second six, later ones the previous interval scaled by easiness
/// (`scaled_interval`), and the repetition count goes up; anything lower is a
/// lapse that starts the card over at one day. The interval is never under a
/// day.
pub open spec fn next_step(repetitions: i64, interval_days: i64, grade: i64, scaled_interval: i64) -> ReviewStep {
    let g = clamped_grade(grade);
    let (interval, reps) = if g >= 3 {
        let i = if repetitions == 0 {
            1
        } else if repetitions == 1 {
            6
        } else {
            scaled_interval
        };
        (i, repetitions + 1)
    } else {
        (1i64, 0int)
    };
    ReviewStep { interval_days: if interval < 1 { 1 } else { interval }, repetitions: reps as i64, grade: g }
}

/// Apply an SM-2 grade (0..=5) to a card's interval and repetition count.
pub fn schedule_step(repetitions: i64, interval_days: i64, grade: i64, scaled_interval: i64) -> (r: ReviewStep)
    requires
        repetitions < i64::MAX,
    ensures
        r == next_step(repetitions, interval_days, grade, scaled_interval),
{
    let g = if grade < 0 {
        0
    } else if grade > 5 {
        5
    } else {
        grade
    };
    let (interval, reps) = if g >= 3 {
        let i = if repetitions == 0 {
            1
        } else if repetitions == 1 {
            6
        } else {
            scaled_interval
        };
        (i, repetitions + 1)
    } else {
        (1, 0)
    };
    ReviewStep { interval_days: if interval < 1 { 1 } else { interval }, repetitions: reps, grade: g }
}

/// The due date `interval_days` after day `today`, as ISO text; `None` when
/// that day is outside the calendar's range.
pub open spec fn due_text(today: i32, interval_days: i64) -> Option<Seq<char>> {
    let day = today + interval_days;
    if i32::MIN <= day <= i32::MAX {
        iso_date(day as i32)
    } else {
        None
    }
}

/// The due date `interval_days` after day `today`.
pub fn due_date(today: i32, interval_days: i64) -> (r: Option<String>)
    ensures
        opt_text(r) == due_text(today, interval_days),
{
    let t = today as i64;
    if interval_days > i32::MAX as i64 - t || interval_days < i32::MIN as i64 - t {
        return None;
    }
    date_text((t + interval_days) as i32)
}

/// A lapse starts a card over, a pass moves it on by one repetition, the grade
/// recorded is always within 0..=5, and the interval is never under a day.
pub proof fn lemma_review_step_laws(repetitions: i64, interval_days: i64, grade: i64, scaled_interval: i64)
    requires
        repetitions < i64::MAX,
    ensures
        ({
            let s = next_step(repetitions, interval_days, grade, scaled_interval);
            &&& 0 <= s.grade <= 5
            &&& 0 <= grade <= 5 ==> s.grade == grade
            &&& grade < 0 ==> s.grade == 0
            &&& grade > 5 ==> s.grade == 5
            &&& s.interval_days >= 1
            &&& grade < 3 ==> s.repetitions == 0 && s.interval_days == 1
            &&& grade >= 3 ==> s.repetitions == repetitions + 1
        }),
{
}

/// Every passing grade (3 or more, after clamping) moves a card on the same
/// way: the first pass waits one day, the second six, and every later one the
/// easiness-scaled interval (at least a day), whichever passing grade it was;
/// the repetition count goes up by one.
pub proof fn lemma_passing_grades_agree(repetitions: i64, interval_days: i64, grade: i64, other: i64, scaled_interval: i64)
    requires
        repetitions < i64::MAX,
        grade >= 3,
        other >= 3,
    ensures
        ({
            let s = next_step(repetitions, interval_days, grade, scaled_interval);
            let t = next_step(repetitions, interval_days, other, scaled_interval);
            &&& repetitions == 0 ==> s.interval_days == 1
            &&& repetitions == 1 ==> s.interval_days == 6
            &&& repetitions >= 2 ==> s.interval_days == (if scaled_interval < 1 { 1 } else { scaled_interval })
            &&& s.repetitions == repetitions + 1
            &&& s.interval_days == t.interval_days
            &&& s.repetitions == t.repetitions
        }),
{
}

/// The back of an interview card: its key points as a dashed list, one per
/// line, or a note that none were supplied.
pub open spec fn key_point_back(points: Seq<Seq<char>>) -> Seq<char> {
    if points.len() == 0 {
        "(no key points supplied)"@
    } else {
        join(points.map_values(|p: Seq<char>| "- "@ + p), "\n"@)
    }
}

/// The (front, back) of the review cards the first `n` interview questions
/// of a day become; a question with no text makes no card.
pub open spec fn interview_cards_of(qs: Seq<InterviewQuestion>, n: int) -> Seq<(Seq<char>, Seq<char>)>
    decreases n,
{
    if n <= 0 || n > qs.len() {
        seq![]
    } else if trimmed(qs[n - 1].q@).len() == 0 {
        interview_cards_of(qs, n - 1)
    } else {
        interview_cards_of(qs, n - 1).push((qs[n - 1].q@, key_point_back(names(qs[n - 1].key_points@))))
    }
}

fn key_points_text(points: &Vec<String>) -> (r: String)
    ensures
        r@ == key_point_back(names(points@)),
{
    if points.len() == 0 {
        return owned("(no key points supplied)");
    }
    let mut lines: Vec<String> = Vec::new();
    let mut i: usize = 0;
    while i < points.len()
        invariant
            i <= points@.len(),
            names(lines@) =~= names(points@).take(i as int).map_values(|p: Seq<char>| "- "@ + p),
        decreases points.len() - i,
    {
        let line = concat("- ", points[i].as_str());
        let ghost prev = lines@;
        lines.push(line);
        assert(names(lines@) =~= names(prev).push(line@));
        i = i + 1;
    }
    assert(names(points@).take(points.len() as int) =~= names(points@));
    join_strings(lines.as_slice(), "\n")
}

/// The review cards a day's interview questions become, as (front, back).
pub fn interview_cards(questions: &[InterviewQuestion]) -> (r: Vec<(String, String)>)
    ensures
        r@.len() == interview_cards_of(questions@, questions@.len() as int).len(),
        forall|i: int| 0 <= i < r@.len() ==> (#[trigger] r@[i]).0@ == interview_cards_of(questions@, questions@.len() as int)[i].0
            && r@[i].1@ == interview_cards_of(questions@, questions@.len() as int)[i].1,
{
    let mut r: Vec<(String, String)> = Vec::new();
    let mut i: usize = 0;
    while i < questions.len()
        invariant
            i <= questions@.len(),
            r@.len() == interview_cards_of(questions@, i as int).len(),
            forall|k: int| 0 <= k < r@.len() ==> (#[trigger] r@[k]).0@ == interview_cards_of(questions@, i as int)[k].0
                && r@[k].1@ == interview_cards_of(questions@, i as int)[k].1,
        decreases questions.len() - i,
    {
        if !is_blank(questions[i].q.as_str()) {
            let back = key_points_text(&questions[i].key_points);
            r.push((questions[i].q.clone(), back));
        }
        i = i + 1;
    }
    r
}

} // verus!
