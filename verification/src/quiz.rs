//! Recall quizzes: what to quiz on, and grading an attempt into a score and
//! the review cards its mistakes become.

use vstd::prelude::*;
use crate::models::{Day, QuizQuestion, QuizQuestionJson, WeeklyProject};
use crate::text::{
    chars_of, decimal, int_text, join, join_strings, names, owned, push_str, trim_chars, trimmed,
};

verus! {

broadcast use vstd::string::group_string_axioms;

/// What a day-scoped quiz covers.
pub open spec fn day_scope(day: Day) -> Seq<char> {
    "Day "@ + decimal(day.day_number) + " - \""@ + day.title@ + "\" (subskill: "@ + day.subskill@
        + "). Objectives: "@ + join(names(day.objectives@), "; "@) + ". Hands-on task: "@
        + day.practice_task@
}

/// What a day-scoped quiz covers.
pub fn scope_content_day(day: &Day) -> (r: String)
    ensures
        r@ == day_scope(*day),
{
    let objectives = join_strings(day.objectives.as_slice(), "; ");
    let mut out = owned("Day ");
    push_str(&mut out, int_text(day.day_number).as_str());
    push_str(&mut out, " - \"");
    push_str(&mut out, day.title.as_str());
    push_str(&mut out, "\" (subskill: ");
    push_str(&mut out, day.subskill.as_str());
    push_str(&mut out, "). Objectives: ");
    push_str(&mut out, objectives.as_str());
    push_str(&mut out, ". Hands-on task: ");
    push_str(&mut out, day.practice_task.as_str());
    out
}

/// The line a day contributes to a week-scoped quiz.
pub open spec fn day_line(d: Day) -> Seq<char> {
    "Day "@ + decimal(d.day_number) + ": "@ + d.title@ + " ("@ + d.subskill@ + ")"@
}

/// The lines of the days set in `week`, in order.
pub open spec fn week_lines(days: Seq<Day>, week: i64) -> Seq<Seq<char>>
    decreases days.len(),
{
    if days.len() == 0 {
        seq![]
    } else if days.last().week_number == week {
        week_lines(days.drop_last(), week).push(day_line(days.last()))
    } else {
        week_lines(days.drop_last(), week)
    }
}

/// What a week-scoped quiz covers: the week's day titles plus its project.
pub open spec fn week_scope(days: Seq<Day>, week: i64, project: Option<WeeklyProject>) -> Seq<char> {
    let project_part = match project {
        Some(p) => " Weekly project: "@ + p.title@ + " - "@ + p.description@,
        None => seq![],
    };
    "Week "@ + decimal(week) + ". "@ + join(week_lines(days, week), "; "@) + project_part
}

/// What a week-scoped quiz covers: the week's day titles plus its project.
pub fn scope_content_week(days: &[Day], week: i64, project: Option<&WeeklyProject>) -> (r: String)
    ensures
        r@ == week_scope(
            days@,
            week,
            match project {
                Some(p) => Some(*p),
                None => None,
            },
        ),
{
    let mut lines: Vec<String> = Vec::new();
    let mut i: usize = 0;
    while i < days.len()
        invariant
            i <= days.len(),
            names(lines@) =~= week_lines(days@.take(i as int), week),
        decreases days.len() - i,
    {
        let ghost pre = days@.take(i as int);
        let ghost cur = days@.take(i + 1);
        assert(cur.drop_last() =~= pre);
        assert(cur.last() == days@[i as int]);
        if days[i].week_number == week {
            let mut line = owned("Day ");
            push_str(&mut line, int_text(days[i].day_number).as_str());
            push_str(&mut line, ": ");
            push_str(&mut line, days[i].title.as_str());
            push_str(&mut line, " (");
            push_str(&mut line, days[i].subskill.as_str());
            push_str(&mut line, ")");
            let ghost prev = lines@;
            lines.push(line);
            assert(names(lines@) =~= names(prev).push(line@));
        }
        i = i + 1;
    }
    assert(days@.take(days.len() as int) =~= days@);
    let mut out = owned("Week ");
    push_str(&mut out, int_text(week).as_str());
    push_str(&mut out, ". ");
    push_str(&mut out, join_strings(lines.as_slice(), "; ").as_str());
    match project {
        Some(p) => {
            push_str(&mut out, " Weekly project: ");
            push_str(&mut out, p.title.as_str());
            push_str(&mut out, " - ");
            push_str(&mut out, p.description.as_str());
        },
        None => {
            assert(out@ + Seq::<char>::empty() =~= out@);
        },
    }
    out
}

// ---------------------------------------------------------------------------
// Grading
// ---------------------------------------------------------------------------

/// How one question was answered.
#[derive(Debug, Clone, Copy, PartialEq, Eq, Structural)]
pub struct Answer {
    pub question_id: i64,
    pub chosen_index: Option<usize>,
    pub correct: bool,
}

/// A review card a wrong answer becomes: the question on the front, the right
/// answer (and its explanation, when there is one) on the back.
#[derive(Debug, Clone)]
pub struct MissedCard {
    pub question_id: i64,
    pub front: String,
    pub back: String,
}

/// A graded attempt.
#[derive(Debug, Clone)]
pub struct Grading {
    pub correct: i64,
    pub total: i64,
    pub answers: Vec<Answer>,
    pub missed: Vec<MissedCard>,
}

/// The option picked for question `i`, if one was.
pub open spec fn picked(chosen: Seq<Option<usize>>, i: int) -> Option<usize> {
    if 0 <= i < chosen.len() {
        chosen[i]
    } else {
        None
    }
}

/// Whether question `q` was answered right with `pick`.
pub open spec fn answered_right(q: QuizQuestion, pick: Option<usize>) -> bool {
    pick == Some(q.correct_index as usize)
}

/// The text of the right option, or nothing when the index is out of range.
pub open spec fn right_option(q: QuizQuestion) -> Seq<char> {
    let k = q.correct_index as usize;
    if k < q.options@.len() {
        q.options@[k as int]@
    } else {
        seq![]
    }
}

/// The back of the card a missed question becomes.
pub open spec fn card_back(q: QuizQuestion) -> Seq<char> {
    if trimmed(q.explanation@).len() == 0 {
        right_option(q)
    } else {
        right_option(q) + "\n\n"@ + q.explanation@
    }
}

/// How many of the first `n` questions were answered right.
pub open spec fn right_count(qs: Seq<QuizQuestion>, chosen: Seq<Option<usize>>, n: int) -> int
    decreases n,
{
    if n <= 0 {
        0
    } else {
        right_count(qs, chosen, n - 1) + if answered_right(qs[n - 1], picked(chosen, n - 1)) {
            1int
        } else {
            0int
        }
    }
}

/// The questions among the first `n` that were answered wrong, in order.
pub open spec fn missed_questions(qs: Seq<QuizQuestion>, chosen: Seq<Option<usize>>, n: int) -> Seq<QuizQuestion>
    decreases n,
{
    if n <= 0 {
        seq![]
    } else if answered_right(qs[n - 1], picked(chosen, n - 1)) {
        missed_questions(qs, chosen, n - 1)
    } else {
        missed_questions(qs, chosen, n - 1).push(qs[n - 1])
    }
}

/// `g` is the grading of answering `qs` with `chosen`: one answer record per
/// question, a card per wrong answer in question order, and the count right.
pub open spec fn graded(g: Grading, qs: Seq<QuizQuestion>, chosen: Seq<Option<usize>>) -> bool {
    let missed = missed_questions(qs, chosen, qs.len() as int);
    &&& g.total == qs.len()
    &&& g.correct == right_count(qs, chosen, qs.len() as int)
    &&& g.answers@.len() == qs.len()
    &&& forall|i: int| 0 <= i < qs.len() ==> #[trigger] g.answers@[i] == (Answer {
        question_id: qs[i].id,
        chosen_index: picked(chosen, i),
        correct: answered_right(qs[i], picked(chosen, i)),
    })
    &&& g.missed@.len() == missed.len()
    &&& forall|k: int| 0 <= k < missed.len() ==> {
        &&& (#[trigger] g.missed@[k]).question_id == missed[k].id
        &&& g.missed@[k].front@ == missed[k].question@
        &&& g.missed@[k].back@ == card_back(missed[k])
    }
}

proof fn lemma_right_count_bounds(qs: Seq<QuizQuestion>, chosen: Seq<Option<usize>>, n: int)
    requires
        0 <= n,
    ensures
        0 <= right_count(qs, chosen, n) <= n,
    decreases n,
{
    if n > 0 {
        lemma_right_count_bounds(qs, chosen, n - 1);
    }
}

proof fn lemma_right_plus_missed(qs: Seq<QuizQuestion>, chosen: Seq<Option<usize>>, n: int)
    requires
        0 <= n,
    ensures
        right_count(qs, chosen, n) + missed_questions(qs, chosen, n).len() == n,
    decreases n,
{
    if n > 0 {
        lemma_right_plus_missed(qs, chosen, n - 1);
    }
}

proof fn lemma_missed_are_wrong(qs: Seq<QuizQuestion>, chosen: Seq<Option<usize>>, n: int)
    requires
        0 <= n <= qs.len(),
    ensures
        forall|k: int| 0 <= k < missed_questions(qs, chosen, n).len() ==> exists|i: int| {
            &&& 0 <= i < n
            &&& !answered_right(qs[i], picked(chosen, i))
            &&& #[trigger] missed_questions(qs, chosen, n)[k] == qs[i]
        },
    decreases n,
{
    if n > 0 {
        lemma_missed_are_wrong(qs, chosen, n - 1);
        let prev = missed_questions(qs, chosen, n - 1);
        let cur = missed_questions(qs, chosen, n);
        assert forall|k: int| 0 <= k < cur.len() implies exists|i: int| {
            &&& 0 <= i < n
            &&& !answered_right(qs[i], picked(chosen, i))
            &&& #[trigger] cur[k] == qs[i]
        } by {
            if k < prev.len() {
                assert(cur[k] == prev[k]);
                let i = choose|i: int| {
                    &&& 0 <= i < n - 1
                    &&& !answered_right(qs[i], picked(chosen, i))
                    &&& #[trigger] prev[k] == qs[i]
                };
                assert(cur[k] == qs[i]);
            } else {
                assert(cur[k] == qs[n - 1]);
            }
        }
    }
}

/// Every review card of a graded attempt comes from a question answered
/// wrong: the question on its front, and on its back the right option's text
/// (nothing when the correct index is out of range), followed by a blank line
/// and the explanation when there is one.
pub proof fn lemma_missed_cards(g: Grading, qs: Seq<QuizQuestion>, chosen: Seq<Option<usize>>)
    requires
        graded(g, qs, chosen),
    ensures
        forall|k: int| #![trigger g.missed@[k]] 0 <= k < g.missed@.len() ==> exists|i: int| #![trigger qs[i]] {
            let q = qs[i];
            let right = if (q.correct_index as usize) < q.options@.len() {
                q.options@[(q.correct_index as usize) as int]@
            } else {
                Seq::<char>::empty()
            };
            &&& 0 <= i < qs.len()
            &&& !(i < chosen.len() && chosen[i] == Some(q.correct_index as usize))
            &&& g.missed@[k].question_id == q.id
            &&& g.missed@[k].front@ == q.question@
            &&& g.missed@[k].back@ == (if trimmed(q.explanation@).len() == 0 {
                right
            } else {
                right + "\n\n"@ + q.explanation@
            })
        },
{
    lemma_missed_are_wrong(qs, chosen, qs.len() as int);
    let mq = missed_questions(qs, chosen, qs.len() as int);
    assert forall|k: int| #![trigger g.missed@[k]] 0 <= k < g.missed@.len() implies exists|i: int| #![trigger qs[i]] {
        let q = qs[i];
        let right = if (q.correct_index as usize) < q.options@.len() {
            q.options@[(q.correct_index as usize) as int]@
        } else {
            Seq::<char>::empty()
        };
        &&& 0 <= i < qs.len()
        &&& !(i < chosen.len() && chosen[i] == Some(q.correct_index as usize))
        &&& g.missed@[k].question_id == q.id
        &&& g.missed@[k].front@ == q.question@
        &&& g.missed@[k].back@ == (if trimmed(q.explanation@).len() == 0 {
            right
        } else {
            right + "\n\n"@ + q.explanation@
        })
    } by {
        assert(mq[k] == mq[k]);
        let i = choose|i: int| {
            &&& 0 <= i < qs.len()
            &&& !answered_right(qs[i], picked(chosen, i))
            &&& #[trigger] mq[k] == qs[i]
        };
        assert(g.missed@[k].question_id == mq[k].id);
    }
}

/// In a graded attempt an answer counts as right exactly when the option
/// chosen for it is the question's correct one; a question with another
/// choice, or none, is wrong. Every question is either counted right or
/// turned into a review card, never both.
pub proof fn lemma_grading_laws(g: Grading, qs: Seq<QuizQuestion>, chosen: Seq<Option<usize>>)
    requires
        graded(g, qs, chosen),
    ensures
        forall|i: int| 0 <= i < qs.len() ==> ((#[trigger] g.answers@[i]).correct <==> (
            i < chosen.len() && chosen[i] == Some(qs[i].correct_index as usize))),
        forall|i: int| 0 <= i < qs.len() ==> (#[trigger] g.answers@[i]).chosen_index == (
            if i < chosen.len() { chosen[i] } else { None }),
        g.correct + g.missed@.len() == g.total,
        g.total == qs.len(),
{
    lemma_right_plus_missed(qs, chosen, qs.len() as int);
}

/// Score an attempt: which answers were right, how many, and the review card
/// every wrong answer turns into.
pub fn grade_attempt(questions: &[QuizQuestion], chosen: &[Option<usize>]) -> (r: Grading)
    requires
        questions.len() <= i64::MAX,
    ensures
        graded(r, questions@, chosen@),
{
    let ghost qs = questions@;
    let ghost ch = chosen@;
    let mut correct: i64 = 0;
    let mut answers: Vec<Answer> = Vec::new();
    let mut missed: Vec<MissedCard> = Vec::new();
    let mut i: usize = 0;
    while i < questions.len()
        invariant
            i <= questions.len(),
            qs == questions@,
            ch == chosen@,
            questions.len() <= i64::MAX,
            correct == right_count(qs, ch, i as int),
            answers@.len() == i,
            forall|j: int| 0 <= j < i ==> #[trigger] answers@[j] == (Answer {
                question_id: qs[j].id,
                chosen_index: picked(ch, j),
                correct: answered_right(qs[j], picked(ch, j)),
            }),
            missed@.len() == missed_questions(qs, ch, i as int).len(),
            forall|k: int| 0 <= k < missed@.len() ==> {
                &&& (#[trigger] missed@[k]).question_id == missed_questions(qs, ch, i as int)[k].id
                &&& missed@[k].front@ == missed_questions(qs, ch, i as int)[k].question@
                &&& missed@[k].back@ == card_back(missed_questions(qs, ch, i as int)[k])
            },
        decreases questions.len() - i,
    {
        proof {
            lemma_right_count_bounds(qs, ch, i as int);
        }
        let question = &questions[i];
        let pick: Option<usize> = if i < chosen.len() {
            chosen[i]
        } else {
            None
        };
        assert(pick == picked(ch, i as int));
        let target = question.correct_index as usize;
        let is_correct = match pick {
            Some(p) => p == target,
            None => false,
        };
        assert(is_correct == answered_right(qs[i as int], pick));
        let ghost before = missed@;
        if is_correct {
            correct = correct + 1;
        } else {
            let answer = if target < question.options.len() {
                question.options[target].clone()
            } else {
                String::new()
            };
            assert(answer@ == right_option(qs[i as int]));
            let explanation_trimmed = trim_chars(&chars_of(question.explanation.as_str()));
            let back = if explanation_trimmed.len() == 0 {
                answer
            } else {
                let mut b = answer;
                push_str(&mut b, "\n\n");
                push_str(&mut b, question.explanation.as_str());
                b
            };
            missed.push(MissedCard { question_id: question.id, front: question.question.clone(), back });
        }
        answers.push(Answer { question_id: question.id, chosen_index: pick, correct: is_correct });
        proof {
            let mq = missed_questions(qs, ch, i + 1);
            assert forall|k: int| 0 <= k < missed@.len() implies {
                &&& (#[trigger] missed@[k]).question_id == mq[k].id
                &&& missed@[k].front@ == mq[k].question@
                &&& missed@[k].back@ == card_back(mq[k])
            } by {
                if k < before.len() {
                    assert(missed@[k] == before[k]);
                }
            }
        }
        i = i + 1;
    }
    Grading { correct, total: questions.len() as i64, answers, missed }
}

// ---------------------------------------------------------------------------
// Storing a generated quiz
// ---------------------------------------------------------------------------

/// A question worth storing: it offers at least two options.
pub open spec fn storable(q: QuizQuestionJson) -> bool {
    q.options@.len() >= 2
}

/// A correct index held to the options' range.
pub open spec fn clamped_index(q: QuizQuestionJson) -> i64 {
    if q.correct_index < 0 {
        0
    } else if q.correct_index > q.options@.len() - 1 {
        (q.options@.len() - 1) as i64
    } else {
        q.correct_index
    }
}

/// The storable questions among the first `n`, in order.
pub open spec fn storable_questions(qs: Seq<QuizQuestionJson>, n: int) -> Seq<QuizQuestionJson>
    decreases n,
{
    if n <= 0 || n > qs.len() {
        seq![]
    } else if storable(qs[n - 1]) {
        storable_questions(qs, n - 1).push(qs[n - 1])
    } else {
        storable_questions(qs, n - 1)
    }
}

/// The questions of a generated quiz that are stored: those with at least
/// two options, in order, each with its correct index held to its options.
pub fn questions_to_store(questions: &[QuizQuestionJson]) -> (r: Vec<QuizQuestionJson>)
    requires
        forall|i: int| 0 <= i < questions@.len() ==> (#[trigger] questions@[i]).options@.len() <= i64::MAX,
    ensures
        ({
            let kept = storable_questions(questions@, questions@.len() as int);
            &&& r@.len() == kept.len()
            &&& forall|k: int| 0 <= k < r@.len() ==> {
                &&& (#[trigger] r@[k]).question@ == kept[k].question@
                &&& r@[k].options@ == kept[k].options@
                &&& r@[k].explanation@ == kept[k].explanation@
                &&& r@[k].correct_index == clamped_index(kept[k])
            }
        }),
{
    let mut r: Vec<QuizQuestionJson> = Vec::new();
    let mut i: usize = 0;
    while i < questions.len()
        invariant
            i <= questions@.len(),
            forall|j: int| 0 <= j < questions@.len() ==> (#[trigger] questions@[j]).options@.len() <= i64::MAX,
            ({
                let kept = storable_questions(questions@, i as int);
                &&& r@.len() == kept.len()
                &&& forall|k: int| 0 <= k < r@.len() ==> {
                    &&& (#[trigger] r@[k]).question@ == kept[k].question@
                    &&& r@[k].options@ == kept[k].options@
                    &&& r@[k].explanation@ == kept[k].explanation@
                    &&& r@[k].correct_index == clamped_index(kept[k])
                }
            }),
        decreases questions.len() - i,
    {
        let q = &questions[i];
        if q.options.len() >= 2 {
            let last = (q.options.len() - 1) as i64;
            let correct = if q.correct_index < 0 {
                0
            } else if q.correct_index > last {
                last
            } else {
                q.correct_index
            };
            let options = q.options.clone();
            assert forall|j: int| 0 <= j < options@.len() implies options@[j] == q.options@[j] by {
                assert(cloned::<String>(q.options[j], options[j]));
            }
            assert(options@ =~= q.options@);
            r.push(QuizQuestionJson {
                question: q.question.clone(),
                options,
                correct_index: correct,
                explanation: q.explanation.clone(),
            });
        }
        i = i + 1;
    }
    r
}

} // verus!
