//! Small pieces of presentation logic: reading time, grade hints and issue
//! severities.

use vstd::prelude::*;
use crate::text::{concat, owned, push_str, int_text, decimal, chars_of, split_words, text_eq, trim_chars, trimmed, seqs, words, ascii_lower, lower_ascii};

verus! {

broadcast use vstd::string::group_string_axioms;

/// Minutes to read `word_count` words at 180 words a minute, rounded up, and
/// never less than one.
pub open spec fn minutes_to_read(word_count: int) -> int {
    let m = (word_count + 179) / 180;
    if m < 1 {
        1
    } else {
        m
    }
}

/// Minutes a lesson takes to read at 180 words a minute, rounded up; an empty
/// lesson still reads as a minute.
pub fn reading_minutes(markdown: &str) -> (r: i64)
    ensures
        r == minutes_to_read(words(markdown@).len() as int),
{
    let all = split_words(&chars_of(markdown));
    assert(seqs(all@).len() == all.len());
    let n = all.len() as u64;
    let m = (n / 180 + if n % 180 == 0 { 0 } else { 1 }) as i64;
    assert(m == (n + 179) / 180) by (nonlinear_arith)
        requires
            m == n / 180 + if n % 180 == 0 { 0int } else { 1int },
    ;
    if m < 1 {
        1
    } else {
        m
    }
}

/// What each SM-2 grade means, for the grading buttons.
pub open spec fn grade_meaning(grade: i64) -> Seq<char> {
    if grade == 0 {
        "Blank \u{2014} no recall at all"@
    } else if grade == 1 {
        "Wrong, but the answer felt familiar"@
    } else if grade == 2 {
        "Wrong, and it was easy to see why"@
    } else if grade == 3 {
        "Correct, with serious effort"@
    } else if grade == 4 {
        "Correct, after a small hesitation"@
    } else {
        "Perfect, instant recall"@
    }
}

pub fn grade_hint(grade: i64) -> (r: &'static str)
    ensures
        r@ == grade_meaning(grade),
{
    match grade {
        0 => "Blank \u{2014} no recall at all",
        1 => "Wrong, but the answer felt familiar",
        2 => "Wrong, and it was easy to see why",
        3 => "Correct, with serious effort",
        4 => "Correct, after a small hesitation",
        _ => "Perfect, instant recall",
    }
}

/// The bucket an issue's severity falls in: "high", "med" (for "med" or
/// "medium", in any ASCII case and surrounding whitespace) or "low".
pub open spec fn severity_of(severity: Seq<char>) -> Seq<char> {
    let s = trimmed(severity).map_values(|c: char| ascii_lower(c));
    if s == "high"@ {
        "high"@
    } else if s == "med"@ || s == "medium"@ {
        "med"@
    } else {
        "low"@
    }
}

pub fn severity_bucket(severity: &str) -> (r: &'static str)
    ensures
        r@ == severity_of(severity@),
{
    let t = trim_chars(&chars_of(severity));
    let lower = lower_ascii(&t);
    let s = crate::text::string_of(&lower);
    if text_eq(s.as_str(), "high") {
        "high"
    } else if text_eq(s.as_str(), "med") || text_eq(s.as_str(), "medium") {
        "med"
    } else {
        "low"
    }
}

/// Whether an issue shows under a severity filter: every issue under
/// "all", otherwise those whose severity falls in the filter's bucket.
pub fn issue_shown(filter: &str, severity: &str) -> (r: bool)
    ensures
        r == (filter@ == "all"@ || severity_of(severity@) == filter@),
{
    text_eq(filter, "all") || text_eq(severity_bucket(severity), filter)
}

/// Where an issue sits: "file:line" when both are known, else the file
/// (which may be empty).
pub fn issue_location(file: &str, line: Option<i64>) -> (r: String)
    ensures
        r@ == match line {
            Some(n) => if file@.len() > 0 { file@ + ":"@ + decimal(n) } else { file@ },
            None => file@,
        },
{
    match line {
        Some(n) => if !file.is_empty() {
            let mut out = concat(file, ":");
            push_str(&mut out, int_text(n).as_str());
            out
        } else {
            owned(file)
        },
        None => owned(file),
    }
}

} // verus!
