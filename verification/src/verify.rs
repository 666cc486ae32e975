//! Weekly-project verification: what is handed to the review, when the
//! review falls back to pasted sources, and how its verdict is settled.
//! Cloning, running the CLI and parsing its JSON happen around this module.

use vstd::prelude::*;
use crate::text::{trimmed, is_blank, concat, owned, push_str};
use crate::models::VerificationJson;

verus! {

broadcast use vstd::string::group_string_axioms;

/// Upper bound on source text pasted into the fallback prompt.
pub const SOURCE_CAP_BYTES: usize = 180_000;

/// What a project review needs: the project, its repository and that
/// week's content.
#[derive(Debug, Clone)]
pub struct VerifyRequest {
    pub weekly_project_id: i64,
    pub github_url: String,
    pub week_subskills: String,
    pub description: String,
    pub acceptance: String,
}

/// Whether the review run inside the clone gave nothing usable (it failed,
/// or replied with whitespace only), so the sources are pasted instead.
pub fn needs_fallback(report: Option<&str>) -> (r: bool)
    ensures
        r == match report {
            Some(text) => trimmed(text@).len() == 0,
            None => true,
        },
{
    match report {
        Some(text) => is_blank(text),
        None => true,
    }
}

/// The text placed between the prompt and the pasted sources.
pub open spec fn sources_lead() -> Seq<char> {
    "\n\nThe repository source files follow.\n"@
}

/// The fallback prompt: the review prompt followed by the packed sources,
/// or `None` when there are no sources worth pasting.
pub fn fallback_prompt(prompt: &str, sources: &str) -> (r: Option<String>)
    ensures
        match r {
            Some(p) => trimmed(sources@).len() != 0 && p@ == prompt@ + sources_lead() + sources@,
            None => trimmed(sources@).len() == 0,
        },
{
    if is_blank(sources) {
        return None;
    }
    let mut p = concat(prompt, "\n\nThe repository source files follow.\n");
    push_str(&mut p, sources);
    Some(p)
}

/// A score held to 0..=100.
pub open spec fn clamped_score(score: i64) -> i64 {
    if score < 0 {
        0
    } else if score > 100 {
        100
    } else {
        score
    }
}

/// A parsed verdict made presentable: the score held to 0..=100 and an
/// empty (or whitespace-only) verdict read as "unknown"; the issues are
/// kept as they are.
pub fn settle_review(review: VerificationJson) -> (r: VerificationJson)
    ensures
        r.score == clamped_score(review.score),
        r.verdict@ == (if trimmed(review.verdict@).len() == 0 { "unknown"@ } else { review.verdict@ }),
        r.issues@ == review.issues@,
{
    let mut v = review;
    v.score = if v.score < 0 {
        0
    } else if v.score > 100 {
        100
    } else {
        v.score
    };
    if is_blank(v.verdict.as_str()) {
        v.verdict = owned("unknown");
    }
    v
}

/// The record stored when the CLI gave no verdict block: verdict
/// "unknown", score 0, no issues.
pub fn unknown_review() -> (r: VerificationJson)
    ensures
        r.verdict@ == "unknown"@,
        r.score == 0,
        r.issues@.len() == 0,
{
    VerificationJson { verdict: owned("unknown"), score: 0, issues: Vec::new() }
}

} // verus!
