use ai_mentor::models::{Issue, VerificationJson};
use ai_mentor::verify::{fallback_prompt, needs_fallback, settle_review, unknown_review, SOURCE_CAP_BYTES};

#[test]
fn an_empty_or_failed_review_falls_back_to_pasted_sources() {
    assert!(needs_fallback(None));
    assert!(needs_fallback(Some("  \n ")));
    assert!(!needs_fallback(Some("Looks fine.")));
}

#[test]
fn the_fallback_prompt_appends_the_sources() {
    assert_eq!(fallback_prompt("Review it.", "   "), None, "nothing worth pasting");
    assert_eq!(
        fallback_prompt("Review it.", "--- a.rs ---\nfn main() {}").as_deref(),
        Some("Review it.\n\nThe repository source files follow.\n--- a.rs ---\nfn main() {}")
    );
    assert_eq!(SOURCE_CAP_BYTES, 180_000);
}

#[test]
fn a_verdict_is_settled_before_it_is_stored() {
    let v = settle_review(VerificationJson {
        verdict: "  ".to_string(),
        score: 140,
        issues: vec![Issue { severity: "high".into(), ..Default::default() }],
    });
    assert_eq!(v.verdict, "unknown");
    assert_eq!(v.score, 100);
    assert_eq!(v.issues.len(), 1);

    let v = settle_review(VerificationJson { verdict: "pass".into(), score: -3, issues: vec![] });
    assert_eq!(v.verdict, "pass");
    assert_eq!(v.score, 0);

    let u = unknown_review();
    assert_eq!(u.verdict, "unknown");
    assert_eq!(u.score, 0);
    assert!(u.issues.is_empty());
}
