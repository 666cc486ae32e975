use ai_mentor::job::{custom_subject_name, match_subject};
use ai_mentor::models::catalogue_subjects;

fn catalogue() -> Vec<String> {
    catalogue_subjects()
}

#[test]
fn a_version_number_does_not_stop_a_match() {
    let c = catalogue();
    assert_eq!(match_subject("Java 17", &c).as_deref(), Some("Java"));
    assert_eq!(
        match_subject("Spring Boot 3.x", &c).as_deref(),
        Some("Spring Boot")
    );
    assert_eq!(match_subject("spring-boot", &c).as_deref(), Some("Spring Boot"));
}

#[test]
fn java_never_matches_javascript() {
    let c = catalogue();
    assert_eq!(match_subject("Java", &c).as_deref(), Some("Java"));
    assert_eq!(match_subject("JavaScript", &c).as_deref(), Some("JavaScript"));
    assert_eq!(
        match_subject("Strong JavaScript fundamentals", &c).as_deref(),
        Some("JavaScript"),
        "the longer phrase still resolves to JavaScript, not Java"
    );
}

#[test]
fn short_forms_resolve_to_the_catalogue_spelling() {
    let c = catalogue();
    assert_eq!(match_subject("K8s", &c).as_deref(), Some("Kubernetes"));
    assert_eq!(match_subject("Postgres", &c).as_deref(), Some("PostgreSQL"));
    assert_eq!(
        match_subject("CI/CD", &c).as_deref(),
        Some("CI/CD (GitHub Actions)")
    );
    assert_eq!(
        match_subject("DSA", &c).as_deref(),
        Some("Data Structures & Algorithms")
    );
}

#[test]
fn a_skill_named_inside_a_sentence_is_found() {
    let c = catalogue();
    assert_eq!(
        match_subject("Hands-on experience with Docker", &c).as_deref(),
        Some("Docker")
    );
    assert_eq!(
        match_subject("deploying to AWS at scale", &c).as_deref(),
        Some("AWS")
    );
    assert_eq!(
        match_subject("comfortable with k8s in production", &c).as_deref(),
        Some("Kubernetes")
    );
}

#[test]
fn something_the_catalogue_cannot_teach_returns_none() {
    let c = catalogue();
    assert_eq!(match_subject("gRPC", &c), None);
    assert_eq!(match_subject("", &c), None);
    assert_eq!(match_subject("   ", &c), None);
}

#[test]
fn custom_subjects_keep_their_own_capitalisation_and_stay_short() {
    assert_eq!(custom_subject_name("gRPC"), "gRPC");
    assert_eq!(custom_subject_name("GraphQL"), "GraphQL");
    assert_eq!(custom_subject_name("  rabbitmq  "), "Rabbitmq");
    assert_eq!(
        custom_subject_name("event driven architecture with brokers and queues"),
        "Event driven architecture with",
        "a long phrase is trimmed to something studiable"
    );
}
