use ai_mentor::github::{append_source, is_skipped_dir, is_source};

#[test]
fn source_files_are_picked_by_extension_and_name() {
    assert!(is_source(Some("Main.java"), Some("java")));
    assert!(is_source(Some("App.TSX"), Some("TSX")), "extensions in any case");
    assert!(is_source(Some("Dockerfile"), None));
    assert!(is_source(Some("MAKEFILE"), None));
    assert!(!is_source(Some("Cargo.lock"), Some("lock")));
    assert!(!is_source(Some("package-lock.json"), Some("json")), "lock files are skipped");
    assert!(is_source(Some("package.json"), Some("json")));
    assert!(!is_source(Some("logo.png"), Some("png")));
    assert!(!is_source(None, None));
}

#[test]
fn bulky_directories_are_not_walked() {
    assert!(is_skipped_dir("node_modules"));
    assert!(is_skipped_dir(".git"));
    assert!(!is_skipped_dir("src"));
}

#[test]
fn sources_are_packed_until_the_cap() {
    let mut out = String::new();
    assert!(append_source(&mut out, "a.rs", "fn a() {}", 20));
    assert_eq!(out, "\n\n--- a.rs ---\nfn a() {}");
    assert!(!append_source(&mut out, "b.rs", "fn bb() {}", 20));
    assert_eq!(
        out,
        "\n\n--- a.rs ---\nfn a() {}\n\n--- b.rs (omitted: size cap reached) ---\n"
    );
}
