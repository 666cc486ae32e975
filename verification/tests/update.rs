use ai_mentor::update::{asset_target, current_version, pick_update, ReleaseCandidate};

#[test]
fn asset_target_matches_the_release_workflow_slugs() {
    let target = asset_target();
    assert!(target == "windows-x86_64" || target == "linux-x86_64");
}

#[test]
fn current_version_is_the_crate_version() {
    assert_eq!(current_version(), "0.1.0");
    assert!(self_update::version::bump_is_greater(current_version(), "99.0.0").unwrap());
    assert!(!self_update::version::bump_is_greater(current_version(), current_version()).unwrap());
}

fn release(version: &str, assets: &[&str]) -> ReleaseCandidate {
    ReleaseCandidate {
        version: version.to_string(),
        name: format!("v{version}"),
        notes: Some("notes".to_string()),
        date: "2026-01-01".to_string(),
        asset_names: assets.iter().map(|a| a.to_string()).collect(),
    }
}

#[test]
fn only_a_newer_installable_release_is_offered() {
    let releases = vec![
        release("9.0.0", &["ai-mentor-macos.tar.gz"]),
        release("2.0.0", &["ai-mentor-linux-x86_64.tar.gz", "ai-mentor-windows-x86_64.zip"]),
    ];
    let offer = pick_update("0.1.0", &releases, "linux-x86_64").expect("versions parse");
    let info = offer.expect("2.0.0 is newer and installable");
    assert_eq!(info.version, "2.0.0", "the release without an asset here is passed over");
    assert_eq!(info.name, "v2.0.0");
    assert_eq!(info.notes, "notes");

    assert!(pick_update("3.0.0", &releases, "linux-x86_64").expect("parse").is_none());
    assert!(pick_update("0.1.0", &releases, "plan9").expect("parse").is_none());
    assert!(pick_update("0.1.0", &[], "linux-x86_64").expect("parse").is_none());
}

#[test]
fn an_unreadable_version_is_an_error() {
    let releases = vec![release("not-a-version", &["x-linux-x86_64"])];
    assert!(pick_update("0.1.0", &releases, "linux-x86_64").is_err());
}
