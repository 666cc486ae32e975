//! In-app updates: which published release, if any, is worth installing.
//! Fetching the release list and replacing the executable are I/O and happen
//! around this module; the choice itself is made here.

use vstd::prelude::*;
use crate::text::names;

verus! {

/// `self_update`'s error type, carried through from a version comparison.
#[verifier::external_type_specification]
#[verifier::external_body]
pub struct ExUpdateCrateError(self_update::errors::Error);

pub const REPO_OWNER: &'static str = "Amithkrishna29z";
pub const REPO_NAME: &'static str = "ai-mentor";
pub const BIN_NAME: &'static str = "ai-mentor";

/// The version of this build.
pub fn current_version() -> (r: &'static str)
    ensures
        r@ == "0.1.0"@,
{
    "0.1.0"
}

/// `std::path::MAIN_SEPARATOR`: `\` on Windows, `/` on Unix.
#[verifier::external_body]
fn path_separator() -> (r: char)
    ensures
        r == '/' || r == '\\',
{
    std::path::MAIN_SEPARATOR
}

/// The platform slug used in release asset names, matching the packaging
/// step of the release workflow.
pub fn asset_target() -> (r: &'static str)
    ensures
        r@ == "windows-x86_64"@ || r@ == "linux-x86_64"@,
{
    if path_separator() == '\\' {
        "windows-x86_64"
    } else {
        "linux-x86_64"
    }
}

/// What the header shows of a newer release.
#[derive(Debug, Clone)]
pub struct ReleaseInfo {
    pub version: String,
    pub name: String,
    pub notes: String,
    pub date: String,
}

/// A published release as the release list reports it: its version, name,
/// notes and date, and the names of its downloadable assets.
#[derive(Debug, Clone)]
pub struct ReleaseCandidate {
    pub version: String,
    pub name: String,
    pub notes: Option<String>,
    pub date: String,
    pub asset_names: Vec<String>,
}

/// Why no decision about an update could be made.
#[derive(Debug, Clone, PartialEq, Eq)]
pub enum UpdateError {
    /// A version string could not be compared; the text says why.
    Version(String),
}

/// `needle` occurs somewhere in `hay`.
pub open spec fn contains_text(hay: Seq<char>, needle: Seq<char>) -> bool {
    exists|k: int| 0 <= k && k + needle.len() <= hay.len() && #[trigger] hay.subrange(k, k + needle.len()) == needle
}

/// Some asset name contains the platform slug.
pub open spec fn carries_target(asset_names: Seq<Seq<char>>, target: Seq<char>) -> bool {
    exists|i: int| 0 <= i < asset_names.len() && contains_text(#[trigger] asset_names[i], target)
}

/// The outcome of `self_update::version::bump_is_greater(current, other)`:
/// whether `other` is a greater semantic version than `current`, or `None`
/// when either does not parse.
pub uninterp spec fn bump_greater(current: Seq<char>, other: Seq<char>) -> Option<bool>;

/// `self_update::update::Release::has_target_asset`: whether some asset's
/// name contains `target` (`str::contains`).
#[verifier::external_body]
fn has_target_asset(asset_names: &Vec<String>, target: &str) -> (r: bool)
    ensures
        r == carries_target(names(asset_names@), target@),
{
    let release = self_update::update::Release {
        assets: asset_names.iter().map(|n| self_update::update::ReleaseAsset { name: n.clone(), download_url: String::new() }).collect(),
        ..Default::default()
    };
    release.has_target_asset(target)
}

/// `self_update::version::bump_is_greater`: compares two semantic versions.
/// Its outcome is named by `bump_greater`.
#[verifier::external_body]
fn bump_is_greater(current: &str, other: &str) -> (r: Result<bool, self_update::errors::Error>)
    ensures
        match r {
            Ok(b) => bump_greater(current@, other@) == Some(b),
            Err(_) => bump_greater(current@, other@) is None,
        },
{
    self_update::version::bump_is_greater(current, other)
}

/// The `Display` text of a `self_update` error. The error is opaque here, so
/// nothing is stated of the text.
#[verifier::external_body]
fn error_text(e: &self_update::errors::Error) -> String {
    e.to_string()
}

/// The index of the first release carrying an asset for `target`, if any.
pub fn first_installable(releases: &[ReleaseCandidate], target: &str) -> (r: Option<usize>)
    ensures
        match r {
            Some(i) => i < releases@.len() && carries_target(names(releases@[i as int].asset_names@), target@)
                && forall|j: int| 0 <= j < i ==> !carries_target(names((#[trigger] releases@[j]).asset_names@), target@),
            None => forall|j: int| 0 <= j < releases@.len() ==> !carries_target(names((#[trigger] releases@[j]).asset_names@), target@),
        },
{
    let mut i: usize = 0;
    while i < releases.len()
        invariant
            i <= releases@.len(),
            forall|j: int| 0 <= j < i ==> !carries_target(names((#[trigger] releases@[j]).asset_names@), target@),
        decreases releases.len() - i,
    {
        if has_target_asset(&releases[i].asset_names, target) {
            return Some(i);
        }
        i = i + 1;
    }
    None
}

/// What the header offers of a release, given whether it is newer than the
/// running build: its version, name, notes (empty when it has none) and date.
pub fn release_offer(release: &ReleaseCandidate, newer: bool) -> (r: Option<ReleaseInfo>)
    ensures
        match r {
            Some(info) => newer && info.version@ == release.version@ && info.name@ == release.name@
                && info.date@ == release.date@
                && info.notes@ == (match release.notes {
                    Some(n) => n@,
                    None => Seq::<char>::empty(),
                }),
            None => !newer,
        },
{
    if !newer {
        return None;
    }
    let notes = match &release.notes {
        Some(n) => n.clone(),
        None => String::new(),
    };
    Some(ReleaseInfo {
        version: release.version.clone(),
        name: release.name.clone(),
        notes,
        date: release.date.clone(),
    })
}

/// Look for a release newer than `current` among `releases` (newest first):
/// only the first one that carries an asset for `target` counts. `Ok(None)`
/// means the running build is current, or nothing can be installed here.
pub fn pick_update(current: &str, releases: &[ReleaseCandidate], target: &str) -> (r: Result<Option<ReleaseInfo>, UpdateError>)
    ensures
        match first_installable_spec(releases@, target@) {
            None => r == Ok::<Option<ReleaseInfo>, UpdateError>(None),
            Some(i) => match bump_greater(current@, releases@[i].version@) {
                None => r matches Err(UpdateError::Version(_)),
                Some(newer) => r matches Ok(offer) && (match offer {
                    Some(info) => newer && info.version@ == releases@[i].version@
                        && info.name@ == releases@[i].name@ && info.date@ == releases@[i].date@
                        && info.notes@ == (match releases@[i].notes {
                            Some(n) => n@,
                            None => Seq::<char>::empty(),
                        }),
                    None => !newer,
                }),
            },
        },
{
    let i = match first_installable(releases, target) {
        Some(i) => i,
        None => {
            proof {
                lemma_first_installable_none(releases@, target@);
            }
            return Ok(None);
        }
    };
    proof {
        lemma_first_installable_some(releases@, target@, i as int);
    }
    match bump_is_greater(current, releases[i].version.as_str()) {
        Ok(newer) => Ok(release_offer(&releases[i], newer)),
        Err(e) => Err(UpdateError::Version(error_text(&e))),
    }
}

/// The position of the first release that carries an asset for `target`.
pub open spec fn first_installable_spec(releases: Seq<ReleaseCandidate>, target: Seq<char>) -> Option<int> {
    if exists|i: int| 0 <= i < releases.len() && carries_target(names(releases[i].asset_names@), target)
        && forall|j: int| 0 <= j < i ==> !carries_target(names((#[trigger] releases[j]).asset_names@), target) {
        Some(choose|i: int| 0 <= i < releases.len() && carries_target(names(releases[i].asset_names@), target)
            && forall|j: int| 0 <= j < i ==> !carries_target(names((#[trigger] releases[j]).asset_names@), target))
    } else {
        None
    }
}

proof fn lemma_first_installable_none(releases: Seq<ReleaseCandidate>, target: Seq<char>)
    requires
        forall|j: int| 0 <= j < releases.len() ==> !carries_target(names((#[trigger] releases[j]).asset_names@), target),
    ensures
        first_installable_spec(releases, target) is None,
{
}

proof fn lemma_first_installable_some(releases: Seq<ReleaseCandidate>, target: Seq<char>, i: int)
    requires
        0 <= i < releases.len(),
        carries_target(names(releases[i].asset_names@), target),
        forall|j: int| 0 <= j < i ==> !carries_target(names((#[trigger] releases[j]).asset_names@), target),
    ensures
        first_installable_spec(releases, target) == Some(i),
{
    let k = choose|k: int| 0 <= k < releases.len() && carries_target(names(releases[k].asset_names@), target)
        && forall|j: int| 0 <= j < k ==> !carries_target(names((#[trigger] releases[j]).asset_names@), target);
    if k < i {
        assert(!carries_target(names(releases[k].asset_names@), target));
    } else if k > i {
        assert(!carries_target(names(releases[i].asset_names@), target));
    }
}

} // verus!
