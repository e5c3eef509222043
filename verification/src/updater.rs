//! The decisions of the self-updater: where to ask for the latest release,
//! whether it is newer, and which of its assets fits this platform.

use vstd::prelude::*;

use crate::text::{
    chars_of, extend_chars, find, find_chars, owned, same_chars, string_of, string_views,
    strip_start, strip_start_chars, CharClass,
};

verus! {

/// The owner of the repository that publishes releases.
pub const GITHUB_REPO_OWNER: &'static str = "BingFengHung";

/// The repository that publishes releases.
pub const GITHUB_REPO_NAME: &'static str = "cpl";

/// The GitHub API address of the latest release of `owner/name`.
pub open spec fn release_url(owner: Seq<char>, name: Seq<char>) -> Seq<char> {
    "https://api.github.com/repos/"@ + owner + "/"@ + name + "/releases/latest"@
}

/// The GitHub API address of the latest release of `owner/name`.
pub fn release_api_url(owner: &str, name: &str) -> (r: String)
    ensures
        r@ == release_url(owner@, name@),
{
    let mut t = chars_of("https://api.github.com/repos/");
    extend_chars(&mut t, &chars_of(owner));
    extend_chars(&mut t, &chars_of("/"));
    extend_chars(&mut t, &chars_of(name));
    extend_chars(&mut t, &chars_of("/releases/latest"));
    string_of(&t)
}

/// A release tag without its leading `v`s.
pub fn version_of_tag(tag: &str) -> (r: String)
    ensures
        r@ == strip_start(tag@, CharClass::Only('v')),
{
    string_of(&strip_start_chars(&chars_of(tag), &CharClass::Only('v')))
}

/// `Some(latest > current)` where both texts parse as semantic versions
/// (`semver::Version::parse`), ordered by semver's `Ord`; `None` otherwise.
pub uninterp spec fn semver_newer(current: Seq<char>, latest: Seq<char>) -> Option<bool>;

/// Compares two version texts as semantic versions.
///
/// Trusted: calls `semver::Version::parse` on both texts and, where both
/// parse, compares them with `>`. Besides naming the result, the contract
/// states that a version is never newer than the same text, which holds as
/// parsing is a function of the text and the derived `Ord` is a total order.
#[verifier::external_body]
fn compare_semver(current: &str, latest: &str) -> (r: Option<bool>)
    ensures
        r == semver_newer(current@, latest@),
        current@ == latest@ ==> r != Some(true),
{
    match (semver::Version::parse(current), semver::Version::parse(latest)) {
        (Ok(curr), Ok(newest)) => Some(newest > curr),
        _ => None,
    }
}

/// Whether the latest version counts as newer: by semantic version where
/// both texts parse, else whenever the texts differ.
pub open spec fn newer_by(compared: Option<bool>, current: Seq<char>, latest: Seq<char>) -> bool {
    match compared {
        Some(b) => b,
        None => latest != current,
    }
}

/// Whether the latest version counts as newer, given the semantic comparison.
pub fn newer_or_different(compared: Option<bool>, current: &str, latest: &str) -> (r: bool)
    ensures
        r == newer_by(compared, current@, latest@),
{
    match compared {
        Some(b) => b,
        None => !same_chars(&chars_of(latest), &chars_of(current)),
    }
}

/// Whether `latest` is a newer version than `current`.
pub fn is_newer_version(current: &str, latest: &str) -> (r: bool)
    ensures
        r == newer_by(semver_newer(current@, latest@), current@, latest@),
        current@ == latest@ ==> !r,
{
    newer_or_different(compare_semver(current, latest), current, latest)
}

/// Whether to download a release: when it is newer, or when forced.
pub fn wants_update(newer: bool, force: bool) -> (r: bool)
    ensures
        r == (newer || force),
{
    newer || force
}

/// The part of an asset name that marks the build for an OS and architecture.
pub open spec fn asset_marker(os: Seq<char>, arch: Seq<char>) -> Seq<char> {
    if os == "windows"@ {
        "windows"@
    } else if os == "macos"@ && arch == "aarch64"@ {
        "macos-arm64"@
    } else if os == "macos"@ {
        "macos"@
    } else if os == "linux"@ {
        "linux"@
    } else {
        os
    }
}

/// The part of an asset name that marks the build for an OS and architecture.
pub fn target_asset_name(os: &str, arch: &str) -> (r: String)
    ensures
        r@ == asset_marker(os@, arch@),
{
    let o = chars_of(os);
    if same_chars(&o, &chars_of("windows")) {
        owned("windows")
    } else if same_chars(&o, &chars_of("macos")) && same_chars(&chars_of(arch), &chars_of("aarch64")) {
        owned("macos-arm64")
    } else if same_chars(&o, &chars_of("macos")) {
        owned("macos")
    } else if same_chars(&o, &chars_of("linux")) {
        owned("linux")
    } else {
        owned(os)
    }
}

/// Whether an asset name fits the marker: it contains it or equals it.
pub open spec fn asset_fits(name: Seq<char>, marker: Seq<char>) -> bool {
    find(name, marker) is Some || name == marker
}

/// The index of the first name at or after `i` that fits the marker.
pub open spec fn first_fit_from(names: Seq<Seq<char>>, marker: Seq<char>, i: int) -> Option<int>
    decreases names.len() - i,
{
    if i < 0 || i >= names.len() {
        None
    } else if asset_fits(names[i], marker) {
        Some(i)
    } else {
        first_fit_from(names, marker, i + 1)
    }
}

/// The search from `k` finds the least index at or after `k` whose name fits
/// the marker, and finds nothing only when no name from `k` on fits.
pub proof fn first_fit_is_least(names: Seq<Seq<char>>, marker: Seq<char>, k: int)
    requires
        0 <= k,
    ensures
        first_fit_from(names, marker, k) matches Some(i) ==> k <= i < names.len() && asset_fits(
            names[i],
            marker,
        ) && forall|j: int| k <= j < i ==> !asset_fits(#[trigger] names[j], marker),
        first_fit_from(names, marker, k) is None ==> forall|j: int|
            k <= j < names.len() ==> !asset_fits(#[trigger] names[j], marker),
    decreases names.len() - k,
{
    if k < names.len() && !asset_fits(names[k], marker) {
        first_fit_is_least(names, marker, k + 1);
    }
}

/// The asset chosen is the first one whose name contains the marker or is
/// it: its name fits, and no earlier name does; none is chosen only when no
/// name fits.
pub proof fn chosen_asset_is_first_fit(names: Seq<Seq<char>>, marker: Seq<char>)
    ensures
        first_fit_from(names, marker, 0) matches Some(i) ==> 0 <= i < names.len() && (find(
            names[i],
            marker,
        ) is Some || names[i] == marker) && forall|j: int|
            0 <= j < i ==> !(find(#[trigger] names[j], marker) is Some || names[j] == marker),
        first_fit_from(names, marker, 0) is None ==> forall|j: int|
            0 <= j < names.len() ==> !(find(#[trigger] names[j], marker) is Some || names[j] == marker),
{
    first_fit_is_least(names, marker, 0);
}

/// The index of the first asset whose name fits the marker.
pub fn select_asset(names: &Vec<String>, marker: &str) -> (r: Option<usize>)
    ensures
        match r {
            Some(i) => first_fit_from(string_views(names@), marker@, 0) == Some(i as int),
            None => first_fit_from(string_views(names@), marker@, 0) is None,
        },
{
    let m = chars_of(marker);
    let mut i: usize = 0;
    while i < names.len()
        invariant
            i <= names.len(),
            m@ == marker@,
            first_fit_from(string_views(names@), marker@, 0) == first_fit_from(
                string_views(names@),
                marker@,
                i as int,
            ),
        decreases names.len() - i,
    {
        let n = chars_of(names[i].as_str());
        assert(string_views(names@)[i as int] == n@);
        let fits = match find_chars(&n, &m) {
            Some(_) => true,
            None => same_chars(&n, &m),
        };
        if fits {
            return Some(i);
        }
        i += 1;
    }
    None
}

} // verus!
