use cpl::updater::{
    is_newer_version, newer_or_different, release_api_url, select_asset, target_asset_name,
    version_of_tag, wants_update, GITHUB_REPO_NAME, GITHUB_REPO_OWNER,
};

fn s(t: &str) -> String {
    t.to_string()
}

#[test]
fn release_url() {
    assert_eq!(
        release_api_url(GITHUB_REPO_OWNER, GITHUB_REPO_NAME),
        "https://api.github.com/repos/BingFengHung/cpl/releases/latest"
    );
}

#[test]
fn tags_lose_leading_v() {
    assert_eq!(version_of_tag("v1.2.0"), "1.2.0");
    assert_eq!(version_of_tag("vv2.0.0"), "2.0.0");
    assert_eq!(version_of_tag("1.0.0v"), "1.0.0v");
    assert_eq!(version_of_tag("vvv"), "");
}

#[test]
fn newer_versions() {
    assert!(is_newer_version("1.0.0", "1.0.1"));
    assert!(is_newer_version("1.0.0", "1.10.0"));
    assert!(is_newer_version("1.2.0", "1.10.0-alpha"));
    assert!(!is_newer_version("1.0.0", "0.9.9"));
    assert!(!is_newer_version("1.0.0", "1.0.0-rc.1"));
    assert!(is_newer_version("1.0.0", "not-a-version"));
}

#[test]
fn version_not_newer_than_itself_law_example() {
    for v in ["1.0.0", "2.1.3-beta", "garbage", ""] {
        assert!(!is_newer_version(v, v));
    }
}

#[test]
fn comparison_fallback() {
    assert!(newer_or_different(Some(true), "1", "1"));
    assert!(!newer_or_different(Some(false), "1", "2"));
    assert!(newer_or_different(None, "a", "b"));
    assert!(!newer_or_different(None, "a", "a"));
}

#[test]
fn update_wanted() {
    assert!(wants_update(true, false));
    assert!(wants_update(false, true));
    assert!(!wants_update(false, false));
}

#[test]
fn asset_markers() {
    assert_eq!(target_asset_name("windows", "x86_64"), "windows");
    assert_eq!(target_asset_name("macos", "aarch64"), "macos-arm64");
    assert_eq!(target_asset_name("macos", "x86_64"), "macos");
    assert_eq!(target_asset_name("linux", "aarch64"), "linux");
    assert_eq!(target_asset_name("freebsd", "x86_64"), "freebsd");
}

#[test]
fn asset_selection() {
    let names = vec![s("cpl-windows.zip"), s("cpl-macos-arm64.tar.gz"), s("cpl-linux.tar.gz")];
    assert_eq!(select_asset(&names, "linux"), Some(2));
    assert_eq!(select_asset(&names, "macos"), Some(1));
    assert_eq!(select_asset(&names, "freebsd"), None);
    assert_eq!(select_asset(&vec![], "linux"), None);
}
