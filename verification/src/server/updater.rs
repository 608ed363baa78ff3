//! Deciding on an update from a release description.

use vstd::prelude::*;
use vstd::string::StringExecFns;
use crate::text::{utf8, has_suffix, str_ends_with, str_eq, push_char};

verus! {

/// A downloadable file of a release.
#[derive(Debug, Clone)]
pub struct ReleaseAsset {
    pub name: String,
    pub browser_download_url: String,
    pub size: u64,
    pub content_type: String,
}

/// A published release.
#[derive(Debug, Clone)]
pub struct GitHubRelease {
    pub tag_name: String,
    pub name: String,
    pub body: Option<String>,
    pub draft: bool,
    pub prerelease: bool,
    pub assets: Vec<ReleaseAsset>,
    pub published_at: String,
}

/// Result of an update check.
#[derive(Debug, Clone)]
pub struct UpdateInfo {
    pub current_version: String,
    pub latest_version: String,
    pub update_available: bool,
    pub release_notes: Option<String>,
    pub download_url: Option<String>,
    pub asset_name: Option<String>,
    pub asset_size: Option<u64>,
}

/// Why an update check failed.
#[derive(Debug, Clone, Copy, PartialEq, Eq, Structural)]
pub enum UpdateError {
    /// A version is not a semantic version.
    BadVersion,
}

/// File suffix of the installer for an operating system.
pub open spec fn asset_suffix_for(os: Seq<char>) -> Seq<char> {
    if os == "windows"@ {
        ".msi"@
    } else if os == "linux"@ {
        ".deb"@
    } else if os == "macos"@ {
        ".tar.gz"@
    } else {
        ""@
    }
}

/// File suffix of the installer for an operating system (`windows`,
/// `linux` or `macos`; empty for any other).
pub fn platform_asset_suffix(os: &str) -> (r: &'static str)
    ensures
        r@ == asset_suffix_for(os@),
{
    if str_eq(os, "windows") {
        ".msi"
    } else if str_eq(os, "linux") {
        ".deb"
    } else if str_eq(os, "macos") {
        ".tar.gz"
    } else {
        ""
    }
}

/// Position of the first asset whose name ends with `suffix`.
pub open spec fn first_asset(assets: Seq<ReleaseAsset>, suffix: Seq<char>, i: int) -> Option<int>
    decreases assets.len() - i,
{
    if i < 0 || i >= assets.len() {
        None
    } else if has_suffix(utf8(assets[i].name@), utf8(suffix)) {
        Some(i)
    } else {
        first_asset(assets, suffix, i + 1)
    }
}

proof fn lemma_first_asset_range(assets: Seq<ReleaseAsset>, suffix: Seq<char>, i: int)
    ensures
        first_asset(assets, suffix, i) matches Some(k) ==> i <= k < assets.len(),
    decreases assets.len() - i,
{
    if 0 <= i < assets.len() && !has_suffix(utf8(assets[i].name@), utf8(suffix)) {
        lemma_first_asset_range(assets, suffix, i + 1);
    }
}

pub fn find_platform_asset(assets: &Vec<ReleaseAsset>, suffix: &str) -> (r: Option<usize>)
    ensures
        r matches Some(i) ==> i < assets@.len(),
        match first_asset(assets@, suffix@, 0) {
            Some(i) => r == Some(i as usize),
            None => r is None,
        },
{
    let mut i: usize = 0;
    while i < assets.len()
        invariant
            i <= assets@.len(),
            first_asset(assets@, suffix@, 0) == first_asset(assets@, suffix@, i as int),
        decreases assets@.len() - i,
    {
        if str_ends_with(assets[i].name.as_str(), suffix) {
            return Some(i);
        }
        i = i + 1;
    }
    None
}

/// Number of leading `v` characters of a tag.
pub open spec fn leading_vs(tag: Seq<char>, i: int) -> int
    decreases tag.len() - i,
{
    if i < 0 || i >= tag.len() || tag[i] != 'v' {
        i
    } else {
        leading_vs(tag, i + 1)
    }
}

/// The version of a release tag: the tag without its leading `v`s.
pub fn tag_version(tag: &str) -> (r: String)
    ensures
        r@ == tag@.subrange(leading_vs(tag@, 0), tag@.len() as int),
{
    let n = tag.unicode_len();
    let mut i: usize = 0;
    while i < n && tag.get_char(i) == 'v'
        invariant
            n == tag@.len(),
            i <= n,
            leading_vs(tag@, 0) == leading_vs(tag@, i as int),
        decreases n - i,
    {
        i = i + 1;
    }
    let mut out = String::new();
    let mut j: usize = i;
    while j < n
        invariant
            n == tag@.len(),
            i <= j <= n,
            out@ == tag@.subrange(i as int, j as int),
        decreases n - j,
    {
        let c = tag.get_char(j);
        out = push_char(out, c);
        assert(out@ =~= tag@.subrange(i as int, j + 1));
        j = j + 1;
    }
    out
}

/// Whether `latest` is a newer semantic version than `current`, or `None`
/// when either does not parse.
pub uninterp spec fn semver_newer(latest: Seq<char>, current: Seq<char>) -> Option<bool>;

/// Wraps `semver::Version::parse` on both versions and their `>`
/// comparison: `None` when either fails to parse, else whether `latest`
/// orders after `current`.
#[verifier::external_body]
fn compare_versions(latest: &str, current: &str) -> (r: Option<bool>)
    ensures
        r == semver_newer(latest@, current@),
{
    match (semver::Version::parse(current), semver::Version::parse(latest)) {
        (Ok(c), Ok(l)) => Some(l > c),
        _ => None,
    }
}

/// The update information for a release given whether it is newer.
pub fn update_info_for(current: &str, latest: String, newer: bool, release: &GitHubRelease, suffix: &str) -> (r:
    UpdateInfo)
    ensures
        r.current_version@ == current@,
        r.latest_version == latest,
        r.update_available == newer,
        r.release_notes == release.body,
        match first_asset(release.assets@, suffix@, 0) {
            Some(i) => r.download_url == Some(release.assets@[i].browser_download_url)
                && r.asset_name == Some(release.assets@[i].name) && r.asset_size == Some(
                release.assets@[i].size,
            ),
            None => r.download_url is None && r.asset_name is None && r.asset_size is None,
        },
{
    proof {
        lemma_first_asset_range(release.assets@, suffix@, 0);
    }
    let na = release.assets.len();
    let found = find_platform_asset(&release.assets, suffix);
    let notes = match &release.body {
        Some(b) => Some(b.clone()),
        None => None,
    };
    match found {
        Some(i) => {
            let a = &release.assets[i];
            assert(first_asset(release.assets@, suffix@, 0) == Some(i as int));
            let url = a.browser_download_url.clone();
            let name = a.name.clone();
            assert(url == release.assets@[i as int].browser_download_url);
            assert(name == release.assets@[i as int].name);
            UpdateInfo {
                current_version: current.to_string(),
                latest_version: latest,
                update_available: newer,
                release_notes: notes,
                download_url: Some(url),
                asset_name: Some(name),
                asset_size: Some(a.size),
            }
        },
        None => UpdateInfo {
            current_version: current.to_string(),
            latest_version: latest,
            update_available: newer,
            release_notes: notes,
            download_url: None,
            asset_name: None,
            asset_size: None,
        },
    }
}

/// Checks a release against the running version: its tag (without leading
/// `v`s) must parse as a semantic version, as must the current version.
pub fn evaluate_release(current: &str, release: &GitHubRelease, suffix: &str) -> (r: Result<
    UpdateInfo,
    UpdateError,
>)
    ensures
        ({
            let latest = release.tag_name@.subrange(
                leading_vs(release.tag_name@, 0),
                release.tag_name@.len() as int,
            );
            match semver_newer(latest, current@) {
                None => r == Err::<UpdateInfo, UpdateError>(UpdateError::BadVersion),
                Some(newer) => r matches Ok(info) && info.update_available == newer
                    && info.latest_version@ == latest && info.current_version@ == current@
                    && info.release_notes == release.body && match first_asset(
                    release.assets@,
                    suffix@,
                    0,
                ) {
                    Some(i) => info.download_url == Some(release.assets@[i].browser_download_url)
                        && info.asset_name == Some(release.assets@[i].name) && info.asset_size
                        == Some(release.assets@[i].size),
                    None => info.download_url is None && info.asset_name is None
                        && info.asset_size is None,
                },
            }
        }),
{
    let latest = tag_version(release.tag_name.as_str());
    match compare_versions(latest.as_str(), current) {
        None => Err(UpdateError::BadVersion),
        Some(newer) => Ok(update_info_for(current, latest, newer, release, suffix)),
    }
}

} // verus!
