//! Update checks: which release a `latest.json` document describes for the
//! running platform, which installer assets it offers, whether a silent
//! download is possible, and whether the release is newer.
use vstd::prelude::*;

use crate::error::AppError;
use crate::json::{json_get, json_str, json_u64, JsonValue};
use crate::text::{chars_of, has_prefix, has_prefix_exec, opt_view, str_eq, trim, trim_string, views};

verus! {

/// Release page opened when `latest.json` names none.
pub const DEFAULT_RELEASE_URL: &'static str = "https://github.com/q541810/Marcel_ssh/releases";

/// Where `latest.json` is looked up, in order (GitHub raw, then jsDelivr).
pub const CHECK_URLS: [&'static str; 2] = [
    "https://raw.githubusercontent.com/q541810/Marcel_ssh/main/latest.json",
    "https://cdn.jsdelivr.net/gh/q541810/Marcel_ssh@main/latest.json",
];

/// What an update check reports to the user interface.
#[derive(Debug, Clone)]
pub struct UpdateCheckResult {
    pub has_update: bool,
    pub latest_version: String,
    pub release_url: String,
    /// Direct installer link of this platform.
    pub installer_url: Option<String>,
    /// minisign signature (Windows only).
    pub signature: Option<String>,
    /// Installer sha256 (lower-case hex).
    pub sha256: Option<String>,
    /// Installer size in bytes.
    pub size: Option<u64>,
}

/// Installer type of the running platform.
#[derive(Debug, Clone, Copy, PartialEq, Eq, Structural)]
pub enum InstallKind {
    /// Windows: NSIS installer, installed silently after exit.
    Exe,
    /// Android: APK handed to the system installer.
    Apk,
    /// Other desktops: check and notify only, download by hand.
    NoInstaller,
}

/// What the platform supports for updates.
#[derive(Debug, Clone)]
pub struct UpdateCapabilities {
    pub install_kind: InstallKind,
    /// Background download with install when ready.
    pub silent_download: bool,
}

/// The installer type of a target operating system (as
/// `std::env::consts::OS` names it).
pub open spec fn install_kind_of(target_os: Seq<char>) -> InstallKind {
    if target_os == "windows"@ {
        InstallKind::Exe
    } else if target_os == "android"@ {
        InstallKind::Apk
    } else {
        InstallKind::NoInstaller
    }
}

/// The installer type of the platform named `target_os`.
pub fn install_kind(target_os: &str) -> (r: InstallKind)
    ensures
        r == install_kind_of(target_os@),
{
    if str_eq(target_os, "windows") {
        InstallKind::Exe
    } else if str_eq(target_os, "android") {
        InstallKind::Apk
    } else {
        InstallKind::NoInstaller
    }
}

/// The capabilities that follow from an installer type: silent download
/// wherever there is an installer.
pub fn update_capabilities(kind: InstallKind) -> (r: UpdateCapabilities)
    ensures
        r.install_kind == kind,
        r.silent_download == (kind != InstallKind::NoInstaller),
{
    UpdateCapabilities { install_kind: kind, silent_download: kind != InstallKind::NoInstaller }
}

/// Installer fields of `latest.json`; all optional (old documents have
/// none of them).
#[derive(Debug, Clone)]
pub struct ReleaseAssets {
    pub installer_url: Option<String>,
    /// Mirror links tried after `installer_url`.
    pub installer_mirrors: Vec<String>,
    pub signature: Option<String>,
    pub sha256: Option<String>,
    pub size: Option<u64>,
}

impl Default for ReleaseAssets {
    fn default() -> (r: Self)
        ensures
            r.installer_url is None,
            r.installer_mirrors@.len() == 0,
            r.signature is None,
            r.sha256 is None,
            r.size is None,
    {
        ReleaseAssets {
            installer_url: None,
            installer_mirrors: Vec::new(),
            signature: None,
            sha256: None,
            size: None,
        }
    }
}

/// The release `latest.json` describes for this platform.
#[derive(Debug, Clone)]
pub struct LatestRelease {
    pub version: String,
    pub release_url: String,
    pub assets: ReleaseAssets,
}

/// Whether the assets allow a silent download on `kind`: Windows needs
/// link, size, sha256 and signature; Android link, size and sha256; other
/// platforms never download.
pub open spec fn assets_ready(a: ReleaseAssets, kind: InstallKind) -> bool {
    let base = a.installer_url is Some && a.sha256 is Some && a.size is Some;
    match kind {
        InstallKind::Exe => base && a.signature is Some,
        InstallKind::Apk => base,
        InstallKind::NoInstaller => false,
    }
}

impl LatestRelease {
    /// Whether a silent download is possible on the platform `target_os`.
    pub fn download_ready(&self, target_os: &str) -> (r: bool)
        ensures
            r == assets_ready(self.assets, install_kind_of(target_os@)),
    {
        self.download_ready_for(install_kind(target_os))
    }

    /// Whether a silent download is possible on `kind` (see
    /// [`assets_ready`]).
    pub fn download_ready_for(&self, kind: InstallKind) -> (r: bool)
        ensures
            r == assets_ready(self.assets, kind),
    {
        let base = self.assets.installer_url.is_some() && self.assets.sha256.is_some()
            && self.assets.size.is_some();
        match kind {
            InstallKind::Exe => base && self.assets.signature.is_some(),
            InstallKind::Apk => base,
            InstallKind::NoInstaller => false,
        }
    }
}

/// The object release information is read from: on Android the
/// `android` object when there is one, otherwise the document itself.
pub open spec fn release_target(latest: JsonValue, is_android: bool) -> JsonValue {
    if is_android {
        match json_get(latest, "android"@) {
            Some(v) => if v is Object {
                v
            } else {
                latest
            },
            None => latest,
        }
    } else {
        latest
    }
}

/// The text member `key` of `v`, or `default`.
pub open spec fn str_or(v: JsonValue, key: Seq<char>, default: Seq<char>) -> Seq<char> {
    match json_str(json_get(v, key)) {
        Some(s) => s,
        None => default,
    }
}

/// The object installer assets are read from: strictly per platform, so
/// Android never falls back to the desktop fields at the top level.
pub open spec fn assets_target(latest: JsonValue, is_android: bool) -> Option<JsonValue> {
    if is_android {
        match json_get(latest, "android"@) {
            Some(v) => if v is Object {
                Some(v)
            } else {
                None
            },
            None => None,
        }
    } else {
        Some(latest)
    }
}

/// A text member that is present and not empty.
pub open spec fn nonempty_str(v: Option<JsonValue>) -> Option<Seq<char>> {
    match json_str(v) {
        Some(s) => if s.len() > 0 {
            Some(s)
        } else {
            None
        },
        None => None,
    }
}

/// The non-empty strings among `items`, in order.
pub open spec fn nonempty_strs(items: Seq<JsonValue>) -> Seq<Seq<char>>
    decreases items.len(),
{
    if items.len() == 0 {
        Seq::empty()
    } else {
        let prev = nonempty_strs(items.drop_last());
        match items.last() {
            JsonValue::Str(s) => if s@.len() > 0 {
                prev.push(s@)
            } else {
                prev
            },
            _ => prev,
        }
    }
}

/// The mirror list of a target: the non-empty strings of its
/// `installer_mirrors` array (none when it is missing or no array).
pub open spec fn mirrors_of(v: JsonValue) -> Seq<Seq<char>> {
    match json_get(v, "installer_mirrors"@) {
        Some(JsonValue::Array(items)) => nonempty_strs(items@),
        _ => Seq::empty(),
    }
}

/// The assets a target object describes.
pub open spec fn assets_of(target: JsonValue, a: ReleaseAssets) -> bool {
    &&& opt_view(a.installer_url) == nonempty_str(json_get(target, "installer_url"@))
    &&& views(a.installer_mirrors@) == mirrors_of(target)
    &&& opt_view(a.signature) == nonempty_str(json_get(target, "signature"@))
    &&& opt_view(a.sha256) == nonempty_str(json_get(target, "sha256"@))
    &&& a.size == json_u64(json_get(target, "size"@))
}

fn read_nonempty_str(target: &JsonValue, key: &str) -> (r: Option<String>)
    ensures
        opt_view(r) == nonempty_str(json_get(*target, key@)),
{
    match target.get(key) {
        Some(JsonValue::Str(s)) => {
            if s.as_str().is_empty() {
                None
            } else {
                Some(s.clone())
            }
        },
        _ => None,
    }
}

/// Version and release page for the running platform: on Android the
/// nested `android` object when present (older documents without it fall
/// back to the top level).
pub fn pick_latest(latest: &JsonValue, is_android: bool) -> (r: (String, String))
    ensures
        r.0@ == str_or(release_target(*latest, is_android), "version"@, ""@),
        r.1@ == str_or(release_target(*latest, is_android), "release_url"@, DEFAULT_RELEASE_URL@),
{
    let target: &JsonValue = if is_android {
        match latest.get("android") {
            Some(v) => if v.is_object() {
                v
            } else {
                latest
            },
            None => latest,
        }
    } else {
        latest
    };
    let version = match target.get("version") {
        Some(JsonValue::Str(s)) => s.clone(),
        _ => String::from_str(""),
    };
    let release_url = match target.get("release_url") {
        Some(JsonValue::Str(s)) => s.clone(),
        _ => String::from_str(DEFAULT_RELEASE_URL),
    };
    (version, release_url)
}

/// The object to read installer assets from (see [`assets_target`]).
pub fn asset_target(latest: &JsonValue, is_android: bool) -> (r: Option<&JsonValue>)
    ensures
        match r {
            Some(v) => assets_target(*latest, is_android) == Some(*v),
            None => assets_target(*latest, is_android) is None,
        },
{
    if is_android {
        match latest.get("android") {
            Some(v) => if v.is_object() {
                Some(v)
            } else {
                None
            },
            None => None,
        }
    } else {
        Some(latest)
    }
}

/// Reads the installer assets of a target object; missing or empty text
/// fields count as missing.
pub fn pick_assets(target: &JsonValue) -> (r: ReleaseAssets)
    ensures
        assets_of(*target, r),
{
    let mut mirrors: Vec<String> = Vec::new();
    match target.get("installer_mirrors") {
        Some(JsonValue::Array(items)) => {
            let mut i: usize = 0;
            assert(items@.take(0) =~= Seq::<JsonValue>::empty());
            assert(views(mirrors@) =~= Seq::<Seq<char>>::empty());
            while i < items.len()
                invariant
                    i <= items.len(),
                    views(mirrors@) == nonempty_strs(items@.take(i as int)),
                decreases items.len() - i,
            {
                assert(items@.take(i + 1).drop_last() =~= items@.take(i as int));
                assert(items@.take(i + 1).last() == items@[i as int]);
                match &items[i] {
                    JsonValue::Str(s) => {
                        if !s.as_str().is_empty() {
                            let ghost before = views(mirrors@);
                            mirrors.push(s.clone());
                            assert(views(mirrors@) =~= before.push(s@));
                        }
                    },
                    _ => {},
                }
                i = i + 1;
            }
            assert(items@.take(items@.len() as int) =~= items@);
        },
        _ => {
            assert(views(mirrors@) =~= Seq::<Seq<char>>::empty());
        },
    }
    let size = match target.get("size") {
        Some(JsonValue::Number(n)) => *n,
        _ => None,
    };
    ReleaseAssets {
        installer_url: read_nonempty_str(target, "installer_url"),
        installer_mirrors: mirrors,
        signature: read_nonempty_str(target, "signature"),
        sha256: read_nonempty_str(target, "sha256"),
        size,
    }
}

/// The release a parsed `latest.json` describes for the platform: version
/// and page from [`pick_latest`], assets strictly from the platform's own
/// object (none when it has none).
pub fn latest_release(latest: &JsonValue, is_android: bool) -> (r: LatestRelease)
    ensures
        r.version@ == str_or(release_target(*latest, is_android), "version"@, ""@),
        r.release_url@ == str_or(
            release_target(*latest, is_android),
            "release_url"@,
            DEFAULT_RELEASE_URL@,
        ),
        match assets_target(*latest, is_android) {
            Some(t) => assets_of(t, r.assets),
            None => r.assets.installer_url is None && r.assets.installer_mirrors@.len() == 0
                && r.assets.signature is None && r.assets.sha256 is None && r.assets.size is None,
        },
{
    let (version, release_url) = pick_latest(latest, is_android);
    let assets = match asset_target(latest, is_android) {
        Some(t) => pick_assets(t),
        None => ReleaseAssets::default(),
    };
    LatestRelease { version, release_url, assets }
}

/// The result of comparing two version strings with `semver`: `None`
/// when either does not parse as a semantic version, otherwise whether
/// `latest` is greater than `current`.
pub uninterp spec fn semver_newer(current: Seq<char>, latest: Seq<char>) -> Option<bool>;

/// Parses both strings with `semver::Version::parse` and compares the
/// versions with `>` (semver's total order); the outcome is named by
/// [`semver_newer`]. Stated besides: a version that parses is not newer
/// than itself.
#[verifier::external_body]
fn compare_versions(current: &str, latest: &str) -> (r: Option<bool>)
    ensures
        r == semver_newer(current@, latest@),
        current@ == latest@ && r is Some ==> r == Some(false),
{
    match (semver::Version::parse(current), semver::Version::parse(latest)) {
        (Ok(c), Ok(l)) => Some(l > c),
        _ => None,
    }
}

/// Whether `latest_version` is a newer semantic version than
/// `current_version`; unparsable versions never count as an update.
pub fn has_update(current_version: &str, latest_version: &str) -> (r: bool)
    ensures
        r == (semver_newer(current_version@, latest_version@) == Some(true)),
        current_version@ == latest_version@ ==> !r,
{
    match compare_versions(current_version, latest_version) {
        Some(newer) => newer,
        None => false,
    }
}

/// The check result for the running version and a fetched release.
pub fn update_check_result(current_version: &str, latest: LatestRelease) -> (r: UpdateCheckResult)
    ensures
        r.has_update == (semver_newer(current_version@, latest.version@) == Some(true)),
        r.latest_version == latest.version,
        r.release_url == latest.release_url,
        r.installer_url == latest.assets.installer_url,
        r.signature == latest.assets.signature,
        r.sha256 == latest.assets.sha256,
        r.size == latest.assets.size,
{
    let has = has_update(current_version, latest.version.as_str());
    UpdateCheckResult {
        has_update: has,
        latest_version: latest.version,
        release_url: latest.release_url,
        installer_url: latest.assets.installer_url,
        signature: latest.assets.signature,
        sha256: latest.assets.sha256,
        size: latest.assets.size,
    }
}

/// Only web links may be opened in the system browser: the trimmed URL
/// must start with `https://` or `http://`.
pub fn external_url_allowed(url: &str) -> (r: Result<String, AppError>)
    ensures
        (has_prefix(trim(url@), "https://"@) || has_prefix(trim(url@), "http://"@)) ==> (r matches Ok(
            s,
        ) && s@ == trim(url@)),
        !(has_prefix(trim(url@), "https://"@) || has_prefix(trim(url@), "http://"@)) ==> (r matches Err(
            AppError::Other(m),
        ) && m@ == "不允许打开的链接: "@ + trim(url@)),
{
    let trimmed = trim_string(url);
    let cs = chars_of(trimmed.as_str());
    if has_prefix_exec(&cs, &chars_of("https://")) || has_prefix_exec(&cs, &chars_of("http://")) {
        Ok(trimmed)
    } else {
        let mut m = String::from_str("不允许打开的链接: ");
        m.append(trimmed.as_str());
        Err(AppError::Other(m))
    }
}

} // verus!
