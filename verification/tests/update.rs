use marcel_ssh::{
    asset_target, external_url_allowed, has_update, install_kind, latest_release, pick_assets,
    pick_latest, update_capabilities, update_check_result, AppError, InstallKind, JsonValue,
    LatestRelease, DEFAULT_RELEASE_URL,
};

/// The library's value of a JSON document.
fn value_of(v: &serde_json::Value) -> JsonValue {
    match v {
        serde_json::Value::Null => JsonValue::Null,
        serde_json::Value::Bool(b) => JsonValue::Bool(*b),
        serde_json::Value::Number(n) => JsonValue::Number(n.as_u64()),
        serde_json::Value::String(s) => JsonValue::Str(s.clone()),
        serde_json::Value::Array(items) => JsonValue::Array(items.iter().map(value_of).collect()),
        serde_json::Value::Object(m) => {
            JsonValue::Object(m.iter().map(|(k, x)| (k.clone(), value_of(x))).collect())
        }
    }
}

fn doc(text: &str) -> JsonValue {
    value_of(&serde_json::from_str::<serde_json::Value>(text).expect("test JSON"))
}

fn release_from(latest: &JsonValue, is_android: bool) -> LatestRelease {
    latest_release(latest, is_android)
}

const TWO_PLATFORMS: &str = r#"{
    "version": "0.8.1",
    "release_url": "https://github.com/q541810/Marcel_ssh/releases/tag/v0.8.1",
    "android": {
        "version": "0.8.0",
        "release_url": "https://github.com/q541810/Marcel_ssh/releases/tag/v0.8.0"
    }
}"#;

#[test]
fn desktop_reads_top_level() {
    let (v, url) = pick_latest(&doc(TWO_PLATFORMS), false);
    assert_eq!(v, "0.8.1");
    assert_eq!(url, "https://github.com/q541810/Marcel_ssh/releases/tag/v0.8.1");
}

#[test]
fn android_reads_android_field() {
    let (v, url) = pick_latest(&doc(TWO_PLATFORMS), true);
    assert_eq!(v, "0.8.0");
    assert_eq!(url, "https://github.com/q541810/Marcel_ssh/releases/tag/v0.8.0");
}

#[test]
fn android_falls_back_to_top_level_when_android_field_missing() {
    let latest = doc(r#"{"version": "0.8.0", "release_url": "https://github.com/q541810/Marcel_ssh/releases/tag/v0.8.0"}"#);
    let (v, url) = pick_latest(&latest, true);
    assert_eq!(v, "0.8.0");
    assert_eq!(url, "https://github.com/q541810/Marcel_ssh/releases/tag/v0.8.0");
}

#[test]
fn android_falls_back_to_top_level_when_android_field_not_object() {
    let latest = doc(r#"{"version": "0.8.0", "release_url": "https://github.com/q541810/Marcel_ssh/releases/tag/v0.8.0", "android": "0.8.0"}"#);
    let (v, _url) = pick_latest(&latest, true);
    assert_eq!(v, "0.8.0");
}

#[test]
fn missing_fields_use_defaults() {
    let latest = doc("{}");
    let (v, url) = pick_latest(&latest, false);
    assert_eq!(v, "");
    assert_eq!(url, DEFAULT_RELEASE_URL);
    let (v, url) = pick_latest(&latest, true);
    assert_eq!(v, "");
    assert_eq!(url, DEFAULT_RELEASE_URL);
}

#[test]
fn desktop_assets_all_present() {
    let latest = doc(r#"{
        "version": "1.5.0",
        "release_url": "https://example.com/tag/v1.5.0",
        "installer_url": "https://example.com/download/Marcel+SSH_1.5.0_x64-setup.exe",
        "signature": "untrusted comment: sig\nABC=\n",
        "sha256": "abc123",
        "size": 12345
    }"#);
    let release = release_from(&latest, false);
    assert_eq!(
        release.assets.installer_url.as_deref(),
        Some("https://example.com/download/Marcel+SSH_1.5.0_x64-setup.exe")
    );
    assert_eq!(release.assets.signature.as_deref(), Some("untrusted comment: sig\nABC=\n"));
    assert_eq!(release.assets.sha256.as_deref(), Some("abc123"));
    assert_eq!(release.assets.size, Some(12345));
    assert!(release.download_ready_for(InstallKind::Exe));
}

#[test]
fn assets_missing_in_old_format() {
    let latest = doc(r#"{"version": "1.5.0", "release_url": "https://example.com/tag/v1.5.0"}"#);
    for is_android in [false, true] {
        let release = release_from(&latest, is_android);
        assert!(release.assets.installer_url.is_none());
        assert!(release.assets.signature.is_none());
        assert!(release.assets.sha256.is_none());
        assert!(release.assets.size.is_none());
        assert!(!release.download_ready_for(InstallKind::Exe));
        assert!(!release.download_ready_for(InstallKind::Apk));
    }
}

#[test]
fn assets_empty_string_treated_as_missing() {
    let latest = doc(r#"{"installer_url": "", "signature": "", "sha256": "", "size": 1}"#);
    let release = release_from(&latest, false);
    assert!(release.assets.installer_url.is_none());
    assert!(release.assets.signature.is_none());
    assert!(release.assets.sha256.is_none());
}

#[test]
fn download_ready_platform_rules() {
    let with_sig = doc(r#"{"installer_url": "https://example.com/x.exe", "signature": "sig", "sha256": "hash", "size": 5}"#);
    let release = release_from(&with_sig, false);
    assert!(release.download_ready_for(InstallKind::Exe));
    assert!(release.download_ready_for(InstallKind::Apk));

    let no_sig = doc(r#"{"installer_url": "https://example.com/x.apk", "sha256": "hash", "size": 5}"#);
    let release = release_from(&no_sig, false);
    assert!(!release.download_ready_for(InstallKind::Exe));
    assert!(release.download_ready_for(InstallKind::Apk));

    let no_hash = doc(r#"{"installer_url": "https://example.com/x.apk", "signature": "sig", "size": 5}"#);
    let release = release_from(&no_hash, false);
    assert!(!release.download_ready_for(InstallKind::Exe));
    assert!(!release.download_ready_for(InstallKind::Apk));

    let full = release_from(&with_sig, false);
    assert!(!full.download_ready_for(InstallKind::NoInstaller));
}

#[test]
fn android_assets_never_inherit_desktop_package() {
    let latest = doc(r#"{
        "version": "1.5.0",
        "release_url": "https://example.com/tag/v1.5.0",
        "installer_url": "https://example.com/Marcel+SSH_1.5.0_x64-setup.exe",
        "signature": "desktop-sig",
        "sha256": "desktop-hash",
        "size": 15467892,
        "android": {"version": "1.4.0", "release_url": "https://example.com/tag/v1.4.0"}
    }"#);
    let release = release_from(&latest, true);
    assert_eq!(release.version, "1.4.0");
    assert!(release.assets.installer_url.is_none());
    assert!(release.assets.sha256.is_none());
    assert!(release.assets.signature.is_none());
    assert!(!release.download_ready_for(InstallKind::Apk));
}

#[test]
fn android_assets_read_from_android_object() {
    let latest = doc(r#"{
        "version": "1.5.0",
        "release_url": "https://example.com/tag/v1.5.0",
        "installer_url": "https://example.com/Marcel+SSH_1.5.0_x64-setup.exe",
        "sha256": "desktop-hash",
        "size": 15467892,
        "android": {
            "version": "1.5.0",
            "release_url": "https://example.com/tag/v1.5.0",
            "installer_url": "https://example.com/Marcel-SSH_1.5.0_universal-release.apk",
            "sha256": "apk-hash",
            "size": 45678901,
            "installer_mirrors": ["https://mirror.example/app.apk"]
        }
    }"#);
    let release = release_from(&latest, true);
    assert_eq!(release.version, "1.5.0");
    assert_eq!(
        release.assets.installer_url.as_deref(),
        Some("https://example.com/Marcel-SSH_1.5.0_universal-release.apk")
    );
    assert_eq!(release.assets.sha256.as_deref(), Some("apk-hash"));
    assert_eq!(release.assets.size, Some(45678901));
    assert_eq!(release.assets.installer_mirrors.len(), 1);
    assert!(release.assets.signature.is_none());
    assert!(release.download_ready_for(InstallKind::Apk));
}

#[test]
fn desktop_assets_ignore_android_object() {
    let latest = doc(r#"{
        "version": "1.5.0",
        "release_url": "https://example.com/tag/v1.5.0",
        "installer_url": "https://example.com/desktop.exe",
        "sha256": "desktop-hash",
        "size": 1,
        "signature": "desktop-sig",
        "android": {"version": "1.5.0", "installer_url": "https://example.com/android.apk", "sha256": "apk-hash", "size": 2}
    }"#);
    let release = release_from(&latest, false);
    assert_eq!(release.assets.installer_url.as_deref(), Some("https://example.com/desktop.exe"));
    assert_eq!(release.assets.sha256.as_deref(), Some("desktop-hash"));
}

#[test]
fn assets_mirrors_parsed() {
    let latest = doc(r#"{
        "installer_url": "https://github.com/x.exe",
        "installer_mirrors": ["https://mirror1.example/x.exe", "", "https://mirror2.example/x.exe"]
    }"#);
    let release = release_from(&latest, false);
    assert_eq!(release.assets.installer_mirrors.len(), 2);
    assert_eq!(release.assets.installer_mirrors[0], "https://mirror1.example/x.exe");
    assert_eq!(release.assets.installer_mirrors[1], "https://mirror2.example/x.exe");

    assert!(pick_assets(&doc("{}")).installer_mirrors.is_empty());
    assert!(pick_assets(&doc(r#"{"installer_mirrors": "bad"}"#)).installer_mirrors.is_empty());
}

#[test]
fn asset_target_is_strict_per_platform() {
    let latest = doc(r#"{"installer_url": "https://example.com/x.exe"}"#);
    assert!(asset_target(&latest, false).is_some());
    assert!(asset_target(&latest, true).is_none());
    let latest = doc(r#"{"android": "1.5.0"}"#);
    assert!(asset_target(&latest, true).is_none());
}

#[test]
fn semver_update_detection() {
    assert!(has_update("1.4.0", "1.5.0"));
    assert!(has_update("1.4.0", "2.0.0"));
    assert!(!has_update("1.5.0", "1.4.0"));
    assert!(!has_update("1.4.0", "1.4.0"));
    assert!(!has_update("1.4.0", ""));
    assert!(!has_update("dev", "1.5.0"));
}

#[test]
fn install_kind_follows_platform() {
    assert_eq!(install_kind("windows"), InstallKind::Exe);
    assert_eq!(install_kind("android"), InstallKind::Apk);
    assert_eq!(install_kind("linux"), InstallKind::NoInstaller);
    assert!(update_capabilities(InstallKind::Apk).silent_download);
    assert!(!update_capabilities(InstallKind::NoInstaller).silent_download);
    let release = release_from(&doc(r#"{"installer_url": "u", "sha256": "h", "size": 3}"#), false);
    assert!(release.download_ready("android"));
    assert!(!release.download_ready("windows"));
    assert!(!release.download_ready("macos"));
}

#[test]
fn check_result_carries_release_fields() {
    let release = release_from(&doc(r#"{"version": "2.0.0", "installer_url": "u", "size": 9}"#), false);
    let r = update_check_result("1.0.0", release);
    assert!(r.has_update);
    assert_eq!(r.latest_version, "2.0.0");
    assert_eq!(r.release_url, DEFAULT_RELEASE_URL);
    assert_eq!(r.installer_url.as_deref(), Some("u"));
    assert_eq!(r.size, Some(9));
    assert!(r.sha256.is_none());
}

#[test]
fn only_web_links_open_externally() {
    assert_eq!(external_url_allowed("  https://a.b/c ").unwrap(), "https://a.b/c");
    assert!(external_url_allowed("http://x").is_ok());
    assert_eq!(
        external_url_allowed(" file:///etc/passwd"),
        Err(AppError::Other("不允许打开的链接: file:///etc/passwd".to_string()))
    );
}
