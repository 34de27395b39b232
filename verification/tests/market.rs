use marcel_ssh::{
    all_sources_failed, bust_url, classify_mirror, github_repo_parts, index_urls,
    pick_newest_index, raw_file_urls, zip_urls, AppError, MarketIndex, MirrorKind,
    DEFAULT_MIRRORS, readme_within_cap, MAX_README_BYTES,
};

#[test]
fn extracts_github_repo_parts() {
    assert_eq!(
        github_repo_parts("https://github.com/q541810/RemielleDan_Pet_Plugin"),
        Some(("q541810".into(), "RemielleDan_Pet_Plugin".into()))
    );
    assert_eq!(
        github_repo_parts("https://github.com/q541810/repo/"),
        Some(("q541810".into(), "repo".into()))
    );
    assert_eq!(github_repo_parts("https://github.com/q541810/repo/tree/main"), None);
    assert_eq!(github_repo_parts("https://gitee.com/q/repo"), None);
    assert_eq!(github_repo_parts("https://github.com/onlyowner"), None);
    assert_eq!(github_repo_parts(""), None);
}

#[test]
fn classifies_mirror_kinds() {
    assert!(matches!(classify_mirror(""), MirrorKind::Unset));
    assert!(matches!(classify_mirror("  "), MirrorKind::Unset));
    assert!(matches!(classify_mirror("https://ghfast.top"), MirrorKind::Prefix(_)));
    assert!(matches!(
        classify_mirror("https://mirror.example.com/index.json"),
        MirrorKind::IndexUrl(_)
    ));
    assert!(matches!(classify_mirror("https://cdn.jsdelivr.net"), MirrorKind::JsDelivr(_)));
}

#[test]
fn index_urls_order_matches_mirror_kind() {
    let urls = index_urls(None);
    assert_eq!(urls.len(), 2);
    assert!(urls[0].contains("cdn.jsdelivr.net"));
    assert!(urls[1].contains("raw.githubusercontent.com"));

    let urls = index_urls(Some("https://my.mirror/x/index.json"));
    assert_eq!(urls[0], "https://my.mirror/x/index.json");
    assert_eq!(urls.len(), 3);

    let urls = index_urls(Some("https://ghfast.top"));
    assert_eq!(
        urls[0],
        "https://ghfast.top/https://raw.githubusercontent.com/q541810/marcel-ssh-plugins/HEAD/index.json"
    );
    assert_eq!(urls.len(), 3);

    let urls = index_urls(Some("https://cdn.jsdelivr.net"));
    assert!(urls[0].starts_with("https://cdn.jsdelivr.net/gh/q541810/marcel-ssh-plugins@main/index.json"));
}

#[test]
fn raw_file_urls_cover_all_mirror_kinds() {
    let urls = raw_file_urls("o", "r", "plugin.json", None);
    assert_eq!(urls.len(), 3);
    assert!(urls[0].contains("@main"));
    assert!(urls[1].contains("@master"));
    assert!(urls[2].contains("raw.githubusercontent.com"));

    let urls = raw_file_urls("o", "r", "plugin.json", Some("https://ghfast.top"));
    assert_eq!(urls.len(), 2);
    assert!(urls[0].starts_with("https://ghfast.top/https://raw.githubusercontent.com/o/r/HEAD/plugin.json"));
    assert!(urls[1].contains("raw.githubusercontent.com"));

    let urls = raw_file_urls("o", "r", "plugin.json", Some("https://cdn.jsdelivr.net"));
    assert_eq!(urls.len(), 3);
    assert!(urls[0].contains("@main"));
    assert!(urls[1].contains("@master"));

    let urls = raw_file_urls("o", "r", "plugin.json", Some("https://x/index.json"));
    assert_eq!(urls.len(), 1);
    assert!(urls[0].contains("raw.githubusercontent.com"));
}

#[test]
fn zip_urls_skip_mirrors_that_cannot_serve_archives() {
    let urls = zip_urls("o", "r", None);
    assert_eq!(urls.len(), DEFAULT_MIRRORS.len() * 2 + 2);
    assert!(urls.iter().all(|u| u.ends_with(".zip")));

    let urls = zip_urls("o", "r", Some("https://ghfast.top"));
    assert_eq!(urls.len(), 4);
    assert!(urls[0].starts_with("https://ghfast.top/https://github.com/o/r/archive/refs/heads/main.zip"));

    let urls = zip_urls("o", "r", Some("https://cdn.jsdelivr.net"));
    assert_eq!(urls.len(), 2);
    let urls = zip_urls("o", "r", Some("https://x/index.json"));
    assert_eq!(urls.len(), 2);
}

#[test]
fn bust_url_appends_timestamp_parameter() {
    assert_eq!(bust_url("https://a/index.json", 42), "https://a/index.json?t=42");
    assert_eq!(bust_url("https://a/index.json?x=1", 7), "https://a/index.json?x=1&t=7");
    assert_eq!(bust_url("https://a/i", -3), "https://a/i?t=-3");
}

fn index(stamp: &str) -> MarketIndex {
    MarketIndex { generated_at: stamp.to_string(), plugins: vec![] }
}

#[test]
fn newest_index_wins_and_ties_keep_the_first() {
    assert!(pick_newest_index(vec![]).is_none());
    let picked = pick_newest_index(vec![index("2024-01-02"), index("2024-03-01"), index("2024-02-01")]);
    assert_eq!(picked.unwrap().generated_at, "2024-03-01");
    let picked = pick_newest_index(vec![
        MarketIndex { generated_at: "2024".into(), plugins: vec![] },
        index("2023"),
        MarketIndex { generated_at: "2024".into(), plugins: vec![] },
    ]);
    assert_eq!(picked.unwrap().generated_at, "2024");
}

#[test]
fn all_sources_failed_joins_each_failure() {
    let e = all_sources_failed(&vec!["a: x".to_string(), "b: y".to_string()]);
    assert_eq!(e, AppError::Network("所有源都不可用（a: x；b: y）".to_string()));
    let e = all_sources_failed(&vec![]);
    assert_eq!(e, AppError::Network("所有源都不可用（）".to_string()));
}

#[test]
fn readme_cap_counts_utf8_bytes() {
    assert_eq!(MAX_README_BYTES, 256 * 1024);
    assert!(readme_within_cap(&"a".repeat(MAX_README_BYTES)));
    assert!(!readme_within_cap(&"a".repeat(MAX_README_BYTES + 1)));
    // Three bytes per character: 87382 characters are 262146 bytes.
    assert!(!readme_within_cap(&"中".repeat(87382)));
    assert!(readme_within_cap(&"中".repeat(87381)));
}
