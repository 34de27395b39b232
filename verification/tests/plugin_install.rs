use std::io::Write;

use marcel_ssh::{
    is_preserve_match, normalize_preserve_path, plan_archive_extraction, plan_listed_extraction,
    plugin_root_entry, sanitize_zip_path, ZipEntryInfo, ZipReadError,
    union_preserve_paths,
    validate_plugin_id, AppError,
};

#[test]
fn validates_plugin_ids() {
    assert!(validate_plugin_id("long-term-memory").is_ok());
    assert!(validate_plugin_id("marcel_pet2").is_ok());
    assert!(validate_plugin_id("").is_err());
    assert!(validate_plugin_id("..").is_err());
    assert!(validate_plugin_id("a/b").is_err());
    assert!(validate_plugin_id("a b").is_err());
    assert!(validate_plugin_id(".hidden").is_err());
    assert!(validate_plugin_id("中文").is_err());
}

#[test]
fn sanitizes_zip_paths() {
    assert_eq!(sanitize_zip_path("repo-main/plugin.json").unwrap(), "repo-main/plugin.json");
    assert_eq!(sanitize_zip_path("repo-main/").unwrap(), "repo-main");
    assert_eq!(sanitize_zip_path("a\\b\\c.txt").unwrap(), "a/b/c.txt");
    assert!(sanitize_zip_path("../evil").is_err());
    assert!(sanitize_zip_path("a/../../evil").is_err());
    assert!(sanitize_zip_path("/abs/path").is_err());
    assert!(sanitize_zip_path("C:/evil").is_err());
    assert!(sanitize_zip_path("C:\\evil").is_err());
    assert!(sanitize_zip_path("").is_err());
}

#[test]
fn empty_and_dot_segments_are_skipped() {
    assert_eq!(sanitize_zip_path("a//b.txt").unwrap(), "a/b.txt");
    assert_eq!(sanitize_zip_path("a/./b//c/").unwrap(), "a/b/c");
    assert_eq!(sanitize_zip_path("a\\\\b").unwrap(), "a/b");
    assert!(sanitize_zip_path("//abs").is_err());
    assert!(sanitize_zip_path("./.").is_err());
}

#[test]
fn drive_path_behind_dot_segments_is_refused() {
    assert_eq!(sanitize_zip_path("./C:/x"), Err("盘符路径: ./C:/x".to_string()));
    assert_eq!(sanitize_zip_path(".\\C:\\x"), Err("盘符路径: .\\C:\\x".to_string()));
    assert_eq!(sanitize_zip_path("./a:b"), Err("盘符路径: ./a:b".to_string()));
    assert_eq!(sanitize_zip_path("./ab:c"), Ok("ab:c".to_string()));
    assert_eq!(sanitize_zip_path("./a/b:c"), Ok("a/b:c".to_string()));
}

#[test]
fn preserve_match_logic() {
    assert!(is_preserve_match("config.json", "config.json"));
    assert!(!is_preserve_match("config.json", "other.json"));
    assert!(is_preserve_match("memories/", "memories/a.jsonl"));
    assert!(is_preserve_match("memories/", "memories/sub/b.txt"));
    assert!(!is_preserve_match("memories/", "other/a.txt"));
    assert!(is_preserve_match("data/**", "data/file.db"));
}

#[test]
fn plugin_id_errors_name_the_rule() {
    assert!(matches!(validate_plugin_id(""), Err(AppError::Other(_))));
}

#[test]
fn preserve_paths_are_normalized_and_always_keep_config() {
    assert_eq!(normalize_preserve_path("./data\\x/"), "./data/x/");
    let merged = union_preserve_paths(&vec!["a/".to_string()], &vec!["a/".to_string(), "b".to_string()]);
    assert!(merged.contains(&"config.json".to_string()));
    assert!(merged.contains(&"a/".to_string()));
    assert!(merged.contains(&"b".to_string()));
    let mut sorted = merged.clone();
    sorted.sort();
    sorted.dedup();
    assert_eq!(merged.len(), sorted.len());
}

fn build_zip(entries: &[(&str, Option<&[u8]>)]) -> Vec<u8> {
    let mut w = zip::ZipWriter::new(std::io::Cursor::new(Vec::new()));
    let opts = zip::write::SimpleFileOptions::default();
    for (name, body) in entries {
        match body {
            Some(b) => {
                w.start_file(*name, opts).unwrap();
                w.write_all(b).unwrap();
            }
            None => w.add_directory(*name, opts).unwrap(),
        }
    }
    w.finish().unwrap().into_inner()
}

#[test]
fn plans_extraction_of_a_clean_archive() {
    let bytes = build_zip(&[
        ("repo-main/", None),
        ("repo-main/plugin.json", Some(b"{\"id\":\"x\"}")),
        ("repo-main/dist/index.js", Some(b"console.log(1)")),
    ]);
    let steps = plan_archive_extraction(&bytes).unwrap();
    let paths: Vec<&str> = steps.iter().map(|s| s.rel_path.as_str()).collect();
    assert_eq!(paths, vec!["repo-main", "repo-main/plugin.json", "repo-main/dist/index.js"]);
    let totals: Vec<u64> = steps.iter().map(|s| s.total).collect();
    assert_eq!(totals, vec![0, 10, 24]);
}

#[test]
fn refuses_archive_with_traversal_entry() {
    let bytes = build_zip(&[("ok.txt", Some(b"a")), ("../evil", Some(b"b"))]);
    match plan_archive_extraction(&bytes) {
        Err(AppError::Other(m)) => assert!(m.starts_with("zip 条目路径非法（../evil）: "), "{}", m),
        other => panic!("unexpected: {:?}", other),
    }
}

#[test]
fn refuses_bytes_that_are_not_an_archive() {
    match plan_archive_extraction(b"definitely not a zip") {
        Err(AppError::Other(m)) => assert!(m.starts_with("zip 解析失败: "), "{}", m),
        other => panic!("unexpected: {:?}", other),
    }
}

fn entry(name: &str, is_dir: bool, size: u64) -> ZipEntryInfo {
    ZipEntryInfo { name: name.into(), is_dir, size }
}

#[test]
fn plans_extraction_from_a_listing() {
    let entries = vec![entry("r/", true, 0), entry("r//a.txt", false, 3), entry("r/b", false, 4)];
    let steps = plan_listed_extraction(&entries, &None).unwrap();
    let got: Vec<(&str, u64)> = steps.iter().map(|s| (s.rel_path.as_str(), s.total)).collect();
    assert_eq!(got, vec![("r", 0), ("r/a.txt", 3), ("r/b", 7)]);
    match plan_listed_extraction(&entries, &Some(ZipReadError::Entry("bad crc".into()))) {
        Err(AppError::Other(m)) => assert_eq!(m, "zip 条目读取失败: bad crc"),
        other => panic!("unexpected: {:?}", other),
    }
    match plan_listed_extraction(&vec![], &Some(ZipReadError::Open("no archive".into()))) {
        Err(AppError::Other(m)) => assert_eq!(m, "zip 解析失败: no archive"),
        other => panic!("unexpected: {:?}", other),
    }
    let too_big = vec![entry("a", false, 200 * 1024 * 1024), entry("b", false, 200 * 1024 * 1024)];
    match plan_listed_extraction(&too_big, &None) {
        Err(AppError::Other(m)) => assert_eq!(m, "压缩包解压后超过大小上限"),
        other => panic!("unexpected: {:?}", other),
    }
}

#[test]
fn single_top_directory_is_the_plugin_root() {
    assert_eq!(plugin_root_entry(&[true]), Some(0));
    assert_eq!(plugin_root_entry(&[false]), None);
    assert_eq!(plugin_root_entry(&[true, false]), None);
    assert_eq!(plugin_root_entry(&[true, true]), None);
    assert_eq!(plugin_root_entry(&[]), None);
}
