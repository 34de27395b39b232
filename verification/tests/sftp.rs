use marcel_ssh::{
    find_name_collisions, folder_upload_percent, is_system_path, sanitize_sysopen_component,
    sysopen_local_filename, truncate_utf8, MAX_PREVIEW_IMAGE_BYTES, PREVIEW_TEMP_DIR_PREFIX,
    SYSOPEN_LOCAL_FILENAME_MAX_BYTES, remote_sidecar_path, sidecar_path_with_id, AppError,
    check_preview_image_size, commit_step, CommitStep, check_compress_request,
    check_compress_target_free, check_download_source, check_flat_upload_names,
    check_nested_upload_target, check_stream_complete, compress_outcome, download_commit_step,
    download_temp_paths, missing_archiver_error, upload_size_allowed, ArchiveFormat,
    MAX_STREAM_UPLOAD_BYTES,
};

#[test]
fn maps_folder_upload_phases_to_overall_percent() {
    assert_eq!(folder_upload_percent("checking", 0, 0), 5);
    assert_eq!(folder_upload_percent("zipping", 0, 10), 5);
    assert_eq!(folder_upload_percent("zipping", 5, 10), 20);
    assert_eq!(folder_upload_percent("zipping", 10, 10), 35);
    assert_eq!(folder_upload_percent("uploading", 0, 100), 35);
    assert_eq!(folder_upload_percent("uploading", 50, 100), 60);
    assert_eq!(folder_upload_percent("uploading", 100, 100), 85);
    assert_eq!(folder_upload_percent("extracting", 0, 0), 90);
}

#[test]
fn clamps_folder_upload_progress_ratio() {
    assert_eq!(folder_upload_percent("uploading", 150, 100), 85);
    assert_eq!(folder_upload_percent("unknown", 0, 0), 0);
}

#[test]
fn folder_upload_percent_rounds_half_up() {
    // 5 + 30 * 1 / 8 = 8.75 -> 9
    assert_eq!(folder_upload_percent("zipping", 1, 8), 9);
    // 35 + 50 * 1 / 4 = 47.5 -> 48
    assert_eq!(folder_upload_percent("uploading", 1, 4), 48);
    assert_eq!(folder_upload_percent("zipping", 0, 0), 5);
    assert_eq!(folder_upload_percent("uploading", 0, 0), 35);
}

#[test]
fn finds_no_collision_when_disjoint() {
    let local = vec!["a.txt".to_string(), "lib".to_string()];
    let remote = vec!["b.txt".to_string(), "doc".to_string()];
    assert!(find_name_collisions(&local, &remote).is_empty());
}

#[test]
fn detects_file_and_dir_name_collisions() {
    let local = vec!["a.txt".to_string(), "lib".to_string(), "c.png".to_string()];
    let remote = vec!["lib".to_string(), "c.png".to_string(), "other".to_string()];
    let collisions = find_name_collisions(&local, &remote);
    assert_eq!(collisions, vec!["c.png".to_string(), "lib".to_string()]);
}

#[test]
fn collision_list_is_sorted_and_deduped() {
    let local = vec!["z.txt".to_string(), "z.txt".to_string(), "a.txt".to_string()];
    let remote = vec!["a.txt".to_string(), "z.txt".to_string()];
    let collisions = find_name_collisions(&local, &remote);
    assert_eq!(collisions, vec!["a.txt".to_string(), "z.txt".to_string()]);
}

#[test]
fn handles_empty_inputs() {
    assert!(find_name_collisions(&[], &[]).is_empty());
    assert!(find_name_collisions(&["a.txt".to_string()], &[]).is_empty());
    assert!(find_name_collisions(&[], &["a.txt".to_string()]).is_empty());
}

#[test]
fn preview_image_size_limit_is_50mb() {
    assert_eq!(MAX_PREVIEW_IMAGE_BYTES, 50 * 1024 * 1024);
}

#[test]
fn preview_temp_dir_prefix_is_stable() {
    assert_eq!(PREVIEW_TEMP_DIR_PREFIX, "marcel-previews");
}

#[test]
fn sysopen_filename_inserts_connection_name_before_extension() {
    assert_eq!(sysopen_local_filename("report.pdf", "生产服务器").unwrap(), "report-生产服务器.pdf");
    assert_eq!(sysopen_local_filename("archive.tar.gz", "prod").unwrap(), "archive.tar-prod.gz");
}

#[test]
fn sysopen_filename_supports_extensionless_and_dot_files() {
    assert_eq!(sysopen_local_filename("Makefile", "prod").unwrap(), "Makefile-prod");
    assert_eq!(sysopen_local_filename(".env", "prod").unwrap(), ".env-prod");
}

#[test]
fn sysopen_filename_sanitizes_connection_name_for_local_filesystem() {
    assert_eq!(
        sysopen_local_filename("report.pdf", " prod/eu:1. ").unwrap(),
        "report-prod_eu_1.pdf"
    );
    assert_eq!(
        sysopen_local_filename("report.pdf", "<>:\"/\\|?*").unwrap(),
        "report-_________.pdf"
    );
}

#[test]
fn sysopen_filename_stays_within_local_component_limit_on_utf8_boundary() {
    let filename =
        sysopen_local_filename(&format!("{}.pdf", "远程文件".repeat(80)), &"生产服务器".repeat(30))
            .unwrap();
    assert!(filename.len() <= SYSOPEN_LOCAL_FILENAME_MAX_BYTES);
    assert!(filename.ends_with(".pdf"));
    assert!(filename.contains('-'));
}

#[test]
fn sysopen_filename_sanitizes_remote_name_for_windows() {
    assert_eq!(sysopen_local_filename("report:2026?.txt", "prod").unwrap(), "report_2026_-prod.txt");
}

#[test]
fn sysopen_filename_rejects_extension_that_cannot_be_preserved() {
    let name = format!("report.{}", "x".repeat(SYSOPEN_LOCAL_FILENAME_MAX_BYTES));
    assert!(sysopen_local_filename(&name, "prod").is_err());
}

#[test]
fn truncation_keeps_whole_characters() {
    assert_eq!(truncate_utf8("abc", 2), "ab");
    assert_eq!(truncate_utf8("中文", 4), "中");
    assert_eq!(truncate_utf8("中文", 6), "中文");
    assert_eq!(truncate_utf8("x", 0), "");
}

#[test]
fn sanitized_component_falls_back_when_empty() {
    assert_eq!(sanitize_sysopen_component("  . ", "file"), "file");
    assert_eq!(sanitize_sysopen_component("a*b", "file"), "a_b");
}

#[test]
fn system_paths_are_protected() {
    assert!(is_system_path("/"));
    assert!(is_system_path("/etc"));
    assert!(is_system_path("/etc/"));
    assert!(is_system_path("/usr/local/bin"));
    assert!(is_system_path(""));
    assert!(!is_system_path("/home/user"));
    assert!(!is_system_path("/etcetera"));
}

#[test]
fn sidecar_paths_sit_beside_the_file() {
    assert_eq!(
        sidecar_path_with_id("/home/u/a.txt", "edit", "ID").unwrap(),
        "/home/u/.a.txt.marcel-edit-ID"
    );
    assert_eq!(sidecar_path_with_id("/a.txt", "upload", "X").unwrap(), "/.a.txt.marcel-upload-X");
    assert_eq!(sidecar_path_with_id("/srv/dir/", "backup", "Z").unwrap(), "/srv/.dir.marcel-backup-Z");
    assert_eq!(sidecar_path_with_id("//a", "edit", "I").unwrap(), "/.a.marcel-edit-I");
    assert_eq!(sidecar_path_with_id("a.txt", "edit", "I"), Err(AppError::Ssh("远程路径无效".into())));
    assert_eq!(sidecar_path_with_id("", "edit", "I"), Err(AppError::Ssh("远程路径无效".into())));
    assert_eq!(sidecar_path_with_id("///", "edit", "I"), Err(AppError::Ssh("远程路径无效".into())));
}

#[test]
fn fresh_sidecar_paths_carry_a_uuid() {
    let p = remote_sidecar_path("/x/y", "upload").unwrap();
    let prefix = "/x/.y.marcel-upload-";
    assert!(p.starts_with(prefix));
    assert_eq!(p.len(), prefix.len() + 36);
    let id: Vec<char> = p[prefix.len()..].chars().collect();
    for (i, c) in id.iter().enumerate() {
        if [8, 13, 18, 23].contains(&i) {
            assert_eq!(*c, '-');
        } else {
            assert!(c.is_ascii_digit() || ('a'..='f').contains(c));
        }
    }
    assert_eq!(id[14], '4');
    assert_ne!(p, remote_sidecar_path("/x/y", "upload").unwrap());
    assert!(remote_sidecar_path("relative", "edit").is_err());
}

#[test]
fn commit_steps_follow_the_target() {
    assert_eq!(commit_step(None, false), CommitStep::Rename);
    assert_eq!(commit_step(None, true), CommitStep::Rename);
    assert_eq!(commit_step(Some(false), true), CommitStep::ReplaceWithBackup);
    assert_eq!(
        commit_step(Some(false), false),
        CommitStep::Refuse("远程文件已存在，请先删除或重命名再上传".into())
    );
    assert_eq!(commit_step(Some(true), true), CommitStep::Refuse("目标路径已存在同名目录".into()));
}

#[test]
fn oversized_previews_are_refused() {
    assert!(check_preview_image_size(MAX_PREVIEW_IMAGE_BYTES).is_ok());
    assert!(check_preview_image_size(0).is_ok());
    assert_eq!(
        check_preview_image_size(MAX_PREVIEW_IMAGE_BYTES + 1),
        Err(AppError::Ssh("图片过大 (50 MB)，预览上限为 50 MB，请使用下载功能".into()))
    );
    assert_eq!(
        check_preview_image_size(80 * 1024 * 1024 + 5),
        Err(AppError::Ssh("图片过大 (80 MB)，预览上限为 50 MB，请使用下载功能".into()))
    );
}

fn ssh(m: &str) -> Result<(), AppError> {
    Err(AppError::Ssh(m.to_string()))
}

#[test]
fn compress_refuses_system_directories() {
    assert_eq!(
        check_compress_request("/usr/", "/home/a/x.tar.gz", "tar.gz"),
        Err(AppError::Ssh("拒绝压缩系统目录「/usr/」，请选择用户目录下的文件夹".to_string()))
    );
    assert_eq!(
        check_compress_request("/", "/home/a/x.zip", "zip"),
        Err(AppError::Ssh("拒绝压缩系统目录「/」，请选择用户目录下的文件夹".to_string()))
    );
}

#[test]
fn compress_refuses_target_inside_source() {
    assert_eq!(
        check_compress_request("/home/user/foo/", "/home/user/foo/bar.tar.gz", "tar.gz"),
        Err(AppError::Ssh(
            "目标路径「/home/user/foo/bar.tar.gz」位于源目录「/home/user/foo/」内，会导致递归压缩，请改用其他路径"
                .to_string()
        ))
    );
    // A sibling whose name only starts with the source's name is fine.
    assert_eq!(
        check_compress_request("/home/user/foo", "/home/user/foobar.zip", "zip"),
        Ok(ArchiveFormat::Zip)
    );
}

#[test]
fn compress_accepts_only_two_formats() {
    assert_eq!(
        check_compress_request("/home/user/foo", "/home/user/foo.tar.gz", "tar.gz"),
        Ok(ArchiveFormat::TarGz)
    );
    assert_eq!(
        check_compress_request("/home/user/foo", "/home/user/foo.7z", "7z"),
        Err(AppError::Ssh("不支持的压缩格式「7z」，仅支持 tar.gz 和 zip".to_string()))
    );
}

#[test]
fn names_the_missing_archiver() {
    assert_eq!(
        missing_archiver_error(ArchiveFormat::Zip),
        AppError::Ssh("远端服务器缺少 zip，无法压缩。请安装后重试。".to_string())
    );
    assert_eq!(
        missing_archiver_error(ArchiveFormat::TarGz),
        AppError::Ssh("远端服务器缺少 tar，无法压缩。请安装后重试。".to_string())
    );
}

#[test]
fn existing_archive_is_not_overwritten() {
    assert_eq!(check_compress_target_free("MISSING\n", "/a.zip"), Ok(()));
    assert_eq!(
        check_compress_target_free("  EXISTS\n", "/a.zip"),
        ssh("目标文件「/a.zip」已存在。请勾选「覆盖」或修改目标路径")
    );
}

#[test]
fn compress_succeeds_on_an_ok_line() {
    assert_eq!(compress_outcome("adding: a\r\n  OK  \r\n"), Ok(()));
    assert_eq!(compress_outcome("OK"), Ok(()));
    assert_eq!(compress_outcome("  FAILED: disk full \n"), ssh("压缩失败: FAILED: disk full"));
    assert_eq!(compress_outcome("NOT OK"), ssh("压缩失败: NOT OK"));
}

#[test]
fn compress_failure_preview_is_cut_at_500_chars() {
    let long = "错".repeat(501);
    let expected = format!("压缩失败: {}...", "错".repeat(500));
    assert_eq!(compress_outcome(&long), ssh(&expected));
    let exact = "e".repeat(500);
    assert_eq!(compress_outcome(&exact), ssh(&format!("压缩失败: {}", exact)));
}

#[test]
fn upload_cap_is_two_gib() {
    assert_eq!(MAX_STREAM_UPLOAD_BYTES, 2 * 1024 * 1024 * 1024);
    assert!(upload_size_allowed(MAX_STREAM_UPLOAD_BYTES));
    assert!(!upload_size_allowed(MAX_STREAM_UPLOAD_BYTES + 1));
}

#[test]
fn flat_upload_lists_clashing_names_sorted() {
    let local = vec!["b".to_string(), "a".to_string(), "c".to_string()];
    let remote = vec!["c".to_string(), "a".to_string(), "z".to_string()];
    assert_eq!(
        check_flat_upload_names(&local, &remote),
        ssh("远端目录已存在同名条目：a、c，请先处理后再上传")
    );
    let remote_free = vec!["x".to_string()];
    assert_eq!(check_flat_upload_names(&local, &remote_free), Ok(()));
}

#[test]
fn nested_upload_refuses_existing_directory() {
    assert_eq!(check_nested_upload_target(false), Ok(()));
    assert_eq!(
        check_nested_upload_target(true),
        ssh("远端已存在同名目录，请重命名或选择上传到当前目录")
    );
}

#[test]
fn download_checks_source_and_completeness() {
    assert_eq!(check_download_source(true), Ok(()));
    assert_eq!(check_download_source(false), ssh("只能下载普通文件"));
    assert_eq!(check_stream_complete(7, 7), Ok(()));
    assert_eq!(
        check_stream_complete(3, 10),
        ssh("下载不完整：预期 10 字节，实际写入 3 字节")
    );
}

#[test]
fn download_uses_part_and_backup_sidecars() {
    assert_eq!(
        download_temp_paths("/home/u/a.txt", "d1"),
        (
            "/home/u/a.txt.marcel-download-d1.part".to_string(),
            "/home/u/a.txt.marcel-download-d1.backup".to_string()
        )
    );
}

#[test]
fn download_never_replaces_a_directory() {
    assert_eq!(
        download_commit_step(Some(true)),
        CommitStep::Refuse("保存路径已存在同名目录".to_string())
    );
    assert_eq!(download_commit_step(Some(false)), CommitStep::ReplaceWithBackup);
    assert_eq!(download_commit_step(None), CommitStep::Rename);
}
