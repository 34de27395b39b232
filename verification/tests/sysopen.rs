use marcel_ssh::{
    check_download_complete, check_sysopen_basename, check_sysopen_file, sysopen_admission,
    AppError, SyncWatch, SysopenAdmission, SysopenPhase, WatchAction, WatchEvent,
    MAX_CONCURRENT_PER_SESSION, SYNC_MAX_RETRIES, SYSOPEN_MAX_BYTES,
};

#[test]
fn incomplete_download_is_reported() {
    assert!(check_download_complete(10, 10).is_ok());
    assert_eq!(
        check_download_complete(3, 10),
        Err("下载不完整：预期 10 字节，实际 3 字节".to_string())
    );
}

#[test]
fn watch_debounces_then_syncs() {
    let mut w = SyncWatch::new();
    assert_eq!(w.step(WatchEvent::DebounceElapsed), WatchAction::Wait);
    assert_eq!(w.step(WatchEvent::LocalChange), WatchAction::Debounce);
    assert_eq!(w.step(WatchEvent::LocalChange), WatchAction::Debounce);
    assert_eq!(w.step(WatchEvent::DebounceElapsed), WatchAction::SyncBack);
    assert_eq!(
        w.step(WatchEvent::SyncSucceeded),
        WatchAction::Report(vec![SysopenPhase::Synced, SysopenPhase::Monitoring])
    );
    assert_eq!(w.step(WatchEvent::Cancel), WatchAction::FinishCancelled);
}

#[test]
fn watch_gives_up_after_repeated_failures() {
    let mut w = SyncWatch::new();
    for _ in 0..SYNC_MAX_RETRIES - 1 {
        assert_eq!(
            w.step(WatchEvent::SyncFailed("boom".into())),
            WatchAction::Report(vec![SysopenPhase::Monitoring])
        );
    }
    assert_eq!(
        w.step(WatchEvent::SyncFailed("boom".into())),
        WatchAction::Finish(SysopenPhase::Failed { message: "连续 5 次回传失败：boom".into() })
    );
}

#[test]
fn success_resets_the_failure_count() {
    let mut w = SyncWatch::new();
    w.step(WatchEvent::SyncFailed("x".into()));
    w.step(WatchEvent::SyncFailed("x".into()));
    w.step(WatchEvent::SyncSucceeded);
    assert_eq!(w.consecutive_failures, 0);
}

#[test]
fn basename_with_separator_or_dots_is_refused() {
    let refused = Err(AppError::Ssh("远端文件名包含非法字符".to_string()));
    assert_eq!(check_sysopen_basename("notes.txt"), Ok(()));
    assert_eq!(check_sysopen_basename("..."), Ok(()));
    assert_eq!(check_sysopen_basename("a/b"), refused);
    assert_eq!(check_sysopen_basename("a\\b"), refused);
    assert_eq!(check_sysopen_basename("a\0b"), refused);
    assert_eq!(check_sysopen_basename("."), refused);
    assert_eq!(check_sysopen_basename(".."), refused);
}

#[test]
fn running_task_is_reused_before_the_cap() {
    let r = sysopen_admission(
        Some(("t1".to_string(), Some("/tmp/x/a.txt".to_string()))),
        MAX_CONCURRENT_PER_SESSION + 3,
    );
    assert_eq!(
        r,
        Ok(SysopenAdmission::Reuse { task_id: "t1".to_string(), local_path: "/tmp/x/a.txt".to_string() })
    );
}

#[test]
fn finished_task_record_is_dropped_and_a_new_one_starts() {
    assert_eq!(
        sysopen_admission(Some(("t1".to_string(), None)), 2),
        Ok(SysopenAdmission::Start { stale_entry: true })
    );
    assert_eq!(sysopen_admission(None, 0), Ok(SysopenAdmission::Start { stale_entry: false }));
    assert_eq!(sysopen_admission(None, 7), Ok(SysopenAdmission::Start { stale_entry: false }));
}

#[test]
fn ninth_concurrent_open_is_refused() {
    assert_eq!(
        sysopen_admission(None, 8),
        Err(AppError::Ssh("同时打开的文件过多（上限 8），请先关闭部分再重试".to_string()))
    );
}

#[test]
fn only_regular_files_up_to_512_mib_open() {
    assert_eq!(check_sysopen_file(true, SYSOPEN_MAX_BYTES), Ok(()));
    assert_eq!(check_sysopen_file(true, 0), Ok(()));
    assert_eq!(
        check_sysopen_file(false, 10),
        Err(AppError::Ssh("只能打开普通文件".to_string()))
    );
    assert_eq!(
        check_sysopen_file(true, 600 * 1024 * 1024 + 5),
        Err(AppError::Ssh("文件过大 (600 MB)，系统打开限制为 512 MB，请使用下载功能".to_string()))
    );
}
