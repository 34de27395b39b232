use marcel_ssh::{
    backup_file_name, backup_target_name, backups_to_remove, generate_report, newest_first,
    original_name_of_backup, os_release_pretty_name, recent_log_lines, ConfigBackup,
    ConfigFileStatus, ConfigRecovery, CrashInfo, CrashReport, CrashType, SystemInfo,
};

fn system() -> SystemInfo {
    SystemInfo {
        os_name: "linux".into(),
        os_version: "Ubuntu 22.04".into(),
        arch: "x86_64".into(),
        app_version: "0.9.0".into(),
        rust_version: "1.80.0".into(),
    }
}

#[test]
fn report_id_is_hex_of_the_time() {
    let r = CrashReport::new("unknown", "boom", None, vec![], vec![], false, system(), 255);
    assert_eq!(r.report_id, "CRASH-ff");
    let r = CrashReport::new("unknown", "boom", None, vec![], vec![], false, system(), -5);
    assert_eq!(r.report_id, "CRASH-0");
    let r = CrashReport::new("unknown", "boom", None, vec![], vec![], false, system(), 947638923004);
    assert_eq!(r.report_id, "CRASH-dca3ae6efc");
}

#[test]
fn markdown_renders_every_section() {
    let status = ConfigFileStatus {
        path: "settings.json".into(),
        exists: true,
        is_valid: false,
        error_message: Some("JSON解析错误: x".into()),
        file_size: Some(42),
        last_modified: Some(947638923000),
    };
    let r = CrashReport::new(
        "config_corrupted",
        "bad json",
        Some("trace".into()),
        vec![status],
        vec!["l1".into(), "l2".into()],
        true,
        system(),
        947638923004,
    );
    let expected = "# Marcel SSH 崩溃报告\n\n\
**报告ID**: CRASH-dca3ae6efc\n\n\
**时间**: 2000-01-12 01:02:03 UTC\n\n\
**崩溃类型**: config_corrupted\n\n\
**错误信息**: bad json\n\n\
## 堆栈跟踪\n\n```\ntrace\n```\n\n\
## 系统信息\n\n\
- **操作系统**: linux Ubuntu 22.04\n\
- **架构**: x86_64\n\
- **应用版本**: 0.9.0\n\
- **Rust版本**: 1.80.0\n\n\
## 配置文件状态\n\n\
### settings.json\n\
- **存在**: 是\n\
- **有效**: 否\n\
- **错误**: JSON解析错误: x\n\
- **大小**: 42 字节\n\
- **修改时间**: 2000-01-12 01:02:03\n\
\n\
## 最近日志\n\n```\nl1\nl2\n```\n\n\
**恢复可用**: 是\n";
    assert_eq!(r.to_markdown(), expected);
}

#[test]
fn markdown_omits_empty_sections() {
    let r = CrashReport::new("unknown", "x", None, vec![], vec![], false, system(), 0);
    let md = r.to_markdown();
    assert!(md.contains("**时间**: 1970-01-01 00:00:00 UTC\n\n"));
    assert!(!md.contains("堆栈跟踪"));
    assert!(!md.contains("最近日志"));
    assert!(md.ends_with("## 配置文件状态\n\n**恢复可用**: 否\n"));
}

#[test]
fn report_for_a_recorded_crash() {
    let info = CrashInfo::recorded(CrashType::DatabaseError, "db locked", vec!["a".into()], 7);
    let r = generate_report(&info, vec![], vec!["log".into()], system(), 16);
    assert_eq!(r.crash_type, "database_error");
    assert_eq!(r.error_message, "db locked");
    assert!(r.recovery_available);
    assert!(r.stack_trace.is_none());
    assert_eq!(r.report_id, "CRASH-10");
    let info = CrashInfo::recorded(CrashType::RuntimePanic, "panic", vec![], 7);
    assert!(!generate_report(&info, vec![], vec![], system(), 0).recovery_available);
    let unknown = CrashInfo::unrecorded_exit(3);
    assert_eq!(unknown.crash_type, CrashType::Unknown);
    assert_eq!(unknown.error_message, "程序异常退出，无详细错误信息");
    assert_eq!(unknown.timestamp, 3);
}

#[test]
fn recovery_is_offered_for_config_and_database_crashes() {
    assert!(CrashType::ConfigCorrupted.recovery_available());
    assert!(CrashType::DatabaseError.recovery_available());
    assert!(!CrashType::StartupFailure.recovery_available());
    assert!(!CrashType::RuntimePanic.recovery_available());
    assert!(!CrashType::Unknown.recovery_available());
}

#[test]
fn recent_logs_keep_the_last_lines() {
    assert_eq!(recent_log_lines("a\nb\r\nc\n", 2), vec!["b", "c"]);
    assert_eq!(recent_log_lines("a\nb\nc", 50), vec!["a", "b", "c"]);
    assert_eq!(recent_log_lines("a\n\nb\n", 50), vec!["a", "", "b"]);
    assert!(recent_log_lines("", 50).is_empty());
    assert_eq!(recent_log_lines("x\r", 5), vec!["x\r"]);
    assert!(recent_log_lines("a\nb", 0).is_empty());
}

#[test]
fn os_release_pretty_name_is_read() {
    let text = "NAME=\"Ubuntu\"\nPRETTY_NAME=\"Ubuntu 22.04.3 LTS\"\nID=ubuntu\n";
    assert_eq!(os_release_pretty_name(text).as_deref(), Some("Ubuntu 22.04.3 LTS"));
    assert_eq!(os_release_pretty_name("PRETTY_NAME=Arch Linux").as_deref(), Some("Arch Linux"));
    assert_eq!(os_release_pretty_name("NAME=x\n"), None);
}

#[test]
fn backup_names() {
    assert_eq!(
        backup_file_name("settings.json", 947638923004).as_deref(),
        Some("settings.json-2000-01-12T01-02-03.bak")
    );
    assert_eq!(backup_target_name("settings.json-2000-01-12T01-02-03.bak"), "settings.json");
    assert_eq!(backup_target_name("plain.bak"), "plain.bak");
    assert_eq!(
        original_name_of_backup("settings.json-2000-01-12T01-02-03.bak"),
        "settings.json-2000-01-12T01-02-0"
    );
    assert_eq!(original_name_of_backup("a\u{663}.bak"), "a");
    assert_eq!(original_name_of_backup("x-.bak"), "x");
    assert_eq!(original_name_of_backup("xy.bak"), "unknown");
    assert_eq!(original_name_of_backup(".bak"), "unknown");
    assert_eq!(original_name_of_backup("notes.txt"), "unknown");
}

#[test]
fn newest_first_is_stable() {
    let keys = vec![Some(1), Some(3), None, Some(3), None];
    assert_eq!(newest_first(&keys), vec![1, 3, 0, 2, 4]);
    assert!(newest_first(&vec![]).is_empty());
}

#[test]
fn old_backups_beyond_the_limit_are_removed() {
    let keys: Vec<Option<i128>> = (0..12).map(Some).collect();
    assert_eq!(backups_to_remove(&keys), vec![1, 0]);
    let few: Vec<Option<i128>> = (0..10).map(Some).collect();
    assert!(backups_to_remove(&few).is_empty());
}

#[test]
fn backups_are_found_by_file() {
    let b = |path: &str, at: i64| ConfigBackup {
        path: path.into(),
        backup_path: format!("backups/{}-{}.bak", path, at),
        created_at: at,
        size: 1,
    };
    let recovery = ConfigRecovery {
        config_dir: "/cfg".into(),
        backups: vec![b("settings.json", 2), b("connections.json", 1), b("settings.json", 0)],
    };
    let found = recovery.get_backups_for_file("settings.json");
    assert_eq!(found.len(), 2);
    assert_eq!(found[0].created_at, 2);
    assert_eq!(found[1].created_at, 0);
    assert!(recovery.get_backups_for_file("other").is_empty());
}

#[test]
fn restore_targets_the_backed_up_file() {
    for file in ["settings.json", "connections.json", "quick_commands.json"] {
        let name = backup_file_name(file, 1_700_000_000_000).unwrap();
        assert_eq!(backup_target_name(&name), file);
    }
    // A name with `-` is cut at its first `-`.
    let name = backup_file_name("my-settings.json", 0).unwrap();
    assert_eq!(backup_target_name(&name), "my");
}
