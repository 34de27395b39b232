use marcel_ssh::{
    check_model_list_base_url, compute_channel_key_status, config_validate_custom_protected_paths,
    is_masked_key, AgentModeSettings, AppError, AppSettings, ChannelKeySource,
    CommandApprovalEngine, CommandListMode, ExperimentalSettings, HttpFetchMode, TerminalColors,
    UpdateMode, WebSearchApiProvider, WebSearchEndpoint, WebSearchMode,
};

#[test]
fn terminal_colors_default_has_all_fields() {
    let c = TerminalColors::default();
    assert!(!c.background.is_empty());
    assert!(!c.foreground.is_empty());
    assert!(!c.cursor.is_empty());
    assert!(c.background.starts_with('#'));
}

#[test]
fn agent_mode_settings_default_is_denylist() {
    let s = AgentModeSettings::default();
    assert_eq!(s.list_mode, CommandListMode::Denylist);
    assert!(!s.command_list.is_empty());
    assert!(s.command_list.contains(&"rm".to_string()));
}

#[test]
fn app_settings_default_has_command_list() {
    let s = AppSettings::default();
    assert!(!s.agent_mode_settings.command_list.is_empty());
    for cmd in ["rm", "mkfs", "dd", "shutdown", "reboot"] {
        assert!(s.agent_mode_settings.command_list.contains(&cmd.to_string()));
    }
}

#[test]
fn experimental_settings_default_enables_web_and_http() {
    let s = ExperimentalSettings::default();
    assert!(s.enable_web_search);
    assert!(s.enable_http_fetch);
    assert!(!s.enable_cloud_page);
    assert_eq!(s.web_search_mode, WebSearchMode::Browser);
    assert_eq!(s.web_search_api_provider, WebSearchApiProvider::Brave);
    assert_eq!(s.web_search_endpoint, WebSearchEndpoint::Cn);
    assert_eq!(s.http_fetch_mode, HttpFetchMode::Browser);
}

#[test]
fn command_list_mode_default_is_denylist() {
    assert_eq!(CommandListMode::default(), CommandListMode::Denylist);
}

#[test]
fn app_settings_default_values() {
    let s = AppSettings::default();
    assert_eq!(s.font_size, 14);
    assert_eq!(s.font_family, "JetBrains Mono, Fira Code, Consolas, \"Microsoft YaHei\", monospace");
    assert_eq!(s.default_agent_mode, "agent");
    assert_eq!(s.panel_height, 256);
    assert_eq!(s.file_manager_path, "/");
    assert!(s.file_manager_paths.is_empty());
    assert!(!s.file_manager_show_hidden);
    assert_eq!(s.file_manager_tree_width, 200);
    assert!(!s.file_manager_tree_user_hidden);
    assert_eq!(s.folder_upload_compression_level, 6);
    assert!(!s.hide_thinking_display);
}

#[test]
fn disabled_plugins_defaults_to_empty() {
    let s = AppSettings::default();
    assert!(s.disabled_plugins.is_empty());
}

#[test]
fn disable_all_injections_defaults_false() {
    let s = AppSettings::default();
    assert!(!s.disable_all_injections);
}

#[test]
fn update_mode_capabilities() {
    assert!(UpdateMode::Auto.checks_for_updates());
    assert!(UpdateMode::Auto.auto_downloads());
    assert!(UpdateMode::Notify.checks_for_updates());
    assert!(!UpdateMode::Notify.auto_downloads());
    assert!(!UpdateMode::Off.checks_for_updates());
    assert!(!UpdateMode::Off.auto_downloads());
}

#[test]
fn update_mode_defaults_to_auto() {
    assert_eq!(AppSettings::default().update_mode, UpdateMode::Auto);
    let mut s = AppSettings::default();
    s.migrate_update_mode_from_legacy("{\"fontSize\":14}");
    assert_eq!(s.update_mode, UpdateMode::Auto);
    assert!(s.auto_update);
}

#[test]
fn legacy_auto_update_false_migrates_to_notify() {
    let mut s = AppSettings::default();
    s.auto_update = false;
    s.migrate_update_mode_from_legacy("{\"autoUpdate\":false}");
    assert_eq!(s.update_mode, UpdateMode::Notify);
    assert!(!s.auto_update);
}

#[test]
fn explicit_update_mode_wins_over_legacy_flag() {
    let mut s = AppSettings::default();
    s.update_mode = UpdateMode::Off;
    s.auto_update = true;
    s.migrate_update_mode_from_legacy("{\"autoUpdate\":true,\"updateMode\":\"off\"}");
    assert_eq!(s.update_mode, UpdateMode::Off);
    assert!(!s.auto_update);
}

#[test]
fn unparsable_text_counts_as_no_explicit_mode() {
    let mut s = AppSettings::default();
    s.update_mode = UpdateMode::Off;
    s.auto_update = false;
    s.migrate_update_mode_from_legacy("not json");
    assert_eq!(s.update_mode, UpdateMode::Notify);
}

#[test]
fn migration_is_idempotent() {
    let mut s = AppSettings::default();
    s.auto_update = false;
    s.apply_update_mode_migration(false);
    let once = (s.update_mode, s.auto_update);
    s.apply_update_mode_migration(false);
    assert_eq!((s.update_mode, s.auto_update), once);
}

#[test]
fn update_mode_wire_values() {
    for (mode, wire) in [(UpdateMode::Auto, "auto"), (UpdateMode::Notify, "notify"), (UpdateMode::Off, "off")] {
        assert_eq!(mode.as_str(), wire);
        assert_eq!(UpdateMode::from_wire(wire), mode);
    }
    assert_eq!(UpdateMode::from_wire("quiet"), UpdateMode::Notify);
}

#[test]
fn approval_engine_wire_values() {
    assert_eq!(CommandApprovalEngine::from_wire("model"), CommandApprovalEngine::Model);
    assert_eq!(CommandApprovalEngine::from_wire("jev"), CommandApprovalEngine::Jev);
    assert_eq!(CommandApprovalEngine::from_wire("future"), CommandApprovalEngine::Model);
    assert_eq!(CommandApprovalEngine::default(), CommandApprovalEngine::Model);
    assert_eq!(CommandApprovalEngine::Jev.as_str(), "jev");
}

#[test]
fn masked_keys_are_recognized() {
    assert!(is_masked_key("sk-******"));
    assert!(is_masked_key("abc******def"));
    assert!(is_masked_key("***"));
    assert!(is_masked_key(""));
    assert!(is_masked_key("sk-"));
    assert!(!is_masked_key("sk-abc123"));
}

#[test]
fn channel_key_status_uses_memory_then_keychain() {
    let status = compute_channel_key_status(&vec![
        ChannelKeySource { channel_id: "a".into(), api_key: "k".into(), stored_in_keychain: false },
        ChannelKeySource { channel_id: "b".into(), api_key: "".into(), stored_in_keychain: true },
        ChannelKeySource { channel_id: "c".into(), api_key: "".into(), stored_in_keychain: false },
    ]);
    assert_eq!(status.len(), 3);
    assert_eq!(status[0].channel_id, "a");
    assert!(status[0].has_key);
    assert!(status[1].has_key);
    assert!(!status[2].has_key);
}

fn validate(paths: Vec<String>) -> Result<(), String> {
    config_validate_custom_protected_paths(&paths)
}

#[test]
fn rejects_empty_path() {
    assert!(validate(vec!["/etc".into(), "".into()]).is_err());
}

#[test]
fn rejects_relative_path() {
    assert!(validate(vec!["etc".into()]).is_err());
    assert!(validate(vec!["./etc".into()]).is_err());
}

#[test]
fn rejects_nul_byte() {
    assert!(validate(vec!["/etc\0".into()]).is_err());
}

#[test]
fn rejects_dotdot_component() {
    assert!(validate(vec!["/etc/../shadow".into()]).is_err());
    assert!(validate(vec!["/etc/foo/..".into()]).is_err());
}

#[test]
fn accepts_valid_paths() {
    assert!(validate(vec!["/etc".into(), "/home/user/.ssh".into()]).is_ok());
    assert!(validate(vec!["/var/log".into()]).is_ok());
}

#[test]
fn accepts_empty_list() {
    assert!(validate(vec![]).is_ok());
}

#[test]
fn protected_path_errors_name_the_path() {
    assert_eq!(validate(vec!["  ".into()]), Err("路径不能为空".to_string()));
    assert_eq!(validate(vec![" etc ".into()]), Err("路径必须以 / 开头：etc".to_string()));
    assert_eq!(validate(vec!["/a/..".into(), "x".into()]), Err("路径不能包含 .. 段：/a/..".to_string()));
}

#[test]
fn model_list_base_url_is_checked() {
    assert_eq!(check_model_list_base_url(Some("  https://api.x/v1 ".into())).unwrap(), "https://api.x/v1");
    assert!(matches!(check_model_list_base_url(None), Err(AppError::Config(_))));
    assert!(matches!(check_model_list_base_url(Some("ftp://x".into())), Err(AppError::Config(_))));
}

#[test]
fn legacy_auto_update_true_migrates_to_auto() {
    let mut s = AppSettings::default();
    s.auto_update = true;
    s.update_mode = UpdateMode::Notify;
    s.migrate_update_mode_from_legacy("{\"autoUpdate\":true}");
    assert_eq!(s.update_mode, UpdateMode::Auto);
}

#[test]
fn auto_update_defaults_true_for_old_configs() {
    assert!(AppSettings::default().auto_update);
}

#[test]
fn unknown_update_mode_degrades_to_notify_without_failing() {
    assert_eq!(UpdateMode::from_wire("quiet"), UpdateMode::Notify);
}

#[test]
fn approval_engine_serde_values_are_stable() {
    assert_eq!(CommandApprovalEngine::Model.as_str(), "model");
    assert_eq!(CommandApprovalEngine::Jev.as_str(), "jev");
    assert_eq!(CommandApprovalEngine::from_wire("jev"), CommandApprovalEngine::Jev);
}

#[test]
fn unknown_command_approval_engine_degrades_to_model_without_failing() {
    assert_eq!(CommandApprovalEngine::from_wire("llm-judge"), CommandApprovalEngine::Model);
}

#[test]
fn known_command_approval_engine_values_still_parse() {
    assert_eq!(CommandApprovalEngine::from_wire("jev"), CommandApprovalEngine::Jev);
    assert_eq!(CommandApprovalEngine::from_wire("model"), CommandApprovalEngine::Model);
}
