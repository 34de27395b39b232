//! Core logic of the Marcel SSH desktop client, verified with Verus:
//! settings and their migrations, saved connections and quick commands,
//! the plugin market, plugin installation and plugin windows, update
//! checks, segmented downloads, SFTP helpers, system-opened files, crash
//! reports and configuration backups.
mod agent_tasks;
mod connections;
mod crash;
mod download;
mod error;
mod json;
mod market;
mod plugin_install;
mod plugin_update;
mod plugins;
mod quick_commands;
mod recovery;
mod settings;
mod sftp;
mod sync;
mod sysopen;
mod text;
mod update;

pub use agent_tasks::{
    check_compaction_idle, collect_descendant_tasks, CompactionCommandResult, JobNotice, LocalFilePayload,
    MAX_ATTACHMENT_READ_BYTES,
};
pub use connections::{
    credential_accounts, jump_passphrase_account, jump_password_account, normalize_order_entries,
    plan_jump, ConnectionOrderEntry, ConnectionStore, JumpAuthPlan, JumpPlan, SavedConnection,
};
pub use crash::{
    generate_report, os_release_pretty_name, recent_log_lines, ConfigFileStatus, CrashInfo,
    CrashReport, CrashType, SystemInfo, BACKUP_STAMP_FORMAT, FILE_TIME_FORMAT, REPORT_TIME_FORMAT,
};
pub use download::{
    check_segment_length, download_ranges, parse_content_range_total, plan_segments,
    retry_delay_ms, DownloadOutcome, RetryStep, SegmentRetry, SegmentedDownload, MAX_SEGMENTS,
    MIN_SEGMENT_BYTES, SEGMENT_ATTEMPTS,
};
pub use error::AppError;
pub use json::JsonValue;
pub use market::{
    all_sources_failed, bust_url, classify_mirror, github_repo_parts, index_urls,
    pick_newest_index, raw_file_urls, readme_within_cap, zip_urls, MarketIcon, MarketIndex,
    MarketPlugin, MirrorKind, DEFAULT_INDEX_FALLBACK, DEFAULT_INDEX_SOURCE, DEFAULT_MIRRORS,
    MAX_DOWNLOAD_BYTES, MAX_README_BYTES,
};
pub use plugin_install::{
    extract_progress_due, is_preserve_match, normalize_preserve_path, plan_archive_extraction,
    plan_extract_entry, plan_listed_extraction, plugin_root_entry, sanitize_zip_path, select_restore_files, union_preserve_paths,
    validate_plugin_id, ExtractStep, PluginInstallResult, ZipEntryInfo, ZipReadError,
    MAX_EXTRACT_BYTES, SHIPPED_LIST_FILE,
};
pub use plugin_update::{
    check_install_target, check_update_target, PluginUpdate, UpdateAction, UpdateEvent,
    UpdateInputs, UpdateStage,
};
pub use plugins::{
    build_menu_entries, check_http_url, check_menu_popup, default_method, guess_mime,
    method_from_upper, not_owned_error, parse_plugin_api_call, request_method,
    resolve_http_request, route_plugin_request, HttpMethod, MenuEntry, MenuItemDef,
    PluginApiCall, PluginHttpRequest,
    PluginHttpResponse, PluginMenus, PluginRoute, PluginWindows, MAX_RESPONSE_SIZE,
    MAX_WINDOWS_PER_PLUGIN,
};
pub use quick_commands::{
    normalize_commands, normalized_session_key, validate_command, validate_input, QuickCommand,
    QuickCommandInput, QuickCommandPatch, QuickCommandScope, QuickCommandStore,
};
pub use recovery::{
    backup_file_name, backup_target_name, backups_to_remove, newest_first,
    original_name_of_backup, ConfigBackup, ConfigRecovery, BACKUP_DIR, MAX_BACKUPS,
};
pub use settings::{
    check_model_list_base_url, compute_channel_key_status, config_validate_custom_protected_paths,
    default_max_tool_rounds, default_true, default_volume, is_masked_key, AgentModeSettings,
    AppSettings, ChannelKeySource, ChannelKeyStatus, CommandApprovalEngine, CommandListMode,
    ExperimentalSettings, HttpFetchMode, MobileBackgroundSettings, MobileNotificationSettings,
    NotificationSettings, SettingsResponse, TerminalColors, UpdateMode, WebSearchApiProvider,
    WebSearchEndpoint, WebSearchMode, WorkspaceLayoutSettings,
};
pub use sftp::{
    check_compress_request, check_compress_target_free, check_download_source,
    check_flat_upload_names, check_nested_upload_target, check_preview_image_size,
    check_stream_complete, commit_step, compress_outcome, download_commit_step,
    download_temp_paths, find_name_collisions, folder_upload_percent, is_system_path,
    missing_archiver_error, remote_sidecar_path, sanitize_sysopen_component, sidecar_path_with_id,
    sysopen_local_filename, truncate_utf8, upload_size_allowed, ArchiveFormat, CommitStep,
    FileEntry, PreviewImageResult, ReadFileResult, MAX_PREVIEW_IMAGE_BYTES,
    MAX_STREAM_UPLOAD_BYTES, PREVIEW_TEMP_DIR_PREFIX, SYSOPEN_LOCAL_FILENAME_MAX_BYTES,
    SYSOPEN_TEMP_DIR_PREFIX, SYSTEM_PATH_BLACKLIST,
};
pub use sync::{
    ConflictAction, ConflictActionDto, ResolveOutcome, ResolveResult, SyncDeviceInfoDto,
    SyncPairResult, SyncResetResult,
};
pub use sysopen::{
    check_download_complete, check_sysopen_basename, check_sysopen_file, sysopen_admission,
    OpenWithSystemResult, SyncWatch, SysopenAdmission, SysopenPhase, SysopenStateEvent,
    WatchAction, WatchEvent, MAX_CONCURRENT_PER_SESSION, SYNC_MAX_RETRIES, SYSOPEN_MAX_BYTES,
};
pub use text::{chars_of, string_from_chars};
pub use update::{
    asset_target, external_url_allowed, has_update, install_kind, latest_release, pick_assets,
    pick_latest, update_capabilities, update_check_result, InstallKind, LatestRelease,
    ReleaseAssets, UpdateCapabilities, UpdateCheckResult, CHECK_URLS, DEFAULT_RELEASE_URL,
};
