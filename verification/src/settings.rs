//! Application settings: the settings types with their defaults, the wire
//! names of the enumerated settings, and the three-state update mode with
//! the migration from the legacy `autoUpdate` flag.
use std::collections::HashMap;
use vstd::prelude::*;

use crate::error::AppError;
use crate::text::{
    chars_of, contains_char_exec, contains_exec, contains_seq, has_prefix, has_prefix_exec,
    split_char, split_char_exec, str_eq, trim, trim_string, vec_views, views,
};

verus! {

/// Terminal color scheme (CSS color strings).
#[derive(Debug, Clone, PartialEq)]
pub struct TerminalColors {
    pub background: String,
    pub foreground: String,
    pub cursor: String,
    pub cursor_accent: String,
    pub selection_background: String,
    pub black: String,
    pub red: String,
    pub green: String,
    pub yellow: String,
    pub blue: String,
    pub magenta: String,
    pub cyan: String,
    pub white: String,
    pub bright_black: String,
    pub bright_red: String,
    pub bright_green: String,
    pub bright_yellow: String,
    pub bright_blue: String,
    pub bright_magenta: String,
    pub bright_cyan: String,
    pub bright_white: String,
}

impl Default for TerminalColors {
    fn default() -> (r: Self)
        ensures
            r.background@ == "#18181b"@,
            r.foreground@ == "#e4e4e7"@,
            r.cursor@ == "#a1a1aa"@,
            r.cursor_accent@ == "#18181b"@,
            r.selection_background@ == "#3f3f46"@,
            r.black@ == "#27272a"@,
            r.red@ == "#ef4444"@,
            r.green@ == "#22c55e"@,
            r.yellow@ == "#eab308"@,
            r.blue@ == "#3b82f6"@,
            r.magenta@ == "#a855f7"@,
            r.cyan@ == "#06b6d4"@,
            r.white@ == "#e4e4e7"@,
            r.bright_black@ == "#52525b"@,
            r.bright_red@ == "#f87171"@,
            r.bright_green@ == "#4ade80"@,
            r.bright_yellow@ == "#facc15"@,
            r.bright_blue@ == "#60a5fa"@,
            r.bright_magenta@ == "#c084fc"@,
            r.bright_cyan@ == "#22d3ee"@,
            r.bright_white@ == "#fafafa"@,
    {
        TerminalColors {
            background: String::from_str("#18181b"),
            foreground: String::from_str("#e4e4e7"),
            cursor: String::from_str("#a1a1aa"),
            cursor_accent: String::from_str("#18181b"),
            selection_background: String::from_str("#3f3f46"),
            black: String::from_str("#27272a"),
            red: String::from_str("#ef4444"),
            green: String::from_str("#22c55e"),
            yellow: String::from_str("#eab308"),
            blue: String::from_str("#3b82f6"),
            magenta: String::from_str("#a855f7"),
            cyan: String::from_str("#06b6d4"),
            white: String::from_str("#e4e4e7"),
            bright_black: String::from_str("#52525b"),
            bright_red: String::from_str("#f87171"),
            bright_green: String::from_str("#4ade80"),
            bright_yellow: String::from_str("#facc15"),
            bright_blue: String::from_str("#60a5fa"),
            bright_magenta: String::from_str("#c084fc"),
            bright_cyan: String::from_str("#22d3ee"),
            bright_white: String::from_str("#fafafa"),
        }
    }
}

/// How the agent's command list is applied.
#[derive(Debug, Clone, Copy, PartialEq, Eq, Structural)]
pub enum CommandListMode {
    /// Only commands matching the list are permitted.
    Allowlist,
    /// Commands matching the list are blocked, all others allowed.
    Denylist,
}

impl Default for CommandListMode {
    /// Only known-dangerous commands are blocked by default.
    fn default() -> (r: Self)
        ensures
            r == CommandListMode::Denylist,
    {
        CommandListMode::Denylist
    }
}

/// Which engine approves commands when model-based approval is on.
#[derive(Debug, Clone, Copy, PartialEq, Eq, Structural)]
pub enum CommandApprovalEngine {
    /// The conversation model (or the approval slot's model); the default.
    Model,
    /// The Jev decision model.
    Jev,
}

/// The engine a wire value selects: `"jev"` selects Jev, anything else
/// (including values written by newer versions) the conversation model.
pub open spec fn approval_engine_from(raw: Seq<char>) -> CommandApprovalEngine {
    if raw == "jev"@ {
        CommandApprovalEngine::Jev
    } else {
        CommandApprovalEngine::Model
    }
}

impl CommandApprovalEngine {
    /// Reads a wire value; unknown values fall back to the conversation
    /// model, the most conservative engine.
    pub fn from_wire(raw: &str) -> (r: Self)
        ensures
            r == approval_engine_from(raw@),
    {
        proof {
            reveal_strlit("model");
            reveal_strlit("jev");
            assert("model"@.len() == 5);
            assert("jev"@.len() == 3);
        }
        if str_eq(raw, "model") {
            CommandApprovalEngine::Model
        } else if str_eq(raw, "jev") {
            CommandApprovalEngine::Jev
        } else {
            CommandApprovalEngine::Model
        }
    }

    /// The wire value of the engine.
    pub fn as_str(self) -> (r: &'static str)
        ensures
            self == CommandApprovalEngine::Model ==> r@ == "model"@,
            self == CommandApprovalEngine::Jev ==> r@ == "jev"@,
    {
        match self {
            CommandApprovalEngine::Model => "model",
            CommandApprovalEngine::Jev => "jev",
        }
    }
}

impl Default for CommandApprovalEngine {
    fn default() -> (r: Self)
        ensures
            r == CommandApprovalEngine::Model,
    {
        CommandApprovalEngine::Model
    }
}

/// Default upper bound of tool round-trips per agent task.
pub fn default_max_tool_rounds() -> (r: usize)
    ensures
        r == 500,
{
    500
}

/// Default notification volume.
pub fn default_volume() -> (r: u8)
    ensures
        r == 70,
{
    70
}

/// Default of the settings flags that are on unless turned off.
pub fn default_true() -> (r: bool)
    ensures
        r,
{
    true
}

/// The command policy of the agent mode.
#[derive(Debug, Clone, PartialEq)]
pub struct AgentModeSettings {
    /// Whether `command_list` is an allowlist or a denylist.
    pub list_mode: CommandListMode,
    /// Base-command patterns (plain string matches).
    pub command_list: Vec<String>,
    /// Ask for confirmation of every command that passes the list filter.
    pub confirm_each_command: bool,
    /// Plan mode also goes through the list and per-command confirmation.
    pub plan_mode_requires_approval: bool,
    /// Run an extra model-based approval check before execution.
    pub enable_model_command_approval: bool,
    /// Approval engine (used when model approval is on).
    pub command_approval_engine: CommandApprovalEngine,
    /// Jev model id (empty: built-in default).
    pub jev_model_id: String,
    /// Jev API base URL (empty: official endpoint).
    pub jev_base_url: String,
    /// Jev approval criteria (empty: built-in template).
    pub jev_approval_prompt: String,
    /// Model used for approval (empty: main model).
    pub model_approval_model: String,
    /// Approval system prompt (empty: built-in prompt).
    pub model_approval_prompt: String,
    /// Extra content appended to the system prompt.
    pub system_prompt: String,
    /// Maximum LLM/tool round-trips per task.
    pub max_tool_rounds: usize,
    /// Context window in tokens (0: unset).
    pub context_window: u64,
    /// `edit_file` needs human confirmation.
    pub confirm_edit_file: bool,
}

/// The commands blocked by default.
pub open spec fn default_command_list() -> Seq<Seq<char>> {
    seq!["rm"@, "mkfs"@, "dd"@, "shutdown"@, "reboot"@]
}

impl Default for AgentModeSettings {
    fn default() -> (r: Self)
        ensures
            r.list_mode == CommandListMode::Denylist,
            views(r.command_list@) == default_command_list(),
            r.confirm_each_command,
            !r.plan_mode_requires_approval,
            !r.enable_model_command_approval,
            r.command_approval_engine == CommandApprovalEngine::Model,
            r.jev_model_id@.len() == 0,
            r.jev_base_url@.len() == 0,
            r.jev_approval_prompt@.len() == 0,
            r.model_approval_model@.len() == 0,
            r.model_approval_prompt@.len() == 0,
            r.system_prompt@.len() == 0,
            r.max_tool_rounds == 500,
            r.context_window == 0,
            r.confirm_edit_file,
    {
        let mut list: Vec<String> = Vec::new();
        list.push(String::from_str("rm"));
        list.push(String::from_str("mkfs"));
        list.push(String::from_str("dd"));
        list.push(String::from_str("shutdown"));
        list.push(String::from_str("reboot"));
        assert(views(list@) =~= default_command_list());
        AgentModeSettings {
            list_mode: CommandListMode::Denylist,
            command_list: list,
            confirm_each_command: default_true(),
            plan_mode_requires_approval: false,
            enable_model_command_approval: false,
            command_approval_engine: CommandApprovalEngine::default(),
            jev_model_id: String::new(),
            jev_base_url: String::new(),
            jev_approval_prompt: String::new(),
            model_approval_model: String::new(),
            model_approval_prompt: String::new(),
            system_prompt: String::new(),
            max_tool_rounds: default_max_tool_rounds(),
            context_window: 0,
            confirm_edit_file: default_true(),
        }
    }
}

/// Backend of `web_search`.
#[derive(Debug, Clone, Copy, PartialEq, Eq, Structural)]
pub enum WebSearchMode {
    /// Local headless browser (default).
    Browser,
    /// Search-engine HTTP API.
    Api,
    /// Bare HTML scrape.
    Html,
}

impl Default for WebSearchMode {
    fn default() -> (r: Self)
        ensures
            r == WebSearchMode::Browser,
    {
        WebSearchMode::Browser
    }
}

/// Backend of `http_get`.
#[derive(Debug, Clone, Copy, PartialEq, Eq, Structural)]
pub enum HttpFetchMode {
    /// Local headless browser (default).
    Browser,
    /// Bare HTTP GET.
    Html,
}

impl Default for HttpFetchMode {
    fn default() -> (r: Self)
        ensures
            r == HttpFetchMode::Browser,
    {
        HttpFetchMode::Browser
    }
}

/// Which Bing host `web_search` uses.
#[derive(Debug, Clone, Copy, PartialEq, Eq, Structural)]
pub enum WebSearchEndpoint {
    /// cn.bing.com (default).
    Cn,
    /// www.bing.com.
    Www,
}

impl Default for WebSearchEndpoint {
    fn default() -> (r: Self)
        ensures
            r == WebSearchEndpoint::Cn,
    {
        WebSearchEndpoint::Cn
    }
}

/// Search API vendor.
#[derive(Debug, Clone, Copy, PartialEq, Eq, Structural)]
pub enum WebSearchApiProvider {
    Brave,
    Tavily,
}

impl Default for WebSearchApiProvider {
    fn default() -> (r: Self)
        ensures
            r == WebSearchApiProvider::Brave,
    {
        WebSearchApiProvider::Brave
    }
}

/// Experimental agent capabilities.
#[derive(Debug, Clone, PartialEq)]
pub struct ExperimentalSettings {
    pub enable_web_search: bool,
    pub enable_http_fetch: bool,
    pub enable_cloud_page: bool,
    pub enable_html_render: bool,
    pub web_search_mode: WebSearchMode,
    pub web_search_api_provider: WebSearchApiProvider,
    pub web_search_endpoint: WebSearchEndpoint,
    pub http_fetch_mode: HttpFetchMode,
    /// Saved-connection ids the agent may run commands on besides the
    /// current machine.
    pub multi_host_connection_ids: Vec<String>,
}

impl Default for ExperimentalSettings {
    fn default() -> (r: Self)
        ensures
            r.enable_web_search,
            r.enable_http_fetch,
            !r.enable_cloud_page,
            r.enable_html_render,
            r.web_search_mode == WebSearchMode::Browser,
            r.web_search_api_provider == WebSearchApiProvider::Brave,
            r.web_search_endpoint == WebSearchEndpoint::Cn,
            r.http_fetch_mode == HttpFetchMode::Browser,
            r.multi_host_connection_ids@.len() == 0,
    {
        ExperimentalSettings {
            enable_web_search: default_true(),
            enable_http_fetch: default_true(),
            enable_cloud_page: false,
            enable_html_render: default_true(),
            web_search_mode: WebSearchMode::Browser,
            web_search_api_provider: WebSearchApiProvider::Brave,
            web_search_endpoint: WebSearchEndpoint::Cn,
            http_fetch_mode: HttpFetchMode::Browser,
            multi_host_connection_ids: Vec::new(),
        }
    }
}

/// Desktop notification preferences.
#[derive(Debug, Clone, PartialEq, Eq, Structural)]
pub struct NotificationSettings {
    pub agent_approval: bool,
    pub agent_question: bool,
    pub agent_task_done: bool,
    pub agent_task_failed: bool,
    pub notification_volume: u8,
}

impl Default for NotificationSettings {
    fn default() -> (r: Self)
        ensures
            r == (NotificationSettings {
                agent_approval: true,
                agent_question: true,
                agent_task_done: true,
                agent_task_failed: true,
                notification_volume: 70,
            }),
    {
        NotificationSettings {
            agent_approval: default_true(),
            agent_question: default_true(),
            agent_task_done: default_true(),
            agent_task_failed: default_true(),
            notification_volume: default_volume(),
        }
    }
}

/// Mobile notification switches (kept apart from the desktop ones).
#[derive(Debug, Clone, PartialEq, Eq, Structural)]
pub struct MobileNotificationSettings {
    pub agent_approval: bool,
    pub agent_question: bool,
    pub agent_task_done: bool,
    pub agent_task_failed: bool,
}

impl Default for MobileNotificationSettings {
    fn default() -> (r: Self)
        ensures
            r == (MobileNotificationSettings {
                agent_approval: true,
                agent_question: true,
                agent_task_done: true,
                agent_task_failed: true,
            }),
    {
        MobileNotificationSettings {
            agent_approval: true,
            agent_question: true,
            agent_task_done: true,
            agent_task_failed: true,
        }
    }
}

/// Mobile keep-alive (foreground service) switch.
#[derive(Debug, Clone, PartialEq, Eq, Structural)]
pub struct MobileBackgroundSettings {
    pub keep_alive_enabled: bool,
}

impl Default for MobileBackgroundSettings {
    fn default() -> (r: Self)
        ensures
            !r.keep_alive_enabled,
    {
        MobileBackgroundSettings { keep_alive_enabled: false }
    }
}

/// Preferred workspace column widths and visibility.
#[derive(Debug, Clone, PartialEq, Eq, Structural)]
pub struct WorkspaceLayoutSettings {
    pub sidebar_base_width: u16,
    pub agent_base_width: u16,
    pub sidebar_open: bool,
    pub agent_open: bool,
}

impl Default for WorkspaceLayoutSettings {
    fn default() -> (r: Self)
        ensures
            r == (WorkspaceLayoutSettings {
                sidebar_base_width: 280,
                agent_base_width: 460,
                sidebar_open: true,
                agent_open: true,
            }),
    {
        WorkspaceLayoutSettings {
            sidebar_base_width: 280,
            agent_base_width: 460,
            sidebar_open: true,
            agent_open: true,
        }
    }
}

/// Three-state update mode.
#[derive(Debug, Clone, Copy, PartialEq, Eq, Structural)]
pub enum UpdateMode {
    /// Check, download in the background and install when ready.
    Auto,
    /// Check and notify; download and install only on request.
    Notify,
    /// Do not check.
    Off,
}

/// The wire value of an update mode.
pub open spec fn update_mode_wire(m: UpdateMode) -> Seq<char> {
    match m {
        UpdateMode::Auto => "auto"@,
        UpdateMode::Notify => "notify"@,
        UpdateMode::Off => "off"@,
    }
}

/// The mode a wire value selects; unknown values (written by newer
/// versions) select `Notify`, which neither downloads nor hides updates.
pub open spec fn update_mode_from(raw: Seq<char>) -> UpdateMode {
    if raw == "auto"@ {
        UpdateMode::Auto
    } else if raw == "off"@ {
        UpdateMode::Off
    } else {
        UpdateMode::Notify
    }
}

impl Default for UpdateMode {
    fn default() -> (r: Self)
        ensures
            r == UpdateMode::Auto,
    {
        UpdateMode::Auto
    }
}

impl UpdateMode {
    /// The wire value.
    pub fn as_str(self) -> (r: &'static str)
        ensures
            r@ == update_mode_wire(self),
    {
        match self {
            UpdateMode::Auto => "auto",
            UpdateMode::Notify => "notify",
            UpdateMode::Off => "off",
        }
    }

    /// Reads a wire value (see [`update_mode_from`]).
    pub fn from_wire(raw: &str) -> (r: Self)
        ensures
            r == update_mode_from(raw@),
    {
        proof {
            reveal_strlit("auto");
            reveal_strlit("notify");
            reveal_strlit("off");
            assert("auto"@.len() == 4);
            assert("notify"@.len() == 6);
            assert("off"@.len() == 3);
        }
        if str_eq(raw, "auto") {
            UpdateMode::Auto
        } else if str_eq(raw, "notify") {
            UpdateMode::Notify
        } else if str_eq(raw, "off") {
            UpdateMode::Off
        } else {
            UpdateMode::Notify
        }
    }

    /// Whether new versions are looked for (not in `Off`).
    pub fn checks_for_updates(self) -> (r: bool)
        ensures
            r == (self != UpdateMode::Off),
    {
        !matches!(self, UpdateMode::Off)
    }

    /// Whether updates download in the background (only in `Auto`).
    pub fn auto_downloads(self) -> (r: bool)
        ensures
            r == (self == UpdateMode::Auto),
    {
        matches!(self, UpdateMode::Auto)
    }
}

/// Application-wide settings.
#[derive(Debug, Clone, PartialEq)]
pub struct AppSettings {
    pub terminal_colors: TerminalColors,
    pub font_size: u16,
    pub font_family: String,
    pub default_agent_mode: String,
    pub agent_mode_settings: AgentModeSettings,
    pub experimental_settings: ExperimentalSettings,
    /// Last browsed path of the file manager.
    pub file_manager_path: String,
    /// Last browsed path per SSH connection key.
    pub file_manager_paths: HashMap<String, String>,
    pub file_manager_show_hidden: bool,
    /// Directory tree width in pixels.
    pub file_manager_tree_width: u16,
    pub file_manager_tree_user_hidden: bool,
    /// Zip level of folder uploads (0 fastest … 9 smallest).
    pub folder_upload_compression_level: i64,
    /// Bottom panel height in pixels.
    pub panel_height: u16,
    pub hide_thinking_display: bool,
    pub notification_settings: NotificationSettings,
    pub mobile_notification_settings: MobileNotificationSettings,
    pub mobile_background_settings: MobileBackgroundSettings,
    pub workspace_layout: WorkspaceLayoutSettings,
    /// Paths whose writes need explicit approval.
    pub custom_protected_paths: Vec<String>,
    /// Agent command timeout in seconds.
    pub command_timeout_secs: u64,
    pub has_completed_onboarding: bool,
    /// Plugins that are scanned but not loaded.
    pub disabled_plugins: Vec<String>,
    /// Authorized capabilities per plugin (absent: all declared ones).
    pub authorized_capabilities: HashMap<String, Vec<String>>,
    /// Safe mode: skip every content-script injection at startup.
    pub disable_all_injections: bool,
    pub fold_completed_turns: bool,
    pub privacy_mode: bool,
    pub update_mode: UpdateMode,
    /// Legacy mirror of `update_mode` for older clients: on exactly in
    /// `Auto`.
    pub auto_update: bool,
}

/// Default font stack of the terminal.
pub open spec fn default_font_family_value() -> Seq<char> {
    "JetBrains Mono, Fira Code, Consolas, \"Microsoft YaHei\", monospace"@
}

impl Default for AppSettings {
    fn default() -> (r: Self)
        ensures
            r.font_size == 14,
            r.font_family@ == default_font_family_value(),
            r.default_agent_mode@ == "agent"@,
            r.file_manager_path@ == "/"@,
            r.file_manager_paths@ == Map::<String, String>::empty(),
            !r.file_manager_show_hidden,
            r.file_manager_tree_width == 200,
            !r.file_manager_tree_user_hidden,
            r.folder_upload_compression_level == 6,
            r.panel_height == 256,
            !r.hide_thinking_display,
            r.notification_settings.notification_volume == 70,
            r.mobile_background_settings == (MobileBackgroundSettings { keep_alive_enabled: false }),
            r.workspace_layout.sidebar_base_width == 280,
            r.custom_protected_paths@.len() == 0,
            r.command_timeout_secs == 180,
            !r.has_completed_onboarding,
            r.disabled_plugins@.len() == 0,
            r.authorized_capabilities@ == Map::<String, Vec<String>>::empty(),
            !r.disable_all_injections,
            r.fold_completed_turns,
            !r.privacy_mode,
            r.update_mode == UpdateMode::Auto,
            r.auto_update,
            r.agent_mode_settings.list_mode == CommandListMode::Denylist,
            views(r.agent_mode_settings.command_list@) == default_command_list(),
            r.agent_mode_settings.max_tool_rounds == 500,
            r.experimental_settings.enable_web_search,
            r.experimental_settings.enable_http_fetch,
            r.terminal_colors.background@ == "#18181b"@,
    {
        AppSettings {
            terminal_colors: TerminalColors::default(),
            font_size: 14,
            font_family: String::from_str(
                "JetBrains Mono, Fira Code, Consolas, \"Microsoft YaHei\", monospace",
            ),
            default_agent_mode: String::from_str("agent"),
            agent_mode_settings: AgentModeSettings::default(),
            experimental_settings: ExperimentalSettings::default(),
            file_manager_path: String::from_str("/"),
            file_manager_paths: HashMap::new(),
            file_manager_show_hidden: false,
            file_manager_tree_width: 200,
            file_manager_tree_user_hidden: false,
            folder_upload_compression_level: 6,
            panel_height: 256,
            hide_thinking_display: false,
            notification_settings: NotificationSettings::default(),
            mobile_notification_settings: MobileNotificationSettings::default(),
            mobile_background_settings: MobileBackgroundSettings::default(),
            workspace_layout: WorkspaceLayoutSettings::default(),
            custom_protected_paths: Vec::new(),
            command_timeout_secs: 180,
            has_completed_onboarding: false,
            disabled_plugins: Vec::new(),
            authorized_capabilities: HashMap::new(),
            disable_all_injections: false,
            fold_completed_turns: true,
            privacy_mode: false,
            update_mode: UpdateMode::Auto,
            auto_update: default_true(),
        }
    }
}

/// `s` with the legacy `auto_update` flag set from its update mode.
pub open spec fn with_synced_mirror(s: AppSettings) -> AppSettings {
    AppSettings { auto_update: s.update_mode == UpdateMode::Auto, ..s }
}

/// `s` after the update-mode migration: without an explicit `updateMode`
/// in the stored text the mode is derived from the legacy flag (`true`:
/// `Auto`, `false`: `Notify`); then the legacy flag is synced.
pub open spec fn migrated_update_mode(s: AppSettings, explicit: bool) -> AppSettings {
    if explicit {
        with_synced_mirror(s)
    } else {
        with_synced_mirror(
            AppSettings {
                update_mode: if s.auto_update {
                    UpdateMode::Auto
                } else {
                    UpdateMode::Notify
                },
                ..s
            },
        )
    }
}

/// Whether the JSON text `raw` is an object with a top-level entry `key`
/// (false when it does not parse).
pub uninterp spec fn json_object_has_key(raw: Seq<char>, key: Seq<char>) -> bool;

/// Parses `raw` with `serde_json::from_str::<serde_json::Value>` and looks
/// `key` up with `serde_json::Value::get`; the result is named by
/// [`json_object_has_key`], of which nothing more is stated here.
#[verifier::external_body]
fn json_has_top_level_key(raw: &str, key: &str) -> (r: bool)
    ensures
        r == json_object_has_key(raw@, key@),
{
    match serde_json::from_str::<serde_json::Value>(raw) {
        Ok(v) => v.get(key).is_some(),
        Err(_) => false,
    }
}

impl AppSettings {
    /// Sets the legacy `auto_update` mirror from the update mode
    /// (idempotent).
    pub fn sync_update_mode_mirror(&mut self)
        ensures
            *final(self) == with_synced_mirror(*old(self)),
    {
        self.auto_update = self.update_mode.auto_downloads();
    }

    /// Migration step once it is known whether the stored text held an
    /// explicit `updateMode` (see [`migrated_update_mode`]).
    pub fn apply_update_mode_migration(&mut self, explicit: bool)
        ensures
            *final(self) == migrated_update_mode(*old(self), explicit),
    {
        if !explicit {
            self.update_mode = if self.auto_update {
                UpdateMode::Auto
            } else {
                UpdateMode::Notify
            };
        }
        self.sync_update_mode_mirror();
    }

    /// Legacy migration plus mirror sync, given the raw stored JSON text: a
    /// missing `updateMode` key is the signal to derive the mode from
    /// `autoUpdate`.
    pub fn migrate_update_mode_from_legacy(&mut self, raw: &str)
        ensures
            *final(self) == migrated_update_mode(
                *old(self),
                json_object_has_key(raw@, "updateMode"@),
            ),
    {
        let explicit = json_has_top_level_key(raw, "updateMode");
        self.apply_update_mode_migration(explicit);
    }
}

/// Reading an update mode back from its wire value gives the same mode.
pub proof fn lemma_update_mode_wire_roundtrip(m: UpdateMode)
    ensures
        update_mode_from(update_mode_wire(m)) == m,
{
    reveal_strlit("auto");
    reveal_strlit("notify");
    reveal_strlit("off");
    match m {
        UpdateMode::Auto => {},
        UpdateMode::Notify => {
            assert("notify"@.len() == 6);
            assert("auto"@.len() == 4);
            assert("off"@.len() == 3);
        },
        UpdateMode::Off => {
            assert("off"@.len() == 3);
            assert("auto"@.len() == 4);
        },
    }
}

/// Syncing the legacy mirror twice is the same as once.
pub proof fn lemma_mirror_sync_idempotent(s: AppSettings)
    ensures
        with_synced_mirror(with_synced_mirror(s)) == with_synced_mirror(s),
{
}

/// After the migration the legacy flag agrees with the mode: it is on
/// exactly when the mode downloads automatically.
pub proof fn lemma_migration_keeps_mirror_consistent(s: AppSettings, explicit: bool)
    ensures
        migrated_update_mode(s, explicit).auto_update == (migrated_update_mode(
            s,
            explicit,
        ).update_mode == UpdateMode::Auto),
{
}

/// Running the migration again on its own result changes nothing.
pub proof fn lemma_migration_idempotent(s: AppSettings, explicit: bool)
    ensures
        migrated_update_mode(migrated_update_mode(s, explicit), explicit)
            == migrated_update_mode(s, explicit),
{
}

/// A legacy configuration keeps its behaviour: without `updateMode`,
/// `autoUpdate: true` becomes `Auto` and `autoUpdate: false` becomes
/// `Notify`, which still checks for updates but never downloads; an
/// explicit mode is kept as it was.
pub proof fn lemma_legacy_migration_preserves_behaviour(s: AppSettings, explicit: bool)
    ensures
        !explicit ==> migrated_update_mode(s, explicit).update_mode == (if s.auto_update {
            UpdateMode::Auto
        } else {
            UpdateMode::Notify
        }),
        !explicit ==> migrated_update_mode(s, explicit).update_mode != UpdateMode::Off,
        explicit ==> migrated_update_mode(s, explicit).update_mode == s.update_mode,
{
}

/// Keychain status of one model-service channel (never the key itself).
#[derive(Debug, Clone)]
pub struct ChannelKeyStatus {
    pub channel_id: String,
    pub has_key: bool,
}

/// What is known of a channel's key: the key held in memory (possibly
/// empty) and whether the keychain holds one.
#[derive(Debug, Clone)]
pub struct ChannelKeySource {
    pub channel_id: String,
    pub api_key: String,
    pub stored_in_keychain: bool,
}

/// Settings as sent to the user interface, with key presence flags
/// instead of secrets.
#[derive(Debug, Clone)]
pub struct SettingsResponse {
    pub settings: AppSettings,
    /// The legacy single API key is still in the keychain.
    pub has_api_key: bool,
    /// A web-search API key is in the keychain.
    pub has_web_search_api_key: bool,
    pub channel_key_status: Vec<ChannelKeyStatus>,
    /// Non-fatal warning of the last load (for example a backed-up file).
    pub warning: Option<String>,
}

/// Whether `key` is the placeholder the user interface shows for a stored
/// key rather than a real key: `sk-******`, anything containing `******`,
/// only asterisks (including the empty text), or `sk-`.
pub open spec fn masked_key(key: Seq<char>) -> bool {
    key == "sk-******"@ || contains_seq(key, "******"@) || (forall|i: int|
        0 <= i < key.len() ==> key[i] == '*') || key == "sk-"@
}

/// Whether `key` is a masked placeholder (see [`masked_key`]).
pub fn is_masked_key(key: &str) -> (r: bool)
    ensures
        r == masked_key(key@),
{
    if str_eq(key, "sk-******") {
        return true;
    }
    let cs = chars_of(key);
    if contains_exec(&cs, &chars_of("******")) {
        return true;
    }
    let mut all_stars = true;
    let mut i: usize = 0;
    while i < cs.len()
        invariant
            i <= cs.len(),
            cs@ == key@,
            all_stars == forall|j: int| 0 <= j < i ==> cs@[j] == '*',
        decreases cs.len() - i,
    {
        if cs[i] != '*' {
            all_stars = false;
        }
        i = i + 1;
    }
    if all_stars {
        return true;
    }
    str_eq(key, "sk-")
}

/// The key status of every channel, in order: a channel has a key when
/// one is held in memory or the keychain holds one.
pub fn compute_channel_key_status(channels: &Vec<ChannelKeySource>) -> (r: Vec<ChannelKeyStatus>)
    ensures
        r.len() == channels.len(),
        forall|i: int|
            0 <= i < r.len() ==> (#[trigger] r@[i]).channel_id == channels@[i].channel_id
                && r@[i].has_key == (channels@[i].api_key@.len() > 0
                || channels@[i].stored_in_keychain),
{
    let mut r: Vec<ChannelKeyStatus> = Vec::new();
    let mut i: usize = 0;
    while i < channels.len()
        invariant
            i <= channels.len(),
            r.len() == i,
            forall|j: int|
                0 <= j < i ==> (#[trigger] r@[j]).channel_id == channels@[j].channel_id
                    && r@[j].has_key == (channels@[j].api_key@.len() > 0
                    || channels@[j].stored_in_keychain),
        decreases channels.len() - i,
    {
        let c = &channels[i];
        let has_key = !c.api_key.as_str().is_empty() || c.stored_in_keychain;
        r.push(ChannelKeyStatus { channel_id: c.channel_id.clone(), has_key });
        i = i + 1;
    }
    r
}

/// Why a custom protected path is refused, if it is: after trimming it
/// must be non-empty, absolute, free of NUL and of `..` components.
pub open spec fn protected_path_error(p: Seq<char>) -> Option<Seq<char>> {
    let t = trim(p);
    if t.len() == 0 {
        Some("路径不能为空"@)
    } else if t[0] != '/' {
        Some("路径必须以 / 开头："@ + t)
    } else if t.contains('\0') {
        Some("路径不能包含 NUL 字节："@ + t)
    } else if split_char(t, '/').contains(".."@) {
        Some("路径不能包含 .. 段："@ + t)
    } else {
        None
    }
}

/// The refusal of the first refused path, if any.
pub open spec fn first_protected_path_error(ps: Seq<Seq<char>>) -> Option<Seq<char>>
    decreases ps.len(),
{
    if ps.len() == 0 {
        None
    } else {
        match protected_path_error(ps[0]) {
            Some(e) => Some(e),
            None => first_protected_path_error(ps.skip(1)),
        }
    }
}

proof fn lemma_first_error_prefix(ps: Seq<Seq<char>>, i: int)
    requires
        0 <= i <= ps.len(),
        forall|j: int| 0 <= j < i ==> protected_path_error(#[trigger] ps[j]) is None,
    ensures
        first_protected_path_error(ps) == first_protected_path_error(ps.skip(i)),
    decreases i,
{
    if i > 0 {
        assert(protected_path_error(ps[0]) is None);
        let t = ps.skip(1);
        assert forall|j: int| 0 <= j < i - 1 implies protected_path_error(#[trigger] t[j]) is None by {
            assert(t[j] == ps[j + 1]);
        }
        lemma_first_error_prefix(t, i - 1);
        assert(t.skip(i - 1) =~= ps.skip(i));
    } else {
        assert(ps.skip(0) =~= ps);
    }
}

fn protected_path_check(raw: &str) -> (r: Option<String>)
    ensures
        match r {
            Some(m) => protected_path_error(raw@) == Some(m@),
            None => protected_path_error(raw@) is None,
        },
{
    let path = trim_string(raw);
    let cs = chars_of(path.as_str());
    if cs.len() == 0 {
        return Some(String::from_str("路径不能为空"));
    }
    if cs[0] != '/' {
        let mut m = String::from_str("路径必须以 / 开头：");
        m.append(path.as_str());
        return Some(m);
    }
    if contains_char_exec(&cs, '\0') {
        let mut m = String::from_str("路径不能包含 NUL 字节：");
        m.append(path.as_str());
        return Some(m);
    }
    let segs = split_char_exec(&cs, '/');
    let dotdot = chars_of("..");
    let mut i: usize = 0;
    let mut found = false;
    while i < segs.len()
        invariant
            i <= segs.len(),
            dotdot@ == ".."@,
            found == vec_views(segs@).take(i as int).contains(".."@),
        decreases segs.len() - i,
    {
        proof {
            crate::text::lemma_push_contains(vec_views(segs@).take(i as int), segs@[i as int]@, ".."@);
            assert(vec_views(segs@).take(i + 1) =~= vec_views(segs@).take(i as int).push(segs@[i as int]@));
        }
        if crate::text::chars_eq(&segs[i], &dotdot) {
            found = true;
        }
        i = i + 1;
    }
    assert(vec_views(segs@).take(segs.len() as int) =~= vec_views(segs@));
    if found {
        let mut m = String::from_str("路径不能包含 .. 段：");
        m.append(path.as_str());
        return Some(m);
    }
    None
}

/// Checks user-defined protected paths; the first refused one (see
/// [`protected_path_error`]) gives the error.
pub fn config_validate_custom_protected_paths(paths: &Vec<String>) -> (r: Result<(), String>)
    ensures
        match first_protected_path_error(views(paths@)) {
            Some(m) => r matches Err(e) && e@ == m,
            None => r is Ok,
        },
{
    let ghost ps = views(paths@);
    let mut i: usize = 0;
    while i < paths.len()
        invariant
            i <= paths.len(),
            ps == views(paths@),
            forall|j: int| 0 <= j < i ==> protected_path_error(#[trigger] ps[j]) is None,
        decreases paths.len() - i,
    {
        match protected_path_check(paths[i].as_str()) {
            Some(m) => {
                proof {
                    lemma_first_error_prefix(ps, i as int);
                    assert(ps.skip(i as int)[0] == ps[i as int]);
                }
                return Err(m);
            },
            None => {},
        }
        i = i + 1;
    }
    proof {
        lemma_first_error_prefix(ps, ps.len() as int);
        assert(ps.skip(ps.len() as int) =~= Seq::<Seq<char>>::empty());
    }
    Ok(())
}

/// Checks the Base URL a model list is fetched from: after trimming it
/// must be non-empty and start with `http://` or `https://`; returns the
/// trimmed URL.
pub fn check_model_list_base_url(base_url: Option<String>) -> (r: Result<String, AppError>)
    ensures
        ({
            let t = match base_url {
                Some(b) => trim(b@),
                None => Seq::<char>::empty(),
            };
            if t.len() == 0 {
                r matches Err(AppError::Config(m)) && m@
                    == "请先填写 Base URL 再获取模型列表（空 URL 无法确定接入哪个服务）"@
            } else if !(has_prefix(t, "http://"@) || has_prefix(t, "https://"@)) {
                r matches Err(AppError::Config(m)) && m@ == "Base URL 须以 http:// 或 https:// 开头"@
            } else {
                r matches Ok(u) && u@ == t
            }
        }),
{
    let t = match base_url {
        Some(b) => trim_string(b.as_str()),
        None => String::new(),
    };
    if t.as_str().is_empty() {
        return Err(
            AppError::Config(
                String::from_str("请先填写 Base URL 再获取模型列表（空 URL 无法确定接入哪个服务）"),
            ),
        );
    }
    let cs = chars_of(t.as_str());
    if !(has_prefix_exec(&cs, &chars_of("http://")) || has_prefix_exec(&cs, &chars_of("https://"))) {
        return Err(AppError::Config(String::from_str("Base URL 须以 http:// 或 https:// 开头")));
    }
    Ok(t)
}

} // verus!
