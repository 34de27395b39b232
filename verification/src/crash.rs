//! Crash reports: the kinds of crash, what is recorded of one, and the
//! report written from it (JSON fields and a Markdown rendering).
use vstd::prelude::*;

use crate::text::{
    contains_seq, occurs_at, append_chars, chars_of, has_prefix, has_prefix_exec, lines_exec, nat_decimal, nat_hex,
    opt_view, str_eq, string_from_chars, text_lines, trim_end_seq, trim_end_seq_exec,
    trim_start_seq, trim_start_seq_exec, u64_decimal, u64_hex, vec_views, views,
};

verus! {

/// Kind of a recorded crash.
#[derive(Debug, Clone, Copy, PartialEq, Eq, Structural)]
pub enum CrashType {
    ConfigCorrupted,
    StartupFailure,
    RuntimePanic,
    DatabaseError,
    Unknown,
}

/// The stored name of a crash kind.
pub open spec fn crash_type_name(t: CrashType) -> Seq<char> {
    match t {
        CrashType::ConfigCorrupted => "config_corrupted"@,
        CrashType::StartupFailure => "startup_failure"@,
        CrashType::RuntimePanic => "runtime_panic"@,
        CrashType::DatabaseError => "database_error"@,
        CrashType::Unknown => "unknown"@,
    }
}

/// The crash kind a stored name stands for; unknown names give `Unknown`.
pub open spec fn crash_type_from(s: Seq<char>) -> CrashType {
    if s == "config_corrupted"@ {
        CrashType::ConfigCorrupted
    } else if s == "startup_failure"@ {
        CrashType::StartupFailure
    } else if s == "runtime_panic"@ {
        CrashType::RuntimePanic
    } else if s == "database_error"@ {
        CrashType::DatabaseError
    } else {
        CrashType::Unknown
    }
}

impl CrashType {
    /// The stored name.
    pub fn as_str(&self) -> (r: &'static str)
        ensures
            r@ == crash_type_name(*self),
    {
        match self {
            CrashType::ConfigCorrupted => "config_corrupted",
            CrashType::StartupFailure => "startup_failure",
            CrashType::RuntimePanic => "runtime_panic",
            CrashType::DatabaseError => "database_error",
            CrashType::Unknown => "unknown",
        }
    }

    /// Reads a stored name (see [`crash_type_from`]).
    pub fn from_str(s: &str) -> (r: Self)
        ensures
            r == crash_type_from(s@),
    {
        if str_eq(s, "config_corrupted") {
            CrashType::ConfigCorrupted
        } else if str_eq(s, "startup_failure") {
            CrashType::StartupFailure
        } else if str_eq(s, "runtime_panic") {
            CrashType::RuntimePanic
        } else if str_eq(s, "database_error") {
            CrashType::DatabaseError
        } else {
            CrashType::Unknown
        }
    }
}

/// Reading back the stored name of a crash kind gives the same kind.
pub proof fn lemma_crash_type_roundtrip(t: CrashType)
    ensures
        crash_type_from(crash_type_name(t)) == t,
{
    reveal_strlit("config_corrupted");
    reveal_strlit("startup_failure");
    reveal_strlit("runtime_panic");
    reveal_strlit("database_error");
    reveal_strlit("unknown");
    assert("config_corrupted"@.len() == 16);
    assert("startup_failure"@.len() == 15);
    assert("runtime_panic"@.len() == 13);
    assert("database_error"@.len() == 14);
    assert("unknown"@.len() == 7);
}

/// The machine a crash report was written on.
#[derive(Debug, Clone)]
pub struct SystemInfo {
    pub os_name: String,
    pub os_version: String,
    pub arch: String,
    pub app_version: String,
    pub rust_version: String,
}

impl CrashType {
    /// Whether the configuration repair is offered for this kind of crash.
    pub fn recovery_available(&self) -> (r: bool)
        ensures
            r == (*self is ConfigCorrupted || *self is DatabaseError),
    {
        match self {
            CrashType::ConfigCorrupted | CrashType::DatabaseError => true,
            _ => false,
        }
    }
}

// ───────────────────────── time stamps ─────────────────────────

/// How report times are written.
pub const REPORT_TIME_FORMAT: &'static str = "%Y-%m-%d %H:%M:%S UTC";

/// How file modification times are written.
pub const FILE_TIME_FORMAT: &'static str = "%Y-%m-%d %H:%M:%S";

/// How backup file names are stamped.
pub const BACKUP_STAMP_FORMAT: &'static str = "%Y-%m-%dT%H-%M-%S";

/// The strftime patterns the library formats times with.
pub open spec fn is_time_pattern(fmt: Seq<char>) -> bool {
    fmt == REPORT_TIME_FORMAT@ || fmt == FILE_TIME_FORMAT@ || fmt == BACKUP_STAMP_FORMAT@
}

/// What chrono writes for the UTC instant `ms` milliseconds after the Unix
/// epoch with the strftime pattern `fmt`; nothing when chrono cannot
/// represent the instant.
pub uninterp spec fn utc_millis_format(ms: i64, fmt: Seq<char>) -> Option<Seq<char>>;

/// Formats an instant with `chrono::DateTime::<Utc>::from_timestamp_millis`
/// and `DateTime::format`. The text is named by [`utc_millis_format`];
/// nothing more of it is stated here. Only the library's own patterns are
/// accepted: chrono panics while writing an invalid one.
#[verifier::external_body]
pub(crate) fn format_utc_millis(ms: i64, fmt: &str) -> (r: Option<String>)
    requires
        is_time_pattern(fmt@),
    ensures
        opt_view(r) == utc_millis_format(ms, fmt@),
{
    match chrono::DateTime::<chrono::Utc>::from_timestamp_millis(ms) {
        Some(d) => Some(d.format(fmt).to_string()),
        None => None,
    }
}

/// The text of an instant, empty when it cannot be written.
pub open spec fn time_text(ms: i64, fmt: Seq<char>) -> Seq<char> {
    match utc_millis_format(ms, fmt) {
        Some(t) => t,
        None => Seq::empty(),
    }
}

// ───────────────────────── what is recorded ─────────────────────────

/// What is recorded of a crash when it happens.
#[derive(Debug, Clone)]
pub struct CrashInfo {
    pub crash_type: CrashType,
    pub error_message: String,
    pub affected_files: Vec<String>,
    /// When it happened, in milliseconds since the Unix epoch (UTC).
    pub timestamp: i64,
    pub report_path: Option<String>,
}

impl CrashInfo {
    /// The record of a crash happening now (`now_ms`).
    pub fn recorded(
        crash_type: CrashType,
        error_message: &str,
        affected_files: Vec<String>,
        now_ms: i64,
    ) -> (r: CrashInfo)
        ensures
            r.crash_type == crash_type,
            r.error_message@ == error_message@,
            r.affected_files@ == affected_files@,
            r.timestamp == now_ms,
            r.report_path is None,
    {
        CrashInfo {
            crash_type,
            error_message: String::from_str(error_message),
            affected_files,
            timestamp: now_ms,
            report_path: None,
        }
    }

    /// What is assumed of an abnormal exit that left no record.
    pub fn unrecorded_exit(now_ms: i64) -> (r: CrashInfo)
        ensures
            r.crash_type == CrashType::Unknown,
            r.error_message@ == "程序异常退出，无详细错误信息"@,
            r.affected_files@.len() == 0,
            r.timestamp == now_ms,
            r.report_path is None,
    {
        CrashInfo {
            crash_type: CrashType::Unknown,
            error_message: String::from_str("程序异常退出，无详细错误信息"),
            affected_files: Vec::new(),
            timestamp: now_ms,
            report_path: None,
        }
    }
}

/// The last `max` lines of a log (all of them when there are fewer).
pub open spec fn last_lines(s: Seq<char>, max: nat) -> Seq<Seq<char>> {
    let ls = text_lines(s);
    if ls.len() <= max {
        ls
    } else {
        ls.skip(ls.len() - max)
    }
}

/// The last `max_lines` lines of a log's text (see [`last_lines`]).
pub fn recent_log_lines(content: &str, max_lines: usize) -> (r: Vec<String>)
    ensures
        views(r@) == last_lines(content@, max_lines as nat),
{
    let lines = lines_exec(&chars_of(content));
    let n = lines.len();
    let start: usize = if n <= max_lines {
        0
    } else {
        n - max_lines
    };
    let ghost ls = vec_views(lines@);
    let mut out: Vec<String> = Vec::new();
    let mut i: usize = start;
    while i < n
        invariant
            start <= i <= n,
            n == lines.len(),
            ls == vec_views(lines@),
            views(out@) == ls.subrange(start as int, i as int),
        decreases n - i,
    {
        let ghost before = views(out@);
        out.push(string_from_chars(&lines[i]));
        assert(views(out@) =~= before.push(ls[i as int]));
        assert(ls.subrange(start as int, i + 1) =~= ls.subrange(start as int, i as int).push(
            ls[i as int],
        ));
        i = i + 1;
    }
    assert(ls.subrange(start as int, n as int) =~= last_lines(content@, max_lines as nat));
    out
}

/// The value of a `PRETTY_NAME=` line: the prefix (repeated or not) and
/// the surrounding double quotes removed.
pub open spec fn pretty_name_value(line: Seq<char>) -> Seq<char> {
    trim_end_seq(trim_start_seq(trim_start_seq(line, "PRETTY_NAME="@), seq!['"']), seq!['"'])
}

/// The value of the first line that starts with `PRETTY_NAME=`.
pub open spec fn first_pretty_name(ls: Seq<Seq<char>>) -> Option<Seq<char>>
    decreases ls.len(),
{
    if ls.len() == 0 {
        None
    } else if has_prefix(ls[0], "PRETTY_NAME="@) {
        Some(pretty_name_value(ls[0]))
    } else {
        first_pretty_name(ls.drop_first())
    }
}

/// The distribution's display name from the text of `/etc/os-release`.
pub fn os_release_pretty_name(content: &str) -> (r: Option<String>)
    ensures
        opt_view(r) == first_pretty_name(text_lines(content@)),
{
    let lines = lines_exec(&chars_of(content));
    let key = chars_of("PRETTY_NAME=");
    let mut quote: Vec<char> = Vec::new();
    quote.push('"');
    proof {
        reveal_strlit("PRETTY_NAME=");
    }
    let ghost ls = vec_views(lines@);
    assert(key@.len() == 12);
    assert(ls.skip(0) =~= ls);
    let mut i: usize = 0;
    while i < lines.len()
        invariant
            i <= lines.len(),
            ls == vec_views(lines@),
            ls == text_lines(content@),
            key@ == "PRETTY_NAME="@,
            key.len() > 0,
            quote@ == seq!['"'],
            first_pretty_name(ls.skip(i as int)) == first_pretty_name(ls),
        decreases lines.len() - i,
    {
        assert(ls.skip(i as int)[0] == ls[i as int]);
        if has_prefix_exec(&lines[i], &key) {
            let a = trim_start_seq_exec(&lines[i], &key);
            let b = trim_start_seq_exec(&a, &quote);
            let c = trim_end_seq_exec(&b, &quote);
            assert(first_pretty_name(ls.skip(i as int)) == Some(pretty_name_value(ls[i as int])));
            return Some(string_from_chars(&c));
        }
        assert(ls.skip(i as int).drop_first() =~= ls.skip(i + 1));
        i = i + 1;
    }
    assert(ls.skip(i as int).len() == 0);
    None
}

// ───────────────────────── the report ─────────────────────────

/// The state of one configuration file at report time.
#[derive(Debug, Clone)]
pub struct ConfigFileStatus {
    pub path: String,
    pub exists: bool,
    pub is_valid: bool,
    pub error_message: Option<String>,
    pub file_size: Option<u64>,
    /// Last modification, in milliseconds since the Unix epoch (UTC).
    pub last_modified: Option<i64>,
}

/// A crash report.
#[derive(Debug, Clone)]
pub struct CrashReport {
    pub report_id: String,
    /// When the report was made, in milliseconds since the Unix epoch (UTC).
    pub timestamp: i64,
    pub crash_type: String,
    pub error_message: String,
    pub stack_trace: Option<String>,
    pub system_info: SystemInfo,
    pub config_status: Vec<ConfigFileStatus>,
    pub recent_logs: Vec<String>,
    pub recovery_available: bool,
}

/// The identifier of a report made at `now_ms`: `CRASH-` and the
/// milliseconds since the epoch in lowercase hexadecimal (0 before it).
pub open spec fn report_id_for(now_ms: i64) -> Seq<char> {
    "CRASH-"@ + nat_hex(if now_ms < 0 {
        0nat
    } else {
        now_ms as nat
    })
}

impl CrashReport {
    /// A report made at `now_ms` on the machine described by `system_info`.
    pub fn new(
        crash_type: &str,
        error_message: &str,
        stack_trace: Option<String>,
        config_status: Vec<ConfigFileStatus>,
        recent_logs: Vec<String>,
        recovery_available: bool,
        system_info: SystemInfo,
        now_ms: i64,
    ) -> (r: CrashReport)
        ensures
            r.report_id@ == report_id_for(now_ms),
            r.timestamp == now_ms,
            r.crash_type@ == crash_type@,
            r.error_message@ == error_message@,
            r.stack_trace == stack_trace,
            r.system_info == system_info,
            r.config_status@ == config_status@,
            r.recent_logs@ == recent_logs@,
            r.recovery_available == recovery_available,
    {
        let ms: u64 = if now_ms < 0 {
            0
        } else {
            now_ms as u64
        };
        let mut id = String::from_str("CRASH-");
        append_chars(&mut id, &u64_hex(ms));
        CrashReport {
            report_id: id,
            timestamp: now_ms,
            crash_type: String::from_str(crash_type),
            error_message: String::from_str(error_message),
            stack_trace,
            system_info,
            config_status,
            recent_logs,
            recovery_available,
        }
    }
}

/// The report on a recorded crash: no stack trace, and the repair offered
/// for the kinds of crash it can fix.
pub fn generate_report(
    crash_info: &CrashInfo,
    config_status: Vec<ConfigFileStatus>,
    recent_logs: Vec<String>,
    system_info: SystemInfo,
    now_ms: i64,
) -> (r: CrashReport)
    ensures
        r.report_id@ == report_id_for(now_ms),
        r.timestamp == now_ms,
        r.crash_type@ == crash_type_name(crash_info.crash_type),
        r.error_message@ == crash_info.error_message@,
        r.stack_trace is None,
        r.system_info == system_info,
        r.config_status@ == config_status@,
        r.recent_logs@ == recent_logs@,
        r.recovery_available == (crash_info.crash_type is ConfigCorrupted
            || crash_info.crash_type is DatabaseError),
{
    let available = crash_info.crash_type.recovery_available();
    CrashReport::new(
        crash_info.crash_type.as_str(),
        crash_info.error_message.as_str(),
        None,
        config_status,
        recent_logs,
        available,
        system_info,
        now_ms,
    )
}

// ───────────────────────── Markdown ─────────────────────────

/// `是` or `否`.
pub open spec fn yes_no(b: bool) -> Seq<char> {
    if b {
        "是"@
    } else {
        "否"@
    }
}

fn yes_no_str(b: bool) -> (r: &'static str)
    ensures
        r@ == yes_no(b),
{
    if b {
        "是"
    } else {
        "否"
    }
}

/// The error line of a configuration file section, if it has an error.
pub open spec fn error_line(e: Option<String>) -> Seq<char> {
    match e {
        Some(m) => "- **错误**: "@ + m@ + "\n"@,
        None => Seq::empty(),
    }
}

/// The size line of a configuration file section, if the size is known.
pub open spec fn size_line(n: Option<u64>) -> Seq<char> {
    match n {
        Some(b) => "- **大小**: "@ + nat_decimal(b as nat) + " 字节\n"@,
        None => Seq::empty(),
    }
}

/// The modification line of a configuration file section, if known.
pub open spec fn modified_line(t: Option<i64>) -> Seq<char> {
    match t {
        Some(ms) => "- **修改时间**: "@ + time_text(ms, FILE_TIME_FORMAT@) + "\n"@,
        None => Seq::empty(),
    }
}

/// The Markdown section of one configuration file.
pub open spec fn config_markdown(c: ConfigFileStatus) -> Seq<char> {
    "### "@ + c.path@ + "\n"@ + "- **存在**: "@ + yes_no(c.exists) + "\n"@ + "- **有效**: "@
        + yes_no(c.is_valid) + "\n"@ + error_line(c.error_message) + size_line(c.file_size)
        + modified_line(c.last_modified) + "\n"@
}

/// The sections of all configuration files, in order.
pub open spec fn configs_markdown(cs: Seq<ConfigFileStatus>) -> Seq<char>
    decreases cs.len(),
{
    if cs.len() == 0 {
        Seq::empty()
    } else {
        configs_markdown(cs.drop_last()) + config_markdown(cs.last())
    }
}

/// A crash report shows every recent log line it collected, each on a line
/// of its own.
pub proof fn lemma_report_shows_every_log_line(r: CrashReport, i: int)
    requires
        0 <= i < r.recent_logs@.len(),
    ensures
        contains_seq(crash_markdown(r), r.recent_logs@[i]@ + "\n"@),
{
    let lg = views(r.recent_logs@);
    assert(lg[i] == r.recent_logs@[i]@);
    lemma_log_lines_each(lg, i);
    let big = "# Marcel SSH 崩溃报告\n\n"@ + "**报告ID**: "@ + r.report_id@ + "\n\n"@ + "**时间**: "@
        + time_text(r.timestamp, REPORT_TIME_FORMAT@) + "\n\n"@ + "**崩溃类型**: "@
        + r.crash_type@ + "\n\n"@ + "**错误信息**: "@ + r.error_message@ + "\n\n"@
        + trace_section(r.stack_trace) + system_section(r.system_info) + "## 配置文件状态\n\n"@;
    let configs = configs_markdown(r.config_status@);
    let text = log_lines_text(lg);
    let open_fence = "## 最近日志\n\n```\n"@;
    let close_fence = "```\n\n"@;
    let l = logs_section(lg);
    assert(l == open_fence + text + close_fence);
    let y = yes_no(r.recovery_available);
    let md = crash_markdown(r);
    assert(md == big + configs + l + "**恢复可用**: "@ + y + "\n"@);
    let h = lg[i] + "\n"@;
    lemma_occurs_prefix(h, Seq::empty());
    assert(h + Seq::<char>::empty() =~= h);
    let a = log_lines_text(lg.take(i));
    lemma_occurs_extend(a, h, log_lines_text(lg.skip(i + 1)), h, 0);
    let k = a.len() as int;
    lemma_occurs_extend(open_fence, text, close_fence, h, k);
    let k1 = open_fence.len() + k;
    lemma_occurs_extend(big + configs, l, "**恢复可用**: "@, h, k1);
    let k2 = (big + configs).len() + k1;
    lemma_occurs_extend(Seq::empty(), big + configs + l + "**恢复可用**: "@, y, h, k2);
    assert(Seq::<char>::empty() + (big + configs + l + "**恢复可用**: "@) =~= big + configs + l
        + "**恢复可用**: "@);
    lemma_occurs_extend(Seq::empty(), big + configs + l + "**恢复可用**: "@ + y, "\n"@, h, k2);
    assert(Seq::<char>::empty() + (big + configs + l + "**恢复可用**: "@ + y) =~= big + configs + l
        + "**恢复可用**: "@ + y);
    assert(occurs_at(md, h, k2));
}

/// Splitting the list of files splits the configuration text: the
/// sections of `a + b` are those of `a` followed by those of `b`.
pub proof fn lemma_configs_markdown_concat(a: Seq<ConfigFileStatus>, b: Seq<ConfigFileStatus>)
    ensures
        configs_markdown(a + b) == configs_markdown(a) + configs_markdown(b),
    decreases b.len(),
{
    if b.len() == 0 {
        assert(a + b =~= a);
        assert(configs_markdown(a) + configs_markdown(b) =~= configs_markdown(a));
    } else {
        lemma_configs_markdown_concat(a, b.drop_last());
        assert((a + b).drop_last() =~= a + b.drop_last());
        assert((a + b).last() == b.last());
        assert(configs_markdown(a + b) =~= configs_markdown(a) + configs_markdown(b));
    }
}

/// The configuration text holds one section per file, in the files' order:
/// the sections of the files before `i`, then file `i`'s section — which
/// opens with the heading `### <path>` — then those after it.
pub proof fn lemma_configs_markdown_sections(cs: Seq<ConfigFileStatus>, i: int)
    requires
        0 <= i < cs.len(),
    ensures
        configs_markdown(cs) == configs_markdown(cs.take(i)) + config_markdown(cs[i])
            + configs_markdown(cs.skip(i + 1)),
        has_prefix(config_markdown(cs[i]), "### "@ + cs[i].path@ + "\n"@),
{
    let one = seq![cs[i]];
    assert(cs =~= cs.take(i) + one + cs.skip(i + 1));
    lemma_configs_markdown_concat(cs.take(i) + one, cs.skip(i + 1));
    lemma_configs_markdown_concat(cs.take(i), one);
    assert(one.drop_last() =~= Seq::<ConfigFileStatus>::empty());
    assert(configs_markdown(one.drop_last()) == Seq::<char>::empty());
    assert(one.last() == cs[i]);
    assert(Seq::<char>::empty() + config_markdown(cs[i]) =~= config_markdown(cs[i]));
    assert(configs_markdown(one) == config_markdown(cs[i]));
    let h = "### "@ + cs[i].path@ + "\n"@;
    let c = config_markdown(cs[i]);
    assert(c.take(h.len() as int) =~= h);
}

proof fn lemma_occurs_prefix(h: Seq<char>, t: Seq<char>)
    ensures
        occurs_at(h + t, h, 0),
{
    assert((h + t).subrange(0, h.len() as int) =~= h);
}

/// An occurrence inside `x` is one inside `p + x + q`, shifted by `p`.
proof fn lemma_occurs_extend(p: Seq<char>, x: Seq<char>, q: Seq<char>, h: Seq<char>, k: int)
    requires
        occurs_at(x, h, k),
    ensures
        occurs_at(p + x + q, h, p.len() + k),
{
    assert((p + x + q).subrange(p.len() + k, p.len() + k + h.len()) =~= x.subrange(k, k + h.len()));
}

/// A crash report names every configuration file it checked: for each
/// entry of `config_status` the Markdown holds that file's `### <path>`
/// heading.
pub proof fn lemma_report_lists_every_config_file(r: CrashReport, i: int)
    requires
        0 <= i < r.config_status@.len(),
    ensures
        contains_seq(crash_markdown(r), "### "@ + r.config_status@[i].path@ + "\n"@),
{
    let cs = r.config_status@;
    lemma_configs_markdown_sections(cs, i);
    let big = "# Marcel SSH 崩溃报告\n\n"@ + "**报告ID**: "@ + r.report_id@ + "\n\n"@ + "**时间**: "@
        + time_text(r.timestamp, REPORT_TIME_FORMAT@) + "\n\n"@ + "**崩溃类型**: "@
        + r.crash_type@ + "\n\n"@ + "**错误信息**: "@ + r.error_message@ + "\n\n"@
        + trace_section(r.stack_trace) + system_section(r.system_info) + "## 配置文件状态\n\n"@;
    let configs = configs_markdown(cs);
    let l = logs_section(views(r.recent_logs@));
    let y = yes_no(r.recovery_available);
    let md = crash_markdown(r);
    assert(md == big + configs + l + "**恢复可用**: "@ + y + "\n"@);
    let a = configs_markdown(cs.take(i));
    let h = "### "@ + cs[i].path@ + "\n"@;
    let c = config_markdown(cs[i]);
    let t = c.skip(h.len() as int);
    assert(c =~= h + t);
    lemma_occurs_prefix(h, t);
    assert(occurs_at(c, h, 0));
    lemma_occurs_extend(a, c, configs_markdown(cs.skip(i + 1)), h, 0);
    let k = a.len() as int;
    assert(occurs_at(configs, h, k));
    lemma_occurs_extend(big, configs, l, h, k);
    let k2 = big.len() + k;
    lemma_occurs_extend(Seq::empty(), big + configs + l, "**恢复可用**: "@, h, k2);
    assert(Seq::<char>::empty() + (big + configs + l) =~= big + configs + l);
    lemma_occurs_extend(Seq::empty(), big + configs + l + "**恢复可用**: "@, y, h, k2);
    assert(Seq::<char>::empty() + (big + configs + l + "**恢复可用**: "@) =~= big + configs + l
        + "**恢复可用**: "@);
    lemma_occurs_extend(Seq::empty(), big + configs + l + "**恢复可用**: "@ + y, "\n"@, h, k2);
    assert(Seq::<char>::empty() + (big + configs + l + "**恢复可用**: "@ + y) =~= big + configs + l
        + "**恢复可用**: "@ + y);
    assert(occurs_at(md, h, k2));
}

/// Each log line followed by a line break.
pub open spec fn log_lines_text(logs: Seq<Seq<char>>) -> Seq<char>
    decreases logs.len(),
{
    if logs.len() == 0 {
        Seq::empty()
    } else {
        log_lines_text(logs.drop_last()) + logs.last() + "\n"@
    }
}

/// Splitting the log lines splits their text.
pub proof fn lemma_log_lines_concat(a: Seq<Seq<char>>, b: Seq<Seq<char>>)
    ensures
        log_lines_text(a + b) == log_lines_text(a) + log_lines_text(b),
    decreases b.len(),
{
    if b.len() == 0 {
        assert(a + b =~= a);
        assert(log_lines_text(a) + log_lines_text(b) =~= log_lines_text(a));
    } else {
        lemma_log_lines_concat(a, b.drop_last());
        assert((a + b).drop_last() =~= a + b.drop_last());
        assert((a + b).last() == b.last());
        assert(log_lines_text(a + b) =~= log_lines_text(a) + log_lines_text(b));
    }
}

/// Every log line, in order, is followed by a line break: line `i` stands
/// after the text of the lines before it.
pub proof fn lemma_log_lines_each(logs: Seq<Seq<char>>, i: int)
    requires
        0 <= i < logs.len(),
    ensures
        log_lines_text(logs) == log_lines_text(logs.take(i)) + (logs[i] + "\n"@) + log_lines_text(
            logs.skip(i + 1),
        ),
{
    let one = seq![logs[i]];
    assert(logs =~= logs.take(i) + one + logs.skip(i + 1));
    lemma_log_lines_concat(logs.take(i) + one, logs.skip(i + 1));
    lemma_log_lines_concat(logs.take(i), one);
    assert(one.drop_last() =~= Seq::<Seq<char>>::empty());
    assert(log_lines_text(one.drop_last()) == Seq::<char>::empty());
    assert(Seq::<char>::empty() + one.last() + "\n"@ =~= logs[i] + "\n"@);
}

/// The stack trace section, when there is a trace.
pub open spec fn trace_section(t: Option<String>) -> Seq<char> {
    match t {
        Some(tr) => "## 堆栈跟踪\n\n```\n"@ + tr@ + "\n```\n\n"@,
        None => Seq::empty(),
    }
}

/// The recent log section, when there are log lines.
pub open spec fn logs_section(logs: Seq<Seq<char>>) -> Seq<char> {
    if logs.len() == 0 {
        Seq::empty()
    } else {
        "## 最近日志\n\n```\n"@ + log_lines_text(logs) + "```\n\n"@
    }
}

/// The system section.
pub open spec fn system_section(s: SystemInfo) -> Seq<char> {
    "## 系统信息\n\n"@ + "- **操作系统**: "@ + s.os_name@ + " "@ + s.os_version@ + "\n"@
        + "- **架构**: "@ + s.arch@ + "\n"@ + "- **应用版本**: "@ + s.app_version@ + "\n"@
        + "- **Rust版本**: "@ + s.rust_version@ + "\n\n"@
}

/// The Markdown rendering of a report.
pub open spec fn crash_markdown(r: CrashReport) -> Seq<char> {
    "# Marcel SSH 崩溃报告\n\n"@ + "**报告ID**: "@ + r.report_id@ + "\n\n"@ + "**时间**: "@
        + time_text(r.timestamp, REPORT_TIME_FORMAT@) + "\n\n"@ + "**崩溃类型**: "@
        + r.crash_type@ + "\n\n"@ + "**错误信息**: "@ + r.error_message@ + "\n\n"@
        + trace_section(r.stack_trace) + system_section(r.system_info) + "## 配置文件状态\n\n"@
        + configs_markdown(r.config_status@) + logs_section(views(r.recent_logs@))
        + "**恢复可用**: "@ + yes_no(r.recovery_available) + "\n"@
}

fn error_line_string(e: &Option<String>) -> (r: String)
    ensures
        r@ == error_line(*e),
{
    match e {
        Some(msg) => {
            let mut r = String::from_str("- **错误**: ");
            r.append(msg.as_str());
            r.append("\n");
            r
        },
        None => String::new(),
    }
}

fn size_line_string(n: Option<u64>) -> (r: String)
    ensures
        r@ == size_line(n),
{
    match n {
        Some(b) => {
            let mut r = String::from_str("- **大小**: ");
            append_chars(&mut r, &u64_decimal(b));
            r.append(" 字节\n");
            r
        },
        None => String::new(),
    }
}

fn time_string(ms: i64, fmt: &str) -> (r: String)
    requires
        is_time_pattern(fmt@),
    ensures
        r@ == time_text(ms, fmt@),
{
    match format_utc_millis(ms, fmt) {
        Some(t) => t,
        None => String::new(),
    }
}

fn modified_line_string(t: Option<i64>) -> (r: String)
    ensures
        r@ == modified_line(t),
{
    match t {
        Some(ms) => {
            let mut r = String::from_str("- **修改时间**: ");
            let ts = time_string(ms, FILE_TIME_FORMAT);
            r.append(ts.as_str());
            r.append("\n");
            r
        },
        None => String::new(),
    }
}

fn config_string(c: &ConfigFileStatus) -> (m: String)
    ensures
        m@ == config_markdown(*c),
{
    let mut m = String::from_str("### ");
    m.append(c.path.as_str());
    m.append("\n");
    m.append("- **存在**: ");
    m.append(yes_no_str(c.exists));
    m.append("\n");
    m.append("- **有效**: ");
    m.append(yes_no_str(c.is_valid));
    m.append("\n");
    let e = error_line_string(&c.error_message);
    m.append(e.as_str());
    let z = size_line_string(c.file_size);
    m.append(z.as_str());
    let t = modified_line_string(c.last_modified);
    m.append(t.as_str());
    m.append("\n");
    m
}

fn configs_string(cs: &Vec<ConfigFileStatus>) -> (m: String)
    ensures
        m@ == configs_markdown(cs@),
{
    let mut m = String::new();
    let mut i: usize = 0;
    assert(cs@.take(0) =~= Seq::<ConfigFileStatus>::empty());
    while i < cs.len()
        invariant
            i <= cs.len(),
            m@ == configs_markdown(cs@.take(i as int)),
        decreases cs.len() - i,
    {
        let piece = config_string(&cs[i]);
        m.append(piece.as_str());
        assert(cs@.take(i + 1).drop_last() =~= cs@.take(i as int));
        i = i + 1;
    }
    assert(cs@.take(i as int) =~= cs@);
    m
}

fn trace_string(t: &Option<String>) -> (r: String)
    ensures
        r@ == trace_section(*t),
{
    match t {
        Some(tr) => {
            let mut r = String::from_str("## 堆栈跟踪\n\n```\n");
            r.append(tr.as_str());
            r.append("\n```\n\n");
            r
        },
        None => String::new(),
    }
}

fn system_string(s: &SystemInfo) -> (m: String)
    ensures
        m@ == system_section(*s),
{
    let mut m = String::from_str("## 系统信息\n\n");
    m.append("- **操作系统**: ");
    m.append(s.os_name.as_str());
    m.append(" ");
    m.append(s.os_version.as_str());
    m.append("\n");
    m.append("- **架构**: ");
    m.append(s.arch.as_str());
    m.append("\n");
    m.append("- **应用版本**: ");
    m.append(s.app_version.as_str());
    m.append("\n");
    m.append("- **Rust版本**: ");
    m.append(s.rust_version.as_str());
    m.append("\n\n");
    m
}

fn logs_string(logs: &Vec<String>) -> (m: String)
    ensures
        m@ == logs_section(views(logs@)),
{
    if logs.len() == 0 {
        return String::new();
    }
    let ghost ls = views(logs@);
    let mut body = String::new();
    let mut j: usize = 0;
    assert(ls.take(0) =~= Seq::<Seq<char>>::empty());
    while j < logs.len()
        invariant
            j <= logs.len(),
            ls == views(logs@),
            body@ == log_lines_text(ls.take(j as int)),
        decreases logs.len() - j,
    {
        body.append(logs[j].as_str());
        body.append("\n");
        assert(ls.take(j + 1).drop_last() =~= ls.take(j as int));
        j = j + 1;
    }
    assert(ls.take(j as int) =~= ls);
    let mut m = String::from_str("## 最近日志\n\n```\n");
    m.append(body.as_str());
    m.append("```\n\n");
    m
}

impl CrashReport {
    /// The report as a Markdown document (see [`crash_markdown`]).
    pub fn to_markdown(&self) -> (md: String)
        ensures
            md@ == crash_markdown(*self),
    {
        let mut md = String::from_str("# Marcel SSH 崩溃报告\n\n");
        md.append("**报告ID**: ");
        md.append(self.report_id.as_str());
        md.append("\n\n");
        md.append("**时间**: ");
        let ts = time_string(self.timestamp, REPORT_TIME_FORMAT);
        md.append(ts.as_str());
        md.append("\n\n");
        md.append("**崩溃类型**: ");
        md.append(self.crash_type.as_str());
        md.append("\n\n");
        md.append("**错误信息**: ");
        md.append(self.error_message.as_str());
        md.append("\n\n");
        let trace = trace_string(&self.stack_trace);
        md.append(trace.as_str());
        let system = system_string(&self.system_info);
        md.append(system.as_str());
        md.append("## 配置文件状态\n\n");
        let configs = configs_string(&self.config_status);
        md.append(configs.as_str());
        let logs = logs_string(&self.recent_logs);
        md.append(logs.as_str());
        md.append("**恢复可用**: ");
        md.append(yes_no_str(self.recovery_available));
        md.append("\n");
        md
    }
}

} // verus!
