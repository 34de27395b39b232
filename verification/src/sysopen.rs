//! "Open with the system application": the task phases shown to the
//! user, and the decisions of the watch loop that writes local edits back
//! to the server (debounce, retries, when to give up).
use vstd::prelude::*;

use crate::error::AppError;
use crate::text::{append_chars, chars_of, nat_decimal, str_eq, string_from_chars, u64_decimal};

verus! {

/// Consecutive failed write-backs after which watching stops.
pub const SYNC_MAX_RETRIES: u32 = 5;

/// Debounce after a local change before it is written back, in ms.
pub const SYNC_DEBOUNCE_MS: u64 = 800;

/// Concurrent system-open tasks per session.
pub const MAX_CONCURRENT_PER_SESSION: usize = 8;

/// Largest file opened with the system application, in bytes.
pub const SYSOPEN_MAX_BYTES: u64 = 536870912;

/// Buffer size of the downloads and write-backs.
pub const BUFFER_BYTES: usize = 131072;

/// What `open_with_system` reports.
#[derive(Debug, Clone)]
pub struct OpenWithSystemResult {
    pub task_id: String,
    pub local_path: String,
    /// An existing task was reused: the application was only raised again.
    pub reused: bool,
}

/// Phase of a system-open task as the transfer center shows it.
#[derive(Debug, Clone, PartialEq, Eq)]
pub enum SysopenPhase {
    /// Downloading the remote file.
    Downloading { written: u64, total: u64 },
    /// Downloaded; about to open with the system application.
    Opened,
    /// Open, watching the local copy for changes.
    Monitoring,
    /// Writing changes back.
    Syncing { written: u64, total: u64 },
    /// One write-back finished; still watching.
    Synced,
    /// Stopped by the user (after a last write-back of pending changes).
    Cancelled,
    /// Stopped by an unrecoverable error.
    Failed { message: String },
}

/// A phase change of one task.
#[derive(Debug, Clone)]
pub struct SysopenStateEvent {
    pub task_id: String,
    pub download_id: String,
    pub upload_id: String,
    pub phase: SysopenPhase,
}

/// A remote file name usable as a local file name: no `/`, `\` or NUL,
/// and neither `.` nor `..`.
pub open spec fn usable_basename(name: Seq<char>) -> bool {
    &&& forall|i: int| 0 <= i < name.len() ==> name[i] != '/' && name[i] != '\\' && name[i] != '\0'
    &&& name != "."@
    &&& name != ".."@
}

/// Checks the remote file's name before it becomes the local copy's name.
pub fn check_sysopen_basename(name: &str) -> (r: Result<(), AppError>)
    ensures
        usable_basename(name@) <==> r is Ok,
        r matches Err(e) ==> (e matches AppError::Ssh(m) && m@ == "远端文件名包含非法字符"@),
{
    let cs = chars_of(name);
    let mut i: usize = 0;
    while i < cs.len()
        invariant
            i <= cs.len(),
            cs@ == name@,
            forall|j: int| 0 <= j < i ==> cs@[j] != '/' && cs@[j] != '\\' && cs@[j] != '\0',
        decreases cs.len() - i,
    {
        if cs[i] == '/' || cs[i] == '\\' || cs[i] == '\0' {
            return Err(AppError::Ssh(String::from_str("远端文件名包含非法字符")));
        }
        i = i + 1;
    }
    if str_eq(name, ".") || str_eq(name, "..") {
        return Err(AppError::Ssh(String::from_str("远端文件名包含非法字符")));
    }
    Ok(())
}

/// How a request to open a remote file with the system application is
/// admitted.
#[derive(Debug, Clone, PartialEq, Eq)]
pub enum SysopenAdmission {
    /// A task already holds this file: raise its local copy again.
    Reuse { task_id: String, local_path: String },
    /// Start a new task; `stale_entry` says that a recorded task for the
    /// file is gone and its record must be dropped first.
    Start { stale_entry: bool },
}

/// Admits an open request. `existing` is the task recorded for the same
/// session and remote path, with its local copy while it still runs;
/// `session_tasks` counts the session's running tasks. A running task is
/// reused; otherwise a session already at [`MAX_CONCURRENT_PER_SESSION`]
/// tasks is refused.
pub fn sysopen_admission(existing: Option<(String, Option<String>)>, session_tasks: usize) -> (r:
    Result<SysopenAdmission, AppError>)
    ensures
        match existing {
            Some((t, Some(l))) => r == Ok::<SysopenAdmission, AppError>(
                SysopenAdmission::Reuse { task_id: t, local_path: l },
            ),
            _ => if session_tasks >= MAX_CONCURRENT_PER_SESSION {
                r matches Err(AppError::Ssh(m)) && m@ == "同时打开的文件过多（上限 "@ + nat_decimal(
                    MAX_CONCURRENT_PER_SESSION as nat,
                ) + "），请先关闭部分再重试"@
            } else {
                r == Ok::<SysopenAdmission, AppError>(
                    SysopenAdmission::Start { stale_entry: existing is Some },
                )
            },
        },
{
    let stale = match existing {
        Some((t, Some(l))) => {
            return Ok(SysopenAdmission::Reuse { task_id: t, local_path: l });
        },
        Some((_, None)) => true,
        None => false,
    };
    if session_tasks >= MAX_CONCURRENT_PER_SESSION {
        let mut m = String::from_str("同时打开的文件过多（上限 ");
        append_chars(&mut m, &u64_decimal(MAX_CONCURRENT_PER_SESSION as u64));
        m.append("），请先关闭部分再重试");
        return Err(AppError::Ssh(m));
    }
    Ok(SysopenAdmission::Start { stale_entry: stale })
}

/// Only regular files up to [`SYSOPEN_MAX_BYTES`] are opened; a larger one
/// is refused with both sizes in whole MiB.
pub fn check_sysopen_file(is_regular: bool, size: u64) -> (r: Result<(), AppError>)
    ensures
        (is_regular && size <= SYSOPEN_MAX_BYTES) <==> r is Ok,
        !is_regular ==> (r matches Err(AppError::Ssh(m)) && m@ == "只能打开普通文件"@),
        is_regular && size > SYSOPEN_MAX_BYTES ==> (r matches Err(AppError::Ssh(m)) && m@
            == "文件过大 ("@ + nat_decimal((size / 1048576) as nat) + " MB)，系统打开限制为 "@
            + nat_decimal((SYSOPEN_MAX_BYTES / 1048576) as nat) + " MB，请使用下载功能"@),
{
    if !is_regular {
        return Err(AppError::Ssh(String::from_str("只能打开普通文件")));
    }
    if size > SYSOPEN_MAX_BYTES {
        let mut m = String::from_str("文件过大 (");
        append_chars(&mut m, &u64_decimal(size / 1048576));
        m.append(" MB)，系统打开限制为 ");
        append_chars(&mut m, &u64_decimal(SYSOPEN_MAX_BYTES / 1048576));
        m.append(" MB，请使用下载功能");
        return Err(AppError::Ssh(m));
    }
    Ok(())
}

/// Checks that a download received the whole file.
pub fn check_download_complete(written: u64, total: u64) -> (r: Result<(), String>)
    ensures
        (written == total) <==> r is Ok,
        r matches Err(m) ==> m@ == "下载不完整：预期 "@ + nat_decimal(total as nat) + " 字节，实际 "@
            + nat_decimal(written as nat) + " 字节"@,
{
    if written != total {
        let mut m = String::from_str("下载不完整：预期 ");
        let t = string_from_chars(&u64_decimal(total));
        m.append(t.as_str());
        m.append(" 字节，实际 ");
        let w = string_from_chars(&u64_decimal(written));
        m.append(w.as_str());
        m.append(" 字节");
        Err(m)
    } else {
        Ok(())
    }
}

/// What happens while a task watches its local copy.
#[derive(Debug, Clone, PartialEq, Eq)]
pub enum WatchEvent {
    /// The user stopped the task.
    Cancel,
    /// The local copy changed.
    LocalChange,
    /// The debounce time passed without a further change.
    DebounceElapsed,
    /// A write-back finished.
    SyncSucceeded,
    /// A write-back failed with this message.
    SyncFailed(String),
}

/// What the watch loop does next.
#[derive(Debug, Clone, PartialEq, Eq)]
pub enum WatchAction {
    /// Keep waiting for events.
    Wait,
    /// (Re)start the debounce timer.
    Debounce,
    /// Write the local copy back now.
    SyncBack,
    /// Report these phases and keep watching.
    Report(Vec<SysopenPhase>),
    /// Write back pending changes if the copy is dirty, then stop as
    /// cancelled.
    FinishCancelled,
    /// Stop with this final phase.
    Finish(SysopenPhase),
}

/// State of the watch loop.
pub struct SyncWatch {
    /// Write-backs that failed in a row.
    pub consecutive_failures: u32,
    /// A change is waiting for its debounce to pass.
    pub pending_sync: bool,
}

/// The failure message after `n` failed write-backs in a row, the last
/// with message `e`.
pub open spec fn give_up_message(n: nat, e: Seq<char>) -> Seq<char> {
    "连续 "@ + nat_decimal(n) + " 次回传失败："@ + e
}

impl SyncWatch {
    /// A fresh watch: no failures, nothing pending.
    pub fn new() -> (r: Self)
        ensures
            r.consecutive_failures == 0,
            !r.pending_sync,
    {
        SyncWatch { consecutive_failures: 0, pending_sync: false }
    }

    /// Takes one event and says what to do: a cancel stops (after a last
    /// write-back of pending edits); a change (re)starts the debounce; a
    /// passed debounce writes back; a success resets the failure count and
    /// reports `Synced` then `Monitoring`; a failure counts, and the
    /// `SYNC_MAX_RETRIES`-th failure in a row stops the task with a message
    /// naming the count and the last error.
    pub fn step(&mut self, event: WatchEvent) -> (r: WatchAction)
        requires
            old(self).consecutive_failures < SYNC_MAX_RETRIES,
        ensures
            final(self).consecutive_failures <= SYNC_MAX_RETRIES,
            !(r is Finish) ==> final(self).consecutive_failures < SYNC_MAX_RETRIES,
            match event {
                WatchEvent::Cancel => r is FinishCancelled && *final(self) == *old(self),
                WatchEvent::LocalChange => r is Debounce && final(self).pending_sync
                    && final(self).consecutive_failures == old(self).consecutive_failures,
                WatchEvent::DebounceElapsed => if old(self).pending_sync {
                    r is SyncBack && !final(self).pending_sync
                        && final(self).consecutive_failures == old(self).consecutive_failures
                } else {
                    r is Wait && *final(self) == *old(self)
                },
                WatchEvent::SyncSucceeded => final(self).consecutive_failures == 0 && final(self).pending_sync == old(self).pending_sync && (r matches WatchAction::Report(v) && v@ == seq![
                    SysopenPhase::Synced,
                    SysopenPhase::Monitoring,
                ]),
                WatchEvent::SyncFailed(e) => final(self).consecutive_failures == old(self).consecutive_failures + 1 && final(self).pending_sync == old(self).pending_sync
                    && if final(self).consecutive_failures >= SYNC_MAX_RETRIES {
                    r matches WatchAction::Finish(SysopenPhase::Failed { message }) && message@
                        == give_up_message(final(self).consecutive_failures as nat, e@)
                } else {
                    r matches WatchAction::Report(v) && v@ == seq![SysopenPhase::Monitoring]
                },
            },
    {
        match event {
            WatchEvent::Cancel => WatchAction::FinishCancelled,
            WatchEvent::LocalChange => {
                self.pending_sync = true;
                WatchAction::Debounce
            },
            WatchEvent::DebounceElapsed => {
                if self.pending_sync {
                    self.pending_sync = false;
                    WatchAction::SyncBack
                } else {
                    WatchAction::Wait
                }
            },
            WatchEvent::SyncSucceeded => {
                self.consecutive_failures = 0;
                WatchAction::Report(vec![SysopenPhase::Synced, SysopenPhase::Monitoring])
            },
            WatchEvent::SyncFailed(e) => {
                self.consecutive_failures = self.consecutive_failures + 1;
                if self.consecutive_failures >= SYNC_MAX_RETRIES {
                    let mut m = String::from_str("连续 ");
                    let n = string_from_chars(&u64_decimal(self.consecutive_failures as u64));
                    m.append(n.as_str());
                    m.append(" 次回传失败：");
                    m.append(e.as_str());
                    WatchAction::Finish(SysopenPhase::Failed { message: m })
                } else {
                    WatchAction::Report(vec![SysopenPhase::Monitoring])
                }
            },
        }
    }
}

} // verus!
