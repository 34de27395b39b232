//! Installing and updating a plugin from its source archive: the refusals
//! of the two procedures, and the order of the update's steps — backup,
//! removal of the old version, installation of the new one, restoration of
//! user data — with where a cancellation or a failure stops it and what is
//! rolled back.
use vstd::prelude::*;

use crate::error::AppError;
use crate::plugin_install::{
    restore_list, select_restore_files, union_preserve, union_preserve_paths,
};
use crate::text::views;

verus! {

/// A fresh install is refused when the plugin directory already exists.
pub fn check_install_target(id: &str, target_exists: bool) -> (r: Result<(), AppError>)
    ensures
        r is Err <==> target_exists,
        r matches Err(e) ==> (e matches AppError::Other(m) && m@ == "插件 "@ + id@
            + " 已安装，请先卸载再安装"@),
{
    if target_exists {
        let mut m = String::from_str("插件 ");
        m.append(id);
        m.append(" 已安装，请先卸载再安装");
        Err(AppError::Other(m))
    } else {
        Ok(())
    }
}

/// An update is refused when the plugin is not installed.
pub fn check_update_target(id: &str, target_exists: bool) -> (r: Result<(), AppError>)
    ensures
        r is Err <==> !target_exists,
        r matches Err(e) ==> (e matches AppError::Other(m) && m@ == "插件 "@ + id@
            + " 未安装，无法更新"@),
{
    if target_exists {
        Ok(())
    } else {
        let mut m = String::from_str("插件 ");
        m.append(id);
        m.append(" 未安装，无法更新");
        Err(AppError::Other(m))
    }
}

/// What the caller gathered once the new version is unpacked and its
/// manifest checked, before anything installed is touched.
pub struct UpdateInputs {
    /// Files of the installed plugin (relative, `/`-separated).
    pub backup_files: Vec<String>,
    /// The installed version's shipped list, if it has one.
    pub old_shipped: Option<Vec<String>>,
    /// Files of the new version.
    pub new_shipped: Vec<String>,
    /// Preserve declarations of the installed version.
    pub old_preserve: Vec<String>,
    /// Valid preserve declarations of the new version (none if invalid).
    pub new_preserve: Vec<String>,
    /// The new version's root is the extraction directory itself (no
    /// wrapping folder), so it must be copied rather than moved.
    pub root_is_extract_dir: bool,
}

/// Stage of an update.
#[derive(Debug, Clone, Copy, PartialEq, Eq, Structural)]
pub enum UpdateStage {
    NotStarted,
    Unpacking,
    BackingUp,
    RemovingOld,
    Installing,
    RollingBack,
    RecordingShipped,
    Restoring,
    Finished,
}

/// What the caller reports after doing the last action.
pub enum UpdateEvent {
    /// Start the update.
    Begin,
    /// The new version is unpacked and checked.
    Unpacked(UpdateInputs),
    /// The installed plugin was copied to the backup directory.
    BackedUp,
    /// Removing the installed plugin succeeded, or failed with this message.
    OldRemoved(Result<(), String>),
    /// Putting the new version in place succeeded, or failed with this
    /// error message.
    NewInstalled(Result<(), String>),
    /// The rollback ran; whether copying the backup back succeeded.
    RolledBack(bool),
    /// The new shipped list was written (a failure there is only logged).
    ShippedRecorded,
    /// One file was restored from the backup (or was missing there).
    FileRestored,
}

/// What the caller does next.
#[derive(Debug, Clone, PartialEq, Eq)]
pub enum UpdateAction {
    /// Unpack the archive, find the plugin root, check the manifest and
    /// gather the [`UpdateInputs`].
    Unpack,
    /// Copy the installed plugin to a fresh backup directory.
    Backup,
    /// Remove the installed plugin.
    RemoveOld,
    /// Put the new version in place: copy it when `copy_only`, otherwise
    /// move it, copying when the move fails.
    Install { copy_only: bool },
    /// Remove whatever is at the target, copy the backup back and remove the
    /// backup.
    RollBack,
    /// Write the new shipped list into the plugin directory.
    RecordShipped,
    /// Copy this file from the backup over the new version.
    Restore(String),
    /// Stop with this error: first copy the backup back to the target when
    /// `restore_backup`, then remove the backup directory when
    /// `remove_backup`.
    Fail { error: AppError, restore_backup: bool, remove_backup: bool },
    /// Remove the backup directory: the update is complete.
    Finish,
}

/// State of an update.
pub struct PluginUpdate {
    pub stage: UpdateStage,
    /// Files to restore from the backup, in order.
    pub restore: Vec<String>,
    /// How many of them were restored.
    pub next: usize,
    /// The new version is copied rather than moved.
    pub copy_only: bool,
    /// Message of the failed installation being rolled back.
    pub install_error: String,
}

/// Whether `event` answers the action issued in `stage`.
pub open spec fn event_fits(stage: UpdateStage, event: UpdateEvent) -> bool {
    match event {
        UpdateEvent::Begin => stage == UpdateStage::NotStarted,
        UpdateEvent::Unpacked(_) => stage == UpdateStage::Unpacking,
        UpdateEvent::BackedUp => stage == UpdateStage::BackingUp,
        UpdateEvent::OldRemoved(_) => stage == UpdateStage::RemovingOld,
        UpdateEvent::NewInstalled(_) => stage == UpdateStage::Installing,
        UpdateEvent::RolledBack(_) => stage == UpdateStage::RollingBack,
        UpdateEvent::ShippedRecorded => stage == UpdateStage::RecordingShipped,
        UpdateEvent::FileRestored => stage == UpdateStage::Restoring,
    }
}

/// `a` stops the update as cancelled.
pub open spec fn cancels(a: UpdateAction, restore_backup: bool, remove_backup: bool) -> bool {
    &&& a matches UpdateAction::Fail { error: AppError::Cancelled(m), restore_backup: rb, remove_backup: mb }
    &&& m@ == "安装已取消"@
    &&& rb == restore_backup
    &&& mb == remove_backup
}

/// `a` stops the update with an `Other` error carrying `msg`, leaving the
/// backup to the given clean-up.
pub open spec fn fails_with(a: UpdateAction, msg: Seq<char>, restore_backup: bool, remove_backup: bool) -> bool {
    &&& a matches UpdateAction::Fail { error: AppError::Other(m), restore_backup: rb, remove_backup: mb }
    &&& m@ == msg
    &&& rb == restore_backup
    &&& mb == remove_backup
}

/// The optional shipped list seen as plain values.
pub open spec fn opt_views(o: Option<Vec<String>>) -> Option<Seq<Seq<char>>> {
    match o {
        Some(v) => Some(views(v@)),
        None => None,
    }
}

/// The files an update restores: those of the installed plugin that are
/// user data or covered by a preserve declaration of either version.
pub open spec fn update_restore_list(inp: UpdateInputs) -> Seq<Seq<char>> {
    restore_list(
        views(inp.backup_files@),
        opt_views(inp.old_shipped),
        views(inp.new_shipped@),
        union_preserve(views(inp.old_preserve@), views(inp.new_preserve@)),
    )
}

/// After the new version and its shipped list are in place: restore the
/// next file unless cancelled (restored files stay; only the backup is
/// removed), or finish when all are restored.
pub open spec fn restoring_step(u: PluginUpdate, cancelled: bool, a: UpdateAction) -> bool {
    if u.next < u.restore@.len() {
        if cancelled {
            u.stage == UpdateStage::Finished && cancels(a, false, true)
        } else {
            u.stage == UpdateStage::Restoring && (a matches UpdateAction::Restore(f) && f@
                == u.restore@[u.next as int]@)
        }
    } else {
        u.stage == UpdateStage::Finished && a == UpdateAction::Finish
    }
}

impl PluginUpdate {
    /// Internal consistency: restoring only while files remain.
    pub open spec fn wf(&self) -> bool {
        &&& self.next <= self.restore@.len()
        &&& self.stage == UpdateStage::Restoring ==> self.next < self.restore@.len()
    }

    /// An update that has not started.
    pub fn new() -> (r: Self)
        ensures
            r.wf(),
            r.stage == UpdateStage::NotStarted,
            r.restore@.len() == 0,
    {
        PluginUpdate {
            stage: UpdateStage::NotStarted,
            restore: Vec::new(),
            next: 0,
            copy_only: false,
            install_error: String::new(),
        }
    }

    fn restore_next(&mut self, cancelled: bool) -> (a: UpdateAction)
        requires
            old(self).next <= old(self).restore@.len(),
        ensures
            final(self).wf(),
            final(self).restore@ == old(self).restore@,
            final(self).next == old(self).next,
            final(self).copy_only == old(self).copy_only,
            final(self).install_error == old(self).install_error,
            restoring_step(*final(self), cancelled, a),
    {
        if self.next < self.restore.len() {
            if cancelled {
                self.stage = UpdateStage::Finished;
                UpdateAction::Fail {
                    error: AppError::Cancelled(String::from_str("安装已取消")),
                    restore_backup: false,
                    remove_backup: true,
                }
            } else {
                self.stage = UpdateStage::Restoring;
                UpdateAction::Restore(self.restore[self.next].clone())
            }
        } else {
            self.stage = UpdateStage::Finished;
            UpdateAction::Finish
        }
    }

    /// Takes the outcome of the last action, and whether the user has
    /// cancelled, and says what to do next. Cancellation is checked before
    /// unpacking, before the backup, before removing the old version (the
    /// backup is dropped), after removing it (the backup is copied back
    /// first), and before each restored file (restored files stay). A
    /// failed removal drops the backup; a failed installation is rolled
    /// back, and if the rollback fails too the error says so.
    pub fn step(&mut self, event: UpdateEvent, cancelled: bool) -> (a: UpdateAction)
        requires
            old(self).wf(),
            event_fits(old(self).stage, event),
        ensures
            final(self).wf(),
            match event {
                UpdateEvent::Begin => if cancelled {
                    final(self).stage == UpdateStage::Finished && cancels(a, false, false)
                } else {
                    final(self).stage == UpdateStage::Unpacking && a == UpdateAction::Unpack
                },
                UpdateEvent::Unpacked(inp) => {
                    &&& views(final(self).restore@) == update_restore_list(inp)
                    &&& final(self).next == 0
                    &&& final(self).copy_only == inp.root_is_extract_dir
                    &&& if cancelled {
                        final(self).stage == UpdateStage::Finished && cancels(a, false, true)
                    } else {
                        final(self).stage == UpdateStage::BackingUp && a == UpdateAction::Backup
                    }
                },
                UpdateEvent::BackedUp => {
                    &&& final(self).restore@ == old(self).restore@
                    &&& final(self).copy_only == old(self).copy_only
                    &&& if cancelled {
                        final(self).stage == UpdateStage::Finished && cancels(a, false, true)
                    } else {
                        final(self).stage == UpdateStage::RemovingOld && a == UpdateAction::RemoveOld
                    }
                },
                UpdateEvent::OldRemoved(res) => {
                    &&& final(self).restore@ == old(self).restore@
                    &&& final(self).copy_only == old(self).copy_only
                    &&& match res {
                        Err(e) => final(self).stage == UpdateStage::Finished && fails_with(
                            a,
                            "删除旧插件失败: "@ + e@,
                            false,
                            true,
                        ),
                        Ok(()) => if cancelled {
                            final(self).stage == UpdateStage::Finished && cancels(a, true, true)
                        } else {
                            final(self).stage == UpdateStage::Installing && a == (UpdateAction::Install {
                                copy_only: old(self).copy_only,
                            })
                        },
                    }
                },
                UpdateEvent::NewInstalled(res) => {
                    &&& final(self).restore@ == old(self).restore@
                    &&& match res {
                        Err(e) => final(self).stage == UpdateStage::RollingBack
                            && final(self).install_error@ == e@ && a == UpdateAction::RollBack,
                        Ok(()) => final(self).stage == UpdateStage::RecordingShipped && a
                            == UpdateAction::RecordShipped,
                    }
                },
                UpdateEvent::RolledBack(ok) => final(self).stage == UpdateStage::Finished
                    && if ok {
                    fails_with(a, old(self).install_error@, false, false)
                } else {
                    fails_with(a, "更新失败且回滚失败: "@ + old(self).install_error@, false, false)
                },
                UpdateEvent::ShippedRecorded => {
                    &&& final(self).restore@ == old(self).restore@
                    &&& final(self).next == 0
                    &&& restoring_step(*final(self), cancelled, a)
                },
                UpdateEvent::FileRestored => {
                    &&& final(self).restore@ == old(self).restore@
                    &&& final(self).next == old(self).next + 1
                    &&& restoring_step(*final(self), cancelled, a)
                },
            },
    {
        match event {
            UpdateEvent::Begin => {
                if cancelled {
                    self.stage = UpdateStage::Finished;
                    UpdateAction::Fail {
                        error: AppError::Cancelled(String::from_str("安装已取消")),
                        restore_backup: false,
                        remove_backup: false,
                    }
                } else {
                    self.stage = UpdateStage::Unpacking;
                    UpdateAction::Unpack
                }
            },
            UpdateEvent::Unpacked(inp) => {
                let globs = union_preserve_paths(&inp.old_preserve, &inp.new_preserve);
                let old_shipped = match &inp.old_shipped {
                    Some(v) => Some(v),
                    None => None,
                };
                self.restore = select_restore_files(
                    &inp.backup_files,
                    old_shipped,
                    &inp.new_shipped,
                    &globs,
                );
                self.next = 0;
                self.copy_only = inp.root_is_extract_dir;
                if cancelled {
                    self.stage = UpdateStage::Finished;
                    UpdateAction::Fail {
                        error: AppError::Cancelled(String::from_str("安装已取消")),
                        restore_backup: false,
                        remove_backup: true,
                    }
                } else {
                    self.stage = UpdateStage::BackingUp;
                    UpdateAction::Backup
                }
            },
            UpdateEvent::BackedUp => {
                if cancelled {
                    self.stage = UpdateStage::Finished;
                    UpdateAction::Fail {
                        error: AppError::Cancelled(String::from_str("安装已取消")),
                        restore_backup: false,
                        remove_backup: true,
                    }
                } else {
                    self.stage = UpdateStage::RemovingOld;
                    UpdateAction::RemoveOld
                }
            },
            UpdateEvent::OldRemoved(res) => match res {
                Err(e) => {
                    self.stage = UpdateStage::Finished;
                    let mut m = String::from_str("删除旧插件失败: ");
                    m.append(e.as_str());
                    UpdateAction::Fail {
                        error: AppError::Other(m),
                        restore_backup: false,
                        remove_backup: true,
                    }
                },
                Ok(()) => {
                    if cancelled {
                        self.stage = UpdateStage::Finished;
                        UpdateAction::Fail {
                            error: AppError::Cancelled(String::from_str("安装已取消")),
                            restore_backup: true,
                            remove_backup: true,
                        }
                    } else {
                        self.stage = UpdateStage::Installing;
                        UpdateAction::Install { copy_only: self.copy_only }
                    }
                },
            },
            UpdateEvent::NewInstalled(res) => match res {
                Err(e) => {
                    self.stage = UpdateStage::RollingBack;
                    self.install_error = e;
                    UpdateAction::RollBack
                },
                Ok(()) => {
                    self.stage = UpdateStage::RecordingShipped;
                    UpdateAction::RecordShipped
                },
            },
            UpdateEvent::RolledBack(ok) => {
                self.stage = UpdateStage::Finished;
                if ok {
                    UpdateAction::Fail {
                        error: AppError::Other(self.install_error.clone()),
                        restore_backup: false,
                        remove_backup: false,
                    }
                } else {
                    let mut m = String::from_str("更新失败且回滚失败: ");
                    m.append(self.install_error.as_str());
                    UpdateAction::Fail {
                        error: AppError::Other(m),
                        restore_backup: false,
                        remove_backup: false,
                    }
                }
            },
            UpdateEvent::ShippedRecorded => {
                self.next = 0;
                self.restore_next(cancelled)
            },
            UpdateEvent::FileRestored => {
                let n = self.restore.len();
                assert(self.next < n);
                self.next = self.next + 1;
                self.restore_next(cancelled)
            },
        }
    }
}

} // verus!
