use marcel_ssh::{
    check_install_target, check_update_target, AppError, PluginUpdate, UpdateAction, UpdateEvent,
    UpdateInputs, UpdateStage,
};

fn s(v: &[&str]) -> Vec<String> {
    v.iter().map(|x| x.to_string()).collect()
}

fn inputs() -> UpdateInputs {
    UpdateInputs {
        backup_files: s(&["index.html", "config.json", "memories/a.jsonl"]),
        old_shipped: Some(s(&["index.html", "config.json"])),
        new_shipped: s(&["index.html", "config.json", "app.js"]),
        old_preserve: vec![],
        new_preserve: vec![],
        root_is_extract_dir: false,
    }
}

fn cancelled(restore_backup: bool, remove_backup: bool) -> UpdateAction {
    UpdateAction::Fail {
        error: AppError::Cancelled("安装已取消".to_string()),
        restore_backup,
        remove_backup,
    }
}

#[test]
fn install_and_update_targets() {
    assert_eq!(check_install_target("demo", false), Ok(()));
    assert_eq!(
        check_install_target("demo", true),
        Err(AppError::Other("插件 demo 已安装，请先卸载再安装".to_string()))
    );
    assert_eq!(check_update_target("demo", true), Ok(()));
    assert_eq!(
        check_update_target("demo", false),
        Err(AppError::Other("插件 demo 未安装，无法更新".to_string()))
    );
}

#[test]
fn update_runs_its_steps_in_order_and_restores_user_data() {
    let mut u = PluginUpdate::new();
    assert_eq!(u.step(UpdateEvent::Begin, false), UpdateAction::Unpack);
    assert_eq!(u.step(UpdateEvent::Unpacked(inputs()), false), UpdateAction::Backup);
    assert_eq!(u.step(UpdateEvent::BackedUp, false), UpdateAction::RemoveOld);
    assert_eq!(
        u.step(UpdateEvent::OldRemoved(Ok(())), false),
        UpdateAction::Install { copy_only: false }
    );
    assert_eq!(u.step(UpdateEvent::NewInstalled(Ok(())), false), UpdateAction::RecordShipped);
    let mut restored = Vec::new();
    let mut a = u.step(UpdateEvent::ShippedRecorded, false);
    while let UpdateAction::Restore(f) = a {
        restored.push(f);
        a = u.step(UpdateEvent::FileRestored, false);
    }
    assert_eq!(a, UpdateAction::Finish);
    assert_eq!(u.stage, UpdateStage::Finished);
    restored.sort();
    assert_eq!(restored, s(&["config.json", "memories/a.jsonl"]));
}

#[test]
fn update_cancelled_at_each_stage() {
    let mut u = PluginUpdate::new();
    assert_eq!(u.step(UpdateEvent::Begin, true), cancelled(false, false));

    let mut u = PluginUpdate::new();
    u.step(UpdateEvent::Begin, false);
    assert_eq!(u.step(UpdateEvent::Unpacked(inputs()), true), cancelled(false, true));

    let mut u = PluginUpdate::new();
    u.step(UpdateEvent::Begin, false);
    u.step(UpdateEvent::Unpacked(inputs()), false);
    assert_eq!(u.step(UpdateEvent::BackedUp, true), cancelled(false, true));

    // After the old version is gone, a cancel copies the backup back first.
    let mut u = PluginUpdate::new();
    u.step(UpdateEvent::Begin, false);
    u.step(UpdateEvent::Unpacked(inputs()), false);
    u.step(UpdateEvent::BackedUp, false);
    assert_eq!(u.step(UpdateEvent::OldRemoved(Ok(())), true), cancelled(true, true));

    // While restoring, restored files stay; only the backup goes.
    let mut u = PluginUpdate::new();
    u.step(UpdateEvent::Begin, false);
    u.step(UpdateEvent::Unpacked(inputs()), false);
    u.step(UpdateEvent::BackedUp, false);
    u.step(UpdateEvent::OldRemoved(Ok(())), false);
    u.step(UpdateEvent::NewInstalled(Ok(())), false);
    assert!(matches!(u.step(UpdateEvent::ShippedRecorded, false), UpdateAction::Restore(_)));
    assert_eq!(u.step(UpdateEvent::FileRestored, true), cancelled(false, true));
}

#[test]
fn failed_removal_drops_the_backup() {
    let mut u = PluginUpdate::new();
    u.step(UpdateEvent::Begin, false);
    u.step(UpdateEvent::Unpacked(inputs()), false);
    u.step(UpdateEvent::BackedUp, false);
    assert_eq!(
        u.step(UpdateEvent::OldRemoved(Err("busy".to_string())), false),
        UpdateAction::Fail {
            error: AppError::Other("删除旧插件失败: busy".to_string()),
            restore_backup: false,
            remove_backup: true,
        }
    );
}

#[test]
fn failed_install_is_rolled_back() {
    let start = |u: &mut PluginUpdate, copy_only: bool| {
        let mut inp = inputs();
        inp.root_is_extract_dir = copy_only;
        u.step(UpdateEvent::Begin, false);
        u.step(UpdateEvent::Unpacked(inp), false);
        u.step(UpdateEvent::BackedUp, false);
        assert_eq!(
            u.step(UpdateEvent::OldRemoved(Ok(())), false),
            UpdateAction::Install { copy_only }
        );
        assert_eq!(
            u.step(UpdateEvent::NewInstalled(Err("更新插件失败: disk".to_string())), false),
            UpdateAction::RollBack
        );
    };
    let mut u = PluginUpdate::new();
    start(&mut u, true);
    assert_eq!(
        u.step(UpdateEvent::RolledBack(true), false),
        UpdateAction::Fail {
            error: AppError::Other("更新插件失败: disk".to_string()),
            restore_backup: false,
            remove_backup: false,
        }
    );
    let mut u = PluginUpdate::new();
    start(&mut u, false);
    assert_eq!(
        u.step(UpdateEvent::RolledBack(false), false),
        UpdateAction::Fail {
            error: AppError::Other("更新失败且回滚失败: 更新插件失败: disk".to_string()),
            restore_backup: false,
            remove_backup: false,
        }
    );
}

#[test]
fn nothing_to_restore_finishes_at_once() {
    let mut u = PluginUpdate::new();
    u.step(UpdateEvent::Begin, false);
    let inp = UpdateInputs {
        backup_files: s(&["index.html"]),
        old_shipped: Some(s(&["index.html"])),
        new_shipped: s(&["index.html"]),
        old_preserve: vec![],
        new_preserve: vec![],
        root_is_extract_dir: false,
    };
    u.step(UpdateEvent::Unpacked(inp), false);
    u.step(UpdateEvent::BackedUp, false);
    u.step(UpdateEvent::OldRemoved(Ok(())), false);
    u.step(UpdateEvent::NewInstalled(Ok(())), false);
    // A cancel with nothing left to restore still finishes normally.
    assert_eq!(u.step(UpdateEvent::ShippedRecorded, true), UpdateAction::Finish);
}
