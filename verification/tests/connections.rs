use marcel_ssh::{
    credential_accounts, jump_passphrase_account, jump_password_account, normalize_order_entries,
    plan_jump, AppError, ConnectionOrderEntry, ConnectionStore, JumpAuthPlan, SavedConnection,
};

fn conn(id: &str, group: Option<&str>) -> SavedConnection {
    SavedConnection {
        id: id.into(),
        name: format!("name-{id}"),
        host: "127.0.0.1".into(),
        port: 22,
        username: "root".into(),
        auth_method: "Agent".into(),
        key_path: None,
        group: group.map(String::from),
        last_connected: None,
        use_jump: false,
        jump_host: None,
        jump_port: None,
        jump_username: None,
        jump_auth_method: None,
        jump_key_path: None,
    }
}

fn store_of(items: Vec<SavedConnection>) -> ConnectionStore {
    ConnectionStore { connections: items }
}

fn ids(store: &ConnectionStore) -> Vec<String> {
    store.get_all().iter().map(|c| c.id.clone()).collect()
}

#[test]
fn apply_order_reorders_and_moves_between_groups() {
    let mut store = store_of(vec![conn("a", Some("prod")), conn("b", Some("test")), conn("c", Some("prod"))]);
    let (reordered, appended, ignored) = store.apply_order(&[
        ("c".into(), Some("test".into())),
        ("a".into(), Some("prod".into())),
        ("b".into(), Some("test".into())),
    ]);
    assert_eq!(ids(&store), vec!["c", "a", "b"]);
    assert_eq!(reordered, 3);
    assert_eq!(appended, 0);
    assert_eq!(ignored, 0);
    assert_eq!(store.get_by_id("c").unwrap().group.as_deref(), Some("test"));
}

#[test]
fn apply_order_clears_group_with_none() {
    let mut store = store_of(vec![conn("a", Some("prod"))]);
    store.apply_order(&[("a".into(), None)]);
    assert_eq!(store.get_by_id("a").unwrap().group, None);
}

#[test]
fn apply_order_appends_missing_and_ignores_unknown() {
    let mut store = store_of(vec![conn("a", None), conn("b", None), conn("c", None)]);
    let (reordered, appended, ignored) = store.apply_order(&[("c".into(), None), ("ghost".into(), None)]);
    assert_eq!(ids(&store), vec!["c", "a", "b"]);
    assert_eq!(reordered, 1);
    assert_eq!(appended, 2);
    assert_eq!(ignored, 1);
}

#[test]
fn apply_order_keeps_other_fields() {
    let mut mark = conn("a", Some("prod"));
    mark.last_connected = Some("2024-05-01T10:00:00+00:00".into());
    let mut store = store_of(vec![mark, conn("b", None)]);
    store.apply_order(&[("b".into(), None), ("a".into(), Some("prod".into()))]);
    let a = store.get_by_id("a").unwrap();
    assert!(a.last_connected.is_some());
    assert_eq!(a.name, "name-a");
    assert_eq!(a.host, "127.0.0.1");
}

#[test]
fn replace_keeping_order_keeps_slot() {
    let mut store = store_of(vec![conn("a", None), conn("b", None), conn("c", None)]);
    let mut edited = conn("b", Some("test"));
    edited.name = "改过名字".into();
    edited.host = "10.0.0.1".into();
    store.replace_keeping_order(edited);
    assert_eq!(ids(&store), vec!["a", "b", "c"]);
    assert_eq!(store.get_by_id("b").unwrap().name, "改过名字");
    assert_eq!(store.get_by_id("b").unwrap().host, "10.0.0.1");
}

#[test]
fn replace_keeping_order_appends_new_connection() {
    let mut store = store_of(vec![conn("a", None)]);
    store.replace_keeping_order(conn("new", None));
    assert_eq!(ids(&store), vec!["a", "new"]);
}

#[test]
fn remove_and_mark_connected() {
    let mut store = ConnectionStore::new();
    store.add(conn("a", None));
    store.add(conn("b", None));
    store.mark_connected_at("b", "2024-01-01T00:00:00+00:00".into());
    assert_eq!(store.get_by_id("b").unwrap().last_connected.as_deref(), Some("2024-01-01T00:00:00+00:00"));
    store.mark_connected("a");
    assert!(store.get_by_id("a").unwrap().last_connected.is_some());
    store.mark_connected("ghost");
    assert!(store.remove("a"));
    assert!(!store.remove("a"));
    assert_eq!(ids(&store), vec!["b"]);
}

#[test]
fn order_entries_trim_groups() {
    let pairs = normalize_order_entries(vec![
        ConnectionOrderEntry { id: "a".into(), group: Some("  prod ".into()) },
        ConnectionOrderEntry { id: "b".into(), group: Some("   ".into()) },
        ConnectionOrderEntry { id: "c".into(), group: None },
    ]);
    assert_eq!(
        pairs,
        vec![("a".to_string(), Some("prod".to_string())), ("b".to_string(), None), ("c".to_string(), None)]
    );
}

#[test]
fn keychain_accounts_of_a_connection() {
    assert_eq!(jump_password_account("c1"), "jump:c1");
    assert_eq!(jump_passphrase_account("c1"), "jump:pk:c1");
    assert_eq!(credential_accounts("c1"), vec!["c1", "pk:c1", "jump:c1", "jump:pk:c1"]);
}

#[test]
fn jump_settings_are_checked() {
    let plain = conn("a", None);
    assert!(matches!(plan_jump(&plain, "a"), Ok(None)));

    let mut j = conn("a", None);
    j.use_jump = true;
    assert_eq!(
        plan_jump(&j, "a").unwrap_err(),
        AppError::Config("已启用跳板机但未配置主机".into())
    );
    j.jump_host = Some("bastion".into());
    assert_eq!(
        plan_jump(&j, "a").unwrap_err(),
        AppError::Config("已启用跳板机但未配置用户名".into())
    );
    j.jump_username = Some("ops".into());
    let plan = plan_jump(&j, "a").unwrap().unwrap();
    assert_eq!(plan.port, 22);
    assert_eq!(plan.auth, JumpAuthPlan::WithTarget);

    j.jump_auth_method = Some("Password".into());
    j.jump_port = Some(2222);
    let plan = plan_jump(&j, "a").unwrap().unwrap();
    assert_eq!(plan.port, 2222);
    assert_eq!(plan.auth, JumpAuthPlan::Password { account: "jump:a".into() });

    j.jump_auth_method = Some("PrivateKey".into());
    assert_eq!(plan_jump(&j, "a").unwrap_err(), AppError::Config("未配置跳板机私钥路径".into()));
    j.jump_key_path = Some("/k".into());
    let plan = plan_jump(&j, "a").unwrap().unwrap();
    assert_eq!(
        plan.auth,
        JumpAuthPlan::PrivateKey { key_path: "/k".into(), passphrase_account: "jump:pk:a".into() }
    );

    j.jump_auth_method = Some("Kerberos".into());
    assert_eq!(
        plan_jump(&j, "a").unwrap_err(),
        AppError::Config("不支持的跳板机认证方式: Kerberos".into())
    );
}

#[test]
fn saved_connection_is_found_and_removed_one_is_gone() {
    let mut store = store_of(vec![conn("a", None), conn("b", Some("g"))]);
    let mut edited = conn("b", Some("h"));
    edited.port = 2222;
    store.replace_keeping_order(edited);
    assert_eq!(store.get_by_id("b").unwrap().port, 2222);
    store.replace_keeping_order(conn("c", None));
    assert_eq!(store.get_by_id("c").unwrap().id, "c");
    assert!(store.remove("b"));
    assert!(store.get_by_id("b").is_none());
    assert!(!store.remove("b"));
    assert_eq!(ids(&store), vec!["a", "c"]);
}
