use marcel_ssh::{
    normalize_commands, normalized_session_key, QuickCommandInput, QuickCommandPatch,
    QuickCommandScope, QuickCommandStore,
};

fn store() -> QuickCommandStore {
    QuickCommandStore::new()
}

fn valid_global_input() -> QuickCommandInput {
    QuickCommandInput {
        scope: QuickCommandScope::Global,
        session_key: None,
        name: "My Command".into(),
        commands: vec!["echo hello".into(), "date".into()],
        interval_ms: 1000,
        insert_only: false,
    }
}

fn valid_session_input() -> QuickCommandInput {
    QuickCommandInput {
        scope: QuickCommandScope::Session,
        session_key: Some("conn-123".into()),
        name: "Session Cmd".into(),
        commands: vec!["ls -la".into()],
        interval_ms: 0,
        insert_only: false,
    }
}

fn empty_patch() -> QuickCommandPatch {
    QuickCommandPatch {
        scope: None,
        session_key: None,
        name: None,
        commands: None,
        interval_ms: None,
        insert_only: None,
    }
}

#[test]
fn add_global_command() {
    let mut s = store();
    let cmd = s.add("id-1".into(), valid_global_input()).unwrap();
    assert_eq!(cmd.name, "My Command");
    assert_eq!(cmd.scope, QuickCommandScope::Global);
    assert_eq!(cmd.commands.len(), 2);
    assert!(cmd.session_key.is_none());
}

#[test]
fn add_session_command() {
    let mut s = store();
    let cmd = s.add("id-2".into(), valid_session_input()).unwrap();
    assert_eq!(cmd.scope, QuickCommandScope::Session);
    assert_eq!(cmd.session_key.as_deref(), Some("conn-123"));
}

#[test]
fn add_persists_insert_only_flag() {
    let mut s = store();
    let input = QuickCommandInput { insert_only: true, ..valid_global_input() };
    let cmd = s.add("id-1".into(), input).unwrap();
    assert!(cmd.insert_only);
    let list = s.list_for_session(None);
    assert!(list[0].insert_only);
}

#[test]
fn update_toggles_insert_only_flag() {
    let mut s = store();
    s.add("id-1".into(), valid_global_input()).unwrap();
    assert!(!s.list_for_session(None)[0].insert_only);
    let patch = QuickCommandPatch { insert_only: Some(true), ..empty_patch() };
    s.update("id-1", patch).unwrap();
    assert!(s.list_for_session(None)[0].insert_only);
}

#[test]
fn add_rejects_empty_name() {
    let mut s = store();
    let input = QuickCommandInput { name: "   ".into(), ..valid_global_input() };
    assert!(s.add("id".into(), input).is_err());
}

#[test]
fn add_rejects_empty_commands() {
    let mut s = store();
    let input = QuickCommandInput { commands: vec![], ..valid_global_input() };
    assert!(s.add("id".into(), input).is_err());
}

#[test]
fn add_session_scope_requires_session_key() {
    let mut s = store();
    let input = QuickCommandInput {
        scope: QuickCommandScope::Session,
        session_key: None,
        ..valid_global_input()
    };
    assert!(s.add("id".into(), input).is_err());
}

#[test]
fn update_existing_command() {
    let mut s = store();
    s.add("id-1".into(), valid_global_input()).unwrap();
    let patch = QuickCommandPatch { name: Some("Updated".into()), ..empty_patch() };
    s.update("id-1", patch).unwrap();
    let list = s.list_for_session(None);
    assert_eq!(list[0].name, "Updated");
}

#[test]
fn update_nonexistent_returns_error() {
    let mut s = store();
    let patch = QuickCommandPatch { name: Some("X".into()), ..empty_patch() };
    assert!(s.update("nonexistent", patch).is_err());
}

#[test]
fn update_clears_session_key_when_scope_changed_to_global() {
    let mut s = store();
    s.add("id-1".into(), valid_session_input()).unwrap();
    let patch = QuickCommandPatch {
        scope: Some(QuickCommandScope::Global),
        session_key: Some(None),
        ..empty_patch()
    };
    s.update("id-1", patch).unwrap();
    let list = s.list_for_session(None);
    assert_eq!(list.len(), 1);
}

#[test]
fn remove_existing() {
    let mut s = store();
    s.add("id-1".into(), valid_global_input()).unwrap();
    assert!(s.remove("id-1"));
    assert!(s.list_for_session(None).is_empty());
}

#[test]
fn remove_nonexistent_returns_false() {
    let mut s = store();
    assert!(!s.remove("nonexistent"));
}

#[test]
fn list_for_session_filters_correctly() {
    let mut s = store();
    s.add(
        "g1".into(),
        QuickCommandInput {
            scope: QuickCommandScope::Global,
            name: "Global".into(),
            commands: vec!["g".into()],
            session_key: None,
            interval_ms: 0,
            insert_only: false,
        },
    )
    .unwrap();
    s.add(
        "s1".into(),
        QuickCommandInput {
            scope: QuickCommandScope::Session,
            name: "Session A".into(),
            commands: vec!["sa".into()],
            session_key: Some("conn-a".into()),
            interval_ms: 0,
            insert_only: false,
        },
    )
    .unwrap();

    let for_a = s.list_for_session(Some("conn-a"));
    assert_eq!(for_a.len(), 2);
    let for_b = s.list_for_session(Some("conn-b"));
    assert_eq!(for_b.len(), 1);
    let none = s.list_for_session(None);
    assert_eq!(none.len(), 1);
}

#[test]
fn add_normalizes_name_commands_and_key() {
    let mut s = store();
    let input = QuickCommandInput {
        scope: QuickCommandScope::Session,
        session_key: Some("  conn-1  ".into()),
        name: "  Deploy ".into(),
        commands: vec!["  git pull ".into(), "   ".into(), "make".into()],
        interval_ms: 5,
        insert_only: false,
    };
    let cmd = s.add_at("x".into(), input, "2024-01-01T00:00:00+00:00".into()).unwrap();
    assert_eq!(cmd.name, "Deploy");
    assert_eq!(cmd.session_key.as_deref(), Some("conn-1"));
    assert_eq!(cmd.commands, vec!["git pull".to_string(), "make".to_string()]);
    assert_eq!(cmd.created_at, "2024-01-01T00:00:00+00:00");
    assert_eq!(cmd.updated_at, cmd.created_at);
}

#[test]
fn invalid_update_is_kept_without_new_timestamp() {
    let mut s = store();
    s.add_at("a".into(), valid_global_input(), "t0".into()).unwrap();
    let patch = QuickCommandPatch { commands: Some(vec![" ".into()]), ..empty_patch() };
    let r = s.update_at("a", patch, "t1".into());
    assert!(r.is_err());
    let list = s.list_for_session(None);
    assert!(list[0].commands.is_empty());
    assert_eq!(list[0].updated_at, "t0");
    let patch = QuickCommandPatch { commands: Some(vec!["ls".into()]), ..empty_patch() };
    s.update_at("a", patch, "t2".into()).unwrap();
    assert_eq!(s.list_for_session(None)[0].updated_at, "t2");
}

#[test]
fn normalization_helpers() {
    assert_eq!(normalize_commands(vec![" a ".into(), "".into(), "b".into()]), vec!["a", "b"]);
    assert_eq!(normalized_session_key(Some("  ".into())), None);
    assert_eq!(normalized_session_key(Some(" k ".into())), Some("k".to_string()));
    assert_eq!(normalized_session_key(None), None);
}

#[test]
fn remove_drops_every_command_with_the_id() {
    let mut s = store();
    s.add_at("dup".into(), valid_global_input(), "t".into()).unwrap();
    s.add_at("keep".into(), valid_global_input(), "t".into()).unwrap();
    s.add_at("dup".into(), valid_global_input(), "t".into()).unwrap();
    assert!(s.remove("dup"));
    let left = s.list_for_session(None);
    assert_eq!(left.len(), 1);
    assert_eq!(left[0].id, "keep");
}

#[test]
fn added_command_is_listed_last() {
    let mut s = store();
    s.add_at("g1".into(), valid_global_input(), "t".into()).unwrap();
    s.add_at("s1".into(), valid_session_input(), "t".into()).unwrap();
    s.add_at("g2".into(), valid_global_input(), "t".into()).unwrap();
    let for_session = s.list_for_session(Some("conn-123"));
    assert_eq!(for_session.last().unwrap().id, "g2");
    assert_eq!(for_session.len(), 3);
    let other = s.list_for_session(Some("conn-999"));
    assert_eq!(other.iter().map(|c| c.id.as_str()).collect::<Vec<_>>(), vec!["g1", "g2"]);
    s.add_at("s2".into(), valid_session_input(), "t".into()).unwrap();
    assert_eq!(s.list_for_session(Some("conn-123")).last().unwrap().id, "s2");
}
