use marcel_ssh::{check_compaction_idle, collect_descendant_tasks, AppError, CompactionCommandResult};

fn task(id: &str, parent: Option<&str>) -> (String, Option<String>) {
    (id.to_string(), parent.map(String::from))
}

#[test]
fn collect_descendant_tasks_includes_self_and_direct_subtasks() {
    let tasks = vec![
        task("main", None),
        task("sub1", Some("main")),
        task("sub2", Some("main")),
        task("other", None),
    ];
    let got = collect_descendant_tasks(&tasks, "main");
    assert_eq!(got.len(), 3);
    assert!(got.contains(&"main".to_string()));
    assert!(got.contains(&"sub1".to_string()));
    assert!(got.contains(&"sub2".to_string()));
    assert!(!got.contains(&"other".to_string()));
}

#[test]
fn collect_descendant_tasks_bfs_covers_nested_layers() {
    let tasks = vec![
        task("main", None),
        task("sub1", Some("main")),
        task("sub2", Some("sub1")),
        task("sub3", Some("sub2")),
    ];
    let got = collect_descendant_tasks(&tasks, "main");
    assert_eq!(got.len(), 4);
    assert!(got.contains(&"sub3".to_string()));
}

#[test]
fn collect_descendant_tasks_missing_task_returns_only_self() {
    let tasks = vec![task("other", None)];
    let got = collect_descendant_tasks(&tasks, "ghost");
    assert_eq!(got, vec!["ghost".to_string()]);
}

#[test]
fn collect_descendant_tasks_child_of_other_task_not_collected() {
    let tasks = vec![task("main", None), task("sub", Some("main"))];
    let got = collect_descendant_tasks(&tasks, "sub");
    assert_eq!(got.len(), 1);
    assert_eq!(got[0], "sub");
}

#[test]
fn descendants_come_after_their_parents() {
    let tasks = vec![task("c", Some("b")), task("b", Some("a")), task("a", None)];
    let got = collect_descendant_tasks(&tasks, "a");
    assert_eq!(got, vec!["a", "b", "c"]);
}

#[test]
fn compaction_waits_for_running_tasks() {
    let tasks = vec![("c1".to_string(), false), ("c2".to_string(), true)];
    assert_eq!(check_compaction_idle(&tasks, "c1"), Ok(()));
    assert_eq!(check_compaction_idle(&tasks, "c3"), Ok(()));
    assert_eq!(
        check_compaction_idle(&tasks, "c2"),
        Err(AppError::Agent("会话正在运行任务，请等待任务结束或停止后再压缩".to_string()))
    );
}

#[test]
fn empty_history_is_not_compacted() {
    let r = CompactionCommandResult::empty_history();
    assert!(!r.compacted && !r.attempted);
    assert_eq!(r.reason.as_deref(), Some("会话还没有消息，无需压缩"));
    assert_eq!((r.shadowed_messages, r.shadowed_tokens), (0, 0));
    assert!(r.summary.is_none() && r.tail_db_id.is_none());
}

#[test]
fn skip_reasons_are_joined() {
    let r = CompactionCommandResult::skipped(&[
        ("太短".to_string(), false),
        ("摘要失败".to_string(), true),
    ]);
    assert_eq!(r.reason.as_deref(), Some("太短; 摘要失败"));
    assert!(r.attempted);
    assert!(!r.compacted);
    let r = CompactionCommandResult::skipped(&[("a".to_string(), true), ("b".to_string(), false)]);
    assert!(!r.attempted);
    let r = CompactionCommandResult::skipped(&[]);
    assert_eq!(r.reason.as_deref(), Some("没有可压缩的早期历史区间"));
    assert!(!r.attempted);
}
