//! Agent tasks: the tasks a cancellation reaches (a task and every
//! sub-task below it), and the results agent commands report.
use vstd::prelude::*;

use crate::error::AppError;
use crate::text::{chars_of, contains_string, lemma_push_contains, opt_view, str_eq, views};

verus! {

/// The ids of the tasks, in order.
pub open spec fn task_ids(tasks: Seq<(String, Option<String>)>) -> Seq<Seq<char>> {
    tasks.map_values(|t: (String, Option<String>)| t.0@)
}

/// Whether task `k` of `tasks` has parent `parent`.
pub open spec fn has_parent(tasks: Seq<(String, Option<String>)>, k: int, parent: Seq<char>) -> bool {
    opt_view(tasks[k].1) == Some(parent)
}

/// Whether `r[i]` is the id of a child of some `r[j]` with `j < i`.
pub open spec fn child_of_earlier(tasks: Seq<(String, Option<String>)>, r: Seq<Seq<char>>, i: int) -> bool {
    exists|j: int, k: int|
        0 <= j < i && 0 <= k < tasks.len() && tasks[k].0@ == r[i] && #[trigger] has_parent(
            tasks,
            k,
            r[j],
        )
}

/// Every id after the first is a child of an earlier one.
pub open spec fn all_children_of_earlier(tasks: Seq<(String, Option<String>)>, r: Seq<Seq<char>>) -> bool {
    forall|i: int| 0 < i < r.len() ==> #[trigger] child_of_earlier(tasks, r, i)
}

/// Every child of `r[0..n]` is in `r`.
pub open spec fn children_collected(tasks: Seq<(String, Option<String>)>, r: Seq<Seq<char>>, n: int) -> bool {
    forall|i: int, k: int|
        0 <= i < n && 0 <= k < tasks.len() && #[trigger] has_parent(tasks, k, r[i]) ==> r.contains(
            tasks[k].0@,
        )
}

/// Every child of `r[idx]` among the first `m` tasks is in `r`.
pub open spec fn children_collected_upto(
    tasks: Seq<(String, Option<String>)>,
    r: Seq<Seq<char>>,
    idx: int,
    m: int,
) -> bool {
    forall|k: int| 0 <= k < m && #[trigger] has_parent(tasks, k, r[idx]) ==> r.contains(tasks[k].0@)
}

proof fn lemma_len_bound(r: Seq<Seq<char>>, ids: Seq<Seq<char>>)
    requires
        r.len() >= 1,
        r.skip(1).no_duplicates(),
        forall|i: int| 1 <= i < r.len() ==> ids.contains(#[trigger] r[i]),
    ensures
        r.len() <= ids.len() + 1,
{
    let rest = r.skip(1);
    rest.unique_seq_to_set();
    ids.lemma_cardinality_of_set();
    assert forall|x: Seq<char>| rest.to_set().contains(x) implies ids.to_set().contains(x) by {
        let i = choose|i: int| 0 <= i < rest.len() && rest[i] == x;
        assert(r[i + 1] == rest[i]);
    }
    vstd::set_lib::lemma_len_subset(rest.to_set(), ids.to_set());
}

proof fn lemma_push_keeps(
    tasks: Seq<(String, Option<String>)>,
    r: Seq<Seq<char>>,
    x: Seq<char>,
    idx: int,
    m: int,
)
    requires
        0 <= idx < r.len(),
        0 <= m < tasks.len(),
        tasks[m].0@ == x,
        has_parent(tasks, m, r[idx]),
        children_collected(tasks, r, idx),
        children_collected_upto(tasks, r, idx, m),
        all_children_of_earlier(tasks, r),
    ensures
        children_collected(tasks, r.push(x), idx),
        children_collected_upto(tasks, r.push(x), idx, m + 1),
        all_children_of_earlier(tasks, r.push(x)),
{
    let s = r.push(x);
    assert forall|i: int, k: int|
        0 <= i < idx && 0 <= k < tasks.len() && #[trigger] has_parent(
            tasks,
            k,
            s[i],
        ) implies s.contains(tasks[k].0@) by {
        assert(s[i] == r[i]);
        assert(has_parent(tasks, k, r[i]));
        lemma_push_contains(r, x, tasks[k].0@);
    }
    assert forall|k: int| 0 <= k < m + 1 && #[trigger] has_parent(tasks, k, s[idx]) implies s.contains(
        tasks[k].0@,
    ) by {
        assert(s[idx] == r[idx]);
        lemma_push_contains(r, x, tasks[k].0@);
    }
    assert forall|i: int| 0 < i < s.len() implies #[trigger] child_of_earlier(tasks, s, i) by {
        if i < r.len() {
            assert(child_of_earlier(tasks, r, i));
            let (j, k) = choose|j: int, k: int|
                0 <= j < i && 0 <= k < tasks.len() && tasks[k].0@ == r[i] && #[trigger] has_parent(
                    tasks,
                    k,
                    r[j],
                );
            assert(s[j] == r[j]);
            assert(s[i] == r[i]);
            assert(has_parent(tasks, k, s[j]));
        } else {
            assert(s[idx] == r[idx]);
            assert(has_parent(tasks, m, s[idx]));
        }
    }
}

/// Collects `task_id` and all of its descendants (sub-tasks, their
/// sub-tasks, …) breadth first: `task_id` comes first, nothing twice, every
/// later id is a child of an id before it, and every child of a collected
/// id is collected. `tasks` lists each task's id and parent id.
pub fn collect_descendant_tasks(tasks: &Vec<(String, Option<String>)>, task_id: &str) -> (r: Vec<
    String,
>)
    ensures
        r.len() >= 1,
        views(r@)[0] == task_id@,
        views(r@).no_duplicates(),
        children_collected(tasks@, views(r@), r.len() as int),
        all_children_of_earlier(tasks@, views(r@)),
{
    let ghost ids = task_ids(tasks@);
    let mut r: Vec<String> = Vec::new();
    r.push(String::from_str(task_id));
    let mut idx: usize = 0;
    assert(views(r@).skip(1) =~= Seq::<Seq<char>>::empty());
    while idx < r.len()
        invariant
            ids == task_ids(tasks@),
            1 <= r.len() <= tasks.len() + 1,
            idx <= r.len(),
            views(r@)[0] == task_id@,
            views(r@).no_duplicates(),
            forall|i: int| 1 <= i < r.len() ==> ids.contains(#[trigger] views(r@)[i]),
            children_collected(tasks@, views(r@), idx as int),
            all_children_of_earlier(tasks@, views(r@)),
        decreases tasks.len() + 1 - idx,
    {
        let parent = r[idx].clone();
        let mut m: usize = 0;
        while m < tasks.len()
            invariant
                ids == task_ids(tasks@),
                1 <= r.len() <= tasks.len() + 1,
                idx < r.len(),
                parent@ == views(r@)[idx as int],
                views(r@)[0] == task_id@,
                views(r@).no_duplicates(),
                forall|i: int| 1 <= i < r.len() ==> ids.contains(#[trigger] views(r@)[i]),
                children_collected(tasks@, views(r@), idx as int),
                children_collected_upto(tasks@, views(r@), idx as int, m as int),
                all_children_of_earlier(tasks@, views(r@)),
            decreases tasks.len() - m,
        {
            let t = &tasks[m];
            let is_child = match &t.1 {
                Some(p) => str_eq(p.as_str(), parent.as_str()),
                None => false,
            };
            let ghost before = views(r@);
            if is_child && !contains_string(&r, &t.0) {
                r.push(t.0.clone());
                assert(views(r@) =~= before.push(t.0@));
                proof {
                    assert(ids[m as int] == t.0@);
                    assert(before.skip(1).push(t.0@) =~= views(r@).skip(1));
                    assert forall|i: int| 1 <= i < r.len() implies ids.contains(
                        #[trigger] views(r@)[i],
                    ) by {
                        if i < before.len() {
                            assert(views(r@)[i] == before[i]);
                        }
                    }
                    lemma_len_bound(views(r@), ids);
                    lemma_push_keeps(tasks@, before, t.0@, idx as int, m as int);
                }
            } else {
                proof {
                    assert forall|k: int|
                        0 <= k < m + 1 && #[trigger] has_parent(tasks@, k, before[idx as int])
                            implies before.contains(tasks@[k].0@) by {
                        if k == m {
                            assert(is_child);
                        }
                    }
                }
            }
            m = m + 1;
        }
        idx = idx + 1;
    }
    r
}

/// Largest local file read as an attachment (10 MiB).
pub const MAX_ATTACHMENT_READ_BYTES: u64 = 10485760;

/// A local file read for an attachment.
#[derive(Debug, Clone)]
pub struct LocalFilePayload {
    /// File name (for content URIs the display name).
    pub name: String,
    /// Content, base64 (standard alphabet, no data-URL prefix).
    pub base64: String,
    /// Size in bytes.
    pub size: u64,
}

/// Result of compacting a conversation on request.
#[derive(Debug, Clone)]
pub struct CompactionCommandResult {
    /// Whether anything was compacted.
    pub compacted: bool,
    /// The summary (without framing tags).
    pub summary: Option<String>,
    /// Messages replaced by the summary.
    pub shadowed_messages: usize,
    /// Estimated tokens replaced.
    pub shadowed_tokens: usize,
    /// Database id of the last replaced message.
    pub tail_db_id: Option<String>,
    /// Why nothing was compacted.
    pub reason: Option<String>,
    /// Whether summarizing was started at all.
    pub attempted: bool,
}

/// A background-job notice for the conversation.
#[derive(Debug, Clone)]
pub struct JobNotice {
    pub text: String,
    pub job_ids: Vec<String>,
}

/// Whether the conversation has a task that is still running; `tasks` are
/// `(conversation id, running)` pairs, running meaning planning, executing
/// or waiting for approval.
pub open spec fn conversation_busy(tasks: Seq<(String, bool)>, conversation_id: Seq<char>) -> bool {
    exists|k: int| 0 <= k < tasks.len() && tasks[k].0@ == conversation_id && #[trigger] tasks[k].1
}

/// A conversation is compacted on request only while none of its tasks runs.
pub fn check_compaction_idle(tasks: &[(String, bool)], conversation_id: &str) -> (r: Result<
    (),
    AppError,
>)
    ensures
        r is Err <==> conversation_busy(tasks@, conversation_id@),
        r matches Err(e) ==> (e matches AppError::Agent(m) && m@
            == "会话正在运行任务，请等待任务结束或停止后再压缩"@),
{
    let mut i: usize = 0;
    while i < tasks.len()
        invariant
            i <= tasks.len(),
            forall|k: int| 0 <= k < i ==> !(tasks@[k].0@ == conversation_id@ && #[trigger] tasks@[k].1),
        decreases tasks.len() - i,
    {
        if tasks[i].1 && str_eq(tasks[i].0.as_str(), conversation_id) {
            return Err(AppError::Agent(String::from_str("会话正在运行任务，请等待任务结束或停止后再压缩")));
        }
        i = i + 1;
    }
    Ok(())
}

/// Skip reasons joined by `; `.
pub open spec fn join_reasons(rs: Seq<Seq<char>>) -> Seq<char>
    decreases rs.len(),
{
    if rs.len() == 0 {
        Seq::empty()
    } else if rs.len() == 1 {
        rs[0]
    } else {
        join_reasons(rs.drop_last()) + "; "@ + rs.last()
    }
}

/// The reasons of the skip events `(reason, attempted)`, in order.
pub open spec fn skip_reasons(skips: Seq<(String, bool)>) -> Seq<Seq<char>> {
    skips.map_values(|s: (String, bool)| s.0@)
}

impl CompactionCommandResult {
    /// Nothing compacted because the conversation has no messages yet.
    pub fn empty_history() -> (r: Self)
        ensures
            !r.compacted,
            r.summary is None,
            r.shadowed_messages == 0,
            r.shadowed_tokens == 0,
            r.tail_db_id is None,
            r.reason matches Some(m) && m@ == "会话还没有消息，无需压缩"@,
            !r.attempted,
    {
        CompactionCommandResult {
            compacted: false,
            summary: None,
            shadowed_messages: 0,
            shadowed_tokens: 0,
            tail_db_id: None,
            reason: Some(String::from_str("会话还没有消息，无需压缩")),
            attempted: false,
        }
    }

    /// Nothing compacted because compaction skipped; `skips` are the skip
    /// events `(reason, attempted)` in the order they came. The reasons are
    /// joined by `; ` (a fixed message stands in for an empty join), and
    /// `attempted` is that of the last skip event.
    pub fn skipped(skips: &[(String, bool)]) -> (r: Self)
        ensures
            !r.compacted,
            r.summary is None,
            r.shadowed_messages == 0,
            r.shadowed_tokens == 0,
            r.tail_db_id is None,
            r.reason matches Some(m) && m@ == (if join_reasons(skip_reasons(skips@)).len() == 0 {
                "没有可压缩的早期历史区间"@
            } else {
                join_reasons(skip_reasons(skips@))
            }),
            r.attempted == (skips@.len() > 0 && skips@.last().1),
    {
        let ghost rs = skip_reasons(skips@);
        let mut joined = String::from_str("");
        let mut attempted = false;
        let mut i: usize = 0;
        proof {
            reveal_strlit("");
            assert(rs.take(0) =~= Seq::<Seq<char>>::empty());
        }
        while i < skips.len()
            invariant
                i <= skips.len(),
                rs == skip_reasons(skips@),
                joined@ == join_reasons(rs.take(i as int)),
                attempted == (i > 0 && skips@[i - 1].1),
            decreases skips.len() - i,
        {
            assert(rs.take(i + 1).drop_last() =~= rs.take(i as int));
            assert(rs.take(i + 1).last() == skips@[i as int].0@);
            if i > 0 {
                joined.append("; ");
            } else {
                assert(joined@ =~= Seq::<char>::empty());
            }
            joined.append(skips[i].0.as_str());
            proof {
                if i == 0 {
                    assert(joined@ =~= rs.take(1)[0]);
                }
            }
            attempted = skips[i].1;
            i = i + 1;
        }
        assert(rs.take(skips.len() as int) =~= rs);
        let reason = if chars_of(joined.as_str()).len() == 0 {
            String::from_str("没有可压缩的早期历史区间")
        } else {
            joined
        };
        CompactionCommandResult {
            compacted: false,
            summary: None,
            shadowed_messages: 0,
            shadowed_tokens: 0,
            tail_db_id: None,
            reason: Some(reason),
            attempted,
        }
    }
}

} // verus!
