//! Plugin host rules: the independent windows each plugin owns (with a
//! per-plugin limit), registered context menus, HTTP requests made on a
//! plugin's behalf, and the MIME type of served plugin resources.
use std::collections::HashMap;
use vstd::prelude::*;

use crate::error::AppError;
use crate::json::{json_get, json_str, JsonValue};
use crate::sftp::{lemma_named_extension, split_stem_and_extension, stem_and_extension};
use crate::text::{
    chars_of, contains_string, has_prefix, has_prefix_exec, nat_decimal, opt_view, str_eq,
    string_from_chars, sub_chars, trim_start_seq, trim_start_seq_exec, u64_decimal, views,
};

verus! {

// ───────────────────────── independent windows ─────────────────────────

/// Most independent windows one plugin may own at a time.
pub const MAX_WINDOWS_PER_PLUGIN: usize = 3;

/// Window labels owned by each plugin.
pub struct PluginWindows {
    entries: Vec<(String, Vec<String>)>,
}

/// The plugin ids of the entries, in order.
pub open spec fn entry_keys(es: Seq<(String, Vec<String>)>) -> Seq<Seq<char>> {
    es.map_values(|e: (String, Vec<String>)| e.0@)
}

/// Index of the entry of plugin `p`, or -1.
pub open spec fn entry_index(es: Seq<(String, Vec<String>)>, p: Seq<char>) -> int
    decreases es.len(),
{
    if es.len() == 0 {
        -1
    } else if es.last().0@ == p {
        es.len() - 1
    } else {
        entry_index(es.drop_last(), p)
    }
}

proof fn lemma_entry_index(es: Seq<(String, Vec<String>)>, p: Seq<char>)
    ensures
        -1 <= entry_index(es, p) < es.len(),
        entry_index(es, p) >= 0 ==> es[entry_index(es, p)].0@ == p,
        entry_index(es, p) < 0 ==> forall|i: int| 0 <= i < es.len() ==> (#[trigger] es[i]).0@ != p,
    decreases es.len(),
{
    if es.len() > 0 && es.last().0@ != p {
        lemma_entry_index(es.drop_last(), p);
        assert forall|i: int| 0 <= i < es.len() - 1 implies es.drop_last()[i] == es[i] by {}
    }
}

/// The labels owned by plugin `p` (none when it has no entry).
pub open spec fn labels_in(es: Seq<(String, Vec<String>)>, p: Seq<char>) -> Seq<Seq<char>> {
    let i = entry_index(es, p);
    if i < 0 {
        Seq::empty()
    } else {
        views(es[i].1@)
    }
}

/// `labels` without `label`, in order.
pub open spec fn without_label(labels: Seq<Seq<char>>, label: Seq<char>) -> Seq<Seq<char>>
    decreases labels.len(),
{
    if labels.len() == 0 {
        Seq::empty()
    } else {
        let prev = without_label(labels.drop_last(), label);
        if labels.last() != label {
            prev.push(labels.last())
        } else {
            prev
        }
    }
}

impl PluginWindows {
    /// Each plugin appears once, owns between one and the maximum number
    /// of windows, and no label twice.
    pub closed spec fn wf(&self) -> bool {
        &&& entry_keys(self.entries@).no_duplicates()
        &&& forall|i: int|
            0 <= i < self.entries@.len() ==> {
                &&& views((#[trigger] self.entries@[i]).1@).no_duplicates()
                &&& 1 <= self.entries@[i].1@.len() <= MAX_WINDOWS_PER_PLUGIN
            }
    }

    /// The labels plugin `p` owns.
    pub closed spec fn labels(&self, p: Seq<char>) -> Seq<Seq<char>> {
        labels_in(self.entries@, p)
    }

    /// No plugin owns a window yet.
    pub fn new() -> (r: Self)
        ensures
            r.wf(),
            forall|p: Seq<char>| #[trigger] r.labels(p).len() == 0,
    {
        let r = PluginWindows { entries: Vec::new() };
        assert(entry_keys(r.entries@) =~= Seq::<Seq<char>>::empty());
        r
    }

    /// The position of the entry of `plugin_id`.
    fn position(&self, plugin_id: &str) -> (r: Option<usize>)
        ensures
            match r {
                Some(i) => i as int == entry_index(self.entries@, plugin_id@),
                None => entry_index(self.entries@, plugin_id@) < 0,
            },
    {
        let mut k: usize = self.entries.len();
        assert(self.entries@.take(self.entries@.len() as int) =~= self.entries@);
        while k > 0 && !str_eq(self.entries[k - 1].0.as_str(), plugin_id)
            invariant
                k <= self.entries.len(),
                entry_index(self.entries@.take(k as int), plugin_id@) == entry_index(
                    self.entries@,
                    plugin_id@,
                ),
            decreases k,
        {
            assert(self.entries@.take(k as int).drop_last() =~= self.entries@.take(k - 1));
            k = k - 1;
        }
        if k == 0 {
            assert(self.entries@.take(0) =~= Seq::<(String, Vec<String>)>::empty());
            None
        } else {
            assert(self.entries@.take(k as int).last() == self.entries@[k - 1]);
            Some(k - 1)
        }
    }

    /// Whether plugin `plugin_id` owns the window `label`.
    pub fn owns_window(&self, plugin_id: &str, label: &str) -> (r: bool)
        ensures
            r == self.labels(plugin_id@).contains(label@),
    {
        match self.position(plugin_id) {
            Some(i) => {
                proof {
                    lemma_entry_index(self.entries@, plugin_id@);
                }
                contains_string(&self.entries[i].1, &String::from_str(label))
            },
            None => {
                assert(self.labels(plugin_id@) =~= Seq::<Seq<char>>::empty());
                false
            },
        }
    }

    /// Records that plugin `plugin_id` opens window `label`: `Ok(false)`
    /// when it already owns it (nothing to do), an error when it already
    /// owns the maximum number of windows, otherwise `Ok(true)` with the
    /// label added.
    pub fn reserve(&mut self, plugin_id: &str, label: &str) -> (r: Result<bool, AppError>)
        requires
            old(self).wf(),
        ensures
            final(self).wf(),
            old(self).labels(plugin_id@).contains(label@) ==> r == Ok::<bool, AppError>(false)
                && final(self).labels(plugin_id@) == old(self).labels(plugin_id@),
            !old(self).labels(plugin_id@).contains(label@) && old(self).labels(plugin_id@).len()
                >= MAX_WINDOWS_PER_PLUGIN ==> (r matches Err(AppError::Other(m)) && m@
                == "plugin \""@ + plugin_id@ + "\" already has the maximum of "@ + nat_decimal(
                MAX_WINDOWS_PER_PLUGIN as nat,
            ) + " independent windows"@) && final(self).labels(plugin_id@) == old(self).labels(
                plugin_id@,
            ),
            !old(self).labels(plugin_id@).contains(label@) && old(self).labels(plugin_id@).len()
                < MAX_WINDOWS_PER_PLUGIN ==> r == Ok::<bool, AppError>(true) && final(self).labels(
                plugin_id@,
            ) == old(self).labels(plugin_id@).push(label@),
            forall|q: Seq<char>| q != plugin_id@ ==> #[trigger] final(self).labels(q) == old(self).labels(q),
    {
        proof {
            lemma_entry_index(self.entries@, plugin_id@);
        }
        let ghost old_entries = self.entries@;
        match self.position(plugin_id) {
            Some(i) => {
                if contains_string(&self.entries[i].1, &String::from_str(label)) {
                    return Ok(false);
                }
                if self.entries[i].1.len() >= MAX_WINDOWS_PER_PLUGIN {
                    let mut m = String::from_str("plugin \"");
                    m.append(plugin_id);
                    m.append("\" already has the maximum of ");
                    let d = string_from_chars(&u64_decimal(MAX_WINDOWS_PER_PLUGIN as u64));
                    m.append(d.as_str());
                    m.append(" independent windows");
                    return Err(AppError::Other(m));
                }
                let mut labels = crate::quick_commands::copy_strings(&self.entries[i].1);
                labels.push(String::from_str(label));
                let key = self.entries[i].0.clone();
                let ghost before_labels = views(old_entries[i as int].1@);
                assert(views(labels@) =~= before_labels.push(label@));
                self.entries.set(i, (key, labels));
                proof {
                    self.lemma_update_keeps(old_entries, i as int, plugin_id@);
                }
                Ok(true)
            },
            None => {
                let mut labels: Vec<String> = Vec::new();
                labels.push(String::from_str(label));
                self.entries.push((String::from_str(plugin_id), labels));
                proof {
                    self.lemma_push_keeps(old_entries, plugin_id@);
                    assert(views(labels@) =~= seq![label@]);
                    assert(Seq::<Seq<char>>::empty().push(label@) =~= seq![label@]);
                }
                Ok(true)
            },
        }
    }

    /// Forgets window `label` of plugin `plugin_id`; a plugin left without
    /// windows loses its entry.
    pub fn remove_window(&mut self, plugin_id: &str, label: &str)
        requires
            old(self).wf(),
        ensures
            final(self).wf(),
            final(self).labels(plugin_id@) == without_label(old(self).labels(plugin_id@), label@),
            forall|q: Seq<char>| q != plugin_id@ ==> #[trigger] final(self).labels(q) == old(self).labels(q),
    {
        proof {
            lemma_entry_index(self.entries@, plugin_id@);
        }
        let ghost old_entries = self.entries@;
        match self.position(plugin_id) {
            Some(i) => {
                let labels = &self.entries[i].1;
                let ghost lv = views(labels@);
                let mut kept: Vec<String> = Vec::new();
                let mut j: usize = 0;
                assert(lv.take(0) =~= Seq::<Seq<char>>::empty());
                assert(views(kept@) =~= Seq::<Seq<char>>::empty());
                while j < labels.len()
                    invariant
                        j <= labels.len(),
                        lv == views(labels@),
                        views(kept@) == without_label(lv.take(j as int), label@),
                        views(kept@).len() <= j,
                        lv.no_duplicates() ==> views(kept@).no_duplicates(),
                        forall|x: Seq<char>| views(kept@).contains(x) ==> lv.take(j as int).contains(x),
                    decreases labels.len() - j,
                {
                    assert(lv.take(j + 1).drop_last() =~= lv.take(j as int));
                    assert(lv.take(j + 1).last() == labels@[j as int]@);
                    if !str_eq(labels[j].as_str(), label) {
                        let ghost before = views(kept@);
                        kept.push(labels[j].clone());
                        assert(views(kept@) =~= before.push(labels@[j as int]@));
                        proof {
                            assert forall|x: Seq<char>| views(kept@).contains(x) implies lv.take(
                                j + 1,
                            ).contains(x) by {
                                crate::text::lemma_push_contains(before, labels@[j as int]@, x);
                                crate::text::lemma_push_contains(lv.take(j as int), lv[j as int], x);
                            }
                            if lv.no_duplicates() {
                                let x = lv[j as int];
                                assert(!lv.take(j as int).contains(x)) by {
                                    if lv.take(j as int).contains(x) {
                                        let q = choose|q: int|
                                            0 <= q < j && lv.take(j as int)[q] == x;
                                        assert(lv[q] == x);
                                    }
                                }
                                assert(!before.contains(x));
                                let after = views(kept@);
                                assert forall|a: int, b: int|
                                    0 <= a < after.len() && 0 <= b < after.len() && a != b implies after[a]
                                    != after[b] by {
                                    if a == after.len() - 1 && after[a] == after[b] {
                                        assert(before[b] == x);
                                    } else if b == after.len() - 1 && after[a] == after[b] {
                                        assert(before[a] == x);
                                    } else if after[a] == after[b] {
                                        assert(before[a] == before[b]);
                                    }
                                }
                            }
                        }
                    } else {
                        proof {
                            assert forall|x: Seq<char>| views(kept@).contains(x) implies lv.take(
                                j + 1,
                            ).contains(x) by {
                                crate::text::lemma_push_contains(lv.take(j as int), lv[j as int], x);
                            }
                        }
                    }
                    j = j + 1;
                }
                assert(lv.take(lv.len() as int) =~= lv);
                if kept.len() == 0 {
                    self.entries.remove(i);
                    proof {
                        self.lemma_remove_keeps(old_entries, i as int, plugin_id@);
                        assert(views(kept@) =~= Seq::<Seq<char>>::empty());
                    }
                } else {
                    let key = self.entries[i].0.clone();
                    self.entries.set(i, (key, kept));
                    proof {
                        self.lemma_update_keeps(old_entries, i as int, plugin_id@);
                    }
                }
            },
            None => {
                assert(self.labels(plugin_id@) =~= Seq::<Seq<char>>::empty());
            },
        }
    }

    /// Every label of every plugin, and nothing else: exactly the windows
    /// that plugins own.
    pub fn all_labels(&self) -> (r: Vec<String>)
        requires
            self.wf(),
        ensures
            forall|p: Seq<char>, l: Seq<char>|
                #[trigger] self.labels(p).contains(l) ==> views(r@).contains(l),
            forall|l: Seq<char>|
                #[trigger] views(r@).contains(l) ==> exists|p: Seq<char>| #[trigger]
                    self.labels(p).contains(l),
    {
        let ghost es = self.entries@;
        let mut r: Vec<String> = Vec::new();
        let mut i: usize = 0;
        while i < self.entries.len()
            invariant
                i <= self.entries.len(),
                es == self.entries@,
                forall|k: int, l: Seq<char>|
                    0 <= k < i && #[trigger] views(self.entries@[k].1@).contains(l) ==> views(
                        r@,
                    ).contains(l),
                forall|x: Seq<char>|
                    #[trigger] views(r@).contains(x) ==> exists|k: int|
                        0 <= k < i && #[trigger] views(es[k].1@).contains(x),
            decreases self.entries.len() - i,
        {
            let labels = &self.entries[i].1;
            let mut j: usize = 0;
            while j < labels.len()
                invariant
                    j <= labels.len(),
                    i < es.len(),
                    es == self.entries@,
                    labels == self.entries@[i as int].1,
                    forall|k: int, l: Seq<char>|
                        0 <= k < i && #[trigger] views(self.entries@[k].1@).contains(l) ==> views(
                            r@,
                        ).contains(l),
                    forall|q: int| 0 <= q < j ==> views(r@).contains(#[trigger] labels@[q]@),
                    forall|x: Seq<char>|
                        #[trigger] views(r@).contains(x) ==> exists|k: int|
                            0 <= k <= i && #[trigger] views(es[k].1@).contains(x),
                decreases labels.len() - j,
            {
                let ghost before = views(r@);
                r.push(labels[j].clone());
                proof {
                    assert(views(r@) =~= before.push(labels@[j as int]@));
                    assert forall|x: Seq<char>| before.contains(x) implies views(r@).contains(x) by {
                        crate::text::lemma_push_contains(before, labels@[j as int]@, x);
                    }
                    crate::text::lemma_push_contains(before, labels@[j as int]@, labels@[j as int]@);
                    assert forall|x: Seq<char>| #[trigger] views(r@).contains(x) implies exists|k: int|
                        0 <= k <= i && #[trigger] views(es[k].1@).contains(x) by {
                        let m = choose|m: int| 0 <= m < views(r@).len() && views(r@)[m] == x;
                        if m < before.len() {
                            assert(before[m] == x);
                            assert(before.contains(x));
                        } else {
                            assert(views(es[i as int].1@)[j as int] == x);
                            assert(views(es[i as int].1@).contains(x));
                        }
                    }
                }
                j = j + 1;
            }
            proof {
                assert forall|l: Seq<char>| #[trigger] views(self.entries@[i as int].1@).contains(
                    l,
                ) implies views(r@).contains(l) by {
                    let q = choose|q: int|
                        0 <= q < labels@.len() && views(labels@)[q] == l;
                }
            }
            i = i + 1;
        }
        proof {
            assert forall|p: Seq<char>, l: Seq<char>| #[trigger] self.labels(p).contains(
                l,
            ) implies views(r@).contains(l) by {
                lemma_entry_index(self.entries@, p);
            }
            assert forall|l: Seq<char>| #[trigger] views(r@).contains(l) implies exists|p: Seq<char>|
                #[trigger] self.labels(p).contains(l) by {
                let k = choose|k: int| 0 <= k < es.len() && #[trigger] views(es[k].1@).contains(l);
                let p = es[k].0@;
                assert(entry_keys(es)[k] == p);
                lemma_unique_index(es, p, k);
                assert(self.labels(p) == views(es[k].1@));
            }
        }
        r
    }

    proof fn lemma_update_keeps(&self, old_entries: Seq<(String, Vec<String>)>, i: int, p: Seq<char>)
        requires
            0 <= i < old_entries.len(),
            old_entries[i].0@ == p,
            entry_index(old_entries, p) == i,
            self.entries@ == old_entries.update(i, self.entries@[i]),
            self.entries@[i].0@ == p,
            entry_keys(old_entries).no_duplicates(),
            forall|k: int|
                0 <= k < old_entries.len() ==> {
                    &&& views((#[trigger] old_entries[k]).1@).no_duplicates()
                    &&& 1 <= old_entries[k].1@.len() <= MAX_WINDOWS_PER_PLUGIN
                },
            views(self.entries@[i].1@).no_duplicates(),
            1 <= self.entries@[i].1@.len() <= MAX_WINDOWS_PER_PLUGIN,
        ensures
            self.wf(),
            self.labels(p) == views(self.entries@[i].1@),
            forall|q: Seq<char>| q != p ==> #[trigger] self.labels(q) == labels_in(old_entries, q),
    {
        assert(entry_keys(self.entries@) =~= entry_keys(old_entries));
        lemma_entry_index(old_entries, p);
        lemma_unique_index(self.entries@, p, i);
        assert forall|q: Seq<char>| q != p implies #[trigger] self.labels(q) == labels_in(
            old_entries,
            q,
        ) by {
            lemma_entry_index_same(old_entries, self.entries@, q);
            lemma_entry_index(old_entries, q);
        }
    }

    proof fn lemma_push_keeps(&self, old_entries: Seq<(String, Vec<String>)>, p: Seq<char>)
        requires
            entry_index(old_entries, p) < 0,
            self.entries@ == old_entries.push(self.entries@.last()),
            self.entries@.last().0@ == p,
            self.entries@.last().1@.len() == 1,
            entry_keys(old_entries).no_duplicates(),
            forall|k: int|
                0 <= k < old_entries.len() ==> {
                    &&& views((#[trigger] old_entries[k]).1@).no_duplicates()
                    &&& 1 <= old_entries[k].1@.len() <= MAX_WINDOWS_PER_PLUGIN
                },
        ensures
            self.wf(),
            self.labels(p) == views(self.entries@.last().1@),
            forall|q: Seq<char>| q != p ==> #[trigger] self.labels(q) == labels_in(old_entries, q),
    {
        lemma_entry_index(old_entries, p);
        assert(entry_keys(self.entries@) =~= entry_keys(old_entries).push(p));
        assert(self.entries@.drop_last() =~= old_entries);
        assert forall|q: Seq<char>| q != p implies #[trigger] self.labels(q) == labels_in(
            old_entries,
            q,
        ) by {
            lemma_entry_index(old_entries, q);
            let e = entry_index(old_entries, q);
            if e >= 0 {
                assert(self.entries@[e] == old_entries[e]);
            }
        }
        let lv = views(self.entries@.last().1@);
        assert(lv.no_duplicates()) by {
            assert(lv.len() == 1);
        }
        assert forall|i: int, j: int|
            0 <= i < j < entry_keys(self.entries@).len() implies entry_keys(self.entries@)[i]
            != entry_keys(self.entries@)[j] by {
            if j == old_entries.len() {
                assert(entry_keys(self.entries@)[i] == old_entries[i].0@);
            }
        }
    }

    proof fn lemma_remove_keeps(&self, old_entries: Seq<(String, Vec<String>)>, i: int, p: Seq<char>)
        requires
            0 <= i < old_entries.len(),
            old_entries[i].0@ == p,
            entry_index(old_entries, p) == i,
            self.entries@ == old_entries.remove(i),
            entry_keys(old_entries).no_duplicates(),
            forall|k: int|
                0 <= k < old_entries.len() ==> {
                    &&& views((#[trigger] old_entries[k]).1@).no_duplicates()
                    &&& 1 <= old_entries[k].1@.len() <= MAX_WINDOWS_PER_PLUGIN
                },
        ensures
            self.wf(),
            self.labels(p) == Seq::<Seq<char>>::empty(),
            forall|q: Seq<char>| q != p ==> #[trigger] self.labels(q) == labels_in(old_entries, q),
    {
        assert(entry_keys(self.entries@) =~= entry_keys(old_entries).remove(i));
        assert forall|a: int, b: int|
            0 <= a < b < entry_keys(self.entries@).len() implies entry_keys(self.entries@)[a]
            != entry_keys(self.entries@)[b] by {
            let a0 = if a < i { a } else { a + 1 };
            let b0 = if b < i { b } else { b + 1 };
            assert(entry_keys(self.entries@)[a] == entry_keys(old_entries)[a0]);
            assert(entry_keys(self.entries@)[b] == entry_keys(old_entries)[b0]);
        }
        assert forall|k: int| 0 <= k < self.entries@.len() implies {
            &&& views((#[trigger] self.entries@[k]).1@).no_duplicates()
            &&& 1 <= self.entries@[k].1@.len() <= MAX_WINDOWS_PER_PLUGIN
        } by {
            let k0 = if k < i { k } else { k + 1 };
            assert(self.entries@[k] == old_entries[k0]);
        }
        lemma_entry_index(self.entries@, p);
        assert forall|k: int| 0 <= k < self.entries@.len() implies (#[trigger] self.entries@[k]).0@
            != p by {
            let k0 = if k < i { k } else { k + 1 };
            assert(self.entries@[k] == old_entries[k0]);
            assert(entry_keys(old_entries)[k0] != entry_keys(old_entries)[i]);
        }
        assert(self.labels(p) =~= Seq::<Seq<char>>::empty());
        assert forall|q: Seq<char>| q != p implies #[trigger] self.labels(q) == labels_in(
            old_entries,
            q,
        ) by {
            lemma_entry_index(old_entries, q);
            lemma_entry_index(self.entries@, q);
            let oi = entry_index(old_entries, q);
            if oi >= 0 {
                let ni = if oi < i { oi } else { oi - 1 };
                assert(self.entries@[ni] == old_entries[oi]);
                lemma_unique_index(self.entries@, q, ni);
            } else {
                assert forall|k: int| 0 <= k < self.entries@.len() implies (#[trigger] self.entries@[
                    k
                ]).0@ != q by {
                    let k0 = if k < i { k } else { k + 1 };
                    assert(self.entries@[k] == old_entries[k0]);
                }
                if entry_index(self.entries@, q) >= 0 {
                    assert(self.entries@[entry_index(self.entries@, q)].0@ == q);
                }
            }
        }
    }
}

/// No plugin ever owns more than the maximum number of windows, and none
/// owns a window twice.
pub proof fn lemma_window_limit(w: &PluginWindows, p: Seq<char>)
    requires
        w.wf(),
    ensures
        w.labels(p).len() <= MAX_WINDOWS_PER_PLUGIN,
        w.labels(p).no_duplicates(),
{
    lemma_entry_index(w.entries@, p);
}

// ───────────────────────── context menus ─────────────────────────

/// One item of a plugin's context menu.
#[derive(Debug, Clone)]
pub struct MenuItemDef {
    /// Id reported back when the item is clicked.
    pub action_id: String,
    /// Visible label.
    pub label: String,
    pub disabled: bool,
    /// Draw a separator before this item.
    pub separator_before: bool,
}

/// One entry of a native menu as it is built.
#[derive(Debug, Clone, PartialEq, Eq)]
pub enum MenuEntry {
    Separator,
    Item { action_id: String, label: String, enabled: bool },
}

/// The native menu entries for `items`: each item, preceded by a
/// separator when it asks for one; enabled unless disabled.
pub open spec fn menu_entries(items: Seq<MenuItemDef>) -> Seq<MenuEntry>
    decreases items.len(),
{
    if items.len() == 0 {
        Seq::empty()
    } else {
        let prev = menu_entries(items.drop_last());
        let d = items.last();
        let item = MenuEntry::Item { action_id: d.action_id, label: d.label, enabled: !d.disabled };
        if d.separator_before {
            prev.push(MenuEntry::Separator).push(item)
        } else {
            prev.push(item)
        }
    }
}

/// Builds the native menu entries for a plugin's items.
pub fn build_menu_entries(items: &Vec<MenuItemDef>) -> (r: Vec<MenuEntry>)
    ensures
        r@ == menu_entries(items@),
{
    let mut r: Vec<MenuEntry> = Vec::new();
    let mut i: usize = 0;
    assert(items@.take(0) =~= Seq::<MenuItemDef>::empty());
    while i < items.len()
        invariant
            i <= items.len(),
            r@ == menu_entries(items@.take(i as int)),
        decreases items.len() - i,
    {
        let d = &items[i];
        assert(items@.take(i + 1).drop_last() =~= items@.take(i as int));
        assert(items@.take(i + 1).last() == *d);
        if d.separator_before {
            r.push(MenuEntry::Separator);
        }
        r.push(
            MenuEntry::Item {
                action_id: d.action_id.clone(),
                label: d.label.clone(),
                enabled: !d.disabled,
            },
        );
        i = i + 1;
    }
    assert(items@.take(items@.len() as int) =~= items@);
    r
}

/// The checks before a context menu pops up: the plugin must own the
/// window and must have registered at least one item.
pub fn check_menu_popup(
    windows: &PluginWindows,
    plugin_id: &str,
    label: &str,
    items: &Vec<MenuItemDef>,
) -> (r: Result<(), AppError>)
    ensures
        !windows.labels(plugin_id@).contains(label@) ==> (r matches Err(AppError::Other(m)) && m@
            == "plugin \""@ + plugin_id@ + "\" does not own window \""@ + label@ + "\""@),
        windows.labels(plugin_id@).contains(label@) && items.len() == 0 ==> (r matches Err(
            AppError::Other(m),
        ) && m@ == "plugin \""@ + plugin_id@ + "\" has no menu items registered"@),
        windows.labels(plugin_id@).contains(label@) && items.len() > 0 ==> r is Ok,
{
    if !windows.owns_window(plugin_id, label) {
        return Err(not_owned_error(plugin_id, label));
    }
    if items.len() == 0 {
        let mut m = String::from_str("plugin \"");
        m.append(plugin_id);
        m.append("\" has no menu items registered");
        return Err(AppError::Other(m));
    }
    Ok(())
}

/// The error for a window the plugin does not own.
pub fn not_owned_error(plugin_id: &str, label: &str) -> (r: AppError)
    ensures
        r matches AppError::Other(m) && m@ == "plugin \""@ + plugin_id@ + "\" does not own window \""@
            + label@ + "\""@,
{
    let mut m = String::from_str("plugin \"");
    m.append(plugin_id);
    m.append("\" does not own window \"");
    m.append(label);
    m.append("\"");
    AppError::Other(m)
}

/// Items registered per plugin, and the windows whose menu-event handler
/// is installed.
pub struct PluginMenus {
    pub entries: Vec<(String, Vec<MenuItemDef>)>,
    pub wired: Vec<String>,
}

/// The items registered for `p` (last registration wins).
pub open spec fn menu_items_of(es: Seq<(String, Vec<MenuItemDef>)>, p: Seq<char>) -> Seq<MenuItemDef>
    decreases es.len(),
{
    if es.len() == 0 {
        Seq::empty()
    } else if es.last().0@ == p {
        es.last().1@
    } else {
        menu_items_of(es.drop_last(), p)
    }
}

/// `es` without the entries of `p`.
pub open spec fn without_menus_of(es: Seq<(String, Vec<MenuItemDef>)>, p: Seq<char>) -> Seq<(String, Vec<MenuItemDef>)>
    decreases es.len(),
{
    if es.len() == 0 {
        Seq::empty()
    } else {
        let prev = without_menus_of(es.drop_last(), p);
        if es.last().0@ != p {
            prev.push(es.last())
        } else {
            prev
        }
    }
}

proof fn lemma_without_menus_of(es: Seq<(String, Vec<MenuItemDef>)>, p: Seq<char>, q: Seq<char>)
    ensures
        menu_items_of(without_menus_of(es, p), q) == if q == p {
            Seq::empty()
        } else {
            menu_items_of(es, q)
        },
    decreases es.len(),
{
    if es.len() > 0 {
        lemma_without_menus_of(es.drop_last(), p, q);
        let prev = without_menus_of(es.drop_last(), p);
        if es.last().0@ != p {
            assert(without_menus_of(es, p).drop_last() =~= prev);
        }
    }
}

impl PluginMenus {
    /// No menus registered, no handlers installed.
    pub fn new() -> (r: Self)
        ensures
            r.entries@.len() == 0,
            r.wired@.len() == 0,
    {
        PluginMenus { entries: Vec::new(), wired: Vec::new() }
    }

    /// Registers (or replaces) the items of `plugin_id`.
    pub fn register(&mut self, plugin_id: String, items: Vec<MenuItemDef>)
        ensures
            menu_items_of(final(self).entries@, plugin_id@) == items@,
            forall|q: Seq<char>| q != plugin_id@ ==> #[trigger] menu_items_of(final(self).entries@, q)
                == menu_items_of(old(self).entries@, q),
            final(self).wired == old(self).wired,
    {
        let ghost id = plugin_id@;
        self.unregister(plugin_id.as_str());
        let ghost mid = self.entries@;
        self.entries.push((plugin_id, items));
        proof {
            assert(self.entries@.drop_last() =~= mid);
            assert forall|q: Seq<char>| q != id implies #[trigger] menu_items_of(self.entries@, q)
                == menu_items_of(old(self).entries@, q) by {
                lemma_without_menus_of(old(self).entries@, id, q);
            }
        }
    }

    /// Drops the items of `plugin_id`.
    pub fn unregister(&mut self, plugin_id: &str)
        ensures
            final(self).entries@ == without_menus_of(old(self).entries@, plugin_id@),
            menu_items_of(final(self).entries@, plugin_id@).len() == 0,
            forall|q: Seq<char>| q != plugin_id@ ==> #[trigger] menu_items_of(final(self).entries@, q)
                == menu_items_of(old(self).entries@, q),
            final(self).wired == old(self).wired,
    {
        let ghost old_es = self.entries@;
        let n = self.entries.len();
        assert(old_es.len() == n);
        let mut kept: Vec<(String, Vec<MenuItemDef>)> = Vec::new();
        let mut es: Vec<(String, Vec<MenuItemDef>)> = Vec::new();
        std::mem::swap(&mut es, &mut self.entries);
        let mut i: usize = 0;
        assert(old_es.take(0) =~= Seq::<(String, Vec<MenuItemDef>)>::empty());
        while es.len() > 0
            invariant
                i + es.len() == old_es.len(),
                old_es.len() <= usize::MAX,
                es@ == old_es.skip(i as int),
                kept@ == without_menus_of(old_es.take(i as int), plugin_id@),
            decreases es.len(),
        {
            let e = es.remove(0);
            assert(old_es.take(i + 1).drop_last() =~= old_es.take(i as int));
            assert(old_es.take(i + 1).last() == e);
            assert(es@ =~= old_es.skip(i + 1));
            if !str_eq(e.0.as_str(), plugin_id) {
                kept.push(e);
            }
            i = i + 1;
        }
        assert(old_es.take(old_es.len() as int) =~= old_es);
        self.entries = kept;
        proof {
            lemma_without_menus_of(old_es, plugin_id@, plugin_id@);
            assert forall|q: Seq<char>| q != plugin_id@ implies #[trigger] menu_items_of(
                self.entries@,
                q,
            ) == menu_items_of(old_es, q) by {
                lemma_without_menus_of(old_es, plugin_id@, q);
            }
        }
    }

    /// Records that window `label` got its menu-event handler; true when
    /// it had none (the handler is then to be installed), false when it
    /// already had one.
    pub fn mark_wired(&mut self, label: &str) -> (r: bool)
        ensures
            r == !views(old(self).wired@).contains(label@),
            r ==> views(final(self).wired@) == views(old(self).wired@).push(label@),
            !r ==> final(self).wired@ == old(self).wired@,
            final(self).entries == old(self).entries,
    {
        let l = String::from_str(label);
        if contains_string(&self.wired, &l) {
            false
        } else {
            let ghost before = views(self.wired@);
            self.wired.push(l);
            assert(views(self.wired@) =~= before.push(label@));
            true
        }
    }
}

// ───────────────────────── HTTP on behalf of plugins ─────────────────────────

/// Largest response body handed to a plugin, in bytes.
pub const MAX_RESPONSE_SIZE: usize = 262144;

/// An HTTP request a plugin asks for.
#[derive(Debug, Clone)]
pub struct PluginHttpRequest {
    pub url: String,
    pub method: String,
    pub headers: HashMap<String, String>,
    pub body: Option<String>,
}

/// The response handed back to the plugin.
#[derive(Debug, Clone)]
pub struct PluginHttpResponse {
    pub status: u16,
    pub headers: HashMap<String, String>,
    pub body: String,
    pub url: String,
}

/// The method of a request that does not name one.
pub fn default_method() -> (r: String)
    ensures
        r@ == "GET"@,
{
    String::from_str("GET")
}

/// The request to make: the given request object, or one built from a
/// bare `url` (method defaulting to `GET`, no headers when none are
/// given); neither is an error.
pub fn resolve_http_request(
    request: Option<PluginHttpRequest>,
    url: Option<String>,
    method: Option<String>,
    headers: Option<HashMap<String, String>>,
    body: Option<String>,
) -> (r: Result<PluginHttpRequest, AppError>)
    ensures
        request is Some ==> r == Ok::<PluginHttpRequest, AppError>(request.unwrap()),
        request is None && url is Some ==> (r matches Ok(q) && q.url == url.unwrap() && q.method@
            == match method {
            Some(m) => m@,
            None => "GET"@,
        } && q.headers@ == match headers {
            Some(h) => h@,
            None => Map::<String, String>::empty(),
        } && q.body == body),
        request is None && url is None ==> (r matches Err(AppError::Other(m)) && m@
            == "missing required key request or url"@),
{
    match request {
        Some(r) => Ok(r),
        None => match url {
            Some(u) => {
                let m = match method {
                    Some(m) => m,
                    None => default_method(),
                };
                let h = match headers {
                    Some(h) => h,
                    None => HashMap::new(),
                };
                Ok(PluginHttpRequest { url: u, method: m, headers: h, body })
            },
            None => Err(AppError::Other(String::from_str("missing required key request or url"))),
        },
    }
}

/// Plugins may only reach `http://` and `https://` URLs.
pub fn check_http_url(url: &str) -> (r: Result<(), AppError>)
    ensures
        (has_prefix(url@, "http://"@) || has_prefix(url@, "https://"@)) <==> r is Ok,
        r matches Err(AppError::Other(m)) ==> m@ == "invalid URL: must start with http:// or https://"@,
        r is Err ==> r matches Err(AppError::Other(_)),
{
    let cs = chars_of(url);
    if !has_prefix_exec(&cs, &chars_of("http://")) && !has_prefix_exec(&cs, &chars_of("https://")) {
        return Err(AppError::Other(String::from_str("invalid URL: must start with http:// or https://")));
    }
    Ok(())
}

/// HTTP methods a plugin request can use.
#[derive(Debug, Clone, Copy, PartialEq, Eq, Structural)]
pub enum HttpMethod {
    Get,
    Post,
    Put,
    Delete,
    Patch,
    Head,
}

/// `str::to_uppercase` (Unicode upper-casing) of a text.
pub uninterp spec fn unicode_upper(s: Seq<char>) -> Seq<char>;

/// `str::to_uppercase`; its result is named by [`unicode_upper`].
#[verifier::external_body]
fn to_uppercase(s: &str) -> (r: String)
    ensures
        r@ == unicode_upper(s@),
{
    s.to_uppercase()
}

/// The method for an upper-cased method name; anything unknown is `GET`.
pub open spec fn method_of(upper: Seq<char>) -> HttpMethod {
    if upper == "POST"@ {
        HttpMethod::Post
    } else if upper == "PUT"@ {
        HttpMethod::Put
    } else if upper == "DELETE"@ {
        HttpMethod::Delete
    } else if upper == "PATCH"@ {
        HttpMethod::Patch
    } else if upper == "HEAD"@ {
        HttpMethod::Head
    } else {
        HttpMethod::Get
    }
}

/// The method for an upper-cased name (see [`method_of`]).
pub fn method_from_upper(upper: &str) -> (r: HttpMethod)
    ensures
        r == method_of(upper@),
{
    if str_eq(upper, "POST") {
        HttpMethod::Post
    } else if str_eq(upper, "PUT") {
        HttpMethod::Put
    } else if str_eq(upper, "DELETE") {
        HttpMethod::Delete
    } else if str_eq(upper, "PATCH") {
        HttpMethod::Patch
    } else if str_eq(upper, "HEAD") {
        HttpMethod::Head
    } else {
        HttpMethod::Get
    }
}

/// The method a request names, compared case-insensitively.
pub fn request_method(method: &str) -> (r: HttpMethod)
    ensures
        r == method_of(unicode_upper(method@)),
{
    let upper = to_uppercase(method);
    method_from_upper(upper.as_str())
}

// ───────────────────────── served resources ─────────────────────────

/// The MIME type served for a file extension.
pub open spec fn mime_of(ext: Option<Seq<char>>) -> Seq<char> {
    match ext {
        Some(e) => if e == "html"@ {
            "text/html; charset=utf-8"@
        } else if e == "js"@ {
            "application/javascript; charset=utf-8"@
        } else if e == "css"@ {
            "text/css; charset=utf-8"@
        } else if e == "json"@ {
            "application/json; charset=utf-8"@
        } else if e == "png"@ {
            "image/png"@
        } else if e == "jpg"@ || e == "jpeg"@ {
            "image/jpeg"@
        } else if e == "svg"@ {
            "image/svg+xml"@
        } else {
            "application/octet-stream"@
        },
        None => "application/octet-stream"@,
    }
}

/// Every resource is served by its extension: HTML, JavaScript, CSS and
/// JSON as UTF-8 text of their own types, PNG, JPEG (`jpg` or `jpeg`) and
/// SVG as their image types, and anything else — no extension included —
/// as `application/octet-stream`.
pub proof fn lemma_mime_by_extension(path: Seq<char>)
    ensures
        ({
            let ext = stem_and_extension(path).1;
            let m = mime_of(ext);
            &&& ext == Some("html"@) ==> m == "text/html; charset=utf-8"@
            &&& ext == Some("js"@) ==> m == "application/javascript; charset=utf-8"@
            &&& ext == Some("css"@) ==> m == "text/css; charset=utf-8"@
            &&& ext == Some("json"@) ==> m == "application/json; charset=utf-8"@
            &&& ext == Some("png"@) ==> m == "image/png"@
            &&& ext == Some("jpg"@) ==> m == "image/jpeg"@
            &&& ext == Some("jpeg"@) ==> m == "image/jpeg"@
            &&& ext == Some("svg"@) ==> m == "image/svg+xml"@
            &&& ext is None ==> m == "application/octet-stream"@
        }),
{
    reveal_strlit("html");
    reveal_strlit("js");
    reveal_strlit("css");
    reveal_strlit("json");
    reveal_strlit("png");
    reveal_strlit("jpg");
    reveal_strlit("jpeg");
    reveal_strlit("svg");
    assert("html"@.len() == 4 && "js"@.len() == 2 && "css"@.len() == 3 && "json"@.len() == 4);
    assert("png"@.len() == 3 && "jpg"@.len() == 3 && "jpeg"@.len() == 4 && "svg"@.len() == 3);
    assert("html"@[0] == 'h' && "json"@[0] == 'j' && "jpeg"@[0] == 'j' && "jpeg"@[1] == 'p');
    assert("json"@[1] == 's');
    assert("css"@[0] == 'c' && "png"@[0] == 'p' && "jpg"@[0] == 'j' && "svg"@[0] == 's');
}

/// A resource `<dir>/<stem>.<ext>` is served with the type of its extension
/// `ext`: `style.css` as CSS, `app.js` as JavaScript, and so on, wherever
/// it lies and whatever its (non-empty, `/`-free) stem.
pub proof fn lemma_served_type_of_resource(dir: Seq<char>, stem: Seq<char>)
    requires
        stem.len() > 0,
        forall|j: int| 0 <= j < stem.len() ==> stem[j] != '/',
    ensures
        ({
            let served = |ext: Seq<char>|
                mime_of(stem_and_extension(dir.push('/') + (stem.push('.') + ext)).1);
            &&& served("html"@) == "text/html; charset=utf-8"@
            &&& served("js"@) == "application/javascript; charset=utf-8"@
            &&& served("css"@) == "text/css; charset=utf-8"@
            &&& served("json"@) == "application/json; charset=utf-8"@
            &&& served("png"@) == "image/png"@
            &&& served("jpg"@) == "image/jpeg"@
            &&& served("jpeg"@) == "image/jpeg"@
            &&& served("svg"@) == "image/svg+xml"@
        }),
{
    reveal_strlit("html");
    reveal_strlit("js");
    reveal_strlit("css");
    reveal_strlit("json");
    reveal_strlit("png");
    reveal_strlit("jpg");
    reveal_strlit("jpeg");
    reveal_strlit("svg");
    lemma_named_extension(dir, stem, "html"@);
    lemma_named_extension(dir, stem, "js"@);
    lemma_named_extension(dir, stem, "css"@);
    lemma_named_extension(dir, stem, "json"@);
    lemma_named_extension(dir, stem, "png"@);
    lemma_named_extension(dir, stem, "jpg"@);
    lemma_named_extension(dir, stem, "jpeg"@);
    lemma_named_extension(dir, stem, "svg"@);
    lemma_mime_by_extension_values();
}

/// The served types of the known extensions are all different, but for
/// the two spellings of JPEG.
pub proof fn lemma_known_mime_types_distinct()
    ensures
        ({
            let t = seq![
                mime_of(Some("html"@)),
                mime_of(Some("js"@)),
                mime_of(Some("css"@)),
                mime_of(Some("json"@)),
                mime_of(Some("png"@)),
                mime_of(Some("jpg"@)),
                mime_of(Some("svg"@)),
            ];
            &&& forall|i: int, j: int| 0 <= i < j < 7 ==> t[i] != t[j]
            &&& mime_of(Some("jpeg"@)) == mime_of(Some("jpg"@))
        }),
{
    lemma_mime_by_extension_values();
    reveal_strlit("text/html; charset=utf-8");
    reveal_strlit("application/javascript; charset=utf-8");
    reveal_strlit("text/css; charset=utf-8");
    reveal_strlit("application/json; charset=utf-8");
    reveal_strlit("image/png");
    reveal_strlit("image/jpeg");
    reveal_strlit("image/svg+xml");
    assert("text/html; charset=utf-8"@.len() == 24);
    assert("application/javascript; charset=utf-8"@.len() == 37);
    assert("text/css; charset=utf-8"@.len() == 23);
    assert("application/json; charset=utf-8"@.len() == 31);
    assert("image/png"@.len() == 9);
    assert("image/jpeg"@.len() == 10);
    assert("image/svg+xml"@.len() == 13);
}

proof fn lemma_mime_by_extension_values()
    ensures
        mime_of(Some("html"@)) == "text/html; charset=utf-8"@,
        mime_of(Some("js"@)) == "application/javascript; charset=utf-8"@,
        mime_of(Some("css"@)) == "text/css; charset=utf-8"@,
        mime_of(Some("json"@)) == "application/json; charset=utf-8"@,
        mime_of(Some("png"@)) == "image/png"@,
        mime_of(Some("jpg"@)) == "image/jpeg"@,
        mime_of(Some("jpeg"@)) == "image/jpeg"@,
        mime_of(Some("svg"@)) == "image/svg+xml"@,
{
    reveal_strlit("html");
    reveal_strlit("js");
    reveal_strlit("css");
    reveal_strlit("json");
    reveal_strlit("png");
    reveal_strlit("jpg");
    reveal_strlit("jpeg");
    reveal_strlit("svg");
    assert("html"@.len() == 4 && "js"@.len() == 2 && "css"@.len() == 3 && "json"@.len() == 4);
    assert("png"@.len() == 3 && "jpg"@.len() == 3 && "jpeg"@.len() == 4 && "svg"@.len() == 3);
    assert("html"@[0] == 'h' && "json"@[0] == 'j' && "jpeg"@[0] == 'j' && "jpeg"@[1] == 'p');
    assert("json"@[1] == 's');
    assert("css"@[0] == 'c' && "png"@[0] == 'p' && "jpg"@[0] == 'j' && "svg"@[0] == 's');
}

/// Guesses the MIME type of a plugin resource from its extension (the
/// part after the last `.` of the file name, when the name has a stem).
pub fn guess_mime(path: &str) -> (r: &'static str)
    ensures
        r@ == mime_of(stem_and_extension(path@).1),
{
    let (_, ext) = split_stem_and_extension(path);
    match ext {
        Some(e) => {
            let es = string_from_chars(&e);
            let x = es.as_str();
            if str_eq(x, "html") {
                "text/html; charset=utf-8"
            } else if str_eq(x, "js") {
                "application/javascript; charset=utf-8"
            } else if str_eq(x, "css") {
                "text/css; charset=utf-8"
            } else if str_eq(x, "json") {
                "application/json; charset=utf-8"
            } else if str_eq(x, "png") {
                "image/png"
            } else if str_eq(x, "jpg") || str_eq(x, "jpeg") {
                "image/jpeg"
            } else if str_eq(x, "svg") {
                "image/svg+xml"
            } else {
                "application/octet-stream"
            }
        },
        None => "application/octet-stream",
    }
}

// ───────────────────────── plugin:// requests ─────────────────────────

/// What a `plugin://<id>/<path>` request is answered with.
#[derive(Debug, Clone, PartialEq, Eq)]
pub enum PluginRoute {
    /// The plugin is disabled (403).
    Disabled,
    /// The CORS preflight of an API call.
    Preflight,
    /// An API command, to be authorized and run.
    Api(String),
    /// A static resource, relative to the plugin's directory.
    Resource(String),
}

/// A route as plain values.
pub enum PluginRouteView {
    Disabled,
    Preflight,
    Api(Seq<char>),
    Resource(Seq<char>),
}

/// The plain value of a route.
pub open spec fn route_view(r: PluginRoute) -> PluginRouteView {
    match r {
        PluginRoute::Disabled => PluginRouteView::Disabled,
        PluginRoute::Preflight => PluginRouteView::Preflight,
        PluginRoute::Api(c) => PluginRouteView::Api(c@),
        PluginRoute::Resource(p) => PluginRouteView::Resource(p@),
    }
}

/// The route of a request: API calls are paths under `/api/` with a
/// command name (`OPTIONS` there is the preflight); every other path names
/// a resource, the directory's `index.html` when it is empty.
pub open spec fn plugin_route(enabled: bool, path: Seq<char>, method: Seq<char>) -> PluginRouteView {
    if !enabled {
        PluginRouteView::Disabled
    } else if has_prefix(path, "/api/"@) && method == "OPTIONS"@ {
        PluginRouteView::Preflight
    } else if has_prefix(path, "/api/"@) && path.len() > 5 {
        PluginRouteView::Api(path.skip(5))
    } else {
        let rel = trim_start_seq(path, "/"@);
        PluginRouteView::Resource(if rel.len() == 0 {
            "index.html"@
        } else {
            rel
        })
    }
}

/// Routes a `plugin://` request for a plugin that is enabled or not (see
/// [`plugin_route`]).
pub fn route_plugin_request(enabled: bool, path: &str, method: &str) -> (r: PluginRoute)
    ensures
        route_view(r) == plugin_route(enabled, path@, method@),
{
    proof {
        reveal_strlit("/api/");
        reveal_strlit("/");
    }
    if !enabled {
        return PluginRoute::Disabled;
    }
    let cs = chars_of(path);
    let api = chars_of("/api/");
    if has_prefix_exec(&cs, &api) {
        if str_eq(method, "OPTIONS") {
            return PluginRoute::Preflight;
        }
        if cs.len() > 5 {
            let cmd = sub_chars(&cs, 5, cs.len());
            assert(cmd@ =~= path@.skip(5));
            return PluginRoute::Api(string_from_chars(&cmd));
        }
    }
    let slash = chars_of("/");
    assert(slash@.len() == 1);
    let rel = trim_start_seq_exec(&cs, &slash);
    if rel.len() == 0 {
        PluginRoute::Resource(String::from_str("index.html"))
    } else {
        PluginRoute::Resource(string_from_chars(&rel))
    }
}

// ───────────────────────── plugin API calls ─────────────────────────

/// A call of the plugin HTTP API, read from its command name and
/// arguments.
#[derive(Debug, Clone, PartialEq, Eq)]
pub enum PluginApiCall {
    /// Answered with `null` without doing anything (an empty id).
    NullAnswer,
    SessionActive,
    SessionInfo(String),
    ConnectionInfo(String),
    ConnectionList,
    SshListSessions,
    SshExec { session_id: String, command: String },
    FsRead(String),
    FsWrite { path: String, content: String },
    /// URL, method, the string-valued headers in order, and the body.
    NetRequest { url: String, method: String, headers: Vec<(String, String)>, body: Option<String> },
    /// Title and text of the notification (the `body` argument).
    Notification { title: String, text: String },
}

/// A call as plain values.
pub enum PluginApiCallView {
    NullAnswer,
    SessionActive,
    SessionInfo(Seq<char>),
    ConnectionInfo(Seq<char>),
    ConnectionList,
    SshListSessions,
    SshExec(Seq<char>, Seq<char>),
    FsRead(Seq<char>),
    FsWrite(Seq<char>, Seq<char>),
    NetRequest(Seq<char>, Seq<char>, Seq<(Seq<char>, Seq<char>)>, Option<Seq<char>>),
    Notification(Seq<char>, Seq<char>),
}

/// The plain values of header pairs.
pub open spec fn pair_views(ps: Seq<(String, String)>) -> Seq<(Seq<char>, Seq<char>)> {
    ps.map_values(|p: (String, String)| (p.0@, p.1@))
}

/// The plain value of a call.
pub open spec fn api_call_view(c: PluginApiCall) -> PluginApiCallView {
    match c {
        PluginApiCall::NullAnswer => PluginApiCallView::NullAnswer,
        PluginApiCall::SessionActive => PluginApiCallView::SessionActive,
        PluginApiCall::SessionInfo(s) => PluginApiCallView::SessionInfo(s@),
        PluginApiCall::ConnectionInfo(s) => PluginApiCallView::ConnectionInfo(s@),
        PluginApiCall::ConnectionList => PluginApiCallView::ConnectionList,
        PluginApiCall::SshListSessions => PluginApiCallView::SshListSessions,
        PluginApiCall::SshExec { session_id, command } => PluginApiCallView::SshExec(
            session_id@,
            command@,
        ),
        PluginApiCall::FsRead(p) => PluginApiCallView::FsRead(p@),
        PluginApiCall::FsWrite { path, content } => PluginApiCallView::FsWrite(path@, content@),
        PluginApiCall::NetRequest { url, method, headers, body } => PluginApiCallView::NetRequest(
            url@,
            method@,
            pair_views(headers@),
            opt_view(body),
        ),
        PluginApiCall::Notification { title, text } => PluginApiCallView::Notification(
            title@,
            text@,
        ),
    }
}

/// A string argument, or nothing when it is missing or not a string.
pub open spec fn arg_opt(args: JsonValue, key: Seq<char>) -> Option<Seq<char>> {
    json_str(json_get(args, key))
}

/// A string argument, empty when it is missing or not a string.
pub open spec fn arg_text(args: JsonValue, key: Seq<char>) -> Seq<char> {
    match arg_opt(args, key) {
        Some(s) => s,
        None => Seq::empty(),
    }
}

/// The string-valued members of an object, in order.
pub open spec fn string_members(ms: Seq<(String, JsonValue)>) -> Seq<(Seq<char>, Seq<char>)>
    decreases ms.len(),
{
    if ms.len() == 0 {
        Seq::empty()
    } else {
        let prev = string_members(ms.drop_last());
        match ms.last().1 {
            JsonValue::Str(v) => prev.push((ms.last().0@, v@)),
            _ => prev,
        }
    }
}

/// The headers argument: the string-valued members of the `headers`
/// object, none when it is not an object.
pub open spec fn header_args(args: JsonValue) -> Seq<(Seq<char>, Seq<char>)> {
    match json_get(args, "headers"@) {
        Some(JsonValue::Object(ms)) => string_members(ms@),
        _ => Seq::empty(),
    }
}

/// How a command name and its arguments are read: arguments missing or
/// of another type count as empty strings; a few commands need
/// arguments, and unknown names are refused.
pub open spec fn plugin_api_call(cmd: Seq<char>, args: JsonValue) -> Result<PluginApiCallView, Seq<char>> {
    if cmd == "session.active"@ {
        Ok(PluginApiCallView::SessionActive)
    } else if cmd == "session.info"@ {
        let sid = arg_text(args, "sessionId"@);
        if sid.len() == 0 {
            Ok(PluginApiCallView::NullAnswer)
        } else {
            Ok(PluginApiCallView::SessionInfo(sid))
        }
    } else if cmd == "connection.info"@ {
        let cid = arg_text(args, "connectionId"@);
        if cid.len() == 0 {
            Ok(PluginApiCallView::NullAnswer)
        } else {
            Ok(PluginApiCallView::ConnectionInfo(cid))
        }
    } else if cmd == "connection.list"@ {
        Ok(PluginApiCallView::ConnectionList)
    } else if cmd == "ssh_list_sessions"@ {
        Ok(PluginApiCallView::SshListSessions)
    } else if cmd == "ssh_exec"@ {
        let sid = arg_text(args, "sessionId"@);
        let command = arg_text(args, "command"@);
        if sid.len() == 0 || command.len() == 0 {
            Err("sessionId and command required"@)
        } else {
            Ok(PluginApiCallView::SshExec(sid, command))
        }
    } else if cmd == "plugin_fs_read"@ || cmd == "fs.read"@ {
        Ok(PluginApiCallView::FsRead(arg_text(args, "path"@)))
    } else if cmd == "plugin_fs_write"@ || cmd == "fs.write"@ {
        Ok(PluginApiCallView::FsWrite(arg_text(args, "path"@), arg_text(args, "content"@)))
    } else if cmd == "plugin_http_request"@ || cmd == "net.request"@ {
        Ok(
            PluginApiCallView::NetRequest(
                arg_text(args, "url"@),
                match arg_opt(args, "method"@) {
                    Some(m) => m,
                    None => "GET"@,
                },
                header_args(args),
                arg_opt(args, "body"@),
            ),
        )
    } else if cmd == "plugin_send_notification"@ || cmd == "notification"@ {
        Ok(PluginApiCallView::Notification(arg_text(args, "title"@), arg_text(args, "body"@)))
    } else {
        Err("unhandled command: "@ + cmd)
    }
}

/// The command names, told apart by length and first character.
proof fn lemma_command_names()
    ensures
        "session.active"@.len() == 14 && "session.active"@[0] == 's',
        "session.info"@.len() == 12 && "session.info"@[0] == 's',
        "connection.info"@.len() == 15 && "connection.info"@[11] == 'i',
        "connection.list"@.len() == 15 && "connection.list"@[11] == 'l',
        "connection.info"@[0] == 'c' && "connection.list"@[0] == 'c',
        "ssh_list_sessions"@.len() == 17,
        "ssh_exec"@.len() == 8 && "ssh_exec"@[0] == 's',
        "plugin_fs_read"@.len() == 14 && "plugin_fs_read"@[0] == 'p',
        "fs.read"@.len() == 7,
        "plugin_fs_write"@.len() == 15 && "plugin_fs_write"@[0] == 'p',
        "fs.write"@.len() == 8 && "fs.write"@[0] == 'f',
        "plugin_http_request"@.len() == 19,
        "net.request"@.len() == 11,
        "notification"@.len() == 12 && "notification"@[0] == 'n',
        "plugin_send_notification"@.len() == 24,
{
    reveal_strlit("notification");
    reveal_strlit("plugin_send_notification");
    reveal_strlit("session.active");
    reveal_strlit("session.info");
    reveal_strlit("connection.info");
    reveal_strlit("connection.list");
    reveal_strlit("ssh_list_sessions");
    reveal_strlit("ssh_exec");
    reveal_strlit("plugin_fs_read");
    reveal_strlit("fs.read");
    reveal_strlit("plugin_fs_write");
    reveal_strlit("fs.write");
    reveal_strlit("plugin_http_request");
    reveal_strlit("net.request");
}

/// The string argument `key` of a call, empty when missing or not a string.
pub open spec fn string_arg(args: JsonValue, key: Seq<char>) -> Seq<char> {
    match json_get(args, key) {
        Some(JsonValue::Str(v)) => v@,
        _ => Seq::<char>::empty(),
    }
}

/// Each command reads its own arguments: the file commands the `path` (and
/// for writing the `content`), `ssh_exec` the `sessionId` and `command`
/// (both required), the info commands their id (none gives a null answer),
/// and the HTTP request its `url`, `method` (GET by default) and `body`.
pub proof fn lemma_api_call_arguments(args: JsonValue)
    ensures
        plugin_api_call("fs.read"@, args) == Ok::<PluginApiCallView, Seq<char>>(
            PluginApiCallView::FsRead(string_arg(args, "path"@)),
        ),
        plugin_api_call("plugin_fs_read"@, args) == plugin_api_call("fs.read"@, args),
        plugin_api_call("fs.write"@, args) == Ok::<PluginApiCallView, Seq<char>>(
            PluginApiCallView::FsWrite(string_arg(args, "path"@), string_arg(args, "content"@)),
        ),
        plugin_api_call("plugin_fs_write"@, args) == plugin_api_call("fs.write"@, args),
        plugin_api_call("ssh_exec"@, args) == (if string_arg(args, "sessionId"@).len() > 0
            && string_arg(args, "command"@).len() > 0 {
            Ok::<PluginApiCallView, Seq<char>>(
                PluginApiCallView::SshExec(string_arg(args, "sessionId"@), string_arg(args, "command"@)),
            )
        } else {
            Err::<PluginApiCallView, Seq<char>>("sessionId and command required"@)
        }),
        plugin_api_call("session.info"@, args) == (if string_arg(args, "sessionId"@).len() > 0 {
            Ok::<PluginApiCallView, Seq<char>>(PluginApiCallView::SessionInfo(string_arg(args, "sessionId"@)))
        } else {
            Ok::<PluginApiCallView, Seq<char>>(PluginApiCallView::NullAnswer)
        }),
        plugin_api_call("connection.info"@, args) == (if string_arg(args, "connectionId"@).len() > 0 {
            Ok::<PluginApiCallView, Seq<char>>(
                PluginApiCallView::ConnectionInfo(string_arg(args, "connectionId"@)),
            )
        } else {
            Ok::<PluginApiCallView, Seq<char>>(PluginApiCallView::NullAnswer)
        }),
        plugin_api_call("net.request"@, args) matches Ok(PluginApiCallView::NetRequest(u, m, _, b))
            && u == string_arg(args, "url"@) && m == (match json_get(args, "method"@) {
            Some(JsonValue::Str(v)) => v@,
            _ => "GET"@,
        }) && b == (match json_get(args, "body"@) {
            Some(JsonValue::Str(v)) => Some(v@),
            _ => None,
        }),
        plugin_api_call("plugin_http_request"@, args) == plugin_api_call("net.request"@, args),
{
    lemma_command_names();
}

/// The notification commands show exactly the `title` and `body` string
/// arguments of the call, each empty only when that argument is missing or
/// not a string.
pub proof fn lemma_notification_carries_title_and_body(cmd: Seq<char>, args: JsonValue)
    requires
        cmd == "notification"@ || cmd == "plugin_send_notification"@,
    ensures
        plugin_api_call(cmd, args) == Ok::<PluginApiCallView, Seq<char>>(
            PluginApiCallView::Notification(
                match json_get(args, "title"@) {
                    Some(JsonValue::Str(t)) => t@,
                    _ => Seq::<char>::empty(),
                },
                match json_get(args, "body"@) {
                    Some(JsonValue::Str(b)) => b@,
                    _ => Seq::<char>::empty(),
                },
            ),
        ),
{
    lemma_command_names();
}

fn arg_opt_exec(args: &JsonValue, key: &str) -> (r: Option<String>)
    ensures
        opt_view(r) == arg_opt(*args, key@),
{
    match args.get(key) {
        Some(JsonValue::Str(s)) => Some(s.clone()),
        _ => None,
    }
}

fn arg_text_exec(args: &JsonValue, key: &str) -> (r: String)
    ensures
        r@ == arg_text(*args, key@),
{
    match arg_opt_exec(args, key) {
        Some(s) => s,
        None => String::new(),
    }
}

fn header_args_exec(args: &JsonValue) -> (r: Vec<(String, String)>)
    ensures
        pair_views(r@) == header_args(*args),
{
    let mut r: Vec<(String, String)> = Vec::new();
    match args.get("headers") {
        Some(JsonValue::Object(ms)) => {
            let mut i: usize = 0;
            assert(ms@.take(0) =~= Seq::<(String, JsonValue)>::empty());
            assert(pair_views(r@) =~= Seq::<(Seq<char>, Seq<char>)>::empty());
            while i < ms.len()
                invariant
                    i <= ms.len(),
                    pair_views(r@) == string_members(ms@.take(i as int)),
                decreases ms.len() - i,
            {
                assert(ms@.take(i + 1).drop_last() =~= ms@.take(i as int));
                assert(ms@.take(i + 1).last() == ms@[i as int]);
                let ghost before = pair_views(r@);
                match &ms[i].1 {
                    JsonValue::Str(v) => {
                        let k = ms[i].0.clone();
                        let val = v.clone();
                        r.push((k, val));
                        assert(pair_views(r@) =~= before.push((ms@[i as int].0@, v@)));
                    },
                    _ => {},
                }
                i = i + 1;
            }
            assert(ms@.take(ms.len() as int) =~= ms@);
        },
        _ => {},
    }
    r
}

/// Reads a plugin API call from its command name and arguments (see
/// [`plugin_api_call`]); the error is the message answered to the plugin.
pub fn parse_plugin_api_call(cmd: &str, args: &JsonValue) -> (r: Result<PluginApiCall, String>)
    ensures
        match r {
            Ok(c) => plugin_api_call(cmd@, *args) == Ok::<PluginApiCallView, Seq<char>>(
                api_call_view(c),
            ),
            Err(m) => plugin_api_call(cmd@, *args) == Err::<PluginApiCallView, Seq<char>>(m@),
        },
{
    if str_eq(cmd, "session.active") {
        Ok(PluginApiCall::SessionActive)
    } else if str_eq(cmd, "session.info") {
        let sid = arg_text_exec(args, "sessionId");
        if sid.as_str().is_empty() {
            Ok(PluginApiCall::NullAnswer)
        } else {
            Ok(PluginApiCall::SessionInfo(sid))
        }
    } else if str_eq(cmd, "connection.info") {
        let cid = arg_text_exec(args, "connectionId");
        if cid.as_str().is_empty() {
            Ok(PluginApiCall::NullAnswer)
        } else {
            Ok(PluginApiCall::ConnectionInfo(cid))
        }
    } else if str_eq(cmd, "connection.list") {
        Ok(PluginApiCall::ConnectionList)
    } else if str_eq(cmd, "ssh_list_sessions") {
        Ok(PluginApiCall::SshListSessions)
    } else if str_eq(cmd, "ssh_exec") {
        let session_id = arg_text_exec(args, "sessionId");
        let command = arg_text_exec(args, "command");
        if session_id.as_str().is_empty() || command.as_str().is_empty() {
            Err(String::from_str("sessionId and command required"))
        } else {
            Ok(PluginApiCall::SshExec { session_id, command })
        }
    } else if str_eq(cmd, "plugin_fs_read") || str_eq(cmd, "fs.read") {
        Ok(PluginApiCall::FsRead(arg_text_exec(args, "path")))
    } else if str_eq(cmd, "plugin_fs_write") || str_eq(cmd, "fs.write") {
        let path = arg_text_exec(args, "path");
        let content = arg_text_exec(args, "content");
        Ok(PluginApiCall::FsWrite { path, content })
    } else if str_eq(cmd, "plugin_http_request") || str_eq(cmd, "net.request") {
        let url = arg_text_exec(args, "url");
        let method = match arg_opt_exec(args, "method") {
            Some(m) => m,
            None => String::from_str("GET"),
        };
        let headers = header_args_exec(args);
        let body = arg_opt_exec(args, "body");
        Ok(PluginApiCall::NetRequest { url, method, headers, body })
    } else if str_eq(cmd, "plugin_send_notification") || str_eq(cmd, "notification") {
        let title = arg_text_exec(args, "title");
        let text = arg_text_exec(args, "body");
        Ok(PluginApiCall::Notification { title, text })
    } else {
        let mut m = String::from_str("unhandled command: ");
        m.append(cmd);
        Err(m)
    }
}

/// With unique keys, the entry of `p` is the one at any index holding `p`.
proof fn lemma_unique_index(es: Seq<(String, Vec<String>)>, p: Seq<char>, i: int)
    requires
        0 <= i < es.len(),
        es[i].0@ == p,
        entry_keys(es).no_duplicates(),
    ensures
        entry_index(es, p) == i,
{
    lemma_entry_index(es, p);
    let e = entry_index(es, p);
    if e != i {
        assert(entry_keys(es)[e] == entry_keys(es)[i]);
    }
}

/// Two entry lists with the same keys give the same index for every key.
proof fn lemma_entry_index_same(a: Seq<(String, Vec<String>)>, b: Seq<(String, Vec<String>)>, q: Seq<char>)
    requires
        a.len() == b.len(),
        forall|k: int| 0 <= k < a.len() ==> (#[trigger] a[k]).0@ == b[k].0@,
    ensures
        entry_index(a, q) == entry_index(b, q),
    decreases a.len(),
{
    if a.len() > 0 {
        assert(a.last().0@ == b.last().0@);
        lemma_entry_index_same(a.drop_last(), b.drop_last(), q);
    }
}

} // verus!
