//! Configuration backups: how a backup is named, which file it restores,
//! the newest-first order of the backups and which old ones are dropped.
use vstd::prelude::*;

use crate::crash::{format_utc_millis, utc_millis_format, BACKUP_STAMP_FORMAT};
use crate::text::{chars_of, has_suffix, index_of, lemma_index_of_bounds, opt_view, string_from_chars, sub_chars};

verus! {

/// Directory, under the configuration directory, that holds the backups.
pub const BACKUP_DIR: &'static str = "backups";

/// How many backups are kept.
pub const MAX_BACKUPS: usize = 10;

/// A backup of one configuration file.
#[derive(Debug, Clone)]
pub struct ConfigBackup {
    /// Name of the file that was backed up, as read back from the backup's
    /// name (see [`backup_original_name`]).
    pub path: String,
    pub backup_path: String,
    /// When the backup was made, in milliseconds since the Unix epoch (UTC).
    pub created_at: i64,
    pub size: u64,
}

/// The backups of a configuration directory, newest first.
#[derive(Debug, Clone)]
pub struct ConfigRecovery {
    pub config_dir: String,
    pub backups: Vec<ConfigBackup>,
}

// ───────────────────────── names ─────────────────────────

/// The name of the backup of `file` made at `now_ms`: the file name, `-`,
/// the UTC time stamp and `.bak`; none when the time cannot be written.
pub open spec fn backup_name_for(file: Seq<char>, now_ms: i64) -> Option<Seq<char>> {
    match utc_millis_format(now_ms, BACKUP_STAMP_FORMAT@) {
        Some(stamp) => Some(file + "-"@ + stamp + ".bak"@),
        None => None,
    }
}

/// The name of the backup of `file_name` made at `now_ms` (see
/// [`backup_name_for`]).
pub fn backup_file_name(file_name: &str, now_ms: i64) -> (r: Option<String>)
    ensures
        opt_view(r) == backup_name_for(file_name@, now_ms),
{
    match format_utc_millis(now_ms, BACKUP_STAMP_FORMAT) {
        Some(stamp) => {
            let mut r = String::from_str(file_name);
            r.append("-");
            r.append(stamp.as_str());
            r.append(".bak");
            Some(r)
        },
        None => None,
    }
}

/// The file a backup restores: its name up to the first `-`.
pub open spec fn restore_target(backup_name: Seq<char>) -> Seq<char> {
    let k = index_of(backup_name, '-');
    if k < 0 {
        backup_name
    } else {
        backup_name.take(k)
    }
}

/// The file a backup named `backup_name` restores (see [`restore_target`]).
pub fn backup_target_name(backup_name: &str) -> (r: String)
    ensures
        r@ == restore_target(backup_name@),
{
    let cs = chars_of(backup_name);
    let mut k: usize = 0;
    while k < cs.len() && cs[k] != '-'
        invariant
            k <= cs.len(),
            cs@ == backup_name@,
            forall|j: int| 0 <= j < k ==> cs@[j] != '-',
        decreases cs.len() - k,
    {
        k = k + 1;
    }
    proof {
        lemma_index_of_bounds(cs@, '-');
        let idx = index_of(cs@, '-');
        if idx >= 0 {
            assert(idx == k);
        } else {
            assert(k == cs.len());
        }
    }
    string_from_chars(&sub_chars(&cs, 0, k))
}

/// Restoring a backup writes back the file it was made of, for file names
/// without `-` (the name is read up to its first `-`).
pub proof fn lemma_restore_targets_backed_up_file(file: Seq<char>, now_ms: i64)
    requires
        backup_name_for(file, now_ms) is Some,
        forall|i: int| 0 <= i < file.len() ==> file[i] != '-',
    ensures
        restore_target(backup_name_for(file, now_ms).unwrap()) == file,
{
    reveal_strlit("-");
    let name = backup_name_for(file, now_ms).unwrap();
    let stamp = utc_millis_format(now_ms, BACKUP_STAMP_FORMAT@).unwrap();
    assert(name == file + "-"@ + stamp + ".bak"@);
    assert(name[file.len() as int] == '-');
    assert forall|i: int| 0 <= i < file.len() implies name[i] != '-' by {
        assert(name[i] == file[i]);
    }
    lemma_index_of_bounds(name, '-');
    let k = index_of(name, '-');
    assert(k == file.len());
    assert(name.take(k) =~= file);
}

/// Whether a character is numeric in the Unicode sense (general category
/// `Nd`, `Nl` or `No`), as `char::is_numeric` decides.
pub uninterp spec fn unicode_numeric(c: char) -> bool;

/// `char::is_numeric`; its answer is named by [`unicode_numeric`].
#[verifier::external_body]
fn is_numeric_char(c: char) -> (r: bool)
    ensures
        r == unicode_numeric(c),
{
    c.is_numeric()
}

/// The file name read back from a backup's name: without `.bak` and
/// without one more trailing character when that one is numeric, `-` or
/// `T`; `unknown` when either step does not apply.
pub open spec fn backup_original_name(name: Seq<char>) -> Seq<char> {
    if has_suffix(name, ".bak"@) {
        let base = name.take(name.len() - 4);
        if base.len() > 0 && (unicode_numeric(base.last()) || base.last() == '-' || base.last()
            == 'T') {
            base.drop_last()
        } else {
            "unknown"@
        }
    } else {
        "unknown"@
    }
}

/// The file name read back from a backup's name (see
/// [`backup_original_name`]).
pub fn original_name_of_backup(name: &str) -> (r: String)
    ensures
        r@ == backup_original_name(name@),
{
    proof {
        reveal_strlit(".bak");
    }
    let cs = chars_of(name);
    let n = cs.len();
    if n < 4 || cs[n - 4] != '.' || cs[n - 3] != 'b' || cs[n - 2] != 'a' || cs[n - 1] != 'k' {
        proof {
            if has_suffix(name@, ".bak"@) {
                assert(name@.skip(n - 4)[0] == '.');
                assert(name@.skip(n - 4)[1] == 'b');
                assert(name@.skip(n - 4)[2] == 'a');
                assert(name@.skip(n - 4)[3] == 'k');
            }
        }
        return String::from_str("unknown");
    }
    assert(name@.skip(n - 4) =~= ".bak"@);
    let m = n - 4;
    if m > 0 && (is_numeric_char(cs[m - 1]) || cs[m - 1] == '-' || cs[m - 1] == 'T') {
        let r = sub_chars(&cs, 0, m - 1);
        assert(r@ =~= name@.take(m as int).drop_last());
        string_from_chars(&r)
    } else {
        String::from_str("unknown")
    }
}

// ───────────────────────── newest first ─────────────────────────

/// Time key `a` is newer than `b`; an unknown time is older than any known
/// one.
pub open spec fn newer(a: Option<i128>, b: Option<i128>) -> bool {
    match (a, b) {
        (Some(x), Some(y)) => x > y,
        (Some(_), None) => true,
        _ => false,
    }
}

/// In the newest-first order of `keys`, position `i` comes before position
/// `j`: it is newer, or as new and listed earlier (the order is stable).
pub open spec fn goes_before(keys: Seq<Option<i128>>, i: int, j: int) -> bool {
    newer(keys[i], keys[j]) || (keys[i] == keys[j] && i < j)
}

/// `order` lists positions of `keys` strictly in newest-first order.
pub open spec fn newest_first_sorted(keys: Seq<Option<i128>>, order: Seq<usize>) -> bool {
    &&& forall|p: int| 0 <= p < order.len() ==> (#[trigger] order[p]) < keys.len()
    &&& forall|p: int, q: int|
        0 <= p < q < order.len() ==> goes_before(keys, #[trigger] order[p] as int, #[trigger] order[q] as int)
}

fn is_newer(a: Option<i128>, b: Option<i128>) -> (r: bool)
    ensures
        r == newer(a, b),
{
    match (a, b) {
        (Some(x), Some(y)) => x > y,
        (Some(_), None) => true,
        _ => false,
    }
}

/// The positions of `keys` from the newest to the oldest time, positions
/// with equal times in their listed order: every position exactly once.
pub fn newest_first(keys: &Vec<Option<i128>>) -> (order: Vec<usize>)
    ensures
        order.len() == keys.len(),
        newest_first_sorted(keys@, order@),
        forall|j: usize| j < keys.len() ==> #[trigger] order@.contains(j),
{
    let mut order: Vec<usize> = Vec::new();
    let mut k: usize = 0;
    while k < keys.len()
        invariant
            k <= keys.len(),
            order.len() == k,
            forall|p: int| 0 <= p < order.len() ==> (#[trigger] order@[p]) < k,
            newest_first_sorted(keys@, order@),
            forall|j: usize| j < k ==> #[trigger] order@.contains(j),
        decreases keys.len() - k,
    {
        let mut p: usize = 0;
        while p < order.len() && !is_newer(keys[k], keys[order[p]])
            invariant
                k < keys.len(),
                p <= order.len(),
                order.len() == k,
                forall|q: int| 0 <= q < order.len() ==> (#[trigger] order@[q]) < k,
                forall|q: int| 0 <= q < p ==> !newer(keys@[k as int], keys@[#[trigger] order@[q] as int]),
            decreases order.len() - p,
        {
            p = p + 1;
        }
        let ghost old_order = order@;
        order.insert(p, k);
        proof {
            assert(order@ == old_order.insert(p as int, k));
            assert forall|a: int, b: int| 0 <= a < b < order@.len() implies goes_before(
                keys@,
                #[trigger] order@[a] as int,
                #[trigger] order@[b] as int,
            ) by {
                if a < p && b < p {
                    assert(order@[a] == old_order[a] && order@[b] == old_order[b]);
                } else if a < p && b == p {
                    assert(order@[a] == old_order[a]);
                    assert(!newer(keys@[k as int], keys@[old_order[a] as int]));
                } else if a < p && b > p {
                    assert(order@[a] == old_order[a] && order@[b] == old_order[b - 1]);
                    assert(goes_before(keys@, old_order[a] as int, old_order[b - 1] as int));
                } else if a == p {
                    assert(order@[b] == old_order[b - 1]);
                    assert(newer(keys@[k as int], keys@[old_order[p as int] as int]));
                    if b - 1 > p {
                        assert(goes_before(keys@, old_order[p as int] as int, old_order[b - 1] as int));
                    }
                } else {
                    assert(order@[a] == old_order[a - 1] && order@[b] == old_order[b - 1]);
                    assert(goes_before(keys@, old_order[a - 1] as int, old_order[b - 1] as int));
                }
            }
            assert forall|j: usize| j < k + 1 implies #[trigger] order@.contains(j) by {
                if j == k {
                    assert(order@[p as int] == k);
                } else {
                    assert(old_order.contains(j));
                    let w = choose|w: int| 0 <= w < old_order.len() && old_order[w] == j;
                    if w < p {
                        assert(order@[w] == j);
                    } else {
                        assert(order@[w + 1] == j);
                    }
                }
            }
        }
        k = k + 1;
    }
    order
}

/// The backups to delete, given their modification times: all but the
/// [`MAX_BACKUPS`] newest, from the newest to the oldest of them. Every
/// backup kept is newer than, or as new as and listed before, every backup
/// deleted.
pub fn backups_to_remove(mtimes: &Vec<Option<i128>>) -> (r: Vec<usize>)
    ensures
        r.len() == (if mtimes.len() > MAX_BACKUPS {
            mtimes.len() - MAX_BACKUPS
        } else {
            0
        }),
        newest_first_sorted(mtimes@, r@),
        forall|j: usize, i: int|
            j < mtimes.len() && !#[trigger] r@.contains(j) && 0 <= i < r.len() ==> goes_before(
                mtimes@,
                j as int,
                #[trigger] r@[i] as int,
            ),
{
    let order = newest_first(mtimes);
    let n = order.len();
    let mut r: Vec<usize> = Vec::new();
    if n <= MAX_BACKUPS {
        return r;
    }
    let mut i: usize = MAX_BACKUPS;
    while i < n
        invariant
            MAX_BACKUPS <= i <= n,
            n == order.len(),
            r@ == order@.subrange(MAX_BACKUPS as int, i as int),
        decreases n - i,
    {
        r.push(order[i]);
        assert(r@ =~= order@.subrange(MAX_BACKUPS as int, i + 1));
        i = i + 1;
    }
    proof {
        let o = order@;
        let m = MAX_BACKUPS as int;
        assert(r@ == o.subrange(m, n as int));
        assert forall|j: usize, t: int|
            j < mtimes.len() && !#[trigger] r@.contains(j) && 0 <= t < r.len() implies goes_before(
            mtimes@,
            j as int,
            #[trigger] r@[t] as int,
        ) by {
            assert(o.contains(j));
            let w = choose|w: int| 0 <= w < o.len() && o[w] == j;
            if w >= m {
                assert(r@[w - m] == j);
                assert(r@.contains(j));
            }
            assert(r@[t] == o[m + t]);
        }
    }
    r
}

impl ConfigRecovery {
    /// The backups of the file named `file_name`, in their order.
    pub fn get_backups_for_file(&self, file_name: &str) -> (r: Vec<&ConfigBackup>)
        ensures
            r@.map_values(|b: &ConfigBackup| *b) == self.backups@.filter(
                |b: ConfigBackup| b.path@ == file_name@,
            ),
    {
        let mut r: Vec<&ConfigBackup> = Vec::new();
        let mut i: usize = 0;
        while i < self.backups.len()
            invariant
                i <= self.backups.len(),
                r@.map_values(|b: &ConfigBackup| *b) == self.backups@.take(i as int).filter(
                    |b: ConfigBackup| b.path@ == file_name@,
                ),
            decreases self.backups.len() - i,
        {
            let b = &self.backups[i];
            proof {
                assert(self.backups@.take(i + 1).drop_last() =~= self.backups@.take(i as int));
                assert(self.backups@.take(i + 1).last() == *b);
                reveal(Seq::filter);
            }
            if crate::text::str_eq(b.path.as_str(), file_name) {
                r.push(b);
                assert(r@.map_values(|b: &ConfigBackup| *b) =~= self.backups@.take(i + 1).filter(
                    |b: ConfigBackup| b.path@ == file_name@,
                ));
            } else {
                assert(r@.map_values(|b: &ConfigBackup| *b) =~= self.backups@.take(i + 1).filter(
                    |b: ConfigBackup| b.path@ == file_name@,
                ));
            }
            i = i + 1;
        }
        assert(self.backups@.take(i as int) =~= self.backups@);
        r
    }
}

} // verus!
