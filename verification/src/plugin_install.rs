//! Plugin installation rules: which plugin ids are acceptable, how an entry
//! path of a downloaded archive becomes a safe relative path, which files of
//! an installed plugin survive an update.
use vstd::prelude::*;

use crate::error::AppError;
use crate::text::{
    chars_eq, chars_of, contains_exec, contains_seq, contains_string, dedup, has_prefix,
    has_prefix_exec, has_suffix, has_suffix_exec, join_exec, join_with, lemma_join_avoid, lemma_split_free, lemma_split_join,
    lemma_split_pieces_avoid, lemma_split_pieces_free,
    replace_char, replace_char_exec, vec_views, split_char, split_char_exec, string_from_chars, sub_chars,
    trim_end_seq, trim_end_seq_exec, views,
};

verus! {

/// Cap on the total unpacked size of one archive (zip-bomb protection).
pub const MAX_EXTRACT_BYTES: u64 = 314572800;

/// Internal manifest file that lists the files an install shipped.
pub const SHIPPED_LIST_FILE: &'static str = ".marcel-shipped.json";

/// Outcome of an install or update, reported to the frontend.
#[derive(Debug, Clone, PartialEq, Eq)]
pub struct PluginInstallResult {
    pub id: String,
    pub name: String,
    pub version: String,
    /// The frontend does not reload plugins by itself; a restart applies the change.
    pub restart_required: bool,
}

// ───────────────────────── plugin ids ─────────────────────────

/// A plugin id character: ASCII letter or digit, `-` or `_`.
pub open spec fn is_plugin_id_char(c: char) -> bool {
    ('0' <= c <= '9') || ('a' <= c <= 'z') || ('A' <= c <= 'Z') || c == '-' || c == '_'
}

/// A valid plugin id: non-empty, only plugin id characters.
pub open spec fn valid_plugin_id(id: Seq<char>) -> bool {
    id.len() > 0 && forall|i: int| 0 <= i < id.len() ==> is_plugin_id_char(id[i])
}

/// Checks that a plugin id is non-empty and made only of ASCII letters,
/// digits, `-` and `_` (which also rules out `.`/`..` traversal).
pub fn validate_plugin_id(id: &str) -> (r: Result<(), AppError>)
    ensures
        r is Ok <==> valid_plugin_id(id@),
        id@.len() == 0 ==> (r matches Err(AppError::Other(m)) && m@ == "插件 id 为空"@),
        (id@.len() > 0 && !valid_plugin_id(id@)) ==> (r matches Err(AppError::Other(m)) && m@
            == "插件 id 含非法字符: "@ + id@),
{
    let cs = chars_of(id);
    if cs.len() == 0 {
        return Err(AppError::Other(String::from_str("插件 id 为空")));
    }
    let mut i: usize = 0;
    while i < cs.len()
        invariant
            i <= cs.len(),
            cs@ == id@,
            forall|k: int| 0 <= k < i ==> is_plugin_id_char(cs@[k]),
        decreases cs.len() - i,
    {
        let c = cs[i];
        let ok = ('0' <= c && c <= '9') || ('a' <= c && c <= 'z') || ('A' <= c && c <= 'Z') || c
            == '-' || c == '_';
        if !ok {
            let mut m = String::from_str("插件 id 含非法字符: ");
            m.append(id);
            return Err(AppError::Other(m));
        }
        i = i + 1;
    }
    Ok(())
}

// ───────────────────────── archive entry paths ─────────────────────────

/// Why a path segment makes an archive entry unacceptable.
pub enum SegmentFault {
    Traversal,
    InternalManifest,
}

/// The kept segments of an entry path, scanning left to right: empty and
/// `.` segments are dropped; the first `..` or internal-manifest segment
/// rejects the path.
pub open spec fn scan_segments(segs: Seq<Seq<char>>) -> Result<Seq<Seq<char>>, SegmentFault>
    decreases segs.len(),
{
    if segs.len() == 0 {
        Ok(Seq::empty())
    } else {
        match scan_segments(segs.drop_last()) {
            Err(e) => Err(e),
            Ok(kept) => {
                let s = segs.last();
                if s.len() == 0 || s == "."@ {
                    Ok(kept)
                } else if s == ".."@ {
                    Err(SegmentFault::Traversal)
                } else if has_prefix(s, ".marcel-shipped"@) {
                    Err(SegmentFault::InternalManifest)
                } else {
                    Ok(kept.push(s))
                }
            },
        }
    }
}

proof fn lemma_scan_err_extends(segs: Seq<Seq<char>>, k: int)
    requires
        0 <= k <= segs.len(),
        scan_segments(segs.take(k)) is Err,
    ensures
        scan_segments(segs) == scan_segments(segs.take(k)),
    decreases segs.len() - k,
{
    if k < segs.len() {
        assert(segs.take(k + 1).drop_last() =~= segs.take(k));
        lemma_scan_err_extends(segs, k + 1);
    } else {
        assert(segs.take(k) =~= segs);
    }
}

/// `name` with `\` turned into `/`.
pub open spec fn slashed(name: Seq<char>) -> Seq<char> {
    replace_char(name, '\\', '/')
}

/// Whether `s` starts like a Windows drive path: its second UTF-8 byte is
/// `:` (an ASCII first character followed by `:`).
pub open spec fn drive_prefixed(s: Seq<char>) -> bool {
    s.len() >= 2 && (s[0] as u32) < 0x80 && s[1] == ':'
}

/// The safe relative path of an archive entry, or the message that rejects
/// it. A drive prefix is refused both on the name as given and on the
/// path that remains once empty and `.` segments are dropped.
pub open spec fn zip_path(name: Seq<char>) -> Result<Seq<char>, Seq<char>> {
    let norm = slashed(name);
    if has_prefix(norm, "/"@) {
        Err("绝对路径: "@ + name)
    } else if drive_prefixed(norm) {
        Err("盘符路径: "@ + name)
    } else {
        match scan_segments(split_char(norm, '/')) {
            Err(SegmentFault::Traversal) => Err("路径穿越: "@ + name),
            Err(SegmentFault::InternalManifest) => Err("非法路径（内部清单）: "@ + name),
            Ok(kept) => if kept.len() == 0 {
                Err("空路径: "@ + name)
            } else if drive_prefixed(join_with(kept, '/')) {
                Err("盘符路径: "@ + name)
            } else {
                Ok(join_with(kept, '/'))
            },
        }
    }
}

proof fn lemma_scan_ok(segs: Seq<Seq<char>>)
    requires
        scan_segments(segs) is Ok,
    ensures
        forall|k: int|
            0 <= k < scan_segments(segs)->Ok_0.len() ==> {
                let p = #[trigger] scan_segments(segs)->Ok_0[k];
                &&& p.len() > 0
                &&& p != "."@
                &&& p != ".."@
                &&& exists|j: int| 0 <= j < segs.len() && segs[j] == p
            },
    decreases segs.len(),
{
    if segs.len() > 0 {
        let dl = segs.drop_last();
        lemma_scan_ok(dl);
        let prev = scan_segments(dl)->Ok_0;
        let kept = scan_segments(segs)->Ok_0;
        assert forall|k: int| 0 <= k < kept.len() implies {
            let p = #[trigger] kept[k];
            &&& p.len() > 0
            &&& p != "."@
            &&& p != ".."@
            &&& exists|j: int| 0 <= j < segs.len() && segs[j] == p
        } by {
            if k < prev.len() {
                assert(kept[k] == prev[k]);
                let j = choose|j: int| 0 <= j < dl.len() && dl[j] == prev[k];
                assert(segs[j] == dl[j]);
            } else {
                assert(kept[k] == segs.last());
                assert(segs[segs.len() - 1] == segs.last());
            }
        }
    }
}

/// An accepted archive path is safe to join under the extraction
/// directory: it is not empty, is no drive path, holds no `\`, and every
/// `/`-separated component is non-empty (so it does not start with `/`)
/// and neither `.` nor `..`.
pub proof fn lemma_sanitized_zip_path_is_safe(name: Seq<char>)
    requires
        zip_path(name) is Ok,
    ensures
        ({
            let p = zip_path(name)->Ok_0;
            &&& p.len() > 0
            &&& !drive_prefixed(p)
            &&& forall|j: int| 0 <= j < p.len() ==> p[j] != '\\'
            &&& forall|k: int|
                0 <= k < split_char(p, '/').len() ==> {
                    let c = #[trigger] split_char(p, '/')[k];
                    &&& c.len() > 0
                    &&& c != "."@
                    &&& c != ".."@
                }
        }),
{
    let norm = slashed(name);
    let segs = split_char(norm, '/');
    let kept = scan_segments(segs)->Ok_0;
    let p = join_with(kept, '/');
    lemma_scan_ok(segs);
    lemma_split_pieces_free(norm, '/');
    assert forall|j: int| 0 <= j < norm.len() implies norm[j] != '\\' by {}
    lemma_split_pieces_avoid(norm, '/', '\\');
    assert forall|k: int, j: int| 0 <= k < kept.len() && 0 <= j < kept[k].len() implies kept[k][j]
        != '/' && kept[k][j] != '\\' by {
        let i = choose|i: int| 0 <= i < segs.len() && segs[i] == kept[k];
        assert(segs[i][j] == kept[k][j]);
    }
    lemma_split_join(kept, '/');
    lemma_join_avoid(kept, '/', '\\');
    assert(p.len() > 0) by {
        if p.len() == 0 {
            assert(p =~= Seq::<char>::empty());
            lemma_split_free(p, '/');
            assert(kept[0].len() > 0);
        }
    }
}

fn err_with(prefix: &str, name: &str) -> (m: String)
    ensures
        m@ == prefix@ + name@,
{
    let mut m = String::from_str(prefix);
    m.append(name);
    m
}

/// Normalizes an archive entry path into a safe relative path: rejects
/// absolute paths, Windows drive prefixes, `..` traversal and the
/// internal manifest name; `\` becomes `/`, empty and `.` segments are
/// skipped (so `a//b.txt` gives `a/b.txt`).
pub fn sanitize_zip_path(name: &str) -> (r: Result<String, String>)
    ensures
        match r {
            Ok(p) => zip_path(name@) == Ok::<Seq<char>, Seq<char>>(p@),
            Err(m) => zip_path(name@) == Err::<Seq<char>, Seq<char>>(m@),
        },
{
    let raw = chars_of(name);
    let norm = replace_char_exec(&raw, '\\', '/');
    let slash = chars_of("/");
    if has_prefix_exec(&norm, &slash) {
        return Err(err_with("绝对路径: ", name));
    }
    if norm.len() >= 2 && (norm[0] as u32) < 0x80 && norm[1] == ':' {
        return Err(err_with("盘符路径: ", name));
    }
    assert(!drive_prefixed(slashed(name@)));
    let segs = split_char_exec(&norm, '/');
    let ghost sv = vec_views(segs@);
    assert(sv == split_char(slashed(name@), '/'));
    let dot = chars_of(".");
    let dotdot = chars_of("..");
    let shipped = chars_of(".marcel-shipped");
    let mut kept: Vec<Vec<char>> = Vec::new();
    let mut i: usize = 0;
    proof {
        reveal_strlit(".");
        reveal_strlit("..");
        assert(sv.take(0) =~= Seq::<Seq<char>>::empty());
        assert(vec_views(kept@) =~= Seq::<Seq<char>>::empty());
    }
    while i < segs.len()
        invariant
            i <= segs.len(),
            sv == vec_views(segs@),
            dot@ == "."@,
            dotdot@ == ".."@,
            sv == split_char(slashed(name@), '/'),
            !has_prefix(slashed(name@), "/"@),
            !drive_prefixed(slashed(name@)),
            shipped@ == ".marcel-shipped"@,
            scan_segments(sv.take(i as int)) == Ok::<Seq<Seq<char>>, SegmentFault>(
                vec_views(kept@),
            ),
        decreases segs.len() - i,
    {
        let seg = &segs[i];
        assert(sv.take(i + 1).drop_last() =~= sv.take(i as int));
        assert(sv.take(i + 1).last() == seg@);
        if seg.len() == 0 || chars_eq(seg, &dot) {
        } else if chars_eq(seg, &dotdot) {
            proof {
                assert(scan_segments(sv.take(i + 1)) == Err::<Seq<Seq<char>>, SegmentFault>(
                    SegmentFault::Traversal,
                ));
                lemma_scan_err_extends(sv, i + 1);
            }
            return Err(err_with("路径穿越: ", name));
        } else if has_prefix_exec(seg, &shipped) {
            proof {
                lemma_scan_err_extends(sv, i + 1);
            }
            return Err(err_with("非法路径（内部清单）: ", name));
        } else {
            let piece = sub_chars(seg, 0, seg.len());
            assert(piece@ =~= seg@);
            kept.push(piece);
            assert(vec_views(kept@) =~= scan_segments(sv.take(i as int))->Ok_0.push(
                seg@,
            ));
        }
        i = i + 1;
    }
    assert(sv.take(segs.len() as int) =~= sv);
    if kept.len() == 0 {
        return Err(err_with("空路径: ", name));
    }
    let joined = join_exec(&kept, '/');
    if joined.len() >= 2 && (joined[0] as u32) < 0x80 && joined[1] == ':' {
        return Err(err_with("盘符路径: ", name));
    }
    Ok(string_from_chars(&joined))
}

/// Result of accepting one archive entry during extraction.
#[derive(Debug, Clone, PartialEq, Eq)]
pub struct ExtractStep {
    /// Safe relative path under the extraction directory.
    pub rel_path: String,
    /// Unpacked bytes so far, this entry included.
    pub total: u64,
}

/// Decides on one archive entry during extraction, given the unpacked bytes
/// so far (`total`, never above [`MAX_EXTRACT_BYTES`]): the entry path must
/// sanitize, and a file entry's size must keep the running total within the
/// cap. Directories do not count towards the total.
pub fn plan_extract_entry(name: &str, is_dir: bool, size: u64, total: u64) -> (r: Result<
    ExtractStep,
    AppError,
>)
    requires
        total <= MAX_EXTRACT_BYTES,
    ensures
        match zip_path(name@) {
            Err(e) => r matches Err(AppError::Other(m)) && m@ == "zip 条目路径非法（"@ + name@
                + "）: "@ + e,
            Ok(p) => if !is_dir && total + size > MAX_EXTRACT_BYTES {
                r matches Err(AppError::Other(m)) && m@ == "压缩包解压后超过大小上限"@
            } else {
                r matches Ok(step) && step.rel_path@ == p && step.total == (if is_dir {
                    total as int
                } else {
                    total + size
                }) && step.total <= MAX_EXTRACT_BYTES
            },
        },
{
    match sanitize_zip_path(name) {
        Err(e) => {
            let mut m = String::from_str("zip 条目路径非法（");
            m.append(name);
            m.append("）: ");
            m.append(e.as_str());
            Err(AppError::Other(m))
        },
        Ok(p) => {
            if is_dir {
                Ok(ExtractStep { rel_path: p, total })
            } else if size > MAX_EXTRACT_BYTES - total {
                Err(AppError::Other(String::from_str("压缩包解压后超过大小上限")))
            } else {
                Ok(ExtractStep { rel_path: p, total: total + size })
            }
        },
    }
}

/// What an archive says of one entry.
#[derive(Debug, Clone)]
pub struct ZipEntryInfo {
    pub name: String,
    pub is_dir: bool,
    /// Uncompressed size.
    pub size: u64,
}

/// Why reading an archive stopped.
#[derive(Debug, Clone, PartialEq, Eq)]
pub enum ZipReadError {
    /// The bytes are not a readable archive.
    Open(String),
    /// An entry could not be read.
    Entry(String),
}

/// The plain value of an entry.
pub open spec fn entry_view(e: ZipEntryInfo) -> (Seq<char>, bool, u64) {
    (e.name@, e.is_dir, e.size)
}

/// The plain values of entries.
pub open spec fn entry_views(es: Seq<ZipEntryInfo>) -> Seq<(Seq<char>, bool, u64)> {
    es.map_values(|e: ZipEntryInfo| entry_view(e))
}

/// What the `zip` crate reads from an archive: the entries in order up to
/// the first unreadable one, and why reading stopped early, if it did
/// (`true`: the archive itself did not open).
pub uninterp spec fn zip_listing(bytes: Seq<u8>) -> (Seq<(Seq<char>, bool, u64)>, Option<(bool, Seq<char>)>);

/// Opens the archive with `zip::ZipArchive::new` and reads each entry's
/// name, kind and size with `ZipArchive::by_index`; the outcome is named by
/// [`zip_listing`].
#[verifier::external_body]
fn read_zip_entries(bytes: &[u8]) -> (r: (Vec<ZipEntryInfo>, Option<ZipReadError>))
    ensures
        zip_listing(bytes@) == (entry_views(r.0@), match r.1 {
            Some(ZipReadError::Open(m)) => Some((true, m@)),
            Some(ZipReadError::Entry(m)) => Some((false, m@)),
            None => None,
        }),
{
    let mut archive = match zip::ZipArchive::new(std::io::Cursor::new(bytes)) {
        Ok(a) => a,
        Err(e) => return (Vec::new(), Some(ZipReadError::Open(e.to_string()))),
    };
    let mut out = Vec::new();
    for i in 0..archive.len() {
        match archive.by_index(i) {
            Ok(e) => out.push(ZipEntryInfo { name: e.name().to_string(), is_dir: e.is_dir(), size: e.size() }),
            Err(e) => return (out, Some(ZipReadError::Entry(e.to_string()))),
        }
    }
    (out, None)
}

/// One step of an extraction plan (see [`plan_extract_entry`]): the
/// entry's safe path and the new unpacked total, or the refusal.
pub open spec fn entry_step(e: (Seq<char>, bool, u64), total: nat) -> Result<(Seq<char>, nat), Seq<char>> {
    match zip_path(e.0) {
        Err(m) => Err("zip 条目路径非法（"@ + e.0 + "）: "@ + m),
        Ok(p) => if !e.1 && total + e.2 > MAX_EXTRACT_BYTES {
            Err("压缩包解压后超过大小上限"@)
        } else {
            Ok((p, if e.1 { total } else { (total + e.2) as nat }))
        },
    }
}

/// The unpacked total after planned steps.
pub open spec fn planned_total(steps: Seq<(Seq<char>, nat)>) -> nat {
    if steps.len() == 0 {
        0
    } else {
        steps.last().1
    }
}

/// The extraction plan of entries processed in order from nothing
/// unpacked: each entry's safe path and running total, or the first
/// refusal.
pub open spec fn extraction_plan(es: Seq<(Seq<char>, bool, u64)>) -> Result<Seq<(Seq<char>, nat)>, Seq<char>>
    decreases es.len(),
{
    if es.len() == 0 {
        Ok(Seq::empty())
    } else {
        match extraction_plan(es.drop_last()) {
            Err(m) => Err(m),
            Ok(prev) => match entry_step(es.last(), planned_total(prev)) {
                Err(m) => Err(m),
                Ok(st) => Ok(prev.push(st)),
            },
        }
    }
}

/// The plain value of planned steps.
pub open spec fn step_views(steps: Seq<ExtractStep>) -> Seq<(Seq<char>, nat)> {
    steps.map_values(|s: ExtractStep| (s.rel_path@, s.total as nat))
}

proof fn lemma_plan_err_extends(es: Seq<(Seq<char>, bool, u64)>, k: int)
    requires
        0 <= k <= es.len(),
        extraction_plan(es.take(k)) is Err,
    ensures
        extraction_plan(es) == extraction_plan(es.take(k)),
    decreases es.len() - k,
{
    if k < es.len() {
        assert(es.take(k + 1).drop_last() =~= es.take(k));
        lemma_plan_err_extends(es, k + 1);
    } else {
        assert(es.take(k) =~= es);
    }
}

/// The listing of an archive as plain values: its entries and why reading
/// stopped early, if it did (`true`: the archive did not open).
pub open spec fn listing_view(entries: Seq<ZipEntryInfo>, stop: Option<ZipReadError>) -> (
    Seq<(Seq<char>, bool, u64)>,
    Option<(bool, Seq<char>)>,
) {
    (
        entry_views(entries),
        match stop {
            Some(ZipReadError::Open(m)) => Some((true, m@)),
            Some(ZipReadError::Entry(m)) => Some((false, m@)),
            None => None,
        },
    )
}

/// The outcome of planning from a listing: an archive that did not open is
/// an error; otherwise every entry in order must pass [`entry_step`], and an
/// unreadable entry reached after the planned ones is an error.
pub open spec fn listing_plan_ok(
    listing: (Seq<(Seq<char>, bool, u64)>, Option<(bool, Seq<char>)>),
    r: Result<Vec<ExtractStep>, AppError>,
) -> bool {
    let es = listing.0;
    let stop = listing.1;
    match stop {
        Some((true, m)) => r matches Err(AppError::Other(x)) && x@ == "zip 解析失败: "@ + m,
        _ => match extraction_plan(es) {
            Err(m) => r matches Err(AppError::Other(x)) && x@ == m,
            Ok(steps) => match stop {
                Some((_, m)) => r matches Err(AppError::Other(x)) && x@ == "zip 条目读取失败: "@ + m,
                None => r matches Ok(v) && step_views(v@) == steps,
            },
        },
    }
}

/// Plans the extraction of an archive from its listing (entries in order
/// and why reading stopped early, if it did); see [`listing_plan_ok`].
pub fn plan_listed_extraction(entries: &Vec<ZipEntryInfo>, stop: &Option<ZipReadError>) -> (r:
    Result<Vec<ExtractStep>, AppError>)
    ensures
        listing_plan_ok(listing_view(entries@, *stop), r),
{
    match stop {
        Some(ZipReadError::Open(m)) => {
            let mut x = String::from_str("zip 解析失败: ");
            x.append(m.as_str());
            return Err(AppError::Other(x));
        },
        _ => {},
    }
    let ghost es = entry_views(entries@);
    let mut steps: Vec<ExtractStep> = Vec::new();
    let mut total: u64 = 0;
    let mut i: usize = 0;
    assert(es.take(0) =~= Seq::<(Seq<char>, bool, u64)>::empty());
    assert(step_views(steps@) =~= Seq::<(Seq<char>, nat)>::empty());
    while i < entries.len()
        invariant
            i <= entries.len(),
            es == entry_views(entries@),
            !(*stop matches Some(ZipReadError::Open(_))),
            total <= MAX_EXTRACT_BYTES,
            steps.len() == i,
            extraction_plan(es.take(i as int)) == Ok::<Seq<(Seq<char>, nat)>, Seq<char>>(
                step_views(steps@),
            ),
            total as nat == planned_total(step_views(steps@)),
        decreases entries.len() - i,
    {
        let e = &entries[i];
        assert(es.take(i + 1).drop_last() =~= es.take(i as int));
        assert(es.take(i + 1).last() == entry_view(*e));
        match plan_extract_entry(e.name.as_str(), e.is_dir, e.size, total) {
            Err(err) => {
                proof {
                    lemma_plan_err_extends(es, i + 1);
                }
                return Err(err);
            },
            Ok(step) => {
                let ghost before = step_views(steps@);
                total = step.total;
                steps.push(step);
                assert(step_views(steps@) =~= before.push((step.rel_path@, step.total as nat)));
            },
        }
        i = i + 1;
    }
    assert(es.take(entries.len() as int) =~= es);
    match stop {
        Some(ZipReadError::Entry(m)) => {
            let mut x = String::from_str("zip 条目读取失败: ");
            x.append(m.as_str());
            Err(AppError::Other(x))
        },
        _ => Ok(steps),
    }
}


/// Plans the extraction of an archive: the listing the `zip` crate reads
/// from the bytes, planned by [`plan_listed_extraction`].
pub fn plan_archive_extraction(bytes: &[u8]) -> (r: Result<Vec<ExtractStep>, AppError>)
    ensures
        listing_plan_ok(zip_listing(bytes@), r),
{
    let (entries, stop) = read_zip_entries(bytes);
    plan_listed_extraction(&entries, &stop)
}

/// Whether extraction reports progress after entry `i` of `count`: every
/// fifth entry and the last one.
pub fn extract_progress_due(i: u64, count: u64) -> (r: bool)
    ensures
        r == (i % 5 == 0 || i + 1 == count),
{
    i % 5 == 0 || (i < count && i + 1 == count)
}

// ───────────────────────── plugin root ─────────────────────────

/// Which top-level entry of an unpacked archive is the plugin root, given
/// whether each entry is a directory: when the archive holds no file at
/// its top and exactly one directory, that directory (its position);
/// otherwise (`None`) the extraction directory itself.
pub fn plugin_root_entry(entry_is_dir: &[bool]) -> (r: Option<usize>)
    ensures
        r == (if entry_is_dir@.len() == 1 && entry_is_dir@[0] {
            Some(0usize)
        } else {
            None::<usize>
        }),
{
    let mut dirs: usize = 0;
    let mut files: usize = 0;
    let mut first_dir: usize = 0;
    let mut i: usize = 0;
    while i < entry_is_dir.len()
        invariant
            i <= entry_is_dir.len(),
            dirs + files == i,
            dirs > 0 ==> first_dir < i && entry_is_dir@[first_dir as int],
            dirs == 0 ==> forall|k: int| 0 <= k < i ==> !entry_is_dir@[k],
            files == 0 ==> forall|k: int| 0 <= k < i ==> entry_is_dir@[k],
        decreases entry_is_dir.len() - i,
    {
        if entry_is_dir[i] {
            if dirs == 0 {
                first_dir = i;
            }
            dirs = dirs + 1;
        } else {
            files = files + 1;
        }
        i = i + 1;
    }
    if files == 0 && dirs == 1 {
        Some(first_dir)
    } else {
        None
    }
}

// ───────────────────────── preserved paths on update ─────────────────────────

/// `p` with `\` turned into `/`.
pub fn normalize_preserve_path(p: &str) -> (r: String)
    ensures
        r@ == slashed(p@),
{
    let cs = chars_of(p);
    let n = replace_char_exec(&cs, '\\', '/');
    string_from_chars(&n)
}

/// Whether the preserve declaration `preserve` covers the file `file`: a
/// declaration ending in `/`, or holding `**` or `/*`, is a directory prefix
/// (`memories/` covers `memories/a.jsonl`); any other declaration names
/// exactly one file.
pub open spec fn preserve_matches(preserve: Seq<char>, file: Seq<char>) -> bool {
    let np = slashed(preserve);
    let nf = slashed(file);
    let trimmed = trim_end_seq(trim_end_seq(trim_end_seq(np, "/**"@), "/*"@), seq!['/']);
    let is_dir = has_suffix(np, seq!['/']) || contains_seq(np, "**"@) || contains_seq(np, "/*"@);
    if is_dir {
        trimmed.len() > 0 && (nf == trimmed || has_prefix(nf, trimmed.push('/')))
    } else {
        nf == trim_end_seq(np, seq!['/'])
    }
}

/// Decides whether `file_rel` is covered by the preserve declaration `preserve`.
pub fn is_preserve_match(preserve: &str, file_rel: &str) -> (r: bool)
    ensures
        r == preserve_matches(preserve@, file_rel@),
{
    let np = replace_char_exec(&chars_of(preserve), '\\', '/');
    let nf = replace_char_exec(&chars_of(file_rel), '\\', '/');
    let slash = chars_of("/");
    proof {
        reveal_strlit("/");
        assert(slash@ =~= seq!['/']);
        reveal_strlit("/**");
        reveal_strlit("/*");
    }
    let t1 = trim_end_seq_exec(&np, &chars_of("/**"));
    let t2 = trim_end_seq_exec(&t1, &chars_of("/*"));
    let trimmed = trim_end_seq_exec(&t2, &slash);
    let is_dir = has_suffix_exec(&np, &slash) || contains_exec(&np, &chars_of("**"))
        || contains_exec(&np, &chars_of("/*"));
    if is_dir {
        if trimmed.len() == 0 {
            return false;
        }
        let mut with_slash = sub_chars(&trimmed, 0, trimmed.len());
        with_slash.push('/');
        assert(with_slash@ =~= trimmed@.push('/'));
        chars_eq(&nf, &trimmed) || has_prefix_exec(&nf, &with_slash)
    } else {
        let exact = trim_end_seq_exec(&np, &slash);
        chars_eq(&nf, &exact)
    }
}

/// The part of a preserve declaration that names the file or directory.
pub open spec fn preserve_core(p: Seq<char>) -> Seq<char> {
    trim_end_seq(trim_end_seq(trim_end_seq(p, seq!['/']), "/**"@), "/*"@)
}

/// The old and new declarations, in order, with `\` turned into `/`.
pub open spec fn all_slashed(old: Seq<Seq<char>>, new: Seq<Seq<char>>) -> Seq<Seq<char>> {
    (old + new).map_values(|p: Seq<char>| slashed(p))
}

/// Union of the old and new preserve declarations, normalized and without
/// repetitions (first occurrence kept); `config.json` is always preserved.
pub open spec fn union_preserve(old: Seq<Seq<char>>, new: Seq<Seq<char>>) -> Seq<Seq<char>> {
    let d = dedup(all_slashed(old, new));
    if exists|i: int| 0 <= i < d.len() && preserve_core(d[i]) == "config.json"@ {
        d
    } else {
        d.push("config.json"@)
    }
}

/// An update always preserves the plugin's `config.json`, and no
/// declaration is kept twice.
pub proof fn lemma_union_preserves_config(old: Seq<Seq<char>>, new: Seq<Seq<char>>)
    ensures
        exists|i: int|
            0 <= i < union_preserve(old, new).len() && preserve_core(
                #[trigger] union_preserve(old, new)[i],
            ) == "config.json"@,
{
    let d = dedup(all_slashed(old, new));
    let u = union_preserve(old, new);
    if exists|i: int| 0 <= i < d.len() && preserve_core(d[i]) == "config.json"@ {
        let i = choose|i: int| 0 <= i < d.len() && preserve_core(d[i]) == "config.json"@;
        assert(u[i] == d[i]);
    } else {
        let c = "config.json"@;
        reveal_strlit("config.json");
        assert(c.last() == 'n');
        assert(!has_suffix(c, seq!['/'])) by {
            assert(c.skip(c.len() - 1)[0] == 'n');
        }
        assert(trim_end_seq(c, seq!['/']) == c);
        assert(!has_suffix(c, "/**"@)) by {
            reveal_strlit("/**");
            assert(c.skip(c.len() - 3)[2] == 'n');
        }
        assert(trim_end_seq(c, "/**"@) == c);
        assert(!has_suffix(c, "/*"@)) by {
            reveal_strlit("/*");
            assert(c.skip(c.len() - 2)[1] == 'n');
        }
        assert(trim_end_seq(c, "/*"@) == c);
        assert(u == d.push(c));
        assert(u[d.len() as int] == c);
        assert(preserve_core(u[d.len() as int]) == c);
    }
}

/// Merges the preserve declarations of the installed and the new version.
pub fn union_preserve_paths(old: &Vec<String>, new: &Vec<String>) -> (out: Vec<String>)
    ensures
        views(out@) == union_preserve(views(old@), views(new@)),
{
    let ghost all = all_slashed(views(old@), views(new@));
    let mut out: Vec<String> = Vec::new();
    assert(all.take(0) =~= Seq::<Seq<char>>::empty());
    let mut i: usize = 0;
    while i < old.len()
        invariant
            i <= old.len(),
            all == all_slashed(views(old@), views(new@)),
            views(out@) == dedup(all.take(i as int)),
        decreases old.len() - i,
    {
        let p = &old[i];
        assert(all[i as int] == slashed(p@));
        let norm = normalize_preserve_path(p.as_str());
        assert(all.take(i + 1).drop_last() =~= all.take(i as int));
        assert(all.take(i + 1).last() == norm@);
        if !contains_string(&out, &norm) {
            out.push(norm);
            assert(views(out@) =~= dedup(all.take(i as int)).push(all[i as int]));
        }
        i = i + 1;
    }
    let mut j: usize = 0;
    while j < new.len()
        invariant
            j <= new.len(),
            all == all_slashed(views(old@), views(new@)),
            views(out@) == dedup(all.take(old.len() + j)),
        decreases new.len() - j,
    {
        let p = &new[j];
        let ghost at: int = old.len() + j;
        assert(all[at] == slashed(p@));
        let norm = normalize_preserve_path(p.as_str());
        assert(all.take(at + 1).drop_last() =~= all.take(at));
        assert(all.take(at + 1).last() == norm@);
        if !contains_string(&out, &norm) {
            out.push(norm);
            assert(views(out@) =~= dedup(all.take(at)).push(all[at]));
        }
        j = j + 1;
    }
    let ghost n: int = old.len() + new.len();
    assert(all.take(n) =~= all);
    let ghost d = views(out@);
    let slash = chars_of("/");
    proof {
        reveal_strlit("/");
        assert(slash@ =~= seq!['/']);
    }
    let cfg = chars_of("config.json");
    let pat2 = chars_of("/**");
    let pat3 = chars_of("/*");
    proof {
        reveal_strlit("/**");
        reveal_strlit("/*");
    }
    let mut found = false;
    let mut j: usize = 0;
    while j < out.len()
        invariant
            j <= out.len(),
            d == views(out@),
            slash@ == seq!['/'],
            cfg@ == "config.json"@,
            pat2@ == "/**"@,
            pat3@ == "/*"@,
            pat2@.len() > 0,
            pat3@.len() > 0,
            found <==> exists|k: int| 0 <= k < j && preserve_core(d[k]) == "config.json"@,
        decreases out.len() - j,
    {
        let cs = chars_of(out[j].as_str());
        let a = trim_end_seq_exec(&cs, &slash);
        let b = trim_end_seq_exec(&a, &pat2);
        let c = trim_end_seq_exec(&b, &pat3);
        assert(d[j as int] == out@[j as int]@);
        if chars_eq(&c, &cfg) {
            found = true;
        }
        j = j + 1;
    }
    if !found {
        out.push(String::from_str("config.json"));
    }
    assert(views(out@) =~= union_preserve(views(old@), views(new@)));
    out
}

/// Whether a file found in the installed plugin directory is restored after
/// an update: files the user created (not shipped by the previous install;
/// for a legacy install without manifest, not shipped by the new version)
/// and files covered by a preserve declaration.
pub open spec fn restorable(
    file: Seq<char>,
    old_shipped: Option<Seq<Seq<char>>>,
    new_shipped: Seq<Seq<char>>,
    globs: Seq<Seq<char>>,
) -> bool {
    let user_file = match old_shipped {
        None => !new_shipped.contains(file),
        Some(old) => !old.contains(file),
    };
    user_file || exists|g: int| 0 <= g < globs.len() && preserve_matches(globs[g], file)
}

/// The files of `backup` to restore after an update, each once, in order of
/// first appearance.
pub open spec fn restore_list(
    backup: Seq<Seq<char>>,
    old_shipped: Option<Seq<Seq<char>>>,
    new_shipped: Seq<Seq<char>>,
    globs: Seq<Seq<char>>,
) -> Seq<Seq<char>>
    decreases backup.len(),
{
    if backup.len() == 0 {
        Seq::empty()
    } else {
        let r = restore_list(backup.drop_last(), old_shipped, new_shipped, globs);
        let f = backup.last();
        if restorable(f, old_shipped, new_shipped, globs) && !r.contains(f) {
            r.push(f)
        } else {
            r
        }
    }
}

/// Membership in the restore list, by induction over the backup.
proof fn lemma_restore_list_contains(
    backup: Seq<Seq<char>>,
    old_shipped: Option<Seq<Seq<char>>>,
    new_shipped: Seq<Seq<char>>,
    globs: Seq<Seq<char>>,
    f: Seq<char>,
)
    ensures
        restore_list(backup, old_shipped, new_shipped, globs).contains(f) <==> (backup.contains(f)
            && restorable(f, old_shipped, new_shipped, globs)),
    decreases backup.len(),
{
    if backup.len() > 0 {
        let prev = backup.drop_last();
        lemma_restore_list_contains(prev, old_shipped, new_shipped, globs, f);
        let r = restore_list(prev, old_shipped, new_shipped, globs);
        let x = backup.last();
        if backup.contains(f) && !prev.contains(f) {
            let k = choose|k: int| 0 <= k < backup.len() && backup[k] == f;
            if k < backup.len() - 1 {
                assert(prev[k] == f);
            }
            assert(x == f);
        }
        if prev.contains(f) {
            let k = choose|k: int| 0 <= k < prev.len() && prev[k] == f;
            assert(backup[k] == f);
        }
        if restorable(x, old_shipped, new_shipped, globs) && !r.contains(x) {
            let r2 = r.push(x);
            if r.contains(f) {
                let k = choose|k: int| 0 <= k < r.len() && r[k] == f;
                assert(r2[k] == f);
            }
            if r2.contains(f) && !r.contains(f) {
                let k = choose|k: int| 0 <= k < r2.len() && r2[k] == f;
                if k < r.len() {
                    assert(r[k] == f);
                }
            }
            if x == f {
                assert(r2[r.len() as int] == f);
            }
        }
        if x == f {
            assert(backup[backup.len() - 1] == f);
        }
    }
}

/// A legacy install (one without a shipped list) keeps every backed-up file
/// that the new version does not ship — such a file can only be the user's —
/// while a file that the new version ships is restored only when a preserve
/// declaration covers it, so the new version's copy is not overwritten.
pub proof fn lemma_legacy_update_restores_user_files(
    backup: Seq<Seq<char>>,
    new_shipped: Seq<Seq<char>>,
    globs: Seq<Seq<char>>,
    f: Seq<char>,
)
    ensures
        backup.contains(f) && !new_shipped.contains(f) ==> restore_list(
            backup,
            None,
            new_shipped,
            globs,
        ).contains(f),
        new_shipped.contains(f) && (forall|g: int|
            0 <= g < globs.len() ==> !preserve_matches(globs[g], f)) ==> !restore_list(
            backup,
            None,
            new_shipped,
            globs,
        ).contains(f),
{
    lemma_restore_list_contains(backup, None, new_shipped, globs, f);
}

/// With the installed version's shipped list, every backed-up file not on
/// that list (created by the user) is restored, and a file that was on it is
/// restored only when a preserve declaration covers it.
pub proof fn lemma_update_restores_unshipped_files(
    backup: Seq<Seq<char>>,
    old_shipped: Seq<Seq<char>>,
    new_shipped: Seq<Seq<char>>,
    globs: Seq<Seq<char>>,
    f: Seq<char>,
)
    ensures
        backup.contains(f) && !old_shipped.contains(f) ==> restore_list(
            backup,
            Some(old_shipped),
            new_shipped,
            globs,
        ).contains(f),
        old_shipped.contains(f) && (forall|g: int|
            0 <= g < globs.len() ==> !preserve_matches(globs[g], f)) ==> !restore_list(
            backup,
            Some(old_shipped),
            new_shipped,
            globs,
        ).contains(f),
{
    lemma_restore_list_contains(backup, Some(old_shipped), new_shipped, globs, f);
}

/// A backed-up file that a preserve declaration covers is always restored,
/// and only backed-up files are ever restored.
pub proof fn lemma_preserved_files_restored(
    backup: Seq<Seq<char>>,
    old_shipped: Option<Seq<Seq<char>>>,
    new_shipped: Seq<Seq<char>>,
    globs: Seq<Seq<char>>,
    f: Seq<char>,
    g: int,
)
    ensures
        backup.contains(f) && 0 <= g < globs.len() && preserve_matches(globs[g], f)
            ==> restore_list(backup, old_shipped, new_shipped, globs).contains(f),
        restore_list(backup, old_shipped, new_shipped, globs).contains(f) ==> backup.contains(f),
{
    lemma_restore_list_contains(backup, old_shipped, new_shipped, globs, f);
}

/// No file is restored twice.
pub proof fn lemma_restore_list_no_duplicates(
    backup: Seq<Seq<char>>,
    old_shipped: Option<Seq<Seq<char>>>,
    new_shipped: Seq<Seq<char>>,
    globs: Seq<Seq<char>>,
)
    ensures
        ({
            let r = restore_list(backup, old_shipped, new_shipped, globs);
            forall|i: int, j: int| 0 <= i < j < r.len() ==> r[i] != r[j]
        }),
    decreases backup.len(),
{
    if backup.len() > 0 {
        lemma_restore_list_no_duplicates(backup.drop_last(), old_shipped, new_shipped, globs);
        let r = restore_list(backup.drop_last(), old_shipped, new_shipped, globs);
        let x = backup.last();
        if restorable(x, old_shipped, new_shipped, globs) && !r.contains(x) {
            let r2 = r.push(x);
            assert forall|i: int, j: int| 0 <= i < j < r2.len() implies r2[i] != r2[j] by {
                if j == r.len() {
                    assert(r2[i] == r[i]);
                    if r[i] == x {
                        assert(r.contains(x));
                    }
                } else {
                    assert(r2[i] == r[i] && r2[j] == r[j]);
                }
            }
        }
    }
}

/// `old_shipped` by views.
pub open spec fn shipped_views(old_shipped: Option<&Vec<String>>) -> Option<Seq<Seq<char>>> {
    match old_shipped {
        Some(v) => Some(views(v@)),
        None => None,
    }
}

/// Selects which files of the backed-up plugin directory are copied back
/// after the new version replaced it.
pub fn select_restore_files(
    backup_files: &Vec<String>,
    old_shipped: Option<&Vec<String>>,
    new_shipped: &Vec<String>,
    preserve_globs: &Vec<String>,
) -> (r: Vec<String>)
    ensures
        views(r@) == restore_list(
            views(backup_files@),
            shipped_views(old_shipped),
            views(new_shipped@),
            views(preserve_globs@),
        ),
{
    let ghost b = views(backup_files@);
    let ghost os = shipped_views(old_shipped);
    let ghost ns = views(new_shipped@);
    let ghost gs = views(preserve_globs@);
    let mut r: Vec<String> = Vec::new();
    let mut i: usize = 0;
    while i < backup_files.len()
        invariant
            i <= backup_files.len(),
            b == views(backup_files@),
            os == shipped_views(old_shipped),
            ns == views(new_shipped@),
            gs == views(preserve_globs@),
            views(r@) == restore_list(b.take(i as int), os, ns, gs),
        decreases backup_files.len() - i,
    {
        let f = &backup_files[i];
        assert(b.take(i + 1).drop_last() =~= b.take(i as int));
        assert(b.take(i + 1).last() == f@);
        let user_file = match old_shipped {
            None => !contains_string(new_shipped, f),
            Some(old) => !contains_string(old, f),
        };
        let mut keep = user_file;
        if !keep {
            let mut g: usize = 0;
            while g < preserve_globs.len()
                invariant
                    g <= preserve_globs.len(),
                    gs == views(preserve_globs@),
                    !keep ==> forall|k: int| 0 <= k < g ==> !preserve_matches(gs[k], f@),
                    keep ==> exists|k: int| 0 <= k < gs.len() && preserve_matches(gs[k], f@),
                decreases preserve_globs.len() - g,
            {
                assert(gs[g as int] == preserve_globs@[g as int]@);
                if is_preserve_match(preserve_globs[g].as_str(), f.as_str()) {
                    keep = true;
                }
                g = g + 1;
            }
        }
        assert(keep == restorable(f@, os, ns, gs));
        if keep && !contains_string(&r, f) {
            r.push(f.clone());
            assert(views(r@) =~= restore_list(b.take(i as int), os, ns, gs).push(f@));
        }
        i = i + 1;
    }
    assert(b.take(backup_files.len() as int) =~= b);
    r
}

} // verus!
