//! File-manager rules: local names for files opened with the system
//! application, protected system directories, folder-upload progress and
//! name collisions between a local folder and the remote target.
use vstd::prelude::*;

use crate::error::AppError;
use crate::text::{
    chars_eq, chars_of, contains_string, has_prefix, has_prefix_exec, has_suffix,
    insert_sorted, is_control_char, is_control_exec, lemma_last_index_of,
    lemma_utf8_len_prefix_mono, lemma_utf8_len_push,
    lemma_utf8_truncate_prefix, last_index_of, split_char, split_char_exec, string_from_chars,
    strictly_sorted, sub_chars, trim, trim_end_seq, trim_end_seq_exec, trim_exec, utf8_len,
    contains_exec, contains_seq, join_exec, join_with, str_eq,
    utf8_truncate, utf8_width_exec, vec_views, views, append_chars, nat_decimal, u64_decimal,
};

verus! {

/// Size cap of an image downloaded for preview.
pub const MAX_PREVIEW_IMAGE_BYTES: u64 = 52428800;

/// Name of the temporary directory that holds preview images.
pub const PREVIEW_TEMP_DIR_PREFIX: &'static str = "marcel-previews";

/// Name of the temporary directory that holds files opened with the system
/// application.
pub const SYSOPEN_TEMP_DIR_PREFIX: &'static str = "marcel-sysopen";

/// Byte budget of a local file name created for "open with system
/// application" (below the common 255-byte limit, with room for editor
/// temporary suffixes).
pub const SYSOPEN_LOCAL_FILENAME_MAX_BYTES: usize = 240;

/// One entry of a remote directory listing.
#[derive(Debug, Clone, PartialEq, Eq)]
pub struct FileEntry {
    pub name: String,
    pub is_dir: bool,
    pub is_file: bool,
    pub is_symlink: bool,
    pub size: u64,
    pub mode: u32,
}

/// Content of a remote text file opened in the editor.
#[derive(Debug, Clone, PartialEq, Eq)]
pub struct ReadFileResult {
    pub content: String,
    pub mtime: u64,
}

/// Local copy of a remote image for preview.
#[derive(Debug, Clone, PartialEq, Eq)]
pub struct PreviewImageResult {
    pub local_path: String,
}

// ───────────────────────── local names ─────────────────────────

/// `value` cut to at most `max_bytes` bytes of UTF-8 without splitting a
/// character.
pub fn truncate_utf8(value: &str, max_bytes: usize) -> (r: &str)
    ensures
        r@ == utf8_truncate(value@, max_bytes as nat),
        utf8_len(r@) <= max_bytes,
{
    let cs = chars_of(value);
    let mut k: usize = 0;
    let mut used: usize = 0;
    while k < cs.len() && utf8_width_exec(cs[k]) <= max_bytes - used
        invariant
            k <= cs.len(),
            used <= max_bytes,
            used == utf8_len(cs@.take(k as int)),
        decreases cs.len() - k,
    {
        proof {
            assert(cs@.take(k + 1) =~= cs@.take(k as int).push(cs@[k as int]));
            lemma_utf8_len_push(cs@.take(k as int), cs@[k as int]);
        }
        used = used + utf8_width_exec(cs[k]);
        k = k + 1;
    }
    proof {
        if k < cs.len() {
            assert(cs@.take(k + 1) =~= cs@.take(k as int).push(cs@[k as int]));
            lemma_utf8_len_push(cs@.take(k as int), cs@[k as int]);
        }
        lemma_utf8_truncate_prefix(cs@, max_bytes as nat, k as int, cs@.len() as int);
        assert(cs@.take(cs@.len() as int) =~= cs@);
    }
    value.substring_char(0, k)
}

/// A character that cannot stand in a local file name.
pub open spec fn is_forbidden_name_char(c: char) -> bool {
    is_control_char(c) || c == '<' || c == '>' || c == ':' || c == '"' || c == '/' || c == '\\'
        || c == '|' || c == '?' || c == '*'
}

/// `s.trim_end_matches(['.', ' '])`.
pub open spec fn trim_end_dot_space(s: Seq<char>) -> Seq<char>
    decreases s.len(),
{
    if s.len() > 0 && (s.last() == '.' || s.last() == ' ') {
        trim_end_dot_space(s.drop_last())
    } else {
        s
    }
}

/// A file-name component made safe for the local file system: forbidden
/// characters become `_`, surrounding white space and trailing dots and
/// spaces go; an empty result becomes `fallback`.
pub open spec fn sanitized_component(value: Seq<char>, fallback: Seq<char>) -> Seq<char> {
    let mapped = value.map_values(|c: char| if is_forbidden_name_char(c) { '_' } else { c });
    let t = trim_end_dot_space(trim(mapped));
    if t.len() == 0 {
        fallback
    } else {
        t
    }
}

fn trim_end_dot_space_exec(s: &[char]) -> (r: Vec<char>)
    ensures
        r@ == trim_end_dot_space(s@),
{
    let mut k: usize = s.len();
    assert(s@.take(s@.len() as int) =~= s@);
    while k > 0 && (s[k - 1] == '.' || s[k - 1] == ' ')
        invariant
            k <= s.len(),
            trim_end_dot_space(s@.take(k as int)) == trim_end_dot_space(s@),
        decreases k,
    {
        assert(s@.take(k as int).drop_last() =~= s@.take(k - 1));
        k = k - 1;
    }
    sub_chars(s, 0, k)
}

/// Makes one component of a local file name safe (see
/// [`sanitized_component`]).
pub fn sanitize_sysopen_component(value: &str, fallback: &str) -> (r: String)
    ensures
        r@ == sanitized_component(value@, fallback@),
{
    let cs = chars_of(value);
    let mut mapped: Vec<char> = Vec::new();
    let mut i: usize = 0;
    while i < cs.len()
        invariant
            i <= cs.len(),
            cs@ == value@,
            mapped@ == cs@.take(i as int).map_values(
                |c: char| if is_forbidden_name_char(c) { '_' } else { c },
            ),
        decreases cs.len() - i,
    {
        let c = cs[i];
        let bad = is_control_exec(c) || c == '<' || c == '>' || c == ':' || c == '"' || c == '/'
            || c == '\\' || c == '|' || c == '?' || c == '*';
        mapped.push(if bad { '_' } else { c });
        assert(cs@.take(i + 1) =~= cs@.take(i as int).push(c));
        assert(mapped@ =~= cs@.take(i + 1).map_values(
            |c: char| if is_forbidden_name_char(c) { '_' } else { c },
        ));
        i = i + 1;
    }
    assert(cs@.take(cs@.len() as int) =~= cs@);
    let t = trim_end_dot_space_exec(&trim_exec(&mapped));
    if t.len() == 0 {
        String::from_str(fallback)
    } else {
        string_from_chars(&t)
    }
}

/// `Path::file_name` for `/`-separated paths: the last component that is
/// neither empty nor `.`, unless that is `..` or there is none.
pub open spec fn normal_components(segs: Seq<Seq<char>>) -> Seq<Seq<char>>
    decreases segs.len(),
{
    if segs.len() == 0 {
        Seq::empty()
    } else {
        let prev = normal_components(segs.drop_last());
        let s = segs.last();
        if s.len() == 0 || s == "."@ {
            prev
        } else {
            prev.push(s)
        }
    }
}

/// `Path::new(p).file_name()` on a `/`-separated path.
pub open spec fn path_file_name(p: Seq<char>) -> Option<Seq<char>> {
    let comps = normal_components(split_char(p, '/'));
    if comps.len() == 0 || comps.last() == ".."@ {
        None
    } else {
        Some(comps.last())
    }
}

/// The stem and extension used for the local copy: those of the file name
/// when it has a non-empty stem and an extension, otherwise the whole
/// remote name without extension.
pub open spec fn stem_and_extension(remote: Seq<char>) -> (Seq<char>, Option<Seq<char>>) {
    match path_file_name(remote) {
        Some(n) => {
            let d = last_index_of(n, '.');
            if d >= 1 {
                (n.take(d), Some(n.skip(d + 1)))
            } else {
                (remote, None)
            }
        },
        None => (remote, None),
    }
}

/// The file name of `<dir>/<name>`, and of a bare `<name>`, is `name`,
/// for a name that is neither empty, `.` nor `..` and holds no `/`.
proof fn lemma_file_name_of(dir: Seq<char>, name: Seq<char>)
    requires
        name.len() > 0,
        name != "."@,
        name != ".."@,
        forall|j: int| 0 <= j < name.len() ==> name[j] != '/',
    ensures
        path_file_name(dir.push('/') + name) == Some(name),
        path_file_name(name) == Some(name),
{
    crate::text::lemma_split_free(name, '/');
    assert(normal_components(seq![name]) == normal_components(seq![name].drop_last()).push(name));
    assert(seq![name].drop_last() =~= Seq::<Seq<char>>::empty());
    let d = dir.push('/');
    crate::text::lemma_split_nonempty(dir, '/');
    assert(d.drop_last() =~= dir);
    let pd = split_char(d, '/');
    assert(pd == split_char(dir, '/').push(Seq::<char>::empty()));
    crate::text::lemma_split_append_free(d, name, '/');
    let segs = split_char(d + name, '/');
    assert(pd.last() + name =~= name);
    assert(segs =~= split_char(dir, '/').push(name));
    assert(segs.drop_last() =~= split_char(dir, '/'));
    assert(segs.last() == name);
}

/// The last `.` of `<stem>.<ext>` is the one before `ext` when `ext` holds
/// no `.`.
proof fn lemma_last_dot(stem: Seq<char>, ext: Seq<char>)
    requires
        forall|j: int| 0 <= j < ext.len() ==> ext[j] != '.',
    ensures
        last_index_of(stem.push('.') + ext, '.') == stem.len(),
{
    let n = stem.push('.') + ext;
    lemma_last_index_of(n, '.');
    let r = last_index_of(n, '.');
    assert(n[stem.len() as int] == '.');
    if r > stem.len() {
        assert(n[r] == ext[r - stem.len() - 1]);
    }
}

/// A resource named `<stem>.<ext>` — bare or below a directory — has stem
/// `stem` and extension `ext`, when the stem is non-empty and holds no `/`
/// and the extension is non-empty and holds neither `/` nor `.`: the
/// extension is what follows the last `.` of the file name.
pub proof fn lemma_named_extension(dir: Seq<char>, stem: Seq<char>, ext: Seq<char>)
    requires
        stem.len() > 0,
        ext.len() > 0,
        forall|j: int| 0 <= j < stem.len() ==> stem[j] != '/',
        forall|j: int| 0 <= j < ext.len() ==> ext[j] != '/' && ext[j] != '.',
    ensures
        stem_and_extension(dir.push('/') + (stem.push('.') + ext)) == (stem, Some(ext)),
        stem_and_extension(stem.push('.') + ext) == (stem, Some(ext)),
{
    let name = stem.push('.') + ext;
    assert forall|j: int| 0 <= j < name.len() implies name[j] != '/' by {
        if j > stem.len() {
            assert(name[j] == ext[j - stem.len() - 1]);
        } else if j < stem.len() {
            assert(name[j] == stem[j]);
        }
    }
    reveal_strlit(".");
    reveal_strlit("..");
    assert(name.len() >= 3);
    assert(name != "."@);
    assert(name != ".."@);
    lemma_file_name_of(dir, name);
    lemma_last_dot(stem, ext);
    assert(name.take(stem.len() as int) =~= stem);
    assert(name.skip(stem.len() + 1int) =~= ext);
}

/// The local file name for a remote file opened with the system
/// application: `<stem>-<connection><.ext>`, each part sanitized, the
/// connection name cut to at most 80 bytes and the stem to what remains of
/// the byte budget; the extension is kept whole.
pub open spec fn sysopen_name(remote: Seq<char>, connection: Seq<char>) -> Result<
    Seq<char>,
    Seq<char>,
> {
    let (stem0, ext) = stem_and_extension(remote);
    let stem1 = sanitized_component(stem0, "file"@);
    let conn1 = sanitized_component(connection, "connection"@);
    let suffix = match ext {
        Some(e) => seq!['.'] + sanitized_component(e, "file"@),
        None => Seq::<char>::empty(),
    };
    let fixed = utf8_len(suffix) + 2;
    if fixed >= SYSOPEN_LOCAL_FILENAME_MAX_BYTES {
        Err("远端文件扩展名过长，无法创建用于系统打开的本地副本"@)
    } else {
        let budget = SYSOPEN_LOCAL_FILENAME_MAX_BYTES - fixed;
        let conn = utf8_truncate(conn1, if budget < 80 { budget as nat } else { 80 });
        let used = utf8_len(suffix) + utf8_len(conn) + 1;
        let stem_budget = if used >= SYSOPEN_LOCAL_FILENAME_MAX_BYTES {
            0
        } else {
            (SYSOPEN_LOCAL_FILENAME_MAX_BYTES - used) as nat
        };
        let stem = utf8_truncate(stem1, stem_budget);
        Ok(stem + seq!['-'] + conn + suffix)
    }
}

/// A local name for a system-opened file fits the byte budget of a file
/// name component, keeps the remote file's extension at its end, and
/// separates stem and connection name with `-`.
pub proof fn lemma_sysopen_name_fits(remote: Seq<char>, connection: Seq<char>)
    requires
        sysopen_name(remote, connection) is Ok,
    ensures
        ({
            let n = sysopen_name(remote, connection)->Ok_0;
            &&& utf8_len(n) <= SYSOPEN_LOCAL_FILENAME_MAX_BYTES
            &&& n.contains('-')
            &&& match stem_and_extension(remote).1 {
                Some(e) => has_suffix(n, seq!['.'] + sanitized_component(e, "file"@)),
                None => true,
            }
        }),
{
    let (stem0, ext) = stem_and_extension(remote);
    let stem1 = sanitized_component(stem0, "file"@);
    let conn1 = sanitized_component(connection, "connection"@);
    let suffix = match ext {
        Some(e) => seq!['.'] + sanitized_component(e, "file"@),
        None => Seq::<char>::empty(),
    };
    let fixed = utf8_len(suffix) + 2;
    let budget = (SYSOPEN_LOCAL_FILENAME_MAX_BYTES - fixed) as nat;
    let cb: nat = if budget < 80 { budget } else { 80 };
    let conn = utf8_truncate(conn1, cb);
    let used = utf8_len(suffix) + utf8_len(conn) + 1;
    let stem_budget: nat = if used >= SYSOPEN_LOCAL_FILENAME_MAX_BYTES {
        0
    } else {
        (SYSOPEN_LOCAL_FILENAME_MAX_BYTES - used) as nat
    };
    let stem = utf8_truncate(stem1, stem_budget);
    let n = stem + seq!['-'] + conn + suffix;
    assert(sysopen_name(remote, connection)->Ok_0 == n);
    crate::text::lemma_utf8_truncate_fits(conn1, cb);
    crate::text::lemma_utf8_truncate_fits(stem1, stem_budget);
    crate::text::lemma_utf8_len_concat(stem, seq!['-']);
    crate::text::lemma_utf8_len_concat(stem + seq!['-'], conn);
    crate::text::lemma_utf8_len_concat(stem + seq!['-'] + conn, suffix);
    assert(utf8_len(seq!['-']) == 1) by {
        assert(seq!['-'].drop_last() =~= Seq::<char>::empty());
    }
    assert(n[stem.len() as int] == '-');
    assert(n.skip(n.len() - suffix.len()) =~= suffix);
}

fn normal_components_exec(segs: &Vec<Vec<char>>) -> (r: Vec<Vec<char>>)
    ensures
        vec_views(r@) == normal_components(vec_views(segs@)),
{
    let ghost sv = vec_views(segs@);
    let dot = chars_of(".");
    proof {
        reveal_strlit(".");
    }
    let mut r: Vec<Vec<char>> = Vec::new();
    let mut i: usize = 0;
    assert(sv.take(0) =~= Seq::<Seq<char>>::empty());
    assert(vec_views(r@) =~= Seq::<Seq<char>>::empty());
    while i < segs.len()
        invariant
            i <= segs.len(),
            sv == vec_views(segs@),
            dot@ == "."@,
            vec_views(r@) == normal_components(sv.take(i as int)),
        decreases segs.len() - i,
    {
        assert(sv.take(i + 1).drop_last() =~= sv.take(i as int));
        assert(sv.take(i + 1).last() == segs@[i as int]@);
        if !(segs[i].len() == 0 || chars_eq(&segs[i], &dot)) {
            let piece = sub_chars(&segs[i], 0, segs[i].len());
            assert(piece@ =~= segs@[i as int]@);
            r.push(piece);
            assert(vec_views(r@) =~= normal_components(sv.take(i as int)).push(segs@[i as int]@));
        }
        i = i + 1;
    }
    assert(sv.take(segs.len() as int) =~= sv);
    r
}

/// One past the last occurrence of `c` in `s` (0 when there is none).
fn last_index_after(s: &[char], c: char) -> (k: usize)
    ensures
        k <= s.len(),
        k as int == last_index_of(s@, c) + 1,
{
    let mut k: usize = s.len();
    assert(s@.take(s@.len() as int) =~= s@);
    while k > 0 && s[k - 1] != c
        invariant
            k <= s.len(),
            last_index_of(s@.take(k as int), c) == last_index_of(s@, c),
        decreases k,
    {
        assert(s@.take(k as int).drop_last() =~= s@.take(k - 1));
        k = k - 1;
    }
    proof {
        if k > 0 {
            assert(s@.take(k as int).last() == c);
        } else {
            assert(s@.take(0) =~= Seq::<char>::empty());
        }
    }
    k
}

/// `(stem, extension)` as [`stem_and_extension`] gives them.
pub(crate) fn split_stem_and_extension(remote: &str) -> (r: (Vec<char>, Option<Vec<char>>))
    ensures
        r.0@ == stem_and_extension(remote@).0,
        match r.1 {
            Some(e) => stem_and_extension(remote@).1 == Some(e@),
            None => stem_and_extension(remote@).1 is None,
        },
{
    let cs = chars_of(remote);
    let segs = split_char_exec(&cs, '/');
    let comps = normal_components_exec(&segs);
    let dotdot = chars_of("..");
    proof {
        reveal_strlit("..");
    }
    if comps.len() == 0 {
        return (cs, None);
    }
    let name = &comps[comps.len() - 1];
    assert(vec_views(comps@).last() == name@);
    if chars_eq(name, &dotdot) {
        return (cs, None);
    }
    let k = last_index_after(name, '.');
    if k >= 2 {
        let du = k - 1;
        proof {
            lemma_last_index_of(name@, '.');
        }
        (sub_chars(name, 0, du), Some(sub_chars(name, du + 1, name.len())))
    } else {
        (cs, None)
    }
}

/// Builds the local-only file name for a remote file opened with the
/// system application; the extension is preserved so that the operating
/// system picks the right application.
pub fn sysopen_local_filename(remote_basename: &str, connection_name: &str) -> (r: Result<
    String,
    AppError,
>)
    ensures
        match sysopen_name(remote_basename@, connection_name@) {
            Ok(n) => r matches Ok(s) && s@ == n,
            Err(m) => r matches Err(AppError::Ssh(e)) && e@ == m,
        },
{
    let (stem0, ext) = split_stem_and_extension(remote_basename);
    let stem0s = string_from_chars(&stem0);
    let stem1 = sanitize_sysopen_component(stem0s.as_str(), "file");
    let conn1 = sanitize_sysopen_component(connection_name, "connection");
    let mut suffix = String::new();
    match &ext {
        Some(e) => {
            push_dot(&mut suffix);
            let es = string_from_chars(e);
            let clean = sanitize_sysopen_component(es.as_str(), "file");
            suffix.append(clean.as_str());
        },
        None => {},
    }
    assert(suffix@ =~= match stem_and_extension(remote_basename@).1 {
        Some(e) => seq!['.'] + sanitized_component(e, "file"@),
        None => Seq::<char>::empty(),
    });
    let suffix_len = utf8_len_upto(suffix.as_str(), SYSOPEN_LOCAL_FILENAME_MAX_BYTES);
    if suffix_len >= SYSOPEN_LOCAL_FILENAME_MAX_BYTES - 2 {
        return Err(AppError::Ssh(String::from_str("远端文件扩展名过长，无法创建用于系统打开的本地副本")));
    }
    let fixed = suffix_len + 2;
    let budget = SYSOPEN_LOCAL_FILENAME_MAX_BYTES - fixed;
    let conn_budget = if budget < 80 {
        budget
    } else {
        80
    };
    let conn = truncate_utf8(conn1.as_str(), conn_budget);
    let conn_len = utf8_len_upto(conn, SYSOPEN_LOCAL_FILENAME_MAX_BYTES);
    let used = suffix_len + conn_len + 1;
    let stem_budget = if used >= SYSOPEN_LOCAL_FILENAME_MAX_BYTES {
        0
    } else {
        SYSOPEN_LOCAL_FILENAME_MAX_BYTES - used
    };
    let stem = truncate_utf8(stem1.as_str(), stem_budget);
    let mut out = String::from_str(stem);
    out.append("-");
    out.append(conn);
    out.append(suffix.as_str());
    proof {
        reveal_strlit("-");
        assert("-"@ =~= seq!['-']);
    }
    Ok(out)
}

fn push_dot(s: &mut String)
    ensures
        final(s)@ == old(s)@ + seq!['.'],
{
    s.append(".");
    proof {
        reveal_strlit(".");
        assert("."@ =~= seq!['.']);
    }
}

/// `str::len` (bytes of the UTF-8 encoding) when it is at most `cap`;
/// otherwise some number above `cap`.
fn utf8_len_upto(s: &str, cap: usize) -> (n: usize)
    requires
        cap <= 4096,
    ensures
        n <= cap ==> n == utf8_len(s@),
        n > cap ==> utf8_len(s@) > cap,
{
    let cs = chars_of(s);
    let mut n: usize = 0;
    let mut i: usize = 0;
    assert(cs@.take(0) =~= Seq::<char>::empty());
    while i < cs.len() && n <= cap
        invariant
            i <= cs.len(),
            cap <= 4096,
            n == utf8_len(cs@.take(i as int)),
            n <= cap + 4,
        decreases cs.len() - i,
    {
        proof {
            assert(cs@.take(i + 1) =~= cs@.take(i as int).push(cs@[i as int]));
            lemma_utf8_len_push(cs@.take(i as int), cs@[i as int]);
        }
        n = n + utf8_width_exec(cs[i]);
        i = i + 1;
    }
    proof {
        if i < cs.len() {
            crate::text::lemma_utf8_len_prefix_mono(cs@, i as int, cs@.len() as int);
        }
        assert(cs@.take(cs@.len() as int) =~= cs@);
    }
    n
}

// ───────────────────────── protected directories ─────────────────────────

/// System directories that may not be archived.
pub const SYSTEM_PATH_BLACKLIST: [&'static str; 19] = [
    "/",
    "/usr",
    "/usr/local",
    "/var",
    "/var/log",
    "/var/lib",
    "/var/lib/docker",
    "/proc",
    "/sys",
    "/dev",
    "/etc",
    "/bin",
    "/sbin",
    "/lib",
    "/lib64",
    "/boot",
    "/run",
    "/snap",
    "/opt",
];

/// Whether `path` (trailing `/` ignored) is the root, a blacklisted system
/// directory, or lies below one.
pub open spec fn system_path(path: Seq<char>) -> bool {
    let n = trim_end_seq(path, seq!['/']);
    n.len() == 0 || exists|i: int|
        0 <= i < 19 && (n == SYSTEM_PATH_BLACKLIST[i]@ || has_prefix(
            n,
            SYSTEM_PATH_BLACKLIST[i]@.push('/'),
        ))
}

/// Checks whether a path is a protected system directory (exact match or
/// below one).
pub fn is_system_path(path: &str) -> (r: bool)
    ensures
        r == system_path(path@),
{
    let slash = chars_of("/");
    proof {
        reveal_strlit("/");
        assert(slash@ =~= seq!['/']);
    }
    let n = trim_end_seq_exec(&chars_of(path), &slash);
    if n.len() == 0 {
        return true;
    }
    let mut i: usize = 0;
    while i < 19
        invariant
            i <= 19,
            n@ == trim_end_seq(path@, seq!['/']),
            forall|k: int|
                0 <= k < i ==> !(n@ == SYSTEM_PATH_BLACKLIST[k]@ || has_prefix(
                    n@,
                    SYSTEM_PATH_BLACKLIST[k]@.push('/'),
                )),
        decreases 19 - i,
    {
        let blocked = chars_of(SYSTEM_PATH_BLACKLIST[i]);
        let mut with_slash = sub_chars(&blocked, 0, blocked.len());
        with_slash.push('/');
        assert(with_slash@ =~= blocked@.push('/'));
        if chars_eq(&n, &blocked) || has_prefix_exec(&n, &with_slash) {
            return true;
        }
        i = i + 1;
    }
    false
}

// ───────────────────────── folder upload progress ─────────────────────────

/// Overall percentage of a folder upload: checking 5, zipping 5–35,
/// uploading 35–85, extracting 90, anything else 0. Within a phase the share
/// `min(written, total) / total` (0 when `total` is 0) is rounded half up.
pub open spec fn upload_percent(phase: Seq<char>, written: nat, total: nat) -> nat {
    let w = if written < total { written } else { total };
    let zipping = if total == 0 { 5 } else { 5 + (60 * w + total) / (2 * total) };
    let uploading = if total == 0 { 35 } else { 35 + (100 * w + total) / (2 * total) };
    if phase == "checking"@ {
        5
    } else if phase == "zipping"@ {
        zipping
    } else if phase == "uploading"@ {
        uploading
    } else if phase == "extracting"@ {
        90
    } else {
        0
    }
}

/// Maps a folder-upload phase and its byte progress to the overall percent.
pub fn folder_upload_percent(phase: &str, written: u64, total: u64) -> (p: u8)
    ensures
        p == upload_percent(phase@, written as nat, total as nat),
        p <= 90,
{
    let cs = chars_of(phase);
    let w: u64 = if written < total {
        written
    } else {
        total
    };
    if chars_eq(&cs, &chars_of("checking")) {
        5
    } else if chars_eq(&cs, &chars_of("zipping")) {
        if total == 0 {
            5
        } else {
            let q: u128 = (60 * (w as u128) + total as u128) / (2 * (total as u128));
            assert(q <= 30) by (nonlinear_arith)
                requires
                    q == (60 * (w as u128) + total as u128) / (2 * (total as u128)),
                    w <= total,
                    total > 0,
            ;
            (5 + q) as u8
        }
    } else if chars_eq(&cs, &chars_of("uploading")) {
        if total == 0 {
            35
        } else {
            let q: u128 = (100 * (w as u128) + total as u128) / (2 * (total as u128));
            assert(q <= 50) by (nonlinear_arith)
                requires
                    q == (100 * (w as u128) + total as u128) / (2 * (total as u128)),
                    w <= total,
                    total > 0,
            ;
            (35 + q) as u8
        }
    } else if chars_eq(&cs, &chars_of("extracting")) {
        90
    } else {
        0
    }
}

// ───────────────────────── name collisions ─────────────────────────

/// The names present both in `local_names` and `remote_names`, sorted
/// (in `String` order) and without repetitions.
pub fn find_name_collisions(local_names: &[String], remote_names: &[String]) -> (r: Vec<
    String,
>)
    ensures
        strictly_sorted(views(r@)),
        forall|x: Seq<char>|
            views(r@).contains(x) <==> (views(local_names@).contains(x) && views(
                remote_names@,
            ).contains(x)),
{
    let mut r: Vec<String> = Vec::new();
    let mut i: usize = 0;
    while i < local_names.len()
        invariant
            i <= local_names.len(),
            strictly_sorted(views(r@)),
            forall|x: Seq<char>|
                views(r@).contains(x) <==> (views(local_names@).take(i as int).contains(x)
                    && views(remote_names@).contains(x)),
        decreases local_names.len() - i,
    {
        let name = &local_names[i];
        let ghost lv = views(local_names@);
        assert(lv.take(i + 1) =~= lv.take(i as int).push(name@));
        if contains_string(remote_names, name) {
            insert_sorted(&mut r, name.clone());
        }
        proof {
            assert forall|x: Seq<char>|
                views(r@).contains(x) <==> (lv.take(i + 1).contains(x) && views(
                    remote_names@,
                ).contains(x)) by {
                crate::text::lemma_push_contains(lv.take(i as int), name@, x);
            }
        }
        i = i + 1;
    }
    assert(views(local_names@).take(local_names@.len() as int) =~= views(local_names@));
    r
}

// ───────────────────────── remote sidecar files ─────────────────────────

/// The hidden sibling of a remote file used while it is written: in the
/// file's directory, named `.<name>.marcel-<label>-<id>`; the path is read
/// without trailing `/`s and must name a file inside a directory.
pub open spec fn sidecar_path(path: Seq<char>, label: Seq<char>, id: Seq<char>) -> Result<
    Seq<char>,
    Seq<char>,
> {
    let norm = trim_end_seq(path, seq!['/']);
    let idx = last_index_of(norm, '/');
    if idx < 0 {
        Err("远程路径无效"@)
    } else {
        let parent = if idx == 0 {
            "/"@
        } else {
            norm.take(idx)
        };
        let name = norm.skip(idx + 1);
        if name.len() == 0 {
            Err("远程文件名不能为空"@)
        } else {
            let sidecar = "."@ + name + ".marcel-"@ + label + "-"@ + id;
            Ok(
                if parent == "/"@ {
                    "/"@ + sidecar
                } else {
                    parent + "/"@ + sidecar
                },
            )
        }
    }
}

/// The sidecar path of `path` with the given unique `id` (see
/// [`sidecar_path`]); a path that names no file is an SSH error.
pub fn sidecar_path_with_id(path: &str, label: &str, id: &str) -> (r: Result<String, AppError>)
    ensures
        match sidecar_path(path@, label@, id@) {
            Ok(p) => r matches Ok(q) && q@ == p,
            Err(m) => r matches Err(AppError::Ssh(e)) && e@ == m,
        },
{
    proof {
        reveal_strlit("/");
    }
    let cs = chars_of(path);
    let mut slash: Vec<char> = Vec::new();
    slash.push('/');
    let norm = trim_end_seq_exec(&cs, &slash);
    let k = last_index_after(&norm, '/');
    if k == 0 {
        return Err(AppError::Ssh(String::from_str("远程路径无效")));
    }
    let idx = k - 1;
    let name = sub_chars(&norm, idx + 1, norm.len());
    assert(name@ =~= norm@.skip(idx + 1));
    if name.len() == 0 {
        return Err(AppError::Ssh(String::from_str("远程文件名不能为空")));
    }
    let mut sidecar = String::from_str(".");
    let name_s = string_from_chars(&name);
    sidecar.append(name_s.as_str());
    sidecar.append(".marcel-");
    sidecar.append(label);
    sidecar.append("-");
    sidecar.append(id);
    let parent_is_root = idx == 0 || (idx == 1 && norm[0] == '/');
    proof {
        if idx != 0 {
            if norm@.take(idx as int) == "/"@ {
                assert(norm@.take(idx as int).len() == 1);
                assert(norm@.take(idx as int)[0] == norm@[0]);
            }
            if idx == 1 && norm@[0] == '/' {
                assert(norm@.take(idx as int) =~= "/"@);
            }
        }
    }
    if parent_is_root {
        let mut r = String::from_str("/");
        r.append(sidecar.as_str());
        Ok(r)
    } else {
        let parent = string_from_chars(&sub_chars(&norm, 0, idx));
        let mut r = parent;
        r.append("/");
        r.append(sidecar.as_str());
        Ok(r)
    }
}

/// Whether `c` is a lower-case hexadecimal digit.
pub open spec fn lower_hex_digit(c: char) -> bool {
    ('0' <= c && c <= '9') || ('a' <= c && c <= 'f')
}

/// The hyphenated lower-case text of a version-4 UUID: 36 characters,
/// `-` at positions 8, 13, 18 and 23, lower-case hexadecimal digits
/// elsewhere, and the version digit `4` at position 14.
pub open spec fn uuid_v4_text(s: Seq<char>) -> bool {
    &&& s.len() == 36
    &&& forall|i: int|
        0 <= i < 36 ==> if i == 8 || i == 13 || i == 18 || i == 23 {
            s[i] == '-'
        } else {
            lower_hex_digit(s[i])
        }
    &&& s[14] == '4'
}

/// `uuid::Uuid::new_v4().to_string()`: a random UUID, displayed in its
/// hyphenated lower-case form with the version digit set to 4. The value is
/// random; only that shape is stated.
#[verifier::external_body]
fn random_uuid_text() -> (r: String)
    ensures
        uuid_v4_text(r@),
{
    uuid::Uuid::new_v4().to_string()
}

/// A fresh sidecar path for `path`: [`sidecar_path_with_id`] with a random
/// UUID. Whether it fails does not depend on the UUID.
pub fn remote_sidecar_path(path: &str, label: &str) -> (r: Result<String, AppError>)
    ensures
        match r {
            Ok(p) => exists|id: Seq<char>|
                uuid_v4_text(id) && #[trigger] sidecar_path(path@, label@, id) == Ok::<
                    Seq<char>,
                    Seq<char>,
                >(p@),
            Err(e) => (e matches AppError::Ssh(m) && exists|id: Seq<char>|
                #[trigger] sidecar_path(path@, label@, id) == Err::<Seq<char>, Seq<char>>(m@)),
        },
        forall|a: Seq<char>, b: Seq<char>|
            (#[trigger] sidecar_path(path@, label@, a) is Err) == (#[trigger] sidecar_path(
                path@,
                label@,
                b,
            ) is Err),
{
    let id = random_uuid_text();
    sidecar_path_with_id(path, label, id.as_str())
}

/// How a finished upload in a temporary remote file is put in place.
#[derive(Debug, Clone, PartialEq, Eq)]
pub enum CommitStep {
    /// Remove the temporary file and fail with this message.
    Refuse(String),
    /// Nothing is at the target: rename the temporary file onto it.
    Rename,
    /// A file is at the target: move it to a backup sidecar, rename the
    /// temporary file onto the target, then drop the backup (or move it
    /// back if the rename fails).
    ReplaceWithBackup,
}

/// The commit step given what is at the target (`Some(true)`: a
/// directory, `Some(false)`: a file, `None`: nothing) and whether a file
/// there may be replaced.
pub fn commit_step(existing_is_dir: Option<bool>, allow_replace: bool) -> (r: CommitStep)
    ensures
        existing_is_dir == Some(true) ==> (r matches CommitStep::Refuse(m) && m@
            == "目标路径已存在同名目录"@),
        existing_is_dir == Some(false) && !allow_replace ==> (r matches CommitStep::Refuse(m) && m@
            == "远程文件已存在，请先删除或重命名再上传"@),
        existing_is_dir == Some(false) && allow_replace ==> r == CommitStep::ReplaceWithBackup,
        existing_is_dir is None ==> r == CommitStep::Rename,
{
    match existing_is_dir {
        Some(true) => CommitStep::Refuse(String::from_str("目标路径已存在同名目录")),
        Some(false) => if allow_replace {
            CommitStep::ReplaceWithBackup
        } else {
            CommitStep::Refuse(String::from_str("远程文件已存在，请先删除或重命名再上传"))
        },
        None => CommitStep::Rename,
    }
}

/// Images up to [`MAX_PREVIEW_IMAGE_BYTES`] are previewed; a larger one is
/// refused with both sizes in whole MiB.
pub fn check_preview_image_size(total: u64) -> (r: Result<(), AppError>)
    ensures
        total <= MAX_PREVIEW_IMAGE_BYTES <==> r is Ok,
        r matches Err(e) ==> (e matches AppError::Ssh(m) && m@ == "图片过大 ("@ + nat_decimal(
            (total / 1048576) as nat,
        ) + " MB)，预览上限为 "@ + nat_decimal((MAX_PREVIEW_IMAGE_BYTES / 1048576) as nat)
            + " MB，请使用下载功能"@),
{
    if total > MAX_PREVIEW_IMAGE_BYTES {
        let mut m = String::from_str("图片过大 (");
        append_chars(&mut m, &u64_decimal(total / 1048576));
        m.append(" MB)，预览上限为 ");
        append_chars(&mut m, &u64_decimal(MAX_PREVIEW_IMAGE_BYTES / 1048576));
        m.append(" MB，请使用下载功能");
        Err(AppError::Ssh(m))
    } else {
        Ok(())
    }
}

// ───────────────────────── archive compression ─────────────────────────

/// Archive formats that a remote folder can be compressed to.
#[derive(Debug, Clone, Copy, PartialEq, Eq)]
pub enum ArchiveFormat {
    TarGz,
    Zip,
}

/// The format a request names, if the compress command offers it.
pub open spec fn archive_format_named(f: Seq<char>) -> Option<ArchiveFormat> {
    if f == "tar.gz"@ {
        Some(ArchiveFormat::TarGz)
    } else if f == "zip"@ {
        Some(ArchiveFormat::Zip)
    } else {
        None
    }
}

/// Whether `target` lies below the directory `dir`, trailing `/` ignored
/// on both (an archive there would contain itself).
pub open spec fn inside_dir(dir: Seq<char>, target: Seq<char>) -> bool {
    has_prefix(trim_end_seq(target, seq!['/']), trim_end_seq(dir, seq!['/']).push('/'))
}

/// Checks a compress request before anything runs on the server: the
/// source may not be a protected system directory, the archive may not
/// land inside the source, and the format must be `tar.gz` or `zip`.
pub fn check_compress_request(remote_dir: &str, target_path: &str, format: &str) -> (r: Result<
    ArchiveFormat,
    AppError,
>)
    ensures
        system_path(remote_dir@) ==> (r matches Err(AppError::Ssh(m)) && m@ == "拒绝压缩系统目录「"@
            + remote_dir@ + "」，请选择用户目录下的文件夹"@),
        !system_path(remote_dir@) && inside_dir(remote_dir@, target_path@) ==> (r matches Err(
            AppError::Ssh(m),
        ) && m@ == "目标路径「"@ + target_path@ + "」位于源目录「"@ + remote_dir@
            + "」内，会导致递归压缩，请改用其他路径"@),
        !system_path(remote_dir@) && !inside_dir(remote_dir@, target_path@) ==> match archive_format_named(format@) {
            Some(k) => r == Ok::<ArchiveFormat, AppError>(k),
            None => r matches Err(AppError::Ssh(m)) && m@ == "不支持的压缩格式「"@ + format@
                + "」，仅支持 tar.gz 和 zip"@,
        },
{
    if is_system_path(remote_dir) {
        let mut m = String::from_str("拒绝压缩系统目录「");
        m.append(remote_dir);
        m.append("」，请选择用户目录下的文件夹");
        return Err(AppError::Ssh(m));
    }
    let slash = chars_of("/");
    proof {
        reveal_strlit("/");
        assert(slash@ =~= seq!['/']);
    }
    let dir_norm = trim_end_seq_exec(&chars_of(remote_dir), &slash);
    let target_norm = trim_end_seq_exec(&chars_of(target_path), &slash);
    let mut dir_slash = sub_chars(&dir_norm, 0, dir_norm.len());
    dir_slash.push('/');
    assert(dir_slash@ =~= dir_norm@.push('/'));
    if has_prefix_exec(&target_norm, &dir_slash) {
        let mut m = String::from_str("目标路径「");
        m.append(target_path);
        m.append("」位于源目录「");
        m.append(remote_dir);
        m.append("」内，会导致递归压缩，请改用其他路径");
        return Err(AppError::Ssh(m));
    }
    if str_eq(format, "tar.gz") {
        Ok(ArchiveFormat::TarGz)
    } else if str_eq(format, "zip") {
        Ok(ArchiveFormat::Zip)
    } else {
        let mut m = String::from_str("不支持的压缩格式「");
        m.append(format);
        m.append("」，仅支持 tar.gz 和 zip");
        Err(AppError::Ssh(m))
    }
}

/// The archiver that produces `format`.
pub open spec fn archiver_name(format: ArchiveFormat) -> Seq<char> {
    match format {
        ArchiveFormat::Zip => "zip"@,
        ArchiveFormat::TarGz => "tar"@,
    }
}

/// The error for a server that lacks the archiver of `format`.
pub fn missing_archiver_error(format: ArchiveFormat) -> (e: AppError)
    ensures
        e matches AppError::Ssh(m) && m@ == "远端服务器缺少 "@ + archiver_name(format)
            + "，无法压缩。请安装后重试。"@,
{
    let mut m = String::from_str("远端服务器缺少 ");
    match format {
        ArchiveFormat::Zip => m.append("zip"),
        ArchiveFormat::TarGz => m.append("tar"),
    }
    m.append("，无法压缩。请安装后重试。");
    AppError::Ssh(m)
}

/// Refuses to overwrite an existing archive unless asked to: `probe` is
/// what `test -e <target> && echo EXISTS || echo MISSING` printed.
pub fn check_compress_target_free(probe: &str, target_path: &str) -> (r: Result<(), AppError>)
    ensures
        contains_seq(trim(probe@), "EXISTS"@) <==> r is Err,
        r matches Err(e) ==> (e matches AppError::Ssh(m) && m@ == "目标文件「"@ + target_path@
            + "」已存在。请勾选「覆盖」或修改目标路径"@),
{
    let t = trim_exec(&chars_of(probe));
    if contains_exec(&t, &chars_of("EXISTS")) {
        let mut m = String::from_str("目标文件「");
        m.append(target_path);
        m.append("」已存在。请勾选「覆盖」或修改目标路径");
        Err(AppError::Ssh(m))
    } else {
        Ok(())
    }
}

/// Whether one line of the archiver's output reads `OK` (surrounding
/// whitespace ignored).
pub open spec fn reports_ok(output: Seq<char>) -> bool {
    exists|i: int|
        0 <= i < split_char(output, '\n').len() && #[trigger] trim(split_char(output, '\n')[i])
            == "OK"@
}

/// What a failure shows of the output: its first 500 characters, with
/// `...` when there were more.
pub open spec fn output_preview(t: Seq<char>) -> Seq<char> {
    if t.len() > 500 {
        t.take(500) + "..."@
    } else {
        t
    }
}

/// The result of a finished compress run, from the output it printed: it
/// succeeded when a line reads `OK`; otherwise the error shows the start of
/// the trimmed output.
pub fn compress_outcome(output: &str) -> (r: Result<(), AppError>)
    ensures
        reports_ok(output@) <==> r is Ok,
        r matches Err(e) ==> (e matches AppError::Ssh(m) && m@ == "压缩失败: "@ + output_preview(
            trim(output@),
        )),
{
    let cs = chars_of(output);
    let lines = split_char_exec(&cs, '\n');
    let ok = chars_of("OK");
    let mut i: usize = 0;
    while i < lines.len()
        invariant
            i <= lines.len(),
            cs@ == output@,
            ok@ == "OK"@,
            vec_views(lines@) == split_char(output@, '\n'),
            forall|j: int| 0 <= j < i ==> trim(#[trigger] split_char(output@, '\n')[j]) != "OK"@,
        decreases lines.len() - i,
    {
        assert(lines@[i as int]@ == split_char(output@, '\n')[i as int]);
        let t = trim_exec(&lines[i]);
        if chars_eq(&t, &ok) {
            return Ok(());
        }
        i = i + 1;
    }
    let t = trim_exec(&cs);
    let mut m = String::from_str("压缩失败: ");
    if t.len() > 500 {
        let head = sub_chars(&t, 0, 500);
        assert(head@ =~= t@.take(500));
        append_chars(&mut m, &head);
        m.append("...");
    } else {
        append_chars(&mut m, &t);
    }
    Err(AppError::Ssh(m))
}

// ───────────────────────── streamed transfers ─────────────────────────

/// Largest single upload, and largest zipped folder uploaded, in bytes.
pub const MAX_STREAM_UPLOAD_BYTES: u64 = 2147483648;

/// Whether a file or zipped folder of `total` bytes may be uploaded.
pub fn upload_size_allowed(total: u64) -> (r: bool)
    ensures
        r == (total <= MAX_STREAM_UPLOAD_BYTES),
{
    total <= MAX_STREAM_UPLOAD_BYTES
}

/// Flat folder upload (the folder's entries go straight into the remote
/// directory): refused when an entry name is already there, listing the
/// clashing names in order, joined by `、`.
pub fn check_flat_upload_names(local_names: &[String], remote_names: &[String]) -> (r: Result<
    (),
    AppError,
>)
    ensures
        (exists|x: Seq<char>|
            views(local_names@).contains(x) && views(remote_names@).contains(x)) <==> r is Err,
        r matches Err(e) ==> exists|c: Seq<Seq<char>>|
            {
                &&& strictly_sorted(c)
                &&& forall|x: Seq<char>|
                    c.contains(x) <==> (views(local_names@).contains(x) && views(
                        remote_names@,
                    ).contains(x))
                &&& e matches AppError::Ssh(m) && m@ == "远端目录已存在同名条目："@ + join_with(
                    c,
                    '、',
                ) + "，请先处理后再上传"@
            },
{
    let collisions = find_name_collisions(local_names, remote_names);
    if collisions.len() == 0 {
        proof {
            assert forall|x: Seq<char>|
                !(views(local_names@).contains(x) && views(remote_names@).contains(x)) by {
                if views(local_names@).contains(x) && views(remote_names@).contains(x) {
                    assert(views(collisions@).contains(x));
                }
            }
        }
        return Ok(());
    }
    let ghost c = views(collisions@);
    assert(c.contains(c[0]));
    let mut parts: Vec<Vec<char>> = Vec::new();
    let mut i: usize = 0;
    while i < collisions.len()
        invariant
            i <= collisions.len(),
            c == views(collisions@),
            vec_views(parts@) =~= c.take(i as int),
        decreases collisions.len() - i,
    {
        parts.push(chars_of(collisions[i].as_str()));
        assert(c.take(i + 1) =~= c.take(i as int).push(c[i as int]));
        i = i + 1;
    }
    assert(c.take(c.len() as int) =~= c);
    let mut m = String::from_str("远端目录已存在同名条目：");
    append_chars(&mut m, &join_exec(&parts, '、'));
    m.append("，请先处理后再上传");
    Err(AppError::Ssh(m))
}

/// Folder upload into a new directory: refused when the remote path
/// already exists.
pub fn check_nested_upload_target(remote_exists: bool) -> (r: Result<(), AppError>)
    ensures
        r is Err <==> remote_exists,
        r matches Err(e) ==> (e matches AppError::Ssh(m) && m@
            == "远端已存在同名目录，请重命名或选择上传到当前目录"@),
{
    if remote_exists {
        Err(AppError::Ssh(String::from_str("远端已存在同名目录，请重命名或选择上传到当前目录")))
    } else {
        Ok(())
    }
}

/// Only regular files are downloaded.
pub fn check_download_source(is_regular: bool) -> (r: Result<(), AppError>)
    ensures
        r is Ok <==> is_regular,
        r matches Err(e) ==> (e matches AppError::Ssh(m) && m@ == "只能下载普通文件"@),
{
    if is_regular {
        Ok(())
    } else {
        Err(AppError::Ssh(String::from_str("只能下载普通文件")))
    }
}

/// A streamed download must have written exactly the remote file's size.
pub fn check_stream_complete(written: u64, total: u64) -> (r: Result<(), AppError>)
    ensures
        r is Ok <==> written == total,
        r matches Err(e) ==> (e matches AppError::Ssh(m) && m@ == "下载不完整：预期 "@ + nat_decimal(
            total as nat,
        ) + " 字节，实际写入 "@ + nat_decimal(written as nat) + " 字节"@),
{
    if written == total {
        return Ok(());
    }
    let mut m = String::from_str("下载不完整：预期 ");
    append_chars(&mut m, &u64_decimal(total));
    m.append(" 字节，实际写入 ");
    append_chars(&mut m, &u64_decimal(written));
    m.append(" 字节");
    Err(AppError::Ssh(m))
}

/// The temporary file a download is written to, and the backup of a file
/// it replaces: `<local>.marcel-download-<id>.part` and `.backup`.
pub fn download_temp_paths(local_path: &str, download_id: &str) -> (r: (String, String))
    ensures
        r.0@ == local_path@ + ".marcel-download-"@ + download_id@ + ".part"@,
        r.1@ == local_path@ + ".marcel-download-"@ + download_id@ + ".backup"@,
{
    let mut part = String::from_str(local_path);
    part.append(".marcel-download-");
    part.append(download_id);
    let mut backup = part.clone();
    part.append(".part");
    backup.append(".backup");
    (part, backup)
}

/// How a finished download is moved onto the local path, given what is
/// there (`Some(true)`: a directory, `Some(false)`: a file, `None`:
/// nothing). An existing file is always replaced, by way of a backup.
pub fn download_commit_step(existing_is_dir: Option<bool>) -> (r: CommitStep)
    ensures
        existing_is_dir == Some(true) ==> (r matches CommitStep::Refuse(m) && m@
            == "保存路径已存在同名目录"@),
        existing_is_dir == Some(false) ==> r == CommitStep::ReplaceWithBackup,
        existing_is_dir is None ==> r == CommitStep::Rename,
{
    match existing_is_dir {
        Some(true) => CommitStep::Refuse(String::from_str("保存路径已存在同名目录")),
        Some(false) => CommitStep::ReplaceWithBackup,
        None => CommitStep::Rename,
    }
}

} // verus!
