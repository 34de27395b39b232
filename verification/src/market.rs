//! Plugin market: how the configured GitHub mirror is interpreted and which
//! candidate URLs are tried (in order) for the market index, single files of
//! a plugin repository, and plugin source archives.
use vstd::prelude::*;

use crate::error::AppError;
use crate::text::{lemma_lex_asym, lemma_lex_irreflexive, lemma_lex_total, lemma_lex_trans, lex_lt, lex_lt_exec,
    
    append_chars, chars_of, contains_char_exec, contains_exec, has_prefix, has_prefix_exec,
    has_suffix, has_suffix_exec, i64_decimal, int_decimal, split_char, split_char_exec,
    string_from_chars, sub_chars, trim, trim_end_seq, trim_end_seq_exec, trim_exec, vec_views, views,
    contains_seq, lemma_utf8_len_prefix_mono, lemma_utf8_len_push, utf8_len, utf8_width_exec,
};

verus! {

/// Built-in GitHub acceleration mirror prefixes (ghproxy style, able to serve
/// whole-repository zip archives), tried in order.
pub const DEFAULT_MIRRORS: [&'static str; 3] = ["https://ghfast.top", "https://gh-proxy.com", "https://ghproxy.net"];

/// Built-in market index source (jsDelivr CDN).
pub const DEFAULT_INDEX_SOURCE: &'static str = "https://cdn.jsdelivr.net/gh/q541810/marcel-ssh-plugins@main/index.json";

/// GitHub raw fallback for the market index.
pub const DEFAULT_INDEX_FALLBACK: &'static str = "https://raw.githubusercontent.com/q541810/marcel-ssh-plugins/HEAD/index.json";

/// Size cap of one downloaded archive.
pub const MAX_DOWNLOAD_BYTES: u64 = 104857600;

/// Largest README shown in a plugin's detail view, in bytes.
pub const MAX_README_BYTES: usize = 262144;

/// Whether a fetched README is small enough to be shown (its UTF-8 length
/// is at most [`MAX_README_BYTES`]); a larger one is dropped.
pub fn readme_within_cap(text: &str) -> (r: bool)
    ensures
        r == (utf8_len(text@) <= MAX_README_BYTES),
{
    let cs = chars_of(text);
    let mut n: usize = 0;
    let mut i: usize = 0;
    assert(cs@.take(0) =~= Seq::<char>::empty());
    while i < cs.len()
        invariant
            i <= cs.len(),
            cs@ == text@,
            n == utf8_len(cs@.take(i as int)),
            n <= MAX_README_BYTES,
        decreases cs.len() - i,
    {
        proof {
            assert(cs@.take(i + 1) =~= cs@.take(i as int).push(cs@[i as int]));
            lemma_utf8_len_push(cs@.take(i as int), cs@[i as int]);
        }
        n = n + utf8_width_exec(cs[i]);
        if n > MAX_README_BYTES {
            proof {
                lemma_utf8_len_prefix_mono(cs@, i + 1, cs@.len() as int);
                assert(cs@.take(cs@.len() as int) =~= cs@);
            }
            return false;
        }
        i = i + 1;
    }
    assert(cs@.take(cs@.len() as int) =~= cs@);
    true
}

/// How a configured mirror string is interpreted.
#[derive(Debug, Clone, PartialEq, Eq)]
pub enum MirrorKind {
    /// Nothing configured: built-in defaults.
    Unset,
    /// Legacy configuration: a full `index.json` URL (index only).
    IndexUrl(String),
    /// A URL on the jsDelivr domain: single files only, no archives.
    JsDelivr(String),
    /// A GitHub acceleration mirror prefix such as `https://ghfast.top`.
    Prefix(String),
}

/// The mathematical value of a [`MirrorKind`].
pub enum MirrorKindView {
    Unset,
    IndexUrl(Seq<char>),
    JsDelivr(Seq<char>),
    Prefix(Seq<char>),
}

impl View for MirrorKind {
    type V = MirrorKindView;

    open spec fn view(&self) -> MirrorKindView {
        match self {
            MirrorKind::Unset => MirrorKindView::Unset,
            MirrorKind::IndexUrl(s) => MirrorKindView::IndexUrl(s@),
            MirrorKind::JsDelivr(s) => MirrorKindView::JsDelivr(s@),
            MirrorKind::Prefix(s) => MirrorKindView::Prefix(s@),
        }
    }
}

/// The mirror string with surrounding white space and trailing `/` removed.
pub open spec fn mirror_core(m: Seq<char>) -> Seq<char> {
    trim_end_seq(trim(m), seq!['/'])
}

/// Classification of a configured mirror string.
pub open spec fn classify(m: Seq<char>) -> MirrorKindView {
    let c = mirror_core(m);
    if c.len() == 0 {
        MirrorKindView::Unset
    } else if has_suffix(c, "index.json"@) {
        MirrorKindView::IndexUrl(c)
    } else if contains_seq(c, "cdn.jsdelivr.net"@) {
        MirrorKindView::JsDelivr(c)
    } else {
        MirrorKindView::Prefix(c)
    }
}

/// Classifies a configured mirror string.
pub fn classify_mirror(mirror: &str) -> (k: MirrorKind)
    ensures
        k@ == classify(mirror@),
{
    let raw = chars_of(mirror);
    let trimmed = trim_exec(&raw);
    let slash = chars_of("/");
    proof {
        reveal_strlit("/");
        assert(slash@ =~= seq!['/']);
    }
    let m = trim_end_seq_exec(&trimmed, &slash);
    if m.len() == 0 {
        return MirrorKind::Unset;
    }
    if has_suffix_exec(&m, &chars_of("index.json")) {
        return MirrorKind::IndexUrl(string_from_chars(&m));
    }
    if contains_exec(&m, &chars_of("cdn.jsdelivr.net")) {
        return MirrorKind::JsDelivr(string_from_chars(&m));
    }
    MirrorKind::Prefix(string_from_chars(&m))
}

/// The owner and repository of a `https://github.com/<owner>/<repo>` URL
/// (trailing `/` ignored); `None` for other hosts or other path shapes.
pub open spec fn github_parts(url: Seq<char>) -> Option<(Seq<char>, Seq<char>)> {
    let u = trim_end_seq(url, seq!['/']);
    let prefix = "https://github.com/"@;
    if !has_prefix(u, prefix) {
        None
    } else {
        let rest = u.skip(prefix.len() as int);
        let pieces = split_char(rest, '/');
        if pieces.len() == 2 && pieces[0].len() > 0 && pieces[1].len() > 0 {
            Some((pieces[0], pieces[1]))
        } else {
            None
        }
    }
}

/// Extracts `(owner, repo)` from a `https://github.com/<owner>/<repo>` URL.
/// Returns `None` for non-GitHub URLs or URLs with extra path segments.
pub fn github_repo_parts(repo_url: &str) -> (r: Option<(String, String)>)
    ensures
        match r {
            Some((o, p)) => github_parts(repo_url@) == Some((o@, p@)),
            None => github_parts(repo_url@) is None,
        },
{
    let raw = chars_of(repo_url);
    let slash = chars_of("/");
    proof {
        reveal_strlit("/");
        assert(slash@ =~= seq!['/']);
    }
    let u = trim_end_seq_exec(&raw, &slash);
    let prefix = chars_of("https://github.com/");
    if !has_prefix_exec(&u, &prefix) {
        return None;
    }
    let rest = sub_chars(&u, prefix.len(), u.len());
    assert(rest@ =~= u@.skip(prefix@.len() as int));
    let pieces = split_char_exec(&rest, '/');
    if pieces.len() == 2 && pieces[0].len() > 0 && pieces[1].len() > 0 {
        assert(vec_views(pieces@)[0] == pieces@[0]@);
        assert(vec_views(pieces@)[1] == pieces@[1]@);
        Some((string_from_chars(&pieces[0]), string_from_chars(&pieces[1])))
    } else {
        proof {
            if pieces@.len() == 2 {
                assert(vec_views(pieces@)[0] == pieces@[0]@);
                assert(vec_views(pieces@)[1] == pieces@[1]@);
            }
        }
        None
    }
}

/// `https://raw.githubusercontent.com/<owner>/<repo>/HEAD/<file>`.
pub open spec fn raw_url(owner: Seq<char>, repo: Seq<char>, file: Seq<char>) -> Seq<char> {
    "https://raw.githubusercontent.com/"@ + owner + "/"@ + repo + "/HEAD/"@ + file
}

/// `<cdn>/gh/<owner>/<repo>@<branch>/<file>`.
pub open spec fn jsdelivr_url(
    cdn: Seq<char>,
    owner: Seq<char>,
    repo: Seq<char>,
    branch: Seq<char>,
    file: Seq<char>,
) -> Seq<char> {
    cdn + "/gh/"@ + owner + "/"@ + repo + "@"@ + branch + "/"@ + file
}

/// `https://github.com/<owner>/<repo>/archive/refs/heads/<branch>.zip`.
pub open spec fn archive_url(owner: Seq<char>, repo: Seq<char>, branch: Seq<char>) -> Seq<char> {
    "https://github.com/"@ + owner + "/"@ + repo + "/archive/refs/heads/"@ + branch + ".zip"@
}

/// `mirror.unwrap_or("")`.
pub open spec fn mirror_or_empty(mirror: Option<&str>) -> Seq<char> {
    match mirror {
        Some(m) => m@,
        None => Seq::<char>::empty(),
    }
}

/// Candidate URLs of the market index: configured mirror first, then the
/// built-in source and its GitHub raw fallback.
pub open spec fn index_urls_spec(mirror: Seq<char>) -> Seq<Seq<char>> {
    let head = match classify(mirror) {
        MirrorKindView::IndexUrl(u) => seq![u],
        MirrorKindView::Prefix(p) => seq![
            p + "/https://raw.githubusercontent.com/q541810/marcel-ssh-plugins/HEAD/index.json"@,
        ],
        MirrorKindView::JsDelivr(d) => seq![d + "/gh/q541810/marcel-ssh-plugins@main/index.json"@],
        MirrorKindView::Unset => Seq::empty(),
    };
    head + seq![DEFAULT_INDEX_SOURCE@, DEFAULT_INDEX_FALLBACK@]
}

/// Candidate URLs of one file of a GitHub repository.
pub open spec fn raw_file_urls_spec(
    owner: Seq<char>,
    repo: Seq<char>,
    file: Seq<char>,
    mirror: Seq<char>,
) -> Seq<Seq<char>> {
    let head = match classify(mirror) {
        MirrorKindView::IndexUrl(_) => Seq::empty(),
        MirrorKindView::Prefix(p) => seq![p + "/"@ + raw_url(owner, repo, file)],
        MirrorKindView::JsDelivr(d) => seq![
            jsdelivr_url(d, owner, repo, "main"@, file),
            jsdelivr_url(d, owner, repo, "master"@, file),
        ],
        MirrorKindView::Unset => seq![
            jsdelivr_url("https://cdn.jsdelivr.net"@, owner, repo, "main"@, file),
            jsdelivr_url("https://cdn.jsdelivr.net"@, owner, repo, "master"@, file),
        ],
    };
    head.push(raw_url(owner, repo, file))
}

/// The two archive URLs (main, master) behind a mirror prefix.
pub open spec fn mirrored_archives(m: Seq<char>, owner: Seq<char>, repo: Seq<char>) -> Seq<
    Seq<char>,
> {
    seq![m + "/"@ + archive_url(owner, repo, "main"@), m + "/"@ + archive_url(owner, repo, "master"@)]
}

/// Candidate URLs of a plugin source archive.
pub open spec fn zip_urls_spec(owner: Seq<char>, repo: Seq<char>, mirror: Seq<char>) -> Seq<
    Seq<char>,
> {
    let head = match classify(mirror) {
        MirrorKindView::IndexUrl(_) => Seq::empty(),
        MirrorKindView::JsDelivr(_) => Seq::empty(),
        MirrorKindView::Prefix(p) => mirrored_archives(p, owner, repo),
        MirrorKindView::Unset => mirrored_archives(DEFAULT_MIRRORS[0]@, owner, repo)
            + mirrored_archives(DEFAULT_MIRRORS[1]@, owner, repo) + mirrored_archives(
            DEFAULT_MIRRORS[2]@,
            owner,
            repo,
        ),
    };
    head + seq![archive_url(owner, repo, "main"@), archive_url(owner, repo, "master"@)]
}

proof fn lemma_suffix_of_concat(a: Seq<char>, b: Seq<char>)
    ensures
        has_suffix(a + b, b),
{
    assert((a + b).skip((a + b).len() - b.len()) =~= b);
}

proof fn lemma_archive_suffix(m: Seq<char>, owner: Seq<char>, repo: Seq<char>, br: Seq<char>)
    ensures
        has_suffix(archive_url(owner, repo, br), ".zip"@),
        has_suffix(m + "/"@ + archive_url(owner, repo, br), ".zip"@),
{
    let stem = "https://github.com/"@ + owner + "/"@ + repo + "/archive/refs/heads/"@ + br;
    lemma_suffix_of_concat(stem, ".zip"@);
    assert(m + "/"@ + archive_url(owner, repo, br) =~= (m + "/"@ + stem) + ".zip"@);
    lemma_suffix_of_concat(m + "/"@ + stem, ".zip"@);
}

/// Every archive candidate is a `.zip` link, and whatever the mirror, the
/// list ends with the direct GitHub archives of `main` and `master`.
pub proof fn lemma_zip_candidates(owner: Seq<char>, repo: Seq<char>, mirror: Seq<char>)
    ensures
        ({
            let u = zip_urls_spec(owner, repo, mirror);
            &&& u.len() >= 2
            &&& u[u.len() - 2] == archive_url(owner, repo, "main"@)
            &&& u[u.len() - 1] == archive_url(owner, repo, "master"@)
            &&& forall|i: int| 0 <= i < u.len() ==> has_suffix(#[trigger] u[i], ".zip"@)
        }),
{
    let main = "main"@;
    let master = "master"@;
    lemma_archive_suffix(Seq::empty(), owner, repo, main);
    lemma_archive_suffix(Seq::empty(), owner, repo, master);
    match classify(mirror) {
        MirrorKindView::Prefix(p) => {
            lemma_archive_suffix(p, owner, repo, main);
            lemma_archive_suffix(p, owner, repo, master);
        },
        MirrorKindView::Unset => {
            lemma_archive_suffix(DEFAULT_MIRRORS[0]@, owner, repo, main);
            lemma_archive_suffix(DEFAULT_MIRRORS[0]@, owner, repo, master);
            lemma_archive_suffix(DEFAULT_MIRRORS[1]@, owner, repo, main);
            lemma_archive_suffix(DEFAULT_MIRRORS[1]@, owner, repo, master);
            lemma_archive_suffix(DEFAULT_MIRRORS[2]@, owner, repo, main);
            lemma_archive_suffix(DEFAULT_MIRRORS[2]@, owner, repo, master);
        },
        _ => {},
    }
}

/// Every jsDelivr candidate for a file of `owner/repo` addresses
/// `<cdn>/gh/<owner>/<repo>@<branch>/<file>`: owner first, then the
/// repository, the `main` branch before `master`; with no mirror the public
/// jsDelivr CDN is used, and a jsDelivr mirror replaces only the CDN.
pub proof fn lemma_jsdelivr_file_candidates(
    owner: Seq<char>,
    repo: Seq<char>,
    file: Seq<char>,
    mirror: Seq<char>,
)
    ensures
        ({
            let r = raw_file_urls_spec(owner, repo, file, mirror);
            match classify(mirror) {
                MirrorKindView::JsDelivr(d) => {
                    &&& r.len() == 3
                    &&& r[0] == d + "/gh/"@ + owner + "/"@ + repo + "@"@ + "main"@ + "/"@ + file
                    &&& r[1] == d + "/gh/"@ + owner + "/"@ + repo + "@"@ + "master"@ + "/"@ + file
                },
                MirrorKindView::Unset => {
                    &&& r.len() == 3
                    &&& r[0] == "https://cdn.jsdelivr.net"@ + "/gh/"@ + owner + "/"@ + repo + "@"@
                        + "main"@ + "/"@ + file
                    &&& r[1] == "https://cdn.jsdelivr.net"@ + "/gh/"@ + owner + "/"@ + repo + "@"@
                        + "master"@ + "/"@ + file
                },
                _ => true,
            }
        }),
{
}

/// Whatever the mirror, the last candidate for a file of `owner/repo` is
/// `https://raw.githubusercontent.com/<owner>/<repo>/HEAD/<file>`, and the
/// last two archive candidates are GitHub's own archives of the `main` and
/// `master` branches of `owner/repo`; behind a mirror prefix `p`, the
/// archives come first as `p/` followed by those same GitHub URLs.
pub proof fn lemma_github_candidates(owner: Seq<char>, repo: Seq<char>, file: Seq<char>, mirror: Seq<char>)
    ensures
        ({
            let r = raw_file_urls_spec(owner, repo, file, mirror);
            r.len() >= 1 && r[r.len() - 1] == "https://raw.githubusercontent.com/"@ + owner + "/"@
                + repo + "/HEAD/"@ + file
        }),
        ({
            let z = zip_urls_spec(owner, repo, mirror);
            let gh_main = "https://github.com/"@ + owner + "/"@ + repo + "/archive/refs/heads/"@
                + "main"@ + ".zip"@;
            let gh_master = "https://github.com/"@ + owner + "/"@ + repo + "/archive/refs/heads/"@
                + "master"@ + ".zip"@;
            &&& z.len() >= 2
            &&& z[z.len() - 2] == gh_main
            &&& z[z.len() - 1] == gh_master
            &&& (classify(mirror) matches MirrorKindView::Prefix(p) ==> z.len() == 4 && z[0] == p
                + "/"@ + gh_main && z[1] == p + "/"@ + gh_master)
        }),
{
}

/// Whatever the mirror, a file is finally tried on GitHub raw, and the
/// market index on the built-in source and then its raw fallback.
pub proof fn lemma_builtin_fallbacks_last(
    owner: Seq<char>,
    repo: Seq<char>,
    file: Seq<char>,
    mirror: Seq<char>,
)
    ensures
        ({
            let r = raw_file_urls_spec(owner, repo, file, mirror);
            r.len() >= 1 && r[r.len() - 1] == raw_url(owner, repo, file)
        }),
        ({
            let x = index_urls_spec(mirror);
            &&& x.len() >= 2
            &&& x[x.len() - 2] == DEFAULT_INDEX_SOURCE@
            &&& x[x.len() - 1] == DEFAULT_INDEX_FALLBACK@
        }),
{
}

fn mirror_kind_of(mirror: Option<&str>) -> (k: MirrorKind)
    ensures
        k@ == classify(mirror_or_empty(mirror)),
{
    match mirror {
        Some(m) => classify_mirror(m),
        None => {
            let k = classify_mirror("");
            proof {
                reveal_strlit("");
                assert(""@ =~= Seq::<char>::empty());
            }
            k
        },
    }
}

/// Candidate URLs of the market index: custom mirror first, built-in sources
/// as fallbacks.
pub fn index_urls(mirror: Option<&str>) -> (urls: Vec<String>)
    ensures
        views(urls@) == index_urls_spec(mirror_or_empty(mirror)),
{
    let mut urls: Vec<String> = Vec::new();
    match mirror_kind_of(mirror) {
        MirrorKind::IndexUrl(u) => urls.push(u),
        MirrorKind::Prefix(p) => {
            let mut s = p;
            s.append("/https://raw.githubusercontent.com/q541810/marcel-ssh-plugins/HEAD/index.json");
            urls.push(s);
        },
        MirrorKind::JsDelivr(d) => {
            let mut s = d;
            s.append("/gh/q541810/marcel-ssh-plugins@main/index.json");
            urls.push(s);
        },
        MirrorKind::Unset => {},
    }
    urls.push(String::from_str(DEFAULT_INDEX_SOURCE));
    urls.push(String::from_str(DEFAULT_INDEX_FALLBACK));
    assert(views(urls@) =~= index_urls_spec(mirror_or_empty(mirror)));
    urls
}

fn make_raw_url(owner: &str, repo: &str, file: &str) -> (s: String)
    ensures
        s@ == raw_url(owner@, repo@, file@),
{
    let mut s = String::from_str("https://raw.githubusercontent.com/");
    s.append(owner);
    s.append("/");
    s.append(repo);
    s.append("/HEAD/");
    s.append(file);
    s
}

fn make_jsdelivr_url(cdn: &str, owner: &str, repo: &str, branch: &str, file: &str) -> (s: String)
    ensures
        s@ == jsdelivr_url(cdn@, owner@, repo@, branch@, file@),
{
    let mut s = String::from_str(cdn);
    s.append("/gh/");
    s.append(owner);
    s.append("/");
    s.append(repo);
    s.append("@");
    s.append(branch);
    s.append("/");
    s.append(file);
    s
}

fn make_archive_url(owner: &str, repo: &str, branch: &str) -> (s: String)
    ensures
        s@ == archive_url(owner@, repo@, branch@),
{
    let mut s = String::from_str("https://github.com/");
    s.append(owner);
    s.append("/");
    s.append(repo);
    s.append("/archive/refs/heads/");
    s.append(branch);
    s.append(".zip");
    s
}

fn make_mirrored_archive(m: &str, owner: &str, repo: &str, branch: &str) -> (s: String)
    ensures
        s@ == m@ + "/"@ + archive_url(owner@, repo@, branch@),
{
    let mut s = String::from_str(m);
    s.append("/");
    let a = make_archive_url(owner, repo, branch);
    s.append(a.as_str());
    s
}

/// Candidate URLs of a single file (plugin.json, README, ...) of a GitHub
/// repository.
pub fn raw_file_urls(owner: &str, repo: &str, file: &str, mirror: Option<&str>) -> (urls: Vec<
    String,
>)
    ensures
        views(urls@) == raw_file_urls_spec(owner@, repo@, file@, mirror_or_empty(mirror)),
{
    let mut urls: Vec<String> = Vec::new();
    match mirror_kind_of(mirror) {
        MirrorKind::IndexUrl(_) => {},
        MirrorKind::Prefix(p) => {
            let mut s = p;
            s.append("/");
            let r = make_raw_url(owner, repo, file);
            s.append(r.as_str());
            urls.push(s);
        },
        MirrorKind::JsDelivr(d) => {
            urls.push(make_jsdelivr_url(d.as_str(), owner, repo, "main", file));
            urls.push(make_jsdelivr_url(d.as_str(), owner, repo, "master", file));
        },
        MirrorKind::Unset => {
            urls.push(make_jsdelivr_url("https://cdn.jsdelivr.net", owner, repo, "main", file));
            urls.push(make_jsdelivr_url("https://cdn.jsdelivr.net", owner, repo, "master", file));
        },
    }
    urls.push(make_raw_url(owner, repo, file));
    assert(views(urls@) =~= raw_file_urls_spec(owner@, repo@, file@, mirror_or_empty(mirror)));
    urls
}

/// Candidate URLs of a plugin source archive (main, then master). jsDelivr
/// and legacy `index.json` mirrors cannot serve archives and are skipped;
/// direct GitHub comes last.
pub fn zip_urls(owner: &str, repo: &str, mirror: Option<&str>) -> (urls: Vec<String>)
    ensures
        views(urls@) == zip_urls_spec(owner@, repo@, mirror_or_empty(mirror)),
{
    let mut urls: Vec<String> = Vec::new();
    match mirror_kind_of(mirror) {
        MirrorKind::IndexUrl(_) => {},
        MirrorKind::JsDelivr(_) => {},
        MirrorKind::Prefix(p) => {
            urls.push(make_mirrored_archive(p.as_str(), owner, repo, "main"));
            urls.push(make_mirrored_archive(p.as_str(), owner, repo, "master"));
        },
        MirrorKind::Unset => {
            let mut i: usize = 0;
            while i < 3
                invariant
                    i <= 3,
                    views(urls@) == {
                        if i == 0 {
                            Seq::<Seq<char>>::empty()
                        } else if i == 1 {
                            mirrored_archives(DEFAULT_MIRRORS[0]@, owner@, repo@)
                        } else if i == 2 {
                            mirrored_archives(DEFAULT_MIRRORS[0]@, owner@, repo@)
                                + mirrored_archives(DEFAULT_MIRRORS[1]@, owner@, repo@)
                        } else {
                            mirrored_archives(DEFAULT_MIRRORS[0]@, owner@, repo@)
                                + mirrored_archives(DEFAULT_MIRRORS[1]@, owner@, repo@)
                                + mirrored_archives(DEFAULT_MIRRORS[2]@, owner@, repo@)
                        }
                    },
                decreases 3 - i,
            {
                let m = DEFAULT_MIRRORS[i];
                let ghost before = views(urls@);
                urls.push(make_mirrored_archive(m, owner, repo, "main"));
                urls.push(make_mirrored_archive(m, owner, repo, "master"));
                assert(views(urls@) =~= before + mirrored_archives(DEFAULT_MIRRORS[i as int]@, owner@, repo@));
                i = i + 1;
            }
        },
    }
    urls.push(make_archive_url(owner, repo, "main"));
    urls.push(make_archive_url(owner, repo, "master"));
    assert(views(urls@) =~= zip_urls_spec(owner@, repo@, mirror_or_empty(mirror)));
    urls
}

/// `url` with a cache-busting `t=<ts>` query parameter appended.
pub open spec fn bust_url_spec(url: Seq<char>, ts: int) -> Seq<char> {
    if url.contains('?') {
        url + "&t="@ + int_decimal(ts)
    } else {
        url + "?t="@ + int_decimal(ts)
    }
}

/// Appends a cache-busting timestamp query parameter to `url`.
pub fn bust_url(url: &str, ts: i64) -> (r: String)
    ensures
        r@ == bust_url_spec(url@, ts as int),
{
    let cs = chars_of(url);
    let mut r = String::from_str(url);
    if contains_char_exec(&cs, '?') {
        r.append("&t=");
    } else {
        r.append("?t=");
    }
    let digits = i64_decimal(ts);
    append_chars(&mut r, &digits);
    r
}

/// Icon of a market entry.
#[derive(Debug, Clone, PartialEq, Eq)]
pub struct MarketIcon {
    pub kind: String,
    pub value: String,
}

/// One entry of the market index.
#[derive(Debug, Clone)]
pub struct MarketPlugin {
    pub id: String,
    pub name: String,
    pub version: String,
    pub publisher: String,
    pub min_app_version: Option<String>,
    pub description: String,
    pub capabilities: Vec<String>,
    pub category: String,
    pub icon: Option<MarketIcon>,
    pub repo_url: String,
    pub updated_at: String,
}

/// The market index.
#[derive(Debug, Clone)]
pub struct MarketIndex {
    pub generated_at: String,
    pub plugins: Vec<MarketPlugin>,
}

/// Index of the newest of the fetched indexes (largest `generated_at`,
/// the earliest of equals), or -1 when there is none.
pub open spec fn newest_index(gen: Seq<Seq<char>>) -> int
    decreases gen.len(),
{
    if gen.len() == 0 {
        -1
    } else {
        let b = newest_index(gen.drop_last());
        if b < 0 || lex_lt(gen[b], gen.last()) {
            gen.len() - 1
        } else {
            b
        }
    }
}

/// The `generated_at` stamps of fetched indexes.
pub open spec fn stamps(v: Seq<MarketIndex>) -> Seq<Seq<char>> {
    v.map_values(|i: MarketIndex| i.generated_at@)
}

/// Picks the newest of the indexes fetched from the candidate sources
/// (see [`newest_index`]); none when nothing could be fetched.
pub fn pick_newest_index(candidates: Vec<MarketIndex>) -> (r: Option<MarketIndex>)
    ensures
        match r {
            Some(x) => newest_index(stamps(candidates@)) >= 0 && x == candidates@[newest_index(
                stamps(candidates@),
            )],
            None => candidates@.len() == 0,
        },
{
    let ghost g = stamps(candidates@);
    let ghost all = candidates@;
    let n = candidates.len();
    assert(all.len() == n);
    let mut best: Option<MarketIndex> = None;
    let mut best_stamp: Vec<char> = Vec::new();
    let mut rest = candidates;
    let mut i: usize = 0;
    proof {
        lemma_newest_index_range(g.take(0));
    }
    assert(g.take(0) =~= Seq::<Seq<char>>::empty());
    while rest.len() > 0
        invariant
            i + rest.len() == all.len(),
            all.len() <= usize::MAX,
            g == stamps(all),
            rest@ == all.skip(i as int),
            match best {
                Some(x) => newest_index(g.take(i as int)) >= 0 && x == all[newest_index(
                    g.take(i as int),
                )] && best_stamp@ == x.generated_at@,
                None => i == 0,
            },
        decreases rest.len(),
    {
        let x = rest.remove(0);
        assert(rest@ =~= all.skip(i + 1));
        assert(g.take(i + 1).drop_last() =~= g.take(i as int));
        assert(all[i as int] == x);
        assert(g.take(i + 1).last() == x.generated_at@);
        let xs = chars_of(x.generated_at.as_str());
        let newer = match &best {
            None => true,
            Some(_) => lex_lt_exec(&best_stamp, &xs),
        };
        proof {
            lemma_newest_index_range(g.take(i as int));
        }
        if newer {
            best_stamp = xs;
            best = Some(x);
        }
        i = i + 1;
    }
    assert(g.take(all.len() as int) =~= g);
    best
}

proof fn lemma_newest_index_range(gen: Seq<Seq<char>>)
    ensures
        -1 <= newest_index(gen) < gen.len(),
        gen.len() > 0 ==> newest_index(gen) >= 0,
    decreases gen.len(),
{
    if gen.len() > 0 {
        lemma_newest_index_range(gen.drop_last());
    }
}

/// The index picked among fetched market indexes is the newest one: no
/// other index was generated later, and every index listed before it was
/// generated earlier (ties go to the first source).
pub proof fn lemma_newest_index_is_newest(gen: Seq<Seq<char>>)
    requires
        gen.len() > 0,
    ensures
        0 <= newest_index(gen) < gen.len(),
        forall|j: int| 0 <= j < gen.len() ==> !lex_lt(gen[newest_index(gen)], #[trigger] gen[j]),
        forall|j: int| 0 <= j < newest_index(gen) ==> lex_lt(#[trigger] gen[j], gen[newest_index(gen)]),
    decreases gen.len(),
{
    lemma_newest_index_range(gen);
    let n = gen.len() - 1;
    let prev = gen.drop_last();
    if n == 0 {
        lemma_lex_irreflexive(gen[0]);
    } else {
        lemma_newest_index_is_newest(prev);
        let b = newest_index(prev);
        let last = gen.last();
        if lex_lt(gen[b], last) {
            assert forall|j: int| 0 <= j < gen.len() implies !lex_lt(last, #[trigger] gen[j]) by {
                if j == n {
                    lemma_lex_irreflexive(last);
                } else {
                    assert(prev[j] == gen[j]);
                    lemma_lex_total(gen[j], gen[b]);
                    if lex_lt(gen[j], gen[b]) {
                        lemma_lex_trans(gen[j], gen[b], last);
                    }
                    lemma_lex_asym(gen[j], last);
                }
            }
            assert forall|j: int| 0 <= j < n implies lex_lt(#[trigger] gen[j], last) by {
                assert(prev[j] == gen[j]);
                lemma_lex_total(gen[j], gen[b]);
                if lex_lt(gen[j], gen[b]) {
                    lemma_lex_trans(gen[j], gen[b], last);
                }
            }
        } else {
            assert forall|j: int| 0 <= j < gen.len() implies !lex_lt(gen[b], #[trigger] gen[j]) by {
                if j < n {
                    assert(prev[j] == gen[j]);
                }
            }
            assert forall|j: int| 0 <= j < b implies lex_lt(#[trigger] gen[j], gen[b]) by {
                assert(prev[j] == gen[j]);
            }
        }
    }
}

/// The error when every source failed: each failure joined with `；`.
pub fn all_sources_failed(errors: &Vec<String>) -> (r: AppError)
    ensures
        r matches AppError::Network(m) && m@ == "所有源都不可用（"@ + crate::text::join_with(
            views(errors@),
            '；',
        ) + "）"@,
{
    let mut parts: Vec<Vec<char>> = Vec::new();
    let mut i: usize = 0;
    while i < errors.len()
        invariant
            i <= errors.len(),
            vec_views(parts@) == views(errors@).take(i as int),
        decreases errors.len() - i,
    {
        let cs = chars_of(errors[i].as_str());
        let ghost before = vec_views(parts@);
        parts.push(cs);
        assert(vec_views(parts@) =~= before.push(errors@[i as int]@));
        assert(views(errors@).take(i + 1) =~= views(errors@).take(i as int).push(errors@[i as int]@));
        i = i + 1;
    }
    assert(views(errors@).take(errors.len() as int) =~= views(errors@));
    let joined = crate::text::join_exec(&parts, '；');
    let mut m = String::from_str("所有源都不可用（");
    append_chars(&mut m, &joined);
    m.append("）");
    AppError::Network(m)
}

} // verus!
