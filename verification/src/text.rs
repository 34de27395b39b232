//! Character-sequence helpers shared by the modules of this crate.
//!
//! Strings are reasoned about through their views (`Seq<char>`). The spec
//! functions below give the meaning of the std string operations that the
//! library relies on (`trim`, `trim_end_matches`, `split`, `starts_with`, ...);
//! the executable helpers compute them on `char` vectors and are proved
//! against those meanings.
use vstd::prelude::*;

verus! {

// ───────────────────────── spec: characters ─────────────────────────

/// `char::is_whitespace`: the Unicode `White_Space` property.
pub open spec fn is_white_space(c: char) -> bool {
    let u = c as u32;
    ||| 0x9 <= u <= 0xD
    ||| u == 0x20
    ||| u == 0x85
    ||| u == 0xA0
    ||| u == 0x1680
    ||| 0x2000 <= u <= 0x200A
    ||| u == 0x2028
    ||| u == 0x2029
    ||| u == 0x202F
    ||| u == 0x205F
    ||| u == 0x3000
}

/// `char::is_control`: the Unicode general category `Cc`.
pub open spec fn is_control_char(c: char) -> bool {
    let u = c as u32;
    u <= 0x1F || (0x7F <= u <= 0x9F)
}

/// `char::is_ascii_alphanumeric`.
pub open spec fn is_ascii_alnum(c: char) -> bool {
    ('0' <= c <= '9') || ('a' <= c <= 'z') || ('A' <= c <= 'Z')
}

/// Number of bytes of the UTF-8 encoding of `c` (`char::len_utf8`).
pub open spec fn utf8_width(c: char) -> nat {
    let u = c as u32;
    if u < 0x80 {
        1
    } else if u < 0x800 {
        2
    } else if u < 0x10000 {
        3
    } else {
        4
    }
}

/// Number of bytes of the UTF-8 encoding of `s` (`str::len`).
pub open spec fn utf8_len(s: Seq<char>) -> nat
    decreases s.len(),
{
    if s.len() == 0 {
        0
    } else {
        utf8_len(s.drop_last()) + utf8_width(s.last())
    }
}

// ───────────────────────── spec: sequences ─────────────────────────

/// `s.starts_with(p)`.
pub open spec fn has_prefix(s: Seq<char>, p: Seq<char>) -> bool {
    p.len() <= s.len() && s.take(p.len() as int) == p
}

/// `s.ends_with(p)`.
pub open spec fn has_suffix(s: Seq<char>, p: Seq<char>) -> bool {
    p.len() <= s.len() && s.skip(s.len() - p.len()) == p
}

/// `p` occurs in `s` at position `i`.
pub open spec fn occurs_at(s: Seq<char>, p: Seq<char>, i: int) -> bool {
    0 <= i && i + p.len() <= s.len() && s.subrange(i, i + p.len()) == p
}

/// `s.contains(p)` for a string pattern.
pub open spec fn contains_seq(s: Seq<char>, p: Seq<char>) -> bool {
    exists|i: int| occurs_at(s, p, i)
}

/// `s.trim_start()`.
pub open spec fn trim_start(s: Seq<char>) -> Seq<char>
    decreases s.len(),
{
    if s.len() > 0 && is_white_space(s[0]) {
        trim_start(s.drop_first())
    } else {
        s
    }
}

/// `s.trim_end()`.
pub open spec fn trim_end(s: Seq<char>) -> Seq<char>
    decreases s.len(),
{
    if s.len() > 0 && is_white_space(s.last()) {
        trim_end(s.drop_last())
    } else {
        s
    }
}

/// `s.trim()`.
pub open spec fn trim(s: Seq<char>) -> Seq<char> {
    trim_end(trim_start(s))
}

/// `s.trim_end_matches(p)` for a non-empty pattern: strip `p` from the end
/// as long as `s` ends with it.
pub open spec fn trim_end_seq(s: Seq<char>, p: Seq<char>) -> Seq<char>
    decreases s.len(),
{
    if p.len() > 0 && has_suffix(s, p) {
        trim_end_seq(s.take(s.len() - p.len()), p)
    } else {
        s
    }
}

/// `s.trim_start_matches(p)` for a non-empty pattern.
pub open spec fn trim_start_seq(s: Seq<char>, p: Seq<char>) -> Seq<char>
    decreases s.len(),
{
    if p.len() > 0 && has_prefix(s, p) {
        trim_start_seq(s.skip(p.len() as int), p)
    } else {
        s
    }
}

/// `s.replace(a, b)` for single characters.
pub open spec fn replace_char(s: Seq<char>, a: char, b: char) -> Seq<char> {
    s.map_values(|x: char| if x == a { b } else { x })
}

/// The pieces of `s.split(c)`, in order (always at least one piece).
pub open spec fn split_char(s: Seq<char>, c: char) -> Seq<Seq<char>>
    decreases s.len(),
{
    if s.len() == 0 {
        seq![Seq::<char>::empty()]
    } else {
        let prev = split_char(s.drop_last(), c);
        if s.last() == c {
            prev.push(Seq::<char>::empty())
        } else {
            prev.update(prev.len() - 1, prev.last().push(s.last()))
        }
    }
}

/// `parts.join(sep)` with a one-character separator.
pub open spec fn join_with(parts: Seq<Seq<char>>, sep: char) -> Seq<char>
    decreases parts.len(),
{
    if parts.len() == 0 {
        Seq::<char>::empty()
    } else if parts.len() == 1 {
        parts[0]
    } else {
        join_with(parts.drop_last(), sep).push(sep) + parts.last()
    }
}

/// The view of an optional `String`.
pub open spec fn opt_view(o: Option<String>) -> Option<Seq<char>> {
    match o {
        Some(s) => Some(s@),
        None => None,
    }
}

/// The views of a sequence of `String`s.
pub open spec fn views(v: Seq<String>) -> Seq<Seq<char>> {
    v.map_values(|s: String| s@)
}

/// Index of the last occurrence of `c` in `s`, or -1.
pub open spec fn last_index_of(s: Seq<char>, c: char) -> int
    decreases s.len(),
{
    if s.len() == 0 {
        -1
    } else if s.last() == c {
        s.len() - 1
    } else {
        last_index_of(s.drop_last(), c)
    }
}

/// `s` truncated to the longest prefix whose UTF-8 encoding fits in `max`
/// bytes (characters are never split).
pub open spec fn utf8_truncate(s: Seq<char>, max: nat) -> Seq<char>
    decreases s.len(),
{
    if utf8_len(s) <= max || s.len() == 0 {
        s
    } else {
        utf8_truncate(s.drop_last(), max)
    }
}

/// Strictly increasing in the order of `String`'s `Ord` (hence free of
/// repetitions).
pub open spec fn strictly_sorted(s: Seq<Seq<char>>) -> bool {
    forall|i: int, j: int| 0 <= i < j < s.len() ==> lex_lt(s[i], s[j])
}

/// The views of a sequence of character vectors.
pub open spec fn vec_views(v: Seq<Vec<char>>) -> Seq<Seq<char>> {
    v.map_values(|x: Vec<char>| x@)
}

/// Index of the first occurrence of `c` in `s`, or -1.
pub open spec fn index_of(s: Seq<char>, c: char) -> int
    decreases s.len(),
{
    if s.len() == 0 {
        -1
    } else if s[0] == c {
        0
    } else {
        let r = index_of(s.drop_first(), c);
        if r < 0 {
            -1
        } else {
            r + 1
        }
    }
}

/// Lexicographic order of character sequences by code point; this is the
/// order of `String`'s `Ord` (UTF-8 byte order agrees with code-point order).
pub open spec fn lex_lt(a: Seq<char>, b: Seq<char>) -> bool
    decreases a.len(),
{
    if a.len() == 0 {
        b.len() > 0
    } else if b.len() == 0 {
        false
    } else if a[0] != b[0] {
        (a[0] as u32) < (b[0] as u32)
    } else {
        lex_lt(a.drop_first(), b.drop_first())
    }
}

// ───────────────────────── lemmas ─────────────────────────

pub proof fn lemma_split_nonempty(s: Seq<char>, c: char)
    ensures
        split_char(s, c).len() >= 1,
    decreases s.len(),
{
    if s.len() > 0 {
        lemma_split_nonempty(s.drop_last(), c);
    }
}

/// Every piece of a split is free of the separator.
pub proof fn lemma_split_pieces_free(s: Seq<char>, c: char)
    ensures
        forall|k: int, j: int|
            0 <= k < split_char(s, c).len() && 0 <= j < split_char(s, c)[k].len()
                ==> split_char(s, c)[k][j] != c,
    decreases s.len(),
{
    if s.len() > 0 {
        lemma_split_nonempty(s.drop_last(), c);
        lemma_split_pieces_free(s.drop_last(), c);
        let prev = split_char(s.drop_last(), c);
        if s.last() != c {
            assert forall|k: int, j: int|
                0 <= k < split_char(s, c).len() && 0 <= j < split_char(s, c)[k].len()
                    implies split_char(s, c)[k][j] != c by {
                if k == prev.len() - 1 {
                    if j < prev.last().len() {
                        assert(split_char(s, c)[k][j] == prev[k][j]);
                    }
                } else {
                    assert(split_char(s, c)[k] == prev[k]);
                }
            }
        }
    }
}

/// A sequence without the separator splits into itself.
pub proof fn lemma_split_free(s: Seq<char>, c: char)
    requires
        forall|j: int| 0 <= j < s.len() ==> s[j] != c,
    ensures
        split_char(s, c) == seq![s],
    decreases s.len(),
{
    if s.len() > 0 {
        lemma_split_free(s.drop_last(), c);
        assert(s.drop_last().push(s.last()) =~= s);
    } else {
        assert(s =~= Seq::<char>::empty());
    }
}

/// Appending text without the separator extends the last piece.
pub proof fn lemma_split_append_free(s: Seq<char>, b: Seq<char>, c: char)
    requires
        forall|j: int| 0 <= j < b.len() ==> b[j] != c,
    ensures
        split_char(s + b, c) == split_char(s, c).update(
            split_char(s, c).len() - 1,
            split_char(s, c).last() + b,
        ),
    decreases b.len(),
{
    lemma_split_nonempty(s, c);
    let p = split_char(s, c);
    if b.len() == 0 {
        assert(s + b =~= s);
        assert(p.last() + b =~= p.last());
        assert(p.update(p.len() - 1, p.last() + b) =~= p);
    } else {
        let b0 = b.drop_last();
        lemma_split_append_free(s, b0, c);
        assert((s + b).drop_last() =~= s + b0);
        assert((s + b).last() == b.last());
        let prev = split_char(s + b0, c);
        assert(prev.last() =~= p.last() + b0);
        assert(prev.last().push(b.last()) =~= p.last() + b);
        assert(prev.update(prev.len() - 1, prev.last().push(b.last())) =~= p.update(
            p.len() - 1,
            p.last() + b,
        ));
    }
}

/// Joining pieces free of the separator and splitting again gives the
/// pieces back.
pub proof fn lemma_split_join(parts: Seq<Seq<char>>, c: char)
    requires
        parts.len() >= 1,
        forall|k: int, j: int| 0 <= k < parts.len() && 0 <= j < parts[k].len() ==> parts[k][j] != c,
    ensures
        split_char(join_with(parts, c), c) == parts,
    decreases parts.len(),
{
    if parts.len() == 1 {
        lemma_split_free(parts[0], c);
        assert(parts =~= seq![parts[0]]);
    } else {
        let dl = parts.drop_last();
        assert forall|k: int, j: int| 0 <= k < dl.len() && 0 <= j < dl[k].len() implies dl[k][j]
            != c by {
            assert(dl[k] == parts[k]);
        }
        lemma_split_join(dl, c);
        let x = join_with(dl, c).push(c);
        assert(split_char(x, c) =~= dl.push(Seq::<char>::empty())) by {
            assert(x.drop_last() =~= join_with(dl, c));
        }
        let last = parts.last();
        assert forall|j: int| 0 <= j < last.len() implies last[j] != c by {
            assert(last == parts[parts.len() - 1]);
        }
        lemma_split_append_free(x, last, c);
        assert(Seq::<char>::empty() + last =~= last);
        assert(dl.push(Seq::<char>::empty()).update(dl.len() as int, last) =~= parts);
    }
}

/// A character that does not occur in the text occurs in no piece of its
/// split.
pub proof fn lemma_split_pieces_avoid(s: Seq<char>, c: char, x: char)
    requires
        forall|j: int| 0 <= j < s.len() ==> s[j] != x,
    ensures
        forall|k: int, j: int|
            0 <= k < split_char(s, c).len() && 0 <= j < split_char(s, c)[k].len()
                ==> split_char(s, c)[k][j] != x,
    decreases s.len(),
{
    if s.len() > 0 {
        let t = s.drop_last();
        assert forall|j: int| 0 <= j < t.len() implies t[j] != x by {
            assert(t[j] == s[j]);
        }
        lemma_split_nonempty(t, c);
        lemma_split_pieces_avoid(t, c, x);
        let prev = split_char(t, c);
        assert(s.last() == s[s.len() - 1]);
        if s.last() != c {
            assert forall|k: int, j: int|
                0 <= k < split_char(s, c).len() && 0 <= j < split_char(s, c)[k].len()
                    implies split_char(s, c)[k][j] != x by {
                if k == prev.len() - 1 {
                    if j < prev.last().len() {
                        assert(split_char(s, c)[k][j] == prev[k][j]);
                    }
                } else {
                    assert(split_char(s, c)[k] == prev[k]);
                }
            }
        } else {
            assert forall|k: int, j: int|
                0 <= k < split_char(s, c).len() && 0 <= j < split_char(s, c)[k].len()
                    implies split_char(s, c)[k][j] != x by {
                if k < prev.len() {
                    assert(split_char(s, c)[k] == prev[k]);
                }
            }
        }
    }
}

/// A joined text holds only separators and characters of the pieces.
pub proof fn lemma_join_avoid(parts: Seq<Seq<char>>, c: char, x: char)
    requires
        c != x,
        forall|k: int, j: int| 0 <= k < parts.len() && 0 <= j < parts[k].len() ==> parts[k][j] != x,
    ensures
        forall|j: int| 0 <= j < join_with(parts, c).len() ==> join_with(parts, c)[j] != x,
    decreases parts.len(),
{
    if parts.len() == 1 {
        assert(join_with(parts, c) == parts[0]);
    } else if parts.len() > 1 {
        let dl = parts.drop_last();
        assert forall|k: int, j: int| 0 <= k < dl.len() && 0 <= j < dl[k].len() implies dl[k][j]
            != x by {
            assert(dl[k] == parts[k]);
        }
        lemma_join_avoid(dl, c, x);
        let a = join_with(dl, c).push(c);
        let l = parts.last();
        assert forall|j: int| 0 <= j < (a + l).len() implies (a + l)[j] != x by {
            if j < a.len() {
                if j < join_with(dl, c).len() {
                    assert(a[j] == join_with(dl, c)[j]);
                }
            } else {
                assert((a + l)[j] == l[j - a.len()]);
                assert(l == parts[parts.len() - 1]);
            }
        }
    }
}

pub proof fn lemma_index_of_bounds(s: Seq<char>, c: char)
    ensures
        -1 <= index_of(s, c) < s.len(),
        index_of(s, c) >= 0 ==> s[index_of(s, c)] == c,
        index_of(s, c) >= 0 ==> forall|j: int| 0 <= j < index_of(s, c) ==> s[j] != c,
        index_of(s, c) < 0 ==> forall|j: int| 0 <= j < s.len() ==> s[j] != c,
    decreases s.len(),
{
    if s.len() > 0 && s[0] != c {
        lemma_index_of_bounds(s.drop_first(), c);
        let r = index_of(s.drop_first(), c);
        assert forall|j: int| 0 <= j < index_of(s, c) implies s[j] != c by {
            if j > 0 {
                assert(s[j] == s.drop_first()[j - 1]);
            }
        }
        if r < 0 {
            assert forall|j: int| 0 <= j < s.len() implies s[j] != c by {
                if j > 0 {
                    assert(s[j] == s.drop_first()[j - 1]);
                }
            }
        }
    }
}

pub proof fn lemma_utf8_len_push(s: Seq<char>, c: char)
    ensures
        utf8_len(s.push(c)) == utf8_len(s) + utf8_width(c),
{
    assert(s.push(c).drop_last() =~= s);
}

pub proof fn lemma_utf8_len_concat(a: Seq<char>, b: Seq<char>)
    ensures
        utf8_len(a + b) == utf8_len(a) + utf8_len(b),
    decreases b.len(),
{
    if b.len() == 0 {
        assert(a + b =~= a);
    } else {
        lemma_utf8_len_concat(a, b.drop_last());
        assert((a + b).drop_last() =~= a + b.drop_last());
        assert((a + b).last() == b.last());
    }
}

pub proof fn lemma_utf8_len_prefix_mono(s: Seq<char>, i: int, j: int)
    requires
        0 <= i <= j <= s.len(),
    ensures
        utf8_len(s.take(i)) <= utf8_len(s.take(j)),
    decreases j - i,
{
    if i < j {
        lemma_utf8_len_prefix_mono(s, i, j - 1);
        assert(s.take(j).drop_last() =~= s.take(j - 1));
    }
}

pub proof fn lemma_utf8_len_ge_len(s: Seq<char>)
    ensures
        utf8_len(s) >= s.len(),
    decreases s.len(),
{
    if s.len() > 0 {
        lemma_utf8_len_ge_len(s.drop_last());
    }
}

pub proof fn lemma_last_index_of(s: Seq<char>, c: char)
    ensures
        -1 <= last_index_of(s, c) < s.len(),
        last_index_of(s, c) >= 0 ==> s[last_index_of(s, c)] == c,
        forall|j: int| last_index_of(s, c) < j < s.len() ==> s[j] != c,
    decreases s.len(),
{
    if s.len() > 0 && s.last() != c {
        lemma_last_index_of(s.drop_last(), c);
        assert forall|j: int| last_index_of(s, c) < j < s.len() implies s[j] != c by {
            if j < s.len() - 1 {
                assert(s[j] == s.drop_last()[j]);
            }
        }
    }
}

/// The truncation is the prefix of length `k` when that prefix fits and one
/// more character would not.
pub proof fn lemma_utf8_truncate_prefix(s: Seq<char>, max: nat, k: int, j: int)
    requires
        0 <= k <= j <= s.len(),
        utf8_len(s.take(k)) <= max,
        k == s.len() || utf8_len(s.take(k + 1)) > max,
    ensures
        utf8_truncate(s.take(j), max) == s.take(k),
    decreases j - k,
{
    if j > k {
        lemma_utf8_truncate_prefix(s, max, k, j - 1);
        lemma_utf8_len_prefix_mono(s, k + 1, j);
        assert(s.take(j).drop_last() =~= s.take(j - 1));
    } else {
        assert(s.take(j) == s.take(k));
    }
}

/// A truncated text fits its byte budget.
pub proof fn lemma_utf8_truncate_fits(s: Seq<char>, max: nat)
    ensures
        utf8_len(utf8_truncate(s, max)) <= max,
    decreases s.len(),
{
    if !(utf8_len(s) <= max || s.len() == 0) {
        lemma_utf8_truncate_fits(s.drop_last(), max);
    }
}

/// Lexicographic order is a strict total order.
pub proof fn lemma_lex_irreflexive(a: Seq<char>)
    ensures
        !lex_lt(a, a),
    decreases a.len(),
{
    if a.len() > 0 {
        lemma_lex_irreflexive(a.drop_first());
    }
}

pub proof fn lemma_lex_trans(a: Seq<char>, b: Seq<char>, c: Seq<char>)
    requires
        lex_lt(a, b),
        lex_lt(b, c),
    ensures
        lex_lt(a, c),
    decreases a.len(),
{
    if a.len() > 0 && b.len() > 0 && c.len() > 0 && a[0] == b[0] && b[0] == c[0] {
        lemma_lex_trans(a.drop_first(), b.drop_first(), c.drop_first());
    }
}

pub proof fn lemma_lex_total(a: Seq<char>, b: Seq<char>)
    ensures
        lex_lt(a, b) || lex_lt(b, a) || a == b,
    decreases a.len(),
{
    if a.len() > 0 && b.len() > 0 {
        if a[0] == b[0] {
            lemma_lex_total(a.drop_first(), b.drop_first());
            if a.drop_first() == b.drop_first() {
                assert(a =~= seq![a[0]] + a.drop_first());
                assert(b =~= seq![b[0]] + b.drop_first());
            }
        } else {
            vstd::utf8::char_u32_cast(a[0], a[0] as u32);
            vstd::utf8::char_u32_cast(b[0], b[0] as u32);
        }
    } else if a.len() == 0 && b.len() == 0 {
        assert(a =~= b);
    }
}

pub proof fn lemma_lex_asym(a: Seq<char>, b: Seq<char>)
    requires
        lex_lt(a, b),
    ensures
        !lex_lt(b, a),
{
    if lex_lt(b, a) {
        lemma_lex_trans(a, b, a);
        lemma_lex_irreflexive(a);
    }
}

// ───────────────────────── exec helpers ─────────────────────────

/// Appends one character to a `String`.
///
/// Trusted: calls `String::push`, which std documents as appending the given
/// `char` to the end of the string.
#[verifier::external_body]
pub(crate) fn push_char(s: &mut String, c: char)
    ensures
        final(s)@ == old(s)@.push(c),
{
    s.push(c);
}

/// The characters of `s`, in order.
pub fn chars_of(s: &str) -> (v: Vec<char>)
    ensures
        v@ == s@,
{
    let mut v: Vec<char> = Vec::new();
    for c in it: s.chars()
        invariant
            v@ == it.history(),
    {
        v.push(c);
    }
    v
}

/// Whether two strings hold the same characters.
pub(crate) fn str_eq(a: &str, b: &str) -> (r: bool)
    ensures
        r == (a@ == b@),
{
    chars_eq(&chars_of(a), &chars_of(b))
}

/// A `String` holding exactly the characters of `cs`.
pub fn string_from_chars(cs: &[char]) -> (s: String)
    ensures
        s@ == cs@,
{
    let mut s = String::new();
    let mut i: usize = 0;
    while i < cs.len()
        invariant
            i <= cs.len(),
            s@ == cs@.take(i as int),
        decreases cs.len() - i,
    {
        push_char(&mut s, cs[i]);
        assert(cs@.take(i + 1) =~= cs@.take(i as int).push(cs@[i as int]));
        i = i + 1;
    }
    assert(cs@.take(cs.len() as int) =~= cs@);
    s
}

/// Appends the characters of `cs` to `s`.
pub(crate) fn append_chars(s: &mut String, cs: &[char])
    ensures
        final(s)@ == old(s)@ + cs@,
{
    let mut i: usize = 0;
    while i < cs.len()
        invariant
            i <= cs.len(),
            s@ == old(s)@ + cs@.take(i as int),
        decreases cs.len() - i,
    {
        push_char(s, cs[i]);
        assert(cs@.take(i + 1) =~= cs@.take(i as int).push(cs@[i as int]));
        i = i + 1;
    }
    assert(cs@.take(cs.len() as int) =~= cs@);
}

/// `v[a..b]` as a new vector.
pub(crate) fn sub_chars(v: &[char], a: usize, b: usize) -> (r: Vec<char>)
    requires
        a <= b <= v.len(),
    ensures
        r@ == v@.subrange(a as int, b as int),
{
    let mut r: Vec<char> = Vec::new();
    let mut i: usize = a;
    while i < b
        invariant
            a <= i <= b,
            b <= v.len(),
            r@ == v@.subrange(a as int, i as int),
        decreases b - i,
    {
        r.push(v[i]);
        assert(v@.subrange(a as int, i + 1) =~= v@.subrange(a as int, i as int).push(v@[i as int]));
        i = i + 1;
    }
    r
}

/// `a == b` on character sequences.
pub(crate) fn chars_eq(a: &[char], b: &[char]) -> (r: bool)
    ensures
        r == (a@ == b@),
{
    if a.len() != b.len() {
        return false;
    }
    let mut i: usize = 0;
    while i < a.len()
        invariant
            i <= a.len(),
            a.len() == b.len(),
            forall|j: int| 0 <= j < i ==> a@[j] == b@[j],
        decreases a.len() - i,
    {
        if a[i] != b[i] {
            return false;
        }
        i = i + 1;
    }
    assert(a@ =~= b@);
    true
}

/// Whether `p` occurs in `s` at position `i`.
pub(crate) fn occurs_at_exec(s: &[char], p: &[char], i: usize) -> (r: bool)
    ensures
        r == occurs_at(s@, p@, i as int),
{
    if i > s.len() || p.len() > s.len() - i {
        return false;
    }
    let mut j: usize = 0;
    while j < p.len()
        invariant
            j <= p.len(),
            i + p.len() <= s.len(),
            forall|k: int| 0 <= k < j ==> s@[i + k] == p@[k],
        decreases p.len() - j,
    {
        if s[i + j] != p[j] {
            assert(s@.subrange(i as int, i + p.len())[j as int] != p@[j as int]);
            return false;
        }
        j = j + 1;
    }
    assert(s@.subrange(i as int, i + p.len()) =~= p@);
    true
}

/// `s.starts_with(p)`.
pub(crate) fn has_prefix_exec(s: &[char], p: &[char]) -> (r: bool)
    ensures
        r == has_prefix(s@, p@),
{
    let r = occurs_at_exec(s, p, 0);
    proof {
        if p@.len() <= s@.len() {
            assert(s@.subrange(0, p@.len() as int) =~= s@.take(p@.len() as int));
        }
    }
    r
}

/// `s.ends_with(p)`.
pub(crate) fn has_suffix_exec(s: &[char], p: &[char]) -> (r: bool)
    ensures
        r == has_suffix(s@, p@),
{
    if p.len() > s.len() {
        return false;
    }
    let r = occurs_at_exec(s, p, s.len() - p.len());
    proof {
        assert(s@.subrange(s@.len() - p@.len(), s@.len() as int) =~= s@.skip(s@.len() - p@.len()));
    }
    r
}

/// `s.contains(p)`.
pub(crate) fn contains_exec(s: &[char], p: &[char]) -> (r: bool)
    ensures
        r == contains_seq(s@, p@),
{
    if p.len() > s.len() {
        return false;
    }
    if p.len() == 0 {
        assert(s@.subrange(0, 0) =~= p@);
        assert(occurs_at(s@, p@, 0));
        return true;
    }
    let mut i: usize = 0;
    while i <= s.len() - p.len()
        invariant
            0 < p.len() <= s.len(),
            i <= s.len() - p.len() + 1,
            forall|k: int| 0 <= k < i ==> !occurs_at(s@, p@, k),
        decreases s.len() - i,
    {
        if occurs_at_exec(s, p, i) {
            return true;
        }
        i = i + 1;
    }
    assert forall|k: int| !occurs_at(s@, p@, k) by {
        if 0 <= k < i {
        }
    }
    false
}

/// Whether `c` occurs in `s`.
pub(crate) fn contains_char_exec(s: &[char], c: char) -> (r: bool)
    ensures
        r == s@.contains(c),
{
    let mut i: usize = 0;
    while i < s.len()
        invariant
            i <= s.len(),
            forall|k: int| 0 <= k < i ==> s@[k] != c,
        decreases s.len() - i,
    {
        if s[i] == c {
            return true;
        }
        i = i + 1;
    }
    false
}

proof fn lemma_trim_start_skip(s: Seq<char>, i: int)
    requires
        0 <= i <= s.len(),
        forall|j: int| 0 <= j < i ==> is_white_space(s[j]),
        i == s.len() || !is_white_space(s[i]),
    ensures
        trim_start(s) == s.skip(i),
    decreases i,
{
    if i == 0 {
        assert(s.skip(0) =~= s);
    } else {
        let t = s.drop_first();
        assert forall|j: int| 0 <= j < i - 1 implies is_white_space(t[j]) by {
            assert(t[j] == s[j + 1]);
        }
        if i - 1 < t.len() {
            assert(t[i - 1] == s[i]);
        }
        lemma_trim_start_skip(t, i - 1);
        assert(t.skip(i - 1) =~= s.skip(i));
    }
}

proof fn lemma_trim_end_take(s: Seq<char>, k: int)
    requires
        0 <= k <= s.len(),
        forall|j: int| k <= j < s.len() ==> is_white_space(s[j]),
        k == 0 || !is_white_space(s[k - 1]),
    ensures
        trim_end(s) == s.take(k),
    decreases s.len() - k,
{
    if k == s.len() {
        assert(s.take(k) =~= s);
    } else {
        let t = s.drop_last();
        assert forall|j: int| k <= j < t.len() implies is_white_space(t[j]) by {
            assert(t[j] == s[j]);
        }
        if k > 0 {
            assert(t[k - 1] == s[k - 1]);
        }
        lemma_trim_end_take(t, k);
        assert(t.take(k) =~= s.take(k));
    }
}

proof fn lemma_trim_start_first(s: Seq<char>)
    ensures
        trim_start(s).len() > 0 ==> !is_white_space(trim_start(s)[0]),
        trim_start(s).len() <= s.len(),
        forall|j: int| 0 <= j < trim_start(s).len() ==> trim_start(s)[j] == s[j + s.len() - trim_start(s).len()],
    decreases s.len(),
{
    if s.len() > 0 && is_white_space(s[0]) {
        lemma_trim_start_first(s.drop_first());
    }
}

proof fn lemma_trim_end_last(s: Seq<char>)
    ensures
        trim_end(s).len() > 0 ==> !is_white_space(trim_end(s).last()),
        trim_end(s).len() <= s.len(),
        forall|j: int| 0 <= j < trim_end(s).len() ==> trim_end(s)[j] == s[j],
    decreases s.len(),
{
    if s.len() > 0 && is_white_space(s.last()) {
        lemma_trim_end_last(s.drop_last());
        assert forall|j: int| 0 <= j < trim_end(s).len() implies trim_end(s)[j] == s[j] by {
            assert(s.drop_last()[j] == s[j]);
        }
    }
}

/// Trimming twice is trimming once.
pub proof fn lemma_trim_idempotent(s: Seq<char>)
    ensures
        trim(trim(s)) == trim(s),
{
    let u = trim_start(s);
    let t = trim_end(u);
    lemma_trim_start_first(s);
    lemma_trim_end_last(u);
    // `t` starts with a non-space (the first character of `u`) and ends with one
    if t.len() > 0 {
        assert(t[0] == u[0]);
        lemma_trim_start_skip(t, 0);
        lemma_trim_end_take(t, t.len() as int);
        assert(t.take(t.len() as int) =~= t);
    } else {
        assert(trim_start(t) == t);
    }
}

/// `s.trim()`.
pub(crate) fn trim_exec(s: &[char]) -> (r: Vec<char>)
    ensures
        r@ == trim(s@),
{
    let mut i: usize = 0;
    while i < s.len() && is_white_space_exec(s[i])
        invariant
            i <= s.len(),
            forall|j: int| 0 <= j < i ==> is_white_space(s@[j]),
        decreases s.len() - i,
    {
        i = i + 1;
    }
    proof {
        lemma_trim_start_skip(s@, i as int);
    }
    let ghost t = s@.skip(i as int);
    let mut k: usize = s.len();
    while k > i && is_white_space_exec(s[k - 1])
        invariant
            i <= k <= s.len(),
            forall|j: int| k <= j < s.len() ==> is_white_space(s@[j]),
        decreases k,
    {
        k = k - 1;
    }
    proof {
        let kk = (k - i) as int;
        assert forall|j: int| kk <= j < t.len() implies is_white_space(t[j]) by {
            assert(t[j] == s@[j + i]);
        }
        if kk > 0 {
            assert(t[kk - 1] == s@[k - 1]);
        }
        lemma_trim_end_take(t, kk);
        assert(t.take(kk) =~= s@.subrange(i as int, k as int));
    }
    sub_chars(s, i, k)
}

/// `s.trim().to_string()`.
pub(crate) fn trim_string(s: &str) -> (r: String)
    ensures
        r@ == trim(s@),
{
    string_from_chars(&trim_exec(&chars_of(s)))
}

/// `char::is_whitespace`.
pub(crate) fn is_white_space_exec(c: char) -> (r: bool)
    ensures
        r == is_white_space(c),
{
    let u = c as u32;
    (0x9 <= u && u <= 0xD) || u == 0x20 || u == 0x85 || u == 0xA0 || u == 0x1680 || (0x2000
        <= u && u <= 0x200A) || u == 0x2028 || u == 0x2029 || u == 0x202F || u == 0x205F || u
        == 0x3000
}

/// `char::is_control`.
pub(crate) fn is_control_exec(c: char) -> (r: bool)
    ensures
        r == is_control_char(c),
{
    let u = c as u32;
    u <= 0x1F || (0x7F <= u && u <= 0x9F)
}

/// `char::len_utf8`.
pub(crate) fn utf8_width_exec(c: char) -> (r: usize)
    ensures
        r == utf8_width(c),
{
    let u = c as u32;
    if u < 0x80 {
        1
    } else if u < 0x800 {
        2
    } else if u < 0x10000 {
        3
    } else {
        4
    }
}

/// `s.trim_end_matches(p)` for a non-empty pattern.
pub(crate) fn trim_end_seq_exec(s: &[char], p: &[char]) -> (r: Vec<char>)
    requires
        p.len() > 0,
    ensures
        r@ == trim_end_seq(s@, p@),
{
    let mut k: usize = s.len();
    assert(s@.take(s@.len() as int) =~= s@);
    while k >= p.len() && occurs_at_exec(s, p, k - p.len())
        invariant
            k <= s.len(),
            p.len() > 0,
            trim_end_seq(s@.take(k as int), p@) == trim_end_seq(s@, p@),
        decreases k,
    {
        proof {
            let cur = s@.take(k as int);
            assert(cur.skip(cur.len() - p@.len()) =~= s@.subrange(k - p@.len(), k as int));
            assert(has_suffix(cur, p@));
            assert(cur.take(cur.len() - p@.len()) =~= s@.take(k - p@.len()));
        }
        k = k - p.len();
    }
    proof {
        let cur = s@.take(k as int);
        if p@.len() <= cur.len() {
            assert(cur.skip(cur.len() - p@.len()) =~= s@.subrange(k - p@.len(), k as int));
        }
        assert(!has_suffix(cur, p@));
    }
    proof {
        assert(s@.take(s@.len() as int) =~= s@);
    }
    let r = sub_chars(s, 0, k);
    assert(r@ =~= s@.take(k as int));
    r
}

/// `s.trim_start_matches(p)` for a non-empty pattern.
pub(crate) fn trim_start_seq_exec(s: &[char], p: &[char]) -> (r: Vec<char>)
    requires
        p.len() > 0,
    ensures
        r@ == trim_start_seq(s@, p@),
{
    let mut i: usize = 0;
    assert(s@.skip(0) =~= s@);
    while i <= s.len() && p.len() <= s.len() - i && occurs_at_exec(s, p, i)
        invariant
            i <= s.len(),
            p.len() > 0,
            trim_start_seq(s@.skip(i as int), p@) == trim_start_seq(s@, p@),
        decreases s.len() - i,
    {
        proof {
            let cur = s@.skip(i as int);
            assert(cur.take(p@.len() as int) =~= s@.subrange(i as int, i + p@.len()));
            assert(has_prefix(cur, p@));
            assert(cur.skip(p@.len() as int) =~= s@.skip(i + p@.len()));
        }
        i = i + p.len();
    }
    proof {
        let cur = s@.skip(i as int);
        if p@.len() <= cur.len() {
            assert(cur.take(p@.len() as int) =~= s@.subrange(i as int, i + p@.len()));
        }
        assert(!has_prefix(cur, p@));
    }
    let r = sub_chars(s, i, s.len());
    assert(r@ =~= s@.skip(i as int));
    r
}

/// `s.replace(a, b)` for single characters.
pub(crate) fn replace_char_exec(s: &[char], a: char, b: char) -> (r: Vec<char>)
    ensures
        r@ == replace_char(s@, a, b),
{
    let mut r: Vec<char> = Vec::new();
    let mut i: usize = 0;
    while i < s.len()
        invariant
            i <= s.len(),
            r@ == replace_char(s@.take(i as int), a, b),
        decreases s.len() - i,
    {
        let c = if s[i] == a {
            b
        } else {
            s[i]
        };
        r.push(c);
        assert(replace_char(s@.take(i + 1), a, b) =~= replace_char(s@.take(i as int), a, b).push(c));
        i = i + 1;
    }
    assert(s@.take(s@.len() as int) =~= s@);
    r
}

/// The pieces of `s.split(c)`.
pub(crate) fn split_char_exec(s: &[char], c: char) -> (r: Vec<Vec<char>>)
    ensures
        vec_views(r@) == split_char(s@, c),
{
    let mut done: Vec<Vec<char>> = Vec::new();
    let mut cur: Vec<char> = Vec::new();
    let mut i: usize = 0;
    while i < s.len()
        invariant
            i <= s.len(),
            vec_views(done@).push(cur@) == split_char(s@.take(i as int), c),
        decreases s.len() - i,
    {
        let ghost before = split_char(s@.take(i as int), c);
        let ghost t = s@.take(i + 1);
        assert(t.drop_last() =~= s@.take(i as int));
        proof {
            lemma_split_nonempty(s@.take(i as int), c);
        }
        if s[i] == c {
            let finished = cur;
            done.push(finished);
            cur = Vec::new();
            assert(vec_views(done@).push(cur@) =~= before.push(
                Seq::<char>::empty(),
            ));
        } else {
            cur.push(s[i]);
            assert(vec_views(done@).push(cur@) =~= before.update(
                before.len() - 1,
                before.last().push(s@[i as int]),
            ));
        }
        i = i + 1;
    }
    assert(s@.take(s@.len() as int) =~= s@);
    let last = cur;
    done.push(last);
    assert(vec_views(done@) =~= split_char(s@, c));
    done
}

/// `parts.join(sep)`.
pub(crate) fn join_exec(parts: &Vec<Vec<char>>, sep: char) -> (r: Vec<char>)
    ensures
        r@ == join_with(vec_views(parts@), sep),
{
    let ghost ps = vec_views(parts@);
    let mut r: Vec<char> = Vec::new();
    let mut i: usize = 0;
    while i < parts.len()
        invariant
            i <= parts.len(),
            ps == vec_views(parts@),
            r@ == join_with(ps.take(i as int), sep),
        decreases parts.len() - i,
    {
        let ghost prev = r@;
        if i > 0 {
            r.push(sep);
        }
        let mut j: usize = 0;
        let ghost mid = r@;
        while j < parts[i].len()
            invariant
                i < parts.len(),
                j <= parts@[i as int]@.len(),
                r@ == mid + parts@[i as int]@.take(j as int),
            decreases parts@[i as int]@.len() - j,
        {
            r.push(parts[i][j]);
            assert(parts@[i as int]@.take(j + 1) =~= parts@[i as int]@.take(j as int).push(
                parts@[i as int]@[j as int],
            ));
            j = j + 1;
        }
        proof {
            assert(parts@[i as int]@.take(j as int) =~= parts@[i as int]@);
            assert(ps.take(i + 1).drop_last() =~= ps.take(i as int));
            assert(ps.take(i + 1).last() == ps[i as int]);
            if i == 0 {
                assert(ps.take(1) =~= seq![ps[0]]);
                assert(r@ =~= ps[0]);
            }
        }
        i = i + 1;
    }
    assert(ps.take(parts.len() as int) =~= ps);
    r
}

/// Inserts `x` into the strictly sorted `v` unless an equal string is
/// already there.
pub(crate) fn insert_sorted(v: &mut Vec<String>, x: String)
    requires
        strictly_sorted(views(old(v)@)),
    ensures
        strictly_sorted(views(final(v)@)),
        forall|y: Seq<char>|
            views(final(v)@).contains(y) <==> (views(old(v)@).contains(y) || y == x@),
{
    let xs = chars_of(x.as_str());
    let mut p: usize = 0;
    while p < v.len() && lex_lt_exec(&chars_of(v[p].as_str()), &xs)
        invariant
            p <= v.len(),
            v@ == old(v)@,
            xs@ == x@,
            strictly_sorted(views(v@)),
            forall|k: int| 0 <= k < p ==> lex_lt(v@[k]@, x@),
        decreases v.len() - p,
    {
        p = p + 1;
    }
    let ghost vs = views(v@);
    proof {
        assert forall|k: int| 0 <= k < vs.len() implies vs[k] == v@[k]@ by {}
    }
    if p < v.len() && v[p] == x {
        assert(vs[p as int] == x@);
        return;
    }
    proof {
        // everything from p on is above x
        if p < vs.len() {
            lemma_lex_total(vs[p as int], x@);
        }
        assert forall|k: int| p <= k < vs.len() implies lex_lt(x@, vs[k]) by {
            lemma_lex_total(vs[p as int], x@);
            if k > p {
                lemma_lex_trans(x@, vs[p as int], vs[k]);
            }
        }
    }
    v.insert(p, x);
    proof {
        let nv = views(v@);
        assert(nv =~= vs.insert(p as int, x@));
        assert forall|i: int, j: int| 0 <= i < j < nv.len() implies lex_lt(nv[i], nv[j]) by {
            if j < p {
            } else if j == p {
            } else if i < p {
                lemma_lex_trans(nv[i], x@, nv[j]);
            } else if i == p {
            } else {
            }
        }
        assert forall|y: Seq<char>| nv.contains(y) <==> (vs.contains(y) || y == x@) by {
            if nv.contains(y) {
                let k = choose|k: int| 0 <= k < nv.len() && nv[k] == y;
                if k < p {
                    assert(vs[k] == y);
                } else if k > p {
                    assert(vs[k - 1] == y);
                }
            }
            if vs.contains(y) {
                let k = choose|k: int| 0 <= k < vs.len() && vs[k] == y;
                if k < p {
                    assert(nv[k] == y);
                } else {
                    assert(nv[k + 1] == y);
                }
            }
            if y == x@ {
                assert(nv[p as int] == y);
            }
        }
    }
}

/// `a < b` in the order of `String`'s `Ord`.
pub(crate) fn lex_lt_exec(a: &[char], b: &[char]) -> (r: bool)
    ensures
        r == lex_lt(a@, b@),
{
    let mut i: usize = 0;
    assert(a@.skip(0) =~= a@);
    assert(b@.skip(0) =~= b@);
    while i < a.len() && i < b.len() && a[i] == b[i]
        invariant
            i <= a.len(),
            i <= b.len(),
            lex_lt(a@.skip(i as int), b@.skip(i as int)) == lex_lt(a@, b@),
        decreases a.len() - i,
    {
        proof {
            assert(a@.skip(i as int).drop_first() =~= a@.skip(i + 1));
            assert(b@.skip(i as int).drop_first() =~= b@.skip(i + 1));
        }
        i = i + 1;
    }
    if i == a.len() {
        i < b.len()
    } else if i == b.len() {
        false
    } else {
        (a[i] as u32) < (b[i] as u32)
    }
}

// ───────────────────────── decimal numbers ─────────────────────────

/// The decimal digit for `d` (`0 <= d < 10`).
pub open spec fn digit_char(d: int) -> char {
    if d == 0 {
        '0'
    } else if d == 1 {
        '1'
    } else if d == 2 {
        '2'
    } else if d == 3 {
        '3'
    } else if d == 4 {
        '4'
    } else if d == 5 {
        '5'
    } else if d == 6 {
        '6'
    } else if d == 7 {
        '7'
    } else if d == 8 {
        '8'
    } else {
        '9'
    }
}

/// Decimal notation of a natural number, as `Display` writes it.
pub open spec fn nat_decimal(n: nat) -> Seq<char>
    decreases n,
{
    if n < 10 {
        seq![digit_char(n as int)]
    } else {
        nat_decimal(n / 10).push(digit_char((n % 10) as int))
    }
}

/// Decimal notation of an integer, as `Display` writes it.
pub open spec fn int_decimal(x: int) -> Seq<char> {
    if x < 0 {
        seq!['-'] + nat_decimal((-x) as nat)
    } else {
        nat_decimal(x as nat)
    }
}

fn digit_char_exec(d: u64) -> (c: char)
    requires
        d < 10,
    ensures
        c == digit_char(d as int),
{
    if d == 0 {
        '0'
    } else if d == 1 {
        '1'
    } else if d == 2 {
        '2'
    } else if d == 3 {
        '3'
    } else if d == 4 {
        '4'
    } else if d == 5 {
        '5'
    } else if d == 6 {
        '6'
    } else if d == 7 {
        '7'
    } else if d == 8 {
        '8'
    } else {
        '9'
    }
}

/// Decimal digits of `n`.
pub(crate) fn u64_decimal(n: u64) -> (v: Vec<char>)
    ensures
        v@ == nat_decimal(n as nat),
    decreases n,
{
    if n < 10 {
        let mut v = Vec::new();
        v.push(digit_char_exec(n));
        v
    } else {
        let mut v = u64_decimal(n / 10);
        v.push(digit_char_exec(n % 10));
        v
    }
}

/// Decimal notation of `x`.
pub(crate) fn i64_decimal(x: i64) -> (v: Vec<char>)
    ensures
        v@ == int_decimal(x as int),
{
    if x < 0 {
        let m: u64 = (0i128 - (x as i128)) as u64;
        let mut v = Vec::new();
        v.push('-');
        let mut d = u64_decimal(m);
        v.append(&mut d);
        v
    } else {
        u64_decimal(x as u64)
    }
}

/// Whether `c` is an ASCII decimal digit.
pub open spec fn is_digit(c: char) -> bool {
    '0' <= c <= '9'
}

/// The number written by the decimal digits `s` (most significant first).
pub open spec fn digits_value(s: Seq<char>) -> nat
    decreases s.len(),
{
    if s.len() == 0 {
        0
    } else {
        digits_value(s.drop_last()) * 10 + ((s.last() as u32) - ('0' as u32)) as nat
    }
}

/// `s` without one leading `+`.
pub open spec fn unsigned_digits(s: Seq<char>) -> Seq<char> {
    if s.len() > 0 && s[0] == '+' {
        s.skip(1)
    } else {
        s
    }
}

/// `str::parse::<u64>`: an optional `+`, then one or more decimal digits
/// whose value fits in 64 bits.
pub open spec fn parse_u64(s: Seq<char>) -> Option<u64> {
    let digits = unsigned_digits(s);
    if digits.len() > 0 && (forall|i: int| 0 <= i < digits.len() ==> is_digit(#[trigger] digits[i]))
        && digits_value(digits) <= u64::MAX {
        Some(digits_value(digits) as u64)
    } else {
        None
    }
}

proof fn lemma_digits_value_mono(s: Seq<char>, i: int, j: int)
    requires
        0 <= i <= j <= s.len(),
        forall|k: int| 0 <= k < s.len() ==> is_digit(#[trigger] s[k]),
    ensures
        digits_value(s.take(i)) <= digits_value(s.take(j)),
    decreases j - i,
{
    if i < j {
        lemma_digits_value_mono(s, i, j - 1);
        assert(s.take(j).drop_last() =~= s.take(j - 1));
        assert(is_digit(s[j - 1]));
    }
}

/// Parses `s` as `str::parse::<u64>` does (see [`parse_u64`]).
pub(crate) fn parse_u64_exec(s: &[char]) -> (r: Option<u64>)
    ensures
        r == parse_u64(s@),
{
    let start: usize = if s.len() > 0 && s[0] == '+' {
        1
    } else {
        0
    };
    let ghost digits = unsigned_digits(s@);
    assert(digits =~= s@.skip(start as int));
    if start >= s.len() {
        return None;
    }
    let mut k: usize = start;
    while k < s.len()
        invariant
            start <= k <= s.len(),
            digits == unsigned_digits(s@),
            digits == s@.skip(start as int),
            forall|i: int| 0 <= i < k - start ==> is_digit(#[trigger] digits[i]),
        decreases s.len() - k,
    {
        if !('0' <= s[k] && s[k] <= '9') {
            assert(!is_digit(digits[k - start]));
            return None;
        }
        k = k + 1;
    }
    let mut acc: u64 = 0;
    let mut i: usize = start;
    assert(digits.take(0) =~= Seq::<char>::empty());
    while i < s.len()
        invariant
            start <= i <= s.len(),
            digits == unsigned_digits(s@),
            digits == s@.skip(start as int),
            forall|j: int| 0 <= j < digits.len() ==> is_digit(#[trigger] digits[j]),
            acc == digits_value(digits.take(i - start)),
        decreases s.len() - i,
    {
        assert(digits[i - start] == s@[i as int]);
        assert(is_digit(digits[i - start]));
        let d: u64 = ((s[i] as u32) - ('0' as u32)) as u64;
        assert(digits.take(i - start + 1).drop_last() =~= digits.take(i - start));
        assert(digits.take(i - start + 1).last() == s@[i as int]);
        if acc > 1844674407370955161 || (acc == 1844674407370955161 && d > 5) {
            proof {
                lemma_digits_value_mono(digits, i - start + 1, digits.len() as int);
                assert(digits.take(digits.len() as int) =~= digits);
            }
            return None;
        }
        acc = acc * 10 + d;
        i = i + 1;
    }
    assert(digits.take(digits.len() as int) =~= digits);
    Some(acc)
}

// ───────────────────────── string collections ─────────────────────────

/// `s` with later repetitions of an element removed (first occurrences kept,
/// in order).
pub open spec fn dedup(s: Seq<Seq<char>>) -> Seq<Seq<char>>
    decreases s.len(),
{
    if s.len() == 0 {
        Seq::empty()
    } else {
        let d = dedup(s.drop_last());
        if d.contains(s.last()) {
            d
        } else {
            d.push(s.last())
        }
    }
}

pub proof fn lemma_push_contains<A>(d: Seq<A>, l: A, x: A)
    ensures
        d.push(l).contains(x) <==> (d.contains(x) || x == l),
{
    if d.push(l).contains(x) {
        let i = choose|i: int| 0 <= i < d.push(l).len() && d.push(l)[i] == x;
        if i < d.len() {
            assert(d[i] == x);
        }
    }
    if d.contains(x) {
        let i = choose|i: int| 0 <= i < d.len() && d[i] == x;
        assert(d.push(l)[i] == x);
    }
    if x == l {
        assert(d.push(l)[d.len() as int] == x);
    }
}

pub proof fn lemma_dedup_contains(s: Seq<Seq<char>>, x: Seq<char>)
    ensures
        dedup(s).contains(x) <==> s.contains(x),
    decreases s.len(),
{
    if s.len() > 0 {
        let l = s.last();
        let d = dedup(s.drop_last());
        lemma_dedup_contains(s.drop_last(), x);
        lemma_dedup_contains(s.drop_last(), l);
        assert(s =~= s.drop_last().push(l));
        lemma_push_contains(s.drop_last(), l, x);
        lemma_push_contains(d, l, x);
    }
}

pub proof fn lemma_dedup_no_duplicates(s: Seq<Seq<char>>)
    ensures
        dedup(s).no_duplicates(),
    decreases s.len(),
{
    if s.len() > 0 {
        lemma_dedup_no_duplicates(s.drop_last());
    }
}

/// Whether `v` holds a string equal to `s`.
pub(crate) fn contains_string(v: &[String], s: &String) -> (r: bool)
    ensures
        r == views(v@).contains(s@),
{
    let mut i: usize = 0;
    while i < v.len()
        invariant
            i <= v.len(),
            forall|k: int| 0 <= k < i ==> v@[k]@ != s@,
        decreases v.len() - i,
    {
        if v[i] == *s {
            assert(views(v@)[i as int] == s@);
            return true;
        }
        i = i + 1;
    }
    proof {
        if views(v@).contains(s@) {
            let k = choose|k: int| 0 <= k < views(v@).len() && views(v@)[k] == s@;
            assert(v@[k]@ == s@);
        }
    }
    false
}

// ───────────────────────── hexadecimal numbers ─────────────────────────

/// The lowercase hexadecimal digit for `d` (`0 <= d < 16`).
pub open spec fn hex_digit_char(d: int) -> char {
    if d < 10 {
        digit_char(d)
    } else if d == 10 {
        'a'
    } else if d == 11 {
        'b'
    } else if d == 12 {
        'c'
    } else if d == 13 {
        'd'
    } else if d == 14 {
        'e'
    } else {
        'f'
    }
}

/// Lowercase hexadecimal notation of a natural number, as `{:x}` writes it.
pub open spec fn nat_hex(n: nat) -> Seq<char>
    decreases n,
{
    if n < 16 {
        seq![hex_digit_char(n as int)]
    } else {
        nat_hex(n / 16).push(hex_digit_char((n % 16) as int))
    }
}

fn hex_digit_char_exec(d: u64) -> (c: char)
    requires
        d < 16,
    ensures
        c == hex_digit_char(d as int),
{
    if d < 10 {
        digit_char_exec(d)
    } else if d == 10 {
        'a'
    } else if d == 11 {
        'b'
    } else if d == 12 {
        'c'
    } else if d == 13 {
        'd'
    } else if d == 14 {
        'e'
    } else {
        'f'
    }
}

/// Lowercase hexadecimal digits of `n`.
pub(crate) fn u64_hex(n: u64) -> (v: Vec<char>)
    ensures
        v@ == nat_hex(n as nat),
    decreases n,
{
    if n < 16 {
        let mut v = Vec::new();
        v.push(hex_digit_char_exec(n));
        v
    } else {
        let mut v = u64_hex(n / 16);
        v.push(hex_digit_char_exec(n % 16));
        v
    }
}

// ───────────────────────── lines ─────────────────────────

/// A line without the `\r` of a `\r\n` ending.
pub open spec fn strip_cr(l: Seq<char>) -> Seq<char> {
    if l.len() > 0 && l.last() == '\r' {
        l.drop_last()
    } else {
        l
    }
}

/// `s.lines()`: the pieces between `\n`s, each ended piece without a
/// trailing `\r`; the piece after the last `\n` counts only when it is not
/// empty (so the empty text has no lines).
pub open spec fn text_lines(s: Seq<char>) -> Seq<Seq<char>> {
    let parts = split_char(s, '\n');
    let ended = parts.drop_last().map_values(|l: Seq<char>| strip_cr(l));
    if parts.last().len() == 0 {
        ended
    } else {
        ended.push(parts.last())
    }
}

/// The lines of `s` (see [`text_lines`]).
pub(crate) fn lines_exec(s: &[char]) -> (r: Vec<Vec<char>>)
    ensures
        vec_views(r@) == text_lines(s@),
{
    let parts = split_char_exec(s, '\n');
    proof {
        lemma_split_nonempty(s@, '\n');
    }
    let n = parts.len();
    let ghost ps = vec_views(parts@);
    let mut out: Vec<Vec<char>> = Vec::new();
    let mut i: usize = 0;
    while i + 1 < n
        invariant
            n == parts.len(),
            n >= 1,
            ps == vec_views(parts@),
            ps == split_char(s@, '\n'),
            i + 1 <= n,
            vec_views(out@) == ps.drop_last().take(i as int).map_values(
                |l: Seq<char>| strip_cr(l),
            ),
        decreases n - i,
    {
        let p = &parts[i];
        let mut line: Vec<char> = Vec::new();
        let len = p.len();
        let cut = if len > 0 && p[len - 1] == '\r' {
            len - 1
        } else {
            len
        };
        let mut k: usize = 0;
        while k < cut
            invariant
                k <= cut,
                cut <= p.len(),
                line@ == p@.take(k as int),
            decreases cut - k,
        {
            line.push(p[k]);
            assert(line@ =~= p@.take(k + 1));
            k = k + 1;
        }
        assert(line@ =~= strip_cr(p@));
        let ghost before = vec_views(out@);
        out.push(line);
        assert(vec_views(out@) =~= before.push(strip_cr(ps[i as int])));
        assert(ps.drop_last().take(i + 1) =~= ps.drop_last().take(i as int).push(ps[i as int]));
        assert(vec_views(out@) =~= ps.drop_last().take(i + 1).map_values(
            |l: Seq<char>| strip_cr(l),
        ));
        i = i + 1;
    }
    assert(ps.drop_last().take(i as int) =~= ps.drop_last());
    let last = &parts[n - 1];
    if last.len() > 0 {
        let ghost before = vec_views(out@);
        let mut copy: Vec<char> = Vec::new();
        let mut k: usize = 0;
        while k < last.len()
            invariant
                k <= last.len(),
                copy@ == last@.take(k as int),
            decreases last.len() - k,
        {
            copy.push(last[k]);
            assert(copy@ =~= last@.take(k + 1));
            k = k + 1;
        }
        assert(copy@ =~= last@);
        out.push(copy);
        assert(vec_views(out@) =~= before.push(ps.last()));
    }
    out
}

} // verus!
