//! Segmented (HTTP Range) download planning: how a file is cut into
//! segments, how the total size is read from a `Content-Range` header, and
//! the decisions the downloader takes around the network transfers.
use vstd::prelude::*;

use crate::text::{
    append_chars, nat_decimal, u64_decimal, chars_of, last_index_of, parse_u64, parse_u64_exec, string_from_chars, sub_chars, trim,
    trim_exec, views,
};

verus! {

/// Upper bound of concurrent connections.
pub const MAX_SEGMENTS: usize = 16;

/// Smallest segment worth its own connection (256 KiB).
pub const MIN_SEGMENT_BYTES: u64 = 262144;

/// Attempts per segment and source before giving up on it.
pub const SEGMENT_ATTEMPTS: usize = 3;

/// How a download ended when it did not fail.
#[derive(Debug, Clone, Copy, PartialEq, Eq, Structural)]
pub enum DownloadOutcome {
    /// The whole file was written to the partial file.
    Done,
    /// The caller asked to stop; the partial file was removed.
    Cancelled,
}

/// Number of segments `plan_segments` cuts `total` bytes into (for
/// `total > 0`): one per `MIN_SEGMENT_BYTES` (at least one), at most
/// `max(max_segments, 1)` and at most `total`.
pub open spec fn segment_count(total: nat, max_segments: nat) -> nat {
    let wanted: nat = if total / (MIN_SEGMENT_BYTES as nat) >= 1 {
        total / (MIN_SEGMENT_BYTES as nat)
    } else {
        1
    };
    let cap: nat = if max_segments >= 1 {
        max_segments
    } else {
        1
    };
    let c: nat = if wanted < cap {
        wanted
    } else {
        cap
    };
    if c < total {
        c
    } else {
        total
    }
}

/// First byte of segment `i` when `total` bytes are cut into `count`
/// segments, the first `total % count` of them one byte longer.
pub open spec fn segment_start(total: nat, count: nat, i: nat) -> nat {
    i * (total / count) + if i < total % count {
        i
    } else {
        total % count
    }
}

proof fn lemma_segment_step(total: nat, count: nat, i: nat)
    requires
        count > 0,
    ensures
        segment_start(total, count, i + 1) == segment_start(total, count, i) + total / count + (
        if i < total % count {
            1int
        } else {
            0int
        }),
{
    let b = total / count;
    assert((i + 1) * b == i * b + b) by (nonlinear_arith);
}

proof fn lemma_segment_bounds(total: nat, count: nat, i: nat)
    requires
        count > 0,
        i <= count,
    ensures
        segment_start(total, count, i) <= total,
        segment_start(total, count, count) == total,
        segment_start(total, count, 0) == 0,
{
    let b = total / count;
    let r = total % count;
    vstd::arithmetic::div_mod::lemma_fundamental_div_mod(total as int, count as int);
    assert(i * b <= count * b) by (nonlinear_arith)
        requires
            i <= count,
    ;
    assert(count * b + r == total);
    assert(0 * b == 0) by (nonlinear_arith);
}

proof fn lemma_segment_floor(total: nat, count: nat)
    requires
        count >= 1,
        count <= total / (MIN_SEGMENT_BYTES as nat),
    ensures
        total / count >= MIN_SEGMENT_BYTES,
{
    let m = MIN_SEGMENT_BYTES as nat;
    vstd::arithmetic::div_mod::lemma_fundamental_div_mod(total as int, m as int);
    vstd::arithmetic::div_mod::lemma_fundamental_div_mod(total as int, count as int);
    let q = total / m;
    let b = total / count;
    assert(count * m <= total) by (nonlinear_arith)
        requires
            count <= q,
            m * q + total % m == total,
            total % m >= 0,
            m > 0,
    ;
    assert(b >= m) by (nonlinear_arith)
        requires
            count * m <= total,
            count * b + total % count == total,
            0 <= total % count < count,
            count >= 1,
    ;
}

/// Cuts `total` bytes into at most `max_segments` closed byte ranges that
/// cover `0..total` exactly, in order and without overlap; a file smaller
/// than two minimum segments gets a single range, an empty one none.
pub fn plan_segments(total: u64, max_segments: usize) -> (r: Vec<(u64, u64)>)
    ensures
        total == 0 ==> r.len() == 0,
        total > 0 ==> r.len() == segment_count(total as nat, max_segments as nat),
        forall|i: int|
            0 <= i < r.len() ==> {
                &&& (#[trigger] r@[i]).0 == segment_start(total as nat, r.len() as nat, i as nat)
                &&& r@[i].1 + 1 == segment_start(total as nat, r.len() as nat, (i + 1) as nat)
            },
        // the ranges cover every byte exactly once
        total > 0 ==> r.len() >= 1 && r@[0].0 == 0 && r@[r.len() - 1].1 == total - 1,
        forall|i: int| 0 <= i < r.len() ==> (#[trigger] r@[i]).0 <= r@[i].1,
        forall|i: int| 0 < i < r.len() ==> (#[trigger] r@[i]).0 == r@[i - 1].1 + 1,
        // no more than asked for, and no segment below the minimum size
        r.len() <= if max_segments >= 1 {
            max_segments as int
        } else {
            1
        },
        r.len() > 1 ==> forall|i: int|
            0 <= i < r.len() ==> (#[trigger] r@[i]).1 - r@[i].0 + 1 >= MIN_SEGMENT_BYTES,
{
    if total == 0 {
        return Vec::new();
    }
    let q: u64 = total / MIN_SEGMENT_BYTES;
    let wanted: u64 = if q >= 1 {
        q
    } else {
        1
    };
    let cap: u64 = if max_segments >= 1 {
        max_segments as u64
    } else {
        1
    };
    let c: u64 = if wanted < cap {
        wanted
    } else {
        cap
    };
    let count64: u64 = if c < total {
        c
    } else {
        total
    };
    assert(count64 <= cap);
    let count: usize = count64 as usize;
    assert(count as nat == segment_count(total as nat, max_segments as nat));
    let base: u64 = total / count64;
    let rem: u64 = total % count64;
    let ghost t = total as nat;
    let ghost n = count as nat;
    assert(base >= 1) by {
        // every segment gets at least one byte since count <= total
        vstd::arithmetic::div_mod::lemma_fundamental_div_mod(t as int, n as int);
        if base == 0 {
            assert(n * 0 == 0) by (nonlinear_arith);
        }
    }
    let mut ranges: Vec<(u64, u64)> = Vec::new();
    let mut start: u64 = 0;
    let mut i: usize = 0;
    proof {
        lemma_segment_bounds(t, n, 0);
    }
    while i < count
        invariant
            0 < count,
            count as nat == n,
            total as nat == t,
            count64 == count,
            base == t / n,
            base >= 1,
            rem == t % n,
            i <= count,
            ranges.len() == i,
            start == segment_start(t, n, i as nat),
            forall|j: int|
                0 <= j < i ==> {
                    &&& (#[trigger] ranges@[j]).0 == segment_start(t, n, j as nat)
                    &&& ranges@[j].1 + 1 == segment_start(t, n, (j + 1) as nat)
                },
        decreases count - i,
    {
        proof {
            lemma_segment_step(t, n, i as nat);
            lemma_segment_bounds(t, n, (i + 1) as nat);
        }
        let extra: u64 = if (i as u64) < rem {
            1
        } else {
            0
        };
        let len: u64 = base + extra;
        ranges.push((start, start + len - 1));
        start = start + len;
        i = i + 1;
    }
    proof {
        lemma_segment_bounds(t, n, n);
        assert forall|j: int| 0 <= j < ranges.len() implies (#[trigger] ranges@[j]).0
            <= ranges@[j].1 by {
            lemma_segment_step(t, n, j as nat);
        }
        if count > 1 {
            assert(count64 <= wanted);
            assert(count64 <= q);
            lemma_segment_floor(t, n);
            assert forall|j: int| 0 <= j < ranges.len() implies (#[trigger] ranges@[j]).1
                - ranges@[j].0 + 1 >= MIN_SEGMENT_BYTES by {
                lemma_segment_step(t, n, j as nat);
            }
        }
    }
    ranges
}

/// The total size in a `Content-Range` value: the text after its last `/`
/// (the whole value when there is none), trimmed, read as a `u64`.
pub open spec fn content_range_total(value: Seq<char>) -> Option<u64> {
    parse_u64(trim(value.skip(last_index_of(value, '/') + 1)))
}

/// Reads the total size out of `Content-Range: bytes 0-0/9748248`.
pub fn parse_content_range_total(value: &str) -> (r: Option<u64>)
    ensures
        r == content_range_total(value@),
{
    let cs = chars_of(value);
    let mut k: usize = cs.len();
    assert(cs@.take(cs@.len() as int) =~= cs@);
    while k > 0 && cs[k - 1] != '/'
        invariant
            k <= cs.len(),
            last_index_of(cs@.take(k as int), '/') == last_index_of(cs@, '/'),
        decreases k,
    {
        assert(cs@.take(k as int).drop_last() =~= cs@.take(k - 1));
        k = k - 1;
    }
    proof {
        if k > 0 {
            assert(cs@.take(k as int).last() == '/');
        } else {
            assert(cs@.take(0) =~= Seq::<char>::empty());
        }
    }
    let piece = sub_chars(&cs, k, cs.len());
    assert(piece@ =~= value@.skip(last_index_of(value@, '/') + 1));
    let t = trim_exec(&piece);
    parse_u64_exec(&t)
}

/// Where a segmented download reads from and writes to.
pub struct SegmentedDownload {
    /// Candidate sources: the first usable one that accepts ranges is the
    /// primary, the others stand by when it keeps failing.
    pub urls: Vec<String>,
    /// Location of the partial file.
    pub part_path: String,
    /// Size announced beforehand, used when probing cannot tell the size.
    pub expected_size: u64,
}

/// The candidates other than `primary`, in their order.
pub open spec fn other_sources(urls: Seq<Seq<char>>, primary: Seq<char>) -> Seq<Seq<char>>
    decreases urls.len(),
{
    if urls.len() == 0 {
        Seq::empty()
    } else {
        let prev = other_sources(urls.drop_last(), primary);
        if urls.last() != primary {
            prev.push(urls.last())
        } else {
            prev
        }
    }
}

/// The sources a segment tries in turn: the primary, then every other
/// candidate (in their order) that differs from it.
pub open spec fn segment_sources(urls: Seq<Seq<char>>, primary: Seq<char>) -> Seq<Seq<char>> {
    seq![primary] + other_sources(urls, primary)
}

impl SegmentedDownload {
    /// The size to download: the probed size when known, otherwise the
    /// announced one; neither known is an error.
    pub fn total_size(&self, probed_size: u64) -> (r: Result<u64, String>)
        ensures
            probed_size > 0 ==> r == Ok::<u64, String>(probed_size),
            probed_size == 0 && self.expected_size > 0 ==> r == Ok::<u64, String>(
                self.expected_size,
            ),
            probed_size == 0 && self.expected_size == 0 ==> (r matches Err(m) && m@
                == "更新包大小未知"@),
    {
        if probed_size > 0 {
            Ok(probed_size)
        } else if self.expected_size > 0 {
            Ok(self.expected_size)
        } else {
            Err(String::from_str("更新包大小未知"))
        }
    }

    /// The sources tried for every segment (see [`segment_sources`]).
    pub fn sources(&self, primary: &String) -> (r: Vec<String>)
        ensures
            views(r@) == segment_sources(views(self.urls@), primary@),
    {
        let mut r: Vec<String> = Vec::new();
        r.push(primary.clone());
        let ghost uv = views(self.urls@);
        let mut i: usize = 0;
        assert(uv.take(0) =~= Seq::<Seq<char>>::empty());
        assert(views(r@) =~= seq![primary@] + other_sources(uv.take(0), primary@));
        while i < self.urls.len()
            invariant
                i <= self.urls.len(),
                uv == views(self.urls@),
                views(r@) == seq![primary@] + other_sources(uv.take(i as int), primary@),
            decreases self.urls.len() - i,
        {
            let u = &self.urls[i];
            assert(uv.take(i + 1).drop_last() =~= uv.take(i as int));
            assert(uv.take(i + 1).last() == u@);
            if !crate::text::chars_eq(&chars_of(u.as_str()), &chars_of(primary.as_str())) {
                let ghost before = views(r@);
                let c = u.clone();
                r.push(c);
                assert(c@ == u@);
                assert(views(r@) =~= before.push(u@));
                assert(other_sources(uv.take(i + 1), primary@) == other_sources(
                    uv.take(i as int),
                    primary@,
                ).push(u@));
                assert(views(r@) =~= seq![primary@] + other_sources(uv.take(i + 1), primary@));
            } else {
                assert(views(r@) =~= seq![primary@] + other_sources(uv.take(i + 1), primary@));
            }
            i = i + 1;
        }
        assert(uv.take(self.urls.len() as int) =~= uv);
        r
    }
}

/// The byte ranges to fetch: [`plan_segments`] with [`MAX_SEGMENTS`] when
/// the source accepts ranges, otherwise one range over the whole file.
pub fn download_ranges(total: u64, accepts_ranges: bool) -> (r: Vec<(u64, u64)>)
    requires
        total > 0,
    ensures
        accepts_ranges ==> r.len() == segment_count(total as nat, MAX_SEGMENTS as nat),
        !accepts_ranges ==> r@ == seq![(0u64, (total - 1) as u64)],
        r.len() >= 1 && r@[0].0 == 0 && r@[r.len() - 1].1 == total - 1,
        forall|i: int| 0 < i < r.len() ==> (#[trigger] r@[i]).0 == r@[i - 1].1 + 1,
        forall|i: int| 0 <= i < r.len() ==> (#[trigger] r@[i]).0 <= r@[i].1,
{
    if accepts_ranges {
        plan_segments(total, MAX_SEGMENTS)
    } else {
        let mut v: Vec<(u64, u64)> = Vec::new();
        v.push((0, total - 1));
        v
    }
}

/// Checks that a ranged segment received exactly its length; a cut-short
/// segment is an error naming both lengths, a whole-file fetch is always
/// accepted.
pub fn check_segment_length(range: Option<(u64, u64)>, written: u64) -> (r: Result<(), String>)
    requires
        range matches Some(p) ==> p.0 <= p.1 && p.1 < u64::MAX,
    ensures
        match range {
            Some(p) => (written == p.1 - p.0 + 1) <==> r is Ok,
            None => r is Ok,
        },
        r matches Err(m) ==> m@ == "分段长度不足（期望 "@ + crate::text::nat_decimal(
            (range.unwrap().1 - range.unwrap().0 + 1) as nat,
        ) + " 字节，实收 "@ + crate::text::nat_decimal(written as nat) + "）"@,
{
    match range {
        Some((start, end)) => {
            let want: u64 = end - start + 1;
            if written != want {
                let mut m = String::from_str("分段长度不足（期望 ");
                let wd = string_from_chars(&crate::text::u64_decimal(want));
                m.append(wd.as_str());
                m.append(" 字节，实收 ");
                let gd = string_from_chars(&crate::text::u64_decimal(written));
                m.append(gd.as_str());
                m.append("）");
                Err(m)
            } else {
                Ok(())
            }
        },
        None => Ok(()),
    }
}

/// Pause before retry number `attempt + 1` of a segment, in milliseconds
/// (it grows by 300 ms with each attempt).
pub fn retry_delay_ms(attempt: usize) -> (r: u64)
    requires
        300 * (attempt + 1) <= u64::MAX,
    ensures
        r == 300 * (attempt + 1),
{
    300 * (attempt as u64 + 1)
}

/// Where one segment stands in its retries. Each source, in order, gets
/// [`SEGMENT_ATTEMPTS`] attempts; the error of the last failed attempt is
/// what the segment reports when every source has failed.
pub struct SegmentRetry {
    /// Position of the segment (0-based).
    pub index: usize,
    /// Number of candidate sources.
    pub sources: usize,
    /// Attempts that failed so far.
    pub tries: usize,
    /// Message of the last failure (`未知错误` before the first).
    pub last_error: String,
}

/// What the downloader does next for a segment.
#[derive(Debug, Clone, PartialEq, Eq)]
pub enum RetryStep {
    /// Fetch from this source (its `attempt`-th try, from 0).
    Fetch { source: usize, attempt: usize },
    /// Every source failed every attempt: the segment fails with this
    /// message.
    GiveUp(String),
}

/// How a failed attempt of segment `index` is reported.
pub open spec fn segment_failure_message(index: nat, message: Seq<char>) -> Seq<char> {
    "第 "@ + nat_decimal(index + 1) + " 段: "@ + message
}

impl SegmentRetry {
    /// A segment that has not been tried yet.
    pub fn new(index: usize, sources: usize) -> (r: Self)
        ensures
            r.index == index,
            r.sources == sources,
            r.tries == 0,
            r.last_error@ == "未知错误"@,
    {
        SegmentRetry { index, sources, tries: 0, last_error: String::from_str("未知错误") }
    }

    /// The next attempt: source `tries / SEGMENT_ATTEMPTS`, try
    /// `tries % SEGMENT_ATTEMPTS`, while sources remain; then give up with
    /// the last error.
    pub fn next_step(&self) -> (r: RetryStep)
        ensures
            self.tries / SEGMENT_ATTEMPTS < self.sources ==> r == (RetryStep::Fetch {
                source: self.tries / SEGMENT_ATTEMPTS,
                attempt: self.tries % SEGMENT_ATTEMPTS,
            }),
            self.tries / SEGMENT_ATTEMPTS >= self.sources ==> (r matches RetryStep::GiveUp(m)
                && m@ == self.last_error@),
    {
        if self.tries / SEGMENT_ATTEMPTS < self.sources {
            RetryStep::Fetch {
                source: self.tries / SEGMENT_ATTEMPTS,
                attempt: self.tries % SEGMENT_ATTEMPTS,
            }
        } else {
            RetryStep::GiveUp(self.last_error.clone())
        }
    }

    /// Records a failed attempt with its message and returns how long to
    /// wait before the next one: 300 ms times the attempt's number at its
    /// source.
    pub fn record_failure(&mut self, message: &str) -> (delay_ms: u64)
        requires
            old(self).tries < usize::MAX,
            old(self).index < usize::MAX,
        ensures
            final(self).index == old(self).index,
            final(self).sources == old(self).sources,
            final(self).tries == old(self).tries + 1,
            final(self).last_error@ == segment_failure_message(old(self).index as nat, message@),
            delay_ms == 300 * (old(self).tries % SEGMENT_ATTEMPTS + 1),
    {
        let delay_ms = retry_delay_ms(self.tries % SEGMENT_ATTEMPTS);
        let mut m = String::from_str("第 ");
        append_chars(&mut m, &u64_decimal((self.index + 1) as u64));
        m.append(" 段: ");
        m.append(message);
        self.last_error = m;
        self.tries = self.tries + 1;
        delay_ms
    }
}

} // verus!
