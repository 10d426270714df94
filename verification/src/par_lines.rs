//! Line-aligned byte ranges for parallel line iteration (`par_lines PATH, sub { ... }`).
//! A buffer is cut into at most `max_chunks` contiguous ranges, each starting at a line
//! start, so that no line is split between two ranges.
use vstd::prelude::*;
use vstd::arithmetic::div_mod::{lemma_div_is_ordered, lemma_div_multiples_vanish};
use vstd::arithmetic::mul::lemma_mul_inequality;
use crate::text::{from_utf8_lossy, ends_with_char, pop_char, utf8_lossy, strip_trailing_cr};
use vstd::utf8::{valid_utf8, decode_utf8};

verus! {

/// The newline byte.
pub const NEWLINE: u8 = 10;

/// `p` is the start of a line of `data`: offset 0, or just after a newline.
pub open spec fn is_line_start(data: Seq<u8>, p: int) -> bool {
    p == 0 || (0 < p <= data.len() && data[p - 1] == NEWLINE)
}

/// The first offset at or after `p` that starts a line, or `p` itself when `p` is
/// at or past the end of `data`.
pub open spec fn next_line_start(data: Seq<u8>, p: int) -> int
    decreases data.len() - p,
{
    if p >= data.len() || p <= 0 || data[p - 1] == NEWLINE {
        p
    } else {
        next_line_start(data, p + 1)
    }
}

/// How many ranges are aimed at: `max_chunks`, at least one, at most one per byte.
pub open spec fn chunk_target(len: int, max_chunks: int) -> int {
    let m = if max_chunks < 1 { 1 } else { max_chunks };
    if m < len { m } else { len }
}

/// The `i`-th cut of `data` into `k` ranges: the even cut `i * len / k`, moved forward
/// to the next line start.
pub open spec fn cut_point(data: Seq<u8>, k: int, i: int) -> int {
    next_line_start(data, i * data.len() / k)
}

/// The non-empty ranges between consecutive cuts `0..=n`.
pub open spec fn chunks_upto(data: Seq<u8>, k: int, n: nat) -> Seq<(usize, usize)>
    decreases n,
{
    if n == 0 {
        seq![]
    } else {
        let prev = chunks_upto(data, k, (n - 1) as nat);
        let s = cut_point(data, k, n - 1);
        let e = cut_point(data, k, n as int);
        if s < e {
            prev.push((s as usize, e as usize))
        } else {
            prev
        }
    }
}

/// The ranges `line_aligned_chunks` returns: none for empty data, otherwise the
/// non-empty ranges between the `k + 1` cuts.
pub open spec fn spec_line_aligned_chunks(data: Seq<u8>, max_chunks: usize) -> Seq<(usize, usize)> {
    if data.len() == 0 {
        seq![]
    } else {
        let k = chunk_target(data.len() as int, max_chunks as int);
        chunks_upto(data, k, k as nat)
    }
}

/// `chunks` partitions `0..data.len()` into non-empty ranges in order, each starting
/// at a line start.
pub open spec fn partitions_by_lines(data: Seq<u8>, chunks: Seq<(usize, usize)>) -> bool {
    &&& chunks.len() > 0 ==> chunks[0].0 == 0 && chunks.last().1 == data.len()
    &&& forall|j: int| 0 <= j < chunks.len() ==> (#[trigger] chunks[j]).0 < chunks[j].1
    &&& forall|j: int| 0 <= j < chunks.len() - 1 ==> (#[trigger] chunks[j]).1 == chunks[j + 1].0
    &&& forall|j: int| 0 <= j < chunks.len() ==> is_line_start(data, (#[trigger] chunks[j]).0 as int)
}

proof fn lemma_next_line_start(data: Seq<u8>, p: int)
    requires
        0 <= p <= data.len(),
    ensures
        p <= next_line_start(data, p) <= data.len(),
        is_line_start(data, next_line_start(data, p)) || next_line_start(data, p) == data.len(),
        forall|r: int| p <= r < next_line_start(data, p) ==> !is_line_start(data, r) && r < data.len(),
    decreases data.len() - p,
{
    if p >= data.len() || p <= 0 || data[p - 1] == NEWLINE {
    } else {
        lemma_next_line_start(data, p + 1);
    }
}

proof fn lemma_next_line_start_monotone(data: Seq<u8>, p: int, q: int)
    requires
        0 <= p <= q <= data.len(),
    ensures
        next_line_start(data, p) <= next_line_start(data, q),
{
    lemma_next_line_start(data, p);
    lemma_next_line_start(data, q);
    let a = next_line_start(data, p);
    let b = next_line_start(data, q);
    if b < a {
        assert(p <= b < a);
        assert(!is_line_start(data, b) && b < data.len());
    }
}

proof fn lemma_even_cut(len: int, k: int, i: int, j: int)
    requires
        0 < k <= len,
        0 <= i <= j <= k,
    ensures
        0 <= i * len / k <= j * len / k <= len,
        (k * len) / k == len,
        (0 * len) / k == 0,
{
    lemma_mul_inequality(i, j, len);
    lemma_mul_inequality(j, k, len);
    lemma_mul_inequality(0, i, len);
    lemma_div_is_ordered(i * len, j * len, k);
    lemma_div_is_ordered(j * len, k * len, k);
    lemma_div_is_ordered(0, i * len, k);
    lemma_div_multiples_vanish(len, k);
    assert(0 * len == 0);
}

proof fn lemma_cut_props(data: Seq<u8>, k: int, i: int, j: int)
    requires
        0 < k <= data.len(),
        0 <= i <= j <= k,
    ensures
        0 <= cut_point(data, k, i) <= cut_point(data, k, j) <= data.len(),
        cut_point(data, k, 0) == 0,
        cut_point(data, k, k) == data.len(),
        is_line_start(data, cut_point(data, k, i)) || cut_point(data, k, i) == data.len(),
{
    let len = data.len() as int;
    lemma_even_cut(len, k, i, j);
    lemma_even_cut(len, k, 0, k);
    lemma_next_line_start(data, i * len / k);
    lemma_next_line_start(data, j * len / k);
    lemma_next_line_start_monotone(data, i * len / k, j * len / k);
    assert(k * len / k == len);
}

proof fn lemma_chunks_upto(data: Seq<u8>, k: int, n: nat)
    requires
        0 < k <= data.len(),
        data.len() <= usize::MAX,
        n <= k,
    ensures
        chunks_upto(data, k, n).len() <= n,
        chunks_upto(data, k, n).len() == 0 ==> cut_point(data, k, n as int) == 0,
        chunks_upto(data, k, n).len() > 0 ==> chunks_upto(data, k, n)[0].0 == 0
            && chunks_upto(data, k, n).last().1 == cut_point(data, k, n as int),
        forall|j: int|
            0 <= j < chunks_upto(data, k, n).len() ==> (#[trigger] chunks_upto(data, k, n)[j]).0
                < chunks_upto(data, k, n)[j].1 && is_line_start(data, chunks_upto(data, k, n)[j].0 as int),
        forall|j: int|
            0 <= j < chunks_upto(data, k, n).len() - 1 ==> (#[trigger] chunks_upto(data, k, n)[j]).1
                == chunks_upto(data, k, n)[j + 1].0,
    decreases n,
{
    lemma_cut_props(data, k, 0, n as int);
    if n > 0 {
        lemma_chunks_upto(data, k, (n - 1) as nat);
        lemma_cut_props(data, k, n - 1, n as int);
        let prev = chunks_upto(data, k, (n - 1) as nat);
        let s = cut_point(data, k, n - 1);
        let e = cut_point(data, k, n as int);
        if s < e {
            let c = prev.push((s as usize, e as usize));
            assert(s < data.len());
            assert forall|j: int| 0 <= j < c.len() implies (#[trigger] c[j]).0 < c[j].1
                && is_line_start(data, c[j].0 as int) by {
                if j < prev.len() {
                    assert(c[j] == prev[j]);
                }
            }
            assert forall|j: int| 0 <= j < c.len() - 1 implies (#[trigger] c[j]).1 == c[j + 1].0 by {
                assert(c[j] == prev[j]);
                if j + 1 < prev.len() {
                    assert(c[j + 1] == prev[j + 1]);
                }
            }
        }
    }
}

/// The ranges that `line_aligned_chunks` returns partition the data along line
/// starts, there is at least one of them for non-empty data, and no more than
/// the aimed-at count.
pub proof fn lemma_line_aligned_chunks_partition(data: Seq<u8>, max_chunks: usize)
    requires
        data.len() <= usize::MAX,
    ensures
        partitions_by_lines(data, spec_line_aligned_chunks(data, max_chunks)),
        (spec_line_aligned_chunks(data, max_chunks).len() > 0) == (data.len() > 0),
        spec_line_aligned_chunks(data, max_chunks).len() <= chunk_target(data.len() as int, max_chunks as int),
{
    if data.len() > 0 {
        let k = chunk_target(data.len() as int, max_chunks as int);
        lemma_chunks_upto(data, k, k as nat);
        lemma_cut_props(data, k, 0, k);
    }
}

/// Builds up to `max_chunks` contiguous byte ranges `[start, end)` covering `data`,
/// each starting at a line boundary (offset 0 or just after `\n`). The ranges
/// partition the data without splitting lines.
pub fn line_aligned_chunks(data: &[u8], max_chunks: usize) -> (out: Vec<(usize, usize)>)
    requires
        chunk_target(data@.len() as int, max_chunks as int) * data@.len() <= usize::MAX,
    ensures
        out@ == spec_line_aligned_chunks(data@, max_chunks),
        partitions_by_lines(data@, out@),
        (out@.len() > 0) == (data@.len() > 0),
        out@.len() <= chunk_target(data@.len() as int, max_chunks as int),
{
    let len = data.len();
    proof {
        lemma_line_aligned_chunks_partition(data@, max_chunks);
    }
    if len == 0 {
        return vec![];
    }
    let m = if max_chunks < 1 { 1 } else { max_chunks };
    let k = if m < len { m } else { len };
    let ghost d = data@;
    assert(k == chunk_target(len as int, max_chunks as int));
    assert(k < usize::MAX) by (nonlinear_arith)
        requires
            0 < k <= len,
            k * len <= usize::MAX,
            usize::MAX > 1,
    ;
    // Even cuts i * len / k for i in 0..=k.
    let mut splits: Vec<usize> = Vec::new();
    let mut i: usize = 0;
    while i <= k
        invariant
            0 < k <= len,
            k < usize::MAX,
            len == d.len(),
            k * len <= usize::MAX,
            i <= k + 1,
            splits@.len() == i,
            forall|j: int| 0 <= j < i ==> #[trigger] splits@[j] == j * (len as int) / (k as int),
        decreases k + 1 - i,
    {
        proof {
            lemma_mul_inequality(i as int, k as int, len as int);
        }
        splits.push(i * len / k);
        i = i + 1;
    }
    // Move each inner cut forward to the next line start.
    let mut i: usize = 1;
    while i < k
        invariant
            0 < k <= len,
            len == d.len(),
            d == data@,
            1 <= i <= k,
            splits@.len() == k + 1,
            forall|j: int| 0 <= j < i ==> #[trigger] splits@[j] == cut_point(d, k as int, j),
            forall|j: int| i <= j <= k ==> #[trigger] splits@[j] == j * (len as int) / (k as int),
        decreases k - i,
    {
        let mut p = splits[i];
        proof {
            lemma_even_cut(len as int, k as int, i as int, k as int);
        }
        let ghost start = p as int;
        while p < len && p > 0 && data[p - 1] != NEWLINE
            invariant
                len == d.len(),
                d == data@,
                start <= p <= len,
                next_line_start(d, p as int) == next_line_start(d, start),
            decreases len - p,
        {
            p = p + 1;
        }
        splits.set(i, p);
        i = i + 1;
    }
    proof {
        lemma_cut_props(d, k as int, 0, k as int);
        lemma_even_cut(len as int, k as int, 0, k as int);
        assert(splits@[0] == cut_point(d, k as int, 0));
        assert(splits@[k as int] == cut_point(d, k as int, k as int));
    }
    // Keep the cuts non-decreasing (they already are).
    let mut i: usize = 1;
    while i <= k
        invariant
            0 < k <= len,
            k < usize::MAX,
            len == d.len(),
            1 <= i <= k + 1,
            splits@.len() == k + 1,
            forall|j: int| 0 <= j <= k ==> #[trigger] splits@[j] == cut_point(d, k as int, j),
        decreases k + 1 - i,
    {
        proof {
            lemma_cut_props(d, k as int, i - 1, i as int);
        }
        if splits[i] < splits[i - 1] {
            let prev = splits[i - 1];
            splits.set(i, prev);
        }
        i = i + 1;
    }
    let mut out: Vec<(usize, usize)> = Vec::new();
    let mut i: usize = 0;
    while i < k
        invariant
            0 < k <= len,
            len == d.len(),
            i <= k,
            splits@.len() == k + 1,
            forall|j: int| 0 <= j <= k ==> #[trigger] splits@[j] == cut_point(d, k as int, j),
            out@ == chunks_upto(d, k as int, i as nat),
        decreases k - i,
    {
        let s = splits[i];
        let e = splits[i + 1];
        if s < e {
            out.push((s, e));
        }
        i = i + 1;
    }
    if out.len() == 0 {
        out.push((0, len));
    }
    out
}

/// Converts one line of bytes (no `\n`) to a Perl string, decoding UTF-8 lossily
/// and removing a trailing `\r` (CRLF line endings).
pub fn line_to_perl_string(line: &[u8]) -> (s: String)
    ensures
        s@ == strip_trailing_cr(utf8_lossy(line@)),
        valid_utf8(line@) ==> s@ == strip_trailing_cr(decode_utf8(line@)),
{
    let mut s = from_utf8_lossy(line);
    if ends_with_char(s.as_str(), '\r') {
        pop_char(&mut s);
    }
    s
}

} // verus!
