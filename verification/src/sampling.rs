//! Spatial downsampling: a stretch of the frame is cut into equal chunks and
//! each chunk is delivered as the truncated mean of its colours.

use vstd::prelude::*;
use crate::color::Rgb8;

verus! {

/// The channel totals of `s` over the positions `lo <= i < hi`.
pub open spec fn totals(s: Seq<Rgb8>, lo: int, hi: int) -> (int, int, int)
    decreases hi - lo,
{
    if hi <= lo {
        (0, 0, 0)
    } else {
        let rest = totals(s, lo, hi - 1);
        (rest.0 + s[hi - 1].r, rest.1 + s[hi - 1].g, rest.2 + s[hi - 1].b)
    }
}

/// The mean colour of the positions `lo <= i < hi` of `s`, each channel
/// truncated to a whole level.
pub open spec fn mean(s: Seq<Rgb8>, lo: int, hi: int) -> Rgb8 {
    let t = totals(s, lo, hi);
    Rgb8 {
        r: (t.0 / (hi - lo)) as u8,
        g: (t.1 / (hi - lo)) as u8,
        b: (t.2 / (hi - lo)) as u8,
    }
}

/// The length of one chunk when `start..end` is cut into `count` chunks.
pub open spec fn chunk_len(start: int, end: int, count: int) -> int {
    (end - start) / count
}

/// How many chunks come out: `count` of them, or fewer where the frame ends
/// before the range does.
pub open spec fn chunk_count(len: int, start: int, end: int, count: int) -> int {
    let size = chunk_len(start, end, count);
    if len <= start {
        0
    } else if (len - start + size - 1) / size < count {
        (len - start + size - 1) / size
    } else {
        count
    }
}

/// Where chunk `i` ends: a full chunk after its start, or at the end of the
/// frame if that comes first.
pub open spec fn chunk_end(len: int, start: int, end: int, count: int, i: int) -> int {
    let size = chunk_len(start, end, count);
    if start + (i + 1) * size <= len {
        start + (i + 1) * size
    } else {
        len
    }
}

/// The downsampled frame: chunk `i` starts `i` chunk lengths after `start`
/// and is delivered as its mean.
pub open spec fn scaled(pixels: Seq<Rgb8>, start: int, end: int, count: int) -> Seq<Rgb8> {
    let size = chunk_len(start, end, count);
    Seq::new(
        chunk_count(pixels.len() as int, start, end, count) as nat,
        |i: int| mean(pixels, start + i * size, chunk_end(pixels.len() as int, start, end, count, i)),
    )
}

/// The range can be cut into `count` chunks of at least one position.
pub open spec fn samplable(start: int, end: int, count: int) -> bool {
    0 <= start && 0 < count <= end - start
}

proof fn lemma_totals_bounded(s: Seq<Rgb8>, lo: int, hi: int)
    requires
        0 <= lo <= hi <= s.len(),
    ensures
        0 <= totals(s, lo, hi).0 <= 255 * (hi - lo),
        0 <= totals(s, lo, hi).1 <= 255 * (hi - lo),
        0 <= totals(s, lo, hi).2 <= 255 * (hi - lo),
    decreases hi - lo,
{
    if lo < hi {
        lemma_totals_bounded(s, lo, hi - 1);
    }
}

proof fn lemma_totals_agree(a: Seq<Rgb8>, b: Seq<Rgb8>, lo: int, hi: int)
    requires
        0 <= lo <= hi <= a.len(),
        hi <= b.len(),
        forall|i: int| lo <= i < hi ==> a[i] == b[i],
    ensures
        totals(a, lo, hi) == totals(b, lo, hi),
    decreases hi - lo,
{
    if lo < hi {
        lemma_totals_agree(a, b, lo, hi - 1);
    }
}

proof fn lemma_mean_in_range(total: int, n: int)
    requires
        0 < n,
        0 <= total <= 255 * n,
    ensures
        0 <= total / n <= 255,
{
    assert(0 <= total / n <= 255) by (nonlinear_arith)
        requires
            0 < n,
            0 <= total <= 255 * n,
    ;
}

fn mean_of(pixels: &[Rgb8], lo: usize, hi: usize) -> (c: Rgb8)
    requires
        lo < hi <= pixels.len(),
    ensures
        c == mean(pixels@, lo as int, hi as int),
{
    let mut r: u128 = 0;
    let mut g: u128 = 0;
    let mut b: u128 = 0;
    let mut i: usize = lo;
    while i < hi
        invariant
            lo <= i <= hi <= pixels.len(),
            (r as int, g as int, b as int) == totals(pixels@, lo as int, i as int),
            r <= 255 * (i - lo),
            g <= 255 * (i - lo),
            b <= 255 * (i - lo),
        decreases hi - i,
    {
        let c = pixels[i];
        r = r + c.r as u128;
        g = g + c.g as u128;
        b = b + c.b as u128;
        i = i + 1;
    }
    let n: u128 = (hi - lo) as u128;
    proof {
        lemma_mean_in_range(r as int, n as int);
        lemma_mean_in_range(g as int, n as int);
        lemma_mean_in_range(b as int, n as int);
    }
    Rgb8 { r: (r / n) as u8, g: (g / n) as u8, b: (b / n) as u8 }
}

/// Downsamples the stretch `start..end` of a frame to `count` colours. The
/// stretch is cut into `count` chunks of equal whole length; what is left
/// over at its end belongs to no chunk.
pub fn scale(pixels: &[Rgb8], start: usize, end: usize, count: usize) -> (out: Vec<Rgb8>)
    requires
        samplable(start as int, end as int, count as int),
    ensures
        out@ == scaled(pixels@, start as int, end as int, count as int),
{
    let size: usize = (end - start) / count;
    let len: usize = pixels.len();
    let mut out: Vec<Rgb8> = Vec::new();
    let mut lo: usize = start;
    proof {
        lemma_chunk_len_positive(start as int, end as int, count as int);
    }
    while out.len() < count && lo < len
        invariant
            samplable(start as int, end as int, count as int),
            size == chunk_len(start as int, end as int, count as int),
            size > 0,
            len == pixels.len(),
            out.len() <= count,
            lo == start + out.len() * size || (lo == len && lo <= start + out.len() * size),
            out.len() > 0 ==> start + (out.len() - 1) * size < len,
            out.len() <= chunk_count(len as int, start as int, end as int, count as int),
            lo >= len ==> out.len() == chunk_count(len as int, start as int, end as int, count as int),
            forall|i: int|
                0 <= i < out.len() ==> out[i] == mean(
                    pixels@,
                    start + i * size,
                    chunk_end(len as int, start as int, end as int, count as int, i),
                ),
        decreases count - out.len(),
    {
        let hi: usize = if len - lo >= size {
            lo + size
        } else {
            len
        };
        let ghost k = out.len() as int;
        proof {
            lemma_chunk_progress(len as int, start as int, end as int, count as int, k);
            assert((k + 1) * size == k * size + size) by (nonlinear_arith);
        }
        let c = mean_of(pixels, lo, hi);
        out.push(c);
        lo = hi;
    }
    proof {
        let n = chunk_count(len as int, start as int, end as int, count as int);
        if out.len() < count {
            assert(lo >= len);
        } else {
            assert(out.len() == n);
        }
    }
    out
}

proof fn lemma_chunk_len_positive(start: int, end: int, count: int)
    requires
        samplable(start, end, count),
    ensures
        chunk_len(start, end, count) >= 1,
        count * chunk_len(start, end, count) <= end - start,
{
    let span = end - start;
    assert(span / count >= 1 && count * (span / count) <= span) by (nonlinear_arith)
        requires
            0 < count <= span,
    ;
}

/// While chunk `k` still starts inside the frame, it is one of the chunks
/// that come out, and it is the last one exactly if the frame ends in it.
proof fn lemma_chunk_progress(len: int, start: int, end: int, count: int, k: int)
    requires
        samplable(start, end, count),
        0 <= k < count,
        start + k * chunk_len(start, end, count) < len,
    ensures
        k < chunk_count(len, start, end, count),
        start + (k + 1) * chunk_len(start, end, count) >= len ==> chunk_count(
            len,
            start,
            end,
            count,
        ) == k + 1,
        k + 1 == count ==> chunk_count(len, start, end, count) == count,
{
    lemma_chunk_len_positive(start, end, count);
    let size = chunk_len(start, end, count);
    let avail = len - start;
    let q = (avail + size - 1) / size;
    assert(k < q) by (nonlinear_arith)
        requires
            size >= 1,
            k >= 0,
            k * size < avail,
            q == (avail + size - 1) / size,
    ;
    if start + (k + 1) * size >= len {
        assert(q <= k + 1) by (nonlinear_arith)
            requires
                size >= 1,
                k >= 0,
                (k + 1) * size >= avail,
                avail > 0,
                q == (avail + size - 1) / size,
        ;
    }
}

/// The mean of a stretch that lies in the frame and holds a position is a
/// level of its own right: each channel's total, divided by the number of
/// positions, is between 0 and 255, so that nothing is lost when `mean`
/// takes it for a byte.
pub proof fn lemma_mean_is_a_level(s: Seq<Rgb8>, lo: int, hi: int)
    requires
        0 <= lo < hi <= s.len(),
    ensures
        0 <= totals(s, lo, hi).0 / (hi - lo) <= 255,
        0 <= totals(s, lo, hi).1 / (hi - lo) <= 255,
        0 <= totals(s, lo, hi).2 / (hi - lo) <= 255,
        mean(s, lo, hi).r == totals(s, lo, hi).0 / (hi - lo),
        mean(s, lo, hi).g == totals(s, lo, hi).1 / (hi - lo),
        mean(s, lo, hi).b == totals(s, lo, hi).2 / (hi - lo),
{
    lemma_totals_bounded(s, lo, hi);
    lemma_mean_in_range(totals(s, lo, hi).0, hi - lo);
    lemma_mean_in_range(totals(s, lo, hi).1, hi - lo);
    lemma_mean_in_range(totals(s, lo, hi).2, hi - lo);
}

/// Over a frame that covers the range, exactly `count` colours come out, and
/// each is the truncated mean of one whole chunk: chunk `i` covers the
/// `chunk_len` positions that start `i` chunk lengths after `start`.
pub proof fn lemma_chunks_are_means(pixels: Seq<Rgb8>, start: int, end: int, count: int)
    requires
        samplable(start, end, count),
        end <= pixels.len(),
    ensures
        scaled(pixels, start, end, count).len() == count,
        forall|i: int|
            0 <= i < count ==> #[trigger] scaled(pixels, start, end, count)[i] == mean(
                pixels,
                start + i * chunk_len(start, end, count),
                start + (i + 1) * chunk_len(start, end, count),
            ),
{
    lemma_chunk_len_positive(start, end, count);
    let size = chunk_len(start, end, count);
    let len = pixels.len() as int;
    assert((count - 1) * size + size == count * size) by (nonlinear_arith);
    lemma_chunk_progress(len, start, end, count, count - 1);
    assert forall|i: int| 0 <= i < count implies #[trigger] scaled(pixels, start, end, count)[i]
        == mean(pixels, start + i * size, start + (i + 1) * size) by {
        assert((i + 1) * size <= count * size) by (nonlinear_arith)
            requires
                0 <= i < count,
                size >= 1,
        ;
    }
}

/// The chunks together cover `count * chunk_len` positions from `start` on,
/// which never reach past the range, and nothing else is read: two frames
/// that agree on those positions are downsampled to the same colours.
pub proof fn lemma_remainder_unused(a: Seq<Rgb8>, b: Seq<Rgb8>, start: int, end: int, count: int)
    requires
        samplable(start, end, count),
        end <= a.len(),
        end <= b.len(),
        forall|i: int|
            start <= i < start + count * chunk_len(start, end, count) ==> a[i] == b[i],
    ensures
        start + count * chunk_len(start, end, count) <= end,
        scaled(a, start, end, count) == scaled(b, start, end, count),
{
    lemma_chunk_len_positive(start, end, count);
    lemma_chunks_are_means(a, start, end, count);
    lemma_chunks_are_means(b, start, end, count);
    let size = chunk_len(start, end, count);
    assert forall|i: int| 0 <= i < count implies scaled(a, start, end, count)[i] == scaled(
        b,
        start,
        end,
        count,
    )[i] by {
        assert((i + 1) * size <= count * size && 0 <= i * size && (i + 1) * size == i * size
            + size) by (nonlinear_arith)
            requires
                0 <= i < count,
                size >= 1,
        ;
        lemma_totals_agree(a, b, start + i * size, start + (i + 1) * size);
    }
    assert(scaled(a, start, end, count) =~= scaled(b, start, end, count));
}

} // verus!
