//! The splitter: partitions the flat resolved-URL list back into contiguous
//! per-document runs, in the same traversal order used to flatten the
//! candidates.

use vstd::prelude::*;

use crate::bytes::copy_bytes;
use crate::link::byte_views;

verus! {

/// Sum of the first `d` counts.
pub open spec fn count_prefix(counts: Seq<int>, d: int) -> int
    decreases d,
{
    if d <= 0 {
        0
    } else {
        count_prefix(counts, d - 1) + counts[d - 1]
    }
}

/// The counts as mathematical integers.
pub open spec fn counts_of(counts: Seq<usize>) -> Seq<int> {
    counts.map_values(|c: usize| c as int)
}

/// Prefix sums of non-negative counts grow with the prefix.
pub proof fn lemma_count_prefix_mono(counts: Seq<int>, d: int, e: int)
    requires
        0 <= d <= e <= counts.len(),
        forall|k: int| 0 <= k < counts.len() ==> counts[k] >= 0,
    ensures
        count_prefix(counts, d) <= count_prefix(counts, e),
    decreases e - d,
{
    if e > d {
        lemma_count_prefix_mono(counts, d, e - 1);
    }
}

/// Copies of the URL lines `urls[from..to]`.
pub(crate) fn copy_run(urls: &Vec<Vec<u8>>, from: usize, to: usize) -> (r: Vec<Vec<u8>>)
    requires
        from <= to <= urls@.len(),
    ensures
        byte_views(r@) == byte_views(urls@).subrange(from as int, to as int),
{
    let mut r: Vec<Vec<u8>> = Vec::new();
    let mut k: usize = from;
    while k < to
        invariant
            from <= k <= to <= urls@.len(),
            byte_views(r@) == byte_views(urls@).subrange(from as int, k as int),
        decreases to - k,
    {
        let u = copy_bytes(&urls[k]);
        proof {
            assert(u@ == urls@[k as int]@);
            let pushed = r@.push(u);
            let target = byte_views(urls@).subrange(from as int, k as int + 1);
            assert(byte_views(r@).len() == r@.len());
            assert(r@.len() == k - from);
            assert forall|j: int| 0 <= j < pushed.len() implies byte_views(pushed)[j] == target[j] by {
                assert(0 <= from + j < urls@.len());
                assert(byte_views(pushed)[j] == pushed[j]@);
                assert(target[j] == byte_views(urls@)[from + j]);
                assert(byte_views(urls@)[from + j] == urls@[from + j]@);
                if j < k - from {
                    assert(pushed[j] == r@[j]);
                    assert(byte_views(r@)[j] == r@[j]@);
                    assert(byte_views(r@)[j] == byte_views(urls@).subrange(
                        from as int,
                        k as int,
                    )[j]);
                } else {
                    assert(pushed[j] == u);
                }
            }
            assert(byte_views(pushed) =~= target);
        }
        r.push(u);
        k = k + 1;
    }
    r
}

/// Order invariant: splitting the global URL list by the per-document counts
/// gives each document the contiguous run that starts at the sum of the
/// counts before it, with the order inside each run preserved; nothing is
/// lost, reordered, or duplicated.
pub fn split_urls(urls: &Vec<Vec<u8>>, counts: &Vec<usize>) -> (r: Vec<Vec<Vec<u8>>>)
    requires
        count_prefix(counts_of(counts@), counts@.len() as int) == urls@.len(),
    ensures
        r@.len() == counts@.len(),
        forall|d: int|
            0 <= d < counts@.len() ==> byte_views((#[trigger] r@[d])@) == byte_views(
                urls@,
            ).subrange(
                count_prefix(counts_of(counts@), d),
                count_prefix(counts_of(counts@), d) + counts@[d],
            ),
{
    let ghost cts = counts_of(counts@);
    let mut out: Vec<Vec<Vec<u8>>> = Vec::new();
    let mut pos: usize = 0;
    let ulen = urls.len();
    let mut d: usize = 0;
    while d < counts.len()
        invariant
            d <= counts@.len(),
            cts == counts_of(counts@),
            count_prefix(cts, counts@.len() as int) == urls@.len(),
            ulen == urls@.len(),
            pos as int == count_prefix(cts, d as int),
            out@.len() == d,
            forall|e: int|
                0 <= e < d ==> byte_views((#[trigger] out@[e])@) == byte_views(urls@).subrange(
                    count_prefix(cts, e),
                    count_prefix(cts, e) + counts@[e],
                ),
        decreases counts@.len() - d,
    {
        let cnt = counts[d];
        proof {
            assert(count_prefix(cts, d as int + 1) == pos + cnt);
            assert(forall|k: int| 0 <= k < cts.len() ==> cts[k] >= 0);
            lemma_count_prefix_mono(cts, d as int + 1, counts@.len() as int);
        }
        let run = copy_run(urls, pos, pos + cnt);
        out.push(run);
        pos = pos + cnt;
        d = d + 1;
    }
    out
}

} // verus!
