//! Splitting a file's byte length into contiguous fixed-size chunk ranges.
//!
//! A chunk is a half-open byte range `[start, end)`. The ranges returned by
//! [`chunks`] are ordered, contiguous, non-overlapping, cover exactly
//! `[0, file_size)`, and every range except possibly the last has length
//! exactly `chunk_size`.

use vstd::prelude::*;

verus! {

use vstd::arithmetic::div_mod::lemma_fundamental_div_mod_converse;
use vstd::arithmetic::mul::lemma_mul_inequality;
use vstd::arithmetic::mul::lemma_mul_is_distributive_add_other_way;
use vstd::math::min;

/// How many chunks of size `chunk_size` are needed to cover `file_size` bytes.
pub open spec fn chunk_count(file_size: int, chunk_size: int) -> int
    recommends
        chunk_size > 0,
{
    if file_size <= 0 {
        0
    } else {
        (file_size - 1) / chunk_size + 1
    }
}

/// The byte range `[start, end)` of chunk number `i` of a file of
/// `file_size` bytes, split every `chunk_size` bytes.
pub open spec fn chunk_range(file_size: int, chunk_size: int, i: int) -> (int, int)
    recommends
        chunk_size > 0,
{
    (i * chunk_size, min((i + 1) * chunk_size, file_size))
}

/// The chunk cover of `[0, file_size)`: the ranges are ordered, contiguous,
/// non-empty and within the file; the first starts at 0 and the last ends at
/// `file_size`; every range is at most `chunk_size` long and all but the
/// last exactly `chunk_size` long; and each is the closed-form
/// [`chunk_range`] of its position.
pub open spec fn is_chunk_cover(r: Seq<(u64, u64)>, file_size: int, chunk_size: int) -> bool {
    &&& r.len() == chunk_count(file_size, chunk_size)
    &&& forall|i: int|
        0 <= i < r.len() ==> ((#[trigger] r[i]).0 as int, r[i].1 as int) == chunk_range(
            file_size,
            chunk_size,
            i,
        )
    &&& (r.len() == 0 <==> file_size == 0)
    &&& (r.len() > 0 ==> r[0].0 == 0)
    &&& forall|i: int| 0 <= i < r.len() ==> (#[trigger] r[i]).0 < r[i].1 && r[i].1 <= file_size
    &&& forall|i: int| 0 <= i < r.len() - 1 ==> (#[trigger] r[i]).1 == r[i + 1].0
    &&& (r.len() > 0 ==> r[r.len() - 1].1 == file_size)
    &&& forall|i: int| 0 <= i < r.len() ==> (#[trigger] r[i]).1 - r[i].0 <= chunk_size
    &&& forall|i: int| 0 <= i < r.len() - 1 ==> (#[trigger] r[i]).1 - r[i].0 == chunk_size
}

/// Splits `[0, file_size)` into the minimal ordered cover of chunk ranges:
/// contiguous, non-overlapping, each at most `chunk_size` long, and all but
/// the last exactly `chunk_size` long. An empty file yields no ranges.
pub fn chunks(file_size: u64, chunk_size: u64) -> (r: Vec<(u64, u64)>)
    requires
        chunk_size > 0,
    ensures
        r@.len() == chunk_count(file_size as int, chunk_size as int),
        forall|i: int|
            0 <= i < r@.len() ==> ((#[trigger] r@[i]).0 as int, r@[i].1 as int) == chunk_range(
                file_size as int,
                chunk_size as int,
                i,
            ),
        r@.len() == 0 <==> file_size == 0,
        r@.len() > 0 ==> r@[0].0 == 0,
        forall|i: int| 0 <= i < r@.len() ==> (#[trigger] r@[i]).0 < r@[i].1 && r@[i].1 <= file_size,
        forall|i: int| 0 <= i < r@.len() - 1 ==> (#[trigger] r@[i]).1 == r@[i + 1].0,
        r@.len() > 0 ==> r@[r@.len() - 1].1 == file_size,
        forall|i: int| 0 <= i < r@.len() ==> (#[trigger] r@[i]).1 - r@[i].0 <= chunk_size,
        forall|i: int| 0 <= i < r@.len() - 1 ==> (#[trigger] r@[i]).1 - r@[i].0 == chunk_size,
        is_chunk_cover(r@, file_size as int, chunk_size as int),
{
    let mut r: Vec<(u64, u64)> = Vec::new();
    let mut start: u64 = 0;
    while start < file_size
        invariant
            chunk_size > 0,
            start <= file_size,
            forall|i: int|
                0 <= i < r@.len() ==> ((#[trigger] r@[i]).0 as int, r@[i].1 as int) == chunk_range(
                    file_size as int,
                    chunk_size as int,
                    i,
                ),
            forall|i: int| 0 <= i < r@.len() ==> #[trigger] (i * (chunk_size as int)) < file_size as int,
            r@.len() == 0 ==> start == 0,
            r@.len() > 0 ==> start as int == r@[r@.len() - 1].1,
            start < file_size ==> start as int == r@.len() * (chunk_size as int),
        decreases file_size - start,
    {
        let ghost i = r@.len() as int;
        let end = if file_size - start > chunk_size {
            start + chunk_size
        } else {
            file_size
        };
        proof {
            lemma_mul_is_distributive_add_other_way(chunk_size as int, i, 1);
            assert((i + 1) * (chunk_size as int) == i * (chunk_size as int) + chunk_size as int);
        }
        r.push((start, end));
        start = end;
    }
    proof {
        let n = r@.len() as int;
        let fsi = file_size as int;
        let csi = chunk_size as int;
        if n == 0 {
            assert(file_size == 0);
        } else {
            // The last chunk ends at `file_size`, so `n` is the minimal count.
            assert(r@[n - 1].1 == file_size);
            assert(r@[n - 1].1 as int == min(n * csi, fsi)) by {
                lemma_mul_is_distributive_add_other_way(csi, n - 1, 1);
            }
            assert(fsi <= n * csi);
            assert((n - 1) * csi < fsi);
            lemma_mul_is_distributive_add_other_way(csi, n - 1, 1);
            assert(n * csi == (n - 1) * csi + csi);
            lemma_fundamental_div_mod_converse(fsi - 1, csi, n - 1, fsi - 1 - (n - 1) * csi);
            assert(chunk_count(fsi, csi) == n);
            assert(0 * csi == 0) by {
                lemma_mul_inequality(0, 0, csi);
            }
        }
        assert forall|i: int| 0 <= i < r@.len() implies (#[trigger] r@[i]).0 < r@[i].1 && r@[i].1
            <= file_size by {
            lemma_mul_is_distributive_add_other_way(csi, i, 1);
        }
        assert forall|i: int| 0 <= i < r@.len() - 1 implies (#[trigger] r@[i]).1 == r@[i + 1].0 by {
            lemma_mul_is_distributive_add_other_way(csi, i, 1);
            assert((i + 1) * csi < fsi);
        }
        assert forall|i: int| 0 <= i < r@.len() implies (#[trigger] r@[i]).1 - r@[i].0
            <= chunk_size by {
            lemma_mul_is_distributive_add_other_way(csi, i, 1);
        }
        assert forall|i: int| 0 <= i < r@.len() - 1 implies (#[trigger] r@[i]).1 - r@[i].0
            == chunk_size by {
            lemma_mul_is_distributive_add_other_way(csi, i, 1);
            assert((i + 1) * csi < fsi);
        }
    }
    r
}

/// Chunk cover law: ordered, contiguous, non-empty ranges that start at 0 and
/// end at `file_size` cover every byte of `[0, file_size)`: each byte position
/// lies inside one of the ranges.
pub proof fn lemma_chunks_cover(r: Seq<(u64, u64)>, file_size: u64, b: u64)
    requires
        r.len() > 0 ==> r[0].0 == 0,
        forall|i: int| 0 <= i < r.len() ==> (#[trigger] r[i]).0 < r[i].1,
        forall|i: int| 0 <= i < r.len() - 1 ==> (#[trigger] r[i]).1 == r[i + 1].0,
        r.len() > 0 ==> r[r.len() - 1].1 == file_size,
        r.len() == 0 ==> file_size == 0,
        b < file_size,
    ensures
        exists|i: int| 0 <= i < r.len() && (#[trigger] r[i]).0 <= b < r[i].1,
    decreases r.len(),
{
    let n = r.len() as int;
    if b >= r[n - 1].0 {
        assert(r[n - 1].0 <= b < r[n - 1].1);
    } else {
        let prefix = r.drop_last();
        assert(r[n - 2].1 == r[n - 1].0);
        assert forall|i: int| 0 <= i < prefix.len() implies (#[trigger] prefix[i]).0
            < prefix[i].1 by {
            assert(prefix[i] == r[i]);
        }
        assert forall|i: int| 0 <= i < prefix.len() - 1 implies (#[trigger] prefix[i]).1
            == prefix[i + 1].0 by {
            assert(prefix[i] == r[i]);
            assert(prefix[i + 1] == r[i + 1]);
        }
        lemma_chunks_cover(prefix, r[n - 1].0, b);
        let w = choose|i: int| 0 <= i < prefix.len() && (#[trigger] prefix[i]).0 <= b
            < prefix[i].1;
        assert(prefix[w] == r[w]);
        assert(r[w].0 <= b < r[w].1);
    }
}

/// Chunk disjointness law: ordered contiguous non-empty ranges do not
/// overlap: an earlier range ends no later than a later range begins.
pub proof fn lemma_chunks_disjoint(r: Seq<(u64, u64)>)
    requires
        forall|i: int| 0 <= i < r.len() ==> (#[trigger] r[i]).0 < r[i].1,
        forall|i: int| 0 <= i < r.len() - 1 ==> (#[trigger] r[i]).1 == r[i + 1].0,
    ensures
        forall|i: int, j: int| 0 <= i < j < r.len() ==> (#[trigger] r[i]).1 <= (#[trigger] r[j]).0,
{
    assert forall|i: int, j: int| 0 <= i < j < r.len() implies (#[trigger] r[i]).1 <= (
    #[trigger] r[j]).0 by {
        lemma_chunks_ordered_step(r, i, j);
    }
}

proof fn lemma_chunks_ordered_step(r: Seq<(u64, u64)>, i: int, j: int)
    requires
        forall|k: int| 0 <= k < r.len() ==> (#[trigger] r[k]).0 < r[k].1,
        forall|k: int| 0 <= k < r.len() - 1 ==> (#[trigger] r[k]).1 == r[k + 1].0,
        0 <= i < j < r.len(),
    ensures
        r[i].1 <= r[j].0,
    decreases j - i,
{
    if j == i + 1 {
        assert(r[i].1 == r[j].0);
    } else {
        lemma_chunks_ordered_step(r, i + 1, j);
        assert(r[i].1 == r[i + 1].0);
    }
}

} // verus!
