//! Locating a vector id in a sorted run of holders (files or blocks), each of
//! which covers the ids `start .. start + count`.

use vstd::prelude::*;

use crate::block::VectorBlockMeta;
use crate::error::VectorError;
use crate::file::{block_counts, block_starts, file_counts, file_starts, VectorFileInfo};

verus! {

/// `f` may be called on every holder of `holders`.
pub open spec fn callable_on<T, F: Fn(&T) -> usize>(f: F, holders: Seq<T>) -> bool {
    forall|i: int| 0 <= i < holders.len() ==> call_requires(f, (&#[trigger] holders[i],))
}

/// Whatever `f` returns on the holder at a position of `holders` is the
/// number at that position of `values`.
pub open spec fn reads_as<T, F: Fn(&T) -> usize>(f: F, holders: Seq<T>, values: Seq<usize>) -> bool {
    &&& values.len() == holders.len()
    &&& forall|i: int, r: usize|
        0 <= i < holders.len() && #[trigger] call_ensures(f, (&holders[i],), r) ==> r == values[i]
}

/// The start ids never decrease along the run.
pub open spec fn sorted_starts(starts: Seq<usize>) -> bool {
    forall|i: int, j: int| 0 <= i <= j < starts.len() ==> starts[i] <= starts[j]
}

/// Each holder starts where the one before it ends.
pub open spec fn contiguous(starts: Seq<usize>, counts: Seq<usize>) -> bool {
    &&& starts.len() == counts.len()
    &&& forall|i: int, j: int|
        0 <= i && j == i + 1 && j < starts.len() ==> #[trigger] starts[j] == #[trigger] starts[i]
            + counts[i]
}

/// The position behind the last holder that starts at or before `idx`: 0 where
/// there is none.
pub open spec fn holders_at_or_before(starts: Seq<usize>, idx: usize) -> nat
    decreases starts.len(),
{
    if starts.len() == 0 {
        0
    } else if starts.last() <= idx {
        starts.len()
    } else {
        holders_at_or_before(starts.drop_last(), idx)
    }
}

/// Where `idx` lies in a run of holders with the given start ids and counts:
/// the index of the last holder that starts at or before `idx` and the offset
/// of `idx` in it, or the reason why no holder has it.
pub open spec fn locate(starts: Seq<usize>, counts: Seq<usize>, idx: usize) -> Result<
    (usize, usize),
    VectorError,
> {
    let p = holders_at_or_before(starts, idx);
    if p == 0 {
        Err(
            VectorError::IdTooSmall {
                idx,
                first_vector_id: if starts.len() == 0 {
                    0
                } else {
                    starts[0]
                },
            },
        )
    } else if idx - starts[p - 1] >= counts[p - 1] {
        Err(VectorError::IdOutOfRange { idx, holder_idx: (p - 1) as usize })
    } else {
        Ok(((p - 1) as usize, (idx - starts[p - 1]) as usize))
    }
}

/// In a sorted run, a position `p` that has every start at or before `idx` in
/// front of it and every later start behind it is the one that
/// [`holders_at_or_before`] names.
pub proof fn lemma_partition_point(starts: Seq<usize>, idx: usize, p: int)
    requires
        0 <= p <= starts.len(),
        forall|i: int| 0 <= i < p ==> starts[i] <= idx,
        forall|i: int| p <= i < starts.len() ==> starts[i] > idx,
    ensures
        holders_at_or_before(starts, idx) == p,
    decreases starts.len(),
{
    if starts.len() > 0 && starts.last() > idx {
        let shorter = starts.drop_last();
        assert(p < starts.len());
        assert forall|i: int| 0 <= i < p implies shorter[i] <= idx by {
            assert(shorter[i] == starts[i]);
        }
        assert forall|i: int| p <= i < shorter.len() implies shorter[i] > idx by {
            assert(shorter[i] == starts[i]);
        }
        lemma_partition_point(shorter, idx, p);
    }
}

/// Contiguous holders are sorted by start id.
pub proof fn lemma_contiguous_sorted(starts: Seq<usize>, counts: Seq<usize>)
    requires
        contiguous(starts, counts),
    ensures
        sorted_starts(starts),
    decreases starts.len(),
{
    if starts.len() > 1 {
        let n = starts.len() - 1;
        let s = starts.drop_last();
        let c = counts.drop_last();
        assert forall|i: int, j: int| 0 <= i && j == i + 1 && j < s.len() implies #[trigger] s[j]
            == #[trigger] s[i] + c[i] by {
            assert(starts[j] == starts[i] + counts[i]);
        }
        lemma_contiguous_sorted(s, c);
        assert(starts[n] == starts[n - 1] + counts[n - 1]);
        assert forall|i: int, j: int| 0 <= i <= j < starts.len() implies starts[i]
            <= starts[j] by {
            if j == n {
                if i < n {
                    assert(s[i] <= s[n - 1]);
                }
            } else {
                assert(s[i] <= s[j]);
            }
        }
    }
}

/// On contiguous holders, every id from the first start up to the end of the
/// last holder is found, and the holder and offset that are returned add up to
/// the id, the offset lying inside the holder.
pub proof fn lemma_locate_contiguous(starts: Seq<usize>, counts: Seq<usize>, idx: usize)
    requires
        contiguous(starts, counts),
        0 < starts.len() <= usize::MAX,
        starts[0] <= idx < starts.last() + counts.last(),
    ensures
        locate(starts, counts, idx) is Ok,
        ({
            let (h, off) = locate(starts, counts, idx)->Ok_0;
            &&& h < starts.len()
            &&& starts[h as int] + off == idx
            &&& off < counts[h as int]
        }),
    decreases starts.len(),
{
    if starts.last() <= idx {
    } else {
        let n = starts.len() - 1;
        assert(n > 0);
        let s = starts.drop_last();
        let c = counts.drop_last();
        assert(starts[n] == starts[n - 1] + counts[n - 1]);
        assert forall|i: int, j: int| 0 <= i && j == i + 1 && j < s.len() implies #[trigger] s[j]
            == #[trigger] s[i] + c[i] by {
            assert(starts[j] == starts[i] + counts[i]);
        }
        lemma_locate_contiguous(s, c, idx);
        let p = holders_at_or_before(s, idx);
        assert(holders_at_or_before(starts, idx) == p);
        lemma_holders_at_or_before_bounds(s, idx);
        assert(s[p - 1] == starts[p - 1]);
        assert(c[p - 1] == counts[p - 1]);
    }
}

/// [`holders_at_or_before`] stays inside the run, and the holder in front of a
/// positive result starts at or before the id.
pub proof fn lemma_holders_at_or_before_bounds(starts: Seq<usize>, idx: usize)
    ensures
        holders_at_or_before(starts, idx) <= starts.len(),
        holders_at_or_before(starts, idx) > 0 ==> starts[holders_at_or_before(starts, idx) - 1]
            <= idx,
        forall|i: int|
            holders_at_or_before(starts, idx) <= i < starts.len() ==> starts[i] > idx,
    decreases starts.len(),
{
    if starts.len() > 0 && starts.last() > idx {
        let s = starts.drop_last();
        lemma_holders_at_or_before_bounds(s, idx);
        let p = holders_at_or_before(s, idx);
        if p > 0 {
            assert(s[p - 1] == starts[p - 1]);
        }
        assert forall|i: int| p <= i < starts.len() implies starts[i] > idx by {
            if i < s.len() {
                assert(s[i] == starts[i]);
            }
        }
    }
}

/// No start in front of `lo` lies behind `idx`, and every start from `hi` on does.
pub open spec fn brackets(starts: Seq<usize>, idx: usize, lo: int, hi: int) -> bool {
    &&& forall|i: int| 0 <= i < lo && i < starts.len() ==> starts[i] <= idx
    &&& forall|i: int| hi <= i < starts.len() ==> starts[i] > idx
}

/// Finds the holder that has the vector `idx`, in a run sorted by start id.
///
/// `get_start_vector_id` and `get_vector_count` read a holder's first id and
/// the number of ids it covers. The result is the index of the holder and the
/// offset of `idx` inside it, as [`locate`] gives them for the numbers that the
/// two functions read.
pub fn search_vector<T>(
    vector_holders: &[T],
    idx: usize,
    get_start_vector_id: impl Fn(&T) -> usize,
    get_vector_count: impl Fn(&T) -> usize,
) -> (res: Result<(usize, usize), VectorError>)
    requires
        callable_on(get_start_vector_id, vector_holders@),
        callable_on(get_vector_count, vector_holders@),
    ensures
        forall|starts: Seq<usize>, counts: Seq<usize>|
            #[trigger] reads_as(get_start_vector_id, vector_holders@, starts) && #[trigger] reads_as(
                get_vector_count,
                vector_holders@,
                counts,
            ) && sorted_starts(starts) ==> res == locate(starts, counts, idx),
{
    let mut lo: usize = 0;
    let mut hi: usize = vector_holders.len();
    while lo < hi
        invariant
            lo <= hi <= vector_holders.len(),
            callable_on(get_start_vector_id, vector_holders@),
            forall|starts: Seq<usize>| #[trigger]
                reads_as(get_start_vector_id, vector_holders@, starts) && sorted_starts(starts)
                    ==> brackets(starts, idx, lo as int, hi as int),
        decreases hi - lo,
    {
        let mid: usize = lo + (hi - lo) / 2;
        let start = get_start_vector_id(&vector_holders[mid]);
        let ghost old_lo = lo;
        let ghost old_hi = hi;
        if start <= idx {
            lo = mid + 1;
        } else {
            hi = mid;
        }
        assert forall|starts: Seq<usize>| #[trigger]
            reads_as(get_start_vector_id, vector_holders@, starts) && sorted_starts(
                starts,
            ) implies brackets(starts, idx, lo as int, hi as int) by {
            assert(brackets(starts, idx, old_lo as int, old_hi as int));
            assert(start == starts[mid as int]);
        }
    }
    let res = if lo == 0 {
        let first_vector_id: usize = if vector_holders.len() == 0 {
            0
        } else {
            get_start_vector_id(&vector_holders[0])
        };
        Err(VectorError::IdTooSmall { idx, first_vector_id })
    } else {
        let holder_idx: usize = lo - 1;
        let holder = &vector_holders[holder_idx];
        let start = get_start_vector_id(holder);
        let count = get_vector_count(holder);
        if start > idx {
            // Unreachable on a sorted run; the result is then unspecified.
            Err(VectorError::IdOutOfRange { idx, holder_idx })
        } else if idx - start >= count {
            Err(VectorError::IdOutOfRange { idx, holder_idx })
        } else {
            Ok((holder_idx, idx - start))
        }
    };
    assert forall|starts: Seq<usize>, counts: Seq<usize>|
        #[trigger] reads_as(get_start_vector_id, vector_holders@, starts) && #[trigger] reads_as(
            get_vector_count,
            vector_holders@,
            counts,
        ) && sorted_starts(starts) implies res == locate(starts, counts, idx) by {
        assert(brackets(starts, idx, lo as int, hi as int));
        lemma_partition_point(starts, idx, lo as int);
    }
    res
}

/// Finds the file that has the vector `idx`, in a run sorted by start id.
pub fn search_vector_files(files: &[VectorFileInfo], idx: usize) -> (res: Result<
    &VectorFileInfo,
    VectorError,
>)
    requires
        sorted_starts(file_starts(files@)),
    ensures
        match locate(file_starts(files@), file_counts(files@), idx) {
            Ok((file_idx, _)) => file_idx < files@.len() && res == Ok::<
                &VectorFileInfo,
                VectorError,
            >(&files@[file_idx as int]),
            Err(e) => res == Err::<&VectorFileInfo, VectorError>(e),
        },
{
    let get_start = |file: &VectorFileInfo| -> (start: usize)
        ensures
            start == file.start_vector_id,
        { file.start_vector_id };
    let get_count = |file: &VectorFileInfo| -> (count: usize)
        ensures
            count == file.vector_count,
        { file.vector_count };
    proof {
        assert(reads_as(get_start, files@, file_starts(files@)));
        assert(reads_as(get_count, files@, file_counts(files@)));
        lemma_holders_at_or_before_bounds(file_starts(files@), idx);
    }
    match search_vector(files, idx, get_start, get_count) {
        Ok((file_idx, _)) => Ok(&files[file_idx]),
        Err(e) => Err(e),
    }
}

/// Finds the block that has the vector `idx`, in a run of block metas sorted
/// by start id: the meta, its index and the offset of `idx` in the block.
pub fn search_blocks(blocks: &[VectorBlockMeta], idx: usize) -> (res: Result<
    (&VectorBlockMeta, usize, usize),
    VectorError,
>)
    requires
        sorted_starts(block_starts(blocks@)),
    ensures
        match locate(block_starts(blocks@), block_counts(blocks@), idx) {
            Ok((block_idx, offset)) => block_idx < blocks@.len() && res == Ok::<
                (&VectorBlockMeta, usize, usize),
                VectorError,
            >((&blocks@[block_idx as int], block_idx, offset)),
            Err(e) => res == Err::<(&VectorBlockMeta, usize, usize), VectorError>(e),
        },
{
    let get_start = |block: &VectorBlockMeta| -> (start: usize)
        ensures
            start == block.start_vector_id,
        { block.start_vector_id };
    let get_count = |block: &VectorBlockMeta| -> (count: usize)
        ensures
            count == block.vector_count,
        { block.vector_count };
    proof {
        assert(reads_as(get_start, blocks@, block_starts(blocks@)));
        assert(reads_as(get_count, blocks@, block_counts(blocks@)));
        lemma_holders_at_or_before_bounds(block_starts(blocks@), idx);
    }
    match search_vector(blocks, idx, get_start, get_count) {
        Ok((block_idx, offset)) => Ok((&blocks[block_idx], block_idx, offset)),
        Err(e) => Err(e),
    }
}

} // verus!
