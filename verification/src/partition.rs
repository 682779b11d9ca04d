//! Dealing a sequence of items to the processes in contiguous blocks.

use vstd::prelude::*;

verus! {

/// A process's index among the cooperating processes.
pub type Rank = i32;

/// First index of the block of `rank` when `len` items are dealt to `size`
/// processes: every process gets `len / size` items, and each of the first
/// `len % size` processes gets one more.
pub open spec fn slice_start(size: int, rank: int, len: int) -> int {
    rank * (len / size) + if rank < len % size {
        rank
    } else {
        len % size
    }
}

/// Whether index `i` lies in the block of `rank`.
pub open spec fn in_slice(size: int, rank: int, len: int, i: int) -> bool {
    slice_start(size, rank, len) <= i < slice_start(size, rank + 1, len)
}

/// The block of `rank` among `size` processes, as a range of indices into a
/// sequence of `arr_len` items.
pub fn get_slice(size: Rank, rank: Rank, arr_len: usize) -> (r: std::ops::Range<usize>)
    requires
        1 <= size,
        0 <= rank < size,
    ensures
        r.start == slice_start(size as int, rank as int, arr_len as int),
        r.end == slice_start(size as int, rank + 1, arr_len as int),
        r.start <= r.end <= arr_len,
{
    let p: usize = size as usize;
    let k: usize = rank as usize;
    let div: usize = arr_len / p;
    let md: usize = arr_len % p;
    proof {
        lemma_slice_bounds(size as int, rank as int, arr_len as int);
        lemma_slice_bounds(size as int, rank + 1, arr_len as int);
        lemma_slice_len(size as int, rank as int, arr_len as int);
        assert(k * div <= (k + 1) * div) by (nonlinear_arith)
            requires
                div >= 0,
        ;
    }
    let lo: usize = k * div + if k < md {
        k
    } else {
        md
    };
    let hi: usize = (k + 1) * div + if k + 1 < md {
        k + 1
    } else {
        md
    };
    lo..hi
}

/// The block boundaries lie within `0..=len`; the first block starts at 0 and
/// the last one ends at `len`.
pub proof fn lemma_slice_bounds(size: int, rank: int, len: int)
    requires
        1 <= size,
        0 <= rank <= size,
        0 <= len,
    ensures
        0 <= slice_start(size, rank, len) <= len,
        slice_start(size, 0, len) == 0,
        slice_start(size, size, len) == len,
{
    let q = len / size;
    let m = len % size;
    assert(len == q * size + m && 0 <= m < size && 0 <= q) by (nonlinear_arith)
        requires
            q == len / size,
            m == len % size,
            1 <= size,
            0 <= len,
    ;
    assert(0 <= rank * q <= size * q) by (nonlinear_arith)
        requires
            0 <= rank <= size,
            0 <= q,
    ;
    assert(0 * q == 0);
    assert(size * q == q * size) by (nonlinear_arith);
}

/// A block holds `len / size` items, or one more: the first `len % size`
/// blocks are the longer ones.
pub proof fn lemma_slice_len(size: int, rank: int, len: int)
    requires
        1 <= size,
        0 <= rank < size,
        0 <= len,
    ensures
        slice_start(size, rank + 1, len) - slice_start(size, rank, len) == len / size + if rank
            < len % size {
            1int
        } else {
            0int
        },
{
    let q = len / size;
    assert((rank + 1) * q == rank * q + q) by (nonlinear_arith);
}

/// Blocks are ordered: a block of lower rank ends before one of higher rank
/// starts, so no two blocks overlap.
pub proof fn lemma_slices_ordered(size: int, j: int, k: int, len: int)
    requires
        1 <= size,
        0 <= j <= k <= size,
        0 <= len,
    ensures
        slice_start(size, j, len) <= slice_start(size, k, len),
    decreases k - j,
{
    if j < k {
        lemma_slice_len(size, k - 1, len);
        assert(0 <= len / size) by (nonlinear_arith)
            requires
                1 <= size,
                0 <= len,
        ;
        lemma_slices_ordered(size, j, k - 1, len);
    }
}

/// An index belongs to at most one block.
pub proof fn lemma_slices_disjoint(size: int, j: int, k: int, len: int, i: int)
    requires
        1 <= size,
        0 <= j < size,
        0 <= k < size,
        0 <= len,
        in_slice(size, j, len, i),
        in_slice(size, k, len, i),
    ensures
        j == k,
{
    if j < k {
        lemma_slices_ordered(size, j + 1, k, len);
    } else if k < j {
        lemma_slices_ordered(size, k + 1, j, len);
    }
}

/// Every index below `len` belongs to some block; together with
/// `lemma_slices_disjoint`, the blocks partition `0..len`.
pub proof fn lemma_slices_cover(size: int, len: int, i: int) -> (k: int)
    requires
        1 <= size,
        0 <= i < len,
    ensures
        0 <= k < size,
        in_slice(size, k, len, i),
{
    lemma_slice_bounds(size, 0, len);
    lemma_owner_from(size, len, i, 0)
}

proof fn lemma_owner_from(size: int, len: int, i: int, from: int) -> (k: int)
    requires
        1 <= size,
        0 <= i < len,
        0 <= from < size,
        slice_start(size, from, len) <= i,
    ensures
        from <= k < size,
        in_slice(size, k, len, i),
    decreases size - from,
{
    if i < slice_start(size, from + 1, len) {
        from
    } else {
        lemma_slice_bounds(size, size, len);
        lemma_owner_from(size, len, i, from + 1)
    }
}

/// Only indices of the sequence lie in a block.
pub proof fn lemma_slice_within(size: int, rank: int, len: int, i: int)
    requires
        1 <= size,
        0 <= rank < size,
        0 <= len,
        in_slice(size, rank, len, i),
    ensures
        0 <= i < len,
{
    lemma_slice_bounds(size, rank, len);
    lemma_slice_bounds(size, rank + 1, len);
}

} // verus!
