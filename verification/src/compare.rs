//! Buffer comparison: the absolute difference of two buffers, summing the
//! difference in length with the difference of every byte pair over the
//! common prefix. Two buffers identical in size and content compare to 0.

use vstd::prelude::*;

verus! {

/// The absolute difference of two integers.
pub open spec fn abs_diff(a: int, b: int) -> int {
    if a >= b {
        a - b
    } else {
        b - a
    }
}

/// The summed absolute differences of the first `n` byte pairs.
pub open spec fn byte_diff_sum(b1: Seq<u8>, b2: Seq<u8>, n: int) -> int
    decreases n,
{
    if n <= 0 {
        0
    } else {
        byte_diff_sum(b1, b2, n - 1) + abs_diff(b1[n - 1] as int, b2[n - 1] as int)
    }
}

/// The smaller of two lengths.
pub open spec fn min_len(b1: Seq<u8>, b2: Seq<u8>) -> int {
    if b1.len() <= b2.len() {
        b1.len() as int
    } else {
        b2.len() as int
    }
}

/// The absolute difference of two buffers: difference in length plus the
/// byte differences over the common prefix.
pub open spec fn buffers_diff(b1: Seq<u8>, b2: Seq<u8>) -> int {
    abs_diff(b1.len() as int, b2.len() as int) + byte_diff_sum(b1, b2, min_len(b1, b2))
}

/// Partial sums of byte differences never decrease.
proof fn lemma_byte_diff_sum_mono(b1: Seq<u8>, b2: Seq<u8>, n: int, m: int)
    requires
        0 <= n <= m,
    ensures
        byte_diff_sum(b1, b2, n) <= byte_diff_sum(b1, b2, m),
    decreases m,
{
    if n < m {
        lemma_byte_diff_sum_mono(b1, b2, n, m - 1);
    }
}

/// Byte difference sums start at zero and only grow.
proof fn lemma_byte_diff_sum_nonneg(b1: Seq<u8>, b2: Seq<u8>, n: int)
    ensures
        byte_diff_sum(b1, b2, n) >= 0,
    decreases n,
{
    if n > 0 {
        lemma_byte_diff_sum_nonneg(b1, b2, n - 1);
    }
}

/// Compares two buffers and returns their absolute difference. Identical
/// buffers, in size and content, return 0.
pub fn compare_buffers(b1: &Vec<u8>, b2: &Vec<u8>) -> (diff: usize)
    requires
        buffers_diff(b1@, b2@) <= usize::MAX,
    ensures
        diff == buffers_diff(b1@, b2@),
{
    let mut diff: usize = if b1.len() > b2.len() {
        b1.len() - b2.len()
    } else {
        b2.len() - b1.len()
    };
    let size: usize = if b1.len() <= b2.len() {
        b1.len()
    } else {
        b2.len()
    };
    let mut i: usize = 0;
    while i < size
        invariant
            i <= size,
            size == min_len(b1@, b2@),
            buffers_diff(b1@, b2@) <= usize::MAX,
            diff == abs_diff(b1@.len() as int, b2@.len() as int) + byte_diff_sum(b1@, b2@, i as int),
        decreases size - i,
    {
        proof {
            lemma_byte_diff_sum_mono(b1@, b2@, i + 1, size as int);
            lemma_byte_diff_sum_nonneg(b1@, b2@, i as int);
        }
        if b1[i] > b2[i] {
            diff = diff + ((b1[i] - b2[i]) as usize);
        } else {
            diff = diff + ((b2[i] - b1[i]) as usize);
        }
        i = i + 1;
    }
    diff
}

} // verus!
