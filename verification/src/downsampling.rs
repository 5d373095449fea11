//! Down-sampling by a fixed stride.
//!
//! Every `stride`-th element is retained, starting with the first. The last
//! element is retained only when its index is a multiple of the stride.

use vstd::prelude::*;

verus! {

/// How many of `len` elements a stride retains: those at the indices
/// `0, stride, 2 * stride, ...` below `len`.
pub open spec fn retained_count(len: int, stride: int) -> int {
    if len <= 0 {
        0
    } else {
        (len - 1) / stride + 1
    }
}

/// The elements of `items` at the multiples of `stride`, in their order.
pub open spec fn strided<T>(items: Seq<T>, stride: int) -> Seq<T> {
    Seq::new(retained_count(items.len() as int, stride) as nat, |k: int| items[k * stride])
}

/// The retained indices are exactly the multiples of the stride below `len`.
pub proof fn lemma_retained_indices(len: int, stride: int, k: int)
    requires
        0 <= len,
        0 < stride,
        0 <= k,
    ensures
        k < retained_count(len, stride) <==> k * stride < len,
        0 <= k * stride,
{
    assert(0 <= k * stride) by (nonlinear_arith)
        requires
            0 <= k,
            0 < stride,
    ;
    if len > 0 {
        let q = (len - 1) / stride;
        assert(q * stride <= len - 1 < q * stride + stride) by (nonlinear_arith)
            requires
                q == (len - 1) / stride,
                0 < stride,
                0 <= len - 1,
        ;
        if k <= q {
            assert(k * stride <= q * stride) by (nonlinear_arith)
                requires
                    0 <= k <= q,
                    0 < stride,
            ;
        } else {
            assert(k * stride >= q * stride + stride) by (nonlinear_arith)
                requires
                    k >= q + 1,
                    0 < stride,
            ;
        }
    }
}

/// A stride retains at least the first element and never more than all.
pub proof fn lemma_retained_count_bounds(len: int, stride: int)
    requires
        0 <= len,
        0 < stride,
    ensures
        0 <= retained_count(len, stride) <= len,
        len > 0 ==> retained_count(len, stride) >= 1,
        stride == 1 ==> retained_count(len, stride) == len,
        stride >= len > 0 ==> retained_count(len, stride) == 1,
{
    if len > 0 {
        let q = (len - 1) / stride;
        assert(0 <= q <= len - 1) by (nonlinear_arith)
            requires
                q == (len - 1) / stride,
                0 < stride,
                0 <= len - 1,
        ;
        if stride >= len {
            assert(q == 0) by (nonlinear_arith)
                requires
                    q == (len - 1) / stride,
                    0 <= len - 1 < stride,
            ;
        }
    }
}

/// With stride 1 the down-sampled sequence is the sequence itself.
pub proof fn lemma_unit_stride_keeps_all<T>(items: Seq<T>)
    ensures
        strided(items, 1) == items,
{
    lemma_retained_count_bounds(items.len() as int, 1);
    assert(strided(items, 1) =~= items);
}

/// The first element is always retained; the last one is retained exactly
/// when its index is a multiple of the stride.
pub proof fn lemma_strided_ends<T>(items: Seq<T>, stride: int)
    requires
        0 < stride,
        items.len() > 0,
    ensures
        strided(items, stride).len() >= 1,
        strided(items, stride).first() == items.first(),
        strided(items, stride).last() == items[(retained_count(items.len() as int, stride) - 1)
            * stride],
        (items.len() - 1) % stride == 0 ==> strided(items, stride).last() == items.last(),
{
    let len = items.len() as int;
    let n = retained_count(len, stride);
    lemma_retained_count_bounds(len, stride);
    lemma_retained_indices(len, stride, n - 1);
    if (len - 1) % stride == 0 {
        assert((n - 1) * stride == len - 1) by (nonlinear_arith)
            requires
                n - 1 == (len - 1) / stride,
                (len - 1) % stride == 0,
                0 < stride,
        ;
    }
}

/// Counts the elements that a stride retains out of `len`.
pub fn retained(len: usize, stride: usize) -> (count: usize)
    requires
        stride > 0,
    ensures
        count == retained_count(len as int, stride as int),
{
    if len == 0 {
        0
    } else {
        proof {
            lemma_retained_count_bounds(len as int, stride as int);
        }
        (len - 1) / stride + 1
    }
}

/// Retains every `stride`-th element of `items`, starting with the first.
pub fn downsample<T: Copy>(items: &[T], stride: usize) -> (kept: Vec<T>)
    requires
        stride > 0,
    ensures
        kept@ == strided(items@, stride as int),
{
    let len = items.len();
    let count = retained(len, stride);
    let mut kept: Vec<T> = Vec::new();
    let mut k: usize = 0;
    while k < count
        invariant
            stride > 0,
            k <= count,
            len == items@.len(),
            count == retained_count(items@.len() as int, stride as int),
            kept@.len() == k,
            forall|j: int| 0 <= j < k ==> kept@[j] == items@[j * stride],
        decreases count - k,
    {
        proof {
            lemma_retained_indices(items@.len() as int, stride as int, k as int);
        }
        kept.push(items[k * stride]);
        k = k + 1;
    }
    assert(kept@ =~= strided(items@, stride as int));
    kept
}

} // verus!
