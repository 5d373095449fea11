//! State tables: one body's six-component states at the retained instants,
//! laid end to end.

use vstd::prelude::*;
use vstd::layout::size_of;
use vstd::slice::slice_subrange;
use ndarray::aview1;
use ndarray::concatenate;
use ndarray::ArrayView1;
use ndarray::Axis;
use ndarray::ShapeError;
use crate::downsampling::lemma_retained_count_bounds;
use crate::downsampling::lemma_retained_indices;
use crate::downsampling::retained;
use crate::downsampling::retained_count;

verus! {

/// The number of components of one body's state: position, then velocity.
pub const STATE_SIZE: usize = 6;

/// `ndarray::ShapeError`, the error of an array operation whose shapes do
/// not fit. It is carried through; nothing is read from it.
#[verifier::external_type_specification]
#[verifier::external_body]
pub struct ExShapeError(ShapeError);

/// The contents of each block.
pub open spec fn block_views<T>(blocks: Seq<&[T]>) -> Seq<Seq<T>> {
    blocks.map_values(|block: &[T]| block@)
}

/// The contents of each row of a state series.
pub open spec fn state_rows<T>(states: Seq<Vec<T>>) -> Seq<Seq<T>> {
    states.map_values(|row: Vec<T>| row@)
}

/// Whether a buffer of `len` elements of `T` can be allocated: neither the
/// element count nor the byte count may exceed `isize::MAX`.
pub open spec fn buffer_fits<T>(len: int) -> bool {
    &&& len <= isize::MAX
    &&& len * size_of::<T>() <= isize::MAX
}

/// Tests whether a buffer of `len` elements of `T` can be allocated.
pub fn can_allocate<T>(len: usize) -> (fits: bool)
    ensures
        fits == buffer_fits::<T>(len as int),
{
    let limit = isize::MAX as usize;
    if len > limit {
        return false;
    }
    let size = core::mem::size_of::<T>();
    if size == 0 {
        assert(len * size_of::<T>() == 0) by (nonlinear_arith)
            requires
                size_of::<T>() == 0,
        ;
        return true;
    }
    proof {
        let bytes = size_of::<T>() as int;
        assert(len > limit / size <==> len * bytes > limit) by (nonlinear_arith)
            requires
                bytes == size,
                size > 0,
                len >= 0,
                limit >= 0,
        ;
    }
    len <= limit / size
}

/// Every row of the series holds a full state for each of `bodies` bodies.
pub open spec fn rows_hold<T>(rows: Seq<Seq<T>>, bodies: int) -> bool {
    forall|i: int| 0 <= i < rows.len() ==> (#[trigger] rows[i]).len() == 6 * bodies
}

/// The state table of the body at index `body`: element `k` is component
/// `k % 6` of that body's state at the retained instant `k / 6`.
pub open spec fn body_block<T>(rows: Seq<Seq<T>>, stride: int, body: int) -> Seq<T> {
    Seq::new(
        (6 * retained_count(rows.len() as int, stride)) as nat,
        |k: int| rows[(k / 6) * stride][6 * body + k % 6],
    )
}

/// Component `component` of the state of the body at position `body`, at the
/// retained instant `instant`.
pub open spec fn retained_component<T>(
    rows: Seq<Seq<T>>,
    stride: int,
    body: int,
    instant: int,
    component: int,
) -> T {
    rows[instant * stride][6 * body + component]
}

/// A state table holds six components for each retained instant, instant by
/// instant.
pub proof fn lemma_body_block_components<T>(rows: Seq<Seq<T>>, stride: int, body: int)
    requires
        stride > 0,
    ensures
        body_block(rows, stride, body).len() == 6 * retained_count(rows.len() as int, stride),
        forall|instant: int, component: int|
            0 <= instant < retained_count(rows.len() as int, stride) && 0 <= component < 6
                ==> body_block(rows, stride, body)[6 * instant + component]
                == #[trigger] retained_component(rows, stride, body, instant, component),
{
    lemma_retained_count_bounds(rows.len() as int, stride);
}

/// Index `k` of `count` blocks of one width lies in block `k / width`, at
/// offset `k % width`.
pub proof fn lemma_block_position(k: int, width: int, count: int)
    requires
        width > 0,
        0 <= k < count * width,
    ensures
        0 <= k / width < count,
        0 <= k % width < width,
        k == (k / width) * width + k % width,
{
    assert(0 <= k / width < count && 0 <= k % width < width && k == (k / width) * width + k
        % width) by (nonlinear_arith)
        requires
            width > 0,
            0 <= k < count * width,
    ;
}

/// Laying blocks of one width end to end puts element `j` of block `i` at
/// index `i * width + j`.
pub proof fn lemma_flatten_uniform<T>(blocks: Seq<Seq<T>>, width: int)
    requires
        width > 0,
        forall|i: int| 0 <= i < blocks.len() ==> (#[trigger] blocks[i]).len() == width,
    ensures
        blocks.flatten().len() == blocks.len() * width,
        forall|k: int|
            #![trigger blocks.flatten()[k]]
            0 <= k < blocks.len() * width ==> blocks.flatten()[k] == blocks[k / width][k % width],
    decreases blocks.len(),
{
    if blocks.len() == 0 {
        assert(blocks.len() * width == 0) by (nonlinear_arith)
            requires
                blocks.len() == 0,
        ;
    } else {
        let front = blocks.drop_last();
        let n = front.len() as int;
        lemma_flatten_uniform(front, width);
        assert(blocks =~= front.push(blocks.last()));
        front.lemma_flatten_push(blocks.last());
        assert(blocks.flatten() =~= front.flatten() + blocks.last());
        assert((n + 1) * width == n * width + width) by (nonlinear_arith);
        assert forall|k: int|
            #![trigger blocks.flatten()[k]]
            0 <= k < blocks.len() * width implies blocks.flatten()[k] == blocks[k / width][k
            % width] by {
            if k < n * width {
                lemma_block_position(k, width, n);
                assert(front.flatten()[k] == front[k / width][k % width]);
                assert(blocks.flatten()[k] == front.flatten()[k]);
                assert(front[k / width] == blocks[k / width]);
            } else {
                lemma_block_position(k, width, n + 1);
                assert(k / width == n) by (nonlinear_arith)
                    requires
                        n * width <= k < n * width + width,
                        width > 0,
                ;
                assert(blocks.flatten()[k] == blocks.last()[k - n * width]);
            }
        }
    }
}

/// `ndarray::concatenate` along axis 0, applied to one-dimensional views of
/// the blocks made by `ndarray::aview1`, and read back with `to_vec`.
/// Concatenation fails on an empty list of arrays; otherwise the result holds
/// the elements of the arrays one array after the other. The preconditions
/// keep the views and the result within the sizes that the crate can
/// represent and allocate.
#[verifier::external_body]
fn concatenate_blocks<T: Copy>(blocks: &Vec<&[T]>) -> (joined: Result<Vec<T>, ShapeError>)
    requires
        forall|i: int| 0 <= i < blocks@.len() ==> (#[trigger] blocks@[i])@.len() <= isize::MAX,
        buffer_fits::<T>(block_views(blocks@).flatten().len() as int),
    ensures
        blocks@.len() == 0 ==> joined is Err,
        blocks@.len() > 0 ==> joined is Ok && joined->Ok_0@ == block_views(blocks@).flatten(),
{
    let views: Vec<ArrayView1<T>> = blocks.iter().map(|block| aview1(block)).collect();
    Ok(concatenate(Axis(0), &views)?.to_vec())
}

/// Lays the blocks end to end, in their order. No blocks give an empty
/// buffer.
pub fn join_blocks<T: Copy>(blocks: &Vec<&[T]>) -> (joined: Vec<T>)
    requires
        forall|i: int| 0 <= i < blocks@.len() ==> (#[trigger] blocks@[i])@.len() <= isize::MAX,
        buffer_fits::<T>(block_views(blocks@).flatten().len() as int),
    ensures
        joined@ == block_views(blocks@).flatten(),
{
    match concatenate_blocks(blocks) {
        Ok(joined) => joined,
        Err(_) => {
            assert(block_views(blocks@) =~= Seq::<Seq<T>>::empty());
            Vec::new()
        },
    }
}

/// Gathers the state table of the body at index `body` from the rows at the
/// multiples of `stride`.
pub fn gather_block<T: Copy>(states: &[Vec<T>], stride: usize, body: usize) -> (block: Vec<T>)
    requires
        stride > 0,
        forall|i: int| 0 <= i < states@.len() ==> (#[trigger] states@[i])@.len() >= 6 * (body + 1),
        buffer_fits::<T>(6 * retained_count(states@.len() as int, stride as int)),
    ensures
        block@ == body_block(state_rows(states@), stride as int, body as int),
{
    let len = states.len();
    let count = retained(len, stride);
    let mut blocks: Vec<&[T]> = Vec::new();
    let mut k: usize = 0;
    while k < count
        invariant
            stride > 0,
            k <= count,
            len == states@.len(),
            count == retained_count(len as int, stride as int),
            forall|i: int| 0 <= i < states@.len() ==> (#[trigger] states@[i])@.len() >= 6 * (body
                + 1),
            blocks@.len() == k,
            forall|j: int|
                0 <= j < k ==> (#[trigger] blocks@[j])@ == states@[j * stride]@.subrange(
                    6 * body,
                    6 * body + 6,
                ),
        decreases count - k,
    {
        proof {
            lemma_retained_indices(len as int, stride as int, k as int);
        }
        let row = states[k * stride].as_slice();
        assert(row.len() >= 6 * (body + 1));
        let start = STATE_SIZE * body;
        blocks.push(slice_subrange(row, start, start + STATE_SIZE));
        k = k + 1;
    }
    proof {
        let views = block_views(blocks@);
        assert forall|i: int| 0 <= i < views.len() implies (#[trigger] views[i]).len() == 6 by {
            assert(views[i] == blocks@[i]@);
            lemma_retained_indices(len as int, stride as int, i);
        }
        lemma_flatten_uniform(views, 6);
        assert forall|i: int| 0 <= i < blocks@.len() implies (#[trigger] blocks@[i])@.len()
            <= isize::MAX by {
            assert(views[i] == blocks@[i]@);
        }
    }
    let block = join_blocks(&blocks);
    proof {
        let views = block_views(blocks@);
        let rows = state_rows(states@);
        let expected = body_block(rows, stride as int, body as int);
        assert(block@.len() == expected.len());
        assert forall|j: int| 0 <= j < block@.len() implies block@[j] == expected[j] by {
            let i = j / 6;
            lemma_block_position(j, 6, views.len() as int);
            assert(views[i] == blocks@[i]@);
            lemma_retained_indices(len as int, stride as int, i);
            assert(rows[i * stride] == states@[i * stride]@);
        }
        assert(block@ =~= expected);
    }
    block
}

} // verus!
