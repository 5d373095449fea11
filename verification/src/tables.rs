//! The tables that the engine is handed: state tables brought to the
//! kernel's units and, where the observer was sampled, re-based on it.
//!
//! The library moves sampled values and never computes with them. The
//! caller supplies the two operations on its scalar type: the conversion of
//! one component to the kernel's units, and the difference of two converted
//! components. What a table holds is stated through the outcomes that these
//! operations allow.

use vstd::prelude::*;
use crate::blocks::lemma_body_block_components;
use crate::blocks::retained_component;
use crate::kernel::lemma_target_indices;
use crate::kernel::observer_position;
use crate::kernel::planned_kernel;
use crate::kernel::target_indices;
use crate::kernel::Kernel;
use crate::kernel::KernelView;
use crate::downsampling::retained_count;

verus! {

/// Whether `value` can stand in a kernel table for the sampled component
/// `sampled`: it is the conversion of `sampled` where nothing is subtracted,
/// and otherwise the difference of the conversions of `sampled` and of the
/// observer's component `observed`.
pub open spec fn is_kernel_value<T, C: Fn(T) -> T, S: Fn(T, T) -> T>(
    convert: &C,
    subtract: &S,
    sampled: T,
    observed: Option<T>,
    value: T,
) -> bool {
    match observed {
        None => call_ensures(*convert, (sampled,), value),
        Some(observed) => exists|minuend: T, subtrahend: T|
            call_ensures(*convert, (sampled,), minuend) && call_ensures(
                *convert,
                (observed,),
                subtrahend,
            ) && #[trigger] call_ensures(*subtract, (minuend, subtrahend), value),
    }
}

/// Converts every component of a table.
pub fn converted<T: Copy, C: Fn(T) -> T>(table: &[T], convert: &C) -> (out: Vec<T>)
    requires
        forall|k: int| 0 <= k < table@.len() ==> call_requires(*convert, (#[trigger] table@[k],)),
    ensures
        out@.len() == table@.len(),
        forall|k: int|
            0 <= k < table@.len() ==> call_ensures(*convert, (table@[k],), #[trigger] out@[k]),
{
    let mut out: Vec<T> = Vec::new();
    let mut k: usize = 0;
    while k < table.len()
        invariant
            k <= table@.len(),
            out@.len() == k,
            forall|j: int|
                0 <= j < table@.len() ==> call_requires(*convert, (#[trigger] table@[j],)),
            forall|j: int| 0 <= j < k ==> call_ensures(*convert, (table@[j],), #[trigger] out@[j]),
        decreases table@.len() - k,
    {
        out.push(convert(table[k]));
        k = k + 1;
    }
    out
}

/// Subtracts a reference table from a table, component by component.
pub fn rebased<T: Copy, S: Fn(T, T) -> T>(table: &[T], reference: &[T], subtract: &S) -> (out: Vec<
    T,
>)
    requires
        table@.len() == reference@.len(),
        forall|k: int|
            0 <= k < table@.len() ==> call_requires(
                *subtract,
                (#[trigger] table@[k], reference@[k]),
            ),
    ensures
        out@.len() == table@.len(),
        forall|k: int|
            0 <= k < table@.len() ==> call_ensures(
                *subtract,
                (table@[k], reference@[k]),
                #[trigger] out@[k],
            ),
{
    let mut out: Vec<T> = Vec::new();
    let mut k: usize = 0;
    while k < table.len()
        invariant
            k <= table@.len(),
            table@.len() == reference@.len(),
            out@.len() == k,
            forall|j: int|
                0 <= j < table@.len() ==> call_requires(
                    *subtract,
                    (#[trigger] table@[j], reference@[j]),
                ),
            forall|j: int|
                0 <= j < k ==> call_ensures(
                    *subtract,
                    (table@[j], reference@[j]),
                    #[trigger] out@[j],
                ),
        decreases table@.len() - k,
    {
        out.push(subtract(table[k], reference[k]));
        k = k + 1;
    }
    out
}

/// Builds the table that the engine is handed for the segment at `index`:
/// the segment's states converted to the kernel's units and, where the
/// kernel has a reference table, re-based on the converted reference.
/// There is no table for an index past the last segment.
pub fn segment_table<T: Copy, C: Fn(T) -> T, S: Fn(T, T) -> T>(
    kernel: &Kernel<T>,
    index: usize,
    convert: &C,
    subtract: &S,
) -> (table: Option<Vec<T>>)
    requires
        forall|x: T| call_requires(*convert, (x,)),
        forall|a: T, b: T| call_requires(*subtract, (a, b)),
    ensures
        table is Some <==> index < kernel@.segments.len(),
        table matches Some(values) ==> {
            &&& values@.len() == kernel@.segments[index as int].states.len()
            &&& forall|at: int|
                0 <= at < values@.len() ==> is_kernel_value(
                    convert,
                    subtract,
                    kernel@.segments[index as int].states[at],
                    kernel@.observed(at),
                    #[trigger] values@[at],
                )
        },
{
    let segments = kernel.segments();
    if index >= segments.len() {
        return None;
    }
    let segment = &segments[index];
    assert(segment@ == kernel@.segments[index as int]);
    let states = converted(segment.states.as_slice(), convert);
    match kernel.reference() {
        None => Some(states),
        Some(reference) => {
            let observed = converted(reference.as_slice(), convert);
            let values = rebased(states.as_slice(), observed.as_slice(), subtract);
            assert forall|at: int| 0 <= at < values@.len() implies is_kernel_value(
                convert,
                subtract,
                kernel@.segments[index as int].states[at],
                kernel@.observed(at),
                #[trigger] values@[at],
            ) by {
                assert(call_ensures(*convert, (segment.states@[at],), states@[at]));
                assert(call_ensures(*convert, (reference@[at],), observed@[at]));
                assert(call_ensures(*subtract, (states@[at], observed@[at]), values@[at]));
            }
            Some(values)
        },
    }
}

/// What the engine is handed for a planned kernel. In the table of the
/// segment at `index`, the value for a retained instant and a component is
/// the conversion of the component sampled for the segment's body at that
/// instant, where the observer is not among the bodies; where it is, the
/// value is the difference between that conversion and the conversion of the
/// same component sampled for the observer at the same instant.
pub proof fn lemma_table_of_planned_kernel<T, C: Fn(T) -> T, S: Fn(T, T) -> T>(
    kernel: KernelView<T>,
    bodies: Seq<i32>,
    rows: Seq<Seq<T>>,
    epochs: Seq<T>,
    observer: i32,
    stride: int,
    index: int,
    values: Seq<T>,
    convert: &C,
    subtract: &S,
)
    requires
        stride > 0,
        rows.len() == epochs.len(),
        kernel == planned_kernel(bodies, rows, epochs, observer, stride),
        0 <= index < kernel.segments.len(),
        values.len() == kernel.segments[index].states.len(),
        forall|at: int|
            0 <= at < values.len() ==> is_kernel_value(
                convert,
                subtract,
                kernel.segments[index].states[at],
                kernel.observed(at),
                #[trigger] values[at],
            ),
    ensures
        index < target_indices(bodies, observer).len(),
        bodies[target_indices(bodies, observer)[index]] != observer,
        values.len() == 6 * retained_count(rows.len() as int, stride),
        forall|instant: int, component: int|
            0 <= instant < retained_count(rows.len() as int, stride) && 0 <= component < 6
                ==> is_kernel_value(
                convert,
                subtract,
                #[trigger] retained_component(
                    rows,
                    stride,
                    target_indices(bodies, observer)[index],
                    instant,
                    component,
                ),
                match observer_position(bodies, observer) {
                    Some(at) => Some(retained_component(rows, stride, at, instant, component)),
                    None => None,
                },
                values[6 * instant + component],
            ),
{
    let target = target_indices(bodies, observer)[index];
    lemma_target_indices(bodies, observer);
    lemma_body_block_components(rows, stride, target);
    assert forall|instant: int, component: int|
        0 <= instant < retained_count(rows.len() as int, stride) && 0 <= component
            < 6 implies is_kernel_value(
        convert,
        subtract,
        #[trigger] retained_component(rows, stride, target, instant, component),
        match observer_position(bodies, observer) {
            Some(at) => Some(retained_component(rows, stride, at, instant, component)),
            None => None,
        },
        values[6 * instant + component],
    ) by {
        let at = 6 * instant + component;
        assert(is_kernel_value(
            convert,
            subtract,
            kernel.segments[index].states[at],
            kernel.observed(at),
            values[at],
        ));
        match observer_position(bodies, observer) {
            Some(position) => {
                lemma_body_block_components(rows, stride, position);
            },
            None => {},
        }
    }
}

} // verus!
