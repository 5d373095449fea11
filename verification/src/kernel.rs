//! The contents of an ephemeris kernel: one segment for each body other than
//! the observer, all over the same down-sampled timeline.

use vstd::prelude::*;
use vstd::string::StringExecFns;
use crate::blocks::body_block;
use crate::blocks::buffer_fits;
use crate::blocks::can_allocate;
use crate::blocks::gather_block;
use crate::blocks::lemma_body_block_components;
use crate::blocks::retained_component;
use crate::blocks::rows_hold;
use crate::blocks::state_rows;
use crate::error::SpiceError;
use crate::fraction::fraction_in_range;
use crate::fraction::lemma_unit_fraction_stride;
use crate::fraction::UNIT_FRACTION;
use crate::fraction::steps_to_skip;
use crate::fraction::stride_of;
use crate::downsampling::downsample;
use crate::downsampling::retained;
use crate::downsampling::lemma_retained_count_bounds;
use crate::downsampling::lemma_unit_stride_keeps_all;
use crate::downsampling::retained_count;
use crate::downsampling::strided;
use crate::text::decimal_text;
use crate::text::push_decimal;

verus! {

/// The degree of the Lagrange interpolation of every segment.
pub const INTERPOLATION_DEGREE: i32 = 7;

/// The number of characters reserved for comments in a new kernel file.
pub const COMMENT_CHARACTERS: i32 = 256;

/// The number of meters in a kilometer: state tables hold meters and meters
/// per second, a kernel holds kilometers and kilometers per second.
pub const METERS_PER_KILOMETER: u32 = 1000;

/// The reference frame of every segment.
pub const FRAME: &'static str = "J2000";

/// The internal file name of a new kernel.
pub const INTERNAL_NAME: &'static str = "Propagated";

/// One body's trajectory over the retained instants. The states are those
/// that were sampled; the table that the engine is handed for the segment
/// is built from them and from the kernel's reference table.
pub struct Segment<T> {
    /// The body that the segment describes.
    pub target: i32,
    /// The body that the states are relative to once re-based.
    pub observer: i32,
    /// The segment identifier.
    pub label: String,
    /// The first retained epoch.
    pub first_epoch: T,
    /// The last retained epoch.
    pub last_epoch: T,
    /// Six components for each retained instant.
    pub states: Vec<T>,
}

/// What a kernel file is to hold. Where there is a reference table, every
/// segment's table has its length.
pub struct Kernel<T> {
    epochs: Vec<T>,
    reference: Option<Vec<T>>,
    segments: Vec<Segment<T>>,
}

/// The mathematical content of a `Segment`.
pub ghost struct SegmentView<T> {
    pub target: i32,
    pub observer: i32,
    pub label: Seq<char>,
    pub first_epoch: T,
    pub last_epoch: T,
    pub states: Seq<T>,
}

/// The mathematical content of a `Kernel`.
pub ghost struct KernelView<T> {
    /// The retained epochs, shared by all segments.
    pub epochs: Seq<T>,
    /// The observer's own state table, where the observer was sampled. Every
    /// segment is re-based by subtracting it component by component.
    pub reference: Option<Seq<T>>,
    /// One segment for each body other than the observer, in list order.
    pub segments: Seq<SegmentView<T>>,
}

impl<T> KernelView<T> {
    /// Whether every segment's table has the length of the reference table,
    /// where there is one.
    pub open spec fn is_consistent(self) -> bool {
        self.reference matches Some(table) ==> forall|k: int|
            0 <= k < self.segments.len() ==> (#[trigger] self.segments[k]).states.len()
                == table.len()
    }

    /// The observer's component that is subtracted at index `at` of a
    /// segment's table, where there is a reference table.
    pub open spec fn observed(self, at: int) -> Option<T> {
        match self.reference {
            Some(table) => Some(table[at]),
            None => None,
        }
    }
}

impl<T> View for Segment<T> {
    type V = SegmentView<T>;

    open spec fn view(&self) -> SegmentView<T> {
        SegmentView {
            target: self.target,
            observer: self.observer,
            label: self.label@,
            first_epoch: self.first_epoch,
            last_epoch: self.last_epoch,
            states: self.states@,
        }
    }
}

impl<T> View for Kernel<T> {
    type V = KernelView<T>;

    closed spec fn view(&self) -> KernelView<T> {
        KernelView {
            epochs: self.epochs@,
            reference: match self.reference {
                Some(table) => Some(table@),
                None => None,
            },
            segments: self.segments@.map_values(|segment: Segment<T>| segment@),
        }
    }
}

impl<T> Kernel<T> {
    #[verifier::type_invariant]
    spec fn consistent(self) -> bool {
        self@.is_consistent()
    }

    /// The retained epochs, shared by all segments.
    pub fn epochs(&self) -> (epochs: &Vec<T>)
        ensures
            epochs@ == self@.epochs,
    {
        &self.epochs
    }

    /// The observer's own state table, where the observer was sampled.
    pub fn reference(&self) -> (reference: &Option<Vec<T>>)
        ensures
            match *reference {
                Some(table) => self@.reference == Some(table@),
                None => self@.reference is None,
            },
    {
        &self.reference
    }

    /// The segments, one for each body other than the observer, in list
    /// order.
    pub fn segments(&self) -> (segments: &Vec<Segment<T>>)
        ensures
            segments@.len() == self@.segments.len(),
            forall|k: int|
                0 <= k < segments@.len() ==> (#[trigger] segments@[k])@ == self@.segments[k],
            self@.is_consistent(),
    {
        proof {
            use_type_invariant(self);
        }
        &self.segments
    }
}

/// The identifier of the segment of `target` relative to `observer`.
pub open spec fn label_text(target: int, observer: int) -> Seq<char> {
    "Position of "@ + decimal_text(target) + " relative to "@ + decimal_text(observer)
}

/// Whether `index` is the first position of `id` in `bodies`.
pub open spec fn is_first_index(bodies: Seq<i32>, id: i32, index: int) -> bool {
    &&& 0 <= index < bodies.len()
    &&& bodies[index] == id
    &&& forall|j: int| 0 <= j < index ==> bodies[j] != id
}

/// The first position of the observer in `bodies`, if it occurs there.
pub open spec fn observer_position(bodies: Seq<i32>, observer: i32) -> Option<int> {
    if exists|i: int| is_first_index(bodies, observer, i) {
        Some(choose|i: int| is_first_index(bodies, observer, i))
    } else {
        None
    }
}

/// The positions of the bodies other than the observer, ascending.
pub open spec fn target_indices(bodies: Seq<i32>, observer: i32) -> Seq<int>
    decreases bodies.len(),
{
    if bodies.len() == 0 {
        Seq::empty()
    } else if bodies.last() == observer {
        target_indices(bodies.drop_last(), observer)
    } else {
        target_indices(bodies.drop_last(), observer).push(bodies.len() - 1)
    }
}

/// The inputs of a kernel fit together: one row of states for each epoch, at
/// least one epoch, and in every row six components for each body.
pub open spec fn well_formed<T>(bodies: Seq<i32>, rows: Seq<Seq<T>>, epochs: Seq<T>) -> bool {
    &&& rows.len() == epochs.len()
    &&& epochs.len() > 0
    &&& rows_hold(rows, bodies.len() as int)
}

/// The segment of the body at position `index`.
pub open spec fn planned_segment<T>(
    bodies: Seq<i32>,
    rows: Seq<Seq<T>>,
    epochs: Seq<T>,
    observer: i32,
    stride: int,
    index: int,
) -> SegmentView<T> {
    SegmentView {
        target: bodies[index],
        observer,
        label: label_text(bodies[index] as int, observer as int),
        first_epoch: strided(epochs, stride).first(),
        last_epoch: strided(epochs, stride).last(),
        states: body_block(rows, stride, index),
    }
}

/// The kernel of a trajectory down-sampled by `stride`.
pub open spec fn planned_kernel<T>(
    bodies: Seq<i32>,
    rows: Seq<Seq<T>>,
    epochs: Seq<T>,
    observer: i32,
    stride: int,
) -> KernelView<T> {
    KernelView {
        epochs: strided(epochs, stride),
        reference: match observer_position(bodies, observer) {
            Some(index) => Some(body_block(rows, stride, index)),
            None => None,
        },
        segments: target_indices(bodies, observer).map_values(
            |index: int| planned_segment(bodies, rows, epochs, observer, stride, index),
        ),
    }
}

/// A first position is the observer's position.
pub proof fn lemma_observer_position(bodies: Seq<i32>, observer: i32)
    ensures
        forall|i: int| is_first_index(bodies, observer, i) ==> observer_position(bodies, observer)
            == Some(i),
        !bodies.contains(observer) <==> observer_position(bodies, observer) is None,
{
    assert forall|i: int| is_first_index(bodies, observer, i) implies observer_position(
        bodies,
        observer,
    ) == Some(i) by {
        let chosen = choose|c: int| is_first_index(bodies, observer, c);
        assert(is_first_index(bodies, observer, chosen));
        if chosen < i {
            assert(bodies[chosen] != observer);
        } else if i < chosen {
            assert(bodies[i] != observer);
        }
    }
    if bodies.contains(observer) {
        let at = choose|i: int| 0 <= i < bodies.len() && bodies[i] == observer;
        lemma_first_index_exists(bodies, observer, at);
    } else {
        assert forall|i: int| !is_first_index(bodies, observer, i) by {
            if is_first_index(bodies, observer, i) {
                assert(bodies.contains(observer));
            }
        }
    }
}

proof fn lemma_first_index_exists(bodies: Seq<i32>, id: i32, at: int)
    requires
        0 <= at < bodies.len(),
        bodies[at] == id,
    ensures
        exists|i: int| is_first_index(bodies, id, i),
    decreases at,
{
    if forall|j: int| 0 <= j < at ==> bodies[j] != id {
        assert(is_first_index(bodies, id, at));
    } else {
        let earlier = choose|j: int| 0 <= j < at && bodies[j] == id;
        lemma_first_index_exists(bodies, id, earlier);
    }
}

/// The target positions are those of the bodies other than the observer:
/// each is such a position, they ascend, and none is missing.
pub proof fn lemma_target_indices(bodies: Seq<i32>, observer: i32)
    ensures
        target_indices(bodies, observer).len() <= bodies.len(),
        forall|k: int|
            0 <= k < target_indices(bodies, observer).len() ==> {
                let index = #[trigger] target_indices(bodies, observer)[k];
                0 <= index < bodies.len() && bodies[index] != observer
            },
        forall|k: int, l: int|
            0 <= k < l < target_indices(bodies, observer).len() ==> #[trigger] target_indices(
                bodies,
                observer,
            )[k] < #[trigger] target_indices(bodies, observer)[l],
        forall|i: int|
            0 <= i < bodies.len() && #[trigger] bodies[i] != observer ==> target_indices(
                bodies,
                observer,
            ).contains(i),
        !bodies.contains(observer) ==> target_indices(bodies, observer) == Seq::new(
            bodies.len(),
            |i: int| i,
        ),
    decreases bodies.len(),
{
    if bodies.len() > 0 {
        let front = bodies.drop_last();
        let last = bodies.len() - 1;
        lemma_target_indices(front, observer);
        let before = target_indices(front, observer);
        let all = target_indices(bodies, observer);
        assert forall|i: int| 0 <= i < bodies.len() && #[trigger] bodies[i] != observer implies all.contains(
            i,
        ) by {
            if i < last {
                assert(front[i] != observer);
                let k = choose|k: int| 0 <= k < before.len() && before[k] == i;
                assert(all[k] == i);
            } else {
                assert(all[all.len() - 1] == i);
            }
        }
        if !bodies.contains(observer) {
            assert(bodies[last] != observer);
            assert forall|i: int| 0 <= i < front.len() implies front[i] != observer by {
                assert(bodies[i] != observer);
            }
            assert(!front.contains(observer));
            assert(all =~= Seq::new(bodies.len(), |i: int| i));
        }
    } else {
        assert(target_indices(bodies, observer) =~= Seq::new(bodies.len(), |i: int| i));
    }
}

/// A retention fraction of exactly 1 has stride 1, and the kernel's timeline
/// is then the whole input timeline.
pub proof fn lemma_unit_fraction_keeps_timeline<T>(
    bodies: Seq<i32>,
    rows: Seq<Seq<T>>,
    epochs: Seq<T>,
    observer: i32,
)
    ensures
        fraction_in_range(UNIT_FRACTION),
        stride_of(UNIT_FRACTION) == 1,
        planned_kernel(bodies, rows, epochs, observer, stride_of(UNIT_FRACTION)).epochs == epochs,
{
    lemma_unit_fraction_stride();
    lemma_unit_stride_keeps_all(epochs);
}

/// There is exactly one segment for each body other than the observer, in
/// list order. All segments share the kernel's timeline, and the states of
/// each are those sampled for its body at the retained instants.
pub proof fn lemma_segments_hold_sampled_states<T>(
    bodies: Seq<i32>,
    rows: Seq<Seq<T>>,
    epochs: Seq<T>,
    observer: i32,
    stride: int,
)
    requires
        stride > 0,
        rows.len() == epochs.len(),
    ensures
        ({
            let kernel = planned_kernel(bodies, rows, epochs, observer, stride);
            let targets = target_indices(bodies, observer);
            &&& kernel.segments.len() == targets.len()
            &&& forall|k: int|
                0 <= k < targets.len() ==> {
                    let segment = #[trigger] kernel.segments[k];
                    &&& segment.target == bodies[targets[k]]
                    &&& segment.target != observer
                    &&& segment.observer == observer
                    &&& segment.first_epoch == kernel.epochs.first()
                    &&& segment.last_epoch == kernel.epochs.last()
                    &&& segment.states.len() == 6 * kernel.epochs.len()
                }
            &&& forall|k: int, instant: int, component: int|
                0 <= k < targets.len() && 0 <= instant < retained_count(rows.len() as int, stride)
                    && 0 <= component < 6 ==> kernel.segments[k].states[6 * instant + component]
                    == #[trigger] retained_component(rows, stride, targets[k], instant, component)
        }),
{
    let kernel = planned_kernel(bodies, rows, epochs, observer, stride);
    let targets = target_indices(bodies, observer);
    lemma_target_indices(bodies, observer);
    assert forall|k: int| 0 <= k < targets.len() implies ({
        let segment = #[trigger] kernel.segments[k];
        &&& segment.target == bodies[targets[k]]
        &&& segment.target != observer
        &&& segment.observer == observer
        &&& segment.first_epoch == kernel.epochs.first()
        &&& segment.last_epoch == kernel.epochs.last()
        &&& segment.states.len() == 6 * kernel.epochs.len()
    }) by {
        lemma_body_block_components(rows, stride, targets[k]);
    }
    assert forall|k: int, instant: int, component: int|
        0 <= k < targets.len() && 0 <= instant < retained_count(rows.len() as int, stride) && 0
            <= component < 6 implies kernel.segments[k].states[6 * instant + component]
        == #[trigger] retained_component(rows, stride, targets[k], instant, component) by {
        lemma_body_block_components(rows, stride, targets[k]);
    }
}

/// Where the observer is not among the bodies, the kernel has no reference
/// table: every body has a segment, and nothing is to be subtracted from its
/// sampled states.
pub proof fn lemma_absent_observer_keeps_states<T>(
    bodies: Seq<i32>,
    rows: Seq<Seq<T>>,
    epochs: Seq<T>,
    observer: i32,
    stride: int,
)
    requires
        stride > 0,
        rows.len() == epochs.len(),
        !bodies.contains(observer),
    ensures
        ({
            let kernel = planned_kernel(bodies, rows, epochs, observer, stride);
            &&& kernel.reference is None
            &&& kernel.segments.len() == bodies.len()
            &&& forall|body: int, instant: int, component: int|
                0 <= body < bodies.len() && 0 <= instant < retained_count(rows.len() as int, stride)
                    && 0 <= component < 6 ==> kernel.segments[body].target == bodies[body]
                    && kernel.segments[body].states[6 * instant + component]
                    == #[trigger] retained_component(rows, stride, body, instant, component)
        }),
{
    lemma_observer_position(bodies, observer);
    lemma_target_indices(bodies, observer);
    lemma_segments_hold_sampled_states(bodies, rows, epochs, observer, stride);
}

/// Where the observer is among the bodies, first at position `at`, the
/// reference table holds the observer's sampled states, so that re-basing
/// subtracts, at every retained instant and in every component, the
/// observer's sampled state from the sampled state of the segment's body.
pub proof fn lemma_observer_is_reference<T>(
    bodies: Seq<i32>,
    rows: Seq<Seq<T>>,
    epochs: Seq<T>,
    observer: i32,
    stride: int,
    at: int,
)
    requires
        stride > 0,
        rows.len() == epochs.len(),
        is_first_index(bodies, observer, at),
    ensures
        ({
            let kernel = planned_kernel(bodies, rows, epochs, observer, stride);
            let targets = target_indices(bodies, observer);
            &&& kernel.reference is Some
            &&& kernel.reference->Some_0.len() == 6 * kernel.epochs.len()
            &&& kernel.segments.len() == targets.len()
            &&& forall|k: int, instant: int, component: int|
                0 <= k < targets.len() && 0 <= instant < retained_count(rows.len() as int, stride)
                    && 0 <= component < 6 ==> {
                    &&& kernel.segments[k].states[6 * instant + component]
                        == #[trigger] retained_component(
                        rows,
                        stride,
                        targets[k],
                        instant,
                        component,
                    )
                    &&& kernel.reference->Some_0[6 * instant + component] == retained_component(
                        rows,
                        stride,
                        at,
                        instant,
                        component,
                    )
                }
        }),
{
    lemma_observer_position(bodies, observer);
    lemma_body_block_components(rows, stride, at);
    lemma_segments_hold_sampled_states(bodies, rows, epochs, observer, stride);
    let kernel = planned_kernel(bodies, rows, epochs, observer, stride);
    let targets = target_indices(bodies, observer);
    assert forall|k: int, instant: int, component: int|
        0 <= k < targets.len() && 0 <= instant < retained_count(rows.len() as int, stride) && 0
            <= component < 6 implies {
        &&& kernel.segments[k].states[6 * instant + component] == #[trigger] retained_component(
            rows,
            stride,
            targets[k],
            instant,
            component,
        )
        &&& kernel.reference->Some_0[6 * instant + component] == retained_component(
            rows,
            stride,
            at,
            instant,
            component,
        )
    } by {
        assert(body_block(rows, stride, at)[6 * instant + component] == retained_component(
            rows,
            stride,
            at,
            instant,
            component,
        ));
    }
}

/// The contents of a kernel are a function of the trajectory, the observer
/// and the stride: two kernels planned from the same inputs hold the same
/// timeline, the same reference table and the same segments.
pub proof fn lemma_same_inputs_same_kernel<T>(
    first: Kernel<T>,
    second: Kernel<T>,
    bodies: Seq<i32>,
    rows: Seq<Seq<T>>,
    epochs: Seq<T>,
    observer: i32,
    stride: int,
)
    requires
        first@ == planned_kernel(bodies, rows, epochs, observer, stride),
        second@ == planned_kernel(bodies, rows, epochs, observer, stride),
    ensures
        first@.epochs == second@.epochs,
        first@.reference == second@.reference,
        first@.segments == second@.segments,
{
}

/// In a planned kernel every table, the reference table too, holds six
/// components for each retained instant.
pub proof fn lemma_planned_kernel_is_consistent<T>(
    bodies: Seq<i32>,
    rows: Seq<Seq<T>>,
    epochs: Seq<T>,
    observer: i32,
    stride: int,
)
    ensures
        planned_kernel(bodies, rows, epochs, observer, stride).is_consistent(),
{
}

/// Builds the identifier of the segment of `target` relative to `observer`.
pub fn segment_label(target: i32, observer: i32) -> (label: String)
    ensures
        label@ == label_text(target as int, observer as int),
{
    let mut label = String::from_str("Position of ");
    push_decimal(&mut label, target);
    label.append(" relative to ");
    push_decimal(&mut label, observer);
    label
}

/// Finds the first position of `id` in `bodies`.
pub fn find_body(bodies: &[i32], id: i32) -> (position: Option<usize>)
    ensures
        match position {
            Some(index) => observer_position(bodies@, id) == Some(index as int),
            None => observer_position(bodies@, id) is None,
        },
{
    let mut index: usize = 0;
    while index < bodies.len()
        invariant
            index <= bodies@.len(),
            forall|j: int| 0 <= j < index ==> bodies@[j] != id,
        decreases bodies@.len() - index,
    {
        if bodies[index] == id {
            proof {
                assert(is_first_index(bodies@, id, index as int));
                lemma_observer_position(bodies@, id);
            }
            return Some(index);
        }
        index = index + 1;
    }
    proof {
        lemma_observer_position(bodies@, id);
    }
    None
}

/// Tests whether a trajectory can be planned with this stride: whether its
/// inputs fit together and the state tables can be allocated.
pub fn inputs_fit<T>(bodies: &[i32], states: &[Vec<T>], ets: &[T], stride: usize) -> (fit: bool)
    requires
        stride > 0,
    ensures
        fit == (well_formed(bodies@, state_rows(states@), ets@) && buffer_fits::<T>(
            6 * retained_count(ets@.len() as int, stride as int),
        )),
{
    let ghost rows = state_rows(states@);
    if states.len() != ets.len() || ets.len() == 0 {
        return false;
    }
    if bodies.len() > usize::MAX / 6 {
        let first = states[0].len();
        proof {
            assert(rows[0].len() == first);
        }
        return false;
    }
    let width = 6 * bodies.len();
    let mut index: usize = 0;
    while index < states.len()
        invariant
            index <= states@.len(),
            rows == state_rows(states@),
            width == 6 * bodies@.len(),
            forall|i: int| 0 <= i < index ==> (#[trigger] rows[i]).len() == width,
        decreases states@.len() - index,
    {
        if states[index].len() != width {
            proof {
                assert(rows[index as int].len() == states@[index as int]@.len());
            }
            return false;
        }
        proof {
            assert(rows[index as int].len() == states@[index as int]@.len());
        }
        index = index + 1;
    }
    assert(well_formed(bodies@, rows, ets@));
    let count = retained(ets.len(), stride);
    if count > usize::MAX / 6 {
        return false;
    }
    can_allocate::<T>(6 * count)
}

/// Plans the kernel of a sampled trajectory.
///
/// `states` holds one row for each epoch of `ets`, and each row six
/// components for each body of `bodies`, in list order. The retention
/// fraction is given by its single-precision bits. A fraction outside
/// `(0, 1]` is rejected whatever the other arguments are. Otherwise the
/// timeline is down-sampled by the stride of the fraction, the observer's
/// state table becomes the reference if `cb_id` occurs in `bodies`, and each
/// other body gets a segment over the retained instants.
pub fn write_to_spk<T: Copy>(
    bodies: &[i32],
    states: &[Vec<T>],
    ets: &[T],
    cb_id: i32,
    fraction_bits: u32,
) -> (kernel: Result<Kernel<T>, SpiceError>)
    requires
        fraction_in_range(fraction_bits) ==> well_formed(bodies@, state_rows(states@), ets@),
        fraction_in_range(fraction_bits) ==> buffer_fits::<T>(
            6 * retained_count(ets@.len() as int, stride_of(fraction_bits)),
        ),
    ensures
        !fraction_in_range(fraction_bits) ==> kernel == Err::<Kernel<T>, SpiceError>(
            SpiceError::InvalidFraction,
        ),
        fraction_in_range(fraction_bits) ==> kernel is Ok && kernel->Ok_0@ == planned_kernel(
            bodies@,
            state_rows(states@),
            ets@,
            cb_id,
            stride_of(fraction_bits),
        ),
{
    let stride = match steps_to_skip(fraction_bits) {
        Ok(stride) => stride,
        Err(error) => {
            return Err(error);
        },
    };
    let ghost rows = state_rows(states@);
    let ghost targets = target_indices(bodies@, cb_id);
    proof {
        lemma_retained_count_bounds(ets@.len() as int, stride as int);
        assert forall|i: int| 0 <= i < states@.len() implies (#[trigger] states@[i])@.len() == 6
            * bodies@.len() by {
            assert(rows[i] == states@[i]@);
        }
    }
    let epochs = downsample(ets, stride);
    let first_epoch = epochs[0];
    let last_epoch = epochs[epochs.len() - 1];
    let reference = match find_body(bodies, cb_id) {
        Some(index) => Some(gather_block(states, stride, index)),
        None => None,
    };
    let mut segments: Vec<Segment<T>> = Vec::new();
    let mut index: usize = 0;
    while index < bodies.len()
        invariant
            index <= bodies@.len(),
            stride > 0,
            stride == stride_of(fraction_bits),
            rows == state_rows(states@),
            states@.len() == ets@.len(),
            forall|i: int| 0 <= i < states@.len() ==> (#[trigger] states@[i])@.len() == 6
                * bodies@.len(),
            buffer_fits::<T>(6 * retained_count(states@.len() as int, stride as int)),
            first_epoch == strided(ets@, stride as int).first(),
            last_epoch == strided(ets@, stride as int).last(),
            segments@.map_values(|segment: Segment<T>| segment@) == target_indices(
                bodies@.take(index as int),
                cb_id,
            ).map_values(
                |at: int| planned_segment(bodies@, rows, ets@, cb_id, stride as int, at),
            ),
        decreases bodies@.len() - index,
    {
        let body = bodies[index];
        proof {
            assert(bodies@.take(index + 1).drop_last() =~= bodies@.take(index as int));
            assert(bodies@.take(index + 1).last() == body);
        }
        if body != cb_id {
            let ghost before = segments@.map_values(|segment: Segment<T>| segment@);
            let segment = Segment {
                target: body,
                observer: cb_id,
                label: segment_label(body, cb_id),
                first_epoch,
                last_epoch,
                states: gather_block(states, stride, index),
            };
            segments.push(segment);
            assert(segments@.map_values(|segment: Segment<T>| segment@) =~= before.push(
                planned_segment(bodies@, rows, ets@, cb_id, stride as int, index as int),
            ));
            assert(target_indices(bodies@.take(index + 1), cb_id).map_values(
                |at: int| planned_segment(bodies@, rows, ets@, cb_id, stride as int, at),
            ) =~= before.push(
                planned_segment(bodies@, rows, ets@, cb_id, stride as int, index as int),
            ));
        }
        index = index + 1;
    }
    proof {
        assert(bodies@.take(bodies@.len() as int) =~= bodies@);
        let planned = planned_kernel(bodies@, rows, ets@, cb_id, stride as int);
        lemma_planned_kernel_is_consistent(bodies@, rows, ets@, cb_id, stride as int);
        let views = segments@.map_values(|segment: Segment<T>| segment@);
        assert(views == planned.segments);
        assert forall|k: int| 0 <= k < segments@.len() implies (#[trigger] views[k]).states.len()
            == 6 * retained_count(rows.len() as int, stride as int) by {
            assert(views[k] == planned.segments[k]);
        }
    }
    let kernel = Kernel { epochs, reference, segments };
    proof {
        assert(kernel@ =~= planned_kernel(bodies@, rows, ets@, cb_id, stride as int));
    }
    Ok(kernel)
}

} // verus!
