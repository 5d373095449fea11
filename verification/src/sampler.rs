//! Multi-body states at one instant.

use vstd::prelude::*;
use crate::blocks::block_views;
use crate::blocks::buffer_fits;
use crate::blocks::join_blocks;
use crate::blocks::lemma_flatten_uniform;
use crate::error::SpiceError;

verus! {

/// The aberration correction of every state retrieval: none, neither for
/// light time nor for stellar aberration.
pub const ABERRATION_CORRECTION: &'static str = "NONE";

/// The state of `body` relative to `cb_id`, or the failure to retrieve it.
/// `state` is what the engine returned for the epoch whose decimal text is
/// `epoch`, and `failure` is the engine's short diagnostic if its failure
/// flag is set after the retrieval. The state stays in the engine's units,
/// kilometers and kilometers per second.
pub fn state_at_instant<T>(
    body: i32,
    cb_id: i32,
    epoch: String,
    state: [T; 6],
    failure: Option<String>,
) -> (outcome: Result<[T; 6], SpiceError>)
    ensures
        outcome == match failure {
            Some(diagnostic) => Err::<[T; 6], SpiceError>(
                SpiceError::StateUnavailable { body, observer: cb_id, epoch, diagnostic },
            ),
            None => Ok::<[T; 6], SpiceError>(state),
        },
{
    match failure {
        Some(diagnostic) => Err(
            SpiceError::StateUnavailable { body, observer: cb_id, epoch, diagnostic },
        ),
        None => Ok(state),
    }
}

/// The flat buffer of a list of per-body outcomes: the states one after the
/// other in list order, or the first failure.
pub open spec fn combined<T>(samples: Seq<Result<[T; 6], SpiceError>>) -> Result<
    Seq<T>,
    SpiceError,
>
    decreases samples.len(),
{
    if samples.len() == 0 {
        Ok(Seq::empty())
    } else {
        match combined(samples.drop_last()) {
            Ok(buffer) => match samples.last() {
                Ok(state) => Ok(buffer + state@),
                Err(error) => Err(error),
            },
            Err(error) => Err(error),
        }
    }
}

/// Where every body has a state, the buffer holds six components for each
/// body, body by body.
pub proof fn lemma_combined_states<T>(samples: Seq<Result<[T; 6], SpiceError>>)
    requires
        forall|i: int| 0 <= i < samples.len() ==> (#[trigger] samples[i]) is Ok,
    ensures
        combined(samples) is Ok,
        combined(samples)->Ok_0.len() == 6 * samples.len(),
        forall|body: int, component: int|
            0 <= body < samples.len() && 0 <= component < 6 ==> combined(samples)->Ok_0[6 * body
                + component] == (#[trigger] samples[body]->Ok_0@[component]),
    decreases samples.len(),
{
    if samples.len() > 0 {
        let front = samples.drop_last();
        assert forall|i: int| 0 <= i < front.len() implies (#[trigger] front[i]) is Ok by {
            assert(samples[i] is Ok);
        }
        lemma_combined_states(front);
        assert(samples.last() is Ok);
        assert forall|body: int, component: int|
            0 <= body < samples.len() && 0 <= component < 6 implies combined(samples)->Ok_0[6
            * body + component] == (#[trigger] samples[body]->Ok_0@[component]) by {
            if body < front.len() {
                assert(front[body] == samples[body]);
                assert(combined(front)->Ok_0[6 * body + component] == front[body]->Ok_0@[component]);
            }
        }
    }
}

/// The first failure in list order fails the whole buffer.
pub proof fn lemma_combined_failure<T>(samples: Seq<Result<[T; 6], SpiceError>>, failed: int)
    requires
        0 <= failed < samples.len(),
        samples[failed] is Err,
        forall|i: int| 0 <= i < failed ==> (#[trigger] samples[i]) is Ok,
    ensures
        combined(samples) == Err::<Seq<T>, SpiceError>(samples[failed]->Err_0),
    decreases samples.len(),
{
    let front = samples.drop_last();
    if failed < front.len() {
        assert(front[failed] == samples[failed]);
        assert forall|i: int| 0 <= i < failed implies (#[trigger] front[i]) is Ok by {
            assert(samples[i] is Ok);
        }
        lemma_combined_failure(front, failed);
    } else {
        assert forall|i: int| 0 <= i < front.len() implies (#[trigger] front[i]) is Ok by {
            assert(samples[i] is Ok);
        }
        lemma_combined_states(front);
    }
}

/// Composes the per-body outcomes of one instant into one flat buffer, six
/// components for each body in list order. The first failure fails the
/// whole buffer.
pub fn states_at_instant<T: Copy>(samples: &[Result<[T; 6], SpiceError>]) -> (state: Result<
    Vec<T>,
    SpiceError,
>)
    requires
        buffer_fits::<T>(6 * (samples@.len() as int)),
    ensures
        match state {
            Ok(buffer) => combined(samples@) == Ok::<Seq<T>, SpiceError>(buffer@),
            Err(error) => combined(samples@) == Err::<Seq<T>, SpiceError>(error),
        },
{
    let mut blocks: Vec<&[T]> = Vec::new();
    let mut index: usize = 0;
    while index < samples.len()
        invariant
            index <= samples@.len(),
            blocks@.len() == index,
            forall|i: int| 0 <= i < index ==> (#[trigger] blocks@[i])@.len() == 6,
            forall|i: int| 0 <= i < index ==> (#[trigger] samples@[i]) is Ok,
            combined(samples@.take(index as int)) == Ok::<Seq<T>, SpiceError>(
                block_views(blocks@).flatten(),
            ),
        decreases samples@.len() - index,
    {
        proof {
            assert(samples@.take(index + 1).drop_last() =~= samples@.take(index as int));
            assert(samples@.take(index + 1).last() == samples@[index as int]);
        }
        match &samples[index] {
            Ok(state) => {
                let ghost before = block_views(blocks@);
                blocks.push(state.as_slice());
                proof {
                    assert(block_views(blocks@) =~= before.push(state@));
                    before.lemma_flatten_push(state@);
                }
            },
            Err(error) => {
                proof {
                    lemma_combined_failure(samples@, index as int);
                }
                return Err(error.duplicate());
            },
        }
        index = index + 1;
    }
    proof {
        assert(samples@.take(samples@.len() as int) =~= samples@);
        let views = block_views(blocks@);
        assert forall|i: int| 0 <= i < views.len() implies (#[trigger] views[i]).len() == 6 by {
            assert(views[i] == blocks@[i]@);
        }
        lemma_flatten_uniform(views, 6);
    }
    Ok(join_blocks(&blocks))
}

} // verus!
