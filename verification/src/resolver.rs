//! Resolution of body names to numeric identifiers.

use vstd::prelude::*;
use vstd::string::StringSliceAdditionalSpecFns;
use vstd::utf8::encode_utf8;
use crate::error::SpiceError;

verus! {

/// The engine's answer to the lookup of one name.
pub struct Lookup {
    /// The name or identifier string that was looked up.
    pub name: String,
    /// The identifier that the engine returned; meaningful only if `found`.
    pub id: i32,
    /// Whether the engine could map the name to an identifier.
    pub found: bool,
}

/// The outcome of a batch of lookups: the identifiers in the order of the
/// names, or the failure of the first name that the engine did not find.
pub open spec fn resolution(lookups: Seq<Lookup>) -> Result<Seq<i32>, SpiceError>
    decreases lookups.len(),
{
    if lookups.len() == 0 {
        Ok(Seq::empty())
    } else {
        match resolution(lookups.drop_last()) {
            Ok(ids) => if lookups.last().found {
                Ok(ids.push(lookups.last().id))
            } else {
                Err(SpiceError::NotFound { name: lookups.last().name })
            },
            Err(error) => Err(error),
        }
    }
}

/// A batch resolves exactly when every name was found, to the identifiers in
/// order. Otherwise it fails with the first name that was not found.
pub proof fn lemma_resolution(lookups: Seq<Lookup>)
    ensures
        resolution(lookups) is Ok ==> resolution(lookups)->Ok_0.len() == lookups.len()
            && forall|i: int| 0 <= i < lookups.len() ==> (#[trigger] lookups[i]).found,
        resolution(lookups) is Err ==> exists|k: int|
            0 <= k < lookups.len() && !(#[trigger] lookups[k]).found && resolution(lookups)
                == Err::<Seq<i32>, SpiceError>(SpiceError::NotFound { name: lookups[k].name }),
        (forall|i: int| 0 <= i < lookups.len() ==> (#[trigger] lookups[i]).found) ==> resolution(
            lookups,
        ) == Ok::<Seq<i32>, SpiceError>(lookups.map_values(|lookup: Lookup| lookup.id)),
        forall|k: int|
            0 <= k < lookups.len() && !(#[trigger] lookups[k]).found && (forall|i: int|
                0 <= i < k ==> (#[trigger] lookups[i]).found) ==> resolution(lookups) == Err::<
                Seq<i32>,
                SpiceError,
            >(SpiceError::NotFound { name: lookups[k].name }),
    decreases lookups.len(),
{
    if lookups.len() > 0 {
        let front = lookups.drop_last();
        lemma_resolution(front);
        if resolution(lookups) is Ok {
            assert forall|i: int| 0 <= i < lookups.len() implies (#[trigger] lookups[i]).found by {
                if i < front.len() {
                    assert(front[i].found);
                }
            }
        } else if resolution(front) is Err {
            let k = choose|k: int|
                0 <= k < front.len() && !(#[trigger] front[k]).found && resolution(front) == Err::<
                    Seq<i32>,
                    SpiceError,
                >(SpiceError::NotFound { name: front[k].name });
            assert(!lookups[k].found);
        } else {
            assert(!lookups[lookups.len() - 1].found);
        }
        if forall|i: int| 0 <= i < lookups.len() ==> (#[trigger] lookups[i]).found {
            assert forall|i: int| 0 <= i < front.len() implies (#[trigger] front[i]).found by {
                assert(lookups[i].found);
            }
            assert(lookups.map_values(|lookup: Lookup| lookup.id) =~= front.map_values(
                |lookup: Lookup| lookup.id,
            ).push(lookups.last().id));
        }
        assert forall|k: int|
            0 <= k < lookups.len() && !(#[trigger] lookups[k]).found && (forall|i: int|
                0 <= i < k ==> (#[trigger] lookups[i]).found) implies resolution(lookups) == Err::<
            Seq<i32>,
            SpiceError,
        >(SpiceError::NotFound { name: lookups[k].name }) by {
            if k < front.len() {
                assert(!front[k].found);
                assert forall|i: int| 0 <= i < k implies (#[trigger] front[i]).found by {
                    assert(lookups[i].found);
                }
            } else {
                assert forall|i: int| 0 <= i < front.len() implies (#[trigger] front[i]).found by {
                    assert(lookups[i].found);
                }
            }
        }
    } else {
        assert(lookups.map_values(|lookup: Lookup| lookup.id) =~= Seq::<i32>::empty());
    }
}

/// A batch with a single name that the engine does not know fails with that
/// name, whatever the number of names that it knows, and returns no
/// identifier.
pub proof fn lemma_single_unknown_name(lookups: Seq<Lookup>, unknown: int)
    requires
        0 <= unknown < lookups.len(),
        forall|i: int| 0 <= i < lookups.len() ==> ((#[trigger] lookups[i]).found <==> i != unknown),
    ensures
        resolution(lookups) == Err::<Seq<i32>, SpiceError>(
            SpiceError::NotFound { name: lookups[unknown].name },
        ),
{
    lemma_resolution(lookups);
}

/// Whether the engine can be handed this text as a name: its UTF-8 bytes
/// are not empty and hold no NUL.
pub open spec fn is_engine_text(text: Seq<char>) -> bool {
    &&& encode_utf8(text).len() > 0
    &&& forall|i: int| 0 <= i < encode_utf8(text).len() ==> encode_utf8(text)[i] != 0u8
}

/// Tests whether the engine can be handed this text as a name.
pub fn engine_text(text: &str) -> (ok: bool)
    ensures
        ok == is_engine_text(text@),
{
    let bytes = text.as_bytes();
    if bytes.len() == 0 {
        return false;
    }
    let mut index: usize = 0;
    while index < bytes.len()
        invariant
            index <= bytes@.len(),
            bytes@ == text.spec_bytes(),
            forall|i: int| 0 <= i < index ==> bytes@[i] != 0u8,
        decreases bytes@.len() - index,
    {
        if bytes[index] == 0 {
            return false;
        }
        index = index + 1;
    }
    true
}

/// `spice::bodn2c` asks the engine for the identifier code of a body name
/// and returns it with a flag that tells whether the engine knows the name.
/// The answer depends on the kernels that the engine has loaded, so nothing
/// is stated of it. The call panics on a NUL byte in the name, and the
/// engine signals an error for an empty name: both are left out.
#[verifier::external_body]
fn lookup_body(name: &str) -> (answer: (i32, bool))
    requires
        is_engine_text(name@),
{
    spice::bodn2c(name)
}

/// Whether `answers` can be the engine's answers to a batch of names: one
/// for each name in order, up to the first name that was not found, and
/// found only where the name is a text that the engine can be handed.
pub open spec fn answers_to(answers: Seq<Lookup>, bodies: Seq<String>) -> bool {
    &&& answers.len() <= bodies.len()
    &&& forall|i: int| 0 <= i < answers.len() ==> (#[trigger] answers[i]).name == bodies[i]
    &&& forall|i: int| 0 <= i < answers.len() - 1 ==> (#[trigger] answers[i]).found
    &&& forall|i: int|
        0 <= i < answers.len() && (#[trigger] answers[i]).found ==> is_engine_text(bodies[i]@)
    &&& answers.len() < bodies.len() ==> answers.len() > 0 && !answers.last().found
}

/// Resolves body names or identifier strings to numeric identifiers, in the
/// order of the names. The engine is asked name by name; a text that cannot
/// be a name counts as not found without asking. The first name that is not
/// found fails the whole batch, and the engine is not asked for the names
/// after it. Which names the engine finds depends on the kernels it has
/// loaded: the result is the resolution of the answers that were received,
/// and `resolve` says what that is for each of them.
pub fn naif_ids(bodies: &[String]) -> (ids: Result<Vec<i32>, SpiceError>)
    ensures
        exists|answers: Seq<Lookup>|
            #![trigger answers_to(answers, bodies@)]
            answers_to(answers, bodies@) && match ids {
                Ok(ids) => resolution(answers) == Ok::<Seq<i32>, SpiceError>(ids@),
                Err(error) => resolution(answers) == Err::<Seq<i32>, SpiceError>(error),
            },
        match ids {
            Ok(ids) => ids@.len() == bodies@.len(),
            Err(error) => exists|k: int|
                0 <= k < bodies@.len() && error == (SpiceError::NotFound {
                    name: #[trigger] bodies@[k],
                }),
        },
{
    let mut lookups: Vec<Lookup> = Vec::new();
    let mut index: usize = 0;
    let mut missing = false;
    while index < bodies.len() && !missing
        invariant
            index <= bodies@.len(),
            lookups@.len() == index,
            forall|i: int| 0 <= i < index ==> (#[trigger] lookups@[i]).name == bodies@[i],
            forall|i: int|
                0 <= i < index && (#[trigger] lookups@[i]).found ==> is_engine_text(
                    bodies@[i]@,
                ),
            forall|i: int| 0 <= i < index - 1 ==> (#[trigger] lookups@[i]).found,
            !missing ==> forall|i: int| 0 <= i < index ==> (#[trigger] lookups@[i]).found,
            missing ==> index > 0 && !lookups@[index - 1].found,
        decreases bodies@.len() - index,
    {
        let name = &bodies[index];
        let (id, found) = if engine_text(name.as_str()) {
            lookup_body(name.as_str())
        } else {
            (0, false)
        };
        lookups.push(Lookup { name: name.clone(), id, found });
        missing = !found;
        index = index + 1;
    }
    let ids = resolve(&lookups);
    proof {
        lemma_resolution(lookups@);
        assert(answers_to(lookups@, bodies@));
        if ids is Ok {
            assert(!missing) by {
                if missing {
                    assert(lookups@[index - 1].found);
                }
            }
        }
    }
    ids
}

/// Resolves a batch of names from the engine's answers, in the order of the
/// names. The first name that was not found fails the whole batch.
pub fn resolve(lookups: &[Lookup]) -> (ids: Result<Vec<i32>, SpiceError>)
    ensures
        match ids {
            Ok(ids) => resolution(lookups@) == Ok::<Seq<i32>, SpiceError>(ids@),
            Err(error) => resolution(lookups@) == Err::<Seq<i32>, SpiceError>(error),
        },
{
    let mut ids: Vec<i32> = Vec::new();
    let mut index: usize = 0;
    while index < lookups.len()
        invariant
            index <= lookups@.len(),
            resolution(lookups@.take(index as int)) == Ok::<Seq<i32>, SpiceError>(ids@),
        decreases lookups@.len() - index,
    {
        let lookup = &lookups[index];
        proof {
            assert(lookups@.take(index + 1).drop_last() =~= lookups@.take(index as int));
            assert(lookups@.take(index + 1).last() == lookups@[index as int]);
        }
        if lookup.found {
            ids.push(lookup.id);
        } else {
            let error = SpiceError::NotFound { name: lookup.name.clone() };
            proof {
                lemma_failure_is_kept(lookups@, index + 1);
            }
            return Err(error);
        }
        index = index + 1;
    }
    proof {
        assert(lookups@.take(lookups@.len() as int) =~= lookups@);
    }
    Ok(ids)
}

proof fn lemma_failure_is_kept(lookups: Seq<Lookup>, upto: int)
    requires
        0 <= upto <= lookups.len(),
        resolution(lookups.take(upto)) is Err,
    ensures
        resolution(lookups) == resolution(lookups.take(upto)),
    decreases lookups.len() - upto,
{
    if upto < lookups.len() {
        assert(lookups.take(upto + 1).drop_last() =~= lookups.take(upto));
        lemma_failure_is_kept(lookups, upto + 1);
    } else {
        assert(lookups.take(upto) =~= lookups);
    }
}

} // verus!
