//! The random source of a layout search.

use vstd::prelude::*;
use rand::rngs::StdRng;
use rand::seq::SliceRandom;

verus! {

#[verifier::external_type_specification]
#[verifier::external_body]
pub struct ExStdRng(StdRng);

/// `SliceRandom::choose` on the candidates: nothing if there are none, else
/// one of them. Which one depends on the generator's state, of which nothing
/// is claimed.
#[verifier::external_body]
pub(crate) fn choose_one<T: Copy>(rng: &mut StdRng, candidates: &Vec<T>) -> (pick: Option<T>)
    ensures
        candidates@.len() == 0 ==> pick is None,
        candidates@.len() > 0 ==> pick is Some && candidates@.contains(pick.unwrap()),
{
    candidates.choose(rng).copied()
}

} // verus!
