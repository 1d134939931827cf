//! Random choices, drawn from the `rand` crate.

use vstd::prelude::*;
use rand::rngs::StdRng;
use rand::seq::SliceRandom;
use crate::grid::Cell;

verus! {

/// The standard generator of `rand`, which computes all its output from
/// its seed. Nothing is known of its state.
#[verifier::external_type_specification]
#[verifier::external_body]
pub struct ExStdRng(rand::rngs::StdRng);

/// `SliceRandom::choose` of `rand` on a slice of cells. It returns `None`
/// for an empty slice and else one element of the slice; which one is left
/// open, as it depends on the generator.
#[verifier::external_body]
pub(crate) fn choose_cell(rng: &mut StdRng, choices: &[Cell]) -> (chosen: Option<Cell>)
    ensures
        chosen is None <==> choices@.len() == 0,
        chosen is Some ==> choices@.contains(chosen->Some_0),
{
    choices.choose(rng).copied()
}

} // verus!
