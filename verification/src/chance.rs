//! The source of randomness.
//!
//! Random draws come from `rand`'s thread-local generator. Nothing is known
//! of a draw beyond the range it falls in, and nothing in this module is
//! proved.

use vstd::prelude::*;
use rand::rngs::ThreadRng;
use rand::seq::SliceRandom;
use rand::Rng;

verus! {

/// `rand::rngs::ThreadRng`, the thread-local generator. It is only handed
/// on to the two functions below; nothing is known of its state.
#[verifier::external_type_specification]
#[verifier::external_body]
pub struct ExThreadRng(ThreadRng);

/// `Rng::gen_range(0..bound)`: some index below `bound`. `rand` panics on
/// an empty range, so a `bound` of zero is left out.
#[verifier::external_body]
pub(crate) fn draw_below(rng: &mut ThreadRng, bound: usize) -> (n: usize)
    requires
        0 < bound,
    ensures
        n < bound,
{
    rng.gen_range(0..bound)
}

/// `SliceRandom::choose` on `options`: `None` when there is nothing to
/// choose from, otherwise one of the entries.
#[verifier::external_body]
pub(crate) fn choose_one(options: &Vec<(usize, usize)>, rng: &mut ThreadRng) -> (pick: Option<(usize, usize)>)
    ensures
        match pick {
            None => options@.len() == 0,
            Some(p) => exists|i: int| 0 <= i < options@.len() && options@[i] == p,
        },
{
    options.choose(rng).copied()
}

} // verus!
