use rand::rngs::StdRng;
use rand::seq::SliceRandom;
use rand::Rng;
use vstd::prelude::*;

use crate::generator::PathOption;

verus! {

/// The seedable generator of the rand crate; every random draw of the library
/// comes from one value of it.
#[verifier::external_type_specification]
#[verifier::external_body]
pub struct ExStdRng(StdRng);

/// Relies on rand's `Rng::gen_range` over `lo..hi`: the value lies in the range.
/// It panics on an empty range, which the requires rules out.
#[verifier::external_body]
pub(crate) fn random_in_range(rng: &mut StdRng, lo: usize, hi: usize) -> (r: usize)
    requires
        lo < hi,
    ensures
        lo <= r < hi,
{
    rng.gen_range(lo..hi)
}

/// Relies on rand's `SliceRandom::choose`: `None` for an empty slice, otherwise
/// one of its elements.
#[verifier::external_body]
pub(crate) fn choose_option(rng: &mut StdRng, options: &Vec<PathOption>) -> (r: Option<PathOption>)
    ensures
        r is None <==> options@.len() == 0,
        r is Some ==> options@.contains(r.unwrap()),
{
    options.choose(rng).copied()
}

} // verus!
