//! Trusted access to the process random number generator. Randomness is
//! unseeded and not reproducible; the contracts state only what holds
//! of every outcome.

use vstd::prelude::*;

verus! {

/// The sum of a sequence of weights.
pub open spec fn sum_weights(s: Seq<u32>) -> int
    decreases s.len(),
{
    if s.len() == 0 {
        0
    } else {
        sum_weights(s.drop_last()) + s.last()
    }
}

/// Relies on rand's `Rng::gen_range` over a half-open `i32` range: the
/// result lies in the range, and the call panics only when the range is
/// empty.
#[verifier::external_body]
pub fn rand_range(lo: i32, hi: i32) -> (r: i32)
    requires
        lo < hi,
    ensures
        lo <= r < hi,
{
    rand::Rng::gen_range(&mut rand::thread_rng(), lo..hi)
}

/// Relies on rand's `Rng::gen_range` over a half-open `u32` range: the
/// result lies in the range, and the call panics only when the range is
/// empty.
#[verifier::external_body]
pub fn rand_range_u32(lo: u32, hi: u32) -> (r: u32)
    requires
        lo < hi,
    ensures
        lo <= r < hi,
{
    rand::Rng::gen_range(&mut rand::thread_rng(), lo..hi)
}

/// Relies on rand's `random::<bool>()`: an arbitrary coin flip, about
/// which nothing can be promised.
#[verifier::external_body]
pub fn rand_bool() -> bool {
    rand::random::<bool>()
}

/// Relies on rand's `WeightedIndex`: construction fails exactly when
/// the weights are empty or all zero (`u32` weights are never negative,
/// and the sum is required not to overflow), and sampling draws an
/// index with probability proportional to its weight — in particular,
/// an index whose weight is positive.
#[verifier::external_body]
pub fn sample_weighted(weights: &Vec<u32>) -> (r: Option<usize>)
    requires
        sum_weights(weights@) <= u32::MAX,
    ensures
        r matches Some(i) ==> i < weights@.len() && weights@[i as int] > 0,
        sum_weights(weights@) > 0 ==> r is Some,
{
    match rand::distributions::WeightedIndex::new(weights.iter()) {
        Ok(dist) => Some(rand::Rng::sample(&mut rand::thread_rng(), dist)),
        Err(_) => None,
    }
}

} // verus!
