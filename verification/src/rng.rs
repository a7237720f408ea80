//! Randomness primitives, each a thin wrapper around one operation of the
//! `rand` crate.  Nothing useful can be promised about which value comes
//! back, so the contracts state only range, size and distinctness facts that
//! the crate documents for every outcome.
use vstd::prelude::*;

verus! {

/// Relies on rand's `random_ratio`: returns true with probability
/// `num / den`; always false when `num == 0` and always true when
/// `num == den`.  Panics when `den == 0` or `num > den`, so those inputs are
/// excluded.
#[verifier::external_body]
pub(crate) fn rand_ratio(num: u32, den: u32) -> (r: bool)
    requires
        den > 0,
        num <= den,
    ensures
        num == 0 ==> !r,
        num == den ==> r,
{
    rand::random_ratio(num, den)
}

/// Relies on rand's `Rng::random_range` on `0..n`: returns a value of the
/// range.  The range must be non-empty.
#[verifier::external_body]
pub(crate) fn rand_below(n: usize) -> (r: usize)
    requires
        n > 0,
    ensures
        r < n,
{
    rand::Rng::random_range(&mut rand::rng(), 0..n)
}

/// Relies on rand's `seq::index::sample`: returns exactly `amount` distinct
/// indices drawn from `0..length`.  Panics when `amount > length`, so those
/// inputs are excluded.
#[verifier::external_body]
pub(crate) fn rand_sample_indices(length: usize, amount: usize) -> (r: Vec<usize>)
    requires
        amount <= length,
    ensures
        r@.len() == amount,
        forall|i: int| 0 <= i < r@.len() ==> r@[i] < length,
        forall|i: int, j: int| 0 <= i < j < r@.len() ==> r@[i] != r@[j],
{
    rand::seq::index::sample(&mut rand::rng(), length, amount).into_vec()
}

/// Relies on rand's `WeightedIndex`: sampling it returns the index of one of
/// the four weights, each picked with probability proportional to its weight,
/// and an index with weight zero is never picked.  `WeightedIndex::new` fails
/// only on an empty list, a zero total or an overflowing total, all excluded
/// here.
#[verifier::external_body]
pub(crate) fn rand_weighted4(w0: u64, w1: u64, w2: u64, w3: u64) -> (r: usize)
    requires
        w0 + w1 + w2 + w3 > 0,
        w0 + w1 + w2 + w3 <= u64::MAX,
    ensures
        r < 4,
        r == 0 ==> w0 > 0,
        r == 1 ==> w1 > 0,
        r == 2 ==> w2 > 0,
        r == 3 ==> w3 > 0,
{
    let dist = rand::distr::weighted::WeightedIndex::new([w0, w1, w2, w3]).unwrap();
    rand::distr::Distribution::sample(&dist, &mut rand::rng())
}

} // verus!
