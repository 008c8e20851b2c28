//! The random source. Every draw the library makes goes through the two
//! functions below, on a generator that the caller owns and may seed.

use rand::Rng;
use rand::StdRng;
use vstd::prelude::*;
use crate::util::Point;

verus! {

/// `rand::StdRng`, the generator that the caller hands in. Its state is
/// opaque here: it is only ever passed on to the two functions below.
#[verifier::external_type_specification]
#[verifier::external_body]
pub struct ExStdRng(rand::StdRng);

/// Draw an integer from `[low, high)`.
///
/// Calls `rand::Rng::gen_range`, which panics unless `low < high` and
/// otherwise returns a value of the half-open range. Nothing is claimed about
/// which value comes back, nor about the generator's state afterwards.
#[verifier::external_body]
pub(crate) fn draw_range(rng: &mut StdRng, low: i64, high: i64) -> (r: i64)
    requires
        low < high,
    ensures
        low <= r < high,
{
    rng.gen_range(low, high)
}

/// Reorder `points` in place.
///
/// Calls `rand::Rng::shuffle`, which only ever swaps pairs of elements of the
/// slice: the same points are there afterwards, each as often as before, in
/// an order that nothing is claimed about.
#[verifier::external_body]
pub(crate) fn shuffle_points(rng: &mut StdRng, points: &mut Vec<Point>)
    ensures
        final(points)@.to_multiset() == old(points)@.to_multiset(),
{
    rng.shuffle(points.as_mut_slice())
}

} // verus!
