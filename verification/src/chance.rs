//! Random choices, drawn from the thread-local generator of `rand`.

use vstd::prelude::*;

use rand::rngs::ThreadRng;
use rand::Rng;

verus! {

/// The thread-local random generator of `rand`, carried through unopened.
#[verifier::external_type_specification]
#[verifier::external_body]
pub struct ExThreadRng(ThreadRng);

/// Calls `Rng::gen_range(lo..hi)` of `rand` on `i32`. Its source samples
/// uniformly from the half-open range and panics when the range is empty;
/// the contract claims only that the result lies in the range, since which
/// value comes out rests on chance.
#[verifier::external_body]
fn gen_range_i32(rng: &mut ThreadRng, lo: i32, hi: i32) -> (r: i32)
    requires
        lo < hi,
    ensures
        lo <= r < hi,
{
    rng.gen_range(lo..hi)
}

/// A random integer in `lo..hi`, or `lo` itself when the range is empty
/// (as it can be on a tiny terminal).
pub fn between(rng: &mut ThreadRng, lo: i32, hi: i32) -> (r: i32)
    ensures
        hi <= lo ==> r == lo,
        lo < hi ==> lo <= r < hi,
{
    if hi <= lo {
        lo
    } else {
        gen_range_i32(rng, lo, hi)
    }
}

} // verus!
