//! Calls into the process environment: the random number generator.
//! Everything here is trusted; the rest of the crate is verified against the
//! contract below.
use vstd::prelude::*;

use rand::Rng;

verus! {

/// Relies on rand::Rng::gen_range on the thread-local generator: the result
/// lies in the half-open range given. Nothing more is assumed of it.
#[verifier::external_body]
pub(crate) fn rand_range(lo: u64, hi: u64) -> (r: u64)
    requires
        lo < hi,
    ensures
        lo <= r < hi,
{
    rand::thread_rng().gen_range(lo..hi)
}

} // verus!
