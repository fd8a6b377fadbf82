//! The random selector: one comic identifier, drawn uniformly from the
//! valid range.

use rand::Rng;
use vstd::prelude::*;

verus! {

/// Relies on rand's Rng::gen_range on a thread-local generator: a value
/// uniformly distributed over the given non-empty inclusive range, never
/// outside it.
#[verifier::external_body]
fn draw_in_range(lo: u64, hi: u64) -> (r: u64)
    requires
        lo <= hi,
    ensures
        lo <= r <= hi,
{
    let mut rng = rand::thread_rng();
    rng.gen_range(lo..=hi)
}

/// A comic identifier drawn uniformly at random: never below one, never
/// above the hard-coded latest identifier.
pub fn random_comic_id() -> (id: u64)
    ensures
        1 <= id <= crate::MAX_COMIC_ID,
{
    draw_in_range(1, crate::MAX_COMIC_ID)
}

} // verus!
