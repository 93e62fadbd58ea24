//! The pseudo-random source, wrapped so that every verified caller is
//! proved correct for every outcome the source can produce.

use vstd::prelude::*;
use rand::Rng;
use rand::seq::SliceRandom;

verus! {

/// Relies on `rand::Rng::gen_range` over `0..n`: a draw from the
/// thread-local generator, always below `n`. Nothing more is assumed:
/// callers are verified for every value the draw can take.
#[verifier::external_body]
pub fn rand_below(n: u32) -> (r: u32)
    requires
        1 <= n,
    ensures
        r < n,
{
    rand::thread_rng().gen_range(0..n)
}

/// Relies on `rand::seq::SliceRandom::choose_multiple`: a sample of
/// `amount` indices below `n` (all of them when fewer exist), without
/// repetition and in random order. Order and choice are random, so only
/// length, range and distinctness are assumed.
#[verifier::external_body]
pub fn choose_distinct_indices(n: usize, amount: usize) -> (r: Vec<usize>)
    ensures
        r@.len() == if amount <= n {
            amount as int
        } else {
            n as int
        },
        forall|i: int| 0 <= i < r@.len() ==> r@[i] < n,
        forall|i: int, j: int| 0 <= i < j < r@.len() ==> r@[i] != r@[j],
{
    let pool: Vec<usize> = (0..n).collect();
    pool.choose_multiple(&mut rand::thread_rng(), amount).cloned().collect()
}

} // verus!
