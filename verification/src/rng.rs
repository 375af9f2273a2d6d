//! Trusted wrappers around the process-wide random generator. Nothing can
//! be promised of which value comes back, so each contract states only what
//! holds of every outcome, and the verified callers work for every value.

use vstd::prelude::*;

verus! {

/// Relies on `rand::Rng::gen_range` on the thread-local generator: the
/// result of sampling `lo..hi` lies in that half-open range, and the range
/// is non-empty so the call does not panic.
#[verifier::external_body]
pub(crate) fn rand_range(lo: usize, hi: usize) -> (r: usize)
    requires
        lo < hi,
    ensures
        lo <= r < hi,
{
    rand::Rng::gen_range(&mut rand::thread_rng(), lo..hi)
}

/// Relies on `rand::random`: a random draw of a `bool`. Nothing is promised
/// of its value.
#[verifier::external_body]
pub(crate) fn coin_flip() -> bool {
    rand::random::<bool>()
}

/// Relies on `rand::seq::SliceRandom::shuffle`: the slice after the call is
/// a permutation of the slice before it, so the multiset of entries is kept
/// and every entry after the call already stood somewhere before it.
#[verifier::external_body]
pub(crate) fn shuffle_bytes(v: &mut Vec<u8>)
    ensures
        final(v)@.len() == old(v)@.len(),
        final(v)@.to_multiset() == old(v)@.to_multiset(),
        forall|i: int| 0 <= i < final(v)@.len() ==> old(v)@.contains(#[trigger] final(v)@[i]),
{
    rand::seq::SliceRandom::shuffle(v.as_mut_slice(), &mut rand::thread_rng());
}

} // verus!
