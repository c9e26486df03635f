//! Randomness from the thread-local generator of the `rand` crate.

use rand::Rng;
use rand::RngCore;
use vstd::prelude::*;

verus! {

/// Calls `rand::Rng::gen_range(0..bound)` on `rand::thread_rng()`. The
/// value is random; what is claimed is that it lies in `0..bound`, as the
/// documentation of `gen_range` states. `gen_range` panics on an empty
/// range, which `bound > 0` excludes.
#[verifier::external_body]
pub(crate) fn random_below(bound: u64) -> (res: u64)
    requires
        bound > 0,
    ensures
        res < bound,
{
    rand::thread_rng().gen_range(0..bound)
}

/// Calls `rand::RngCore::fill_bytes` of `rand::thread_rng()` on a buffer of
/// `length` zero bytes. The bytes are random; what is claimed is the length.
#[verifier::external_body]
pub(crate) fn random_bytes(length: usize) -> (res: Vec<u8>)
    ensures
        res@.len() == length,
{
    let mut material = vec![0u8; length];
    rand::thread_rng().fill_bytes(&mut material);
    material
}

} // verus!
