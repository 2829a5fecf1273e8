//! The random draws the library makes, through rand.
use rand::distributions::Alphanumeric;
use rand::rngs::{SmallRng, ThreadRng};
use rand::Rng;
use vstd::prelude::*;

verus! {

/// rand's `SmallRng`, a seedable generator; the library only hands it to rand.
#[verifier::external_type_specification]
#[verifier::external_body]
pub struct ExSmallRng(SmallRng);

/// rand's `ThreadRng`, a handle on the thread's generator; the library only hands it to rand.
#[verifier::external_type_specification]
#[verifier::external_body]
pub struct ExThreadRng(ThreadRng);

/// An ASCII letter or digit.
pub open spec fn is_alphanumeric(c: char) -> bool {
    ('0' <= c <= '9') || ('a' <= c <= 'z') || ('A' <= c <= 'Z')
}

/// Calls `rand::thread_rng`: a handle on the thread's generator. Nothing is claimed of it.
#[verifier::external_body]
pub(crate) fn thread_rng() -> ThreadRng {
    rand::thread_rng()
}

/// Calls `Rng::sample_iter` with the `Alphanumeric` distribution (rand) on `rng`, takes `len`
/// samples and turns each into a `char`. Claimed, as the distribution's documentation says:
/// `len` characters, each an ASCII letter or digit; which ones is chance.
#[verifier::external_body]
pub(crate) fn alphanumeric_from_small(rng: &mut SmallRng, len: usize) -> (s: String)
    ensures
        s@.len() == len,
        forall|i: int| 0 <= i < len ==> is_alphanumeric(#[trigger] s@[i]),
{
    rng.sample_iter(&Alphanumeric).take(len).map(char::from).collect()
}

/// The same draw as `alphanumeric_from_small`, from the thread's generator: `Rng::sample_iter`
/// with `Alphanumeric` (rand), `len` samples, each turned into a `char`. Claimed: `len`
/// characters, each an ASCII letter or digit; which ones is chance.
#[verifier::external_body]
pub(crate) fn alphanumeric_from_thread(rng: &mut ThreadRng, len: usize) -> (s: String)
    ensures
        s@.len() == len,
        forall|i: int| 0 <= i < len ==> is_alphanumeric(#[trigger] s@[i]),
{
    rng.sample_iter(&Alphanumeric).take(len).map(char::from).collect()
}

/// Calls `Rng::gen_range` (rand) with the range `0..bound`, which it requires not to be empty.
/// Claimed: a byte below `bound`; which one is chance.
#[verifier::external_body]
pub(crate) fn byte_below(rng: &mut ThreadRng, bound: u8) -> (b: u8)
    requires
        bound > 0,
    ensures
        b < bound,
{
    rng.gen_range(0..bound)
}

} // verus!
