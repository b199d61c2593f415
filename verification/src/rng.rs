use vstd::prelude::*;

verus! {

/// rand's standard generator, declared opaquely so that it can appear
/// in the library's signatures; the library draws from it only through
/// the wrappers below, and every property the generator's output is
/// involved in is proved for every possible draw.
#[verifier::external_type_specification]
#[verifier::external_body]
pub struct ExStdRng(rand::rngs::StdRng);

/// Relies on rand's `RngExt::random_range` over `lo..hi`: it returns a
/// value of the range and panics only on an empty one. Which value
/// comes back is deliberately left unstated.
#[verifier::external_body]
pub(crate) fn rng_range(rng: &mut rand::rngs::StdRng, lo: i32, hi: i32) -> (r: i32)
    requires
        lo < hi,
    ensures
        lo <= r < hi,
{
    rand::RngExt::random_range(rng, lo..hi)
}

/// Relies on rand's `RngExt::random` at `bool`: a coin flip, with
/// nothing assumed about the outcome.
#[verifier::external_body]
pub(crate) fn rng_coin(rng: &mut rand::rngs::StdRng) -> bool {
    let b: bool = rand::RngExt::random(rng);
    b
}

} // verus!
