use rand::Rng;
use vstd::prelude::*;

verus! {

#[verifier::external_type_specification]
#[verifier::external_body]
pub struct ExThreadRng(rand::rngs::ThreadRng);

/// Relies on rand::thread_rng: hands out the thread-local generator. It panics
/// only when the operating system's entropy source fails.
pub assume_specification[ rand::thread_rng ]() -> rand::rngs::ThreadRng;

/// Relies on rand::Rng::gen_ratio: true with probability `numerator / denominator`,
/// always false for a zero numerator and always true when the two are equal.
/// It panics on a zero denominator or a numerator above the denominator, and,
/// like `thread_rng`, when the operating system's entropy source fails while
/// seeding, which no argument decides.
#[verifier::external_body]
pub(crate) fn chance(rng: &mut rand::rngs::ThreadRng, numerator: u32, denominator: u32) -> (r: bool)
    requires
        0 < denominator,
        numerator <= denominator,
    ensures
        numerator == 0 ==> !r,
        numerator == denominator ==> r,
{
    rng.gen_ratio(numerator, denominator)
}

} // verus!
