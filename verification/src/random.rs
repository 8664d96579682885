use rand::Rng;
use vstd::prelude::*;

verus! {

/// Whether `byte` is an ASCII letter or an ASCII digit.
pub open spec fn is_ascii_alphanumeric(byte: u8) -> bool {
    ||| 0x30 <= byte <= 0x39
    ||| 0x41 <= byte <= 0x5a
    ||| 0x61 <= byte <= 0x7a
}

/// Draws an integer from the half-open range `low..high`.
///
/// Trusted: calls `rand::Rng::gen_range` on the generator returned by
/// `rand::thread_rng`. The contract claims only that the value lies in the
/// range, which the sampler guarantees for every non-empty range; an empty
/// range makes `gen_range` panic and is excluded by the precondition. Which
/// value comes back is left open, so two calls may differ. The generator is
/// seeded by the operating system when a thread first asks for it.
#[verifier::external_body]
pub(crate) fn random_in_range(low: u32, high: u32) -> (value: u32)
    requires
        low < high,
    ensures
        low <= value < high,
{
    rand::thread_rng().gen_range(low..high)
}

/// Draws one ASCII letter or digit.
///
/// Trusted: calls `rand::Rng::sample` with `rand::distributions::Alphanumeric`
/// on the generator returned by `rand::thread_rng`. The distribution picks
/// its byte from the table `A-Z`, `a-z`, `0-9`; the contract claims that
/// membership and nothing about which byte is drawn.
#[verifier::external_body]
pub(crate) fn random_alphanumeric() -> (byte: u8)
    ensures
        is_ascii_alphanumeric(byte),
{
    rand::thread_rng().sample(rand::distributions::Alphanumeric)
}

} // verus!
