//! Draws from the thread-local generator of `rand`. Nothing is promised of
//! a drawn value beyond its range.
use vstd::prelude::*;

verus! {

/// Relies on `rand::Rng::gen_range(0, n)` on `rand::thread_rng()`: a number
/// in `[0, n)`; it panics when the range is empty.
#[verifier::external_body]
pub(crate) fn random_below(n: u32) -> (r: u32)
    requires
        n > 0,
    ensures
        r < n,
{
    rand::Rng::gen_range(&mut rand::thread_rng(), 0, n)
}

/// Relies on `rand::Rng::gen::<u8>` on `rand::thread_rng()`: any byte.
#[verifier::external_body]
pub(crate) fn random_u8() -> (r: u8) {
    rand::Rng::gen::<u8>(&mut rand::thread_rng())
}

/// A fair coin: the low bit of a random byte.
pub(crate) fn random_bool() -> (r: bool) {
    random_u8() % 2 == 1
}

/// Relies on `rand::random::<usize>`: any number.
#[verifier::external_body]
pub(crate) fn random_usize() -> (r: usize) {
    rand::random::<usize>()
}

/// Relies on `rand::Rng::gen_ratio(numerator, denominator)` on
/// `rand::thread_rng()`: true with that probability; it panics when the
/// denominator is 0 or below the numerator.
#[verifier::external_body]
pub(crate) fn random_ratio(numerator: u32, denominator: u32) -> (r: bool)
    requires
        0 < denominator,
        numerator <= denominator,
{
    rand::Rng::gen_ratio(&mut rand::thread_rng(), numerator, denominator)
}

/// Relies on `rand::RngCore::fill_bytes` on `rand::thread_rng()`: every
/// byte overwritten, the length kept.
#[verifier::external_body]
pub(crate) fn fill_random(buf: &mut Vec<u8>)
    ensures
        final(buf)@.len() == old(buf)@.len(),
{
    rand::RngCore::fill_bytes(&mut rand::thread_rng(), buf.as_mut_slice())
}

} // verus!
