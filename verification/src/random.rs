//! Random-number primitives, backed by the `rand` crate's thread-local
//! generator. Nothing can be promised of a random draw beyond its range, so
//! the contracts state exactly that.
use vstd::prelude::*;

verus! {

/// The error type `rand` reports when the system's entropy source fails.
#[verifier::external_type_specification]
#[verifier::external_body]
pub struct ExRandError(rand::Error);

/// A uniformly random 64-bit integer.
///
/// Relies on rand's `Rng::gen::<i64>` through the thread-local generator;
/// nothing is promised of a random draw.
#[verifier::external_body]
pub fn random_int() -> i64 {
    rand::Rng::gen(&mut rand::thread_rng())
}

/// A uniformly random 64-bit word.
///
/// Relies on rand's `Rng::gen::<u64>` through the thread-local generator;
/// nothing is promised of a random draw.
#[verifier::external_body]
fn random_word() -> u64 {
    rand::Rng::gen(&mut rand::thread_rng())
}

/// A uniformly random draw from `[0, 1)` with 53-bit precision, returned as
/// its numerator `n`: the drawn value is `n / 2^53`, the same distribution
/// rand's standard float sampling uses. Floating point stays outside the
/// planner's world, so the caller performs that one division.
pub fn random_float() -> (n: u64)
    ensures
        n < 0x20_0000_0000_0000,
{
    let word = random_word();
    let n = word >> 11;
    proof {
        assert(word >> 11u64 < 0x20_0000_0000_0000) by (bit_vector);
    }
    n
}

/// Relies on rand's `Rng::gen_range`: for a non-empty half-open range the
/// sample lies in `[min, max)`. An empty range would panic, so it is
/// excluded here.
#[verifier::external_body]
fn sample_range(min: i64, max: i64) -> (r: i64)
    requires
        min < max,
    ensures
        min <= r < max,
{
    rand::Rng::gen_range(&mut rand::thread_rng(), min..max)
}

/// Relies on rand's `Rng::try_fill` for byte slices: it fills the buffer in
/// place, never changing its length, and reports the entropy source's error
/// if one occurs.
#[verifier::external_body]
fn fill_random(buffer: &mut Vec<u8>) -> (r: Result<(), rand::Error>)
    ensures
        final(buffer)@.len() == old(buffer)@.len(),
{
    rand::Rng::try_fill(&mut rand::thread_rng(), &mut buffer[..])
}

/// Relies on `Display` for rand's error to render it; the text itself is
/// unspecified.
#[verifier::external_body]
fn rand_error_message(e: rand::Error) -> String {
    e.to_string()
}

/// A uniformly random integer in `[min, max)`, or 0 when the range is
/// empty.
pub fn random_int_range(min: i64, max: i64) -> (r: i64)
    ensures
        min < max ==> min <= r < max,
        min >= max ==> r == 0,
{
    if min < max {
        sample_range(min, max)
    } else {
        0
    }
}

/// `size` random bytes, or the entropy source's error message if drawing
/// them failed.
pub fn random_bytes(size: usize) -> (r: Result<Vec<u8>, String>)
    ensures
        r is Ok ==> r.unwrap()@.len() == size,
{
    let mut bytes: Vec<u8> = Vec::new();
    let mut i: usize = 0;
    while i < size
        invariant
            0 <= i <= size,
            bytes@.len() == i,
        decreases size - i,
    {
        bytes.push(0);
        i = i + 1;
    }
    match fill_random(&mut bytes) {
        Ok(_) => Ok(bytes),
        Err(e) => Err(rand_error_message(e)),
    }
}

} // verus!
