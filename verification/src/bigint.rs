//! Arbitrary-precision timestamps. Trace durations depend on the time scale
//! and may exceed a 64-bit count of base units, so the maximum timestamp is a
//! `num_bigint::BigInt`. The value a `BigInt` holds is named by
//! `bigint_value`, and the few operations the decoder needs are trusted
//! wrappers whose contracts speak of that name.

use vstd::prelude::*;

verus! {

#[verifier::external_type_specification]
#[verifier::external_body]
pub struct ExBigInt(num_bigint::BigInt);

/// The integer a `num_bigint::BigInt` holds.
pub uninterp spec fn bigint_value(b: num_bigint::BigInt) -> int;

/// The unsigned integer that a little-endian byte string denotes.
pub open spec fn le_bytes_val(s: Seq<u8>) -> nat
    decreases s.len(),
{
    if s.len() == 0 {
        0
    } else {
        (s[0] + 256 * le_bytes_val(s.skip(1))) as nat
    }
}

/// Relies on num_bigint::BigInt::from_bytes_le with a plus sign: the bytes
/// are the magnitude in little-endian order.
#[verifier::external_body]
pub(crate) fn bigint_from_bytes_le(bytes: &[u8]) -> (r: num_bigint::BigInt)
    ensures
        bigint_value(r) == le_bytes_val(bytes@),
{
    num_bigint::BigInt::from_bytes_le(num_bigint::Sign::Plus, bytes)
}

/// Relies on num_bigint::BigInt's `From<u64>`: numeric conversion.
#[verifier::external_body]
pub(crate) fn bigint_from_u64(v: u64) -> (r: num_bigint::BigInt)
    ensures
        bigint_value(r) == v as int,
{
    num_bigint::BigInt::from(v)
}

/// Relies on num_bigint::BigInt's `Ord`: numerical comparison.
#[verifier::external_body]
pub(crate) fn bigint_lt(a: &num_bigint::BigInt, b: &num_bigint::BigInt) -> (r: bool)
    ensures
        r == (bigint_value(*a) < bigint_value(*b)),
{
    a < b
}

} // verus!
