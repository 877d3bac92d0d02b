//! The calls that this library makes into `arbitrary_int` and into parts of
//! `core` that have no specification of their own.
use vstd::prelude::*;

verus! {

/// Checks `value` against the range of a 3-bit unsigned integer by calling
/// `arbitrary_int::u3::try_new`, which succeeds exactly when
/// `value <= u3::MAX` (that is, 7) and then holds `value` unchanged;
/// the result is that value read back with `u3::value`.
#[verifier::external_body]
pub(crate) fn u3_try_new(value: u8) -> (r: Option<u8>)
    ensures
        r == (if value <= 7 { Some(value) } else { None::<u8> }),
{
    match arbitrary_int::u3::try_new(value) {
        Ok(v) => Some(v.value()),
        Err(_) => None,
    }
}

/// Makes a 2-bit unsigned integer with `arbitrary_int::u2::from_u8` and reads
/// it back with `u2::value`. `from_u8` panics when `value > 3`, which the
/// precondition excludes; otherwise it stores `value` unchanged.
#[verifier::external_body]
pub(crate) fn u2_from_u8(value: u8) -> (r: u8)
    requires
        value <= 3,
    ensures
        r == value,
{
    arbitrary_int::u2::from_u8(value).value()
}

/// Makes a 27-bit unsigned integer with `arbitrary_int::u27::new` and reads
/// it back with `u27::value`. `new` panics when `value` exceeds
/// `u27::MAX` (2^27 - 1), which the precondition excludes; otherwise it
/// stores `value` unchanged.
#[verifier::external_body]
pub(crate) fn u27_new(value: u32) -> (r: u32)
    requires
        value < 0x800_0000,
    ensures
        r == value,
{
    arbitrary_int::u27::new(value).value()
}

/// Splits a `core::ops::RangeInclusive` into its lower and upper (inclusive)
/// bounds with `RangeInclusive::into_inner`, which hands back the two bounds
/// the range holds.
#[verifier::external_body]
pub(crate) fn range_inclusive_bounds(range: core::ops::RangeInclusive<u32>) -> (r: (u32, u32))
    ensures
        r == (range@.start, range@.end),
{
    range.into_inner()
}

} // verus!
