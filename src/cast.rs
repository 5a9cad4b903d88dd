//! Lossless conversions between `u64` and `usize`.
use usize_cast::{FromUsize, IntoUsize};
use vstd::prelude::*;

verus! {

/// Relies on `usize_cast::IntoUsize::into_usize` for `u64`: a plain `as` cast,
/// which the crate only offers where `usize` is 64 bits wide, so no value is lost.
#[verifier::external_body]
pub(crate) fn u64_into_usize(x: u64) -> (r: usize)
    ensures
        r as int == x as int,
{
    x.into_usize()
}

/// Relies on `usize_cast::FromUsize::from_usize` for `u64`: a plain `as` cast,
/// lossless since `usize` is never wider than 64 bits.
#[verifier::external_body]
pub(crate) fn u64_from_usize(x: usize) -> (r: u64)
    ensures
        r as int == x as int,
{
    u64::from_usize(x)
}

} // verus!
