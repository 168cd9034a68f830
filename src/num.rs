use vstd::prelude::*;

verus! {

/// A numeric type that coordinates can be stored in: any type that prints
/// itself with `Display`. Numerals are read through the type's `FromStr`.
pub trait WktNum: Sized + Copy + core::fmt::Display + core::fmt::Debug + Default {
}

impl<T: Copy + core::fmt::Display + core::fmt::Debug + Default> WktNum for T {
}

/// The value of a numeral in `T`, or `None` where `T` does not read it.
///
/// Relies on `<T as FromStr>::from_str`, whose outcome depends on the impl
/// of `T`: nothing is assumed of it.
#[verifier::external_body]
pub(crate) fn parse_numeral<T: std::str::FromStr>(text: &str) -> Option<T> {
    text.parse::<T>().ok()
}

} // verus!
