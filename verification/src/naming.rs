//! Naming helpers for positionally numbered elements.
//!
//! Tuple enumerators name their elements by position: the `i`-th element's
//! type parameter is the `i`-th capital letter (`A`, `B`, ...) and its
//! field and sub-enumerator carry the matching lowercase letter (`a`,
//! `b`, ...), as in [`crate::impl_tuple::Tuple1Enumerator`]'s
//! `a_enumerator`.  Only the 26 letters are available, which caps how many
//! positions can be named this way.

use vstd::prelude::*;

verus! {

/// The `i`-th capital letter: `A` for 0 through `Z` for 25.
pub fn capital_letter(i: usize) -> (r: char)
    requires
        i < 26,
    ensures
        r as u32 == 'A' as u32 + i,
{
    (65 + i as u8) as char
}

/// The `i`-th lowercase letter: `a` for 0 through `z` for 25.
pub fn lowercase_letter(i: usize) -> (r: char)
    requires
        i < 26,
    ensures
        r as u32 == 'a' as u32 + i,
{
    (97 + i as u8) as char
}

} // verus!
