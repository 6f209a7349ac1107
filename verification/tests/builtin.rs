//! Tests for the built-in `Enumerable` instances.

use enumerable::{Enumerable, EnumerationState};

/// Collects every value the type's enumerator yields, in order.
fn collect_all<T: Enumerable>() -> Vec<T> {
    let mut e = T::enumerator();
    let mut out = Vec::new();
    while let Some(v) = e.next() {
        out.push(v);
    }
    out
}

/// Asserts that the enumerator yields exactly `expected`, in order, and
/// that the stated size matches.
fn assert_enumerator_eq<T: Enumerable + std::fmt::Debug + PartialEq>(expected: Vec<T>) {
    assert_eq!(T::enumerable_size(), expected.len());
    assert_eq!(collect_all::<T>(), expected);
}

#[test]
fn mod_test_bool() {
    assert_enumerator_eq(vec![false, true]);
}

#[test]
fn test_test_bool() {
    assert_enumerator_eq(vec![false, true]);
}

#[test]
fn mod_test_option_bool() {
    assert_enumerator_eq(vec![None, Some(false), Some(true)]);
}

#[test]
fn test_test_option_bool() {
    assert_enumerator_eq(vec![None, Some(false), Some(true)]);
}

#[test]
fn mod_test_result_bool_bool() {
    assert_enumerator_eq(vec![Ok(false), Ok(true), Err(false), Err(true)]);
}

#[test]
fn test_test_result_bool_bool() {
    assert_enumerator_eq(vec![Ok(false), Ok(true), Err(false), Err(true)]);
}

#[test]
fn mod_test_primitive_numeric() {
    assert_enumerator_eq((u8::MIN..=u8::MAX).collect());
    assert_enumerator_eq((i8::MIN..=i8::MAX).collect());
    assert_enumerator_eq((i16::MIN..=i16::MAX).collect());
    assert_enumerator_eq((u16::MIN..=u16::MAX).collect());
}

#[test]
fn test_test_primitive_numeric() {
    assert_enumerator_eq((u8::MIN..=u8::MAX).collect());
    assert_enumerator_eq((i8::MIN..=i8::MAX).collect());
    assert_enumerator_eq((i16::MIN..=i16::MAX).collect());
    assert_enumerator_eq((u16::MIN..=u16::MAX).collect());
}

#[test]
fn mod_test_char() {
    assert_eq!(char::enumerator_since(0x61).next(), Some('\u{61}'));
    assert_ne!(char::enumerator_since(0xF987).next(), Some('\u{F987}'));
    assert_eq!(char::enumerator_since(0xF987 - 0x800).next(), Some('\u{F987}'));
}

#[test]
fn test_test_char() {
    assert_eq!(char::enumerator_since(0x61).next(), Some('\u{61}'));
    assert_ne!(char::enumerator_since(0xF987).next(), Some('\u{F987}'));
    assert_eq!(char::enumerator_since(0xF987 - 0x800).next(), Some('\u{F987}'));
}

#[test]
fn test_char_size() {
    // every code point up to 0x10FFFF except the 0x800 surrogates
    assert_eq!(
        char::enumerable_size_option(),
        Some((0xD7FF - 0x0 + 1) + (0x10FFFF - 0xE000 + 1))
    );
}

#[test]
fn test_tuple0() {
    assert_eq!(vec![()], collect_all::<()>());
}

#[test]
fn test_tuple1() {
    assert_eq!(vec![(false,), (true,)], collect_all::<(bool,)>());
}

#[test]
fn test_tuple2() {
    // Illustrate the return order of the enumerator.
    let mut e = <(u8, bool)>::enumerator();
    let mut first_five = Vec::new();
    for _ in 0..5 {
        first_five.push(e.next().unwrap());
    }
    assert_eq!(
        vec![(0, false), (0, true), (1, false), (1, true), (2, false)],
        first_five
    );

    // Verify that the enumerator returns all possible values.
    let expected: Vec<(u8, bool)> = (0u8..=0xff)
        .flat_map(|a| [false, true].into_iter().map(move |b| (a, b)))
        .collect();
    assert_enumerator_eq(expected);
}

#[test]
fn test_enumerator_since_and_from_index() {
    let mut e = u8::enumerator_since(10);
    assert_eq!(e.next(), Some(10));
    assert_eq!(e.next(), Some(11));
    assert_eq!(u8::enumerable_from_index(10), Some(10));
    assert_eq!(u8::enumerable_from_index(255), Some(255));
    assert_eq!(u8::enumerable_from_index(256), None);
}

#[test]
fn test_wide_numeric() {
    // full enumeration of the 32-bit types is too slow; spot-check the
    // order and the size instead
    let mut e = u32::enumerator();
    assert_eq!(e.next(), Some(0));
    assert_eq!(e.next(), Some(1));
    assert_eq!(u32::enumerable_from_index(100_000), Some(100_000));
    assert_eq!(u32::enumerable_size_option(), Some(1 << 32));

    let mut e = i32::enumerator();
    assert_eq!(e.next(), Some(i32::MIN));
    assert_eq!(e.next(), Some(i32::MIN + 1));
    assert_eq!(i32::enumerable_size_option(), Some(1 << 32));

    // one more usize value exists than usize::MAX, so its count is
    // never representable
    assert_eq!(usize::enumerable_size_option(), None);
    let mut e = usize::enumerator();
    assert_eq!(e.next(), Some(0));
}

#[test]
fn test_option_enumerator_new() {
    let mut e = enumerable::OptionEnumerator::<bool>::new();
    assert_eq!(e.next(), Some(None));
    assert_eq!(e.next(), Some(Some(false)));
    assert_eq!(e.next(), Some(Some(true)));
    assert_eq!(e.next(), None);
    assert_eq!(e.next(), None);
}

#[test]
fn test_idempotent_enumeration() {
    // Two independently started enumerations yield identical sequences.
    assert_eq!(collect_all::<Option<bool>>(), collect_all::<Option<bool>>());
    assert_eq!(collect_all::<(u8, bool)>(), collect_all::<(u8, bool)>());
}

#[test]
fn test_size_composition() {
    assert_eq!(bool::enumerable_size_option(), Some(2));
    assert_eq!(<Option<bool>>::enumerable_size_option(), Some(3));
    assert_eq!(<Result<bool, bool>>::enumerable_size_option(), Some(4));
    assert_eq!(<(u8, bool)>::enumerable_size_option(), Some(512));
    assert_eq!(<(usize, usize)>::enumerable_size_option(), None);
}
