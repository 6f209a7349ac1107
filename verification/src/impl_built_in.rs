//! Built-in `Enumerable` instances: `bool`, small integer types, `char`,
//! `Option` and `Result`.
//!
//! These are hand-written instances of the same capability the shape
//! machinery derives; none of them needs the general odometer.  `bool`
//! yields `false` then `true`; an integer type yields its values from the
//! minimum to the maximum; `char` yields every Unicode scalar value in code
//! point order, skipping the surrogate range; `Option<T>` yields `None`
//! and then `Some` of every value of `T`; `Result<T, E>` yields `Ok` of
//! every value of `T` and then `Err` of every value of `E`.

use vstd::prelude::*;

use crate::cardinality::{size_sum, lemma_size_sum_is_size_of};
use crate::enumerable::{Enumerable, EnumerationState};

verus! {

/// Enumerator for `bool`: yields `false`, then `true`.
pub struct BoolEnumerator {
    pub at: u8,
}

impl EnumerationState<bool> for BoolEnumerator {
    open spec fn wf(&self) -> bool {
        true
    }

    open spec fn remaining(&self) -> Seq<bool> {
        if self.at == 0 {
            seq![false, true]
        } else if self.at == 1 {
            seq![true]
        } else {
            Seq::empty()
        }
    }

    fn next(&mut self) -> (r: Option<bool>) {
        if self.at == 0 {
            self.at = 1;
            proof {
                assert(seq![false, true].drop_first() =~= seq![true]);
            }
            Some(false)
        } else if self.at == 1 {
            self.at = 2;
            proof {
                assert(seq![true].drop_first() =~= Seq::<bool>::empty());
            }
            Some(true)
        } else {
            None
        }
    }
}

impl Enumerable for bool {
    type Enumerator = BoolEnumerator;

    open spec fn all_values() -> Seq<bool> {
        seq![false, true]
    }

    fn enumerator() -> (e: BoolEnumerator) {
        let e = BoolEnumerator { at: 0 };
        proof {
            assert(e.wf());
            assert(e.remaining() == seq![false, true]);
            assert(Self::all_values() == seq![false, true]);
        }
        e
    }

    fn enumerable_size_option() -> (r: Option<usize>) {
        Some(2)
    }
}

/// Enumerator for `u8`: yields `0` through `255` in order.  The counter is
/// one step wider than the type so it can stand one past the last value.
pub struct U8Enumerator {
    pub at: u16,
}

impl EnumerationState<u8> for U8Enumerator {
    open spec fn wf(&self) -> bool {
        self.at <= 256
    }

    open spec fn remaining(&self) -> Seq<u8> {
        Seq::new((256 - self.at) as nat, |k: int| (self.at + k) as u8)
    }

    fn next(&mut self) -> (r: Option<u8>) {
        if self.at >= 256 {
            None
        } else {
            let v = self.at as u8;
            let ghost rem_old = self.remaining();
            self.at = self.at + 1;
            proof {
                assert(v == rem_old[0]);
                assert(self.remaining() =~= rem_old.drop_first());
            }
            Some(v)
        }
    }
}

impl Enumerable for u8 {
    type Enumerator = U8Enumerator;

    open spec fn all_values() -> Seq<u8> {
        Seq::new(256, |k: int| k as u8)
    }

    fn enumerator() -> (e: U8Enumerator) {
        let e = U8Enumerator { at: 0 };
        proof {
            assert(e.remaining() =~= Self::all_values());
        }
        e
    }

    fn enumerable_size_option() -> (r: Option<usize>) {
        Some(256)
    }
}

/// Enumerator for `u16`: yields `0` through `65535` in order.
pub struct U16Enumerator {
    pub at: u32,
}

impl EnumerationState<u16> for U16Enumerator {
    open spec fn wf(&self) -> bool {
        self.at <= 65536
    }

    open spec fn remaining(&self) -> Seq<u16> {
        Seq::new((65536 - self.at) as nat, |k: int| (self.at + k) as u16)
    }

    fn next(&mut self) -> (r: Option<u16>) {
        if self.at >= 65536 {
            None
        } else {
            let v = self.at as u16;
            let ghost rem_old = self.remaining();
            self.at = self.at + 1;
            proof {
                assert(v == rem_old[0]);
                assert(self.remaining() =~= rem_old.drop_first());
            }
            Some(v)
        }
    }
}

impl Enumerable for u16 {
    type Enumerator = U16Enumerator;

    open spec fn all_values() -> Seq<u16> {
        Seq::new(65536, |k: int| k as u16)
    }

    fn enumerator() -> (e: U16Enumerator) {
        let e = U16Enumerator { at: 0 };
        proof {
            assert(e.remaining() =~= Self::all_values());
        }
        e
    }

    fn enumerable_size_option() -> (r: Option<usize>) {
        Some(65536)
    }
}

/// Enumerator for `i8`: yields `-128` through `127` in order.  The counter
/// holds the 0-based position of the next value.
pub struct I8Enumerator {
    pub at: u16,
}

impl EnumerationState<i8> for I8Enumerator {
    open spec fn wf(&self) -> bool {
        self.at <= 256
    }

    open spec fn remaining(&self) -> Seq<i8> {
        Seq::new((256 - self.at) as nat, |k: int| (self.at + k - 128) as i8)
    }

    fn next(&mut self) -> (r: Option<i8>) {
        if self.at >= 256 {
            None
        } else {
            let v = (self.at as i16 - 128) as i8;
            let ghost rem_old = self.remaining();
            self.at = self.at + 1;
            proof {
                assert(v == rem_old[0]);
                assert(self.remaining() =~= rem_old.drop_first());
            }
            Some(v)
        }
    }
}

impl Enumerable for i8 {
    type Enumerator = I8Enumerator;

    open spec fn all_values() -> Seq<i8> {
        Seq::new(256, |k: int| (k - 128) as i8)
    }

    fn enumerator() -> (e: I8Enumerator) {
        let e = I8Enumerator { at: 0 };
        proof {
            assert(e.remaining() =~= Self::all_values());
        }
        e
    }

    fn enumerable_size_option() -> (r: Option<usize>) {
        Some(256)
    }
}

/// Enumerator for `i16`: yields `-32768` through `32767` in order.
pub struct I16Enumerator {
    pub at: u32,
}

impl EnumerationState<i16> for I16Enumerator {
    open spec fn wf(&self) -> bool {
        self.at <= 65536
    }

    open spec fn remaining(&self) -> Seq<i16> {
        Seq::new((65536 - self.at) as nat, |k: int| (self.at + k - 32768) as i16)
    }

    fn next(&mut self) -> (r: Option<i16>) {
        if self.at >= 65536 {
            None
        } else {
            let v = (self.at as i32 - 32768) as i16;
            let ghost rem_old = self.remaining();
            self.at = self.at + 1;
            proof {
                assert(v == rem_old[0]);
                assert(self.remaining() =~= rem_old.drop_first());
            }
            Some(v)
        }
    }
}

impl Enumerable for i16 {
    type Enumerator = I16Enumerator;

    open spec fn all_values() -> Seq<i16> {
        Seq::new(65536, |k: int| (k - 32768) as i16)
    }

    fn enumerator() -> (e: I16Enumerator) {
        let e = I16Enumerator { at: 0 };
        proof {
            assert(e.remaining() =~= Self::all_values());
        }
        e
    }

    fn enumerable_size_option() -> (r: Option<usize>) {
        Some(65536)
    }
}

/// Enumerator for `u32`: yields `0` through `u32::MAX` in order.
pub struct U32Enumerator {
    pub at: u64,
}

impl EnumerationState<u32> for U32Enumerator {
    open spec fn wf(&self) -> bool {
        self.at <= 0x1_0000_0000
    }

    open spec fn remaining(&self) -> Seq<u32> {
        Seq::new((0x1_0000_0000 - self.at) as nat, |k: int| (self.at + k) as u32)
    }

    fn next(&mut self) -> (r: Option<u32>) {
        if self.at >= 0x1_0000_0000 {
            None
        } else {
            let v = self.at as u32;
            let ghost rem_old = self.remaining();
            self.at = self.at + 1;
            proof {
                assert(v == rem_old[0]);
                assert(self.remaining() =~= rem_old.drop_first());
            }
            Some(v)
        }
    }
}

impl Enumerable for u32 {
    type Enumerator = U32Enumerator;

    open spec fn all_values() -> Seq<u32> {
        Seq::new(0x1_0000_0000, |k: int| k as u32)
    }

    fn enumerator() -> (e: U32Enumerator) {
        let e = U32Enumerator { at: 0 };
        proof {
            assert(e.remaining() =~= Self::all_values());
        }
        e
    }

    /// The count fits a `usize` only where `usize` is wider than 32 bits;
    /// the checked increment reports the overflow otherwise.
    fn enumerable_size_option() -> (r: Option<usize>) {
        (u32::MAX as usize).checked_add(1)
    }
}

/// Enumerator for `i32`: yields `-2147483648` through `2147483647` in
/// order.  The counter holds the 0-based position of the next value.
pub struct I32Enumerator {
    pub at: u64,
}

impl EnumerationState<i32> for I32Enumerator {
    open spec fn wf(&self) -> bool {
        self.at <= 0x1_0000_0000
    }

    open spec fn remaining(&self) -> Seq<i32> {
        Seq::new((0x1_0000_0000 - self.at) as nat, |k: int| (self.at + k - 0x8000_0000) as i32)
    }

    fn next(&mut self) -> (r: Option<i32>) {
        if self.at >= 0x1_0000_0000 {
            None
        } else {
            let v = (self.at as i64 - 0x8000_0000) as i32;
            let ghost rem_old = self.remaining();
            self.at = self.at + 1;
            proof {
                assert(v == rem_old[0]);
                assert(self.remaining() =~= rem_old.drop_first());
            }
            Some(v)
        }
    }
}

impl Enumerable for i32 {
    type Enumerator = I32Enumerator;

    open spec fn all_values() -> Seq<i32> {
        Seq::new(0x1_0000_0000, |k: int| (k - 0x8000_0000) as i32)
    }

    fn enumerator() -> (e: I32Enumerator) {
        let e = I32Enumerator { at: 0 };
        proof {
            assert(e.remaining() =~= Self::all_values());
        }
        e
    }

    /// The count fits a `usize` only where `usize` is wider than 32 bits;
    /// the checked increment reports the overflow otherwise.
    fn enumerable_size_option() -> (r: Option<usize>) {
        (u32::MAX as usize).checked_add(1)
    }
}

/// Enumerator for `u64`: yields `0` through `u64::MAX` in order.  The
/// counter cannot stand one past the last value, so exhaustion gets its
/// own flag.
pub struct U64Enumerator {
    pub at: u64,
    pub done: bool,
}

impl EnumerationState<u64> for U64Enumerator {
    open spec fn wf(&self) -> bool {
        true
    }

    open spec fn remaining(&self) -> Seq<u64> {
        if self.done {
            Seq::empty()
        } else {
            Seq::new((u64::MAX - self.at + 1) as nat, |k: int| (self.at + k) as u64)
        }
    }

    fn next(&mut self) -> (r: Option<u64>) {
        if self.done {
            None
        } else {
            let v = self.at;
            let ghost rem_old = self.remaining();
            if self.at == u64::MAX {
                self.done = true;
            } else {
                self.at = self.at + 1;
            }
            proof {
                assert(v == rem_old[0]);
                assert(self.remaining() =~= rem_old.drop_first());
            }
            Some(v)
        }
    }
}

impl Enumerable for u64 {
    type Enumerator = U64Enumerator;

    open spec fn all_values() -> Seq<u64> {
        Seq::new(u64::MAX as nat + 1, |k: int| k as u64)
    }

    fn enumerator() -> (e: U64Enumerator) {
        let e = U64Enumerator { at: 0, done: false };
        proof {
            assert(e.remaining() =~= Self::all_values());
        }
        e
    }

    /// The count is one more than `u64::MAX`, which never fits a `usize`.
    fn enumerable_size_option() -> (r: Option<usize>) {
        None
    }
}

/// Enumerator for `i64`: yields `i64::MIN` through `i64::MAX` in order.
pub struct I64Enumerator {
    pub at: i64,
    pub done: bool,
}

impl EnumerationState<i64> for I64Enumerator {
    open spec fn wf(&self) -> bool {
        true
    }

    open spec fn remaining(&self) -> Seq<i64> {
        if self.done {
            Seq::empty()
        } else {
            Seq::new((i64::MAX - self.at + 1) as nat, |k: int| (self.at + k) as i64)
        }
    }

    fn next(&mut self) -> (r: Option<i64>) {
        if self.done {
            None
        } else {
            let v = self.at;
            let ghost rem_old = self.remaining();
            if self.at == i64::MAX {
                self.done = true;
            } else {
                self.at = self.at + 1;
            }
            proof {
                assert(v == rem_old[0]);
                assert(self.remaining() =~= rem_old.drop_first());
            }
            Some(v)
        }
    }
}

impl Enumerable for i64 {
    type Enumerator = I64Enumerator;

    open spec fn all_values() -> Seq<i64> {
        Seq::new(u64::MAX as nat + 1, |k: int| (k + i64::MIN) as i64)
    }

    fn enumerator() -> (e: I64Enumerator) {
        let e = I64Enumerator { at: i64::MIN, done: false };
        proof {
            assert(e.remaining() =~= Self::all_values());
        }
        e
    }

    /// The count is one more than `u64::MAX`, which never fits a `usize`.
    fn enumerable_size_option() -> (r: Option<usize>) {
        None
    }
}

/// Enumerator for `u128`: yields `0` through `u128::MAX` in order.
pub struct U128Enumerator {
    pub at: u128,
    pub done: bool,
}

impl EnumerationState<u128> for U128Enumerator {
    open spec fn wf(&self) -> bool {
        true
    }

    open spec fn remaining(&self) -> Seq<u128> {
        if self.done {
            Seq::empty()
        } else {
            Seq::new((u128::MAX - self.at + 1) as nat, |k: int| (self.at + k) as u128)
        }
    }

    fn next(&mut self) -> (r: Option<u128>) {
        if self.done {
            None
        } else {
            let v = self.at;
            let ghost rem_old = self.remaining();
            if self.at == u128::MAX {
                self.done = true;
            } else {
                self.at = self.at + 1;
            }
            proof {
                assert(v == rem_old[0]);
                assert(self.remaining() =~= rem_old.drop_first());
            }
            Some(v)
        }
    }
}

impl Enumerable for u128 {
    type Enumerator = U128Enumerator;

    open spec fn all_values() -> Seq<u128> {
        Seq::new(u128::MAX as nat + 1, |k: int| k as u128)
    }

    fn enumerator() -> (e: U128Enumerator) {
        let e = U128Enumerator { at: 0, done: false };
        proof {
            assert(e.remaining() =~= Self::all_values());
        }
        e
    }

    /// The count is one more than `u128::MAX`, which never fits a `usize`.
    fn enumerable_size_option() -> (r: Option<usize>) {
        None
    }
}

/// Enumerator for `i128`: yields `i128::MIN` through `i128::MAX` in order.
pub struct I128Enumerator {
    pub at: i128,
    pub done: bool,
}

impl EnumerationState<i128> for I128Enumerator {
    open spec fn wf(&self) -> bool {
        true
    }

    open spec fn remaining(&self) -> Seq<i128> {
        if self.done {
            Seq::empty()
        } else {
            Seq::new((i128::MAX - self.at + 1) as nat, |k: int| (self.at + k) as i128)
        }
    }

    fn next(&mut self) -> (r: Option<i128>) {
        if self.done {
            None
        } else {
            let v = self.at;
            let ghost rem_old = self.remaining();
            if self.at == i128::MAX {
                self.done = true;
            } else {
                self.at = self.at + 1;
            }
            proof {
                assert(v == rem_old[0]);
                assert(self.remaining() =~= rem_old.drop_first());
            }
            Some(v)
        }
    }
}

impl Enumerable for i128 {
    type Enumerator = I128Enumerator;

    open spec fn all_values() -> Seq<i128> {
        Seq::new(u128::MAX as nat + 1, |k: int| (k + i128::MIN) as i128)
    }

    fn enumerator() -> (e: I128Enumerator) {
        let e = I128Enumerator { at: i128::MIN, done: false };
        proof {
            assert(e.remaining() =~= Self::all_values());
        }
        e
    }

    /// The count is one more than `u128::MAX`, which never fits a `usize`.
    fn enumerable_size_option() -> (r: Option<usize>) {
        None
    }
}

/// Enumerator for `isize`: yields `isize::MIN` through `isize::MAX` in
/// order.
pub struct IsizeEnumerator {
    pub at: isize,
    pub done: bool,
}

impl EnumerationState<isize> for IsizeEnumerator {
    open spec fn wf(&self) -> bool {
        true
    }

    open spec fn remaining(&self) -> Seq<isize> {
        if self.done {
            Seq::empty()
        } else {
            Seq::new((isize::MAX - self.at + 1) as nat, |k: int| (self.at + k) as isize)
        }
    }

    fn next(&mut self) -> (r: Option<isize>) {
        if self.done {
            None
        } else {
            let v = self.at;
            let ghost rem_old = self.remaining();
            if self.at == isize::MAX {
                self.done = true;
            } else {
                self.at = self.at + 1;
            }
            proof {
                assert(v == rem_old[0]);
                assert(self.remaining() =~= rem_old.drop_first());
            }
            Some(v)
        }
    }
}

impl Enumerable for isize {
    type Enumerator = IsizeEnumerator;

    open spec fn all_values() -> Seq<isize> {
        Seq::new(usize::MAX as nat + 1, |k: int| (k + isize::MIN) as isize)
    }

    fn enumerator() -> (e: IsizeEnumerator) {
        let e = IsizeEnumerator { at: isize::MIN, done: false };
        proof {
            assert(e.remaining() =~= Self::all_values());
        }
        e
    }

    /// There are as many `isize` values as `usize` values: one more than
    /// `usize::MAX`, so the count is never representable.
    fn enumerable_size_option() -> (r: Option<usize>) {
        None
    }
}

/// Enumerator for `usize`: yields `0` through `usize::MAX` in order.  The
/// counter cannot stand one past the last value, so exhaustion gets its own
/// flag.
pub struct UsizeEnumerator {
    pub at: usize,
    pub done: bool,
}

impl EnumerationState<usize> for UsizeEnumerator {
    open spec fn wf(&self) -> bool {
        true
    }

    open spec fn remaining(&self) -> Seq<usize> {
        if self.done {
            Seq::empty()
        } else {
            Seq::new((usize::MAX - self.at + 1) as nat, |k: int| (self.at + k) as usize)
        }
    }

    fn next(&mut self) -> (r: Option<usize>) {
        if self.done {
            None
        } else {
            let v = self.at;
            let ghost rem_old = self.remaining();
            if self.at == usize::MAX {
                self.done = true;
            } else {
                self.at = self.at + 1;
            }
            proof {
                assert(v == rem_old[0]);
                assert(self.remaining() =~= rem_old.drop_first());
            }
            Some(v)
        }
    }
}

impl Enumerable for usize {
    type Enumerator = UsizeEnumerator;

    open spec fn all_values() -> Seq<usize> {
        Seq::new(usize::MAX as nat + 1, |k: int| k as usize)
    }

    fn enumerator() -> (e: UsizeEnumerator) {
        let e = UsizeEnumerator { at: 0, done: false };
        proof {
            assert(e.remaining() =~= Self::all_values());
        }
        e
    }

    /// There is one more `usize` value than `usize::MAX`, so the count is
    /// never representable.
    fn enumerable_size_option() -> (r: Option<usize>) {
        None
    }
}

/// The `k`-th Unicode scalar value in code point order: code points below
/// the surrogate range come first, then the rest, shifted past it.
pub open spec fn char_at_position(k: int) -> char {
    if k < 0xD800 {
        k as char
    } else {
        (k + 0x800) as char
    }
}

/// The number of Unicode scalar values: every code point from 0 through
/// 0x10FFFF except the 0x800 surrogates.
pub open spec fn char_value_count() -> int {
    0x10F800
}

/// Relies on `char::from_u32`: it returns `Some` exactly for the values
/// that are Unicode scalar values (at most 0x10FFFF and outside the
/// surrogate range 0xD800..=0xDFFF), and the char it returns is the one
/// with that code point.
pub assume_specification[ char::from_u32 ](i: u32) -> (r: Option<char>)
    ensures
        (i < 0xD800 || (0xE000 <= i && i <= 0x10FFFF)) <==> r is Some,
        match r {
            Some(c) => c == i as char && c as u32 == i,
            None => true,
        },
;

/// Enumerator for `char`: yields every Unicode scalar value in code point
/// order, skipping the surrogate range.  The counter holds the 0-based
/// position of the next value.
pub struct CharEnumerator {
    pub at: u32,
}

impl EnumerationState<char> for CharEnumerator {
    open spec fn wf(&self) -> bool {
        self.at <= char_value_count()
    }

    open spec fn remaining(&self) -> Seq<char> {
        Seq::new((char_value_count() - self.at) as nat, |k: int| char_at_position(self.at + k))
    }

    fn next(&mut self) -> (r: Option<char>) {
        if self.at >= 0x10F800 {
            None
        } else {
            let code = if self.at < 0xD800 {
                self.at
            } else {
                self.at + 0x800
            };
            let c = match char::from_u32(code) {
                Some(c) => c,
                None => {
                    proof {
                        assert(false);
                    }
                    unreached()
                },
            };
            let ghost rem_old = self.remaining();
            self.at = self.at + 1;
            proof {
                assert(c == rem_old[0]);
                assert(self.remaining() =~= rem_old.drop_first());
            }
            Some(c)
        }
    }
}

impl Enumerable for char {
    type Enumerator = CharEnumerator;

    open spec fn all_values() -> Seq<char> {
        Seq::new(char_value_count() as nat, |k: int| char_at_position(k))
    }

    fn enumerator() -> (e: CharEnumerator) {
        let e = CharEnumerator { at: 0 };
        proof {
            assert(e.remaining() =~= Self::all_values());
        }
        e
    }

    fn enumerable_size_option() -> (r: Option<usize>) {
        Some(0x10F800)
    }
}

/// Enumerator for `Option<T>`: yields `None` first, then `Some(item)` for
/// each value of `T`.
pub struct OptionEnumerator<T: Enumerable> {
    pub first: bool,
    pub inner: T::Enumerator,
}

impl<T: Enumerable> OptionEnumerator<T> {
    /// Creates a new `OptionEnumerator` that wraps a fresh enumerator of
    /// `T`.
    pub fn new() -> (e: Self)
        ensures
            e.wf(),
            e.remaining() == Option::<T>::all_values(),
    {
        OptionEnumerator { first: true, inner: T::enumerator() }
    }
}

impl<T: Enumerable> EnumerationState<Option<T>> for OptionEnumerator<T> {
    open spec fn wf(&self) -> bool {
        self.inner.wf()
    }

    open spec fn remaining(&self) -> Seq<Option<T>> {
        let tail = self.inner.remaining().map_values(|v: T| Some(v));
        if self.first {
            seq![None::<T>].add(tail)
        } else {
            tail
        }
    }

    fn next(&mut self) -> (r: Option<Option<T>>) {
        if self.first {
            self.first = false;
            proof {
                assert(old(self).remaining().drop_first() =~= self.remaining());
            }
            Some(None)
        } else {
            let ghost rem_old = self.inner.remaining();
            match self.inner.next() {
                Some(v) => {
                    proof {
                        let f = |v: T| Some(v);
                        assert(self.inner.remaining().map_values(f) =~= rem_old.map_values(
                            f,
                        ).drop_first());
                    }
                    Some(Some(v))
                },
                None => None,
            }
        }
    }
}

impl<T: Enumerable> Enumerable for Option<T> {
    type Enumerator = OptionEnumerator<T>;

    open spec fn all_values() -> Seq<Option<T>> {
        seq![None::<T>].add(T::all_values().map_values(|v: T| Some(v)))
    }

    fn enumerator() -> (e: OptionEnumerator<T>) {
        OptionEnumerator::new()
    }

    fn enumerable_size_option() -> (r: Option<usize>) {
        match T::enumerable_size_option() {
            Some(size) => size.checked_add(1),
            None => None,
        }
    }
}

/// Enumerator for `Result<T, E>`: yields `Ok(item)` for each value of `T`,
/// then `Err(error)` for each value of `E`.
pub struct ResultEnumerator<T: Enumerable, E: Enumerable> {
    pub oks: T::Enumerator,
    pub errs: E::Enumerator,
}

impl<T: Enumerable, E: Enumerable> EnumerationState<Result<T, E>> for ResultEnumerator<T, E> {
    open spec fn wf(&self) -> bool {
        self.oks.wf() && self.errs.wf()
    }

    open spec fn remaining(&self) -> Seq<Result<T, E>> {
        self.oks.remaining().map_values(|v: T| Ok(v)).add(
            self.errs.remaining().map_values(|e: E| Err(e)),
        )
    }

    fn next(&mut self) -> (r: Option<Result<T, E>>) {
        let ghost oks_old = self.oks.remaining();
        let ghost errs_old = self.errs.remaining();
        match self.oks.next() {
            Some(v) => {
                proof {
                    let f = |v: T| Ok::<T, E>(v);
                    let g = |e: E| Err::<T, E>(e);
                    assert(self.remaining() =~= old(self).remaining().drop_first());
                }
                Some(Ok(v))
            },
            None => {
                match self.errs.next() {
                    Some(e) => {
                        proof {
                            assert(old(self).remaining().len() > 0);
                            assert(old(self).remaining()[0] == Err::<T, E>(errs_old[0]));
                            assert(self.remaining() =~= old(self).remaining().drop_first());
                        }
                        Some(Err(e))
                    },
                    None => {
                        proof {
                            assert(self.remaining() =~= old(self).remaining());
                        }
                        None
                    },
                }
            },
        }
    }
}

impl<T: Enumerable, E: Enumerable> Enumerable for Result<T, E> {
    type Enumerator = ResultEnumerator<T, E>;

    open spec fn all_values() -> Seq<Result<T, E>> {
        T::all_values().map_values(|v: T| Ok(v)).add(E::all_values().map_values(|e: E| Err(e)))
    }

    fn enumerator() -> (e: ResultEnumerator<T, E>) {
        let oks = T::enumerator();
        let errs = E::enumerator();
        let e = ResultEnumerator { oks, errs };
        proof {
            assert(e.wf());
            assert(e.remaining() == Self::all_values());
        }
        e
    }

    fn enumerable_size_option() -> (r: Option<usize>) {
        let t = T::enumerable_size_option();
        let e = E::enumerable_size_option();
        proof {
            lemma_size_sum_is_size_of(t, e, T::all_values().len(), E::all_values().len());
        }
        size_sum(t, e)
    }
}

} // verus!
