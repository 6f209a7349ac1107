//! The `Enumerable` capability: a type that can hand out a fresh enumerator
//! over every one of its values, together with the matching cardinality.
//!
//! [`Enumerable`] is the contract the rest of the crate composes: each field
//! of a compound type is treated as an opaque, already-correct capability,
//! and the compound type's own enumerator drives the fields' enumerators
//! without ever looking inside them.  The contract demands exactly what the
//! composition relies on: enumeration is deterministic (a fresh enumerator
//! always holds `all_values()`, in that order) and the stated size agrees
//! with the number of values the enumerator yields.

use vstd::prelude::*;

use crate::cardinality::is_size_of;

verus! {

/// A stateful, single-owner enumerator over values of `T`.  It holds the
/// sequence of values it still has to yield and hands them out one at a
/// time, front first.
pub trait EnumerationState<T>: Sized {
    /// The enumerator's internal consistency.
    spec fn wf(&self) -> bool;

    /// The values still to be yielded, the next one first.
    spec fn remaining(&self) -> Seq<T>;

    /// Yields the next value, or reports exhaustion.  Every yield removes
    /// exactly the head of the remaining sequence; an exhausted enumerator
    /// stays exhausted.
    fn next(&mut self) -> (r: Option<T>)
        requires
            old(self).wf(),
        ensures
            final(self).wf(),
            match r {
                Some(v) => {
                    &&& old(self).remaining().len() > 0
                    &&& v == old(self).remaining()[0]
                    &&& final(self).remaining() == old(self).remaining().drop_first()
                },
                None => {
                    &&& old(self).remaining().len() == 0
                    &&& final(self).remaining() == old(self).remaining()
                },
            },
    ;
}

/// The values of `vs` from position `start` on; empty once `start` passes
/// the end.
pub open spec fn values_from<T>(vs: Seq<T>, start: int) -> Seq<T> {
    if start <= vs.len() {
        vs.skip(start)
    } else {
        Seq::empty()
    }
}

/// A type whose values can all be enumerated, in a fixed order, with a
/// known (or known-unrepresentable) count.
pub trait Enumerable: Sized {
    /// The enumerator this type hands out.
    type Enumerator: EnumerationState<Self>;

    /// Every value of the type, in the order the enumerator yields them.
    spec fn all_values() -> Seq<Self>;

    /// Starts a fresh enumeration.  The enumerator holds exactly
    /// `all_values()`, so independently started enumerations always yield
    /// the same values in the same order.
    fn enumerator() -> (e: Self::Enumerator)
        ensures
            e.wf(),
            e.remaining() == Self::all_values(),
    ;

    /// The number of values of the type, or `None` when it exceeds
    /// `usize::MAX`.
    fn enumerable_size_option() -> (r: Option<usize>)
        ensures
            is_size_of(r, Self::all_values().len()),
    ;

    /// The number of values of the type.  Asking for it when the count is
    /// unrepresentable is a misuse of the caller, so that case is excluded.
    fn enumerable_size() -> (r: usize)
        requires
            Self::all_values().len() <= usize::MAX,
        ensures
            r == Self::all_values().len(),
    {
        match Self::enumerable_size_option() {
            Some(n) => n,
            None => unreached(),
        }
    }

    /// An enumerator positioned at the `start`-th (0-based) value: the
    /// naive default starts fresh and discards `start` values.
    fn enumerator_since(start: usize) -> (e: Self::Enumerator)
        ensures
            e.wf(),
            e.remaining() == values_from(Self::all_values(), start as int),
    {
        let mut e = Self::enumerator();
        let mut i: usize = 0;
        while i < start
            invariant
                i <= start,
                e.wf(),
                e.remaining() == values_from(Self::all_values(), i as int),
            decreases start - i,
        {
            let ghost rem_old = e.remaining();
            let _ = e.next();
            proof {
                if rem_old.len() > 0 {
                    assert(rem_old.drop_first() =~= values_from(
                        Self::all_values(),
                        i as int + 1,
                    ));
                } else {
                    assert(e.remaining() =~= values_from(Self::all_values(), i as int + 1));
                }
            }
            i += 1;
        }
        e
    }

    /// The `index`-th (0-based) value of the type, or `None` when the type
    /// has at most `index` values.
    fn enumerable_from_index(index: usize) -> (r: Option<Self>)
        ensures
            match r {
                Some(v) => {
                    &&& (index as int) < Self::all_values().len()
                    &&& v == Self::all_values()[index as int]
                },
                None => Self::all_values().len() <= index as int,
            },
    {
        let mut e = Self::enumerator_since(index);
        e.next()
    }
}

} // verus!
