//! `Enumerable` instances for `()` and for short tuples.
//!
//! `()` has exactly one value.  A tuple is enumerated in lexicographic
//! order based on element position, the last element varying fastest — the
//! same odometer strategy the shape machinery uses, here written out for a
//! fixed number of elements: the two-element enumerator keeps one
//! sub-enumerator per element plus the next tuple to yield, advances the
//! second element first and, when it is exhausted, restarts it and advances
//! the first.

use vstd::prelude::*;

use crate::cardinality::{size_product, lemma_size_product_is_size_of};
use crate::enumerable::{Enumerable, EnumerationState};

verus! {

/// Enumerator for `()`: yields the unit value exactly once.
pub struct UnitEnumerator {
    pub done: bool,
}

impl EnumerationState<()> for UnitEnumerator {
    open spec fn wf(&self) -> bool {
        true
    }

    open spec fn remaining(&self) -> Seq<()> {
        if self.done {
            Seq::empty()
        } else {
            seq![()]
        }
    }

    fn next(&mut self) -> (r: Option<()>) {
        if self.done {
            None
        } else {
            self.done = true;
            proof {
                assert(seq![()].drop_first() =~= Seq::<()>::empty());
            }
            Some(())
        }
    }
}

impl Enumerable for () {
    type Enumerator = UnitEnumerator;

    open spec fn all_values() -> Seq<()> {
        seq![()]
    }

    fn enumerator() -> (e: UnitEnumerator) {
        let e = UnitEnumerator { done: false };
        proof {
            assert(e.wf());
            assert(e.remaining() == Self::all_values());
        }
        e
    }

    fn enumerable_size_option() -> (r: Option<usize>) {
        Some(1)
    }
}

/// Enumerator for `(A,)`: yields `(a,)` for each value of `A`.
pub struct Tuple1Enumerator<A: Enumerable> {
    pub a_enumerator: A::Enumerator,
}

impl<A: Enumerable> EnumerationState<(A,)> for Tuple1Enumerator<A> {
    open spec fn wf(&self) -> bool {
        self.a_enumerator.wf()
    }

    open spec fn remaining(&self) -> Seq<(A,)> {
        self.a_enumerator.remaining().map_values(|a: A| (a,))
    }

    fn next(&mut self) -> (r: Option<(A,)>) {
        let ghost rem_old = self.a_enumerator.remaining();
        match self.a_enumerator.next() {
            Some(a) => {
                proof {
                    let f = |a: A| (a,);
                    assert(self.a_enumerator.remaining().map_values(f) =~= rem_old.map_values(
                        f,
                    ).drop_first());
                }
                Some((a,))
            },
            None => None,
        }
    }
}

impl<A: Enumerable> Enumerable for (A,) {
    type Enumerator = Tuple1Enumerator<A>;

    open spec fn all_values() -> Seq<(A,)> {
        A::all_values().map_values(|a: A| (a,))
    }

    fn enumerator() -> (e: Tuple1Enumerator<A>) {
        let e = Tuple1Enumerator { a_enumerator: A::enumerator() };
        proof {
            assert(e.wf());
            assert(e.remaining() == Self::all_values());
        }
        e
    }

    fn enumerable_size_option() -> (r: Option<usize>) {
        A::enumerable_size_option()
    }
}

/// The cross product of two value sequences as pairs, in lexicographic
/// order: the first position is the slow, outer digit, the second cycles
/// fastest.
pub open spec fn pair_cross<A, B>(avs: Seq<A>, bvs: Seq<B>) -> Seq<(A, B)>
    decreases avs.len(),
{
    if avs.len() == 0 {
        Seq::empty()
    } else {
        bvs.map_values(|b: B| (avs[0], b)).add(pair_cross(avs.drop_first(), bvs))
    }
}

/// The pair cross product has one entry per combination.
pub proof fn lemma_pair_cross_len<A, B>(avs: Seq<A>, bvs: Seq<B>)
    ensures
        pair_cross(avs, bvs).len() == avs.len() * bvs.len(),
    decreases avs.len(),
{
    if avs.len() == 0 {
        assert(avs.len() * bvs.len() == 0) by (nonlinear_arith)
            requires
                avs.len() == 0,
        ;
    } else {
        lemma_pair_cross_len(avs.drop_first(), bvs);
        assert(bvs.len() + (avs.len() - 1) * bvs.len() == avs.len() * bvs.len())
            by (nonlinear_arith);
    }
}

/// Lexicographic order law for pairs: entry `i * |bvs| + j` of the cross
/// product pairs value `i` of the first position with value `j` of the
/// second, so the second position cycles fastest and the first slowest.
pub proof fn lemma_pair_cross_index<A, B>(avs: Seq<A>, bvs: Seq<B>, i: int, j: int)
    requires
        0 <= i < avs.len(),
        0 <= j < bvs.len(),
    ensures
        pair_cross(avs, bvs).len() == avs.len() * bvs.len(),
        pair_cross(avs, bvs)[i * bvs.len() + j] == (avs[i], bvs[j]),
    decreases i,
{
    lemma_pair_cross_len(avs, bvs);
    lemma_pair_cross_len(avs.drop_first(), bvs);
    assert(i * bvs.len() + j < avs.len() * bvs.len()) by (nonlinear_arith)
        requires
            0 <= i < avs.len(),
            0 <= j < bvs.len(),
    ;
    if i == 0 {
        assert(i * bvs.len() + j == j) by (nonlinear_arith)
            requires
                i == 0,
        ;
        assert(pair_cross(avs, bvs)[j] == bvs.map_values(|b: B| (avs[0], b))[j]);
    } else {
        lemma_pair_cross_index(avs.drop_first(), bvs, i - 1, j);
        assert((i - 1) * bvs.len() + j == i * bvs.len() + j - bvs.len()) by (nonlinear_arith);
        assert(pair_cross(avs, bvs)[i * bvs.len() + j] == pair_cross(avs.drop_first(), bvs)[(i - 1)
            * bvs.len() + j]);
        assert(avs.drop_first()[i - 1] == avs[i]);
    }
}

/// Enumerator for `(A, B)`: one sub-enumerator per element plus the next
/// pair to yield, advanced in odometer fashion.
pub struct Tuple2Enumerator<A: Enumerable, B: Enumerable> {
    pub enumerator_a: A::Enumerator,
    pub enumerator_b: B::Enumerator,
    pub next: Option<(A, B)>,
}

impl<A: Enumerable + Copy, B: Enumerable + Copy> EnumerationState<(A, B)> for Tuple2Enumerator<A, B> {
    open spec fn wf(&self) -> bool {
        match self.next {
            None => true,
            Some(_) => self.enumerator_a.wf() && self.enumerator_b.wf() && B::all_values().len()
                > 0,
        }
    }

    open spec fn remaining(&self) -> Seq<(A, B)> {
        match self.next {
            None => Seq::empty(),
            Some((a, b)) => seq![(a, b)].add(
                self.enumerator_b.remaining().map_values(|bv: B| (a, bv)),
            ).add(pair_cross(self.enumerator_a.remaining(), B::all_values())),
        }
    }

    fn next(&mut self) -> (r: Option<(A, B)>) {
        match &self.next {
            None => None,
            Some(p) => {
                let a = p.0;
                let b = p.1;
                let ghost rem_old = self.remaining();
                let ghost b_old = self.enumerator_b.remaining();
                let ghost a_old = self.enumerator_a.remaining();
                match self.enumerator_b.next() {
                    Some(b2) => {
                        self.next = Some((a, b2));
                        proof {
                            let fb = |bv: B| (a, bv);
                            assert(b_old.map_values(fb)[0] == (a, b2));
                            assert(self.enumerator_b.remaining().map_values(fb)
                                =~= b_old.map_values(fb).drop_first());
                            assert(self.remaining() =~= rem_old.drop_first());
                        }
                    },
                    None => {
                        match self.enumerator_a.next() {
                            Some(a2) => {
                                self.enumerator_b = B::enumerator();
                                let b0 = match self.enumerator_b.next() {
                                    Some(b0) => b0,
                                    None => {
                                        proof {
                                            assert(false);
                                        }
                                        unreached()
                                    },
                                };
                                self.next = Some((a2, b0));
                                proof {
                                    let fb = |bv: B| (a2, bv);
                                    assert(a_old[0] == a2);
                                    assert(pair_cross(a_old, B::all_values())
                                        == B::all_values().map_values(fb).add(
                                        pair_cross(a_old.drop_first(), B::all_values()),
                                    ));
                                    assert(B::all_values().map_values(fb)[0] == (a2, b0));
                                    assert(self.enumerator_b.remaining().map_values(fb)
                                        =~= B::all_values().map_values(fb).drop_first());
                                    assert(rem_old.drop_first() =~= pair_cross(
                                        a_old,
                                        B::all_values(),
                                    ));
                                    assert(self.remaining() =~= rem_old.drop_first());
                                }
                            },
                            None => {
                                self.next = None;
                                proof {
                                    assert(rem_old.len() == 1);
                                    assert(self.remaining() =~= rem_old.drop_first());
                                }
                            },
                        }
                    },
                }
                Some((a, b))
            },
        }
    }
}

impl<A: Enumerable + Copy, B: Enumerable + Copy> Enumerable for (A, B) {
    type Enumerator = Tuple2Enumerator<A, B>;

    open spec fn all_values() -> Seq<(A, B)> {
        pair_cross(A::all_values(), B::all_values())
    }

    fn enumerator() -> (e: Tuple2Enumerator<A, B>) {
        let mut ea = A::enumerator();
        match ea.next() {
            None => {
                let e = Tuple2Enumerator { enumerator_a: ea, enumerator_b: B::enumerator(), next: None };
                proof {
                    assert(e.remaining() == Self::all_values());
                }
                e
            },
            Some(a) => {
                let mut eb = B::enumerator();
                match eb.next() {
                    None => {
                        let e = Tuple2Enumerator { enumerator_a: ea, enumerator_b: eb, next: None };
                        proof {
                            lemma_pair_cross_len(A::all_values(), B::all_values());
                            assert(A::all_values().len() * B::all_values().len() == 0)
                                by (nonlinear_arith)
                                requires
                                    B::all_values().len() == 0,
                            ;
                            assert(e.remaining() =~= Self::all_values());
                        }
                        e
                    },
                    Some(b) => {
                        let e = Tuple2Enumerator { enumerator_a: ea, enumerator_b: eb, next: Some((a, b)) };
                        proof {
                            let fb = |bv: B| (a, bv);
                            assert(a == A::all_values()[0]);
                            assert(pair_cross(A::all_values(), B::all_values())
                                == B::all_values().map_values(fb).add(
                                pair_cross(A::all_values().drop_first(), B::all_values()),
                            ));
                            assert(B::all_values().map_values(fb)[0] == (a, b));
                            assert(e.enumerator_b.remaining().map_values(fb)
                                =~= B::all_values().map_values(fb).drop_first());
                            assert(e.remaining() =~= Self::all_values());
                        }
                        e
                    },
                }
            },
        }
    }

    fn enumerable_size_option() -> (r: Option<usize>) {
        let sa = A::enumerable_size_option();
        let sb = B::enumerable_size_option();
        proof {
            lemma_pair_cross_len(A::all_values(), B::all_values());
            lemma_size_product_is_size_of(sa, sb, A::all_values().len(), B::all_values().len());
        }
        size_product(sa, sb)
    }
}

} // verus!
