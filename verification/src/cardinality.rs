//! The cardinality algebra: a count that is either exactly known or too large
//! to represent, closed under checked sum and checked product.
//!
//! A cardinality is an `Option<usize>`: `Some(n)` states that a type has
//! exactly `n` values, `None` that it has more than `usize::MAX` of them.
//! [`is_size_of`] is the link between such a value and the true count it
//! stands for; every operation here preserves that link.

use vstd::prelude::*;

use crate::shape::{
    Shape, Shp, shape_count, tuples_of, sum_values_from, shps_of, alt_shps_of, lemma_shps_of,
    lemma_alt_shps_of, lemma_tuples_of_len,
};

verus! {

/// `o` represents the exact count `n`: either it knows `n`, or `n` is too
/// large for a `usize` and `o` reports that by being `None`.
pub open spec fn is_size_of(o: Option<usize>, n: nat) -> bool {
    match o {
        Some(k) => k == n,
        None => n > usize::MAX,
    }
}

/// Checked product of two cardinalities.  A definite zero absorbs the other
/// operand, even an unrepresentable one; otherwise overflow and
/// unrepresentable operands propagate.
pub open spec fn spec_size_product(a: Option<usize>, b: Option<usize>) -> Option<usize> {
    match (a, b) {
        (Some(x), Some(y)) => {
            if x * y > usize::MAX {
                None
            } else {
                Some((x * y) as usize)
            }
        },
        (Some(0), _) => Some(0),
        (_, Some(0)) => Some(0),
        _ => None,
    }
}

/// Checked sum of two cardinalities.  Overflow and unrepresentable operands
/// propagate.
pub open spec fn spec_size_sum(a: Option<usize>, b: Option<usize>) -> Option<usize> {
    match (a, b) {
        (Some(x), Some(y)) => {
            if x + y > usize::MAX {
                None
            } else {
                Some((x + y) as usize)
            }
        },
        _ => None,
    }
}

/// Multiplies two cardinalities, detecting overflow and short-circuiting on a
/// definite zero.
pub fn size_product(a: Option<usize>, b: Option<usize>) -> (r: Option<usize>)
    ensures
        r == spec_size_product(a, b),
{
    match (a, b) {
        (Some(x), Some(y)) => x.checked_mul(y),
        (Some(0), _) => Some(0),
        (_, Some(0)) => Some(0),
        _ => None,
    }
}

/// Adds two cardinalities, detecting overflow.
pub fn size_sum(a: Option<usize>, b: Option<usize>) -> (r: Option<usize>)
    ensures
        r == spec_size_sum(a, b),
{
    match (a, b) {
        (Some(x), Some(y)) => x.checked_add(y),
        _ => None,
    }
}

/// The exact count behind a cardinality.  Asking for it when the count is
/// unrepresentable is a misuse of the caller, so that input is excluded.
pub fn size_unwrap(o: Option<usize>) -> (r: usize)
    requires
        o is Some,
    ensures
        o == Some(r),
{
    match o {
        Some(n) => n,
        None => unreached(),
    }
}

/// The product operation respects the counts its operands stand for: if `a`
/// counts `m` values and `b` counts `n`, the product counts `m * n`.
pub proof fn lemma_size_product_is_size_of(a: Option<usize>, b: Option<usize>, m: nat, n: nat)
    requires
        is_size_of(a, m),
        is_size_of(b, n),
    ensures
        is_size_of(spec_size_product(a, b), m * n),
{
    match (a, b) {
        (Some(x), Some(y)) => {
        },
        (Some(x), None) => {
            if x == 0 {
                assert(m * n == 0) by (nonlinear_arith)
                    requires
                        m == 0,
                ;
            } else {
                assert(m * n > usize::MAX) by (nonlinear_arith)
                    requires
                        m >= 1,
                        n > usize::MAX,
                ;
            }
        },
        (None, Some(y)) => {
            if y == 0 {
                assert(m * n == 0) by (nonlinear_arith)
                    requires
                        n == 0,
                ;
            } else {
                assert(m * n > usize::MAX) by (nonlinear_arith)
                    requires
                        n >= 1,
                        m > usize::MAX,
                ;
            }
        },
        (None, None) => {
            assert(m * n > usize::MAX) by (nonlinear_arith)
                requires
                    m > usize::MAX,
                    n > usize::MAX,
            ;
        },
    }
}

/// The sum operation respects the counts its operands stand for.
pub proof fn lemma_size_sum_is_size_of(a: Option<usize>, b: Option<usize>, m: nat, n: nat)
    requires
        is_size_of(a, m),
        is_size_of(b, n),
    ensures
        is_size_of(spec_size_sum(a, b), m + n),
{
}

/// Multiplying by a known count of one changes nothing: `Some(1)` is the unit
/// of the product, matching the product over an empty field list.
pub proof fn lemma_size_product_unit(a: Option<usize>)
    ensures
        spec_size_product(Some(1), a) == a,
        spec_size_product(a, Some(1)) == a,
{
}

/// The order of the operands does not change a product.
pub proof fn lemma_size_product_comm(a: Option<usize>, b: Option<usize>)
    ensures
        spec_size_product(a, b) == spec_size_product(b, a),
{
    match (a, b) {
        (Some(x), Some(y)) => {
            assert(x * y == y * x) by (nonlinear_arith);
        },
        _ => {
        },
    }
}

/// The grouping of the operands does not change a product: reducing a list of
/// cardinalities left to right gives the same result as any other grouping,
/// even with the absorbing zero and overflow rules in play.
pub proof fn lemma_size_product_assoc(a: Option<usize>, b: Option<usize>, c: Option<usize>)
    ensures
        spec_size_product(spec_size_product(a, b), c) == spec_size_product(
            a,
            spec_size_product(b, c),
        ),
{
    match (a, b, c) {
        (Some(x), Some(y), Some(z)) => {
            assert(x * y * z == x * (y * z)) by (nonlinear_arith);
            if x * y > usize::MAX {
                if z == 0 {
                } else {
                    assert(x * y * z > usize::MAX) by (nonlinear_arith)
                        requires
                            x * y > usize::MAX,
                            z >= 1,
                    ;
                    if y * z <= usize::MAX {
                        assert(x * (y * z) == x * y * z) by (nonlinear_arith);
                    }
                }
            } else {
                if y * z > usize::MAX {
                    if x == 0 {
                        assert(x * y == 0) by (nonlinear_arith)
                            requires
                                x == 0,
                        ;
                    } else {
                        assert(x * (y * z) > usize::MAX) by (nonlinear_arith)
                            requires
                                y * z > usize::MAX,
                                x >= 1,
                        ;
                    }
                }
            }
        },
        (Some(x), Some(y), None) => {
            if x == 0 || y == 0 {
                assert(x * y == 0) by (nonlinear_arith)
                    requires
                        x == 0 || y == 0,
                ;
            } else {
                assert(x * y >= 1) by (nonlinear_arith)
                    requires
                        x >= 1,
                        y >= 1,
                ;
            }
        },
        (Some(x), None, Some(z)) => {
        },
        (None, Some(y), Some(z)) => {
            if y == 0 || z == 0 {
                assert(y * z == 0) by (nonlinear_arith)
                    requires
                        y == 0 || z == 0,
                ;
            } else {
                assert(y * z >= 1) by (nonlinear_arith)
                    requires
                        y >= 1,
                        z >= 1,
                ;
            }
        },
        _ => {
        },
    }
}

/// The cardinality of a shape: the number of values it has, exactly when it
/// fits a `usize` and `None` when it does not.  A product multiplies its
/// fields' counts (one for no fields), a sum adds its alternatives' counts
/// (zero for no alternatives), both with the checked operations above — so
/// this count always agrees with the length of the value sequence that a
/// [`crate::machine::ShapeEnumerator`] walks.
pub fn shape_size_option(s: &Shape) -> (r: Option<usize>)
    ensures
        is_size_of(r, shape_count(s@)),
    decreases s, 0int,
{
    match s {
        Shape::Product(fields) => {
            let r = product_size_from(fields, 0);
            proof {
                assert(shps_of(fields@).skip(0) =~= shps_of(fields@));
            }
            r
        },
        Shape::Sum(alts) => sum_size_from(alts, 0),
    }
}

/// The checked product of the counts of fields `from..` of the list,
/// folded from the last field towards the first.
fn product_size_from(fields: &Vec<Shape>, from: usize) -> (r: Option<usize>)
    requires
        from <= fields@.len(),
    ensures
        is_size_of(r, tuples_of(shps_of(fields@).skip(from as int)).len()),
    decreases fields@, fields@.len() - from,
{
    proof {
        lemma_shps_of(fields@);
        assert(shps_of(fields@).skip(fields@.len() as int) =~= Seq::<Shp>::empty());
    }
    let mut i: usize = fields.len();
    let mut acc: Option<usize> = Some(1);
    while i > from
        invariant
            from <= i <= fields@.len(),
            is_size_of(acc, tuples_of(shps_of(fields@).skip(i as int)).len()),
            shps_of(fields@).len() == fields@.len(),
            forall|j: int| 0 <= j < fields@.len() ==> shps_of(fields@)[j] == #[trigger] fields@[j]@,
        decreases i,
    {
        i -= 1;
        let head = shape_size_option(&fields[i]);
        let ghost sk = shps_of(fields@).skip(i as int);
        proof {
            assert(sk[0] == shps_of(fields@)[i as int]);
            assert(sk.drop_first() =~= shps_of(fields@).skip(i as int + 1));
            lemma_tuples_of_len(sk);
            lemma_size_product_is_size_of(
                head,
                acc,
                shape_count(sk[0]),
                tuples_of(sk.drop_first()).len(),
            );
        }
        acc = size_product(head, acc);
    }
    acc
}

/// The checked sum of the counts of alternatives `from..` of the list,
/// each alternative contributing the product of its fields' counts, folded
/// from the last alternative towards the first.
fn sum_size_from(alts: &Vec<Vec<Shape>>, from: usize) -> (r: Option<usize>)
    requires
        from <= alts@.len(),
    ensures
        is_size_of(r, sum_values_from(alt_shps_of(alts@), from as int).len()),
    decreases alts@, alts@.len() - from,
{
    let ghost ashps = alt_shps_of(alts@);
    proof {
        lemma_alt_shps_of(alts@);
        assert(sum_values_from(ashps, alts@.len() as int) =~= Seq::<crate::shape::Val>::empty());
    }
    let mut i: usize = alts.len();
    let mut acc: Option<usize> = Some(0);
    while i > from
        invariant
            from <= i <= alts@.len(),
            is_size_of(acc, sum_values_from(ashps, i as int).len()),
            ashps == alt_shps_of(alts@),
            ashps.len() == alts@.len(),
            forall|j: int| 0 <= j < alts@.len() ==> ashps[j] == shps_of(#[trigger] alts@[j]@),
        decreases i,
    {
        i -= 1;
        let head = product_size_from(&alts[i], 0);
        proof {
            assert(shps_of(alts@[i as int]@).skip(0) =~= ashps[i as int]);
            lemma_size_sum_is_size_of(
                head,
                acc,
                tuples_of(ashps[i as int]).len(),
                sum_values_from(ashps, i as int + 1).len(),
            );
        }
        acc = size_sum(head, acc);
    }
    acc
}

/// The order of the operands does not change a sum.
pub proof fn lemma_size_sum_comm(a: Option<usize>, b: Option<usize>)
    ensures
        spec_size_sum(a, b) == spec_size_sum(b, a),
{
}

/// The grouping of the operands does not change a sum.
pub proof fn lemma_size_sum_assoc(a: Option<usize>, b: Option<usize>, c: Option<usize>)
    ensures
        spec_size_sum(spec_size_sum(a, b), c) == spec_size_sum(a, spec_size_sum(b, c)),
{
}

} // verus!
