//! Scenario tests for the stated properties of the enumeration strategy:
//! cardinality/enumeration agreement, idempotence, lexicographic order,
//! absorbing emptiness, the sum skip rule, cardinality composition and
//! overflow propagation.

use enumerable::{
    capital_letter, enumerate_all, enumerator_keyword, lowercase_letter, shape_size_option,
    size_product, size_sum, size_unwrap, EnumeratorKeyword, Shape, ShapeEnumerator, Value,
};

fn enum0() -> Shape {
    Shape::Sum(vec![])
}

fn bool_shape() -> Shape {
    Shape::Sum(vec![vec![], vec![]])
}

fn tag(i: usize) -> Value {
    Value::Variant(i, vec![])
}

/// A shape with 65536 values: a sum of that many field-free alternatives.
fn u16_like_shape() -> Shape {
    Shape::Sum((0..65536).map(|_| vec![]).collect())
}

#[test]
fn test_cardinality_enumeration_agreement() {
    // the enumerator produces exactly as many values as the cardinality
    // states, for a spread of shapes
    let shapes = vec![
        enum0(),
        bool_shape(),
        Shape::Product(vec![]),
        Shape::Product(vec![bool_shape(), bool_shape(), bool_shape()]),
        Shape::Sum(vec![vec![], vec![bool_shape()], vec![bool_shape(), bool_shape()]]),
        Shape::Product(vec![bool_shape(), enum0()]),
    ];
    for shape in &shapes {
        let count = enumerate_all(shape).len();
        assert_eq!(shape_size_option(shape), Some(count));
    }
}

#[test]
fn test_enumeration_still_terminates_when_unrepresentable() {
    // five 65536-valued fields: 65536^5 values, far beyond usize::MAX,
    // so the count is unrepresentable — but the enumerator still starts,
    // yields and could be drained finitely; we just stop early
    let shape = Shape::Product((0..5).map(|_| u16_like_shape()).collect());
    assert_eq!(shape_size_option(&shape), None);
    let mut e = ShapeEnumerator::new(&shape);
    let first = e.next().expect("a first value");
    assert_eq!(
        first,
        Value::Tuple((0..5).map(|_| tag(0)).collect::<Vec<_>>())
    );
    let second = e.next().expect("a second value");
    assert_eq!(
        second,
        Value::Tuple(vec![tag(0), tag(0), tag(0), tag(0), tag(1)])
    );
}

#[test]
fn test_idempotence() {
    // two independently started enumerations yield identical sequences
    let shape = Shape::Sum(vec![vec![], vec![bool_shape()], vec![bool_shape(), bool_shape()]]);
    assert_eq!(enumerate_all(&shape), enumerate_all(&shape));

    let mut e1 = ShapeEnumerator::new(&shape);
    let mut e2 = ShapeEnumerator::new(&shape);
    loop {
        let v1 = e1.next();
        let v2 = e2.next();
        assert_eq!(v1, v2);
        if v1.is_none() {
            break;
        }
    }
}

#[test]
fn test_lexicographic_order() {
    // the last field cycles fastest, the first slowest
    let shape = Shape::Product(vec![enumerable::Shape::Sum(vec![vec![], vec![], vec![]]), bool_shape()]);
    let expected = vec![
        Value::Tuple(vec![tag(0), tag(0)]),
        Value::Tuple(vec![tag(0), tag(1)]),
        Value::Tuple(vec![tag(1), tag(0)]),
        Value::Tuple(vec![tag(1), tag(1)]),
        Value::Tuple(vec![tag(2), tag(0)]),
        Value::Tuple(vec![tag(2), tag(1)]),
    ];
    assert_eq!(enumerate_all(&shape), expected);
}

#[test]
fn test_absorbing_emptiness() {
    // a product with an uninhabited field has no values and cardinality
    // zero, whatever the other fields contribute
    let shape = Shape::Product(vec![bool_shape(), enum0()]);
    assert_eq!(enumerate_all(&shape), Vec::<Value>::new());
    assert_eq!(shape_size_option(&shape), Some(0));

    // even when the other fields' count alone is unrepresentable
    let mut fields: Vec<Shape> = (0..5).map(|_| u16_like_shape()).collect();
    fields.push(enum0());
    let huge_but_empty = Shape::Product(fields);
    assert_eq!(shape_size_option(&huge_but_empty), Some(0));
    assert_eq!(enumerate_all(&huge_but_empty), Vec::<Value>::new());
}

#[test]
fn test_sum_order_and_skip() {
    // alternatives: one value, uninhabited, two values — the uninhabited
    // alternative leaves no gap and no placeholder
    let shape = Shape::Sum(vec![vec![], vec![enum0()], vec![bool_shape()]]);
    let expected = vec![
        tag(0),
        Value::Variant(2, vec![tag(0)]),
        Value::Variant(2, vec![tag(1)]),
    ];
    assert_shape(&shape, expected, 3);
}

#[test]
fn test_cardinality_composition() {
    // a two-variant sum: one uninhabited variant, one variant of two
    // two-valued fields: 0 + 2 * 2 = 4
    let shape = Shape::Sum(vec![vec![enum0()], vec![bool_shape(), bool_shape()]]);
    assert_eq!(shape_size_option(&shape), Some(4));
    assert_eq!(enumerate_all(&shape).len(), 4);

    // pairwise operations compose the same way
    assert_eq!(size_sum(Some(0), size_product(Some(2), Some(2))), Some(4));
}

#[test]
fn test_overflow_propagation() {
    assert_eq!(size_product(Some(usize::MAX), Some(2)), None);
    assert_eq!(size_sum(Some(usize::MAX), Some(1)), None);
    assert_eq!(size_sum(None, Some(1)), None);
    assert_eq!(size_product(None, Some(3)), None);
    // a definite zero absorbs even an unrepresentable operand
    assert_eq!(size_product(None, Some(0)), Some(0));
    assert_eq!(size_product(Some(0), None), Some(0));
    // a representable count is handed out exactly
    assert_eq!(size_unwrap(size_product(Some(3), Some(4))), 12);
}

#[test]
fn test_size_algebra_order_independent() {
    // neither the order nor the grouping of operands changes a reduced
    // cardinality, absorbing zero and overflow included
    let operands = [Some(0), Some(1), Some(2), Some(usize::MAX), None];
    for a in operands {
        for b in operands {
            assert_eq!(size_product(a, b), size_product(b, a));
            assert_eq!(size_sum(a, b), size_sum(b, a));
            for c in operands {
                assert_eq!(
                    size_product(size_product(a, b), c),
                    size_product(a, size_product(b, c))
                );
                assert_eq!(size_sum(size_sum(a, b), c), size_sum(a, size_sum(b, c)));
            }
        }
    }
}

#[test]
fn test_end_to_end_mixed_sum() {
    // alternatives Z (no fields), Y (one boolean field), X (two boolean
    // fields): Z, Y(false), Y(true), X(f,f), X(f,t), X(t,f), X(t,t)
    let shape = Shape::Sum(vec![vec![], vec![bool_shape()], vec![bool_shape(), bool_shape()]]);
    let expected = vec![
        tag(0),
        Value::Variant(1, vec![tag(0)]),
        Value::Variant(1, vec![tag(1)]),
        Value::Variant(2, vec![tag(0), tag(0)]),
        Value::Variant(2, vec![tag(0), tag(1)]),
        Value::Variant(2, vec![tag(1), tag(0)]),
        Value::Variant(2, vec![tag(1), tag(1)]),
    ];
    assert_shape(&shape, expected, 1 + 2 + 4);
}

#[test]
fn test_degenerate_shapes() {
    // uninhabited: no values, cardinality zero
    assert_eq!(enumerate_all(&enum0()), Vec::<Value>::new());
    assert_eq!(shape_size_option(&enum0()), Some(0));
    // a sum whose alternatives are all uninhabited is uninhabited too
    let all_empty = Shape::Sum(vec![vec![enum0()], vec![enum0()]]);
    assert_eq!(enumerate_all(&all_empty), Vec::<Value>::new());
    assert_eq!(shape_size_option(&all_empty), Some(0));
    // exactly one inhabitant: the empty product
    assert_eq!(
        enumerate_all(&Shape::Product(vec![])),
        vec![Value::Tuple(vec![])]
    );
    assert_eq!(shape_size_option(&Shape::Product(vec![])), Some(1));
}

#[test]
fn test_enumerator_keyword() {
    // products with fields get a struct-like machine, sums with fields an
    // enum-like one; degenerate shapes need none
    assert_eq!(
        enumerator_keyword(&Shape::Product(vec![bool_shape()])),
        Some(EnumeratorKeyword::Struct)
    );
    assert_eq!(
        enumerator_keyword(&Shape::Sum(vec![vec![], vec![bool_shape()]])),
        Some(EnumeratorKeyword::Enum)
    );
    assert_eq!(enumerator_keyword(&Shape::Product(vec![])), None);
    assert_eq!(enumerator_keyword(&bool_shape()), None);
    assert_eq!(enumerator_keyword(&enum0()), None);
}

#[test]
fn test_positional_letters() {
    assert_eq!(capital_letter(0), 'A');
    assert_eq!(capital_letter(25), 'Z');
    assert_eq!(lowercase_letter(0), 'a');
    assert_eq!(lowercase_letter(25), 'z');
}

/// Asserts values, order and cardinality of a shape in one go.
fn assert_shape(shape: &Shape, expected: Vec<Value>, size: usize) {
    assert_eq!(size_unwrap(shape_size_option(shape)), size);
    assert_eq!(enumerate_all(shape), expected);
    assert_eq!(expected.len(), size);
}
