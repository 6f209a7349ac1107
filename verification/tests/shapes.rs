//! Tests driving the shape interpreter over representative type shapes:
//! plain enums, unit structs, two-field structs, enums mixing field-free,
//! field-carrying and uninhabited alternatives, and a sixteen-field
//! product.

use enumerable::{enumerate_all, shape_size_option, size_unwrap, Shape, ShapeEnumerator, Value};

/// A sum with no alternatives: an uninhabited type.
fn enum0() -> Shape {
    Shape::Sum(vec![])
}

/// A sum of three field-free alternatives.
fn enum3() -> Shape {
    Shape::Sum(vec![vec![], vec![], vec![]])
}

/// A sum of four field-free alternatives.
fn enum4() -> Shape {
    Shape::Sum(vec![vec![], vec![], vec![], vec![]])
}

/// A field-free tag value.
fn tag(i: usize) -> Value {
    Value::Variant(i, vec![])
}

/// Asserts that the shape enumerates exactly `expected`, in order, and
/// that its cardinality matches.
fn assert_shape_eq(shape: &Shape, expected: Vec<Value>) {
    assert_eq!(size_unwrap(shape_size_option(shape)), expected.len());
    assert_eq!(enumerate_all(shape), expected);
}

#[test]
fn mod_test_enum_derive() {
    assert_shape_eq(&enum3(), vec![tag(0), tag(1), tag(2)]);
    assert_shape_eq(&enum4(), vec![tag(0), tag(1), tag(2), tag(3)]);
}

#[test]
fn test_test_enum_derive() {
    assert_shape_eq(&enum3(), vec![tag(0), tag(1), tag(2)]);
    assert_shape_eq(&enum4(), vec![tag(0), tag(1), tag(2), tag(3)]);
}

/// The shape of an enum with alternatives `NoField`, `UnnamedField(E3)`,
/// `NamedField { e3 }`, `MultipleUnnamedFields(E3, E4)`,
/// `MultipleNamedFields { e3, e4 }`, `EmptyBranch(E0)` and
/// `UnnamedFieldAfterEmpty { e3 }`.
fn complex_enum() -> Shape {
    Shape::Sum(vec![
        vec![],
        vec![enum3()],
        vec![enum3()],
        vec![enum3(), enum4()],
        vec![enum3(), enum4()],
        vec![enum0()],
        vec![enum3()],
    ])
}

/// Every value of the complex enum, in enumeration order, built the same
/// way the expectation for the derived enum is: alternative by
/// alternative, the uninhabited one contributing nothing.
fn complex_enum_expected() -> Vec<Value> {
    let mut expected = vec![tag(0)];
    for v in enumerate_all(&enum3()) {
        expected.push(Value::Variant(1, vec![v]));
    }
    for v in enumerate_all(&enum3()) {
        expected.push(Value::Variant(2, vec![v]));
    }
    for a in enumerate_all(&enum3()) {
        for b in enumerate_all(&enum4()) {
            expected.push(Value::Variant(3, vec![a.clone(), b]));
        }
    }
    for a in enumerate_all(&enum3()) {
        for b in enumerate_all(&enum4()) {
            expected.push(Value::Variant(4, vec![a.clone(), b]));
        }
    }
    for v in enumerate_all(&enum3()) {
        expected.push(Value::Variant(6, vec![v]));
    }
    expected
}

#[test]
fn mod_test_enum_derive_complex() {
    let shape = complex_enum();
    assert_shape_eq(&shape, complex_enum_expected());

    // Driving the enumerator by hand counts the same number of values.
    let mut e = ShapeEnumerator::new(&shape);
    let mut count = 0;
    while e.next().is_some() {
        count += 1;
    }
    assert_eq!(size_unwrap(shape_size_option(&shape)), count);
}

#[test]
fn test_test_enum_derive_complex() {
    let shape = complex_enum();
    assert_shape_eq(&shape, complex_enum_expected());
}

#[test]
fn mod_test_unit_struct() {
    // unit struct, unit struct with named fields, unit struct with
    // unnamed fields: all products of no fields
    assert_shape_eq(&Shape::Product(vec![]), vec![Value::Tuple(vec![])]);
    assert_shape_eq(&Shape::Product(vec![]), vec![Value::Tuple(vec![])]);
    assert_shape_eq(&Shape::Product(vec![]), vec![Value::Tuple(vec![])]);
}

#[test]
fn test_test_unit_struct() {
    assert_shape_eq(&Shape::Product(vec![]), vec![Value::Tuple(vec![])]);
    assert_shape_eq(&Shape::Product(vec![]), vec![Value::Tuple(vec![])]);
    assert_shape_eq(&Shape::Product(vec![]), vec![Value::Tuple(vec![])]);
}

/// Every tuple of a two-field product of `enum3` and `enum4`, in
/// lexicographic order with the second field fastest.
fn struct2_expected() -> Vec<Value> {
    let mut expected = Vec::new();
    for a in enumerate_all(&enum3()) {
        for b in enumerate_all(&enum4()) {
            expected.push(Value::Tuple(vec![a.clone(), b]));
        }
    }
    expected
}

#[test]
fn mod_test_structs() {
    // a struct with named fields and one with unnamed fields share the
    // same shape
    assert_shape_eq(&Shape::Product(vec![enum3(), enum4()]), struct2_expected());
    assert_shape_eq(&Shape::Product(vec![enum3(), enum4()]), struct2_expected());
}

#[test]
fn test_test_structs() {
    assert_shape_eq(&Shape::Product(vec![enum3(), enum4()]), struct2_expected());
    assert_shape_eq(&Shape::Product(vec![enum3(), enum4()]), struct2_expected());
}

#[test]
fn test_derive_unit_struct() {
    assert_eq!(
        enumerate_all(&Shape::Product(vec![])),
        vec![Value::Tuple(vec![])]
    );
}

#[test]
fn test_tuple16() {
    // a sixteen-field product of booleans, as a shape
    let bool_shape = || Shape::Sum(vec![vec![], vec![]]);
    let shape = Shape::Product((0..16).map(|_| bool_shape()).collect());

    let tuple16_to_u16 = |v: &Value| {
        let fields = match v {
            Value::Tuple(fields) => fields,
            _ => panic!("expected a tuple"),
        };
        assert_eq!(fields.len(), 16);
        let mut result = 0u16;
        for (pos, f) in fields.iter().enumerate() {
            match f {
                Value::Variant(1, _) => result |= 1 << (15 - pos),
                Value::Variant(0, _) => {}
                _ => panic!("expected a boolean tag"),
            }
        }
        result
    };

    let collected_as_u16: Vec<u16> = enumerate_all(&shape)
        .iter()
        .map(tuple16_to_u16)
        .collect();
    let expected: Vec<u16> = (u16::MIN..=u16::MAX).collect();
    assert_eq!(collected_as_u16, expected);
}
