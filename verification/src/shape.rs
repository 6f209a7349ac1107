//! Shapes and their values.
//!
//! A [`Shape`] describes a finite type: a *product* of ordered fields, or a
//! *sum* of tagged alternatives, each alternative itself an ordered field
//! list.  A [`Value`] is one inhabitant of a shape: a tuple of field values,
//! or a tagged alternative holding its field values.
//!
//! The meaning of a shape is the sequence [`shape_values`] of all of its
//! values in enumeration order: alternatives in declaration order, and within
//! a field list the lexicographic (odometer) order in which the last field
//! varies fastest.  Everything else in the crate is specified against that
//! sequence.

use vstd::prelude::*;

verus! {

/// Description of a finite type: an ordered field list, or a list of
/// alternatives, each with its own ordered field list.
#[derive(Debug, PartialEq, Eq)]
pub enum Shape {
    /// A product type; each element is the shape of one field, in declaration
    /// order.
    Product(Vec<Shape>),
    /// A sum type; each element is the field list of one alternative, in
    /// declaration order.  The tag of an alternative is its position.
    Sum(Vec<Vec<Shape>>),
}

/// One inhabitant of a shape.
#[derive(Debug, PartialEq, Eq)]
pub enum Value {
    /// A value of a product shape: one value per field, in field order.
    Tuple(Vec<Value>),
    /// A value of a sum shape: the tag of the alternative it belongs to, and
    /// one value per field of that alternative.
    Variant(usize, Vec<Value>),
}

/// Mathematical model of a [`Shape`].
pub ghost enum Shp {
    Product(Seq<Shp>),
    Sum(Seq<Seq<Shp>>),
}

/// Mathematical model of a [`Value`].
pub ghost enum Val {
    Tuple(Seq<Val>),
    Variant(int, Seq<Val>),
}

/// The model of a shape.
pub open spec fn shp_of(s: Shape) -> Shp
    decreases s,
{
    match s {
        Shape::Product(fields) => Shp::Product(shps_of(fields@)),
        Shape::Sum(alts) => Shp::Sum(alt_shps_of(alts@)),
    }
}

/// The models of a list of field shapes.
pub open spec fn shps_of(ss: Seq<Shape>) -> Seq<Shp>
    decreases ss,
{
    if ss.len() == 0 {
        Seq::empty()
    } else {
        seq![shp_of(ss[0])].add(shps_of(ss.drop_first()))
    }
}

/// The models of a list of alternatives.
pub open spec fn alt_shps_of(alts: Seq<Vec<Shape>>) -> Seq<Seq<Shp>>
    decreases alts,
{
    if alts.len() == 0 {
        Seq::empty()
    } else {
        seq![shps_of(alts[0]@)].add(alt_shps_of(alts.drop_first()))
    }
}

impl View for Shape {
    type V = Shp;

    open spec fn view(&self) -> Shp {
        shp_of(*self)
    }
}

/// The model of a value.
pub open spec fn val_of(v: Value) -> Val
    decreases v,
{
    match v {
        Value::Tuple(vs) => Val::Tuple(vals_of(vs@)),
        Value::Variant(tag, vs) => Val::Variant(tag as int, vals_of(vs@)),
    }
}

/// The models of a list of values.
pub open spec fn vals_of(vs: Seq<Value>) -> Seq<Val>
    decreases vs,
{
    if vs.len() == 0 {
        Seq::empty()
    } else {
        seq![val_of(vs[0])].add(vals_of(vs.drop_first()))
    }
}

impl View for Value {
    type V = Val;

    open spec fn view(&self) -> Val {
        val_of(*self)
    }
}

/// `shps_of` is the element-wise model of the list.
pub proof fn lemma_shps_of(ss: Seq<Shape>)
    ensures
        shps_of(ss).len() == ss.len(),
        forall|i: int| 0 <= i < ss.len() ==> shps_of(ss)[i] == #[trigger] ss[i]@,
    decreases ss,
{
    if ss.len() > 0 {
        lemma_shps_of(ss.drop_first());
        assert forall|i: int| 0 <= i < ss.len() implies shps_of(ss)[i] == #[trigger] ss[i]@ by {
            if i > 0 {
                assert(ss.drop_first()[i - 1] == ss[i]);
                assert(shps_of(ss)[i] == shps_of(ss.drop_first())[i - 1]);
            }
        }
    }
}

/// `alt_shps_of` is the element-wise model of the list of alternatives.
pub proof fn lemma_alt_shps_of(alts: Seq<Vec<Shape>>)
    ensures
        alt_shps_of(alts).len() == alts.len(),
        forall|i: int| 0 <= i < alts.len() ==> alt_shps_of(alts)[i] == shps_of(
            #[trigger] alts[i]@,
        ),
    decreases alts,
{
    if alts.len() > 0 {
        lemma_alt_shps_of(alts.drop_first());
        assert forall|i: int| 0 <= i < alts.len() implies alt_shps_of(alts)[i] == shps_of(
            #[trigger] alts[i]@,
        ) by {
            if i > 0 {
                assert(alts.drop_first()[i - 1] == alts[i]);
                assert(alt_shps_of(alts)[i] == alt_shps_of(alts.drop_first())[i - 1]);
            }
        }
    }
}

/// `vals_of` is the element-wise model of the list.
pub proof fn lemma_vals_of(vs: Seq<Value>)
    ensures
        vals_of(vs).len() == vs.len(),
        forall|i: int| 0 <= i < vs.len() ==> vals_of(vs)[i] == #[trigger] vs[i]@,
    decreases vs,
{
    if vs.len() > 0 {
        lemma_vals_of(vs.drop_first());
        assert forall|i: int| 0 <= i < vs.len() implies vals_of(vs)[i] == #[trigger] vs[i]@ by {
            if i > 0 {
                assert(vs.drop_first()[i - 1] == vs[i]);
                assert(vals_of(vs)[i] == vals_of(vs.drop_first())[i - 1]);
            }
        }
    }
}

impl Clone for Shape {
    /// A clone of a shape has the same model.
    fn clone(&self) -> (r: Self)
        ensures
            r@ == self@,
        decreases self,
    {
        match self {
            Shape::Product(fields) => Shape::Product(clone_field_shapes(fields)),
            Shape::Sum(alts) => Shape::Sum(clone_alternatives(alts)),
        }
    }
}

/// Clones a list of field shapes, preserving each field's model.
fn clone_field_shapes(fields: &Vec<Shape>) -> (r: Vec<Shape>)
    ensures
        r@.len() == fields@.len(),
        forall|i: int| 0 <= i < fields@.len() ==> #[trigger] r@[i]@ == fields@[i]@,
        shps_of(r@) == shps_of(fields@),
    decreases fields@,
{
    let mut out: Vec<Shape> = Vec::new();
    let mut i: usize = 0;
    while i < fields.len()
        invariant
            i <= fields@.len(),
            out@.len() == i,
            forall|j: int| 0 <= j < i ==> #[trigger] out@[j]@ == fields@[j]@,
        decreases fields@.len() - i,
    {
        let c = fields[i].clone();
        out.push(c);
        i += 1;
    }
    proof {
        lemma_shps_of(out@);
        lemma_shps_of(fields@);
        assert forall|j: int| 0 <= j < out@.len() implies shps_of(out@)[j] == shps_of(fields@)[j] by {
            assert(out@[j]@ == fields@[j]@);
        }
        assert(shps_of(out@) =~= shps_of(fields@));
    }
    out
}

/// Clones a list of alternatives, preserving each alternative's model.
fn clone_alternatives(alts: &Vec<Vec<Shape>>) -> (r: Vec<Vec<Shape>>)
    ensures
        r@.len() == alts@.len(),
        forall|i: int|
            0 <= i < alts@.len() ==> shps_of(#[trigger] r@[i]@) == shps_of(alts@[i]@),
        alt_shps_of(r@) == alt_shps_of(alts@),
    decreases alts@,
{
    let mut out: Vec<Vec<Shape>> = Vec::new();
    let mut i: usize = 0;
    while i < alts.len()
        invariant
            i <= alts@.len(),
            out@.len() == i,
            forall|j: int| 0 <= j < i ==> shps_of(#[trigger] out@[j]@) == shps_of(alts@[j]@),
        decreases alts@.len() - i,
    {
        let c = clone_field_shapes(&alts[i]);
        out.push(c);
        i += 1;
    }
    proof {
        lemma_alt_shps_of(out@);
        lemma_alt_shps_of(alts@);
        assert forall|j: int| 0 <= j < out@.len() implies alt_shps_of(out@)[j] == alt_shps_of(
            alts@,
        )[j] by {
            assert(shps_of(out@[j]@) == shps_of(alts@[j]@));
        }
        assert(alt_shps_of(out@) =~= alt_shps_of(alts@));
    }
    out
}

impl Clone for Value {
    /// A clone of a value has the same model.
    fn clone(&self) -> (r: Self)
        ensures
            r@ == self@,
        decreases self,
    {
        match self {
            Value::Tuple(vs) => Value::Tuple(clone_values(vs)),
            Value::Variant(tag, vs) => Value::Variant(*tag, clone_values(vs)),
        }
    }
}

/// Clones a list of values, preserving each value's model.
fn clone_values(vs: &Vec<Value>) -> (r: Vec<Value>)
    ensures
        r@.len() == vs@.len(),
        forall|i: int| 0 <= i < vs@.len() ==> #[trigger] r@[i]@ == vs@[i]@,
        vals_of(r@) == vals_of(vs@),
    decreases vs@,
{
    let mut out: Vec<Value> = Vec::new();
    let mut i: usize = 0;
    while i < vs.len()
        invariant
            i <= vs@.len(),
            out@.len() == i,
            forall|j: int| 0 <= j < i ==> #[trigger] out@[j]@ == vs@[j]@,
        decreases vs@.len() - i,
    {
        let c = vs[i].clone();
        out.push(c);
        i += 1;
    }
    proof {
        lemma_vals_of(out@);
        lemma_vals_of(vs@);
        assert forall|j: int| 0 <= j < out@.len() implies vals_of(out@)[j] == vals_of(vs@)[j] by {
            assert(out@[j]@ == vs@[j]@);
        }
        assert(vals_of(out@) =~= vals_of(vs@));
    }
    out
}

/// `[v] + t` for every `t` in `ts`, keeping the order of `ts`.
pub open spec fn prepend_to_each(v: Val, ts: Seq<Seq<Val>>) -> Seq<Seq<Val>> {
    ts.map_values(|t: Seq<Val>| seq![v].add(t))
}

/// For every `v` in `vs` in order, `[v] + t` for every `t` in `ts` in order:
/// the cross product in which `vs` is the slow, outer position.
pub open spec fn cross_prepend(vs: Seq<Val>, ts: Seq<Seq<Val>>) -> Seq<Seq<Val>>
    decreases vs.len(),
{
    if vs.len() == 0 {
        Seq::empty()
    } else {
        prepend_to_each(vs[0], ts).add(cross_prepend(vs.drop_first(), ts))
    }
}

/// Every tuple of values of the given field list, in lexicographic order with
/// the last field varying fastest.  An empty field list has exactly one
/// tuple: the empty one.
pub open spec fn tuples_of(fields: Seq<Shp>) -> Seq<Seq<Val>>
    decreases fields, 0int,
{
    if fields.len() == 0 {
        seq![Seq::<Val>::empty()]
    } else {
        cross_prepend(shape_values(fields[0]), tuples_of(fields.drop_first()))
    }
}

/// Every value of alternatives `from..` of a sum shape, tagged with the
/// position of the alternative it belongs to, in declaration order.
pub open spec fn sum_values_from(alts: Seq<Seq<Shp>>, from: int) -> Seq<Val>
    decreases alts, alts.len() - from, 0int,
{
    if from < 0 || from >= alts.len() {
        Seq::empty()
    } else {
        tuples_of(alts[from]).map_values(|t: Seq<Val>| Val::Variant(from, t)).add(
            sum_values_from(alts, from + 1),
        )
    }
}

/// Every value of the shape, in enumeration order.  This sequence is the
/// meaning of a shape: an enumerator must yield exactly these values in
/// exactly this order, and the shape's cardinality is its length.
pub open spec fn shape_values(s: Shp) -> Seq<Val>
    decreases s, 1int,
{
    match s {
        Shp::Product(fields) => tuples_of(fields).map_values(|t: Seq<Val>| Val::Tuple(t)),
        Shp::Sum(alts) => sum_values_from(alts, 0),
    }
}

/// The number of values of the shape.
pub open spec fn shape_count(s: Shp) -> nat {
    shape_values(s).len()
}

/// The field list of a product shape.
pub open spec fn prod_fields(s: Shp) -> Seq<Shp> {
    match s {
        Shp::Product(fields) => fields,
        Shp::Sum(_) => Seq::empty(),
    }
}

/// The alternatives of a sum shape.
pub open spec fn sum_alternatives(s: Shp) -> Seq<Seq<Shp>> {
    match s {
        Shp::Sum(alts) => alts,
        Shp::Product(_) => Seq::empty(),
    }
}

/// Every alternative of the list has an empty field list.
pub open spec fn all_alts_field_free(alts: Seq<Seq<Shp>>) -> bool {
    forall|i: int| 0 <= i < alts.len() ==> #[trigger] alts[i].len() == 0
}

/// Dropping the first element of a concatenation whose left part is
/// nonempty.
pub proof fn lemma_add_drop_first<A>(a: Seq<A>, b: Seq<A>)
    requires
        a.len() > 0,
    ensures
        a.add(b).drop_first() == a.drop_first().add(b),
{
    assert(a.add(b).drop_first() =~= a.drop_first().add(b));
}

/// Prepending one value commutes with dropping the first tuple.
pub proof fn lemma_prepend_to_each_drop_first(v: Val, ts: Seq<Seq<Val>>)
    requires
        ts.len() > 0,
    ensures
        prepend_to_each(v, ts).drop_first() == prepend_to_each(v, ts.drop_first()),
{
    assert(prepend_to_each(v, ts).drop_first() =~= prepend_to_each(v, ts.drop_first()));
}

/// The cross product of `vs` values and `ts` tuples has `|vs| * |ts|`
/// entries.
pub proof fn lemma_cross_prepend_len(vs: Seq<Val>, ts: Seq<Seq<Val>>)
    ensures
        cross_prepend(vs, ts).len() == vs.len() * ts.len(),
    decreases vs.len(),
{
    if vs.len() == 0 {
        assert(vs.len() * ts.len() == 0) by (nonlinear_arith)
            requires
                vs.len() == 0,
        ;
    } else {
        lemma_cross_prepend_len(vs.drop_first(), ts);
        assert(ts.len() + (vs.len() - 1) * ts.len() == vs.len() * ts.len()) by (nonlinear_arith);
    }
}

/// Entry `i * |ts| + j` of the cross product pairs value `i` with tuple `j`:
/// the `vs` position is the slow, outer digit.
pub proof fn lemma_cross_prepend_index(vs: Seq<Val>, ts: Seq<Seq<Val>>, i: int, j: int)
    requires
        0 <= i < vs.len(),
        0 <= j < ts.len(),
    ensures
        cross_prepend(vs, ts).len() == vs.len() * ts.len(),
        cross_prepend(vs, ts)[i * ts.len() + j] == seq![vs[i]].add(ts[j]),
    decreases i,
{
    lemma_cross_prepend_len(vs, ts);
    lemma_cross_prepend_len(vs.drop_first(), ts);
    assert(i * ts.len() + j < vs.len() * ts.len()) by (nonlinear_arith)
        requires
            0 <= i < vs.len(),
            0 <= j < ts.len(),
    ;
    if i == 0 {
        assert(i * ts.len() + j == j) by (nonlinear_arith)
            requires
                i == 0,
        ;
        assert(cross_prepend(vs, ts)[j] == prepend_to_each(vs[0], ts)[j]);
    } else {
        lemma_cross_prepend_index(vs.drop_first(), ts, i - 1, j);
        assert((i - 1) * ts.len() + j == i * ts.len() + j - ts.len()) by (nonlinear_arith);
        assert(cross_prepend(vs, ts)[i * ts.len() + j] == cross_prepend(vs.drop_first(), ts)[(i
            - 1) * ts.len() + j]);
        assert(vs.drop_first()[i - 1] == vs[i]);
    }
}

/// The tuple count of a nonempty field list is the value count of the first
/// field times the tuple count of the remaining fields.  Together with
/// `tuples_of(empty) == [[]]`, the tuple count is the product of the fields'
/// value counts.
pub proof fn lemma_tuples_of_len(fields: Seq<Shp>)
    requires
        fields.len() > 0,
    ensures
        tuples_of(fields).len() == shape_values(fields[0]).len() * tuples_of(
            fields.drop_first(),
        ).len(),
{
    lemma_cross_prepend_len(shape_values(fields[0]), tuples_of(fields.drop_first()));
}

/// Absorbing emptiness: a field list with an uninhabited field anywhere has
/// no tuples at all, whatever the other fields contribute.
pub proof fn lemma_uninhabited_field_absorbs(fields: Seq<Shp>, i: int)
    requires
        0 <= i < fields.len(),
        shape_values(fields[i]).len() == 0,
    ensures
        tuples_of(fields).len() == 0,
    decreases fields.len(),
{
    lemma_tuples_of_len(fields);
    if i == 0 {
        assert(shape_values(fields[0]).len() * tuples_of(fields.drop_first()).len() == 0)
            by (nonlinear_arith)
            requires
                shape_values(fields[0]).len() == 0,
        ;
    } else {
        assert(fields.drop_first()[i - 1] == fields[i]);
        lemma_uninhabited_field_absorbs(fields.drop_first(), i - 1);
        assert(shape_values(fields[0]).len() * tuples_of(fields.drop_first()).len() == 0)
            by (nonlinear_arith)
            requires
                tuples_of(fields.drop_first()).len() == 0,
        ;
    }
}

/// Lexicographic order law: in the tuple sequence of a nonempty field list,
/// entry `k` pairs value `k / w` of the first field with tuple `k % w` of
/// the remaining fields, where `w` is the tuple count of the remaining
/// fields.  The first field is thus the slowest digit of the odometer and,
/// applying the law again to the remaining fields, the last field the
/// fastest.
pub proof fn lemma_tuples_lex_order(fields: Seq<Shp>, k: int)
    requires
        fields.len() > 0,
        0 <= k < tuples_of(fields).len(),
    ensures
        ({
            let w = tuples_of(fields.drop_first()).len() as int;
            &&& w > 0
            &&& 0 <= k / w < shape_values(fields[0]).len()
            &&& 0 <= k % w < w
            &&& tuples_of(fields)[k] == seq![shape_values(fields[0])[k / w]].add(
                tuples_of(fields.drop_first())[k % w],
            )
        }),
{
    let vs = shape_values(fields[0]);
    let ts = tuples_of(fields.drop_first());
    let w = ts.len() as int;
    lemma_tuples_of_len(fields);
    assert(w > 0) by (nonlinear_arith)
        requires
            vs.len() * w > k >= 0,
    ;
    vstd::arithmetic::div_mod::lemma_fundamental_div_mod(k, w);
    vstd::arithmetic::div_mod::lemma_mod_bound(k, w);
    assert(k / w >= 0) by (nonlinear_arith)
        requires
            k == w * (k / w) + k % w,
            0 <= k % w < w,
            k >= 0,
            w > 0,
    ;
    assert(k / w < vs.len()) by (nonlinear_arith)
        requires
            k < vs.len() * w,
            k == w * (k / w) + k % w,
            0 <= k % w < w,
            0 <= k / w,
    ;
    lemma_cross_prepend_index(vs, ts, k / w, k % w);
    assert((k / w) * w + k % w == k) by (nonlinear_arith)
        requires
            k == w * (k / w) + k % w,
    ;
}

/// Sum skip law: an alternative with no values contributes nothing to the
/// value sequence of a sum; enumeration passes from the alternative before
/// it straight to the one after it, with no gap.
pub proof fn lemma_sum_skips_uninhabited(alts: Seq<Seq<Shp>>, j: int)
    requires
        0 <= j < alts.len(),
        tuples_of(alts[j]).len() == 0,
    ensures
        sum_values_from(alts, j) == sum_values_from(alts, j + 1),
{
    assert(sum_values_from(alts, j) =~= sum_values_from(alts, j + 1));
}

/// In a sum in which no alternative has fields, the values from alternative
/// `from` on are exactly the tags `from, from + 1, ...`, each with an empty
/// field tuple: positional indexing enumerates such a sum directly.
pub proof fn lemma_field_free_sum_values(alts: Seq<Seq<Shp>>, from: int)
    requires
        all_alts_field_free(alts),
        0 <= from <= alts.len(),
    ensures
        sum_values_from(alts, from) == Seq::new(
            (alts.len() - from) as nat,
            |k: int| Val::Variant(from + k, Seq::empty()),
        ),
    decreases alts.len() - from,
{
    if from < alts.len() {
        assert(alts[from].len() == 0);
        lemma_field_free_sum_values(alts, from + 1);
        let head = tuples_of(alts[from]).map_values(|t: Seq<Val>| Val::Variant(from, t));
        let target = Seq::new(
            (alts.len() - from) as nat,
            |k: int| Val::Variant(from + k, Seq::empty()),
        );
        assert(tuples_of(alts[from]) == seq![Seq::<Val>::empty()]);
        assert(head.len() == 1);
        assert(head[0] == Val::Variant(from, Seq::<Val>::empty()));
        assert forall|k: int| 0 <= k < target.len() implies sum_values_from(alts, from)[k]
            == target[k] by {
            if k > 0 {
                assert(sum_values_from(alts, from)[k] == sum_values_from(alts, from + 1)[k - 1]);
                assert(sum_values_from(alts, from + 1)[k - 1] == Val::Variant(
                    from + 1 + (k - 1),
                    Seq::empty(),
                ));
            }
        }
        assert(sum_values_from(alts, from) =~= target);
    } else {
        assert(sum_values_from(alts, from) =~= Seq::new(
            (alts.len() - from) as nat,
            |k: int| Val::Variant(from + k, Seq::empty()),
        ));
    }
}

} // verus!
