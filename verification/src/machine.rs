//! The enumeration state machine.
//!
//! A [`ShapeEnumerator`] walks every value of a [`Shape`] exactly once, in
//! the order given by [`shape_values`].  It is built once per enumeration and
//! driven by [`ShapeEnumerator::next`]; restarting means building a fresh
//! machine, which always yields the same sequence again.
//!
//! The machine mirrors the shape.  For a product (and for the field list of
//! one sum alternative) it holds one sub-enumerator per field and advances
//! them in odometer fashion: the last field's enumerator is advanced first,
//! and only when a field is exhausted is it restarted and the field before it
//! advanced.  For a sum it holds the field machine of the current
//! alternative and moves through alternatives in declaration order, skipping
//! in one step every alternative that has no values.  A sum in which no
//! alternative has fields needs no field machines at all; it is enumerated by
//! direct positional indexing.  The machine always keeps its next value
//! ready: it is read off the current state, and advancing is a separate,
//! total transition.

use vstd::prelude::*;

use crate::shape::{
    Shape, Value, Shp, Val, shape_values, shape_count, tuples_of, sum_values_from, cross_prepend,
    prepend_to_each, all_alts_field_free, shps_of, alt_shps_of, vals_of, lemma_shps_of,
    lemma_alt_shps_of, lemma_vals_of, lemma_add_drop_first, lemma_prepend_to_each_drop_first,
    lemma_sum_skips_uninhabited, lemma_field_free_sum_values,
    lemma_uninhabited_field_absorbs, lemma_tuples_of_len, prod_fields, sum_alternatives,
};

verus! {

/// The odometer state for the (remaining) fields of one field list: one
/// sub-enumerator per field, the first field at the head.  Each
/// sub-enumerator still holds the current value of its field as the head of
/// its own remaining sequence.
pub(crate) enum FieldsState {
    /// No fields (the tail of the list).
    Nil,
    /// The machine of the first field, and the state of the fields after it.
    Cons { sub: Box<ShapeEnumerator>, rest: Box<FieldsState> },
}

/// The state of a shape enumerator.
pub(crate) enum MachineState {
    /// Product: the odometer over the fields while values are left, `None`
    /// once exhausted (or when the product is uninhabited).
    Product(Option<FieldsState>),
    /// Sum with at least one field somewhere: the tag of the current
    /// alternative and the odometer over its fields, `None` once exhausted
    /// (or when every alternative is uninhabited).
    Sum(Option<(usize, FieldsState)>),
    /// Sum in which no alternative has fields: the tag to yield next.
    /// Positional indexing replaces the whole field machinery.
    Direct(usize),
}

/// An enumerator over every value of one shape.  Create one with
/// [`ShapeEnumerator::new`] and drain it with [`ShapeEnumerator::next`].
pub struct ShapeEnumerator {
    shape: Shape,
    state: MachineState,
}

/// The shapes of the fields a `FieldsState` enumerates, in order.
pub(crate) open spec fn fields_shapes(st: FieldsState) -> Seq<Shp>
    decreases st,
{
    match st {
        FieldsState::Nil => Seq::empty(),
        FieldsState::Cons { sub, rest } => seq![(*sub).shp()].add(fields_shapes(*rest)),
    }
}

/// Well-formedness of a live field-list state: every sub-enumerator is
/// well-formed, still has a current value, and enumerates an inhabited
/// shape (so it can be restarted and immediately yield again).
pub(crate) open spec fn fields_wf(st: FieldsState) -> bool
    decreases st, 0int,
{
    match st {
        FieldsState::Nil => true,
        FieldsState::Cons { sub, rest } => {
            &&& (*sub).wf()
            &&& (*sub).remaining().len() > 0
            &&& shape_count((*sub).shp()) > 0
            &&& fields_wf(*rest)
        },
    }
}

/// What an exhausted field-list state still guarantees: each field's shape
/// is inhabited, so a fresh machine for it will have a first value.
pub(crate) open spec fn fields_restartable(st: FieldsState) -> bool
    decreases st,
{
    match st {
        FieldsState::Nil => true,
        FieldsState::Cons { sub, rest } => {
            &&& shape_count((*sub).shp()) > 0
            &&& fields_restartable(*rest)
        },
    }
}

/// The tuples a field-list state still has to yield, current tuple first.
/// The head of each sub-enumerator's remaining sequence is the current value
/// of its field: first come the tuples that keep the first field's current
/// value while the later fields run through their remaining combinations,
/// then, for each later value of the first field, the full cross product of
/// the later fields.
pub(crate) open spec fn fields_remaining(st: FieldsState) -> Seq<Seq<Val>>
    decreases st, 0int,
{
    match st {
        FieldsState::Nil => seq![Seq::<Val>::empty()],
        FieldsState::Cons { sub, rest } => prepend_to_each(
            (*sub).remaining()[0],
            fields_remaining(*rest),
        ).add(
            cross_prepend((*sub).remaining().drop_first(), tuples_of(fields_shapes(*rest))),
        ),
    }
}

/// A live field-list state always has at least its current tuple left.
pub(crate) proof fn lemma_fields_remaining_nonempty(st: FieldsState)
    requires
        fields_wf(st),
    ensures
        fields_remaining(st).len() > 0,
    decreases st,
{
    match st {
        FieldsState::Nil => {
        },
        FieldsState::Cons { sub, rest } => {
            lemma_fields_remaining_nonempty(*rest);
        },
    }
}

/// A live field-list state can be restarted.
pub(crate) proof fn lemma_fields_wf_restartable(st: FieldsState)
    requires
        fields_wf(st),
    ensures
        fields_restartable(st),
    decreases st,
{
    match st {
        FieldsState::Nil => {
        },
        FieldsState::Cons { sub, rest } => {
            lemma_fields_wf_restartable(*rest);
        },
    }
}

impl ShapeEnumerator {
    /// The model of the shape this machine enumerates.
    pub closed spec fn shp(&self) -> Shp {
        self.shape@
    }

    /// Well-formedness: the state fits the shape.
    pub closed spec fn wf(&self) -> bool
        decreases self, 1int,
    {
        match self.state {
            MachineState::Product(opt) => {
                &&& self.shape@ is Product
                &&& match opt {
                    None => true,
                    Some(st) => fields_wf(st) && fields_shapes(st) == prod_fields(self.shape@),
                }
            },
            MachineState::Sum(opt) => {
                &&& self.shape@ is Sum
                &&& match opt {
                    None => true,
                    Some((i, st)) => {
                        &&& (i as int) < sum_alternatives(self.shape@).len()
                        &&& fields_wf(st)
                        &&& fields_shapes(st) == sum_alternatives(self.shape@)[i as int]
                    },
                }
            },
            MachineState::Direct(at) => {
                &&& self.shape@ is Sum
                &&& all_alts_field_free(sum_alternatives(self.shape@))
                &&& at as int <= sum_alternatives(self.shape@).len()
            },
        }
    }

    /// The values the machine still has to yield, next value first.  A
    /// freshly built machine has all of [`shape_values`] left; every yield
    /// removes exactly the head.
    pub closed spec fn remaining(&self) -> Seq<Val>
        decreases self, 1int,
    {
        match self.state {
            MachineState::Product(opt) => match opt {
                None => Seq::empty(),
                Some(st) => fields_remaining(st).map_values(|t: Seq<Val>| Val::Tuple(t)),
            },
            MachineState::Sum(opt) => match opt {
                None => Seq::empty(),
                Some((i, st)) => fields_remaining(st).map_values(
                    |t: Seq<Val>| Val::Variant(i as int, t),
                ).add(sum_values_from(sum_alternatives(self.shape@), i as int + 1)),
            },
            MachineState::Direct(at) => sum_values_from(
                sum_alternatives(self.shape@),
                at as int,
            ),
        }
    }

    /// The shape this machine enumerates.
    fn shape_ref(&self) -> (r: &Shape)
        ensures
            r@ == self.shp(),
    {
        &self.shape
    }

    /// Whether the machine still has a value to yield.
    pub fn has_value(&self) -> (r: bool)
        requires
            self.wf(),
        ensures
            r == (self.remaining().len() > 0),
    {
        match &self.state {
            MachineState::Product(opt) => match opt {
                None => false,
                Some(st) => {
                    proof {
                        lemma_fields_remaining_nonempty(*st);
                    }
                    true
                },
            },
            MachineState::Sum(opt) => match opt {
                None => false,
                Some((_i, st)) => {
                    proof {
                        lemma_fields_remaining_nonempty(*st);
                    }
                    true
                },
            },
            MachineState::Direct(at) => match &self.shape {
                Shape::Sum(alts) => {
                    proof {
                        lemma_alt_shps_of(alts@);
                        lemma_field_free_sum_values(
                            sum_alternatives(self.shape@),
                            *at as int,
                        );
                    }
                    *at < alts.len()
                },
                Shape::Product(_) => {
                    proof {
                        assert(false);
                    }
                    unreached()
                },
            },
        }
    }

    /// Starts a fresh enumeration of the shape.  The machine's remaining
    /// sequence is exactly [`shape_values`] of the shape: it depends on the
    /// shape alone, so any two machines started on the same shape yield the
    /// same values in the same order.
    pub fn new(shape: &Shape) -> (m: ShapeEnumerator)
        ensures
            m.wf(),
            m.shp() == shape@,
            m.remaining() == shape_values(shape@),
        decreases shape, 0int,
    {
        match shape {
            Shape::Product(fields) => {
                let st = fields_init(fields, 0);
                let m = ShapeEnumerator {
                    shape: shape.clone(),
                    state: MachineState::Product(st),
                };
                proof {
                    assert(shps_of(fields@).skip(0) =~= shps_of(fields@));
                    assert(prod_fields(m.shape@) == shps_of(fields@));
                    if m.state matches MachineState::Product(None) {
                        assert(shape_values(shape@).len() == 0);
                        assert(m.remaining() =~= shape_values(shape@));
                    }
                }
                m
            },
            Shape::Sum(alts) => {
                if alts_all_field_free(alts) {
                    let m = ShapeEnumerator {
                        shape: shape.clone(),
                        state: MachineState::Direct(0),
                    };
                    m
                } else {
                    let st = advance_alternatives(alts, 0);
                    let m = ShapeEnumerator {
                        shape: shape.clone(),
                        state: MachineState::Sum(st),
                    };
                    proof {
                        lemma_alt_shps_of(alts@);
                        if m.state matches MachineState::Sum(None) {
                            assert(m.remaining() =~= shape_values(shape@));
                        }
                    }
                    m
                }
            },
        }
    }
}

/// Whether every alternative has an empty field list.
fn alts_all_field_free(alts: &Vec<Vec<Shape>>) -> (r: bool)
    ensures
        r == all_alts_field_free(alt_shps_of(alts@)),
{
    proof {
        lemma_alt_shps_of(alts@);
    }
    let mut i: usize = 0;
    while i < alts.len()
        invariant
            i <= alts@.len(),
            forall|j: int| 0 <= j < i ==> #[trigger] alt_shps_of(alts@)[j].len() == 0,
        decreases alts@.len() - i,
    {
        if alts[i].len() > 0 {
            proof {
                lemma_alt_shps_of(alts@);
                lemma_shps_of(alts@[i as int]@);
            }
            return false;
        }
        proof {
            lemma_alt_shps_of(alts@);
            lemma_shps_of(alts@[i as int]@);
        }
        i += 1;
    }
    proof {
        lemma_alt_shps_of(alts@);
    }
    true
}

/// Builds the odometer state for fields `from..` of the list: starts one
/// sub-enumerator per field, each holding its first value.  Returns `None`
/// exactly when some field is uninhabited, in which case the whole list has
/// no tuples — emptiness anywhere absorbs the product.
fn fields_init(fields: &Vec<Shape>, from: usize) -> (r: Option<FieldsState>)
    requires
        from <= fields@.len(),
    ensures
        match r {
            Some(st) => {
                &&& fields_wf(st)
                &&& fields_shapes(st) == shps_of(fields@).skip(from as int)
                &&& fields_remaining(st) == tuples_of(shps_of(fields@).skip(from as int))
            },
            None => tuples_of(shps_of(fields@).skip(from as int)).len() == 0,
        },
    decreases fields@, fields@.len() - from,
{
    proof {
        lemma_shps_of(fields@);
    }
    let ghost sk = shps_of(fields@).skip(from as int);
    if from == fields.len() {
        proof {
            assert(sk =~= Seq::<Shp>::empty());
            assert(fields_remaining(FieldsState::Nil) == tuples_of(sk));
        }
        Some(FieldsState::Nil)
    } else {
        proof {
            assert(sk[0] == shps_of(fields@)[from as int]);
            assert(sk.drop_first() =~= shps_of(fields@).skip(from as int + 1));
        }
        let sub = ShapeEnumerator::new(&fields[from]);
        if !sub.has_value() {
            proof {
                lemma_uninhabited_field_absorbs(sk, 0);
            }
            None
        } else {
            match fields_init(fields, from + 1) {
                None => {
                    proof {
                        lemma_tuples_of_len(sk);
                        assert(shape_values(sk[0]).len() * tuples_of(sk.drop_first()).len()
                            == 0) by (nonlinear_arith)
                            requires
                                tuples_of(sk.drop_first()).len() == 0,
                        ;
                    }
                    None
                },
                Some(rest) => {
                    let st = FieldsState::Cons { sub: Box::new(sub), rest: Box::new(rest) };
                    proof {
                        assert(fields_shapes(st) =~= sk);
                        let vs = shape_values(sk[0]);
                        let ts = tuples_of(sk.drop_first());
                        assert(fields_remaining(st) == prepend_to_each(vs[0], ts).add(
                            cross_prepend(vs.drop_first(), ts),
                        ));
                        assert(cross_prepend(vs, ts) == prepend_to_each(vs[0], ts).add(
                            cross_prepend(vs.drop_first(), ts),
                        ));
                        assert(fields_remaining(st) == tuples_of(sk));
                    }
                    Some(st)
                },
            }
        }
    }
}

/// Finds the first alternative at or after `from` that has any values,
/// builds the odometer for its fields, and accounts for every skipped
/// (uninhabited) alternative contributing nothing.  Returns `None` when no
/// alternative from `from` on has values.
fn advance_alternatives(alts: &Vec<Vec<Shape>>, from: usize) -> (r: Option<(usize, FieldsState)>)
    requires
        from <= alts@.len(),
    ensures
        match r {
            Some((i, st)) => {
                &&& from <= i < alts@.len()
                &&& fields_wf(st)
                &&& fields_shapes(st) == alt_shps_of(alts@)[i as int]
                &&& fields_remaining(st).map_values(|t: Seq<Val>| Val::Variant(i as int, t)).add(
                    sum_values_from(alt_shps_of(alts@), i as int + 1),
                ) == sum_values_from(alt_shps_of(alts@), from as int)
            },
            None => sum_values_from(alt_shps_of(alts@), from as int).len() == 0,
        },
    decreases alts@, alts@.len() - from,
{
    let ghost ashps = alt_shps_of(alts@);
    proof {
        lemma_alt_shps_of(alts@);
    }
    let mut j: usize = from;
    while j < alts.len()
        invariant
            from <= j <= alts@.len(),
            ashps == alt_shps_of(alts@),
            ashps.len() == alts@.len(),
            forall|k: int| 0 <= k < alts@.len() ==> ashps[k] == shps_of(#[trigger] alts@[k]@),
            sum_values_from(ashps, from as int) == sum_values_from(ashps, j as int),
        decreases alts@.len() - j,
    {
        match fields_init(&alts[j], 0) {
            Some(st) => {
                proof {
                    assert(shps_of(alts@[j as int]@).skip(0) =~= ashps[j as int]);
                }
                return Some((j, st));
            },
            None => {
                proof {
                    assert(shps_of(alts@[j as int]@).skip(0) =~= ashps[j as int]);
                    lemma_sum_skips_uninhabited(ashps, j as int);
                }
                j += 1;
            },
        }
    }
    proof {
        assert(sum_values_from(ashps, j as int) =~= Seq::<Val>::empty());
    }
    None
}

/// Rebuilds an exhausted field-list state as a fresh one: every field gets a
/// new machine holding its first value again.  Restarting is deterministic,
/// so the rebuilt list has its full cross product ahead of it.
fn fields_restart(st: FieldsState) -> (r: FieldsState)
    requires
        fields_restartable(st),
    ensures
        fields_wf(r),
        fields_shapes(r) == fields_shapes(st),
        fields_remaining(r) == tuples_of(fields_shapes(st)),
    decreases st,
{
    match st {
        FieldsState::Nil => {
            proof {
                assert(fields_remaining(FieldsState::Nil) == tuples_of(
                    fields_shapes(FieldsState::Nil),
                ));
            }
            FieldsState::Nil
        },
        FieldsState::Cons { sub, rest } => {
            let ghost sub_g = *sub;
            let ghost rest_g = *rest;
            let fresh = ShapeEnumerator::new(sub.shape_ref());
            let rest2 = fields_restart(*rest);
            let out = FieldsState::Cons { sub: Box::new(fresh), rest: Box::new(rest2) };
            proof {
                let shapes = fields_shapes(FieldsState::Cons {
                    sub: Box::new(sub_g),
                    rest: Box::new(rest_g),
                });
                let vs = shape_values(sub_g.shp());
                let ts = tuples_of(fields_shapes(rest_g));
                assert(fields_shapes(out) == shapes);
                assert(shapes.len() > 0);
                assert(shapes[0] == sub_g.shp());
                assert(shapes.drop_first() =~= fields_shapes(rest_g));
                assert(tuples_of(shapes) == cross_prepend(vs, ts));
                assert(vs.len() > 0);
                assert(cross_prepend(vs, ts) == prepend_to_each(vs[0], ts).add(
                    cross_prepend(vs.drop_first(), ts),
                ));
                assert(fields_remaining(out) == prepend_to_each(vs[0], ts).add(
                    cross_prepend(vs.drop_first(), ts),
                ));
            }
            out
        },
    }
}

/// Advances a live field-list state past its current tuple, odometer
/// fashion: the later fields advance first; a field that runs out is
/// restarted and the field before it advances instead.  `Ok` carries the
/// advanced state; `Err` reports that the current tuple was the last one and
/// carries the exhausted (but restartable) state.
fn fields_step(st: FieldsState) -> (r: Result<FieldsState, FieldsState>)
    requires
        fields_wf(st),
    ensures
        match r {
            Ok(st2) => {
                &&& fields_wf(st2)
                &&& fields_shapes(st2) == fields_shapes(st)
                &&& fields_remaining(st2) == fields_remaining(st).drop_first()
            },
            Err(st2) => {
                &&& fields_remaining(st).len() == 1
                &&& fields_restartable(st2)
                &&& fields_shapes(st2) == fields_shapes(st)
            },
        },
    decreases st,
{
    let ghost orig = st;
    match st {
        FieldsState::Nil => Err(FieldsState::Nil),
        FieldsState::Cons { sub, rest } => {
            let ghost sub_g = *sub;
            let ghost rest_g = *rest;
            let ghost v_sub = sub_g.remaining();
            let ghost r_rest = fields_remaining(rest_g);
            let ghost t_rest = tuples_of(fields_shapes(rest_g));
            proof {
                lemma_fields_remaining_nonempty(rest_g);
                assert(fields_remaining(orig) == prepend_to_each(v_sub[0], r_rest).add(
                    cross_prepend(v_sub.drop_first(), t_rest),
                ));
            }
            match fields_step(*rest) {
                Ok(rest2) => {
                    let ghost rest2_g = rest2;
                    let out = FieldsState::Cons { sub, rest: Box::new(rest2) };
                    proof {
                        lemma_prepend_to_each_drop_first(v_sub[0], r_rest);
                        lemma_add_drop_first(
                            prepend_to_each(v_sub[0], r_rest),
                            cross_prepend(v_sub.drop_first(), t_rest),
                        );
                        assert(fields_shapes(out) == fields_shapes(orig));
                        assert(fields_remaining(out) == prepend_to_each(
                            v_sub[0],
                            fields_remaining(rest2_g),
                        ).add(cross_prepend(v_sub.drop_first(), t_rest)));
                    }
                    Ok(out)
                },
                Err(rest_ex) => {
                    let sub2 = step_machine(*sub);
                    let ghost v2 = sub2.remaining();
                    proof {
                        assert(v2 == v_sub.drop_first());
                        assert(prepend_to_each(v_sub[0], r_rest).len() == 1);
                        lemma_add_drop_first(
                            prepend_to_each(v_sub[0], r_rest),
                            cross_prepend(v_sub.drop_first(), t_rest),
                        );
                        assert(prepend_to_each(v_sub[0], r_rest).drop_first()
                            =~= Seq::<Seq<Val>>::empty());
                        assert(fields_remaining(orig).drop_first() =~= cross_prepend(v2, t_rest));
                    }
                    if sub2.has_value() {
                        let rest3 = fields_restart(rest_ex);
                        let ghost rest3_g = rest3;
                        let out = FieldsState::Cons { sub: Box::new(sub2), rest: Box::new(rest3) };
                        proof {
                            assert(fields_shapes(rest3_g) == fields_shapes(rest_g));
                            assert(fields_shapes(out) == fields_shapes(orig));
                            assert(v2.len() > 0);
                            assert(cross_prepend(v2, t_rest) == prepend_to_each(v2[0], t_rest).add(
                                cross_prepend(v2.drop_first(), t_rest),
                            ));
                            assert(fields_remaining(out) == prepend_to_each(v2[0], t_rest).add(
                                cross_prepend(v2.drop_first(), t_rest),
                            ));
                        }
                        Ok(out)
                    } else {
                        let out = FieldsState::Cons { sub: Box::new(sub2), rest: Box::new(rest_ex) };
                        proof {
                            lemma_fields_wf_restartable(rest_g);
                            assert(v2.len() == 0);
                            assert(cross_prepend(v_sub.drop_first(), t_rest) == Seq::<
                                Seq<Val>,
                            >::empty());
                            assert(fields_remaining(orig).len() == 1);
                            assert(fields_shapes(out) == fields_shapes(orig));
                        }
                        Err(out)
                    }
                },
            }
        },
    }
}

/// Advances a machine past its current value: the total transition of the
/// state machine.  Requires a value to be left; exhaustion is reported by
/// the remaining sequence becoming empty.
fn step_machine(m: ShapeEnumerator) -> (r: ShapeEnumerator)
    requires
        m.wf(),
        m.remaining().len() > 0,
    ensures
        r.wf(),
        r.shp() == m.shp(),
        r.remaining() == m.remaining().drop_first(),
    decreases m,
{
    let ghost m_g = m;
    let ShapeEnumerator { shape, state } = m;
    match state {
        MachineState::Product(opt) => match opt {
            None => {
                proof {
                    assert(false);
                }
                unreached()
            },
            Some(st) => {
                let ghost st_g = st;
                match fields_step(st) {
                    Ok(st2) => {
                        let ghost st2_g = st2;
                        let out = ShapeEnumerator {
                            shape,
                            state: MachineState::Product(Some(st2)),
                        };
                        proof {
                            let f = |t: Seq<Val>| Val::Tuple(t);
                            lemma_fields_remaining_nonempty(st_g);
                            assert(fields_remaining(st2_g).map_values(f) =~= fields_remaining(
                                st_g,
                            ).map_values(f).drop_first());
                        }
                        out
                    },
                    Err(_) => {
                        let out = ShapeEnumerator { shape, state: MachineState::Product(None) };
                        proof {
                            assert(m_g.remaining().len() == 1);
                            assert(out.remaining() =~= m_g.remaining().drop_first());
                        }
                        out
                    },
                }
            },
        },
        MachineState::Sum(opt) => match opt {
            None => {
                proof {
                    assert(false);
                }
                unreached()
            },
            Some((i, st)) => {
                let ghost st_g = st;
                let ghost ashps = sum_alternatives(m_g.shp());
                let ghost tail = sum_values_from(ashps, i as int + 1);
                proof {
                    lemma_fields_remaining_nonempty(st_g);
                }
                match fields_step(st) {
                    Ok(st2) => {
                        let ghost st2_g = st2;
                        let out = ShapeEnumerator {
                            shape,
                            state: MachineState::Sum(Some((i, st2))),
                        };
                        proof {
                            let f = |t: Seq<Val>| Val::Variant(i as int, t);
                            let mapped = fields_remaining(st_g).map_values(f);
                            assert(fields_remaining(st2_g).map_values(f) =~= mapped.drop_first());
                            lemma_add_drop_first(mapped, tail);
                        }
                        out
                    },
                    Err(_) => {
                        proof {
                            let f = |t: Seq<Val>| Val::Variant(i as int, t);
                            let mapped = fields_remaining(st_g).map_values(f);
                            lemma_add_drop_first(mapped, tail);
                            assert(mapped.drop_first() =~= Seq::<Val>::empty());
                            assert(m_g.remaining().drop_first() =~= tail);
                        }
                        let state2 = match &shape {
                            Shape::Sum(alts) => {
                                proof {
                                    lemma_alt_shps_of(alts@);
                                }
                                let n = alts.len();
                                assert(i < n);
                                MachineState::Sum(advance_alternatives(alts, i + 1))
                            },
                            Shape::Product(_) => {
                                proof {
                                    assert(false);
                                }
                                unreached()
                            },
                        };
                        let out = ShapeEnumerator { shape, state: state2 };
                        proof {
                            if out.state matches MachineState::Sum(None) {
                                assert(out.remaining() =~= m_g.remaining().drop_first());
                            }
                        }
                        out
                    },
                }
            },
        },
        MachineState::Direct(at) => {
            let ghost ashps = sum_alternatives(m_g.shp());
            proof {
                lemma_field_free_sum_values(ashps, at as int);
                assert((at as int) < ashps.len());
                lemma_field_free_sum_values(ashps, at as int + 1);
                assert(sum_values_from(ashps, at as int + 1) =~= sum_values_from(
                    ashps,
                    at as int,
                ).drop_first());
            }
            let at2 = match &shape {
                Shape::Sum(alts) => {
                    proof {
                        lemma_alt_shps_of(alts@);
                    }
                    let n = alts.len();
                    assert(at < n);
                    at + 1
                },
                Shape::Product(_) => {
                    proof {
                        assert(false);
                    }
                    unreached()
                },
            };
            ShapeEnumerator { shape, state: MachineState::Direct(at2) }
        },
    }
}

/// The current values of all fields of a live field-list state, in field
/// order: the tuple the machine will yield next.
fn fields_current(st: &FieldsState) -> (r: Vec<Value>)
    requires
        fields_wf(*st),
    ensures
        vals_of(r@) == fields_remaining(*st)[0],
    decreases st, 0int,
{
    match st {
        FieldsState::Nil => Vec::new(),
        FieldsState::Cons { sub, rest } => {
            let ghost rest_g = **rest;
            let v = match sub.next_to_yield() {
                Some(v) => v,
                None => {
                    proof {
                        assert(false);
                    }
                    unreached()
                },
            };
            let mut out: Vec<Value> = Vec::new();
            out.push(v);
            let mut tail = fields_current(rest);
            let ghost tail_g = tail@;
            out.append(&mut tail);
            proof {
                lemma_fields_remaining_nonempty(rest_g);
                assert(fields_remaining(*st)[0] == prepend_to_each(
                    (**sub).remaining()[0],
                    fields_remaining(rest_g),
                )[0]) by {
                    assert(prepend_to_each((**sub).remaining()[0], fields_remaining(rest_g)).len()
                        > 0);
                }
                assert(out@.len() > 0);
                assert(out@[0] == v);
                assert(out@.drop_first() =~= tail_g);
                assert(vals_of(out@) == seq![v@].add(vals_of(out@.drop_first())));
            }
            out
        },
    }
}

impl ShapeEnumerator {
    /// The value the machine will yield next, if any is left: read without
    /// advancing.  A product state yields the tuple of its fields' current
    /// values; a sum state wraps the current alternative's tuple in that
    /// alternative's tag.
    pub fn next_to_yield(&self) -> (r: Option<Value>)
        requires
            self.wf(),
        ensures
            match r {
                Some(v) => self.remaining().len() > 0 && v@ == self.remaining()[0],
                None => self.remaining().len() == 0,
            },
        decreases self, 1int,
    {
        match &self.state {
            MachineState::Product(opt) => match opt {
                None => None,
                Some(st) => {
                    proof {
                        lemma_fields_remaining_nonempty(*st);
                    }
                    let vs = fields_current(st);
                    Some(Value::Tuple(vs))
                },
            },
            MachineState::Sum(opt) => match opt {
                None => None,
                Some((i, st)) => {
                    proof {
                        lemma_fields_remaining_nonempty(*st);
                    }
                    let vs = fields_current(st);
                    Some(Value::Variant(*i, vs))
                },
            },
            MachineState::Direct(at) => match &self.shape {
                Shape::Sum(alts) => {
                    proof {
                        lemma_alt_shps_of(alts@);
                        lemma_field_free_sum_values(sum_alternatives(self.shape@), *at as int);
                    }
                    if *at < alts.len() {
                        Some(Value::Variant(*at, Vec::new()))
                    } else {
                        None
                    }
                },
                Shape::Product(_) => {
                    proof {
                        assert(false);
                    }
                    unreached()
                },
            },
        }
    }

    /// Yields the next value and advances, or reports exhaustion.  Every
    /// call removes exactly the head of the remaining sequence; once the
    /// machine is exhausted it stays exhausted.
    pub fn next(&mut self) -> (r: Option<Value>)
        requires
            old(self).wf(),
        ensures
            final(self).wf(),
            final(self).shp() == old(self).shp(),
            match r {
                Some(v) => {
                    &&& old(self).remaining().len() > 0
                    &&& v@ == old(self).remaining()[0]
                    &&& final(self).remaining() == old(self).remaining().drop_first()
                },
                None => {
                    &&& old(self).remaining().len() == 0
                    &&& final(self).remaining() == old(self).remaining()
                },
            },
    {
        let cur = self.next_to_yield();
        match cur {
            None => None,
            Some(v) => {
                let mut taken = ShapeEnumerator {
                    shape: Shape::Product(Vec::new()),
                    state: MachineState::Product(None),
                };
                core::mem::swap(&mut taken, self);
                let stepped = step_machine(taken);
                *self = stepped;
                Some(v)
            },
        }
    }
}

/// Enumerates every value of the shape into a vector: the executable form
/// of [`shape_values`].  Two calls on the same shape return the same
/// vector, in the same order.
pub fn enumerate_all(shape: &Shape) -> (r: Vec<Value>)
    ensures
        vals_of(r@) == shape_values(shape@),
{
    let mut m = ShapeEnumerator::new(shape);
    let mut out: Vec<Value> = Vec::new();
    loop
        invariant
            m.wf(),
            vals_of(out@).add(m.remaining()) == shape_values(shape@),
        ensures
            vals_of(out@) == shape_values(shape@),
        decreases m.remaining().len(),
    {
        let ghost out_old = out@;
        let ghost rem_old = m.remaining();
        match m.next() {
            Some(v) => {
                out.push(v);
                proof {
                    lemma_vals_of(out_old);
                    lemma_vals_of(out@);
                    assert forall|i: int| 0 <= i < out@.len() implies vals_of(out@)[i] == vals_of(
                        out_old,
                    ).push(v@)[i] by {
                        assert(vals_of(out@)[i] == out@[i]@);
                        if i < out_old.len() {
                            assert(out_old.push(v)[i] == out_old[i]);
                            assert(vals_of(out_old)[i] == out_old[i]@);
                            assert(vals_of(out_old).push(v@)[i] == vals_of(out_old)[i]);
                        } else {
                            assert(out_old.push(v)[i] == v);
                            assert(vals_of(out_old).push(v@)[i] == v@);
                        }
                    }
                    assert(vals_of(out@) =~= vals_of(out_old).push(v@));
                    assert(vals_of(out@).add(m.remaining()) =~= vals_of(out_old).add(rem_old));
                }
            },
            None => {
                proof {
                    assert(vals_of(out@).add(m.remaining()) =~= vals_of(out@));
                }
                break ;
            },
        }
    }
    out
}

/// Idempotence of enumeration: what a freshly started machine will yield
/// is a function of its shape alone, so two machines holding the full
/// value sequence of the same shape — as [`ShapeEnumerator::new`]
/// guarantees of every machine it returns — agree element for element, and
/// draining them yields identical sequences in identical order.
pub proof fn lemma_enumeration_idempotent(m1: ShapeEnumerator, m2: ShapeEnumerator)
    requires
        m1.remaining() == shape_values(m1.shp()),
        m2.remaining() == shape_values(m2.shp()),
        m1.shp() == m2.shp(),
    ensures
        m1.remaining() == m2.remaining(),
{
}

/// Cardinality and enumeration agree: a machine holding the full value
/// sequence of its shape — as every machine returned by
/// [`ShapeEnumerator::new`] does — has exactly [`shape_count`] values left
/// to yield, the count that [`crate::cardinality::shape_size_option`]
/// reports when it is representable; and that sequence is finite, so the
/// enumeration terminates even when the count exceeds `usize::MAX`.
pub proof fn lemma_cardinality_agreement(m: ShapeEnumerator)
    requires
        m.remaining() == shape_values(m.shp()),
    ensures
        m.remaining().len() == shape_count(m.shp()),
{
}

/// The keyword the enumerator state for a shape is built around: a product
/// with fields keeps one struct-like compound state; a sum with fields
/// switches between enum-like per-alternative states.
#[derive(Debug, PartialEq, Eq)]
pub enum EnumeratorKeyword {
    /// One compound state: a sub-enumerator per field plus the next tuple.
    Struct,
    /// One state per alternative, walked in declaration order.
    Enum,
}

/// Decides which kind of enumerator state a shape needs.  Degenerate shapes
/// get `None`: a product with no fields is a one-shot yield, and a sum in
/// which no alternative has fields is enumerated by positional indexing, so
/// neither needs a state machine.
pub fn enumerator_keyword(shape: &Shape) -> (r: Option<EnumeratorKeyword>)
    ensures
        match r {
            Some(k) => match k {
                EnumeratorKeyword::Struct => shape@ is Product && prod_fields(shape@).len() > 0,
                EnumeratorKeyword::Enum => shape@ is Sum && !all_alts_field_free(
                    sum_alternatives(shape@),
                ),
            },
            None => (shape@ is Product && prod_fields(shape@).len() == 0) || (shape@ is Sum
                && all_alts_field_free(sum_alternatives(shape@))),
        },
{
    match shape {
        Shape::Product(fields) => {
            proof {
                lemma_shps_of(fields@);
            }
            if fields.len() > 0 {
                Some(EnumeratorKeyword::Struct)
            } else {
                None
            }
        },
        Shape::Sum(alts) => {
            if alts_all_field_free(alts) {
                None
            } else {
                Some(EnumeratorKeyword::Enum)
            }
        },
    }
}

} // verus!
