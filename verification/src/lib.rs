//! Enumeration of every inhabitant of a finite type, together with the exact
//! count of those inhabitants.
//!
//! The crate has two layers.
//!
//! * The [`Enumerable`] trait (in [`enumerable`]) is the capability contract:
//!   a type that implements it can hand out a fresh enumerator that yields all
//!   of its values in a fixed order, and states its cardinality as
//!   `Option<usize>` (`None` meaning "more than `usize::MAX`").  Built-in
//!   instances cover `bool`, the integer types, `char`, `()`, `Option`,
//!   `Result` and short tuples.
//! * The shape interpreter ([`shape`], [`machine`], [`cardinality`]) is the
//!   general strategy behind those instances: a [`shape::Shape`] describes a
//!   type as a sum of alternatives or a product of fields, and
//!   [`machine::ShapeEnumerator`] walks every value of the shape in
//!   odometer order (last field fastest) while [`cardinality`] computes the
//!   matching checked count.

pub mod cardinality;
pub mod enumerable;
pub mod impl_built_in;
pub mod impl_tuple;
pub mod machine;
pub mod naming;
pub mod shape;

pub use crate::enumerable::{Enumerable, EnumerationState};
pub use crate::impl_built_in::OptionEnumerator;
pub use crate::impl_tuple::Tuple1Enumerator;
pub use crate::machine::{EnumeratorKeyword, ShapeEnumerator, enumerate_all, enumerator_keyword};
pub use crate::naming::{capital_letter, lowercase_letter};
pub use crate::cardinality::{shape_size_option, size_product, size_sum, size_unwrap};
pub use crate::shape::{Shape, Value};
