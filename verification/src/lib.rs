//! A compact, tag-minimal binary codec for algebraic data types.
//!
//! A [`shape::Shape`] descriptor tells, for a product type (a record of
//! fields) or a sum type (tagged variants selected by an explicit integer
//! discriminant), how values of the type lie on the wire: a product is the
//! concatenation of its fields' encodings in declaration order, a sum is its
//! discriminant (at its declared width, big-endian) followed by the active
//! variant's fields. [`codec::Codec`] validates a descriptor once and then
//! offers the three operations — serialize, deserialize, length — whose
//! contracts pin the bytes down exactly; [`laws`] proves the round-trip,
//! length-fidelity and discriminant properties that tie them together.

pub mod bytes;
pub mod codec;
pub mod laws;
pub mod shape;
pub mod value;
