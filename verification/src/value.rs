//! Runtime values, their mathematical model, and what it means for a value
//! to have a given shape.
//!
//! [`Value`] is the executable value tree; [`SpecValue`] is its ghost
//! mirror, with sequences for the vectors, and [`Value::deep_view`] maps
//! one to the other. Contracts speak of `SpecValue`.

use vstd::prelude::*;
use crate::bytes::pow256;
use crate::shape::{Field, FieldTy, IntWidth, Shape};

verus! {

/// A value of some composite type, mirroring a [`Shape`]: an unsigned
/// integer at a leaf (held widened, wide enough for any supported width),
/// a record of field values for a product, or one variant — picked by its
/// position in the declared variant list — with its payload for a sum.
#[derive(Debug, PartialEq, Eq)]
pub enum Value {
    Uint(u128),
    Record(Vec<Value>),
    Case(usize, Vec<Value>),
}

/// The mathematical model of a [`Value`].
pub enum SpecValue {
    Uint(u128),
    Record(Seq<SpecValue>),
    Case(int, Seq<SpecValue>),
}

impl Value {
    /// The model of this value: the same tree with sequences for vectors.
    pub open spec fn deep_view(self) -> SpecValue
        decreases self, 1nat,
    {
        match self {
            Value::Uint(n) => SpecValue::Uint(n),
            Value::Record(vals) => SpecValue::Record(deep_view_seq(vals@)),
            Value::Case(idx, vals) => SpecValue::Case(idx as int, deep_view_seq(vals@)),
        }
    }
}

/// The models of a sequence of values, elementwise.
pub open spec fn deep_view_seq(vals: Seq<Value>) -> Seq<SpecValue>
    decreases vals, 2nat,
{
    if vals.len() == 0 {
        Seq::empty()
    } else {
        deep_view_seq(vals.drop_last()).push(vals.last().deep_view())
    }
}

/// `deep_view_seq` is the elementwise model.
pub proof fn lemma_deep_view_seq(vals: Seq<Value>)
    ensures
        deep_view_seq(vals).len() == vals.len(),
        forall|i: int| 0 <= i < vals.len() ==> deep_view_seq(vals)[i] == vals[i].deep_view(),
    decreases vals.len(),
{
    if vals.len() > 0 {
        lemma_deep_view_seq(vals.drop_last());
    }
}

/// Does `n` fit in `w` on the wire?
pub open spec fn fits_width(w: IntWidth, n: u128) -> bool {
    (n as nat) < pow256(w.spec_bytes())
}

/// Does the value have the given shape? A leaf must fit its declared
/// width, a record must have one conforming value per declared field, a
/// case must pick a declared variant and conform to its payload.
pub open spec fn conforms(v: SpecValue, s: Shape) -> bool
    decreases s, 0nat,
{
    match s {
        Shape::Product(fields) => match v {
            SpecValue::Record(vals) => conforms_fields(vals, fields@),
            _ => false,
        },
        Shape::Sum { disc, variants } => match v {
            SpecValue::Case(idx, vals) => {
                &&& disc is Some
                &&& 0 <= idx < variants@.len()
                &&& conforms_fields(vals, variants@[idx].fields@)
            },
            _ => false,
        },
        Shape::Union => false,
    }
}

/// One conforming value per field, in declaration order.
pub open spec fn conforms_fields(vals: Seq<SpecValue>, fields: Seq<Field>) -> bool
    decreases fields, 0nat,
{
    &&& vals.len() == fields.len()
    &&& forall|i: int| 0 <= i < fields.len() ==> conforms_ty(#[trigger] vals[i], fields[i].ty)
}

/// Does the value have the given field type?
pub open spec fn conforms_ty(v: SpecValue, t: FieldTy) -> bool
    decreases t, 0nat,
{
    match t {
        FieldTy::Leaf(w) => match v {
            SpecValue::Uint(n) => fits_width(w, n),
            _ => false,
        },
        FieldTy::Nested(inner) => conforms(v, *inner),
    }
}

/// Decides whether `n` fits in `w` on the wire.
pub fn fits(w: IntWidth, n: u128) -> (r: bool)
    ensures
        r == fits_width(w, n),
{
    proof {
        reveal_with_fuel(pow256, 9);
        crate::bytes::lemma_pow256_16();
    }
    match w {
        IntWidth::U8 => n <= 0xff,
        IntWidth::U16 => n <= 0xffff,
        IntWidth::U32 => n <= 0xffff_ffff,
        IntWidth::U64 => n <= 0xffff_ffff_ffff_ffff,
        IntWidth::U128 => true,
    }
}

/// Decides whether the value has the given shape.
pub fn conforms_value(s: &Shape, v: &Value) -> (r: bool)
    ensures
        r == conforms(v.deep_view(), *s),
    decreases *s, 2nat,
{
    match s {
        Shape::Product(fields) => match v {
            Value::Record(vals) => conforms_fields_value(fields, vals),
            _ => false,
        },
        Shape::Sum { disc, variants } => match v {
            Value::Case(idx, vals) => {
                if disc.is_none() {
                    false
                } else if *idx >= variants.len() {
                    false
                } else {
                    conforms_fields_value(&variants[*idx].fields, vals)
                }
            },
            _ => false,
        },
        Shape::Union => false,
    }
}

/// Decides whether the values conform to the fields, one per field in
/// declaration order.
pub fn conforms_fields_value(fields: &Vec<Field>, vals: &Vec<Value>) -> (r: bool)
    ensures
        r == conforms_fields(deep_view_seq(vals@), fields@),
    decreases fields@, 1nat,
{
    proof {
        lemma_deep_view_seq(vals@);
    }
    if vals.len() != fields.len() {
        return false;
    }
    let mut i: usize = 0;
    while i < fields.len()
        invariant
            i <= fields@.len(),
            vals@.len() == fields@.len(),
            forall|j: int|
                0 <= j < i ==> conforms_ty(#[trigger] deep_view_seq(vals@)[j], fields@[j].ty),
            deep_view_seq(vals@).len() == vals@.len(),
            forall|j: int|
                0 <= j < vals@.len() ==> deep_view_seq(vals@)[j] == #[trigger] vals@[j].deep_view(),
        decreases fields@.len() - i,
    {
        if !conforms_ty_value(&fields[i].ty, &vals[i]) {
            return false;
        }
        i = i + 1;
    }
    true
}

/// Decides whether the value has the given field type.
pub fn conforms_ty_value(t: &FieldTy, v: &Value) -> (r: bool)
    ensures
        r == conforms_ty(v.deep_view(), *t),
    decreases *t, 1nat,
{
    match t {
        FieldTy::Leaf(w) => match v {
            Value::Uint(n) => fits(*w, *n),
            _ => false,
        },
        FieldTy::Nested(inner) => conforms_value(&**inner, v),
    }
}

} // verus!
