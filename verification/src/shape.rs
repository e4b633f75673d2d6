//! Type-shape descriptors and the values that conform to them.
//!
//! A schema author describes a type by a [`Shape`]: a product (an ordered
//! field list, each field named or positional) or a sum (an ordered variant
//! list with a declared discriminant width and one explicit discriminant
//! value per variant). Field types nest, bottoming out at fixed-width
//! unsigned integer leaves. [`Value`] is the corresponding runtime value
//! tree, and [`conforms`] says when a value has a given shape.

use vstd::prelude::*;

verus! {

/// Width of an unsigned-integer leaf (and of a sum's discriminant).
#[derive(Clone, Copy, Debug, PartialEq, Eq)]
pub enum IntWidth {
    U8,
    U16,
    U32,
    U64,
    U128,
}

impl IntWidth {
    /// Number of bytes a value of this width occupies on the wire.
    pub open spec fn spec_bytes(self) -> nat {
        match self {
            IntWidth::U8 => 1,
            IntWidth::U16 => 2,
            IntWidth::U32 => 4,
            IntWidth::U64 => 8,
            IntWidth::U128 => 16,
        }
    }

    /// Number of bytes a value of this width occupies on the wire.
    pub fn bytes(self) -> (r: usize)
        ensures
            r == self.spec_bytes(),
    {
        match self {
            IntWidth::U8 => 1,
            IntWidth::U16 => 2,
            IntWidth::U32 => 4,
            IntWidth::U64 => 8,
            IntWidth::U128 => 16,
        }
    }
}

/// One field of a product or of a variant payload: named (record style) or
/// positional (tuple style). The name never reaches the wire; declaration
/// order alone decides the encoding.
#[derive(Debug, PartialEq, Eq)]
pub struct Field {
    pub name: Option<String>,
    pub ty: FieldTy,
}

/// The type of a field: an unsigned-integer leaf or a nested composite.
#[derive(Debug, PartialEq, Eq)]
pub enum FieldTy {
    Leaf(IntWidth),
    Nested(Box<Shape>),
}

/// One variant of a sum type: a name, an explicit discriminant value
/// (held widened, wide enough for any supported width), and a payload
/// field list, possibly empty.
#[derive(Debug, PartialEq, Eq)]
pub struct Variant {
    pub name: String,
    pub disc_value: u128,
    pub fields: Vec<Field>,
}

/// A type-shape descriptor as the schema author supplies it. Degenerate
/// shapes can be written down — a zero-field product, a sum without a
/// declared discriminant width, an open union — but validation rejects
/// them before any codec is built.
#[derive(Debug, PartialEq, Eq)]
pub enum Shape {
    Product(Vec<Field>),
    Sum { disc: Option<IntWidth>, variants: Vec<Variant> },
    Union,
}

/// An authoring mistake found while validating a descriptor. These are
/// generation-time failures: a codec is only ever built for a descriptor
/// free of them, so no running program meets them.
#[derive(Clone, Copy, Debug, PartialEq, Eq)]
pub enum GenError {
    /// A product (top-level or nested) declares no field at all.
    ZeroFieldProduct,
    /// A sum declares no discriminant width.
    MissingDiscriminantWidth,
    /// An open union of overlapping alternatives was requested.
    UnsupportedUnion,
}

/// A descriptor the generator accepts: every product has at least one
/// field, every sum declares its discriminant width, and no union occurs,
/// at any nesting depth.
pub open spec fn valid_shape(s: Shape) -> bool
    decreases s, 0nat,
{
    match s {
        Shape::Product(fields) => fields@.len() > 0 && valid_fields(fields@),
        Shape::Sum { disc, variants } => {
            disc is Some && forall|i: int|
                0 <= i < variants@.len() ==> valid_fields(#[trigger] variants@[i].fields@)
        },
        Shape::Union => false,
    }
}

/// Every field's type is itself a valid shape.
pub open spec fn valid_fields(fields: Seq<Field>) -> bool
    decreases fields, 0nat,
{
    forall|i: int| 0 <= i < fields.len() ==> valid_ty(#[trigger] fields[i].ty)
}

/// A leaf is always valid; a nested composite must be a valid shape.
pub open spec fn valid_ty(t: FieldTy) -> bool
    decreases t, 0nat,
{
    match t {
        FieldTy::Leaf(_) => true,
        FieldTy::Nested(inner) => valid_shape(*inner),
    }
}

/// The exact outcome of validating a descriptor: `Ok` on a valid one, and
/// otherwise the first rule violation met walking the descriptor — the
/// shape's own rule first, then its fields (or variants, each with its
/// fields) in declaration order, depth first.
pub open spec fn spec_validate(s: Shape) -> Result<(), GenError>
    decreases s, 0nat,
{
    match s {
        Shape::Product(fields) => {
            if fields@.len() == 0 {
                Err(GenError::ZeroFieldProduct)
            } else {
                spec_validate_fields(fields@, 0)
            }
        },
        Shape::Sum { disc, variants } => {
            if disc is None {
                Err(GenError::MissingDiscriminantWidth)
            } else {
                spec_validate_variants(variants@, 0)
            }
        },
        Shape::Union => Err(GenError::UnsupportedUnion),
    }
}

/// Validates the fields from index `k` on, in order.
pub open spec fn spec_validate_fields(fields: Seq<Field>, k: int) -> Result<(), GenError>
    decreases fields, fields.len() - k,
{
    if k < 0 || k >= fields.len() {
        Ok(())
    } else {
        match spec_validate_ty(fields[k].ty) {
            Err(e) => Err(e),
            Ok(()) => spec_validate_fields(fields, k + 1),
        }
    }
}

/// Validates the variants from index `k` on, each variant's payload fields
/// in order.
pub open spec fn spec_validate_variants(variants: Seq<Variant>, k: int) -> Result<(), GenError>
    decreases variants, variants.len() - k,
{
    if k < 0 || k >= variants.len() {
        Ok(())
    } else {
        match spec_validate_fields(variants[k].fields@, 0) {
            Err(e) => Err(e),
            Ok(()) => spec_validate_variants(variants, k + 1),
        }
    }
}

/// Validates one field type.
pub open spec fn spec_validate_ty(t: FieldTy) -> Result<(), GenError>
    decreases t, 0nat,
{
    match t {
        FieldTy::Leaf(_) => Ok(()),
        FieldTy::Nested(inner) => spec_validate(*inner),
    }
}

/// Validation succeeds exactly on the valid descriptors.
pub proof fn lemma_validate_ok_iff_valid(s: Shape)
    ensures
        spec_validate(s) is Ok <==> valid_shape(s),
    decreases s, 3nat,
{
    match s {
        Shape::Product(fields) => {
            if fields@.len() > 0 {
                lemma_validate_fields_ok_iff_valid(fields@, 0);
            }
        },
        Shape::Sum { disc, variants } => {
            if disc is Some {
                lemma_validate_variants_ok_iff_valid(variants@, 0);
                if spec_validate_variants(variants@, 0) is Ok {
                    assert forall|i: int| 0 <= i < variants@.len() implies valid_fields(
                        #[trigger] variants@[i].fields@,
                    ) by {}
                }
            }
        },
        Shape::Union => {},
    }
}

/// Fields from `k` on validate exactly when each of their types is valid.
pub proof fn lemma_validate_fields_ok_iff_valid(fields: Seq<Field>, k: int)
    requires
        0 <= k <= fields.len(),
    ensures
        spec_validate_fields(fields, k) is Ok <==> forall|i: int|
            k <= i < fields.len() ==> valid_ty(#[trigger] fields[i].ty),
    decreases fields, fields.len() - k + 1,
{
    if 0 <= k < fields.len() {
        lemma_validate_ty_ok_iff_valid(fields[k].ty);
        lemma_validate_fields_ok_iff_valid(fields, k + 1);
    }
}

/// Variants from `k` on validate exactly when each payload's fields do.
pub proof fn lemma_validate_variants_ok_iff_valid(variants: Seq<Variant>, k: int)
    requires
        0 <= k <= variants.len(),
    ensures
        spec_validate_variants(variants, k) is Ok <==> forall|i: int|
            k <= i < variants.len() ==> valid_fields(#[trigger] variants[i].fields@),
    decreases variants, variants.len() - k + 1,
{
    if 0 <= k < variants.len() {
        lemma_validate_fields_ok_iff_valid(variants[k].fields@, 0);
        lemma_validate_variants_ok_iff_valid(variants, k + 1);
    }
}

/// A field type validates exactly when it is valid.
pub proof fn lemma_validate_ty_ok_iff_valid(t: FieldTy)
    ensures
        spec_validate_ty(t) is Ok <==> valid_ty(t),
    decreases t, 4nat,
{
    match t {
        FieldTy::Leaf(_) => {},
        FieldTy::Nested(inner) => {
            lemma_validate_ok_iff_valid(*inner);
        },
    }
}

/// Checks a descriptor against the generation-time rules, reporting the
/// first violation exactly as [`spec_validate`] names it.
pub fn validate(s: &Shape) -> (r: Result<(), GenError>)
    ensures
        r == spec_validate(*s),
        r is Ok <==> valid_shape(*s),
    decreases *s, 0nat,
{
    proof {
        lemma_validate_ok_iff_valid(*s);
    }
    match s {
        Shape::Product(fields) => {
            if fields.len() == 0 {
                Err(GenError::ZeroFieldProduct)
            } else {
                validate_fields(fields, 0)
            }
        },
        Shape::Sum { disc, variants } => {
            if disc.is_none() {
                Err(GenError::MissingDiscriminantWidth)
            } else {
                validate_variants(variants, 0)
            }
        },
        Shape::Union => Err(GenError::UnsupportedUnion),
    }
}

fn validate_fields(fields: &Vec<Field>, k: usize) -> (r: Result<(), GenError>)
    requires
        k <= fields@.len(),
    ensures
        r == spec_validate_fields(fields@, k as int),
    decreases fields@, fields@.len() - k,
{
    if k == fields.len() {
        Ok(())
    } else {
        match validate_ty(&fields[k].ty) {
            Err(e) => Err(e),
            Ok(()) => validate_fields(fields, k + 1),
        }
    }
}

fn validate_variants(variants: &Vec<Variant>, k: usize) -> (r: Result<(), GenError>)
    requires
        k <= variants@.len(),
    ensures
        r == spec_validate_variants(variants@, k as int),
    decreases variants@, variants@.len() - k,
{
    if k == variants.len() {
        Ok(())
    } else {
        match validate_fields(&variants[k].fields, 0) {
            Err(e) => Err(e),
            Ok(()) => validate_variants(variants, k + 1),
        }
    }
}

fn validate_ty(t: &FieldTy) -> (r: Result<(), GenError>)
    ensures
        r == spec_validate_ty(*t),
    decreases *t, 4nat,
{
    match t {
        FieldTy::Leaf(_) => Ok(()),
        FieldTy::Nested(inner) => validate(inner),
    }
}

} // verus!
