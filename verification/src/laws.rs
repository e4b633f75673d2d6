//! The laws that tie the three operations together: round trip, decode
//! exactness, discriminant fidelity, bad-discriminant rejection, and field
//! order.
//!
//! Length fidelity is [`crate::codec::lemma_length_fidelity`], beside the
//! definitions it relates.

use vstd::prelude::*;
use vstd::arithmetic::div_mod::lemma_small_mod;
use crate::bytes::{be_val, spec_be, lemma_be_val_bound, lemma_be_val_spec_be, lemma_spec_be_be_val, lemma_spec_be_len};
use crate::codec::{
    dec_fields, dec_ty, dec_value, find_variant, ser_fields, ser_ty, ser_value, unambiguous,
    unambiguous_fields, unambiguous_ty, DecodeError,
};
use crate::shape::{Field, FieldTy, IntWidth, Shape, Variant, valid_fields, valid_shape, valid_ty};
use crate::value::{conforms, conforms_fields, conforms_ty, SpecValue};

verus! {

/// Splitting a known concatenation at its seam.
proof fn lemma_subrange_split(data: Seq<u8>, pos: int, a: Seq<u8>, b: Seq<u8>)
    requires
        0 <= pos,
        pos + a.len() + b.len() <= data.len(),
        data.subrange(pos, pos + a.len() + b.len()) == a + b,
    ensures
        data.subrange(pos, pos + a.len()) == a,
        data.subrange(pos + a.len(), pos + a.len() + b.len()) == b,
{
    let whole = data.subrange(pos, pos + a.len() + b.len());
    assert forall|i: int| 0 <= i < a.len() implies data.subrange(pos, pos + a.len())[i] == a[i] by {
        assert(whole[i] == a[i]);
    }
    assert forall|i: int|
        0 <= i < b.len() implies data.subrange(pos + a.len(), pos + a.len() + b.len())[i]
        == b[i] by {
        assert(whole[a.len() + i] == b[i]);
    }
    assert(data.subrange(pos, pos + a.len()) =~= a);
    assert(data.subrange(pos + a.len(), pos + a.len() + b.len()) =~= b);
}

/// Round trip: wherever the serialized bytes of a well-formed,
/// unambiguous value lie inside a larger byte string, decoding at their
/// start yields exactly that value, ending exactly after them.
pub proof fn lemma_round_trip(s: Shape, v: SpecValue, data: Seq<u8>, pos: int)
    requires
        valid_shape(s),
        conforms(v, s),
        unambiguous(v, s),
        0 <= pos,
        pos + ser_value(s, v).len() <= data.len(),
        data.subrange(pos, pos + ser_value(s, v).len()) == ser_value(s, v),
    ensures
        dec_value(s, data, pos) == Ok::<(SpecValue, int), DecodeError>(
            (v, pos + ser_value(s, v).len()),
        ),
    decreases s, 2nat,
{
    match s {
        Shape::Product(fields) => {
            let vals = v->Record_0;
            lemma_round_trip_fields(fields@, vals, data, pos, 0);
            assert(vals.skip(0) =~= vals);
        },
        Shape::Sum { disc, variants } => {
            let idx = v->Case_0;
            let vals = v->Case_1;
            let w = disc->0;
            let kd = w.spec_bytes() as int;
            let dval = variants@[idx].disc_value;
            let head = spec_be(w.spec_bytes(), dval as nat);
            let rest = ser_fields(variants@[idx].fields@, vals, 0);
            lemma_spec_be_len(w.spec_bytes(), dval as nat);
            assert(ser_value(s, v) == head + rest);
            lemma_subrange_split(data, pos, head, rest);
            // The discriminant read back is the declared value: it fits the
            // declared width, so the cast loses nothing.
            lemma_be_val_spec_be(w.spec_bytes(), dval as nat);
            lemma_small_mod(dval as nat, crate::bytes::pow256(w.spec_bytes()));
            assert(be_val(data.subrange(pos, pos + kd)) == dval as nat);
            assert(find_variant(variants@, dval, 0) == idx);
            lemma_round_trip_fields(variants@[idx].fields@, vals, data, pos + kd, 0);
            assert(vals.skip(0) =~= vals);
        },
        Shape::Union => {},
    }
}

/// Round trip for the fields from index `k` on: decoding their serialized
/// bytes yields their values, in order.
pub proof fn lemma_round_trip_fields(
    fields: Seq<Field>,
    vals: Seq<SpecValue>,
    data: Seq<u8>,
    pos: int,
    k: int,
)
    requires
        valid_fields(fields),
        conforms_fields(vals, fields),
        unambiguous_fields(vals, fields),
        0 <= k <= fields.len(),
        0 <= pos,
        pos + ser_fields(fields, vals, k).len() <= data.len(),
        data.subrange(pos, pos + ser_fields(fields, vals, k).len()) == ser_fields(fields, vals, k),
    ensures
        dec_fields(fields, data, pos, k) == Ok::<(Seq<SpecValue>, int), DecodeError>(
            (vals.skip(k), pos + ser_fields(fields, vals, k).len()),
        ),
    decreases fields, fields.len() - k,
{
    if k == fields.len() {
        assert(vals.skip(k) =~= Seq::<SpecValue>::empty());
    } else {
        let head = ser_ty(fields[k].ty, vals[k]);
        let rest = ser_fields(fields, vals, k + 1);
        assert(ser_fields(fields, vals, k) == head + rest);
        lemma_subrange_split(data, pos, head, rest);
        lemma_round_trip_ty(fields[k].ty, vals[k], data, pos);
        lemma_round_trip_fields(fields, vals, data, pos + head.len(), k + 1);
        assert(vals.skip(k) =~= seq![vals[k]] + vals.skip(k + 1));
    }
}

/// Round trip for one field.
pub proof fn lemma_round_trip_ty(t: FieldTy, v: SpecValue, data: Seq<u8>, pos: int)
    requires
        valid_ty(t),
        conforms_ty(v, t),
        unambiguous_ty(v, t),
        0 <= pos,
        pos + ser_ty(t, v).len() <= data.len(),
        data.subrange(pos, pos + ser_ty(t, v).len()) == ser_ty(t, v),
    ensures
        dec_ty(t, data, pos) == Ok::<(SpecValue, int), DecodeError>(
            (v, pos + ser_ty(t, v).len()),
        ),
    decreases t, 1nat,
{
    match t {
        FieldTy::Leaf(w) => {
            let n = v->Uint_0;
            lemma_spec_be_len(w.spec_bytes(), n as nat);
            lemma_be_val_spec_be(w.spec_bytes(), n as nat);
            lemma_small_mod(n as nat, crate::bytes::pow256(w.spec_bytes()));
        },
        FieldTy::Nested(inner) => {
            lemma_round_trip(*inner, v, data, pos);
        },
    }
}

/// Round trip over the exact serialized bytes alone.
pub proof fn lemma_round_trip_exact(s: Shape, v: SpecValue)
    requires
        valid_shape(s),
        conforms(v, s),
        unambiguous(v, s),
    ensures
        dec_value(s, ser_value(s, v), 0) == Ok::<(SpecValue, int), DecodeError>(
            (v, ser_value(s, v).len() as int),
        ),
{
    let bytes = ser_value(s, v);
    assert(bytes.subrange(0, bytes.len() as int) =~= bytes);
    lemma_round_trip(s, v, bytes, 0);
}

/// Discriminant fidelity: serializing an instance of a variant writes the
/// variant's declared discriminant value, cast to the declared width, as
/// the first bytes on the wire, and decoding the whole yields the same
/// variant with the same payload back.
pub proof fn lemma_discriminant_fidelity(
    w: IntWidth,
    variants: Vec<Variant>,
    idx: int,
    vals: Seq<SpecValue>,
)
    requires
        valid_shape((Shape::Sum { disc: Some(w), variants })),
        conforms(SpecValue::Case(idx, vals), (Shape::Sum { disc: Some(w), variants })),
        unambiguous(SpecValue::Case(idx, vals), (Shape::Sum { disc: Some(w), variants })),
    ensures
        ({
            let s = (Shape::Sum { disc: Some(w), variants });
            let v = SpecValue::Case(idx, vals);
            let d = variants@[idx].disc_value;
            &&& ser_value(s, v).take(w.spec_bytes() as int) == spec_be(w.spec_bytes(), d as nat)
            &&& dec_value(s, ser_value(s, v), 0) == Ok::<(SpecValue, int), DecodeError>(
                (v, ser_value(s, v).len() as int),
            )
        }),
{
    let s = (Shape::Sum { disc: Some(w), variants });
    let v = SpecValue::Case(idx, vals);
    let d = variants@[idx].disc_value;
    lemma_spec_be_len(w.spec_bytes(), d as nat);
    assert(ser_value(s, v).take(w.spec_bytes() as int) =~= spec_be(w.spec_bytes(), d as nat));
    lemma_round_trip_exact(s, v);
}

/// A successful field decode yields one value per remaining field.
pub proof fn lemma_dec_fields_len(fields: Seq<Field>, data: Seq<u8>, pos: int, k: int)
    requires
        0 <= k <= fields.len(),
        dec_fields(fields, data, pos, k) is Ok,
    ensures
        (dec_fields(fields, data, pos, k)->Ok_0).0.len() == fields.len() - k,
    decreases fields, fields.len() - k,
{
    if k < fields.len() {
        let (v, p) = dec_ty(fields[k].ty, data, pos)->Ok_0;
        lemma_dec_fields_len(fields, data, p, k + 1);
    }
}

/// A successful decode is exact: the value read conforms to the shape, the
/// position moved forward and no further than the end, and serializing the
/// value reproduces precisely the bytes consumed — deserialize reads
/// exactly the bytes a matching serialize would have written.
pub proof fn lemma_decode_exact(s: Shape, data: Seq<u8>, pos: int)
    requires
        valid_shape(s),
        0 <= pos <= data.len(),
        dec_value(s, data, pos) is Ok,
    ensures
        ({
            let (v, p) = dec_value(s, data, pos)->Ok_0;
            &&& conforms(v, s)
            &&& pos <= p <= data.len()
            &&& ser_value(s, v) == data.subrange(pos, p)
        }),
    decreases s, 2nat,
{
    match s {
        Shape::Product(fields) => {
            let (vs, p) = dec_fields(fields@, data, pos, 0)->Ok_0;
            lemma_dec_fields_len(fields@, data, pos, 0);
            assert(vs.skip(0) =~= vs);
            lemma_decode_exact_fields(fields@, vs, data, pos, 0);
        },
        Shape::Sum { disc, variants } => {
            let w = disc->0;
            let kd = w.spec_bytes() as int;
            let sub = data.subrange(pos, pos + kd);
            let d = be_val(sub) as u128;
            let j = find_variant(variants@, d, 0);
            crate::codec::lemma_find_variant_range(variants@, d, 0);
            let (vs, p) = dec_fields(variants@[j].fields@, data, pos + kd, 0)->Ok_0;
            lemma_dec_fields_len(variants@[j].fields@, data, pos + kd, 0);
            assert(vs.skip(0) =~= vs);
            lemma_decode_exact_fields(variants@[j].fields@, vs, data, pos + kd, 0);
            // The discriminant read back fits a `u128`, so the widening cast
            // in the decoded condition loses nothing.
            lemma_be_val_bound(sub);
            crate::bytes::lemma_pow256_increases(sub.len(), 16);
            crate::bytes::lemma_pow256_16();
            assert(d as nat == be_val(sub));
            lemma_spec_be_be_val(sub);
            assert(spec_be(w.spec_bytes(), d as nat) == sub);
            assert(data.subrange(pos, p) =~= sub + data.subrange(pos + kd, p));
        },
        Shape::Union => {},
    }
}

/// Decode exactness for the fields from index `k` on: `vals` carries the
/// decoded values at the fields' own indices.
pub proof fn lemma_decode_exact_fields(
    fields: Seq<Field>,
    vals: Seq<SpecValue>,
    data: Seq<u8>,
    pos: int,
    k: int,
)
    requires
        valid_fields(fields),
        0 <= k <= fields.len(),
        0 <= pos <= data.len(),
        vals.len() == fields.len(),
        dec_fields(fields, data, pos, k) is Ok,
        (dec_fields(fields, data, pos, k)->Ok_0).0 == vals.skip(k),
    ensures
        ({
            let (vs, p) = dec_fields(fields, data, pos, k)->Ok_0;
            &&& pos <= p <= data.len()
            &&& forall|i: int|
                k <= i < fields.len() ==> conforms_ty(#[trigger] vals[i], fields[i].ty)
            &&& ser_fields(fields, vals, k) == data.subrange(pos, p)
        }),
    decreases fields, fields.len() - k,
{
    if k == fields.len() {
        assert(ser_fields(fields, vals, k) =~= data.subrange(pos, pos));
    } else {
        let (v0, p1) = dec_ty(fields[k].ty, data, pos)->Ok_0;
        let (vs1, p) = dec_fields(fields, data, p1, k + 1)->Ok_0;
        assert((seq![v0] + vs1)[0] == v0);
        assert(vals[k] == v0);
        assert(vals.skip(k).len() == vs1.len() + 1);
        assert forall|i: int| 0 <= i < vs1.len() implies vals.skip(k + 1)[i] == vs1[i] by {
            assert(vals.skip(k)[i + 1] == (seq![v0] + vs1)[i + 1]);
            assert(vals.skip(k)[i + 1] == vals[k + 1 + i]);
            assert(vals.skip(k + 1)[i] == vals[k + 1 + i]);
        }
        assert(vals.skip(k + 1) =~= vs1);
        lemma_decode_exact_ty(fields[k].ty, data, pos);
        lemma_decode_exact_fields(fields, vals, data, p1, k + 1);
        assert(ser_fields(fields, vals, k) =~= data.subrange(pos, p));
    }
}

/// Decode exactness for one field.
pub proof fn lemma_decode_exact_ty(t: FieldTy, data: Seq<u8>, pos: int)
    requires
        valid_ty(t),
        0 <= pos <= data.len(),
        dec_ty(t, data, pos) is Ok,
    ensures
        ({
            let (v, p) = dec_ty(t, data, pos)->Ok_0;
            &&& conforms_ty(v, t)
            &&& pos <= p <= data.len()
            &&& ser_ty(t, v) == data.subrange(pos, p)
        }),
    decreases t, 1nat,
{
    match t {
        FieldTy::Leaf(w) => {
            let kd = w.spec_bytes() as int;
            let sub = data.subrange(pos, pos + kd);
            lemma_be_val_bound(sub);
            crate::bytes::lemma_pow256_increases(sub.len(), 16);
            crate::bytes::lemma_pow256_16();
            lemma_spec_be_be_val(sub);
        },
        FieldTy::Nested(inner) => {
            lemma_decode_exact(*inner, data, pos);
        },
    }
}

/// No declared variant matches `d` from index `k` on, so none is found.
pub proof fn lemma_find_variant_none(variants: Seq<Variant>, d: u128, k: int)
    requires
        forall|i: int| k <= i < variants.len() ==> #[trigger] variants[i].disc_value != d,
    ensures
        find_variant(variants, d, k) == -1,
    decreases variants.len() - k,
{
    if 0 <= k < variants.len() {
        lemma_find_variant_none(variants, d, k + 1);
    }
}

/// Bad-discriminant rejection: when the bytes at the read position carry
/// a discriminant value that no variant declares, decoding fails with the
/// bad-discriminant condition, and the condition carries exactly the raw
/// value read.
pub proof fn lemma_bad_discriminant(w: IntWidth, variants: Vec<Variant>, data: Seq<u8>, pos: int)
    requires
        0 <= pos,
        pos + w.spec_bytes() <= data.len(),
        forall|i: int|
            0 <= i < variants@.len() ==> #[trigger] variants@[i].disc_value != (be_val(
                data.subrange(pos, pos + w.spec_bytes()),
            ) as u128),
    ensures
        dec_value((Shape::Sum { disc: Some(w), variants }), data, pos) == Err::<
            (SpecValue, int),
            DecodeError,
        >(DecodeError::BadDiscriminant(be_val(data.subrange(pos, pos + w.spec_bytes())) as u128)),
{
    let d = be_val(data.subrange(pos, pos + w.spec_bytes())) as u128;
    lemma_find_variant_none(variants@, d, 0);
}

/// Field order is observable: a two-field product and the product with
/// the two fields permuted serialize the same two values to the two
/// concatenations in the two orders — so the wire bytes change under the
/// permutation exactly when those concatenations differ (as they do
/// whenever, say, the two encodings have different widths and the bytes
/// are not all equal).
pub proof fn lemma_field_order_observable(f0: Field, f1: Field, v0: SpecValue, v1: SpecValue)
    ensures
        ser_fields(seq![f0, f1], seq![v0, v1], 0) == ser_ty(f0.ty, v0) + ser_ty(f1.ty, v1),
        ser_fields(seq![f1, f0], seq![v1, v0], 0) == ser_ty(f1.ty, v1) + ser_ty(f0.ty, v0),
{
    reveal_with_fuel(ser_fields, 3);
    assert(ser_fields(seq![f0, f1], seq![v0, v1], 0) =~= ser_ty(f0.ty, v0) + ser_ty(f1.ty, v1));
    assert(ser_fields(seq![f1, f0], seq![v1, v0], 0) =~= ser_ty(f1.ty, v1) + ser_ty(f0.ty, v0));
}

} // verus!
