//! The generated codec: serialize, deserialize and length over a validated
//! shape descriptor.
//!
//! The wire format is the only bit-exact contract: a product is the
//! concatenation of its fields' encodings in declaration order, with no
//! framing; a sum is its discriminant, cast to the declared width, followed
//! by the active variant's fields. [`ser_value`], [`len_value`] and
//! [`dec_value`] state that format mathematically, and [`Codec`]'s three
//! operations are proved to follow them exactly.

use vstd::prelude::*;
use crate::bytes::{be_val, pow256, push_be, read_be, spec_be, lemma_spec_be_len};
use crate::shape::{Field, FieldTy, Shape, Variant, GenError, spec_validate, valid_shape, valid_fields, valid_ty, validate};
use crate::value::{
    conforms, conforms_fields, conforms_ty, deep_view_seq, lemma_deep_view_seq, SpecValue, Value,
};

verus! {

/// The sink refused further bytes: the write failed.
#[derive(Clone, Copy, Debug, PartialEq, Eq)]
pub struct IoError;

/// Why a decode failed: the source ran out of bytes, or the discriminant
/// read for a sum type matches no declared variant — the raw value read is
/// carried, widened, so the caller can report the offending byte pattern.
#[derive(Clone, Copy, Debug, PartialEq, Eq)]
pub enum DecodeError {
    UnexpectedEnd,
    BadDiscriminant(u128),
}

// ---------------------------------------------------------------------------
// The wire format, stated mathematically.
// ---------------------------------------------------------------------------

/// The bytes a serialize call emits for value `v` of shape `s`: field
/// encodings concatenated in declaration order, a sum's discriminant first,
/// cast to the declared width.
pub open spec fn ser_value(s: Shape, v: SpecValue) -> Seq<u8>
    decreases s, 1nat,
{
    match s {
        Shape::Product(fields) => match v {
            SpecValue::Record(vals) => ser_fields(fields@, vals, 0),
            _ => Seq::empty(),
        },
        Shape::Sum { disc, variants } => match v {
            SpecValue::Case(idx, vals) => match disc {
                Some(w) => {
                    if 0 <= idx < variants@.len() {
                        spec_be(w.spec_bytes(), variants@[idx].disc_value as nat) + ser_fields(
                            variants@[idx].fields@,
                            vals,
                            0,
                        )
                    } else {
                        Seq::empty()
                    }
                },
                None => Seq::empty(),
            },
            _ => Seq::empty(),
        },
        Shape::Union => Seq::empty(),
    }
}

/// The bytes of the fields from index `k` on, in declaration order.
pub open spec fn ser_fields(fields: Seq<Field>, vals: Seq<SpecValue>, k: int) -> Seq<u8>
    decreases fields, fields.len() - k,
{
    if k < 0 || k >= fields.len() {
        Seq::empty()
    } else {
        ser_ty(fields[k].ty, vals[k]) + ser_fields(fields, vals, k + 1)
    }
}

/// The bytes of one field: a big-endian integer at a leaf, the nested
/// shape's encoding otherwise.
pub open spec fn ser_ty(t: FieldTy, v: SpecValue) -> Seq<u8>
    decreases t, 1nat,
{
    match t {
        FieldTy::Leaf(w) => match v {
            SpecValue::Uint(n) => spec_be(w.spec_bytes(), n as nat),
            _ => Seq::empty(),
        },
        FieldTy::Nested(inner) => ser_value(*inner, v),
    }
}

/// The byte count the length operation reports: the sum of the fields'
/// lengths, plus the discriminant's width for a sum. Never touches a sink
/// or source.
pub open spec fn len_value(s: Shape, v: SpecValue) -> nat
    decreases s, 1nat,
{
    match s {
        Shape::Product(fields) => match v {
            SpecValue::Record(vals) => len_fields(fields@, vals, 0),
            _ => 0,
        },
        Shape::Sum { disc, variants } => match v {
            SpecValue::Case(idx, vals) => match disc {
                Some(w) => {
                    if 0 <= idx < variants@.len() {
                        w.spec_bytes() + len_fields(variants@[idx].fields@, vals, 0)
                    } else {
                        0
                    }
                },
                None => 0,
            },
            _ => 0,
        },
        Shape::Union => 0,
    }
}

/// The summed lengths of the fields from index `k` on.
pub open spec fn len_fields(fields: Seq<Field>, vals: Seq<SpecValue>, k: int) -> nat
    decreases fields, fields.len() - k,
{
    if k < 0 || k >= fields.len() {
        0
    } else {
        len_ty(fields[k].ty, vals[k]) + len_fields(fields, vals, k + 1)
    }
}

/// The length of one field's encoding.
pub open spec fn len_ty(t: FieldTy, v: SpecValue) -> nat
    decreases t, 1nat,
{
    match t {
        FieldTy::Leaf(w) => match v {
            SpecValue::Uint(_) => w.spec_bytes(),
            _ => 0,
        },
        FieldTy::Nested(inner) => len_value(*inner, v),
    }
}

/// Length fidelity: the reported length is the exact byte count a
/// serialize call emits, for every shape and value.
pub proof fn lemma_length_fidelity(s: Shape, v: SpecValue)
    ensures
        len_value(s, v) == ser_value(s, v).len(),
    decreases s, 1nat,
{
    match s {
        Shape::Product(fields) => match v {
            SpecValue::Record(vals) => lemma_length_fidelity_fields(fields@, vals, 0),
            _ => {},
        },
        Shape::Sum { disc, variants } => match v {
            SpecValue::Case(idx, vals) => match disc {
                Some(w) => {
                    if 0 <= idx < variants@.len() {
                        lemma_spec_be_len(w.spec_bytes(), variants@[idx].disc_value as nat);
                        lemma_length_fidelity_fields(variants@[idx].fields@, vals, 0);
                    }
                },
                None => {},
            },
            _ => {},
        },
        Shape::Union => {},
    }
}

/// Length fidelity for the fields from index `k` on.
pub proof fn lemma_length_fidelity_fields(fields: Seq<Field>, vals: Seq<SpecValue>, k: int)
    ensures
        len_fields(fields, vals, k) == ser_fields(fields, vals, k).len(),
    decreases fields, fields.len() - k,
{
    if 0 <= k < fields.len() {
        lemma_length_fidelity_ty(fields[k].ty, vals[k]);
        lemma_length_fidelity_fields(fields, vals, k + 1);
    }
}

/// Length fidelity for one field.
pub proof fn lemma_length_fidelity_ty(t: FieldTy, v: SpecValue)
    ensures
        len_ty(t, v) == ser_ty(t, v).len(),
    decreases t, 1nat,
{
    match t {
        FieldTy::Leaf(w) => match v {
            SpecValue::Uint(n) => lemma_spec_be_len(w.spec_bytes(), n as nat),
            _ => {},
        },
        FieldTy::Nested(inner) => lemma_length_fidelity(*inner, v),
    }
}

// ---------------------------------------------------------------------------
// Decoding, stated mathematically.
// ---------------------------------------------------------------------------

/// The first declared variant whose discriminant value equals `d`, from
/// index `k` on; `-1` if none matches.
pub open spec fn find_variant(variants: Seq<Variant>, d: u128, k: int) -> int
    decreases variants.len() - k,
{
    if k < 0 || k >= variants.len() {
        -1
    } else if variants[k].disc_value == d {
        k
    } else {
        find_variant(variants, d, k + 1)
    }
}

/// A found variant index lies within the declared list.
pub proof fn lemma_find_variant_range(variants: Seq<Variant>, d: u128, k: int)
    ensures
        find_variant(variants, d, k) == -1 || (0 <= find_variant(variants, d, k)
            < variants.len() && variants[find_variant(variants, d, k)].disc_value == d),
    decreases variants.len() - k,
{
    if 0 <= k < variants.len() && variants[k].disc_value != d {
        lemma_find_variant_range(variants, d, k + 1);
    }
}

/// The exact outcome of decoding a value of shape `s` from `data` at
/// `pos`: the value and the position after it, or the first failure — the
/// source ending too early, or a sum discriminant matching no variant.
/// A sum reads its discriminant at the declared width first and compares
/// it, widened, against each variant's declared value in declaration
/// order; the first match wins.
pub open spec fn dec_value(s: Shape, data: Seq<u8>, pos: int) -> Result<
    (SpecValue, int),
    DecodeError,
>
    decreases s, 1nat,
    via dec_value_decreases
{
    match s {
        Shape::Product(fields) => match dec_fields(fields@, data, pos, 0) {
            Ok((vals, p)) => Ok((SpecValue::Record(vals), p)),
            Err(e) => Err(e),
        },
        Shape::Sum { disc, variants } => match disc {
            Some(w) => {
                let k = w.spec_bytes();
                if pos < 0 || pos + k > data.len() {
                    Err(DecodeError::UnexpectedEnd)
                } else {
                    let d = be_val(data.subrange(pos, pos + k)) as u128;
                    let j = find_variant(variants@, d, 0);
                    if j < 0 {
                        Err(DecodeError::BadDiscriminant(d))
                    } else {
                        match dec_fields(variants@[j].fields@, data, pos + k, 0) {
                            Ok((vals, p)) => Ok((SpecValue::Case(j, vals), p)),
                            Err(e) => Err(e),
                        }
                    }
                }
            },
            None => Err(DecodeError::UnexpectedEnd),
        },
        Shape::Union => Err(DecodeError::UnexpectedEnd),
    }
}

#[via_fn]
proof fn dec_value_decreases(s: Shape, data: Seq<u8>, pos: int) {
    match s {
        Shape::Sum { disc, variants } => match disc {
            Some(w) => {
                let k = w.spec_bytes();
                if !(pos < 0 || pos + k > data.len()) {
                    let d = be_val(data.subrange(pos, pos + k)) as u128;
                    lemma_find_variant_range(variants@, d, 0);
                }
            },
            None => {},
        },
        _ => {},
    }
}

/// Decodes the fields from index `k` on, in declaration order, each at the
/// position the previous one ended.
pub open spec fn dec_fields(fields: Seq<Field>, data: Seq<u8>, pos: int, k: int) -> Result<
    (Seq<SpecValue>, int),
    DecodeError,
>
    decreases fields, fields.len() - k,
{
    if k < 0 || k >= fields.len() {
        Ok((Seq::empty(), pos))
    } else {
        match dec_ty(fields[k].ty, data, pos) {
            Err(e) => Err(e),
            Ok((v, p)) => match dec_fields(fields, data, p, k + 1) {
                Err(e) => Err(e),
                Ok((vs, p2)) => Ok((seq![v] + vs, p2)),
            },
        }
    }
}

/// Decodes one field.
pub open spec fn dec_ty(t: FieldTy, data: Seq<u8>, pos: int) -> Result<
    (SpecValue, int),
    DecodeError,
>
    decreases t, 1nat,
{
    match t {
        FieldTy::Leaf(w) => {
            let k = w.spec_bytes();
            if pos < 0 || pos + k > data.len() {
                Err(DecodeError::UnexpectedEnd)
            } else {
                Ok((SpecValue::Uint(be_val(data.subrange(pos, pos + k)) as u128), pos + k))
            }
        },
        FieldTy::Nested(inner) => dec_value(*inner, data, pos),
    }
}

/// Serializing `v` and decoding the bytes yields `v` back only if, at
/// every sum node along the value, the active variant's discriminant fits
/// the declared width (the cast loses nothing) and no earlier variant
/// declares the same discriminant value (the first match is this one).
/// Discriminant values need not be unique in general — decode takes the
/// first declared match — so this is the condition under which the round
/// trip is exact.
pub open spec fn unambiguous(v: SpecValue, s: Shape) -> bool
    decreases s, 0nat,
{
    match s {
        Shape::Product(fields) => match v {
            SpecValue::Record(vals) => unambiguous_fields(vals, fields@),
            _ => true,
        },
        Shape::Sum { disc, variants } => match (v, disc) {
            (SpecValue::Case(idx, vals), Some(w)) => {
                &&& 0 <= idx < variants@.len()
                &&& (variants@[idx].disc_value as nat) < pow256(w.spec_bytes())
                &&& find_variant(variants@, variants@[idx].disc_value, 0) == idx
                &&& unambiguous_fields(vals, variants@[idx].fields@)
            },
            _ => true,
        },
        Shape::Union => true,
    }
}

/// Every field's value is unambiguous for its type.
pub open spec fn unambiguous_fields(vals: Seq<SpecValue>, fields: Seq<Field>) -> bool
    decreases fields, 0nat,
{
    forall|i: int| 0 <= i < fields.len() ==> unambiguous_ty(#[trigger] vals[i], fields[i].ty)
}

/// Unambiguity of one field's value.
pub open spec fn unambiguous_ty(v: SpecValue, t: FieldTy) -> bool
    decreases t, 0nat,
{
    match t {
        FieldTy::Leaf(_) => true,
        FieldTy::Nested(inner) => unambiguous(v, *inner),
    }
}

// ---------------------------------------------------------------------------
// The byte sink and the byte source.
// ---------------------------------------------------------------------------

/// A byte sink of fixed capacity. Writes append; a write that would
/// exceed the capacity fails without appending, which is how an exhausted
/// or disconnected stream shows up to the codec.
pub struct Sink {
    data: Vec<u8>,
    cap: usize,
}

impl Sink {
    /// All bytes accepted so far.
    pub closed spec fn contents(&self) -> Seq<u8> {
        self.data@
    }

    /// The byte budget: a write past it fails.
    pub closed spec fn capacity(&self) -> nat {
        self.cap as nat
    }

    /// The sink never holds more than its capacity.
    pub open spec fn wf(&self) -> bool {
        self.contents().len() <= self.capacity()
    }

    /// An empty sink that will accept `cap` bytes.
    pub fn new(cap: usize) -> (r: Sink)
        ensures
            r.wf(),
            r.contents() == Seq::<u8>::empty(),
            r.capacity() == cap,
    {
        Sink { data: Vec::new(), cap }
    }

    /// Appends the `k`-byte big-endian encoding of `n`: all of it, or —
    /// when it would not fit — nothing.
    fn write_uint(&mut self, k: usize, n: u128) -> (r: Result<u32, IoError>)
        requires
            old(self).wf(),
            k <= 16,
        ensures
            final(self).wf(),
            final(self).capacity() == old(self).capacity(),
            r is Ok <==> old(self).contents().len() + k <= old(self).capacity(),
            r matches Ok(c) ==> final(self).contents() == old(self).contents() + spec_be(
                k as nat,
                n as nat,
            ) && c == k,
            r is Err ==> final(self).contents() == old(self).contents(),
    {
        if self.cap - self.data.len() < k {
            Err(IoError)
        } else {
            push_be(k, n, &mut self.data);
            proof {
                lemma_spec_be_len(k as nat, n as nat);
            }
            Ok(k as u32)
        }
    }

    /// The bytes accepted so far.
    pub fn bytes(&self) -> (r: &Vec<u8>)
        ensures
            r@ == self.contents(),
    {
        &self.data
    }
}

/// A byte source: a byte string and a read position that only moves
/// forward. Reads past the end fail and report the end of the input.
pub struct Source {
    data: Vec<u8>,
    pos: usize,
}

impl Source {
    /// The whole underlying byte string; reading does not change it.
    pub closed spec fn contents(&self) -> Seq<u8> {
        self.data@
    }

    /// The position the next read starts at.
    pub closed spec fn position(&self) -> nat {
        self.pos as nat
    }

    /// The position never passes the end.
    pub open spec fn wf(&self) -> bool {
        self.position() <= self.contents().len()
    }

    /// A source over `data`, positioned at its start.
    pub fn new(data: Vec<u8>) -> (r: Source)
        ensures
            r.wf(),
            r.contents() == data@,
            r.position() == 0,
    {
        Source { data, pos: 0 }
    }

    /// The position the next read starts at.
    pub fn pos(&self) -> (r: usize)
        ensures
            r == self.position(),
    {
        self.pos
    }

    /// Reads `k` bytes as a big-endian number, advancing the position, or
    /// fails — moving nothing — when fewer than `k` bytes remain.
    fn read_uint(&mut self, k: usize) -> (r: Result<u128, DecodeError>)
        requires
            old(self).wf(),
            k <= 16,
        ensures
            final(self).wf(),
            final(self).contents() == old(self).contents(),
            r is Ok <==> old(self).position() + k <= old(self).contents().len(),
            r matches Ok(n) ==> n as nat == be_val(
                old(self).contents().subrange(
                    old(self).position() as int,
                    old(self).position() + k,
                ),
            ) && final(self).position() == old(self).position() + k,
            r is Err ==> r == Err::<u128, DecodeError>(DecodeError::UnexpectedEnd)
                && final(self).position() == old(self).position(),
    {
        if self.data.len() - self.pos < k {
            Err(DecodeError::UnexpectedEnd)
        } else {
            let n = read_be(&self.data, self.pos, k);
            self.pos = self.pos + k;
            Ok(n)
        }
    }
}

// ---------------------------------------------------------------------------
// Serialization.
// ---------------------------------------------------------------------------

/// Serializes `v` against shape `s` into the sink: exactly the bytes
/// [`ser_value`] names, all or a failure after a prefix of them.
fn write_value(s: &Shape, v: &Value, sink: &mut Sink) -> (r: Result<u32, IoError>)
    requires
        valid_shape(*s),
        conforms(v.deep_view(), *s),
        len_value(*s, v.deep_view()) <= u32::MAX,
        old(sink).wf(),
    ensures
        final(sink).wf(),
        final(sink).capacity() == old(sink).capacity(),
        r is Ok <==> old(sink).contents().len() + len_value(*s, v.deep_view()) <= old(
            sink,
        ).capacity(),
        r matches Ok(c) ==> final(sink).contents() == old(sink).contents() + ser_value(
            *s,
            v.deep_view(),
        ) && c == len_value(*s, v.deep_view()),
        r is Err ==> ({
            let full = ser_value(*s, v.deep_view());
            let written = final(sink).contents().len() - old(sink).contents().len();
            0 <= written <= full.len() && final(sink).contents() == old(sink).contents()
                + full.take(written)
        }),
    decreases *s, 2nat,
{
    proof {
        lemma_length_fidelity(*s, v.deep_view());
    }
    match s {
        Shape::Product(fields) => match v {
            Value::Record(vals) => write_fields(fields, vals, 0, sink),
            _ => {
                proof {
                    assert(false);
                }
                Err(IoError)
            },
        },
        Shape::Sum { disc, variants } => match v {
            Value::Case(idx, vals) => {
                let w = match disc {
                    Some(w) => *w,
                    None => {
                        proof {
                            assert(false);
                        }
                        crate::shape::IntWidth::U8
                    },
                };
                let variant = &variants[*idx];
                let ghost full = ser_value(*s, v.deep_view());
                let ghost head = spec_be(w.spec_bytes(), variant.disc_value as nat);
                let ghost rest = ser_fields(variant.fields@, deep_view_seq(vals@), 0);
                proof {
                    assert(full =~= head + rest);
                    lemma_spec_be_len(w.spec_bytes(), variant.disc_value as nat);
                    lemma_length_fidelity_fields(variant.fields@, deep_view_seq(vals@), 0);
                }
                match sink.write_uint(w.bytes(), variant.disc_value) {
                    Err(e) => {
                        proof {
                            assert(final(sink).contents() =~= old(sink).contents() + full.take(0));
                        }
                        Err(e)
                    },
                    Ok(c1) => {
                        match write_fields(&variant.fields, vals, 0, sink) {
                            Err(e) => {
                                proof {
                                    let d = final(sink).contents().len() - old(
                                        sink,
                                    ).contents().len();
                                    assert(final(sink).contents() =~= old(sink).contents()
                                        + full.take(d));
                                }
                                Err(e)
                            },
                            Ok(c2) => {
                                proof {
                                    assert(final(sink).contents() =~= old(sink).contents() + full);
                                }
                                Ok(c1 + c2)
                            },
                        }
                    },
                }
            },
            _ => {
                proof {
                    assert(false);
                }
                Err(IoError)
            },
        },
        Shape::Union => {
            proof {
                assert(false);
            }
            Err(IoError)
        },
    }
}

/// Serializes the fields from index `k` on, in declaration order.
fn write_fields(fields: &Vec<Field>, vals: &Vec<Value>, k: usize, sink: &mut Sink) -> (r: Result<
    u32,
    IoError,
>)
    requires
        valid_fields(fields@),
        conforms_fields(deep_view_seq(vals@), fields@),
        k <= fields@.len(),
        len_fields(fields@, deep_view_seq(vals@), k as int) <= u32::MAX,
        old(sink).wf(),
    ensures
        final(sink).wf(),
        final(sink).capacity() == old(sink).capacity(),
        r is Ok <==> old(sink).contents().len() + len_fields(
            fields@,
            deep_view_seq(vals@),
            k as int,
        ) <= old(sink).capacity(),
        r matches Ok(c) ==> final(sink).contents() == old(sink).contents() + ser_fields(
            fields@,
            deep_view_seq(vals@),
            k as int,
        ) && c == len_fields(fields@, deep_view_seq(vals@), k as int),
        r is Err ==> ({
            let full = ser_fields(fields@, deep_view_seq(vals@), k as int);
            let written = final(sink).contents().len() - old(sink).contents().len();
            0 <= written <= full.len() && final(sink).contents() == old(sink).contents()
                + full.take(written)
        }),
    decreases fields@, fields@.len() - k,
{
    proof {
        lemma_deep_view_seq(vals@);
    }
    if k == fields.len() {
        proof {
            assert(final(sink).contents() =~= old(sink).contents() + ser_fields(
                fields@,
                deep_view_seq(vals@),
                k as int,
            ));
        }
        Ok(0)
    } else {
        let ghost dvs = deep_view_seq(vals@);
        let ghost full = ser_fields(fields@, dvs, k as int);
        let ghost head = ser_ty(fields@[k as int].ty, dvs[k as int]);
        let ghost rest = ser_fields(fields@, dvs, k as int + 1);
        proof {
            assert(full =~= head + rest);
            lemma_length_fidelity_ty(fields@[k as int].ty, dvs[k as int]);
            lemma_length_fidelity_fields(fields@, dvs, k as int + 1);
        }
        match write_ty(&fields[k].ty, &vals[k], sink) {
            Err(e) => {
                proof {
                    let d = final(sink).contents().len() - old(sink).contents().len();
                    assert(final(sink).contents() =~= old(sink).contents() + full.take(d));
                }
                Err(e)
            },
            Ok(c1) => {
                match write_fields(fields, vals, k + 1, sink) {
                    Err(e) => {
                        proof {
                            let d = final(sink).contents().len() - old(sink).contents().len();
                            assert(final(sink).contents() =~= old(sink).contents() + full.take(d));
                        }
                        Err(e)
                    },
                    Ok(c2) => {
                        proof {
                            assert(final(sink).contents() =~= old(sink).contents() + full);
                        }
                        Ok(c1 + c2)
                    },
                }
            },
        }
    }
}

/// Serializes one field.
fn write_ty(t: &FieldTy, v: &Value, sink: &mut Sink) -> (r: Result<u32, IoError>)
    requires
        valid_ty(*t),
        conforms_ty(v.deep_view(), *t),
        len_ty(*t, v.deep_view()) <= u32::MAX,
        old(sink).wf(),
    ensures
        final(sink).wf(),
        final(sink).capacity() == old(sink).capacity(),
        r is Ok <==> old(sink).contents().len() + len_ty(*t, v.deep_view()) <= old(
            sink,
        ).capacity(),
        r matches Ok(c) ==> final(sink).contents() == old(sink).contents() + ser_ty(
            *t,
            v.deep_view(),
        ) && c == len_ty(*t, v.deep_view()),
        r is Err ==> ({
            let full = ser_ty(*t, v.deep_view());
            let written = final(sink).contents().len() - old(sink).contents().len();
            0 <= written <= full.len() && final(sink).contents() == old(sink).contents()
                + full.take(written)
        }),
    decreases *t, 1nat,
{
    match t {
        FieldTy::Leaf(w) => match v {
            Value::Uint(n) => {
                let r = sink.write_uint(w.bytes(), *n);
                proof {
                    lemma_spec_be_len(w.spec_bytes(), *n as nat);
                    if r is Err {
                        assert(final(sink).contents() =~= old(sink).contents() + ser_ty(
                            *t,
                            v.deep_view(),
                        ).take(0));
                    }
                }
                r
            },
            _ => {
                proof {
                    assert(false);
                }
                Err(IoError)
            },
        },
        FieldTy::Nested(inner) => write_value(&**inner, v, sink),
    }
}

// ---------------------------------------------------------------------------
// Deserialization.
// ---------------------------------------------------------------------------

/// Decodes a value of shape `s` from the source: exactly what
/// [`dec_value`] names, value, end position and failure alike.
fn read_value(s: &Shape, src: &mut Source) -> (r: Result<Value, DecodeError>)
    requires
        valid_shape(*s),
        old(src).wf(),
    ensures
        final(src).wf(),
        final(src).contents() == old(src).contents(),
        old(src).position() <= final(src).position(),
        r matches Ok(v) ==> dec_value(*s, old(src).contents(), old(src).position() as int)
            == Ok::<(SpecValue, int), DecodeError>((v.deep_view(), final(src).position() as int)),
        r matches Err(e) ==> dec_value(*s, old(src).contents(), old(src).position() as int)
            == Err::<(SpecValue, int), DecodeError>(e),
    decreases *s, 2nat,
{
    match s {
        Shape::Product(fields) => {
            let mut vals: Vec<Value> = Vec::new();
            match read_fields(fields, 0, src, &mut vals) {
                Ok(()) => {
                    proof {
                        assert(vals@.skip(0) =~= vals@);
                    }
                    Ok(Value::Record(vals))
                },
                Err(e) => Err(e),
            }
        },
        Shape::Sum { disc, variants } => {
            let w = match disc {
                Some(w) => *w,
                None => {
                    proof {
                        assert(false);
                    }
                    crate::shape::IntWidth::U8
                },
            };
            match src.read_uint(w.bytes()) {
                Err(e) => Err(e),
                Ok(d) => {
                    match find_variant_exec(variants, d, 0) {
                        None => Err(DecodeError::BadDiscriminant(d)),
                        Some(j) => {
                            let mut vals: Vec<Value> = Vec::new();
                            match read_fields(&variants[j].fields, 0, src, &mut vals) {
                                Ok(()) => {
                                    proof {
                                        assert(vals@.skip(0) =~= vals@);
                                    }
                                    Ok(Value::Case(j, vals))
                                },
                                Err(e) => Err(e),
                            }
                        },
                    }
                },
            }
        },
        Shape::Union => {
            proof {
                assert(false);
            }
            Err(DecodeError::UnexpectedEnd)
        },
    }
}

/// Decodes the fields from index `k` on, appending the values to `out`.
fn read_fields(fields: &Vec<Field>, k: usize, src: &mut Source, out: &mut Vec<Value>) -> (r: Result<
    (),
    DecodeError,
>)
    requires
        valid_fields(fields@),
        k <= fields@.len(),
        old(src).wf(),
    ensures
        final(src).wf(),
        final(src).contents() == old(src).contents(),
        old(src).position() <= final(src).position(),
        r is Ok ==> ({
            &&& final(out)@.len() == old(out)@.len() + (fields@.len() - k)
            &&& final(out)@.take(old(out)@.len() as int) == old(out)@
            &&& dec_fields(fields@, old(src).contents(), old(src).position() as int, k as int)
                == Ok::<(Seq<SpecValue>, int), DecodeError>(
                (
                    deep_view_seq(final(out)@.skip(old(out)@.len() as int)),
                    final(src).position() as int,
                ),
            )
        }),
        r matches Err(e) ==> dec_fields(
            fields@,
            old(src).contents(),
            old(src).position() as int,
            k as int,
        ) == Err::<(Seq<SpecValue>, int), DecodeError>(e),
    decreases fields@, fields@.len() - k,
{
    if k == fields.len() {
        proof {
            assert(out@.take(out@.len() as int) =~= out@);
            assert(out@.skip(out@.len() as int) =~= Seq::<Value>::empty());
        }
        Ok(())
    } else {
        match read_ty(&fields[k].ty, src) {
            Err(e) => Err(e),
            Ok(v) => {
                out.push(v);
                let ghost mid = out@;
                match read_fields(fields, k + 1, src, out) {
                    Err(e) => Err(e),
                    Ok(()) => {
                        proof {
                            let n0 = mid.len() - 1;
                            assert(final(out)@.take(n0) =~= mid.take(n0));
                            assert(mid.take(n0) =~= mid.drop_last());
                            let suffix_all = final(out)@.skip(n0);
                            let suffix_rest = final(out)@.skip(n0 + 1);
                            assert(final(out)@[n0] == mid[n0]);
                            assert(suffix_all =~= seq![v] + suffix_rest);
                            lemma_deep_view_seq(suffix_all);
                            lemma_deep_view_seq(suffix_rest);
                            assert(deep_view_seq(suffix_all) =~= seq![v.deep_view()]
                                + deep_view_seq(suffix_rest));
                        }
                        Ok(())
                    },
                }
            },
        }
    }
}

/// Decodes one field.
fn read_ty(t: &FieldTy, src: &mut Source) -> (r: Result<Value, DecodeError>)
    requires
        valid_ty(*t),
        old(src).wf(),
    ensures
        final(src).wf(),
        final(src).contents() == old(src).contents(),
        old(src).position() <= final(src).position(),
        r matches Ok(v) ==> dec_ty(*t, old(src).contents(), old(src).position() as int)
            == Ok::<(SpecValue, int), DecodeError>((v.deep_view(), final(src).position() as int)),
        r matches Err(e) ==> dec_ty(*t, old(src).contents(), old(src).position() as int)
            == Err::<(SpecValue, int), DecodeError>(e),
    decreases *t, 1nat,
{
    match t {
        FieldTy::Leaf(w) => match src.read_uint(w.bytes()) {
            Ok(n) => Ok(Value::Uint(n)),
            Err(e) => Err(e),
        },
        FieldTy::Nested(inner) => read_value(&**inner, src),
    }
}

/// The first declared variant, from index `k` on, whose discriminant value
/// equals `d`: the executable [`find_variant`].
fn find_variant_exec(variants: &Vec<Variant>, d: u128, k: usize) -> (r: Option<usize>)
    requires
        k <= variants@.len(),
    ensures
        r matches Some(j) ==> j == find_variant(variants@, d, k as int) && k <= j
            < variants@.len(),
        r is None ==> find_variant(variants@, d, k as int) == -1,
    decreases variants@.len() - k,
{
    if k == variants.len() {
        None
    } else if variants[k].disc_value == d {
        Some(k)
    } else {
        find_variant_exec(variants, d, k + 1)
    }
}

// ---------------------------------------------------------------------------
// Length.
// ---------------------------------------------------------------------------

/// The exact serialized byte count of `v` against shape `s`, computed
/// without touching any sink or source.
fn length_value(s: &Shape, v: &Value) -> (r: u32)
    requires
        valid_shape(*s),
        conforms(v.deep_view(), *s),
        len_value(*s, v.deep_view()) <= u32::MAX,
    ensures
        r == len_value(*s, v.deep_view()),
    decreases *s, 2nat,
{
    match s {
        Shape::Product(fields) => match v {
            Value::Record(vals) => length_fields(fields, vals, 0),
            _ => {
                proof {
                    assert(false);
                }
                0
            },
        },
        Shape::Sum { disc, variants } => match v {
            Value::Case(idx, vals) => {
                let w = match disc {
                    Some(w) => *w,
                    None => {
                        proof {
                            assert(false);
                        }
                        crate::shape::IntWidth::U8
                    },
                };
                let variant = &variants[*idx];
                (w.bytes() as u32) + length_fields(&variant.fields, vals, 0)
            },
            _ => {
                proof {
                    assert(false);
                }
                0
            },
        },
        Shape::Union => {
            proof {
                assert(false);
            }
            0
        },
    }
}

/// The summed lengths of the fields from index `k` on.
fn length_fields(fields: &Vec<Field>, vals: &Vec<Value>, k: usize) -> (r: u32)
    requires
        valid_fields(fields@),
        conforms_fields(deep_view_seq(vals@), fields@),
        k <= fields@.len(),
        len_fields(fields@, deep_view_seq(vals@), k as int) <= u32::MAX,
    ensures
        r == len_fields(fields@, deep_view_seq(vals@), k as int),
    decreases fields@, fields@.len() - k,
{
    proof {
        lemma_deep_view_seq(vals@);
    }
    if k == fields.len() {
        0
    } else {
        length_ty(&fields[k].ty, &vals[k]) + length_fields(fields, vals, k + 1)
    }
}

/// The length of one field's encoding.
fn length_ty(t: &FieldTy, v: &Value) -> (r: u32)
    requires
        valid_ty(*t),
        conforms_ty(v.deep_view(), *t),
        len_ty(*t, v.deep_view()) <= u32::MAX,
    ensures
        r == len_ty(*t, v.deep_view()),
    decreases *t, 1nat,
{
    match t {
        FieldTy::Leaf(w) => match v {
            Value::Uint(_) => w.bytes() as u32,
            _ => {
                proof {
                    assert(false);
                }
                0
            },
        },
        FieldTy::Nested(inner) => length_value(&**inner, v),
    }
}

// ---------------------------------------------------------------------------
// The codec itself.
// ---------------------------------------------------------------------------

/// A codec generated for one validated type-shape descriptor. Building it
/// runs the generation-time checks; a `Codec` therefore only ever exists
/// for a descriptor that passed them, and its three operations follow
/// [`ser_value`], [`dec_value`] and [`len_value`] exactly.
pub struct Codec {
    shape: Shape,
}

impl Codec {
    /// The descriptor this codec was generated from.
    pub closed spec fn shape(&self) -> Shape {
        self.shape
    }

    /// A codec only exists for a valid descriptor.
    pub open spec fn wf(&self) -> bool {
        valid_shape(self.shape())
    }

    /// Generates the codec for a descriptor, after checking it against
    /// the generation-time rules: success exactly on valid descriptors,
    /// and otherwise the first rule violation, as [`spec_validate`] names
    /// it. No value is ever encoded against a rejected descriptor.
    pub fn new(shape: Shape) -> (r: Result<Codec, GenError>)
        ensures
            r matches Ok(c) ==> c.shape() == shape && c.wf(),
            r matches Err(e) ==> spec_validate(shape) == Err::<(), GenError>(e),
            r is Ok <==> valid_shape(shape),
    {
        match validate(&shape) {
            Ok(()) => Ok(Codec { shape }),
            Err(e) => Err(e),
        }
    }

    /// Serializes `v` into the sink and returns the byte count written:
    /// exactly the bytes [`ser_value`] names, appended whole when they
    /// fit the sink's remaining capacity; on failure a prefix of them has
    /// been appended and the sink's error is returned unchanged.
    pub fn bin_serialise_into(&self, v: &Value, sink: &mut Sink) -> (r: Result<u32, IoError>)
        requires
            self.wf(),
            conforms(v.deep_view(), self.shape()),
            len_value(self.shape(), v.deep_view()) <= u32::MAX,
            old(sink).wf(),
        ensures
            final(sink).wf(),
            final(sink).capacity() == old(sink).capacity(),
            r is Ok <==> old(sink).contents().len() + len_value(self.shape(), v.deep_view())
                <= old(sink).capacity(),
            r matches Ok(c) ==> final(sink).contents() == old(sink).contents() + ser_value(
                self.shape(),
                v.deep_view(),
            ) && c == len_value(self.shape(), v.deep_view()),
            r is Err ==> ({
                let full = ser_value(self.shape(), v.deep_view());
                let written = final(sink).contents().len() - old(sink).contents().len();
                0 <= written <= full.len() && final(sink).contents() == old(sink).contents()
                    + full.take(written)
            }),
    {
        write_value(&self.shape, v, sink)
    }

    /// Deserializes one value from the source: exactly what [`dec_value`]
    /// names for the source's bytes at its position, both the value read
    /// and the position after it, or the first failure — the source
    /// ending too early, or a discriminant matching no declared variant,
    /// returned with the raw value read.
    pub fn bin_deserialise_from(&self, src: &mut Source) -> (r: Result<Value, DecodeError>)
        requires
            self.wf(),
            old(src).wf(),
        ensures
            final(src).wf(),
            final(src).contents() == old(src).contents(),
            old(src).position() <= final(src).position(),
            r matches Ok(v) ==> dec_value(
                self.shape(),
                old(src).contents(),
                old(src).position() as int,
            ) == Ok::<(SpecValue, int), DecodeError>(
                (v.deep_view(), final(src).position() as int),
            ),
            r matches Err(e) ==> dec_value(
                self.shape(),
                old(src).contents(),
                old(src).position() as int,
            ) == Err::<(SpecValue, int), DecodeError>(e),
    {
        read_value(&self.shape, src)
    }

    /// Decides whether `v` is a well-formed value of this codec's type:
    /// exactly the values serialize accepts.
    pub fn accepts(&self, v: &Value) -> (r: bool)
        requires
            self.wf(),
        ensures
            r == conforms(v.deep_view(), self.shape()),
    {
        crate::value::conforms_value(&self.shape, v)
    }

    /// Reports the exact byte count a serialize call emits for `v`,
    /// without performing any write.
    pub fn serialised_length(&self, v: &Value) -> (r: u32)
        requires
            self.wf(),
            conforms(v.deep_view(), self.shape()),
            len_value(self.shape(), v.deep_view()) <= u32::MAX,
        ensures
            r == len_value(self.shape(), v.deep_view()),
    {
        length_value(&self.shape, v)
    }
}

} // verus!
