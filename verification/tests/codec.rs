use torserde_core::codec::{Codec, DecodeError, Sink, Source};
use torserde_core::shape::{Field, FieldTy, GenError, IntWidth, Shape, Variant};
use torserde_core::value::Value;

fn leaf(name: &str, w: IntWidth) -> Field {
    Field { name: Some(name.to_string()), ty: FieldTy::Leaf(w) }
}

fn positional(w: IntWidth) -> Field {
    Field { name: None, ty: FieldTy::Leaf(w) }
}

fn nested(name: &str, s: Shape) -> Field {
    Field { name: Some(name.to_string()), ty: FieldTy::Nested(Box::new(s)) }
}

fn variant(name: &str, d: u128, fields: Vec<Field>) -> Variant {
    Variant { name: name.to_string(), disc_value: d, fields }
}

/// The sum type of several tests: discriminant width u8, `Red = 0` with an
/// empty payload, `Point = 1` with two u8 fields.
fn red_point() -> Codec {
    Codec::new(Shape::Sum {
        disc: Some(IntWidth::U8),
        variants: vec![
            variant("Red", 0, vec![]),
            variant("Point", 1, vec![leaf("x", IntWidth::U8), leaf("y", IntWidth::U8)]),
        ],
    })
    .unwrap()
}

#[test]
fn product_u8_u16_serializes_concatenated() {
    let codec = Codec::new(Shape::Product(vec![
        leaf("a", IntWidth::U8),
        leaf("b", IntWidth::U16),
    ]))
    .unwrap();
    let value = Value::Record(vec![Value::Uint(7), Value::Uint(300)]);
    assert!(codec.accepts(&value));
    assert_eq!(codec.serialised_length(&value), 3);
    let mut sink = Sink::new(16);
    assert_eq!(codec.bin_serialise_into(&value, &mut sink), Ok(3));
    assert_eq!(sink.bytes().as_slice(), &[7, 1, 44]);
    let mut src = Source::new(vec![7, 1, 44]);
    assert_eq!(codec.bin_deserialise_from(&mut src), Ok(value));
    assert_eq!(src.pos(), 3);
}

#[test]
fn sum_point_serializes_discriminant_then_payload() {
    let codec = red_point();
    let point = Value::Case(1, vec![Value::Uint(5), Value::Uint(9)]);
    assert_eq!(codec.serialised_length(&point), 3);
    let mut sink = Sink::new(8);
    assert_eq!(codec.bin_serialise_into(&point, &mut sink), Ok(3));
    assert_eq!(sink.bytes().as_slice(), &[1, 5, 9]);
    let mut src = Source::new(vec![1, 5, 9]);
    assert_eq!(codec.bin_deserialise_from(&mut src), Ok(point));
}

#[test]
fn sum_empty_variant_decodes_from_discriminant_alone() {
    let codec = red_point();
    let red = Value::Case(0, vec![]);
    assert_eq!(codec.serialised_length(&red), 1);
    let mut sink = Sink::new(8);
    assert_eq!(codec.bin_serialise_into(&red, &mut sink), Ok(1));
    assert_eq!(sink.bytes().as_slice(), &[0]);
    let mut src = Source::new(vec![0]);
    assert_eq!(codec.bin_deserialise_from(&mut src), Ok(red));
}

#[test]
fn sum_unknown_discriminant_is_rejected_with_raw_value() {
    let codec = red_point();
    let mut src = Source::new(vec![2, 5, 9]);
    assert_eq!(
        codec.bin_deserialise_from(&mut src),
        Err(DecodeError::BadDiscriminant(2))
    );
}

#[test]
fn wide_discriminant_is_carried_widened() {
    let codec = Codec::new(Shape::Sum {
        disc: Some(IntWidth::U16),
        variants: vec![variant("Only", 7, vec![])],
    })
    .unwrap();
    let mut src = Source::new(vec![1, 5]);
    assert_eq!(
        codec.bin_deserialise_from(&mut src),
        Err(DecodeError::BadDiscriminant(0x0105))
    );
}

#[test]
fn nested_product_inside_sum_composes() {
    let inner = Shape::Product(vec![leaf("lo", IntWidth::U8), leaf("hi", IntWidth::U16)]);
    let codec = Codec::new(Shape::Sum {
        disc: Some(IntWidth::U8),
        variants: vec![
            variant("Empty", 0, vec![]),
            variant("Pair", 3, vec![nested("inner", inner), leaf("tail", IntWidth::U8)]),
        ],
    })
    .unwrap();
    let value = Value::Case(
        1,
        vec![
            Value::Record(vec![Value::Uint(9), Value::Uint(0x0203)]),
            Value::Uint(0xAA),
        ],
    );
    assert!(codec.accepts(&value));
    assert_eq!(codec.serialised_length(&value), 5);
    let mut sink = Sink::new(8);
    assert_eq!(codec.bin_serialise_into(&value, &mut sink), Ok(5));
    assert_eq!(sink.bytes().as_slice(), &[3, 9, 2, 3, 0xAA]);
    let mut src = Source::new(vec![3, 9, 2, 3, 0xAA]);
    assert_eq!(codec.bin_deserialise_from(&mut src), Ok(value));
}

#[test]
fn sink_failure_mid_serialize_keeps_earlier_fields_only() {
    let codec = Codec::new(Shape::Product(vec![
        positional(IntWidth::U16),
        positional(IntWidth::U16),
    ]))
    .unwrap();
    let value = Value::Record(vec![Value::Uint(0x0102), Value::Uint(0x0304)]);
    let mut sink = Sink::new(3);
    assert_eq!(
        codec.bin_serialise_into(&value, &mut sink),
        Err(torserde_core::codec::IoError)
    );
    // The first field was written whole; nothing of the second followed.
    assert_eq!(sink.bytes().as_slice(), &[1, 2]);
}

#[test]
fn sink_with_exact_capacity_succeeds() {
    let codec = Codec::new(Shape::Product(vec![
        positional(IntWidth::U16),
        positional(IntWidth::U16),
    ]))
    .unwrap();
    let value = Value::Record(vec![Value::Uint(0x0102), Value::Uint(0x0304)]);
    let mut sink = Sink::new(4);
    assert_eq!(codec.bin_serialise_into(&value, &mut sink), Ok(4));
    assert_eq!(sink.bytes().as_slice(), &[1, 2, 3, 4]);
}

#[test]
fn round_trip_all_leaf_widths() {
    let codec = Codec::new(Shape::Product(vec![
        positional(IntWidth::U8),
        positional(IntWidth::U16),
        positional(IntWidth::U32),
        positional(IntWidth::U64),
        positional(IntWidth::U128),
    ]))
    .unwrap();
    let value = Value::Record(vec![
        Value::Uint(0xFF),
        Value::Uint(0xFFFF),
        Value::Uint(0x01020304),
        Value::Uint(0xFFFF_FFFF_FFFF_FFFF),
        Value::Uint(u128::MAX),
    ]);
    assert!(codec.accepts(&value));
    let expected_len = 1 + 2 + 4 + 8 + 16;
    assert_eq!(codec.serialised_length(&value), expected_len);
    let mut sink = Sink::new(64);
    assert_eq!(codec.bin_serialise_into(&value, &mut sink), Ok(expected_len));
    let mut src = Source::new(sink.bytes().clone());
    assert_eq!(codec.bin_deserialise_from(&mut src), Ok(value));
    assert_eq!(src.pos(), expected_len as usize);
}

#[test]
fn big_endian_leaf_encoding() {
    let codec = Codec::new(Shape::Product(vec![positional(IntWidth::U32)])).unwrap();
    let value = Value::Record(vec![Value::Uint(0x01020304)]);
    let mut sink = Sink::new(4);
    assert_eq!(codec.bin_serialise_into(&value, &mut sink), Ok(4));
    assert_eq!(sink.bytes().as_slice(), &[1, 2, 3, 4]);
}

#[test]
fn length_matches_serialized_byte_count() {
    let codec = red_point();
    for value in [
        Value::Case(0, vec![]),
        Value::Case(1, vec![Value::Uint(0), Value::Uint(255)]),
    ] {
        let mut sink = Sink::new(16);
        let written = codec.bin_serialise_into(&value, &mut sink).unwrap();
        assert_eq!(written, codec.serialised_length(&value));
        assert_eq!(sink.bytes().len() as u32, codec.serialised_length(&value));
    }
}

#[test]
fn discriminant_is_first_bytes_and_decodes_back() {
    let codec = Codec::new(Shape::Sum {
        disc: Some(IntWidth::U16),
        variants: vec![
            variant("A", 0x0102, vec![leaf("v", IntWidth::U8)]),
            variant("B", 0x0304, vec![]),
        ],
    })
    .unwrap();
    let value = Value::Case(0, vec![Value::Uint(9)]);
    let mut sink = Sink::new(8);
    assert_eq!(codec.bin_serialise_into(&value, &mut sink), Ok(3));
    assert_eq!(&sink.bytes().as_slice()[..2], &[1, 2]);
    let mut src = Source::new(sink.bytes().clone());
    assert_eq!(codec.bin_deserialise_from(&mut src), Ok(value));
}

#[test]
fn field_order_is_observable_on_the_wire() {
    let forward = Codec::new(Shape::Product(vec![
        leaf("a", IntWidth::U8),
        leaf("b", IntWidth::U16),
    ]))
    .unwrap();
    let swapped = Codec::new(Shape::Product(vec![
        leaf("b", IntWidth::U16),
        leaf("a", IntWidth::U8),
    ]))
    .unwrap();
    let mut fwd_sink = Sink::new(8);
    forward
        .bin_serialise_into(
            &Value::Record(vec![Value::Uint(1), Value::Uint(2)]),
            &mut fwd_sink,
        )
        .unwrap();
    let mut swp_sink = Sink::new(8);
    swapped
        .bin_serialise_into(
            &Value::Record(vec![Value::Uint(2), Value::Uint(1)]),
            &mut swp_sink,
        )
        .unwrap();
    assert_eq!(fwd_sink.bytes().as_slice(), &[1, 0, 2]);
    assert_eq!(swp_sink.bytes().as_slice(), &[0, 2, 1]);
    assert_ne!(fwd_sink.bytes(), swp_sink.bytes());
}

#[test]
fn field_names_do_not_reach_the_wire() {
    let named = Codec::new(Shape::Product(vec![
        leaf("a", IntWidth::U8),
        leaf("b", IntWidth::U8),
    ]))
    .unwrap();
    let bare = Codec::new(Shape::Product(vec![
        positional(IntWidth::U8),
        positional(IntWidth::U8),
    ]))
    .unwrap();
    let value = Value::Record(vec![Value::Uint(4), Value::Uint(5)]);
    let mut named_sink = Sink::new(8);
    named.bin_serialise_into(&value, &mut named_sink).unwrap();
    let mut bare_sink = Sink::new(8);
    bare.bin_serialise_into(&value, &mut bare_sink).unwrap();
    assert_eq!(named_sink.bytes(), bare_sink.bytes());
}

#[test]
fn generation_rejects_zero_field_product() {
    assert_eq!(
        Codec::new(Shape::Product(vec![])).err(),
        Some(GenError::ZeroFieldProduct)
    );
}

#[test]
fn generation_rejects_nested_zero_field_product() {
    let shape = Shape::Product(vec![nested("inner", Shape::Product(vec![]))]);
    assert_eq!(Codec::new(shape).err(), Some(GenError::ZeroFieldProduct));
}

#[test]
fn generation_rejects_sum_without_discriminant_width() {
    let shape = Shape::Sum { disc: None, variants: vec![variant("Red", 0, vec![])] };
    assert_eq!(
        Codec::new(shape).err(),
        Some(GenError::MissingDiscriminantWidth)
    );
}

#[test]
fn generation_rejects_union() {
    assert_eq!(Codec::new(Shape::Union).err(), Some(GenError::UnsupportedUnion));
    let nested_union = Shape::Product(vec![nested("u", Shape::Union)]);
    assert_eq!(Codec::new(nested_union).err(), Some(GenError::UnsupportedUnion));
}

#[test]
fn decode_fails_on_short_input() {
    let codec = Codec::new(Shape::Product(vec![positional(IntWidth::U32)])).unwrap();
    let mut src = Source::new(vec![1, 2, 3]);
    assert_eq!(
        codec.bin_deserialise_from(&mut src),
        Err(DecodeError::UnexpectedEnd)
    );
}

#[test]
fn decode_fails_when_payload_is_short() {
    let codec = red_point();
    let mut src = Source::new(vec![1, 5]);
    assert_eq!(
        codec.bin_deserialise_from(&mut src),
        Err(DecodeError::UnexpectedEnd)
    );
}

#[test]
fn duplicate_discriminant_decodes_to_first_declared_variant() {
    let codec = Codec::new(Shape::Sum {
        disc: Some(IntWidth::U8),
        variants: vec![
            variant("First", 4, vec![leaf("v", IntWidth::U8)]),
            variant("Second", 4, vec![leaf("v", IntWidth::U8)]),
        ],
    })
    .unwrap();
    let second = Value::Case(1, vec![Value::Uint(8)]);
    let mut sink = Sink::new(8);
    assert_eq!(codec.bin_serialise_into(&second, &mut sink), Ok(2));
    let mut src = Source::new(sink.bytes().clone());
    // Decode matches declaration order: the first variant with the value wins.
    assert_eq!(
        codec.bin_deserialise_from(&mut src),
        Ok(Value::Case(0, vec![Value::Uint(8)]))
    );
}

#[test]
fn accepts_checks_widths_arity_and_variant_index() {
    let codec = red_point();
    assert!(codec.accepts(&Value::Case(0, vec![])));
    assert!(codec.accepts(&Value::Case(1, vec![Value::Uint(0), Value::Uint(255)])));
    // A u8 field cannot hold 256.
    assert!(!codec.accepts(&Value::Case(1, vec![Value::Uint(0), Value::Uint(256)])));
    // Wrong payload arity.
    assert!(!codec.accepts(&Value::Case(1, vec![Value::Uint(0)])));
    // No third variant is declared.
    assert!(!codec.accepts(&Value::Case(2, vec![])));
    // A record is not a value of a sum type.
    assert!(!codec.accepts(&Value::Record(vec![Value::Uint(0)])));
}

#[test]
fn decoding_advances_position_past_one_value_only() {
    let codec = Codec::new(Shape::Product(vec![positional(IntWidth::U8)])).unwrap();
    let mut src = Source::new(vec![10, 20]);
    assert_eq!(
        codec.bin_deserialise_from(&mut src),
        Ok(Value::Record(vec![Value::Uint(10)]))
    );
    assert_eq!(src.pos(), 1);
    assert_eq!(
        codec.bin_deserialise_from(&mut src),
        Ok(Value::Record(vec![Value::Uint(20)]))
    );
    assert_eq!(src.pos(), 2);
}
