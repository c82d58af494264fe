//! The generic value tree: round trips against the reference encoder
//! for primitives and nested structs, boundary collection sizes, the
//! field-id delta law on concrete bytes, and hand-built collection
//! encodings.

use parmeta::decoder::CompactReader;
use parmeta::error::DecodeError;
use parmeta::value::ValueNode;
use parmeta::wire::WireType;
use thrift_codec::data::{Data, Elements, Field, List, Struct};
use thrift_codec::CompactEncode;

fn encode_struct(s: &Struct) -> Vec<u8> {
    let mut buf = Vec::new();
    s.compact_encode(&mut buf).unwrap();
    buf
}

fn decode_struct(bytes: Vec<u8>) -> ValueNode {
    let mut r = CompactReader::new(bytes);
    r.read_value(WireType::Struct).unwrap()
}

#[test]
fn roundtrip_primitive_fields() {
    let s = Struct::new(vec![
        Field::new(1, Data::Bool(true)),
        Field::new(2, Data::Bool(false)),
        Field::new(3, Data::I8(-7)),
        Field::new(4, Data::I16(-300)),
        Field::new(5, Data::I32(70000)),
        Field::new(6, Data::I64(-5_000_000_000)),
        Field::new(7, Data::Double(1.5)),
        Field::new(8, Data::Binary(b"abc".to_vec())),
    ]);
    let v = decode_struct(encode_struct(&s));
    assert_eq!(
        v,
        ValueNode::Struct(vec![
            (1, ValueNode::Bool(true)),
            (2, ValueNode::Bool(false)),
            (3, ValueNode::I8(-7)),
            (4, ValueNode::I16(-300)),
            (5, ValueNode::I32(70000)),
            (6, ValueNode::I64(-5_000_000_000)),
            (7, ValueNode::DoubleBits(1.5f64.to_bits())),
            (8, ValueNode::Binary(b"abc".to_vec())),
        ])
    );
}

#[test]
fn roundtrip_binary_lengths() {
    for len in [0usize, 1, 300] {
        let payload = vec![0x41u8; len];
        let s = Struct::new(vec![Field::new(1, Data::Binary(payload.clone()))]);
        let v = decode_struct(encode_struct(&s));
        assert_eq!(v, ValueNode::Struct(vec![(1, ValueNode::Binary(payload))]));
    }
}

#[test]
fn roundtrip_nested_structs_depth_four() {
    let level4 = Struct::new(vec![Field::new(4, Data::I32(4))]);
    let level3 = Struct::new(vec![
        Field::new(3, Data::Struct(level4)),
        Field::new(5, Data::Bool(true)),
    ]);
    let level2 = Struct::new(vec![Field::new(2, Data::Struct(level3))]);
    let level1 = Struct::new(vec![
        Field::new(1, Data::Struct(level2)),
        Field::new(9, Data::I64(9)),
    ]);
    let v = decode_struct(encode_struct(&level1));
    assert_eq!(
        v,
        ValueNode::Struct(vec![
            (
                1,
                ValueNode::Struct(vec![(
                    2,
                    ValueNode::Struct(vec![
                        (3, ValueNode::Struct(vec![(4, ValueNode::I32(4))])),
                        (5, ValueNode::Bool(true)),
                    ])
                )])
            ),
            (9, ValueNode::I64(9)),
        ])
    );
}

#[test]
fn roundtrip_struct_list_boundary_sizes() {
    // Sizes around the four-bit inline-count limit of the header.
    for n in [0usize, 1, 14, 15, 16, 300] {
        let elems: Vec<Struct> = (0..n)
            .map(|i| Struct::new(vec![Field::new(1, Data::I32(i as i32))]))
            .collect();
        let s = Struct::new(vec![Field::new(
            1,
            Data::List(List::new(Elements::Struct(elems))),
        )]);
        let v = decode_struct(encode_struct(&s));
        let expected: Vec<ValueNode> = (0..n)
            .map(|i| ValueNode::Struct(vec![(1, ValueNode::I32(i as i32))]))
            .collect();
        assert_eq!(
            v,
            ValueNode::Struct(vec![(1, ValueNode::List(WireType::Struct, expected))])
        );
    }
}

#[test]
fn field_id_deltas_match_absolute_ids() {
    // A struct with field ids {1, 2, 5, 6}, each field a boolean-true.
    // Delta form: each header byte carries the id delta in its high
    // nibble. Absolute form: a zero delta nibble, then the id as a
    // zigzag varint.
    let deltas = vec![0x11, 0x11, 0x31, 0x11, 0x00];
    let absolute = vec![0x01, 0x02, 0x01, 0x04, 0x01, 0x0A, 0x01, 0x0C, 0x00];
    let expected = ValueNode::Struct(vec![
        (1, ValueNode::Bool(true)),
        (2, ValueNode::Bool(true)),
        (5, ValueNode::Bool(true)),
        (6, ValueNode::Bool(true)),
    ]);
    assert_eq!(decode_struct(deltas), expected);
    assert_eq!(decode_struct(absolute), expected);
}

#[test]
fn mixed_delta_and_absolute_ids_agree() {
    // ids {1, 2, 5, 6} with the third field switched to absolute form.
    let mixed = vec![0x11, 0x11, 0x01, 0x0A, 0x11, 0x00];
    let expected = ValueNode::Struct(vec![
        (1, ValueNode::Bool(true)),
        (2, ValueNode::Bool(true)),
        (5, ValueNode::Bool(true)),
        (6, ValueNode::Bool(true)),
    ]);
    assert_eq!(decode_struct(mixed), expected);
}

#[test]
fn list_of_i32_hand_encoded() {
    // Header: count 2, element type i32; elements zigzag 1 and 2.
    let mut r = CompactReader::new(vec![0x25, 0x02, 0x04]);
    assert_eq!(
        r.read_value(WireType::List),
        Ok(ValueNode::List(
            WireType::I32,
            vec![ValueNode::I32(1), ValueNode::I32(2)]
        ))
    );
}

#[test]
fn set_of_i32_hand_encoded() {
    let mut r = CompactReader::new(vec![0x15, 0x06]);
    assert_eq!(
        r.read_value(WireType::SetOf),
        Ok(ValueNode::SetOf(WireType::I32, vec![ValueNode::I32(3)]))
    );
}

#[test]
fn list_extended_count_hand_encoded() {
    // Count nibble 15 means the true count follows as a varint.
    let mut bytes = vec![0xF5, 0x10];
    for _ in 0..16 {
        bytes.push(0x02);
    }
    let mut r = CompactReader::new(bytes);
    assert_eq!(
        r.read_value(WireType::List),
        Ok(ValueNode::List(
            WireType::I32,
            (0..16).map(|_| ValueNode::I32(1)).collect()
        ))
    );
}

#[test]
fn map_hand_encoded() {
    // Size 2, key type i32, value type binary, then the pairs.
    let bytes = vec![0x02, 0x58, 0x02, 0x01, 0x61, 0x04, 0x01, 0x62];
    let mut r = CompactReader::new(bytes);
    assert_eq!(
        r.read_value(WireType::MapOf),
        Ok(ValueNode::MapOf(vec![
            (ValueNode::I32(1), ValueNode::Binary(b"a".to_vec())),
            (ValueNode::I32(2), ValueNode::Binary(b"b".to_vec())),
        ]))
    );
}

#[test]
fn empty_map_hand_encoded() {
    let mut r = CompactReader::new(vec![0x00]);
    assert_eq!(r.read_value(WireType::MapOf), Ok(ValueNode::MapOf(vec![])));
}

#[test]
fn bool_list_elements() {
    // Bool elements in collections are single bytes; 0 and 2 mean
    // false, 1 means true.
    let mut r = CompactReader::new(vec![0x31, 0x01, 0x00, 0x02]);
    assert_eq!(
        r.read_value(WireType::List),
        Ok(ValueNode::List(
            WireType::BoolTrue,
            vec![
                ValueNode::Bool(true),
                ValueNode::Bool(false),
                ValueNode::Bool(false)
            ]
        ))
    );
}

#[test]
fn unknown_type_tag_rejected() {
    // Low nibble 13 is outside the known wire types.
    let mut r = CompactReader::new(vec![0x1D]);
    r.read_struct_begin();
    assert_eq!(r.read_field_begin(), Err(DecodeError::UnknownType));
}

#[test]
fn unbalanced_stop_rejected() {
    // A stop byte with no struct context to pop.
    let mut r = CompactReader::new(vec![0x00]);
    assert_eq!(r.read_field_begin(), Err(DecodeError::UnbalancedNesting));
}

#[test]
fn field_id_overflow_rejected() {
    // An absolute id beyond the 16-bit range.
    let mut buf = vec![0x05];
    40000i32.compact_encode(&mut buf).unwrap();
    let mut r = CompactReader::new(buf);
    r.read_struct_begin();
    assert_eq!(r.read_field_begin(), Err(DecodeError::Overflow));
}

#[test]
fn stop_field_pops_context() {
    // After a nested struct ends, the outer delta context resumes.
    let s = Struct::new(vec![
        Field::new(1, Data::Struct(Struct::new(vec![Field::new(7, Data::Bool(true))]))),
        Field::new(2, Data::I32(5)),
    ]);
    let v = decode_struct(encode_struct(&s));
    assert_eq!(
        v,
        ValueNode::Struct(vec![
            (1, ValueNode::Struct(vec![(7, ValueNode::Bool(true))])),
            (2, ValueNode::I32(5)),
        ])
    );
}

#[test]
fn truncated_value_rejected() {
    // A struct whose binary field promises more bytes than remain.
    let bytes = vec![0x18, 0x05, 0x61, 0x62];
    let mut r = CompactReader::new(bytes);
    assert_eq!(
        r.read_value(WireType::Struct),
        Err(DecodeError::UnexpectedEof)
    );
}
