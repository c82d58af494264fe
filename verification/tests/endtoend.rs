//! The footer locator and the whole pipeline: magic and length
//! validation, the synthetic metadata block, its negative variants, and
//! unbalanced-nesting failures.

use parmeta::error::{DecodeError, FormatError, MetadataError, ProjectionError};
use parmeta::footer::metadata_slice;
use parmeta::project::{parse_metadata, read_file_metadata};
use thrift_codec::data::{Data, Elements, Field, List, Struct};
use thrift_codec::CompactEncode;

/// Wraps a metadata block in the full file layout: leading magic,
/// block, little-endian length, trailing magic.
fn wrap(block: &[u8]) -> Vec<u8> {
    let mut buf = b"PAR1".to_vec();
    buf.extend_from_slice(block);
    buf.extend_from_slice(&(block.len() as u32).to_le_bytes());
    buf.extend_from_slice(b"PAR1");
    buf
}

fn schema_element(name: &[u8]) -> Struct {
    Struct::new(vec![Field::new(4, Data::Binary(name.to_vec()))])
}

/// The synthetic metadata block: version 1, the root element and four
/// columns, row count 3.
fn synthetic_block() -> Vec<u8> {
    let elems = vec![
        schema_element(b"schema"),
        schema_element(b"one"),
        schema_element(b"two"),
        schema_element(b"three"),
        schema_element(b"__index_level_0__"),
    ];
    let top = Struct::new(vec![
        Field::new(1, Data::I32(1)),
        Field::new(2, Data::List(List::new(Elements::Struct(elems)))),
        Field::new(3, Data::I64(3)),
    ]);
    let mut buf = Vec::new();
    top.compact_encode(&mut buf).unwrap();
    buf
}

#[test]
fn footer_bad_header_magic() {
    let mut buf = wrap(&synthetic_block());
    buf[0] = b'X';
    assert_eq!(metadata_slice(&buf), Err(FormatError::BadHeaderMagic));
}

#[test]
fn footer_bad_footer_magic() {
    let mut buf = wrap(&synthetic_block());
    let n = buf.len();
    buf[n - 1] = b'X';
    assert_eq!(metadata_slice(&buf), Err(FormatError::BadFooterMagic));
}

#[test]
fn footer_length_past_start_rejected() {
    // A length field that would place the metadata start before the
    // leading magic.
    let block = synthetic_block();
    let mut buf = b"PAR1".to_vec();
    buf.extend_from_slice(&block);
    buf.extend_from_slice(&(block.len() as u32 + 1).to_le_bytes());
    buf.extend_from_slice(b"PAR1");
    assert_eq!(metadata_slice(&buf), Err(FormatError::TruncatedFile));
}

#[test]
fn footer_too_short_rejected() {
    assert_eq!(
        metadata_slice(&b"PAR1PAR1".to_vec()),
        Err(FormatError::TruncatedFile)
    );
}

#[test]
fn footer_yields_exact_block() {
    let block = synthetic_block();
    let buf = wrap(&block);
    assert_eq!(metadata_slice(&buf), Ok(block));
}

#[test]
fn end_to_end_synthetic_metadata() {
    let buf = wrap(&synthetic_block());
    let m = read_file_metadata(&buf).unwrap();
    assert_eq!(m.version, 1);
    assert_eq!(m.row_count, 3);
    let names: Vec<Vec<u8>> = m.schema.iter().map(|e| e.name()).collect();
    assert_eq!(
        names,
        vec![
            b"schema".to_vec(),
            b"one".to_vec(),
            b"two".to_vec(),
            b"three".to_vec(),
            b"__index_level_0__".to_vec(),
        ]
    );
}

#[test]
fn end_to_end_missing_root_name() {
    // The root schema element's name field is omitted.
    let elems = vec![
        Struct::new(vec![Field::new(5, Data::I32(0))]),
        schema_element(b"one"),
    ];
    let top = Struct::new(vec![
        Field::new(1, Data::I32(1)),
        Field::new(2, Data::List(List::new(Elements::Struct(elems)))),
        Field::new(3, Data::I64(3)),
    ]);
    let mut block = Vec::new();
    top.compact_encode(&mut block).unwrap();
    assert_eq!(
        read_file_metadata(&wrap(&block)),
        Err(MetadataError::Projection(ProjectionError::MissingRootSchema))
    );
}

#[test]
fn end_to_end_wrong_root_name() {
    let elems = vec![schema_element(b"not_root"), schema_element(b"one")];
    let top = Struct::new(vec![
        Field::new(1, Data::I32(1)),
        Field::new(2, Data::List(List::new(Elements::Struct(elems)))),
        Field::new(3, Data::I64(3)),
    ]);
    let mut block = Vec::new();
    top.compact_encode(&mut block).unwrap();
    assert_eq!(
        read_file_metadata(&wrap(&block)),
        Err(MetadataError::Projection(ProjectionError::MissingRootSchema))
    );
}

#[test]
fn missing_stop_byte_fails() {
    // Dropping the stop byte of an inner schema-element struct makes a
    // later read run off the end instead of silently succeeding.
    let block = synthetic_block();
    let truncated = block[..block.len() - 1].to_vec();
    assert!(parse_metadata(truncated).is_err());
}

#[test]
fn truncated_mid_field_fails() {
    let block = synthetic_block();
    let truncated = block[..block.len() / 2].to_vec();
    assert!(parse_metadata(truncated).is_err());
}

#[test]
fn empty_struct_is_premature_stop() {
    assert_eq!(
        parse_metadata(vec![0x00]),
        Err(MetadataError::Decode(DecodeError::UnexpectedStop))
    );
}

#[test]
fn wrong_version_field_id_rejected() {
    let top = Struct::new(vec![Field::new(3, Data::I32(1))]);
    let mut block = Vec::new();
    top.compact_encode(&mut block).unwrap();
    assert_eq!(
        parse_metadata(block),
        Err(MetadataError::Projection(ProjectionError::UnexpectedField))
    );
}

#[test]
fn missing_row_count_rejected() {
    let elems = vec![schema_element(b"schema")];
    let top = Struct::new(vec![
        Field::new(1, Data::I32(1)),
        Field::new(2, Data::List(List::new(Elements::Struct(elems)))),
    ]);
    let mut block = Vec::new();
    top.compact_encode(&mut block).unwrap();
    assert_eq!(
        parse_metadata(block),
        Err(MetadataError::Decode(DecodeError::UnexpectedStop))
    );
}

#[test]
fn column_without_name_rejected() {
    let elems = vec![
        schema_element(b"schema"),
        Struct::new(vec![Field::new(5, Data::I32(0))]),
    ];
    let top = Struct::new(vec![
        Field::new(1, Data::I32(1)),
        Field::new(2, Data::List(List::new(Elements::Struct(elems)))),
        Field::new(3, Data::I64(3)),
    ]);
    let mut block = Vec::new();
    top.compact_encode(&mut block).unwrap();
    assert_eq!(
        parse_metadata(block),
        Err(MetadataError::Projection(ProjectionError::UnexpectedField))
    );
}
