//! Error taxonomy: footer-level format errors, protocol-level decode
//! errors, and projection errors for streams that are well formed but do
//! not match the expected metadata shape.

use vstd::prelude::*;

verus! {

/// The input buffer is not this file format, or is truncated.
#[derive(Clone, Copy, Debug, PartialEq, Eq, Structural)]
pub enum FormatError {
    /// The first four bytes are not the magic marker.
    BadHeaderMagic,
    /// The last four bytes are not the magic marker.
    BadFooterMagic,
    /// The buffer is too short, or the length field would place the
    /// metadata block outside the buffer.
    TruncatedFile,
}

/// Protocol-level malformation of the serialized stream.
#[derive(Clone, Copy, Debug, PartialEq, Eq, Structural)]
pub enum DecodeError {
    /// The buffer ended while a fixed-size or length-prefixed value was
    /// still being read.
    UnexpectedEof,
    /// A stop byte stood where the caller expected a field.
    UnexpectedStop,
    /// A wire-type tag outside the known set.
    UnknownType,
    /// A stop byte would pop an empty field-id context stack.
    UnbalancedNesting,
    /// A decoded integer does not fit its target width (over-long
    /// varint, out-of-range zigzag value, or field-id overflow).
    Overflow,
}

/// The stream decoded cleanly but does not have the expected metadata
/// shape.
#[derive(Clone, Copy, Debug, PartialEq, Eq, Structural)]
pub enum ProjectionError {
    /// An expected field id or type does not match.
    UnexpectedField,
    /// The first schema element's name is absent or is not the reserved
    /// root marker.
    MissingRootSchema,
}

/// Any failure of the whole pipeline: locate the footer, decode the
/// block, project the metadata.
#[derive(Clone, Copy, Debug, PartialEq, Eq, Structural)]
pub enum MetadataError {
    Format(FormatError),
    Decode(DecodeError),
    Projection(ProjectionError),
}

} // verus!
